//! A software rasterizer: a triangulated mesh is carried through a
//! camera matrix stack, scan-converted triangle by triangle with exact
//! barycentric coverage and a depth test, and shaded per pixel by one
//! of three shader variants that sample the mesh's material maps.
//!
//! Every real-valued quantity is a fixed-point scalar (`fixed`), so the
//! whole pipeline computes with exact integers and every stage carries
//! a contract that pins its result down.

pub mod camera;
pub mod fixed;
pub mod image_buf;
pub mod linalg;
pub mod model;
pub mod my_gl;
pub mod rgb;
pub mod shaders;
