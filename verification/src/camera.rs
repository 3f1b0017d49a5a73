//! Camera transforms: the view matrix from eye, center and up, and the
//! viewport matrix from the output rectangle.
//!
//! The viewport maps the canonical `[-1, 1]` cube to a pixel box at
//! `(x, y)` of size `(w, h)` with the depth range scaled to the fixed
//! constant 255.  Screen-space coordinates are rounded down to the
//! pixel grid by the homogeneous conversions; that choice is part of
//! this module's contract.

use vstd::prelude::*;
use crate::fixed::{Fx, FX_SCALE, fdiv, i128_fdiv};
use crate::linalg::{Vec3, Vec4, Mat4, vec3_bounded, vec3_is_zero, spec_sub3, spec_cross3,
    spec_normalize3, lemma_cross3_bound_unit, FX_MM};

verus! {

/// Bound on the camera parameters `lookat` accepts.
pub const CAM_LIM: i64 = 68719476736;

/// A point lifted to homogeneous coordinates with `w = 1`.
pub fn v2m(v: Vec3) -> (r: Vec4)
    ensures
        r == (Vec4 { x: v.x, y: v.y, z: v.z, w: Fx { bits: FX_SCALE as i64 } }),
{
    Vec4 { x: v.x, y: v.y, z: v.z, w: Fx { bits: FX_SCALE } }
}

/// Back from homogeneous coordinates: each component divided by `w` and
/// rounded down to the integer grid.
pub fn m2v(m: Vec4) -> (r: Vec3)
    requires
        m.w.bits != 0,
        -90000000000000 <= fdiv(m.x.bits as int, m.w.bits as int) <= 90000000000000,
        -90000000000000 <= fdiv(m.y.bits as int, m.w.bits as int) <= 90000000000000,
        -90000000000000 <= fdiv(m.z.bits as int, m.w.bits as int) <= 90000000000000,
    ensures
        r.x.bits == fdiv(m.x.bits as int, m.w.bits as int) * FX_SCALE,
        r.y.bits == fdiv(m.y.bits as int, m.w.bits as int) * FX_SCALE,
        r.z.bits == fdiv(m.z.bits as int, m.w.bits as int) * FX_SCALE,
{
    let qx: i128 = i128_fdiv(m.x.bits as i128, m.w.bits as i128);
    let qy: i128 = i128_fdiv(m.y.bits as i128, m.w.bits as i128);
    let qz: i128 = i128_fdiv(m.z.bits as i128, m.w.bits as i128);
    Vec3 {
        x: Fx { bits: (qx as i64) * FX_SCALE },
        y: Fx { bits: (qy as i64) * FX_SCALE },
        z: Fx { bits: (qz as i64) * FX_SCALE },
    }
}

/// The viewport matrix as a value; half-depth 127.5 is the fixed-point
/// 12750000.
pub open spec fn spec_viewport(x: Fx, y: Fx, w: Fx, h: Fx) -> Mat4 {
    Mat4 {
        r0: Vec4 {
            x: Fx { bits: fdiv(w.bits as int, 2) as i64 },
            y: Fx { bits: 0 },
            z: Fx { bits: 0 },
            w: Fx { bits: (x.bits + fdiv(w.bits as int, 2)) as i64 },
        },
        r1: Vec4 {
            x: Fx { bits: 0 },
            y: Fx { bits: fdiv(h.bits as int, 2) as i64 },
            z: Fx { bits: 0 },
            w: Fx { bits: (y.bits + fdiv(h.bits as int, 2)) as i64 },
        },
        r2: Vec4 {
            x: Fx { bits: 0 },
            y: Fx { bits: 0 },
            z: Fx { bits: 12750000 },
            w: Fx { bits: 12750000 },
        },
        r3: Vec4 {
            x: Fx { bits: 0 },
            y: Fx { bits: 0 },
            z: Fx { bits: 0 },
            w: Fx { bits: FX_SCALE as i64 },
        },
    }
}

/// The view matrix as a value: the rows carry the right-handed basis
/// built from the view direction and the up vector, the last column the
/// negated center.
pub open spec fn spec_lookat(eye: Vec3, center: Vec3, up: Vec3) -> Mat4 {
    let zv = spec_normalize3(spec_sub3(eye, center));
    let xv = spec_normalize3(spec_cross3(up, zv));
    let yv = spec_normalize3(spec_cross3(zv, xv));
    Mat4 {
        r0: Vec4 { x: xv.x, y: xv.y, z: xv.z, w: Fx { bits: (-center.x.bits) as i64 } },
        r1: Vec4 { x: yv.x, y: yv.y, z: yv.z, w: Fx { bits: (-center.y.bits) as i64 } },
        r2: Vec4 { x: zv.x, y: zv.y, z: zv.z, w: Fx { bits: (-center.z.bits) as i64 } },
        r3: Vec4 {
            x: Fx { bits: 0 },
            y: Fx { bits: 0 },
            z: Fx { bits: 0 },
            w: Fx { bits: FX_SCALE as i64 },
        },
    }
}

/// The viewport matrix: scales and offsets the device cube onto the
/// pixel box at `(x, y)` of size `(w, h)`, with depth scaled to
/// `[0, 255]`.
pub fn viewport(x: Fx, y: Fx, w: Fx, h: Fx) -> (m: Mat4)
    requires
        -FX_MM <= x.bits <= FX_MM,
        -FX_MM <= y.bits <= FX_MM,
        -FX_MM <= w.bits <= FX_MM,
        -FX_MM <= h.bits <= FX_MM,
    ensures
        m == spec_viewport(x, y, w, h),
{
    proof {
        crate::fixed::lemma_fdiv_bounds(w.bits as int, 2);
        crate::fixed::lemma_fdiv_bounds(h.bits as int, 2);
    }
    let hw: i64 = i128_fdiv(w.bits as i128, 2) as i64;
    let hh: i64 = i128_fdiv(h.bits as i128, 2) as i64;
    let z: Fx = Fx { bits: 0 };
    Mat4 {
        r0: Vec4 { x: Fx { bits: hw }, y: z, z: z, w: Fx { bits: x.bits + hw } },
        r1: Vec4 { x: z, y: Fx { bits: hh }, z: z, w: Fx { bits: y.bits + hh } },
        r2: Vec4 { x: z, y: z, z: Fx { bits: 12750000 }, w: Fx { bits: 12750000 } },
        r3: Vec4 { x: z, y: z, z: z, w: Fx { bits: FX_SCALE } },
    }
}

/// The view matrix of a right-handed camera basis at `eye` looking at
/// `center` with up direction `up`.  Degenerate bases — a zero view
/// direction, or an up direction parallel to it — are left out by the
/// precondition; callers must avoid them.
pub fn lookat(eye: Vec3, center: Vec3, up: Vec3) -> (m: Mat4)
    requires
        vec3_bounded(eye, CAM_LIM as int),
        vec3_bounded(center, CAM_LIM as int),
        vec3_bounded(up, CAM_LIM as int),
        !vec3_is_zero(spec_sub3(eye, center)),
        !vec3_is_zero(spec_cross3(up, spec_normalize3(spec_sub3(eye, center)))),
        !vec3_is_zero(
            spec_cross3(
                spec_normalize3(spec_sub3(eye, center)),
                spec_normalize3(spec_cross3(up, spec_normalize3(spec_sub3(eye, center)))),
            ),
        ),
    ensures
        m == spec_lookat(eye, center, up),
{
    let zv: Vec3 = eye.sub(center).normalize();
    proof {
        lemma_cross3_bound_unit(up, zv, CAM_LIM as int);
    }
    let xv: Vec3 = up.cross(zv).normalize();
    proof {
        lemma_cross3_bound_unit(zv, xv, FX_SCALE as int);
    }
    let yv: Vec3 = zv.cross(xv).normalize();
    Mat4 {
        r0: Vec4 { x: xv.x, y: xv.y, z: xv.z, w: Fx { bits: -center.x.bits } },
        r1: Vec4 { x: yv.x, y: yv.y, z: yv.z, w: Fx { bits: -center.y.bits } },
        r2: Vec4 { x: zv.x, y: zv.y, z: zv.z, w: Fx { bits: -center.z.bits } },
        r3: Vec4 {
            x: Fx { bits: 0 },
            y: Fx { bits: 0 },
            z: Fx { bits: 0 },
            w: Fx { bits: FX_SCALE },
        },
    }
}

} // verus!
