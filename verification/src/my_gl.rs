//! Triangle scan conversion.
//!
//! Screen points arrive as homogeneous fixed-point 4-vectors; their pixel
//! position is the rounded-down `x` and `y`.  Barycentric weights of a
//! pixel against a triangle are kept as exact integers `(w0, w1, w2)`
//! over a positive common denominator `den`, so no precision is lost:
//! the weights sum to `den`, and a pixel is covered exactly when all
//! three are nonnegative.  A degenerate (zero-area) triangle yields the
//! sentinel `(-1, 1, 1)` over `1`, which fails the coverage test at
//! every pixel.
//!
//! Depth convention: smaller is nearer, uniformly.  A fragment's depth is
//! the perspective-corrected `z / w`, rounded to the nearest integer and
//! clamped into `[0, 255]`; the depth buffer starts at the far sentinel
//! `DEPTH_FAR` and a pixel is overwritten exactly when the new fragment
//! is at least as near as the stored depth.

use vstd::prelude::*;
use crate::fixed::{Fx, FX_SCALE, fdiv, i128_fdiv};
use crate::linalg::{Vec3, Vec4, Mat4, vec3_bounded, lemma_fdiv_abs_le,
    lemma_prod_bound, FX_MM, FX_PT};
use crate::image_buf::{RasterImage, image_dims, image_pixels};
use crate::model::Model;
use crate::rgb::Color;
use crate::shaders::IShader;

verus! {


/// Bound on the pixel coordinates that screen points can reach.
pub const PX_LIM: i64 = 1048576;

/// The far sentinel of the depth buffer; every fragment depth lies in
/// `[0, 255]`, strictly nearer.
pub const DEPTH_FAR: i32 = 2147483647;

/// A homogeneous screen point the scan converter accepts: bounded
/// coordinates and a positive homogeneous `w`.
pub open spec fn screen_pt_wf(p: Vec4) -> bool {
    &&& -FX_PT <= p.x.bits <= FX_PT
    &&& -FX_PT <= p.y.bits <= FX_PT
    &&& -FX_PT <= p.z.bits <= FX_PT
    &&& 0 < p.w.bits <= FX_PT
}

/// The pixel column of a screen point: its `x`, rounded down.
pub open spec fn spec_px(p: Vec4) -> int {
    fdiv(p.x.bits as int, FX_SCALE as int)
}

/// The pixel row of a screen point: its `y`, rounded down.
pub open spec fn spec_py(p: Vec4) -> int {
    fdiv(p.y.bits as int, FX_SCALE as int)
}

/// Barycentric weights of pixel `(px, py)` against the pixel triangle
/// `(x0, y0) (x1, y1) (x2, y2)`, before sign normalization: the cross
/// product of `(x2-x0, x1-x0, x0-px)` and `(y2-y0, y1-y0, y0-py)` read
/// as `(w0, w1, w2, den)` with `w0 + w1 + w2 == den`.
pub open spec fn spec_bary_raw(
    x0: int, y0: int, x1: int, y1: int, x2: int, y2: int, px: int, py: int,
) -> (int, int, int, int) {
    let ux = (x1 - x0) * (y0 - py) - (x0 - px) * (y1 - y0);
    let uy = (x0 - px) * (y2 - y0) - (x2 - x0) * (y0 - py);
    let uz = (x2 - x0) * (y1 - y0) - (x1 - x0) * (y2 - y0);
    (uz - ux - uy, uy, ux, uz)
}

/// A degenerate pixel triangle: zero signed area.
pub open spec fn spec_degenerate(x0: int, y0: int, x1: int, y1: int, x2: int, y2: int) -> bool {
    (x2 - x0) * (y1 - y0) - (x1 - x0) * (y2 - y0) == 0
}

/// Barycentric weights with a positive denominator; a degenerate
/// triangle yields the sentinel `(-1, 1, 1)` over `1`.
pub open spec fn spec_bary(
    x0: int, y0: int, x1: int, y1: int, x2: int, y2: int, px: int, py: int,
) -> (int, int, int, int) {
    let r = spec_bary_raw(x0, y0, x1, y1, x2, y2, px, py);
    if r.3 == 0 {
        (-1, 1, 1, 1)
    } else if r.3 < 0 {
        (-r.0, -r.1, -r.2, -r.3)
    } else {
        r
    }
}

/// The weights of a covered pixel: all nonnegative, over a positive
/// denominator they sum to.
pub open spec fn bary_valid(w0: int, w1: int, w2: int, den: int) -> bool {
    &&& 1 <= den <= 0x400000000000
    &&& -0x400000000000 <= w0 <= 0x400000000000
    &&& -0x400000000000 <= w1 <= 0x400000000000
    &&& -0x400000000000 <= w2 <= 0x400000000000
    &&& w0 + w1 + w2 == den
}

pub open spec fn bary_inside(w0: int, w1: int, w2: int) -> bool {
    w0 >= 0 && w1 >= 0 && w2 >= 0
}

/// Exact barycentric weights of one pixel.
#[derive(Clone, Copy, PartialEq, Eq, Structural, Debug)]
pub struct Bary {
    pub w0: i64,
    pub w1: i64,
    pub w2: i64,
    pub den: i64,
}

impl Bary {
    pub open spec fn quad(self) -> (int, int, int, int) {
        (self.w0 as int, self.w1 as int, self.w2 as int, self.den as int)
    }
}

/// Barycentric weights of `spec_bary` for one pixel of the screen
/// triangle `pts`.
pub open spec fn spec_bary_at(pts: Seq<Vec4>, px: int, py: int) -> (int, int, int, int) {
    spec_bary(
        spec_px(pts[0]),
        spec_py(pts[0]),
        spec_px(pts[1]),
        spec_py(pts[1]),
        spec_px(pts[2]),
        spec_py(pts[2]),
        px,
        py,
    )
}

/// The rounded-down pixel coordinate of a bounded screen point is small.
proof fn lemma_px_bound(p: Vec4)
    requires
        screen_pt_wf(p),
    ensures
        -687195 <= spec_px(p) <= 687195,
        -687195 <= spec_py(p) <= 687195,
{
    lemma_fdiv_abs_le(p.x.bits as int, FX_SCALE as int, 687195);
    lemma_fdiv_abs_le(p.y.bits as int, FX_SCALE as int, 687195);
}

/// Computes the barycentric weights of pixel `(px, py)` against the
/// screen triangle `pts`.
pub fn barycentric(pts: &Vec<Vec4>, px: i64, py: i64) -> (b: Bary)
    requires
        pts@.len() == 3,
        screen_pt_wf(pts@[0]),
        screen_pt_wf(pts@[1]),
        screen_pt_wf(pts@[2]),
        -PX_LIM <= px <= PX_LIM,
        -PX_LIM <= py <= PX_LIM,
    ensures
        b.quad() == spec_bary_at(pts@, px as int, py as int),
        b.den >= 1,
        b.w0 + b.w1 + b.w2 == b.den,
        bary_valid(b.w0 as int, b.w1 as int, b.w2 as int, b.den as int),
{
    proof {
        lemma_px_bound(pts@[0]);
        lemma_px_bound(pts@[1]);
        lemma_px_bound(pts@[2]);
    }
    let x0: i64 = pts[0].x.floor_int();
    let y0: i64 = pts[0].y.floor_int();
    let x1: i64 = pts[1].x.floor_int();
    let y1: i64 = pts[1].y.floor_int();
    let x2: i64 = pts[2].x.floor_int();
    let y2: i64 = pts[2].y.floor_int();
    proof {
        lemma_prod_bound((x1 - x0) as int, (y0 - py) as int, 2000000);
        lemma_prod_bound((x0 - px) as int, (y1 - y0) as int, 2000000);
        lemma_prod_bound((x0 - px) as int, (y2 - y0) as int, 2000000);
        lemma_prod_bound((x2 - x0) as int, (y0 - py) as int, 2000000);
        lemma_prod_bound((x2 - x0) as int, (y1 - y0) as int, 2000000);
        lemma_prod_bound((x1 - x0) as int, (y2 - y0) as int, 2000000);
    }
    let ux: i64 = (x1 - x0) * (y0 - py) - (x0 - px) * (y1 - y0);
    let uy: i64 = (x0 - px) * (y2 - y0) - (x2 - x0) * (y0 - py);
    let uz: i64 = (x2 - x0) * (y1 - y0) - (x1 - x0) * (y2 - y0);
    if uz == 0 {
        Bary { w0: -1, w1: 1, w2: 1, den: 1 }
    } else if uz < 0 {
        Bary { w0: -(uz - ux - uy), w1: -uy, w2: -ux, den: -uz }
    } else {
        Bary { w0: uz - ux - uy, w1: uy, w2: ux, den: uz }
    }
}

/// Numerator of the interpolated `z`: the weighted sum of the three
/// vertex depths.
pub open spec fn spec_zn(pts: Seq<Vec4>, b: (int, int, int, int)) -> int {
    b.0 * pts[0].z.bits + b.1 * pts[1].z.bits + b.2 * pts[2].z.bits
}

/// Numerator of the interpolated homogeneous `w`.
pub open spec fn spec_wn(pts: Seq<Vec4>, b: (int, int, int, int)) -> int {
    b.0 * pts[0].w.bits + b.1 * pts[1].w.bits + b.2 * pts[2].w.bits
}

/// The depth of a covered fragment: `z / w` interpolated with the
/// weights, rounded to the nearest integer and clamped into `[0, 255]`.
pub open spec fn spec_frag_depth(pts: Seq<Vec4>, b: (int, int, int, int)) -> int {
    let zn = spec_zn(pts, b);
    let wn = spec_wn(pts, b);
    let q = fdiv(2 * zn + wn, 2 * wn);
    if q < 0 {
        0
    } else if q > 255 {
        255
    } else {
        q
    }
}

/// Over a covered pixel the interpolated `w` is positive, because every
/// vertex `w` is.
proof fn lemma_wn_pos(pts: Seq<Vec4>, b: (int, int, int, int))
    requires
        pts.len() == 3,
        screen_pt_wf(pts[0]),
        screen_pt_wf(pts[1]),
        screen_pt_wf(pts[2]),
        b.0 >= 0,
        b.1 >= 0,
        b.2 >= 0,
        b.0 + b.1 + b.2 == b.3,
        b.3 >= 1,
    ensures
        spec_wn(pts, b) >= 1,
{
    let w0 = pts[0].w.bits as int;
    let w1 = pts[1].w.bits as int;
    let w2 = pts[2].w.bits as int;
    assert(b.0 * w0 >= 0 && b.1 * w1 >= 0 && b.2 * w2 >= 0) by (nonlinear_arith)
        requires
            b.0 >= 0 && b.1 >= 0 && b.2 >= 0,
            w0 >= 1 && w1 >= 1 && w2 >= 1;
    if b.0 >= 1 {
        assert(b.0 * w0 >= 1) by (nonlinear_arith)
            requires
                b.0 >= 1 && w0 >= 1;
    } else if b.1 >= 1 {
        assert(b.1 * w1 >= 1) by (nonlinear_arith)
            requires
                b.1 >= 1 && w1 >= 1;
    } else {
        assert(b.2 >= 1);
        assert(b.2 * w2 >= 1) by (nonlinear_arith)
            requires
                b.2 >= 1 && w2 >= 1;
    }
}

/// Computes the fragment depth of a covered pixel.
pub fn frag_depth(pts: &Vec<Vec4>, b: &Bary) -> (d: i32)
    requires
        pts@.len() == 3,
        screen_pt_wf(pts@[0]),
        screen_pt_wf(pts@[1]),
        screen_pt_wf(pts@[2]),
        b.w0 >= 0,
        b.w1 >= 0,
        b.w2 >= 0,
        b.w0 + b.w1 + b.w2 == b.den,
        1 <= b.den <= 0x400000000000,
    ensures
        d as int == spec_frag_depth(pts@, b.quad()),
        0 <= d <= 255,
{
    proof {
        lemma_wn_pos(pts@, b.quad());
        lemma_prod_bound_asym_gl(b.w0 as int, pts@[0].z.bits as int);
        lemma_prod_bound_asym_gl(b.w1 as int, pts@[1].z.bits as int);
        lemma_prod_bound_asym_gl(b.w2 as int, pts@[2].z.bits as int);
        lemma_prod_bound_asym_gl(b.w0 as int, pts@[0].w.bits as int);
        lemma_prod_bound_asym_gl(b.w1 as int, pts@[1].w.bits as int);
        lemma_prod_bound_asym_gl(b.w2 as int, pts@[2].w.bits as int);
    }
    let zn: i128 = (b.w0 as i128) * (pts[0].z.bits as i128) + (b.w1 as i128) * (
    pts[1].z.bits as i128) + (b.w2 as i128) * (pts[2].z.bits as i128);
    let wn: i128 = (b.w0 as i128) * (pts[0].w.bits as i128) + (b.w1 as i128) * (
    pts[1].w.bits as i128) + (b.w2 as i128) * (pts[2].w.bits as i128);
    let q: i128 = i128_fdiv(2 * zn + wn, 2 * wn);
    if q < 0 {
        0
    } else if q > 255 {
        255
    } else {
        q as i32
    }
}

/// `|w * c| <= 2^46 * FX_PT` for a weight within the barycentric range
/// and a bounded coordinate.
proof fn lemma_prod_bound_asym_gl(w: int, c: int)
    requires
        -0x400000000000 <= w <= 0x400000000000,
        -FX_PT <= c <= FX_PT,
    ensures
        -(0x400000000000 * (FX_PT as int)) <= w * c <= 0x400000000000 * (FX_PT as int),
{
    assert(-(0x400000000000 * (FX_PT as int)) <= w * c <= 0x400000000000 * (FX_PT as int))
        by (nonlinear_arith)
        requires
            -0x400000000000 <= w <= 0x400000000000,
            -FX_PT <= c <= FX_PT,
            FX_PT == 68719476736;
}

pub open spec fn min2(a: int, b: int) -> int {
    if a <= b {
        a
    } else {
        b
    }
}

pub open spec fn max2(a: int, b: int) -> int {
    if a >= b {
        a
    } else {
        b
    }
}

/// The bounding box the scan converter walks: the pixel extent of the
/// triangle, clamped to the `w` by `h` screen; `(x_min, x_max, y_min,
/// y_max)`, both ends inclusive.
pub open spec fn spec_bbox(pts: Seq<Vec4>, w: int, h: int) -> (int, int, int, int) {
    let xmin = min2(spec_px(pts[0]), min2(spec_px(pts[1]), spec_px(pts[2])));
    let xmax = max2(spec_px(pts[0]), max2(spec_px(pts[1]), spec_px(pts[2])));
    let ymin = min2(spec_py(pts[0]), min2(spec_py(pts[1]), spec_py(pts[2])));
    let ymax = max2(spec_py(pts[0]), max2(spec_py(pts[1]), spec_py(pts[2])));
    (max2(0, xmin), min2(w - 1, xmax), max2(0, ymin), min2(h - 1, ymax))
}

pub open spec fn spec_in_bbox(pts: Seq<Vec4>, w: int, h: int, x: int, y: int) -> bool {
    let b = spec_bbox(pts, w, h);
    b.0 <= x <= b.1 && b.2 <= y <= b.3
}

/// What one triangle does to one pixel: the pixel's new depth and color
/// as a function of its old ones.  A pixel is written exactly when it
/// lies in the clamped bounding box, its barycentric weights are all
/// nonnegative, its fragment depth is at least as near as the stored
/// one, and the shader does not discard it.
pub open spec fn spec_pixel_outcome<S: IShader>(
    shader: S,
    model: Model,
    pts: Seq<Vec4>,
    color: Color,
    w: int,
    h: int,
    zold: int,
    pold: (u8, u8, u8),
    x: int,
    y: int,
) -> (int, (u8, u8, u8)) {
    let b = spec_bary_at(pts, x, y);
    if spec_in_bbox(pts, w, h, x, y) && bary_inside(b.0, b.1, b.2) {
        let d = spec_frag_depth(pts, b);
        let frag = shader.fragment_spec(model, b.0, b.1, b.2, b.3, color);
        if d <= zold && !frag.0 {
            (d, (frag.1.r, frag.1.g, frag.1.b))
        } else {
            (zold, pold)
        }
    } else {
        (zold, pold)
    }
}

/// The pixel `(x, y)` holds what the triangle's outcome prescribes,
/// relative to the buffers before the triangle.
pub open spec fn spec_pixel_done<S: IShader>(
    shader: S,
    model: Model,
    pts: Seq<Vec4>,
    color: Color,
    w: int,
    h: int,
    z0: Seq<i32>,
    p0: Map<(int, int), (u8, u8, u8)>,
    z1: Seq<i32>,
    p1: Map<(int, int), (u8, u8, u8)>,
    x: int,
    y: int,
) -> bool {
    let o = spec_pixel_outcome(shader, model, pts, color, w, h, z0[x + y * w] as int, p0[(x, y)], x, y);
    &&& z1[x + y * w] as int == o.0
    &&& p1[(x, y)] == o.1
}

/// The pixel `(x, y)` is untouched.
pub open spec fn spec_pixel_same(
    w: int,
    z0: Seq<i32>,
    p0: Map<(int, int), (u8, u8, u8)>,
    z1: Seq<i32>,
    p1: Map<(int, int), (u8, u8, u8)>,
    x: int,
    y: int,
) -> bool {
    &&& z1[x + y * w] == z0[x + y * w]
    &&& p1[(x, y)] == p0[(x, y)]
}

/// An on-screen pixel's depth-buffer slot is in range.
proof fn lemma_idx_in_range(w: int, h: int, x: int, y: int)
    requires
        0 <= x < w,
        0 <= y < h,
    ensures
        0 <= x + y * w < w * h,
{
    assert(0 <= x + y * w < w * h) by (nonlinear_arith)
        requires
            0 <= x < w,
            0 <= y < h;
}

/// Distinct on-screen pixels use distinct depth-buffer slots.
proof fn lemma_idx_unique(w: int, x1: int, y1: int, x2: int, y2: int)
    requires
        0 <= x1 < w,
        0 <= x2 < w,
        (x1, y1) != (x2, y2),
    ensures
        x1 + y1 * w != x2 + y2 * w,
{
    if y1 == y2 {
        assert(x1 != x2);
    } else {
        assert(x1 + y1 * w != x2 + y2 * w) by (nonlinear_arith)
            requires
                0 <= x1 < w,
                0 <= x2 < w,
                y1 != y2;
    }
}

/// A depth buffer of the given size, every slot at the far sentinel.
pub fn new_zbuffer(w: u32, h: u32) -> (z: Vec<i32>)
    requires
        (w as int) * (h as int) <= usize::MAX,
    ensures
        z@.len() == (w as int) * (h as int),
        forall|i: int| 0 <= i < z@.len() ==> z@[i] == DEPTH_FAR,
{
    let n: usize = (w as usize) * (h as usize);
    let mut z: Vec<i32> = Vec::new();
    let mut i: usize = 0;
    while i < n
        invariant
            i <= n,
            z@.len() == i as int,
            forall|j: int| 0 <= j < i as int ==> z@[j] == DEPTH_FAR,
        decreases n - i,
    {
        z.push(DEPTH_FAR);
        i = i + 1;
    }
    z
}

/// The perspective matrix: the identity with the single off-diagonal
/// entry that encodes the perspective divisor, `coeff = -1 / (eye -
/// center).z` for a simple pinhole camera.
pub fn projection(coeff: Fx) -> (m: Mat4)
    ensures
        m.r0 == (Vec4 {
            x: Fx { bits: FX_SCALE as i64 },
            y: Fx { bits: 0 },
            z: Fx { bits: 0 },
            w: Fx { bits: 0 },
        }),
        m.r1 == (Vec4 {
            x: Fx { bits: 0 },
            y: Fx { bits: FX_SCALE as i64 },
            z: Fx { bits: 0 },
            w: Fx { bits: 0 },
        }),
        m.r2 == (Vec4 {
            x: Fx { bits: 0 },
            y: Fx { bits: 0 },
            z: Fx { bits: FX_SCALE as i64 },
            w: Fx { bits: 0 },
        }),
        m.r3 == (Vec4 { x: Fx { bits: 0 }, y: Fx { bits: 0 }, z: coeff, w: Fx {
            bits: FX_SCALE as i64,
        } }),
{
    let z: Fx = Fx { bits: 0 };
    let o: Fx = Fx { bits: FX_SCALE };
    Mat4 {
        r0: Vec4 { x: o, y: z, z: z, w: z },
        r1: Vec4 { x: z, y: o, z: z, w: z },
        r2: Vec4 { x: z, y: z, z: o, w: z },
        r3: Vec4 { x: z, y: z, z: coeff, w: o },
    }
}

/// The viewport matrix; see `camera::viewport`.
pub fn viewport(x: Fx, y: Fx, w: Fx, h: Fx) -> (m: Mat4)
    requires
        -FX_MM <= x.bits <= FX_MM,
        -FX_MM <= y.bits <= FX_MM,
        -FX_MM <= w.bits <= FX_MM,
        -FX_MM <= h.bits <= FX_MM,
    ensures
        m == crate::camera::spec_viewport(x, y, w, h),
{
    crate::camera::viewport(x, y, w, h)
}

/// The view matrix; see `camera::lookat`.
pub fn lookat(eye: Vec3, center: Vec3, up: Vec3) -> (m: Mat4)
    requires
        vec3_bounded(eye, crate::camera::CAM_LIM as int),
        vec3_bounded(center, crate::camera::CAM_LIM as int),
        vec3_bounded(up, crate::camera::CAM_LIM as int),
        !crate::linalg::vec3_is_zero(crate::linalg::spec_sub3(eye, center)),
        !crate::linalg::vec3_is_zero(
            crate::linalg::spec_cross3(
                up,
                crate::linalg::spec_normalize3(crate::linalg::spec_sub3(eye, center)),
            ),
        ),
        !crate::linalg::vec3_is_zero(
            crate::linalg::spec_cross3(
                crate::linalg::spec_normalize3(crate::linalg::spec_sub3(eye, center)),
                crate::linalg::spec_normalize3(
                    crate::linalg::spec_cross3(
                        up,
                        crate::linalg::spec_normalize3(crate::linalg::spec_sub3(eye, center)),
                    ),
                ),
            ),
        ),
    ensures
        m == crate::camera::spec_lookat(eye, center, up),
{
    crate::camera::lookat(eye, center, up)
}

/// A point lifted to homogeneous coordinates with `w = 1`.
pub fn v2m(v: Vec3) -> (r: Vec4)
    ensures
        r == (Vec4 { x: v.x, y: v.y, z: v.z, w: Fx { bits: FX_SCALE as i64 } }),
{
    Vec4 { x: v.x, y: v.y, z: v.z, w: Fx { bits: FX_SCALE } }
}

/// Back from homogeneous coordinates without flooring: each component
/// divided by `w` in full fixed-point precision (so attribute vectors
/// such as transformed normals keep their fraction), `w` becoming 1.
pub fn m2v(m: Vec4) -> (r: Vec4)
    requires
        m.w.bits != 0,
        i64::MIN <= crate::fixed::spec_fx_div(m.x.bits as int, m.w.bits as int) <= i64::MAX,
        i64::MIN <= crate::fixed::spec_fx_div(m.y.bits as int, m.w.bits as int) <= i64::MAX,
        i64::MIN <= crate::fixed::spec_fx_div(m.z.bits as int, m.w.bits as int) <= i64::MAX,
    ensures
        r.x.bits == crate::fixed::spec_fx_div(m.x.bits as int, m.w.bits as int),
        r.y.bits == crate::fixed::spec_fx_div(m.y.bits as int, m.w.bits as int),
        r.z.bits == crate::fixed::spec_fx_div(m.z.bits as int, m.w.bits as int),
        r.w.bits == FX_SCALE,
{
    proof {
        lemma_self_div(m.w.bits as int);
    }
    Vec4 {
        x: m.x.div(m.w),
        y: m.y.div(m.w),
        z: m.z.div(m.w),
        w: m.w.div(m.w),
    }
}

/// Back from homogeneous coordinates with flooring: each component
/// divided by `w` and rounded down to the integer pixel grid, `w`
/// becoming 1 — the form the scan converter takes.
pub fn m2v_floor(m: Vec4) -> (r: Vec4)
    requires
        m.w.bits != 0,
        -90000000000000 <= fdiv(m.x.bits as int, m.w.bits as int) <= 90000000000000,
        -90000000000000 <= fdiv(m.y.bits as int, m.w.bits as int) <= 90000000000000,
        -90000000000000 <= fdiv(m.z.bits as int, m.w.bits as int) <= 90000000000000,
    ensures
        r.x.bits == fdiv(m.x.bits as int, m.w.bits as int) * FX_SCALE,
        r.y.bits == fdiv(m.y.bits as int, m.w.bits as int) * FX_SCALE,
        r.z.bits == fdiv(m.z.bits as int, m.w.bits as int) * FX_SCALE,
        r.w.bits == FX_SCALE,
{
    let v = crate::camera::m2v(m);
    Vec4 { x: v.x, y: v.y, z: v.z, w: Fx { bits: FX_SCALE } }
}

/// The first three components of a homogeneous point.
pub fn proj4_3(v: Vec4) -> (r: Vec3)
    ensures
        r == (Vec3 { x: v.x, y: v.y, z: v.z }),
{
    Vec3 { x: v.x, y: v.y, z: v.z }
}

/// `w * FX_SCALE / w == FX_SCALE` for any nonzero `w`.
proof fn lemma_self_div(w: int)
    requires
        w != 0,
    ensures
        fdiv(w * FX_SCALE, w) == FX_SCALE,
{
    if w > 0 {
        assert(w * FX_SCALE == FX_SCALE * w) by (nonlinear_arith);
        vstd::arithmetic::div_mod::lemma_div_multiples_vanish(FX_SCALE as int, w);
    } else {
        assert(-(w * FX_SCALE) == FX_SCALE * (-w)) by (nonlinear_arith);
        vstd::arithmetic::div_mod::lemma_div_multiples_vanish(FX_SCALE as int, -w);
    }
}

/// The scan converter's progress: every pixel before `(cx, cy)` in the
/// bounding-box walk (column major: all columns before `cx`, then rows
/// before `cy` within it) holds its outcome; every other pixel is
/// untouched.
pub open spec fn spec_pixel_upto<S: IShader>(
    shader: S,
    model: Model,
    pts: Seq<Vec4>,
    color: Color,
    w: int,
    h: int,
    z0: Seq<i32>,
    p0: Map<(int, int), (u8, u8, u8)>,
    z1: Seq<i32>,
    p1: Map<(int, int), (u8, u8, u8)>,
    cx: int,
    cy: int,
    x: int,
    y: int,
) -> bool {
    if spec_in_bbox(pts, w, h, x, y) && (x < cx || (x == cx && y < cy)) {
        spec_pixel_done(shader, model, pts, color, w, h, z0, p0, z1, p1, x, y)
    } else {
        spec_pixel_same(w, z0, p0, z1, p1, x, y)
    }
}

/// Scan-converts one triangle: walks the clamped bounding box, rejects
/// pixels with a negative barycentric weight, performs the depth test
/// against the stored depth, and writes the shader's color and the
/// fragment depth for the pixels that survive.  The contract gives the
/// per-pixel outcome `spec_pixel_outcome` of every pixel of the screen.
pub fn triangle<S: IShader>(
    pts: &Vec<Vec4>,
    model: &Model,
    shader: &S,
    zbuffer: &mut Vec<i32>,
    image: &mut RasterImage,
    color: Color,
)
    requires
        pts@.len() == 3,
        screen_pt_wf(pts@[0]),
        screen_pt_wf(pts@[1]),
        screen_pt_wf(pts@[2]),
        model.wf(),
        shader.wf(),
        1 <= image_dims(*old(image)).0 <= PX_LIM,
        1 <= image_dims(*old(image)).1 <= PX_LIM,
        old(zbuffer)@.len() == image_dims(*old(image)).0 * image_dims(*old(image)).1,
    ensures
        final(zbuffer)@.len() == old(zbuffer)@.len(),
        image_dims(*final(image)) == image_dims(*old(image)),
        forall|x: int, y: int|
            0 <= x < image_dims(*old(image)).0 && 0 <= y < image_dims(*old(image)).1
                ==> #[trigger] spec_pixel_done(
                *shader,
                *model,
                pts@,
                color,
                image_dims(*old(image)).0,
                image_dims(*old(image)).1,
                old(zbuffer)@,
                image_pixels(*old(image)),
                final(zbuffer)@,
                image_pixels(*final(image)),
                x,
                y,
            ),
{
    let ghost w_g: int = image_dims(*old(image)).0;
    let ghost h_g: int = image_dims(*old(image)).1;
    let w: u32 = image.width();
    let h: u32 = image.height();
    proof {
        lemma_px_bound(pts@[0]);
        lemma_px_bound(pts@[1]);
        lemma_px_bound(pts@[2]);
    }
    let x0: i64 = pts[0].x.floor_int();
    let y0: i64 = pts[0].y.floor_int();
    let x1: i64 = pts[1].x.floor_int();
    let y1: i64 = pts[1].y.floor_int();
    let x2: i64 = pts[2].x.floor_int();
    let y2: i64 = pts[2].y.floor_int();
    let xmin: i64 = if x0 <= x1 && x0 <= x2 { x0 } else if x1 <= x2 { x1 } else { x2 };
    let xmax: i64 = if x0 >= x1 && x0 >= x2 { x0 } else if x1 >= x2 { x1 } else { x2 };
    let ymin: i64 = if y0 <= y1 && y0 <= y2 { y0 } else if y1 <= y2 { y1 } else { y2 };
    let ymax: i64 = if y0 >= y1 && y0 >= y2 { y0 } else if y1 >= y2 { y1 } else { y2 };
    let bbx0: i64 = if xmin < 0 { 0 } else { xmin };
    let bbx1: i64 = if xmax > (w as i64) - 1 { (w as i64) - 1 } else { xmax };
    let bby0: i64 = if ymin < 0 { 0 } else { ymin };
    let bby1: i64 = if ymax > (h as i64) - 1 { (h as i64) - 1 } else { ymax };
    proof {
        assert(spec_bbox(pts@, w_g, h_g) == (bbx0 as int, bbx1 as int, bby0 as int, bby1 as int));
    }
    if bbx1 < bbx0 || bby1 < bby0 {
        proof {
            assert forall|x: int, y: int| 0 <= x < w_g && 0 <= y < h_g
                implies #[trigger] spec_pixel_done(
                    *shader, *model, pts@, color, w_g, h_g,
                    old(zbuffer)@, image_pixels(*old(image)),
                    zbuffer@, image_pixels(*image), x, y,
                ) by {
                assert(!spec_in_bbox(pts@, w_g, h_g, x, y));
                lemma_idx_in_range(w_g, h_g, x, y);
            }
        }
        return;
    }
    let mut px: i64 = bbx0;
    proof {
        assert forall|x: int, y: int| 0 <= x < w_g && 0 <= y < h_g
            implies #[trigger] spec_pixel_upto(
                *shader, *model, pts@, color, w_g, h_g,
                old(zbuffer)@, image_pixels(*old(image)),
                zbuffer@, image_pixels(*image), px as int, bby0 as int, x, y,
            ) by {
            lemma_idx_in_range(w_g, h_g, x, y);
        }
    }
    while px <= bbx1
        invariant
            pts@.len() == 3,
            screen_pt_wf(pts@[0]),
            screen_pt_wf(pts@[1]),
            screen_pt_wf(pts@[2]),
            model.wf(),
            shader.wf(),
            w_g == image_dims(*old(image)).0,
            h_g == image_dims(*old(image)).1,
            1 <= w_g <= PX_LIM,
            1 <= h_g <= PX_LIM,
            w as int == w_g,
            h as int == h_g,
            old(zbuffer)@.len() == w_g * h_g,
            zbuffer@.len() == w_g * h_g,
            image_dims(*image) == image_dims(*old(image)),
            spec_bbox(pts@, w_g, h_g) == (bbx0 as int, bbx1 as int, bby0 as int, bby1 as int),
            0 <= bbx0 <= bbx1 <= w_g - 1,
            0 <= bby0 <= bby1 <= h_g - 1,
            bbx0 <= px <= bbx1 + 1,
            forall|x: int, y: int|
                0 <= x < w_g && 0 <= y < h_g ==> #[trigger] spec_pixel_upto(
                    *shader, *model, pts@, color, w_g, h_g,
                    old(zbuffer)@, image_pixels(*old(image)),
                    zbuffer@, image_pixels(*image), px as int, bby0 as int, x, y,
                ),
        decreases bbx1 - px + 1,
    {
        let mut py: i64 = bby0;
        while py <= bby1
            invariant
                pts@.len() == 3,
                screen_pt_wf(pts@[0]),
                screen_pt_wf(pts@[1]),
                screen_pt_wf(pts@[2]),
                model.wf(),
                shader.wf(),
                w_g == image_dims(*old(image)).0,
                h_g == image_dims(*old(image)).1,
                1 <= w_g <= PX_LIM,
                1 <= h_g <= PX_LIM,
                w as int == w_g,
                h as int == h_g,
                old(zbuffer)@.len() == w_g * h_g,
                zbuffer@.len() == w_g * h_g,
                image_dims(*image) == image_dims(*old(image)),
                spec_bbox(pts@, w_g, h_g) == (bbx0 as int, bbx1 as int, bby0 as int, bby1 as int),
                0 <= bbx0 <= bbx1 <= w_g - 1,
                0 <= bby0 <= bby1 <= h_g - 1,
                bbx0 <= px <= bbx1,
                bby0 <= py <= bby1 + 1,
                forall|x: int, y: int|
                    0 <= x < w_g && 0 <= y < h_g ==> #[trigger] spec_pixel_upto(
                        *shader, *model, pts@, color, w_g, h_g,
                        old(zbuffer)@, image_pixels(*old(image)),
                        zbuffer@, image_pixels(*image), px as int, py as int, x, y,
                    ),
            decreases bby1 - py + 1,
        {
            let ghost z_pre = zbuffer@;
            let ghost p_pre = image_pixels(*image);
            let ghost cpx = px as int;
            let ghost cpy = py as int;
            proof {
                assert(spec_pixel_upto(
                    *shader, *model, pts@, color, w_g, h_g,
                    old(zbuffer)@, image_pixels(*old(image)),
                    z_pre, p_pre, cpx, cpy, cpx, cpy,
                ));
                assert(spec_in_bbox(pts@, w_g, h_g, cpx, cpy));
                lemma_idx_in_range(w_g, h_g, cpx, cpy);
            }
            let b = barycentric(pts, px, py);
            let mut wrote: bool = false;
            if b.w0 >= 0 && b.w1 >= 0 && b.w2 >= 0 {
                let dep: i32 = frag_depth(pts, &b);
                proof {
                    assert(0 <= py as int * w_g <= 1099511627776) by (nonlinear_arith)
                        requires
                            0 <= py as int <= h_g - 1,
                            1 <= h_g <= PX_LIM,
                            1 <= w_g <= PX_LIM,
                            PX_LIM == 1048576;
                }
                let zlen: usize = zbuffer.len();
                proof {
                    assert(px as int + py as int * w_g < w_g * h_g == zlen as int);
                }
                let idx: usize = (px + py * (w as i64)) as usize;
                proof {
                    assert(idx as int == cpx + cpy * w_g);
                }
                let stored: i32 = zbuffer[idx];
                if stored >= dep {
                    let (discard, c) = shader.fragment(model, b, color);
                    if !discard {
                        zbuffer.set(idx, dep);
                        image.put(px as u32, py as u32, c);
                        wrote = true;
                    }
                }
            }
            proof {
                assert(spec_pixel_done(
                    *shader, *model, pts@, color, w_g, h_g,
                    old(zbuffer)@, image_pixels(*old(image)),
                    zbuffer@, image_pixels(*image), cpx, cpy,
                ));
                assert forall|x: int, y: int|
                    0 <= x < w_g && 0 <= y < h_g implies #[trigger] spec_pixel_upto(
                        *shader, *model, pts@, color, w_g, h_g,
                        old(zbuffer)@, image_pixels(*old(image)),
                        zbuffer@, image_pixels(*image), cpx, cpy + 1, x, y,
                    ) by {
                    lemma_idx_in_range(w_g, h_g, x, y);
                    assert(spec_pixel_upto(
                        *shader, *model, pts@, color, w_g, h_g,
                        old(zbuffer)@, image_pixels(*old(image)),
                        z_pre, p_pre, cpx, cpy, x, y,
                    ));
                    if !(x == cpx && y == cpy) {
                        lemma_idx_unique(w_g, x, y, cpx, cpy);
                        assert(zbuffer@[x + y * w_g] == z_pre[x + y * w_g]);
                        assert(image_pixels(*image)[(x, y)] == p_pre[(x, y)]);
                    }
                }
            }
            py = py + 1;
        }
        proof {
            assert forall|x: int, y: int|
                0 <= x < w_g && 0 <= y < h_g implies #[trigger] spec_pixel_upto(
                    *shader, *model, pts@, color, w_g, h_g,
                    old(zbuffer)@, image_pixels(*old(image)),
                    zbuffer@, image_pixels(*image), px as int + 1, bby0 as int, x, y,
                ) by {
                assert(spec_pixel_upto(
                    *shader, *model, pts@, color, w_g, h_g,
                    old(zbuffer)@, image_pixels(*old(image)),
                    zbuffer@, image_pixels(*image), px as int, py as int, x, y,
                ));
            }
        }
        px = px + 1;
    }
    proof {
        assert forall|x: int, y: int| 0 <= x < w_g && 0 <= y < h_g
            implies #[trigger] spec_pixel_done(
                *shader, *model, pts@, color, w_g, h_g,
                old(zbuffer)@, image_pixels(*old(image)),
                zbuffer@, image_pixels(*image), x, y,
            ) by {
            assert(spec_pixel_upto(
                *shader, *model, pts@, color, w_g, h_g,
                old(zbuffer)@, image_pixels(*old(image)),
                zbuffer@, image_pixels(*image), px as int, bby0 as int, x, y,
            ));
            lemma_idx_in_range(w_g, h_g, x, y);
        }
    }
}

/// Degenerate triangles are skipped: when the three pixel positions of
/// `pts` are collinear or coincident, every pixel of the screen keeps
/// its depth and color — the sentinel weights fail the coverage test
/// everywhere, so the scan converter writes nothing.
pub proof fn lemma_degenerate_skip<S: IShader>(
    shader: S,
    model: Model,
    pts: Seq<Vec4>,
    color: Color,
    w: int,
    h: int,
    zold: int,
    pold: (u8, u8, u8),
    x: int,
    y: int,
)
    requires
        pts.len() == 3,
        spec_degenerate(
            spec_px(pts[0]),
            spec_py(pts[0]),
            spec_px(pts[1]),
            spec_py(pts[1]),
            spec_px(pts[2]),
            spec_py(pts[2]),
        ),
    ensures
        spec_bary_at(pts, x, y).0 < 0,
        spec_pixel_outcome(shader, model, pts, color, w, h, zold, pold, x, y) == (zold, pold),
{
    assert(spec_bary_at(pts, x, y) == (-1int, 1int, 1int, 1int));
}

/// Barycentric partition of unity: over a non-degenerate triangle, the
/// weights of a covered pixel sum exactly to the denominator, and the
/// weighted sum of the three vertex positions reconstructs the pixel
/// exactly.
pub proof fn lemma_barycentric_partition(
    x0: int, y0: int, x1: int, y1: int, x2: int, y2: int, px: int, py: int,
)
    requires
        !spec_degenerate(x0, y0, x1, y1, x2, y2),
        bary_inside(
            spec_bary(x0, y0, x1, y1, x2, y2, px, py).0,
            spec_bary(x0, y0, x1, y1, x2, y2, px, py).1,
            spec_bary(x0, y0, x1, y1, x2, y2, px, py).2,
        ),
    ensures
        ({
            let b = spec_bary(x0, y0, x1, y1, x2, y2, px, py);
            &&& b.0 + b.1 + b.2 == b.3
            &&& b.3 >= 1
            &&& b.0 * x0 + b.1 * x1 + b.2 * x2 == px * b.3
            &&& b.0 * y0 + b.1 * y1 + b.2 * y2 == py * b.3
        }),
{
    let ux = (x1 - x0) * (y0 - py) - (x0 - px) * (y1 - y0);
    let uy = (x0 - px) * (y2 - y0) - (x2 - x0) * (y0 - py);
    let uz = (x2 - x0) * (y1 - y0) - (x1 - x0) * (y2 - y0);
    lemma_bary_reconstruct(x0, y0, x1, y1, x2, y2, px, py, ux, uy, uz);
    let b = spec_bary(x0, y0, x1, y1, x2, y2, px, py);
    if uz < 0 {
        assert(b.0 * x0 + b.1 * x1 + b.2 * x2 == px * b.3) by (nonlinear_arith)
            requires
                b.0 == -(uz - ux - uy) && b.1 == -uy && b.2 == -ux && b.3 == -uz,
                (uz - ux - uy) * x0 + uy * x1 + ux * x2 == px * uz;
        assert(b.0 * y0 + b.1 * y1 + b.2 * y2 == py * b.3) by (nonlinear_arith)
            requires
                b.0 == -(uz - ux - uy) && b.1 == -uy && b.2 == -ux && b.3 == -uz,
                (uz - ux - uy) * y0 + uy * y1 + ux * y2 == py * uz;
    }
}

/// The raw weights reconstruct the pixel: the defining identity of
/// barycentric coordinates, proved through coordinate differences.
proof fn lemma_bary_reconstruct(
    x0: int, y0: int, x1: int, y1: int, x2: int, y2: int, px: int, py: int,
    ux: int, uy: int, uz: int,
)
    requires
        ux == (x1 - x0) * (y0 - py) - (x0 - px) * (y1 - y0),
        uy == (x0 - px) * (y2 - y0) - (x2 - x0) * (y0 - py),
        uz == (x2 - x0) * (y1 - y0) - (x1 - x0) * (y2 - y0),
    ensures
        (uz - ux - uy) * x0 + uy * x1 + ux * x2 == px * uz,
        (uz - ux - uy) * y0 + uy * y1 + ux * y2 == py * uz,
{
    let dx1 = x1 - x0;
    let dx2 = x2 - x0;
    let dy1 = y1 - y0;
    let dy2 = y2 - y0;
    let ex = px - x0;
    let ey = py - y0;
    assert(ux == ex * dy1 - dx1 * ey) by (nonlinear_arith)
        requires
            ux == (x1 - x0) * (y0 - py) - (x0 - px) * (y1 - y0),
            dx1 == x1 - x0 && dy1 == y1 - y0 && ex == px - x0 && ey == py - y0;
    assert(uy == dx2 * ey - ex * dy2) by (nonlinear_arith)
        requires
            uy == (x0 - px) * (y2 - y0) - (x2 - x0) * (y0 - py),
            dx2 == x2 - x0 && dy2 == y2 - y0 && ex == px - x0 && ey == py - y0;
    assert(uz == dx2 * dy1 - dx1 * dy2) by (nonlinear_arith)
        requires
            uz == (x2 - x0) * (y1 - y0) - (x1 - x0) * (y2 - y0),
            dx1 == x1 - x0 && dx2 == x2 - x0 && dy1 == y1 - y0 && dy2 == y2 - y0;
    assert(uy * dx1 + ux * dx2 == ex * uz) by (nonlinear_arith)
        requires
            ux == ex * dy1 - dx1 * ey,
            uy == dx2 * ey - ex * dy2,
            uz == dx2 * dy1 - dx1 * dy2;
    assert(uy * dy1 + ux * dy2 == ey * uz) by (nonlinear_arith)
        requires
            ux == ex * dy1 - dx1 * ey,
            uy == dx2 * ey - ex * dy2,
            uz == dx2 * dy1 - dx1 * dy2;
    assert((uz - ux - uy) * x0 + uy * x1 + ux * x2 == px * uz) by (nonlinear_arith)
        requires
            uy * dx1 + ux * dx2 == ex * uz,
            dx1 == x1 - x0 && dx2 == x2 - x0 && ex == px - x0;
    assert((uz - ux - uy) * y0 + uy * y1 + ux * y2 == py * uz) by (nonlinear_arith)
        requires
            uy * dy1 + ux * dy2 == ey * uz,
            dy1 == y1 - y0 && dy2 == y2 - y0 && ey == py - y0;
}

/// Depth testing is order-independent: when two triangles both cover a
/// pixel with distinct fragment depths and neither fragment is
/// discarded, the pixel ends in the same state whichever triangle is
/// rasterized first — the nearer triangle's color and depth when it
/// beats the stored depth, the untouched pixel otherwise.
pub proof fn lemma_depth_order_independent<SA: IShader, SB: IShader>(
    sa: SA,
    sb: SB,
    model: Model,
    pts_a: Seq<Vec4>,
    pts_b: Seq<Vec4>,
    color: Color,
    w: int,
    h: int,
    zold: int,
    pold: (u8, u8, u8),
    x: int,
    y: int,
)
    requires
        ({
            let ba = spec_bary_at(pts_a, x, y);
            let bb = spec_bary_at(pts_b, x, y);
            let da = spec_frag_depth(pts_a, ba);
            let db = spec_frag_depth(pts_b, bb);
            &&& spec_in_bbox(pts_a, w, h, x, y)
            &&& spec_in_bbox(pts_b, w, h, x, y)
            &&& bary_inside(ba.0, ba.1, ba.2)
            &&& bary_inside(bb.0, bb.1, bb.2)
            &&& !sa.fragment_spec(model, ba.0, ba.1, ba.2, ba.3, color).0
            &&& !sb.fragment_spec(model, bb.0, bb.1, bb.2, bb.3, color).0
            &&& da < db
        }),
    ensures
        ({
            let ba = spec_bary_at(pts_a, x, y);
            let da = spec_frag_depth(pts_a, ba);
            let ca = sa.fragment_spec(model, ba.0, ba.1, ba.2, ba.3, color).1;
            let a_first = spec_pixel_outcome(sa, model, pts_a, color, w, h, zold, pold, x, y);
            let then_b = spec_pixel_outcome(
                sb, model, pts_b, color, w, h, a_first.0, a_first.1, x, y,
            );
            let b_first = spec_pixel_outcome(sb, model, pts_b, color, w, h, zold, pold, x, y);
            let then_a = spec_pixel_outcome(
                sa, model, pts_a, color, w, h, b_first.0, b_first.1, x, y,
            );
            &&& then_b == then_a
            &&& da <= zold ==> then_b == (da, (ca.r, ca.g, ca.b))
            &&& da > zold ==> then_b == (zold, pold)
        }),
{
}

} // verus!
