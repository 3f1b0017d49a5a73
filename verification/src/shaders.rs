//! The shader stage.
//!
//! A shader computes one transformed position per triangle vertex
//! (`vertex`, which also stores the vertex's varying attributes into the
//! slot `nthvert`) and one color per covered pixel (`fragment`, which
//! interpolates the stored attributes by the pixel's barycentric
//! weights).  Each implementation pins both stages down with a spec
//! function, so the scan converter's contract can name the exact color
//! written to every pixel.

use vstd::prelude::*;
use crate::fixed::{Fx, FX_SCALE, fdiv, i128_fdiv, spec_clamp, spec_fx_mul, spec_fx_pow, fx_pow};
use crate::linalg::{Vec3, Vec4, Mat4, vec3_bounded, vec4_bounded, mat4_bounded, vec3_is_zero,
    spec_dot3, spec_mul_vec, spec_v2m, spec_h_div4, spec_h_div4_floor, spec_sub3, spec_det3,
    spec_solve3, spec_clamp4, spec_mit, spec_mat4_identity, spec_det4, h_div4, h_div4_floor,
    clamp4, solve3, mat4_inverse_transpose, lemma_dot4_bound,
    lemma_fdiv_abs_le, lemma_prod_bound, lemma_prod_bound2, FX_MM, FX_PT, SV4_LIM};
use crate::model::{Model, spec_model_normal, spec_model_diffuse, spec_model_specular};
use crate::my_gl::{Bary, bary_valid};
use crate::rgb::{Color, spec_channel_scale};

verus! {

/// Bound on the bits of a varying attribute a shader may store.
pub const FX_VAR: i64 = 4398046511104;

/// Covered-pixel weights: valid and all nonnegative.
pub open spec fn bary_covered(w0: int, w1: int, w2: int, den: int) -> bool {
    &&& bary_valid(w0, w1, w2, den)
    &&& w0 >= 0
    &&& w1 >= 0
    &&& w2 >= 0
}

/// A varying attribute interpolated by barycentric weights, rounded
/// down once.
pub open spec fn spec_interp3(a: int, b: int, c: int, w0: int, w1: int, w2: int, den: int) -> int {
    fdiv(w0 * a + w1 * b + w2 * c, den)
}

/// Interpolates one scalar attribute over a covered pixel.
pub fn interp3(a: Fx, b: Fx, c: Fx, bar: &Bary) -> (r: Fx)
    requires
        bary_covered(bar.w0 as int, bar.w1 as int, bar.w2 as int, bar.den as int),
        -FX_VAR <= a.bits <= FX_VAR,
        -FX_VAR <= b.bits <= FX_VAR,
        -FX_VAR <= c.bits <= FX_VAR,
    ensures
        r.bits == spec_interp3(
            a.bits as int,
            b.bits as int,
            c.bits as int,
            bar.w0 as int,
            bar.w1 as int,
            bar.w2 as int,
            bar.den as int,
        ),
        -3 * FX_VAR <= r.bits <= 3 * FX_VAR,
{
    proof {
        let d = bar.den as int;
        assert(bar.w0 <= bar.den && bar.w1 <= bar.den && bar.w2 <= bar.den);
        lemma_interp_term_bound(bar.w0 as int, a.bits as int, d, FX_VAR as int);
        lemma_interp_term_bound(bar.w1 as int, b.bits as int, d, FX_VAR as int);
        lemma_interp_term_bound(bar.w2 as int, c.bits as int, d, FX_VAR as int);
        lemma_fdiv_abs_le(
            bar.w0 * a.bits + bar.w1 * b.bits + bar.w2 * c.bits,
            d,
            3 * FX_VAR as int,
        );
    }
    let s: i128 = (bar.w0 as i128) * (a.bits as i128) + (bar.w1 as i128) * (b.bits as i128) + (
    bar.w2 as i128) * (c.bits as i128);
    let q: i128 = i128_fdiv(s, bar.den as i128);
    Fx { bits: q as i64 }
}

/// `|w * v| <= den * bound` for a weight `0 <= w <= den`.
proof fn lemma_interp_term_bound(w: int, v: int, den: int, bound: int)
    requires
        0 <= w <= den,
        -bound <= v <= bound,
        0 <= bound,
    ensures
        -(den * bound) <= w * v <= den * bound,
{
    assert(-(den * bound) <= w * v <= den * bound) by (nonlinear_arith)
        requires
            0 <= w <= den,
            -bound <= v <= bound,
            0 <= bound;
}

/// The fixed quantization bands of the cartoon look: intensities at or
/// above 0.85 become 1.0, then [0.60, 0.85) -> 0.80, [0.45, 0.60) ->
/// 0.60, [0.30, 0.45) -> 0.45, [0.15, 0.30) -> 0.30, and anything below
/// 0.15 goes dark.
pub open spec fn spec_cartoon_quantize(i: int) -> int {
    if i >= 85000 {
        100000
    } else if i >= 60000 {
        80000
    } else if i >= 45000 {
        60000
    } else if i >= 30000 {
        45000
    } else if i >= 15000 {
        30000
    } else {
        0
    }
}

/// Quantizes an intensity into the cartoon bands.
pub fn cartoon_quantize(i: Fx) -> (r: Fx)
    ensures
        r.bits == spec_cartoon_quantize(i.bits as int),
{
    if i.bits >= 85000 {
        Fx { bits: 100000 }
    } else if i.bits >= 60000 {
        Fx { bits: 80000 }
    } else if i.bits >= 45000 {
        Fx { bits: 60000 }
    } else if i.bits >= 30000 {
        Fx { bits: 45000 }
    } else if i.bits >= 15000 {
        Fx { bits: 30000 }
    } else {
        Fx { bits: 0 }
    }
}

/// One slot of a per-vertex `Vec3` of varying values replaced.
pub open spec fn spec_set_slot(v: Vec3, slot: int, b: int) -> Vec3 {
    if slot == 0 {
        Vec3 { x: Fx { bits: b as i64 }, y: v.y, z: v.z }
    } else if slot == 1 {
        Vec3 { x: v.x, y: Fx { bits: b as i64 }, z: v.z }
    } else {
        Vec3 { x: v.x, y: v.y, z: Fx { bits: b as i64 } }
    }
}

/// The light intensity a Gouraud-style vertex stage stores for one
/// vertex: the normal dotted with the light direction, floored at zero.
pub open spec fn spec_vertex_intensity(model: Model, light_dir: Vec3, iface: int, nthvert: int) -> int {
    let n = model.norms[model.faces_normal_coords[iface][nthvert] as int];
    let d = spec_dot3(n, light_dir);
    if d < 0 {
        0
    } else {
        d
    }
}

/// The transformed homogeneous position a vertex stage returns: the
/// mesh position lifted to homogeneous coordinates, transformed, and
/// divided by its `w`.
pub open spec fn spec_vertex_position(model: Model, t: Mat4, iface: int, nthvert: int) -> Vec4 {
    let v = model.verts[model.faces[iface][nthvert] as int];
    spec_h_div4(spec_mul_vec(t, spec_v2m(v)))
}

/// The shader stage contract shared by every variant.
pub trait IShader: Sized {
    /// Internal invariant: every stored varying attribute is bounded.
    spec fn wf(&self) -> bool;

    /// What `vertex` does: the updated shader state and the returned
    /// screen position.
    spec fn vertex_spec(&self, model: Model, t: Mat4, iface: int, nthvert: int) -> (Self, Vec4);

    /// What `fragment` does for a covered pixel with weights
    /// `(w0, w1, w2) / den`: whether to discard, and the color.
    spec fn fragment_spec(
        &self,
        model: Model,
        w0: int,
        w1: int,
        w2: int,
        den: int,
        base_color: Color,
    ) -> (bool, Color);

    /// Transforms vertex `nthvert` of face `iface` and stores its
    /// varying attributes into slot `nthvert`.
    fn vertex(&mut self, model: &Model, t: Mat4, iface: usize, nthvert: usize) -> (r: Vec4)
        requires
            old(self).wf(),
            model.wf(),
            mat4_bounded(t, FX_MM as int),
            iface < model.faces@.len(),
            nthvert < 3,
        ensures
            final(self).wf(),
            (*final(self), r) == (*old(self)).vertex_spec(
                *model,
                t,
                iface as int,
                nthvert as int,
            ),
    ;

    /// Computes the color of a covered pixel from the stored varying
    /// attributes, interpolated by the pixel's barycentric weights.
    fn fragment(&self, model: &Model, bar: Bary, base_color: Color) -> (r: (bool, Color))
        requires
            self.wf(),
            model.wf(),
            bary_covered(bar.w0 as int, bar.w1 as int, bar.w2 as int, bar.den as int),
        ensures
            r == self.fragment_spec(
                *model,
                bar.w0 as int,
                bar.w1 as int,
                bar.w2 as int,
                bar.den as int,
                base_color,
            ),
    ;
}

/// Gouraud shading: per-vertex light intensity, interpolated across the
/// triangle and multiplied into the base color.
pub struct GouraudShader {
    pub varying_intensity: Vec3,
    pub light_dir: Vec3,
}

impl GouraudShader {
    /// A fresh shader for the given light direction, with cleared
    /// varying state.
    pub fn new(light_dir: Vec3) -> (s: GouraudShader)
        requires
            vec3_bounded(light_dir, 4 * FX_SCALE as int),
        ensures
            s.varying_intensity == (Vec3 {
                x: Fx { bits: 0 },
                y: Fx { bits: 0 },
                z: Fx { bits: 0 },
            }),
            s.light_dir == light_dir,
            s.wf(),
    {
        GouraudShader {
            varying_intensity: Vec3 { x: Fx { bits: 0 }, y: Fx { bits: 0 }, z: Fx { bits: 0 } },
            light_dir,
        }
    }
}

/// The shared Gouraud-style vertex stage: stores the vertex intensity
/// and returns the transformed position.
fn gouraud_vertex(
    varying_intensity: &mut Vec3,
    light_dir: Vec3,
    model: &Model,
    t: Mat4,
    iface: usize,
    nthvert: usize,
) -> (r: Vec4)
    requires
        vec3_bounded(*old(varying_intensity), FX_VAR as int),
        vec3_bounded(light_dir, 4 * FX_SCALE as int),
        model.wf(),
        mat4_bounded(t, FX_MM as int),
        iface < model.faces@.len(),
        nthvert < 3,
    ensures
        *final(varying_intensity) == spec_set_slot(
            *old(varying_intensity),
            nthvert as int,
            spec_vertex_intensity(*model, light_dir, iface as int, nthvert as int),
        ),
        vec3_bounded(*final(varying_intensity), FX_VAR as int),
        r == spec_vertex_position(*model, t, iface as int, nthvert as int),
        vec4_bounded(r, FX_MM as int),
{
    let n = model.uv_normal(iface, nthvert);
    proof {
        lemma_light_dot_bound(n, light_dir);
    }
    let d = n.dot(light_dir);
    let ib: Fx = if d.bits < 0 {
        Fx { bits: 0 }
    } else {
        d
    };
    if nthvert == 0 {
        varying_intensity.x = ib;
    } else if nthvert == 1 {
        varying_intensity.y = ib;
    } else {
        varying_intensity.z = ib;
    }
    let vert = model.verts[model.faces[iface][nthvert] as usize];
    let hv = Vec4 { x: vert.x, y: vert.y, z: vert.z, w: Fx { bits: FX_SCALE } };
    proof {
        lemma_dot4_bound(t.r0, hv);
        lemma_dot4_bound(t.r1, hv);
        lemma_dot4_bound(t.r2, hv);
        lemma_dot4_bound(t.r3, hv);
    }
    let gl = t.mul_vec(hv);
    proof {
        assert(gl == spec_mul_vec(t, spec_v2m(vert)));
    }
    h_div4(gl)
}

/// The dot of a mesh normal with a light direction stays within
/// `FX_VAR`.
proof fn lemma_light_dot_bound(n: Vec3, l: Vec3)
    requires
        vec3_bounded(n, FX_MM as int),
        vec3_bounded(l, 4 * FX_SCALE as int),
    ensures
        -FX_VAR <= spec_dot3(n, l) <= FX_VAR,
{
    lemma_prod_bound_asym(n.x.bits as int, l.x.bits as int, FX_MM as int, 4 * FX_SCALE as int);
    lemma_prod_bound_asym(n.y.bits as int, l.y.bits as int, FX_MM as int, 4 * FX_SCALE as int);
    lemma_prod_bound_asym(n.z.bits as int, l.z.bits as int, FX_MM as int, 4 * FX_SCALE as int);
    let s = n.x.bits * l.x.bits + n.y.bits * l.y.bits + n.z.bits * l.z.bits;
    assert(3 * ((FX_MM as int) * (4 * FX_SCALE as int)) <= (FX_VAR as int) * (FX_SCALE as int))
        by (nonlinear_arith)
        requires
            FX_MM == 274877906944,
            FX_SCALE == 100000,
            FX_VAR == 4398046511104;
    lemma_fdiv_abs_le(s, FX_SCALE as int, FX_VAR as int);
}

/// `|a * b| <= m1 * m2` for `|a| <= m1`, `|b| <= m2`.
proof fn lemma_prod_bound_asym(a: int, b: int, m1: int, m2: int)
    requires
        0 <= m1,
        0 <= m2,
        -m1 <= a <= m1,
        -m2 <= b <= m2,
    ensures
        -(m1 * m2) <= a * b <= m1 * m2,
{
    assert(-(m1 * m2) <= a * b <= m1 * m2) by (nonlinear_arith)
        requires
            0 <= m1,
            0 <= m2,
            -m1 <= a <= m1,
            -m2 <= b <= m2;
}

impl IShader for GouraudShader {
    open spec fn wf(&self) -> bool {
        &&& vec3_bounded(self.varying_intensity, FX_VAR as int)
        &&& vec3_bounded(self.light_dir, 4 * FX_SCALE as int)
    }

    open spec fn vertex_spec(&self, model: Model, t: Mat4, iface: int, nthvert: int) -> (
        GouraudShader,
        Vec4,
    ) {
        (
            GouraudShader {
                varying_intensity: spec_set_slot(
                    self.varying_intensity,
                    nthvert,
                    spec_vertex_intensity(model, self.light_dir, iface, nthvert),
                ),
                light_dir: self.light_dir,
            },
            spec_vertex_position(model, t, iface, nthvert),
        )
    }

    open spec fn fragment_spec(
        &self,
        model: Model,
        w0: int,
        w1: int,
        w2: int,
        den: int,
        base_color: Color,
    ) -> (bool, Color) {
        let i = spec_interp3(
            self.varying_intensity.x.bits as int,
            self.varying_intensity.y.bits as int,
            self.varying_intensity.z.bits as int,
            w0,
            w1,
            w2,
            den,
        );
        (
            false,
            Color {
                r: spec_channel_scale(base_color.r as int, i) as u8,
                g: spec_channel_scale(base_color.g as int, i) as u8,
                b: spec_channel_scale(base_color.b as int, i) as u8,
            },
        )
    }

    fn vertex(&mut self, model: &Model, t: Mat4, iface: usize, nthvert: usize) -> (r: Vec4) {
        let light_dir = self.light_dir;
        gouraud_vertex(&mut self.varying_intensity, light_dir, model, t, iface, nthvert)
    }

    fn fragment(&self, model: &Model, bar: Bary, base_color: Color) -> (r: (bool, Color)) {
        let i = interp3(
            self.varying_intensity.x,
            self.varying_intensity.y,
            self.varying_intensity.z,
            &bar,
        );
        (false, base_color.scale(i))
    }
}

/// Cartoon shading: Gouraud intensity, then quantization into the fixed
/// bands before scaling the base color.
pub struct CartoonShader {
    pub varying_intensity: Vec3,
    pub light_dir: Vec3,
}

impl CartoonShader {
    /// A fresh shader for the given light direction, with cleared
    /// varying state.
    pub fn new(light_dir: Vec3) -> (s: CartoonShader)
        requires
            vec3_bounded(light_dir, 4 * FX_SCALE as int),
        ensures
            s.varying_intensity == (Vec3 {
                x: Fx { bits: 0 },
                y: Fx { bits: 0 },
                z: Fx { bits: 0 },
            }),
            s.light_dir == light_dir,
            s.wf(),
    {
        CartoonShader {
            varying_intensity: Vec3 { x: Fx { bits: 0 }, y: Fx { bits: 0 }, z: Fx { bits: 0 } },
            light_dir,
        }
    }
}

impl IShader for CartoonShader {
    open spec fn wf(&self) -> bool {
        &&& vec3_bounded(self.varying_intensity, FX_VAR as int)
        &&& vec3_bounded(self.light_dir, 4 * FX_SCALE as int)
    }

    open spec fn vertex_spec(&self, model: Model, t: Mat4, iface: int, nthvert: int) -> (
        CartoonShader,
        Vec4,
    ) {
        (
            CartoonShader {
                varying_intensity: spec_set_slot(
                    self.varying_intensity,
                    nthvert,
                    spec_vertex_intensity(model, self.light_dir, iface, nthvert),
                ),
                light_dir: self.light_dir,
            },
            spec_vertex_position(model, t, iface, nthvert),
        )
    }

    open spec fn fragment_spec(
        &self,
        model: Model,
        w0: int,
        w1: int,
        w2: int,
        den: int,
        base_color: Color,
    ) -> (bool, Color) {
        let i = spec_cartoon_quantize(
            spec_interp3(
                self.varying_intensity.x.bits as int,
                self.varying_intensity.y.bits as int,
                self.varying_intensity.z.bits as int,
                w0,
                w1,
                w2,
                den,
            ),
        );
        (
            false,
            Color {
                r: spec_channel_scale(base_color.r as int, i) as u8,
                g: spec_channel_scale(base_color.g as int, i) as u8,
                b: spec_channel_scale(base_color.b as int, i) as u8,
            },
        )
    }

    fn vertex(&mut self, model: &Model, t: Mat4, iface: usize, nthvert: usize) -> (r: Vec4) {
        let light_dir = self.light_dir;
        gouraud_vertex(&mut self.varying_intensity, light_dir, model, t, iface, nthvert)
    }

    fn fragment(&self, model: &Model, bar: Bary, base_color: Color) -> (r: (bool, Color)) {
        let i = interp3(
            self.varying_intensity.x,
            self.varying_intensity.y,
            self.varying_intensity.z,
            &bar,
        );
        let q = cartoon_quantize(i);
        (false, base_color.scale(q))
    }
}

/// Bound on the stored screen-space triangle corners of the textured
/// shader, chosen so corner differences fit the 3x3 solver.
pub const FX_ND: i64 = 2147483648;

/// Three per-vertex `Vec3` attribute slots.
#[derive(Clone, Copy, PartialEq, Eq, Structural, Debug)]
pub struct Tri3 {
    pub c0: Vec3,
    pub c1: Vec3,
    pub c2: Vec3,
}

/// Three per-vertex homogeneous attribute slots.
#[derive(Clone, Copy, PartialEq, Eq, Structural, Debug)]
pub struct Tri4 {
    pub c0: Vec4,
    pub c1: Vec4,
    pub c2: Vec4,
}

pub open spec fn tri3_bounded(t: Tri3, b: int) -> bool {
    vec3_bounded(t.c0, b) && vec3_bounded(t.c1, b) && vec3_bounded(t.c2, b)
}

pub open spec fn tri4_bounded(t: Tri4, b: int) -> bool {
    vec4_bounded(t.c0, b) && vec4_bounded(t.c1, b) && vec4_bounded(t.c2, b)
}

pub open spec fn spec_tri3_set(t: Tri3, slot: int, v: Vec3) -> Tri3 {
    if slot == 0 {
        Tri3 { c0: v, c1: t.c1, c2: t.c2 }
    } else if slot == 1 {
        Tri3 { c0: t.c0, c1: v, c2: t.c2 }
    } else {
        Tri3 { c0: t.c0, c1: t.c1, c2: v }
    }
}

pub open spec fn spec_tri4_set(t: Tri4, slot: int, v: Vec4) -> Tri4 {
    if slot == 0 {
        Tri4 { c0: v, c1: t.c1, c2: t.c2 }
    } else if slot == 1 {
        Tri4 { c0: t.c0, c1: v, c2: t.c2 }
    } else {
        Tri4 { c0: t.c0, c1: t.c1, c2: v }
    }
}

pub open spec fn spec_tri3_zero() -> Tri3 {
    Tri3 { c0: spec_vec3_zero(), c1: spec_vec3_zero(), c2: spec_vec3_zero() }
}

pub open spec fn spec_vec3_zero() -> Vec3 {
    Vec3 { x: Fx { bits: 0 }, y: Fx { bits: 0 }, z: Fx { bits: 0 } }
}

pub open spec fn spec_vec4_zero() -> Vec4 {
    Vec4 { x: Fx { bits: 0 }, y: Fx { bits: 0 }, z: Fx { bits: 0 }, w: Fx { bits: 0 } }
}

pub open spec fn spec_tri4_zero() -> Tri4 {
    Tri4 { c0: spec_vec4_zero(), c1: spec_vec4_zero(), c2: spec_vec4_zero() }
}

/// A `Vec3` attribute interpolated slotwise by barycentric weights.
pub open spec fn spec_interp3_v(t: Tri3, w0: int, w1: int, w2: int, den: int) -> Vec3 {
    Vec3 {
        x: Fx { bits: spec_interp3(t.c0.x.bits as int, t.c1.x.bits as int, t.c2.x.bits as int, w0, w1, w2, den) as i64 },
        y: Fx { bits: spec_interp3(t.c0.y.bits as int, t.c1.y.bits as int, t.c2.y.bits as int, w0, w1, w2, den) as i64 },
        z: Fx { bits: spec_interp3(t.c0.z.bits as int, t.c1.z.bits as int, t.c2.z.bits as int, w0, w1, w2, den) as i64 },
    }
}

/// Interpolates a whole `Vec3` attribute over a covered pixel.
pub fn interp3_v(t: &Tri3, bar: &Bary) -> (r: Vec3)
    requires
        bary_covered(bar.w0 as int, bar.w1 as int, bar.w2 as int, bar.den as int),
        tri3_bounded(*t, FX_VAR as int),
    ensures
        r == spec_interp3_v(*t, bar.w0 as int, bar.w1 as int, bar.w2 as int, bar.den as int),
        vec3_bounded(r, 3 * FX_VAR as int),
{
    Vec3 {
        x: interp3(t.c0.x, t.c1.x, t.c2.x, bar),
        y: interp3(t.c0.y, t.c1.y, t.c2.y, bar),
        z: interp3(t.c0.z, t.c1.z, t.c2.z, bar),
    }
}

/// One color channel of the textured shader: the diffuse channel scaled
/// by the light coefficient, plus a small additive bias, clamped into
/// the 8-bit range.
pub open spec fn spec_phong_channel(c: int, coef: int) -> int {
    spec_clamp(5 + fdiv(c * coef, FX_SCALE as int), 0, 255)
}

pub fn phong_channel(c: u8, coef: Fx) -> (r: u8)
    ensures
        r as int == spec_phong_channel(c as int, coef.bits as int),
{
    proof {
        lemma_prod_bound2(c as int, coef.bits as int, 255, 0x8000000000000000);
    }
    let p: i128 = (c as i128) * (coef.bits as i128);
    let v: i128 = i128_fdiv(p, FX_SCALE as i128);
    let b: i128 = 5 + v;
    if b < 0 {
        0
    } else if b > 255 {
        255
    } else {
        b as u8
    }
}

/// Phong shading with tangent-space normal mapping: reconstructs a
/// per-pixel tangent frame from the triangle's screen corners and
/// interpolated UV, decodes the mapped normal into world space, and
/// composes a diffuse plus specular color.  Any degenerate intermediate
/// — a zero interpolated normal, a singular tangent system, or a zero
/// vector about to be normalized — discards the fragment.
pub struct Shader {
    pub varying_uv: Tri3,
    pub varying_nrm: Tri3,
    pub varying_tri: Tri4,
    pub ndc_tri: Tri3,
    pub uniform_m: Mat4,
    pub uniform_mit: Mat4,
    pub light_dir: Vec3,
}

impl Shader {
    /// A fresh shader: the varying slots cleared, the inverse-transpose
    /// of `uniform_m` precomputed for carrying normals (the identity
    /// when `uniform_m` is singular), the light direction fixed.
    pub fn new(uniform_m: Mat4, light_dir: Vec3) -> (s: Shader)
        requires
            mat4_bounded(uniform_m, SV4_LIM as int),
            vec3_bounded(light_dir, 4 * FX_SCALE as int),
        ensures
            s.varying_uv == spec_tri3_zero(),
            s.varying_nrm == spec_tri3_zero(),
            s.varying_tri == spec_tri4_zero(),
            s.ndc_tri == spec_tri3_zero(),
            s.uniform_m == uniform_m,
            s.uniform_mit == if spec_det4(uniform_m) != 0 {
                spec_mit(uniform_m)
            } else {
                spec_mat4_identity()
            },
            s.light_dir == light_dir,
            s.wf(),
    {
        let mit: Mat4 = match mat4_inverse_transpose(&uniform_m) {
            Some(m) => m,
            None => Mat4::identity(),
        };
        Shader {
            varying_uv: Tri3 { c0: zero3(), c1: zero3(), c2: zero3() },
            varying_nrm: Tri3 { c0: zero3(), c1: zero3(), c2: zero3() },
            varying_tri: Tri4 { c0: zero4(), c1: zero4(), c2: zero4() },
            ndc_tri: Tri3 { c0: zero3(), c1: zero3(), c2: zero3() },
            uniform_m,
            uniform_mit: mit,
            light_dir,
        }
    }

    /// A shader with both transform matrices supplied by the caller.
    pub fn with_matrices(uniform_m: Mat4, uniform_mit: Mat4, light_dir: Vec3) -> (s: Shader)
        requires
            mat4_bounded(uniform_m, SV4_LIM as int),
            mat4_bounded(uniform_mit, FX_MM as int),
            vec3_bounded(light_dir, 4 * FX_SCALE as int),
        ensures
            s.varying_uv == spec_tri3_zero(),
            s.varying_nrm == spec_tri3_zero(),
            s.varying_tri == spec_tri4_zero(),
            s.ndc_tri == spec_tri3_zero(),
            s.uniform_m == uniform_m,
            s.uniform_mit == uniform_mit,
            s.light_dir == light_dir,
            s.wf(),
    {
        Shader {
            varying_uv: Tri3 { c0: zero3(), c1: zero3(), c2: zero3() },
            varying_nrm: Tri3 { c0: zero3(), c1: zero3(), c2: zero3() },
            varying_tri: Tri4 { c0: zero4(), c1: zero4(), c2: zero4() },
            ndc_tri: Tri3 { c0: zero3(), c1: zero3(), c2: zero3() },
            uniform_m,
            uniform_mit,
            light_dir,
        }
    }
}

fn zero3() -> (r: Vec3)
    ensures
        r == spec_vec3_zero(),
{
    Vec3 { x: Fx { bits: 0 }, y: Fx { bits: 0 }, z: Fx { bits: 0 } }
}

fn zero4() -> (r: Vec4)
    ensures
        r == spec_vec4_zero(),
{
    Vec4 { x: Fx { bits: 0 }, y: Fx { bits: 0 }, z: Fx { bits: 0 }, w: Fx { bits: 0 } }
}

impl IShader for Shader {
    open spec fn wf(&self) -> bool {
        &&& tri3_bounded(self.varying_uv, FX_SCALE as int)
        &&& tri3_bounded(self.varying_nrm, FX_PT as int)
        &&& tri4_bounded(self.varying_tri, FX_VAR as int)
        &&& tri3_bounded(self.ndc_tri, FX_ND as int)
        &&& mat4_bounded(self.uniform_m, SV4_LIM as int)
        &&& mat4_bounded(self.uniform_mit, FX_MM as int)
        &&& vec3_bounded(self.light_dir, 4 * FX_SCALE as int)
    }

    open spec fn vertex_spec(&self, model: Model, t: Mat4, iface: int, nthvert: int) -> (
        Shader,
        Vec4,
    ) {
        let uv = model.uv_[model.faces_diffuse_coords[iface][nthvert] as int];
        let n = model.norms[model.faces_normal_coords[iface][nthvert] as int];
        let n4 = spec_h_div4(spec_mul_vec(self.uniform_mit, spec_v2m(n)));
        let nrm = Vec3 { x: n4.x, y: n4.y, z: n4.z };
        let gl = spec_mul_vec(t, spec_v2m(model.verts[model.faces[iface][nthvert] as int]));
        let scr = spec_h_div4_floor(gl);
        let ndc = crate::linalg::spec_clamp3(Vec3 { x: scr.x, y: scr.y, z: scr.z }, FX_ND as int);
        (
            Shader {
                varying_uv: spec_tri3_set(self.varying_uv, nthvert, uv),
                varying_nrm: spec_tri3_set(self.varying_nrm, nthvert, nrm),
                varying_tri: spec_tri4_set(self.varying_tri, nthvert, spec_clamp4(gl, FX_VAR as int)),
                ndc_tri: spec_tri3_set(self.ndc_tri, nthvert, ndc),
                uniform_m: self.uniform_m,
                uniform_mit: self.uniform_mit,
                light_dir: self.light_dir,
            },
            scr,
        )
    }

    open spec fn fragment_spec(
        &self,
        model: Model,
        w0: int,
        w1: int,
        w2: int,
        den: int,
        base_color: Color,
    ) -> (bool, Color) {
        let black = Color { r: 0u8, g: 0u8, b: 0u8 };
        let bn_raw = spec_interp3_v(self.varying_nrm, w0, w1, w2, den);
        if vec3_is_zero(bn_raw) {
            (true, black)
        } else {
            let bn = crate::linalg::spec_normalize3(bn_raw);
            let uvw = spec_interp3_v(self.varying_uv, w0, w1, w2, den);
            let d1 = spec_sub3(self.ndc_tri.c1, self.ndc_tri.c0);
            let d2 = spec_sub3(self.ndc_tri.c2, self.ndc_tri.c0);
            if spec_det3(d1, d2, bn) == 0 {
                (true, black)
            } else {
                let bu = Vec3 {
                    x: Fx { bits: (self.varying_uv.c1.x.bits - self.varying_uv.c0.x.bits) as i64 },
                    y: Fx { bits: (self.varying_uv.c2.x.bits - self.varying_uv.c0.x.bits) as i64 },
                    z: Fx { bits: 0 },
                };
                let bv = Vec3 {
                    x: Fx { bits: (self.varying_uv.c1.y.bits - self.varying_uv.c0.y.bits) as i64 },
                    y: Fx { bits: (self.varying_uv.c2.y.bits - self.varying_uv.c0.y.bits) as i64 },
                    z: Fx { bits: 0 },
                };
                let iv = spec_solve3(d1, d2, bn, bu);
                let jv = spec_solve3(d1, d2, bn, bv);
                if vec3_is_zero(iv) || vec3_is_zero(jv) {
                    (true, black)
                } else {
                    let i_n = crate::linalg::spec_normalize3(iv);
                    let j_n = crate::linalg::spec_normalize3(jv);
                    let nm = spec_model_normal(model, uvw);
                    let nr = Vec3 {
                        x: Fx { bits: spec_dot3(Vec3 { x: i_n.x, y: j_n.x, z: bn.x }, nm) as i64 },
                        y: Fx { bits: spec_dot3(Vec3 { x: i_n.y, y: j_n.y, z: bn.y }, nm) as i64 },
                        z: Fx { bits: spec_dot3(Vec3 { x: i_n.z, y: j_n.z, z: bn.z }, nm) as i64 },
                    };
                    if vec3_is_zero(nr) {
                        (true, black)
                    } else {
                        let n = crate::linalg::spec_normalize3(nr);
                        let l4 = spec_h_div4(spec_mul_vec(self.uniform_m, spec_v2m(self.light_dir)));
                        let lv = Vec3 { x: l4.x, y: l4.y, z: l4.z };
                        if vec3_is_zero(lv) {
                            (true, black)
                        } else {
                            let l = crate::linalg::spec_normalize3(lv);
                            let ndl = spec_dot3(n, l);
                            let rv = Vec3 {
                                x: Fx { bits: (spec_fx_mul(n.x.bits as int, 2 * ndl) - l.x.bits) as i64 },
                                y: Fx { bits: (spec_fx_mul(n.y.bits as int, 2 * ndl) - l.y.bits) as i64 },
                                z: Fx { bits: (spec_fx_mul(n.z.bits as int, 2 * ndl) - l.z.bits) as i64 },
                            };
                            if vec3_is_zero(rv) {
                                (true, black)
                            } else {
                                let rr = crate::linalg::spec_normalize3(rv);
                                let base = if rr.z.bits < 0 { 0 } else { rr.z.bits as int };
                                let e = spec_model_specular(model, uvw);
                                let sp = spec_fx_pow(base, e as nat);
                                let dif = if ndl < 0 { 0 } else { ndl };
                                let coef = dif + fdiv(3 * sp, 10);
                                let dc = spec_model_diffuse(model, uvw);
                                (
                                    false,
                                    Color {
                                        r: spec_phong_channel(dc.r as int, coef) as u8,
                                        g: spec_phong_channel(dc.g as int, coef) as u8,
                                        b: spec_phong_channel(dc.b as int, coef) as u8,
                                    },
                                )
                            }
                        }
                    }
                }
            }
        }
    }

    fn vertex(&mut self, model: &Model, t: Mat4, iface: usize, nthvert: usize) -> (r: Vec4) {
        let uv = model.uv(iface, nthvert);
        let n = model.uv_normal(iface, nthvert);
        let nh = Vec4 { x: n.x, y: n.y, z: n.z, w: Fx { bits: FX_SCALE } };
        proof {
            lemma_dot4_bound(self.uniform_mit.r0, nh);
            lemma_dot4_bound(self.uniform_mit.r1, nh);
            lemma_dot4_bound(self.uniform_mit.r2, nh);
            lemma_dot4_bound(self.uniform_mit.r3, nh);
        }
        let nt = self.uniform_mit.mul_vec(nh);
        proof {
            assert(nh == spec_v2m(n));
            assert(nt == spec_mul_vec(self.uniform_mit, spec_v2m(n)));
        }
        let n4 = h_div4(nt);
        let nrm = Vec3 { x: n4.x, y: n4.y, z: n4.z };
        let vert = model.verts[model.faces[iface][nthvert] as usize];
        let hv = Vec4 { x: vert.x, y: vert.y, z: vert.z, w: Fx { bits: FX_SCALE } };
        proof {
            lemma_dot4_bound(t.r0, hv);
            lemma_dot4_bound(t.r1, hv);
            lemma_dot4_bound(t.r2, hv);
            lemma_dot4_bound(t.r3, hv);
        }
        let gl = t.mul_vec(hv);
        proof {
            assert(gl == spec_mul_vec(t, spec_v2m(vert)));
        }
        let scr = h_div4_floor(gl);
        let ndc = crate::linalg::clamp3(Vec3 { x: scr.x, y: scr.y, z: scr.z }, FX_ND);
        let tric = clamp4(gl, FX_VAR);
        if nthvert == 0 {
            self.varying_uv.c0 = uv;
            self.varying_nrm.c0 = nrm;
            self.varying_tri.c0 = tric;
            self.ndc_tri.c0 = ndc;
        } else if nthvert == 1 {
            self.varying_uv.c1 = uv;
            self.varying_nrm.c1 = nrm;
            self.varying_tri.c1 = tric;
            self.ndc_tri.c1 = ndc;
        } else {
            self.varying_uv.c2 = uv;
            self.varying_nrm.c2 = nrm;
            self.varying_tri.c2 = tric;
            self.ndc_tri.c2 = ndc;
        }
        scr
    }

    #[verifier::rlimit(100)]
    #[verifier::spinoff_prover]
    fn fragment(&self, model: &Model, bar: Bary, base_color: Color) -> (r: (bool, Color)) {
        let black = Color { r: 0, g: 0, b: 0 };
        proof {
            lemma_tri3_bound_widen(self.varying_nrm);
            lemma_tri3_bound_widen_uv(self.varying_uv);
        }
        let bn_raw = interp3_v(&self.varying_nrm, &bar);
        if bn_raw.x.bits == 0 && bn_raw.y.bits == 0 && bn_raw.z.bits == 0 {
            return (true, black);
        }
        let bn = bn_raw.normalize();
        let uvw = interp3_v(&self.varying_uv, &bar);
        let d1 = self.ndc_tri.c1.sub(self.ndc_tri.c0);
        let d2 = self.ndc_tri.c2.sub(self.ndc_tri.c0);
        let bu = Vec3 {
            x: self.varying_uv.c1.x.sub(self.varying_uv.c0.x),
            y: self.varying_uv.c2.x.sub(self.varying_uv.c0.x),
            z: Fx { bits: 0 },
        };
        let bv = Vec3 {
            x: self.varying_uv.c1.y.sub(self.varying_uv.c0.y),
            y: self.varying_uv.c2.y.sub(self.varying_uv.c0.y),
            z: Fx { bits: 0 },
        };
        let iv_o = solve3(d1, d2, bn, bu);
        let jv_o = solve3(d1, d2, bn, bv);
        let (iv, jv) = match (iv_o, jv_o) {
            (Some(a), Some(b)) => (a, b),
            _ => {
                return (true, black);
            },
        };
        if (iv.x.bits == 0 && iv.y.bits == 0 && iv.z.bits == 0) || (jv.x.bits == 0 && jv.y.bits
            == 0 && jv.z.bits == 0) {
            return (true, black);
        }
        let i_n = iv.normalize();
        let j_n = jv.normalize();
        let nm = model.normal(uvw);
        let nr = Vec3 {
            x: Vec3 { x: i_n.x, y: j_n.x, z: bn.x }.dot(nm),
            y: Vec3 { x: i_n.y, y: j_n.y, z: bn.y }.dot(nm),
            z: Vec3 { x: i_n.z, y: j_n.z, z: bn.z }.dot(nm),
        };
        if nr.x.bits == 0 && nr.y.bits == 0 && nr.z.bits == 0 {
            return (true, black);
        }
        proof {
            lemma_unit_dot_bound(Vec3 { x: i_n.x, y: j_n.x, z: bn.x }, nm);
            lemma_unit_dot_bound(Vec3 { x: i_n.y, y: j_n.y, z: bn.y }, nm);
            lemma_unit_dot_bound(Vec3 { x: i_n.z, y: j_n.z, z: bn.z }, nm);
        }
        let n = nr.normalize();
        let lh = Vec4 {
            x: self.light_dir.x,
            y: self.light_dir.y,
            z: self.light_dir.z,
            w: Fx { bits: FX_SCALE },
        };
        proof {
            lemma_dot4_bound(self.uniform_m.r0, lh);
            lemma_dot4_bound(self.uniform_m.r1, lh);
            lemma_dot4_bound(self.uniform_m.r2, lh);
            lemma_dot4_bound(self.uniform_m.r3, lh);
            assert(lh == spec_v2m(self.light_dir));
        }
        let l4 = h_div4(self.uniform_m.mul_vec(lh));
        let lv = Vec3 { x: l4.x, y: l4.y, z: l4.z };
        if lv.x.bits == 0 && lv.y.bits == 0 && lv.z.bits == 0 {
            return (true, black);
        }
        let l = lv.normalize();
        let ndl = n.dot(l);
        proof {
            lemma_unit_dot_bound(n, l);
            lemma_reflect_bounds(n, l, ndl.bits as int);
        }
        let two_ndl = Fx { bits: 2 * ndl.bits };
        let rv = Vec3 {
            x: n.x.mul(two_ndl).sub(l.x),
            y: n.y.mul(two_ndl).sub(l.y),
            z: n.z.mul(two_ndl).sub(l.z),
        };
        if rv.x.bits == 0 && rv.y.bits == 0 && rv.z.bits == 0 {
            return (true, black);
        }
        let rr = rv.normalize();
        let base: Fx = if rr.z.bits < 0 {
            Fx { bits: 0 }
        } else {
            rr.z
        };
        let spec_fx = model.specular(uvw);
        let e128: i128 = i128_fdiv(spec_fx.bits as i128, FX_SCALE as i128);
        proof {
            vstd::arithmetic::div_mod::lemma_div_multiples_vanish(
                crate::model::spec_model_specular(*model, uvw),
                FX_SCALE as int,
            );
            assert((crate::model::spec_model_specular(*model, uvw) * FX_SCALE) as int
                == FX_SCALE as int * crate::model::spec_model_specular(*model, uvw))
                by (nonlinear_arith);
        }
        let e: u32 = e128 as u32;
        let sp = fx_pow(base, e);
        let dif: Fx = if ndl.bits < 0 {
            Fx { bits: 0 }
        } else {
            ndl
        };
        let spec_term: i128 = i128_fdiv(3 * (sp.bits as i128), 10);
        proof {
            crate::fixed::lemma_fdiv_bounds(3 * (sp.bits as int), 10);
        }
        let coef = Fx { bits: dif.bits + (spec_term as i64) };
        let dc = model.diffuse(uvw);
        (
            false,
            Color {
                r: phong_channel(dc.r, coef),
                g: phong_channel(dc.g, coef),
                b: phong_channel(dc.b, coef),
            },
        )
    }
}

/// `FX_PT`-bounded attribute slots are within the interpolation bound.
proof fn lemma_tri3_bound_widen(t: Tri3)
    requires
        tri3_bounded(t, FX_PT as int),
    ensures
        tri3_bounded(t, FX_VAR as int),
{
}

/// `FX_SCALE`-bounded attribute slots are within the interpolation
/// bound.
proof fn lemma_tri3_bound_widen_uv(t: Tri3)
    requires
        tri3_bounded(t, FX_SCALE as int),
    ensures
        tri3_bounded(t, FX_VAR as int),
{
}

/// The dot of two unit-bounded vectors is within three units.
proof fn lemma_unit_dot_bound(a: Vec3, b: Vec3)
    requires
        vec3_bounded(a, FX_SCALE as int),
        vec3_bounded(b, FX_SCALE as int),
    ensures
        -3 * FX_SCALE <= spec_dot3(a, b) <= 3 * FX_SCALE,
{
    lemma_prod_bound(a.x.bits as int, b.x.bits as int, FX_SCALE as int);
    lemma_prod_bound(a.y.bits as int, b.y.bits as int, FX_SCALE as int);
    lemma_prod_bound(a.z.bits as int, b.z.bits as int, FX_SCALE as int);
    assert(3 * ((FX_SCALE as int) * (FX_SCALE as int)) == (3 * FX_SCALE as int) * (
    FX_SCALE as int)) by (nonlinear_arith);
    lemma_fdiv_abs_le(
        a.x.bits * b.x.bits + a.y.bits * b.y.bits + a.z.bits * b.z.bits,
        FX_SCALE as int,
        3 * FX_SCALE as int,
    );
}

/// The scaled reflection terms stay small.
proof fn lemma_reflect_bounds(n: Vec3, l: Vec3, ndl: int)
    requires
        vec3_bounded(n, FX_SCALE as int),
        vec3_bounded(l, FX_SCALE as int),
        -3 * FX_SCALE <= ndl <= 3 * FX_SCALE,
    ensures
        -7 * FX_SCALE <= spec_fx_mul(n.x.bits as int, 2 * ndl) - l.x.bits <= 7 * FX_SCALE,
        -7 * FX_SCALE <= spec_fx_mul(n.y.bits as int, 2 * ndl) - l.y.bits <= 7 * FX_SCALE,
        -7 * FX_SCALE <= spec_fx_mul(n.z.bits as int, 2 * ndl) - l.z.bits <= 7 * FX_SCALE,
        i64::MIN <= spec_fx_mul(n.x.bits as int, 2 * ndl) <= i64::MAX,
        i64::MIN <= spec_fx_mul(n.y.bits as int, 2 * ndl) <= i64::MAX,
        i64::MIN <= spec_fx_mul(n.z.bits as int, 2 * ndl) <= i64::MAX,
{
    lemma_prod_bound2(n.x.bits as int, 2 * ndl, FX_SCALE as int, 6 * FX_SCALE as int);
    lemma_prod_bound2(n.y.bits as int, 2 * ndl, FX_SCALE as int, 6 * FX_SCALE as int);
    lemma_prod_bound2(n.z.bits as int, 2 * ndl, FX_SCALE as int, 6 * FX_SCALE as int);
    assert((FX_SCALE as int) * (6 * FX_SCALE as int) == (6 * FX_SCALE as int) * (FX_SCALE as int))
        by (nonlinear_arith);
    lemma_fdiv_abs_le(n.x.bits * (2 * ndl), FX_SCALE as int, 6 * FX_SCALE as int);
    lemma_fdiv_abs_le(n.y.bits * (2 * ndl), FX_SCALE as int, 6 * FX_SCALE as int);
    lemma_fdiv_abs_le(n.z.bits * (2 * ndl), FX_SCALE as int, 6 * FX_SCALE as int);
}

/// The closed set of shader variants the pipeline is built with.
pub enum AnyShader {
    Shader(Shader),
}

impl From<Shader> for AnyShader {
    fn from(shader: Shader) -> (r: AnyShader) {
        AnyShader::Shader(shader)
    }
}

impl vstd::std_specs::convert::FromSpecImpl<Shader> for AnyShader {
    open spec fn obeys_from_spec() -> bool {
        true
    }

    open spec fn from_spec(v: Shader) -> AnyShader {
        AnyShader::Shader(v)
    }
}

impl IShader for AnyShader {
    open spec fn wf(&self) -> bool {
        match *self {
            AnyShader::Shader(f) => f.wf(),
        }
    }

    open spec fn vertex_spec(&self, model: Model, t: Mat4, iface: int, nthvert: int) -> (
        AnyShader,
        Vec4,
    ) {
        match *self {
            AnyShader::Shader(f) => {
                let (s2, r) = f.vertex_spec(model, t, iface, nthvert);
                (AnyShader::Shader(s2), r)
            },
        }
    }

    open spec fn fragment_spec(
        &self,
        model: Model,
        w0: int,
        w1: int,
        w2: int,
        den: int,
        base_color: Color,
    ) -> (bool, Color) {
        match *self {
            AnyShader::Shader(f) => f.fragment_spec(model, w0, w1, w2, den, base_color),
        }
    }

    fn vertex(&mut self, model: &Model, t: Mat4, iface: usize, nthvert: usize) -> (r: Vec4) {
        match self {
            AnyShader::Shader(f) => f.vertex(model, t, iface, nthvert),
        }
    }

    fn fragment(&self, model: &Model, bar: Bary, base_color: Color) -> (r: (bool, Color)) {
        match self {
            AnyShader::Shader(f) => f.fragment(model, bar, base_color),
        }
    }
}

} // verus!
