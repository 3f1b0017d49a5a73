//! Fixed-point vectors and 4x4 matrices.
//!
//! All geometric transforms run in homogeneous coordinates; conversion back
//! to 3-component form divides by the homogeneous `w` and is only defined
//! for `w != 0`.  Every operation's contract gives the exact rounded-down
//! integer formula of each component.

use vstd::prelude::*;
use crate::fixed::{Fx, FX_SCALE, fdiv, spec_fx_mul, spec_clamp, sqrt_floor, i128_fdiv,
    isqrt_u128, lemma_fdiv_bounds};

verus! {

/// Magnitude bound (in bits) under which the matrix and vector products
/// below stay inside `i64` after the fixed-point scaling.
pub const FX_MM: i64 = 274877906944;

/// Bound on the raw coordinate bits of a screen point, and the clamp
/// range of homogeneous division.
pub const FX_PT: i64 = 68719476736;

#[derive(Clone, Copy, PartialEq, Eq, Structural, Debug)]
pub struct Vec3 {
    pub x: Fx,
    pub y: Fx,
    pub z: Fx,
}

#[derive(Clone, Copy, PartialEq, Eq, Structural, Debug)]
pub struct Vec4 {
    pub x: Fx,
    pub y: Fx,
    pub z: Fx,
    pub w: Fx,
}

/// A 4x4 matrix, stored by rows.
#[derive(Clone, Copy, PartialEq, Eq, Structural, Debug)]
pub struct Mat4 {
    pub r0: Vec4,
    pub r1: Vec4,
    pub r2: Vec4,
    pub r3: Vec4,
}

pub open spec fn vec3_bounded(v: Vec3, b: int) -> bool {
    &&& -b <= v.x.bits <= b
    &&& -b <= v.y.bits <= b
    &&& -b <= v.z.bits <= b
}

pub open spec fn vec4_bounded(v: Vec4, b: int) -> bool {
    &&& -b <= v.x.bits <= b
    &&& -b <= v.y.bits <= b
    &&& -b <= v.z.bits <= b
    &&& -b <= v.w.bits <= b
}

pub open spec fn mat4_bounded(m: Mat4, b: int) -> bool {
    &&& vec4_bounded(m.r0, b)
    &&& vec4_bounded(m.r1, b)
    &&& vec4_bounded(m.r2, b)
    &&& vec4_bounded(m.r3, b)
}

/// Dot product of two fixed-point 3-vectors, one rounding at the end.
pub open spec fn spec_dot3(a: Vec3, b: Vec3) -> int {
    fdiv(a.x.bits * b.x.bits + a.y.bits * b.y.bits + a.z.bits * b.z.bits, FX_SCALE as int)
}

pub open spec fn spec_dot4(a: Vec4, b: Vec4) -> int {
    fdiv(
        a.x.bits * b.x.bits + a.y.bits * b.y.bits + a.z.bits * b.z.bits + a.w.bits * b.w.bits,
        FX_SCALE as int,
    )
}

/// `|a * b| <= m * m` whenever both factors are within `[-m, m]`.
pub proof fn lemma_prod_bound(a: int, b: int, m: int)
    requires
        0 <= m,
        -m <= a <= m,
        -m <= b <= m,
    ensures
        -(m * m) <= a * b <= m * m,
{
    assert(-(m * m) <= a * b <= m * m) by (nonlinear_arith)
        requires
            0 <= m,
            -m <= a <= m,
            -m <= b <= m;
}

/// `|fdiv(n, d)| <= b` whenever `|n| <= b * d`.
pub proof fn lemma_fdiv_abs_le(n: int, d: int, b: int)
    requires
        d > 0,
        0 <= b,
        -(b * d) <= n <= b * d,
    ensures
        -b <= fdiv(n, d) <= b,
{
    lemma_fdiv_bounds(n, d);
    let q = fdiv(n, d);
    if q > b {
        assert(false) by (nonlinear_arith)
            requires
                d > 0,
                q > b,
                d * q <= n,
                n <= b * d;
    }
    if q < -b {
        assert(false) by (nonlinear_arith)
            requires
                d > 0,
                q < -b,
                n < d * (q + 1),
                -(b * d) <= n;
    }
}

impl Vec3 {
    pub fn new(x: Fx, y: Fx, z: Fx) -> (r: Vec3)
        ensures
            r == (Vec3 { x, y, z }),
    {
        Vec3 { x, y, z }
    }

    pub fn add(self, o: Vec3) -> (r: Vec3)
        requires
            vec3_bounded(self, FX_MM as int),
            vec3_bounded(o, FX_MM as int),
        ensures
            r.x.bits == self.x.bits + o.x.bits,
            r.y.bits == self.y.bits + o.y.bits,
            r.z.bits == self.z.bits + o.z.bits,
    {
        Vec3 { x: self.x.add(o.x), y: self.y.add(o.y), z: self.z.add(o.z) }
    }

    pub fn sub(self, o: Vec3) -> (r: Vec3)
        requires
            vec3_bounded(self, FX_MM as int),
            vec3_bounded(o, FX_MM as int),
        ensures
            r.x.bits == self.x.bits - o.x.bits,
            r.y.bits == self.y.bits - o.y.bits,
            r.z.bits == self.z.bits - o.z.bits,
            r == spec_sub3(self, o),
    {
        Vec3 { x: self.x.sub(o.x), y: self.y.sub(o.y), z: self.z.sub(o.z) }
    }

    /// Componentwise scaling by a fixed-point factor.
    pub fn scale(self, s: Fx) -> (r: Vec3)
        requires
            vec3_bounded(self, FX_MM as int),
            -FX_MM <= s.bits <= FX_MM,
        ensures
            r.x.bits == spec_fx_mul(self.x.bits as int, s.bits as int),
            r.y.bits == spec_fx_mul(self.y.bits as int, s.bits as int),
            r.z.bits == spec_fx_mul(self.z.bits as int, s.bits as int),
    {
        proof {
            lemma_prod_bound(self.x.bits as int, s.bits as int, FX_MM as int);
            lemma_prod_bound(self.y.bits as int, s.bits as int, FX_MM as int);
            lemma_prod_bound(self.z.bits as int, s.bits as int, FX_MM as int);
            lemma_fdiv_abs_le(self.x.bits * s.bits, FX_SCALE as int, i64::MAX as int);
            lemma_fdiv_abs_le(self.y.bits * s.bits, FX_SCALE as int, i64::MAX as int);
            lemma_fdiv_abs_le(self.z.bits * s.bits, FX_SCALE as int, i64::MAX as int);
        }
        Vec3 { x: self.x.mul(s), y: self.y.mul(s), z: self.z.mul(s) }
    }

    pub fn dot(self, o: Vec3) -> (r: Fx)
        requires
            vec3_bounded(self, FX_MM as int),
            vec3_bounded(o, FX_MM as int),
        ensures
            r.bits == spec_dot3(self, o),
    {
        proof {
            lemma_prod_bound(self.x.bits as int, o.x.bits as int, FX_MM as int);
            lemma_prod_bound(self.y.bits as int, o.y.bits as int, FX_MM as int);
            lemma_prod_bound(self.z.bits as int, o.z.bits as int, FX_MM as int);
            lemma_fdiv_abs_le(
                self.x.bits * o.x.bits + self.y.bits * o.y.bits + self.z.bits * o.z.bits,
                FX_SCALE as int,
                i64::MAX as int,
            );
        }
        let s: i128 = (self.x.bits as i128) * (o.x.bits as i128) + (self.y.bits as i128) * (
        o.y.bits as i128) + (self.z.bits as i128) * (o.z.bits as i128);
        let q: i128 = i128_fdiv(s, FX_SCALE as i128);
        Fx { bits: q as i64 }
    }

    pub fn cross(self, o: Vec3) -> (r: Vec3)
        requires
            vec3_bounded(self, FX_MM as int),
            vec3_bounded(o, FX_MM as int),
        ensures
            r.x.bits == fdiv(self.y.bits * o.z.bits - self.z.bits * o.y.bits, FX_SCALE as int),
            r.y.bits == fdiv(self.z.bits * o.x.bits - self.x.bits * o.z.bits, FX_SCALE as int),
            r.z.bits == fdiv(self.x.bits * o.y.bits - self.y.bits * o.x.bits, FX_SCALE as int),
            r == spec_cross3(self, o),
    {
        proof {
            lemma_cross3_fits(self, o);
        }
        proof {
            lemma_prod_bound(self.y.bits as int, o.z.bits as int, FX_MM as int);
            lemma_prod_bound(self.z.bits as int, o.y.bits as int, FX_MM as int);
            lemma_prod_bound(self.z.bits as int, o.x.bits as int, FX_MM as int);
            lemma_prod_bound(self.x.bits as int, o.z.bits as int, FX_MM as int);
            lemma_prod_bound(self.x.bits as int, o.y.bits as int, FX_MM as int);
            lemma_prod_bound(self.y.bits as int, o.x.bits as int, FX_MM as int);
            lemma_fdiv_abs_le(self.y.bits * o.z.bits - self.z.bits * o.y.bits,
                FX_SCALE as int, i64::MAX as int);
            lemma_fdiv_abs_le(self.z.bits * o.x.bits - self.x.bits * o.z.bits,
                FX_SCALE as int, i64::MAX as int);
            lemma_fdiv_abs_le(self.x.bits * o.y.bits - self.y.bits * o.x.bits,
                FX_SCALE as int, i64::MAX as int);
        }
        let cx: i128 = (self.y.bits as i128) * (o.z.bits as i128) - (self.z.bits as i128) * (
        o.y.bits as i128);
        let cy: i128 = (self.z.bits as i128) * (o.x.bits as i128) - (self.x.bits as i128) * (
        o.z.bits as i128);
        let cz: i128 = (self.x.bits as i128) * (o.y.bits as i128) - (self.y.bits as i128) * (
        o.x.bits as i128);
        let qx: i128 = i128_fdiv(cx, FX_SCALE as i128);
        let qy: i128 = i128_fdiv(cy, FX_SCALE as i128);
        let qz: i128 = i128_fdiv(cz, FX_SCALE as i128);
        Vec3 { x: Fx { bits: qx as i64 }, y: Fx { bits: qy as i64 }, z: Fx { bits: qz as i64 } }
    }
}

/// Squared length of `v` in raw bits (the value `|v|^2 * FX_SCALE^2`).
pub open spec fn spec_norm_sq_bits(v: Vec3) -> int {
    v.x.bits * v.x.bits + v.y.bits * v.y.bits + v.z.bits * v.z.bits
}

/// Length of `v` in bits, rounded down.
pub open spec fn spec_norm_bits(v: Vec3) -> int {
    sqrt_floor(spec_norm_sq_bits(v))
}

pub open spec fn vec3_is_zero(v: Vec3) -> bool {
    v.x.bits == 0 && v.y.bits == 0 && v.z.bits == 0
}

impl Vec3 {
    /// Length of the vector in bits (`|v| * FX_SCALE`, rounded down).
    pub fn norm_bits(self) -> (r: i64)
        requires
            vec3_bounded(self, 0x4000000000000000),
        ensures
            r == spec_norm_bits(self),
            r >= 0,
            !vec3_is_zero(self) ==> r >= 1,
    {
        proof {
            lemma_prod_bound(self.x.bits as int, self.x.bits as int, 0x4000000000000000);
            lemma_prod_bound(self.y.bits as int, self.y.bits as int, 0x4000000000000000);
            lemma_prod_bound(self.z.bits as int, self.z.bits as int, 0x4000000000000000);
            assert(self.x.bits * self.x.bits >= 0) by (nonlinear_arith);
            assert(self.y.bits * self.y.bits >= 0) by (nonlinear_arith);
            assert(self.z.bits * self.z.bits >= 0) by (nonlinear_arith);
        }
        let sx: i128 = (self.x.bits as i128) * (self.x.bits as i128);
        let sy: i128 = (self.y.bits as i128) * (self.y.bits as i128);
        let sz: i128 = (self.z.bits as i128) * (self.z.bits as i128);
        let sum: u128 = (sx + sy + sz) as u128;
        proof {
            assert(3 * 0x4000000000000000 * 0x4000000000000000
                < 0x40000000000000000000000000000000) by (nonlinear_arith);
        }
        let r: u64 = isqrt_u128(sum);
        proof {
            let ri = r as int;
            let s = sum as int;
            assert(ri * ri <= s < (ri + 1) * (ri + 1));
            if ri >= 0x7fffffffffffffff {
                assert(false) by (nonlinear_arith)
                    requires
                        ri >= 0x7fffffffffffffff,
                        ri * ri <= s,
                        s <= 3 * 0x4000000000000000 * 0x4000000000000000;
            }
            if !vec3_is_zero(self) && r == 0 {
                assert(s >= 1) by (nonlinear_arith)
                    requires
                        s == spec_norm_sq_bits(self),
                        !vec3_is_zero(self);
                assert((ri + 1) * (ri + 1) == 1) by (nonlinear_arith)
                    requires
                        ri == 0;
                assert(false);
            }
        }
        r as i64
    }

    /// The vector scaled to unit length: each component becomes
    /// `component * FX_SCALE / |v|`, rounded down.
    pub fn normalize(self) -> (r: Vec3)
        requires
            vec3_bounded(self, 0x4000000000000000),
            !vec3_is_zero(self),
        ensures
            r.x.bits == fdiv(self.x.bits * FX_SCALE, spec_norm_bits(self)),
            r.y.bits == fdiv(self.y.bits * FX_SCALE, spec_norm_bits(self)),
            r.z.bits == fdiv(self.z.bits * FX_SCALE, spec_norm_bits(self)),
            vec3_bounded(r, FX_SCALE as int),
            r == spec_normalize3(self),
    {
        let nb: i64 = self.norm_bits();
        proof {
            lemma_component_le_norm(self);
            lemma_div_in_unit(self.x.bits as int, nb as int);
            lemma_div_in_unit(self.y.bits as int, nb as int);
            lemma_div_in_unit(self.z.bits as int, nb as int);
        }
        let rx: i128 = i128_fdiv((self.x.bits as i128) * (FX_SCALE as i128), nb as i128);
        let ry: i128 = i128_fdiv((self.y.bits as i128) * (FX_SCALE as i128), nb as i128);
        let rz: i128 = i128_fdiv((self.z.bits as i128) * (FX_SCALE as i128), nb as i128);
        Vec3 { x: Fx { bits: rx as i64 }, y: Fx { bits: ry as i64 }, z: Fx { bits: rz as i64 } }
    }
}

/// Each component's magnitude is at most the rounded-down length.
proof fn lemma_component_le_norm(v: Vec3)
    requires
        vec3_bounded(v, 0x4000000000000000),
    ensures
        -spec_norm_bits(v) <= v.x.bits <= spec_norm_bits(v),
        -spec_norm_bits(v) <= v.y.bits <= spec_norm_bits(v),
        -spec_norm_bits(v) <= v.z.bits <= spec_norm_bits(v),
{
    let s = spec_norm_sq_bits(v);
    let n = sqrt_floor(s);
    assert(v.x.bits * v.x.bits >= 0) by (nonlinear_arith);
    assert(v.y.bits * v.y.bits >= 0) by (nonlinear_arith);
    assert(v.z.bits * v.z.bits >= 0) by (nonlinear_arith);
    assert(0 <= n && n * n <= s && s < (n + 1) * (n + 1)) by {
        assert(exists|r: int| 0 <= r && #[trigger] (r * r) <= s && s < (r + 1) * (r + 1)) by {
            lemma_sqrt_exists(s);
        }
    }
    assert(-n <= v.x.bits <= n) by (nonlinear_arith)
        requires
            0 <= n,
            v.x.bits * v.x.bits <= s,
            s < (n + 1) * (n + 1);
    assert(-n <= v.y.bits <= n) by (nonlinear_arith)
        requires
            0 <= n,
            v.y.bits * v.y.bits <= s,
            s < (n + 1) * (n + 1);
    assert(-n <= v.z.bits <= n) by (nonlinear_arith)
        requires
            0 <= n,
            v.z.bits * v.z.bits <= s,
            s < (n + 1) * (n + 1);
}

/// Every nonnegative integer has a floor square root.
proof fn lemma_sqrt_exists(s: int)
    requires
        s >= 0,
    ensures
        exists|r: int| 0 <= r && #[trigger] (r * r) <= s && s < (r + 1) * (r + 1),
    decreases s,
{
    if s == 0 {
        assert(0 * 0 == 0 && (0 + 1) * (0 + 1) == 1) by (nonlinear_arith);
        assert(0 <= 0 && 0 * 0 <= s && s < (0 + 1) * (0 + 1));
    } else {
        lemma_sqrt_exists(s - 1);
        let r0 = choose|r: int| 0 <= r && #[trigger] (r * r) <= s - 1 && s - 1 < (r + 1) * (r + 1);
        if s < (r0 + 1) * (r0 + 1) {
            assert(0 <= r0 && r0 * r0 <= s && s < (r0 + 1) * (r0 + 1));
        } else {
            assert(s == (r0 + 1) * (r0 + 1));
            let r1 = r0 + 1;
            assert((r1 + 1) * (r1 + 1) > r1 * r1) by (nonlinear_arith)
                requires
                    r1 >= 0;
            assert(0 <= r1 && r1 * r1 <= s && s < (r1 + 1) * (r1 + 1));
        }
    }
}

/// `|a| <= d` gives a rounded quotient `a * FX_SCALE / d` within
/// `[-FX_SCALE, FX_SCALE]`.
proof fn lemma_div_in_unit(a: int, d: int)
    requires
        d >= 1,
        -d <= a <= d,
    ensures
        -FX_SCALE <= fdiv(a * FX_SCALE, d) <= FX_SCALE,
{
    assert(-(FX_SCALE as int * d) <= a * FX_SCALE <= FX_SCALE as int * d) by (nonlinear_arith)
        requires
            d >= 1,
            -d <= a <= d,
            FX_SCALE == 100000;
    lemma_fdiv_abs_le(a * FX_SCALE, d, FX_SCALE as int);
}

/// The matrix-vector product as a value, defined when every entry of the
/// result fits `i64`.
pub open spec fn spec_mul_vec(m: Mat4, v: Vec4) -> Vec4 {
    Vec4 {
        x: Fx { bits: spec_dot4(m.r0, v) as i64 },
        y: Fx { bits: spec_dot4(m.r1, v) as i64 },
        z: Fx { bits: spec_dot4(m.r2, v) as i64 },
        w: Fx { bits: spec_dot4(m.r3, v) as i64 },
    }
}

/// A dot product of `FX_MM`-bounded 4-vectors stays well inside `i64`.
pub proof fn lemma_dot4_bound(a: Vec4, b: Vec4)
    requires
        vec4_bounded(a, FX_MM as int),
        vec4_bounded(b, FX_MM as int),
    ensures
        -0x4000000000000000 <= spec_dot4(a, b) <= 0x4000000000000000,
{
    lemma_prod_bound(a.x.bits as int, b.x.bits as int, FX_MM as int);
    lemma_prod_bound(a.y.bits as int, b.y.bits as int, FX_MM as int);
    lemma_prod_bound(a.z.bits as int, b.z.bits as int, FX_MM as int);
    lemma_prod_bound(a.w.bits as int, b.w.bits as int, FX_MM as int);
    let s = a.x.bits * b.x.bits + a.y.bits * b.y.bits + a.z.bits * b.z.bits + a.w.bits * b.w.bits;
    assert(4 * (FX_MM as int) * (FX_MM as int) <= 0x4000000000000000 * (FX_SCALE as int))
        by (nonlinear_arith)
        requires
            FX_MM == 274877906944,
            FX_SCALE == 100000;
    lemma_fdiv_abs_le(s, FX_SCALE as int, 0x4000000000000000);
}

/// Same bound for 3-vectors.
pub proof fn lemma_dot3_bound(a: Vec3, b: Vec3)
    requires
        vec3_bounded(a, FX_MM as int),
        vec3_bounded(b, FX_MM as int),
    ensures
        -0x4000000000000000 <= spec_dot3(a, b) <= 0x4000000000000000,
{
    lemma_prod_bound(a.x.bits as int, b.x.bits as int, FX_MM as int);
    lemma_prod_bound(a.y.bits as int, b.y.bits as int, FX_MM as int);
    lemma_prod_bound(a.z.bits as int, b.z.bits as int, FX_MM as int);
    let s = a.x.bits * b.x.bits + a.y.bits * b.y.bits + a.z.bits * b.z.bits;
    assert(3 * (FX_MM as int) * (FX_MM as int) <= 0x4000000000000000 * (FX_SCALE as int))
        by (nonlinear_arith)
        requires
            FX_MM == 274877906944,
            FX_SCALE == 100000;
    lemma_fdiv_abs_le(s, FX_SCALE as int, 0x4000000000000000);
}

/// A homogeneous component divided by `w` and clamped into
/// `[-FX_MM, FX_MM]`; a zero `w` leaves the component undivided (then
/// clamped), so the operation is total.
pub open spec fn spec_h_div(a: int, w: int) -> int {
    let q = if w == 0 {
        a
    } else {
        fdiv(a * FX_SCALE, w)
    };
    spec_clamp(q, -FX_PT as int, FX_PT as int)
}

/// Total homogeneous division, exactly `spec_h_div`.
pub fn h_div_clamped(a: Fx, w: Fx) -> (r: Fx)
    ensures
        r.bits == spec_h_div(a.bits as int, w.bits as int),
        -FX_PT <= r.bits <= FX_PT,
{
    if w.bits == 0 {
        a.clamp_bits(-FX_PT, FX_PT)
    } else {
        proof {
            assert((a.bits as int) * (FX_SCALE as int) <= (i64::MAX as int) * (FX_SCALE as int)
                && (a.bits as int) * (FX_SCALE as int) >= (i64::MIN as int) * (FX_SCALE as int))
                by (nonlinear_arith)
                requires
                    i64::MIN <= a.bits <= i64::MAX,
                    FX_SCALE == 100000;
        }
        let q: i128 = i128_fdiv((a.bits as i128) * (FX_SCALE as i128), w.bits as i128);
        if q < (-FX_PT) as i128 {
            Fx { bits: -FX_PT }
        } else if q > FX_PT as i128 {
            Fx { bits: FX_PT }
        } else {
            Fx { bits: q as i64 }
        }
    }
}

/// Componentwise difference as a value.
pub open spec fn spec_sub3(a: Vec3, b: Vec3) -> Vec3 {
    Vec3 {
        x: Fx { bits: (a.x.bits - b.x.bits) as i64 },
        y: Fx { bits: (a.y.bits - b.y.bits) as i64 },
        z: Fx { bits: (a.z.bits - b.z.bits) as i64 },
    }
}

/// The cross product as a value.
pub open spec fn spec_cross3(a: Vec3, b: Vec3) -> Vec3 {
    Vec3 {
        x: Fx { bits: fdiv(a.y.bits * b.z.bits - a.z.bits * b.y.bits, FX_SCALE as int) as i64 },
        y: Fx { bits: fdiv(a.z.bits * b.x.bits - a.x.bits * b.z.bits, FX_SCALE as int) as i64 },
        z: Fx { bits: fdiv(a.x.bits * b.y.bits - a.y.bits * b.x.bits, FX_SCALE as int) as i64 },
    }
}

/// The normalized vector as a value.
pub open spec fn spec_normalize3(v: Vec3) -> Vec3 {
    Vec3 {
        x: Fx { bits: fdiv(v.x.bits * FX_SCALE, spec_norm_bits(v)) as i64 },
        y: Fx { bits: fdiv(v.y.bits * FX_SCALE, spec_norm_bits(v)) as i64 },
        z: Fx { bits: fdiv(v.z.bits * FX_SCALE, spec_norm_bits(v)) as i64 },
    }
}

/// Cross products of `FX_MM`-bounded vectors fit `i64`.
proof fn lemma_cross3_fits(a: Vec3, b: Vec3)
    requires
        vec3_bounded(a, FX_MM as int),
        vec3_bounded(b, FX_MM as int),
    ensures
        vec3_bounded(spec_cross3(a, b), 0x4000000000000000),
        spec_cross3(a, b).x.bits == fdiv(a.y.bits * b.z.bits - a.z.bits * b.y.bits, FX_SCALE as int),
        spec_cross3(a, b).y.bits == fdiv(a.z.bits * b.x.bits - a.x.bits * b.z.bits, FX_SCALE as int),
        spec_cross3(a, b).z.bits == fdiv(a.x.bits * b.y.bits - a.y.bits * b.x.bits, FX_SCALE as int),
{
    lemma_prod_bound(a.y.bits as int, b.z.bits as int, FX_MM as int);
    lemma_prod_bound(a.z.bits as int, b.y.bits as int, FX_MM as int);
    lemma_prod_bound(a.z.bits as int, b.x.bits as int, FX_MM as int);
    lemma_prod_bound(a.x.bits as int, b.z.bits as int, FX_MM as int);
    lemma_prod_bound(a.x.bits as int, b.y.bits as int, FX_MM as int);
    lemma_prod_bound(a.y.bits as int, b.x.bits as int, FX_MM as int);
    assert(2 * (FX_MM as int) * (FX_MM as int) <= 0x4000000000000000 * (FX_SCALE as int))
        by (nonlinear_arith)
        requires
            FX_MM == 274877906944,
            FX_SCALE == 100000;
    lemma_fdiv_abs_le(a.y.bits * b.z.bits - a.z.bits * b.y.bits, FX_SCALE as int,
        0x4000000000000000);
    lemma_fdiv_abs_le(a.z.bits * b.x.bits - a.x.bits * b.z.bits, FX_SCALE as int,
        0x4000000000000000);
    lemma_fdiv_abs_le(a.x.bits * b.y.bits - a.y.bits * b.x.bits, FX_SCALE as int,
        0x4000000000000000);
}

/// A sharper bound on the cross product when the second factor is of
/// unit size.
pub proof fn lemma_cross3_bound_unit(a: Vec3, b: Vec3, m: int)
    requires
        1 <= m,
        vec3_bounded(a, m),
        vec3_bounded(b, FX_SCALE as int),
    ensures
        vec3_bounded(spec_cross3(a, b), 2 * m),
{
    lemma_prod_bound_pair(a.y.bits as int, b.z.bits as int, m);
    lemma_prod_bound_pair(a.z.bits as int, b.y.bits as int, m);
    lemma_prod_bound_pair(a.z.bits as int, b.x.bits as int, m);
    lemma_prod_bound_pair(a.x.bits as int, b.z.bits as int, m);
    lemma_prod_bound_pair(a.x.bits as int, b.y.bits as int, m);
    lemma_prod_bound_pair(a.y.bits as int, b.x.bits as int, m);
    assert((2 * m) * (FX_SCALE as int) == 2 * (m * (FX_SCALE as int))) by (nonlinear_arith);
    lemma_fdiv_abs_le(a.y.bits * b.z.bits - a.z.bits * b.y.bits, FX_SCALE as int, 2 * m);
    lemma_fdiv_abs_le(a.z.bits * b.x.bits - a.x.bits * b.z.bits, FX_SCALE as int, 2 * m);
    lemma_fdiv_abs_le(a.x.bits * b.y.bits - a.y.bits * b.x.bits, FX_SCALE as int, 2 * m);
}

/// `|a * b| <= m * FX_SCALE` for `|a| <= m`, `|b| <= FX_SCALE`.
proof fn lemma_prod_bound_pair(a: int, b: int, m: int)
    requires
        0 <= m,
        -m <= a <= m,
        -FX_SCALE <= b <= FX_SCALE,
    ensures
        -(m * (FX_SCALE as int)) <= a * b <= m * (FX_SCALE as int),
{
    assert(-(m * (FX_SCALE as int)) <= a * b <= m * (FX_SCALE as int)) by (nonlinear_arith)
        requires
            0 <= m,
            -m <= a <= m,
            -FX_SCALE <= b <= FX_SCALE;
}

/// A point lifted to homogeneous coordinates with `w = 1`.
pub open spec fn spec_v2m(v: Vec3) -> Vec4 {
    Vec4 { x: v.x, y: v.y, z: v.z, w: Fx { bits: FX_SCALE as i64 } }
}

/// Every component of a homogeneous point divided by its `w`, clamped;
/// see `spec_h_div`.
pub open spec fn spec_h_div4(p: Vec4) -> Vec4 {
    Vec4 {
        x: Fx { bits: spec_h_div(p.x.bits as int, p.w.bits as int) as i64 },
        y: Fx { bits: spec_h_div(p.y.bits as int, p.w.bits as int) as i64 },
        z: Fx { bits: spec_h_div(p.z.bits as int, p.w.bits as int) as i64 },
        w: Fx { bits: spec_h_div(p.w.bits as int, p.w.bits as int) as i64 },
    }
}

/// Homogeneous division of a whole point, exactly `spec_h_div4`.
pub fn h_div4(p: Vec4) -> (r: Vec4)
    ensures
        r == spec_h_div4(p),
        vec4_bounded(r, FX_PT as int),
{
    Vec4 {
        x: h_div_clamped(p.x, p.w),
        y: h_div_clamped(p.y, p.w),
        z: h_div_clamped(p.z, p.w),
        w: h_div_clamped(p.w, p.w),
    }
}

pub open spec fn spec_col0(m: Mat4) -> Vec4 {
    Vec4 { x: m.r0.x, y: m.r1.x, z: m.r2.x, w: m.r3.x }
}

pub open spec fn spec_col1(m: Mat4) -> Vec4 {
    Vec4 { x: m.r0.y, y: m.r1.y, z: m.r2.y, w: m.r3.y }
}

pub open spec fn spec_col2(m: Mat4) -> Vec4 {
    Vec4 { x: m.r0.z, y: m.r1.z, z: m.r2.z, w: m.r3.z }
}

pub open spec fn spec_col3(m: Mat4) -> Vec4 {
    Vec4 { x: m.r0.w, y: m.r1.w, z: m.r2.w, w: m.r3.w }
}

impl Vec4 {
    pub fn new(x: Fx, y: Fx, z: Fx, w: Fx) -> (r: Vec4)
        ensures
            r == (Vec4 { x, y, z, w }),
    {
        Vec4 { x, y, z, w }
    }

    pub fn dot(self, o: Vec4) -> (r: Fx)
        requires
            vec4_bounded(self, FX_MM as int),
            vec4_bounded(o, FX_MM as int),
        ensures
            r.bits == spec_dot4(self, o),
    {
        proof {
            lemma_prod_bound(self.x.bits as int, o.x.bits as int, FX_MM as int);
            lemma_prod_bound(self.y.bits as int, o.y.bits as int, FX_MM as int);
            lemma_prod_bound(self.z.bits as int, o.z.bits as int, FX_MM as int);
            lemma_prod_bound(self.w.bits as int, o.w.bits as int, FX_MM as int);
            lemma_fdiv_abs_le(
                self.x.bits * o.x.bits + self.y.bits * o.y.bits + self.z.bits * o.z.bits
                    + self.w.bits * o.w.bits,
                FX_SCALE as int,
                i64::MAX as int,
            );
        }
        let s: i128 = (self.x.bits as i128) * (o.x.bits as i128) + (self.y.bits as i128) * (
        o.y.bits as i128) + (self.z.bits as i128) * (o.z.bits as i128) + (self.w.bits as i128) * (
        o.w.bits as i128);
        let q: i128 = i128_fdiv(s, FX_SCALE as i128);
        Fx { bits: q as i64 }
    }
}

/// The identity transform as a value.
pub open spec fn spec_mat4_identity() -> Mat4 {
    Mat4 {
        r0: Vec4 { x: Fx { bits: FX_SCALE as i64 }, y: Fx { bits: 0 }, z: Fx { bits: 0 }, w: Fx { bits: 0 } },
        r1: Vec4 { x: Fx { bits: 0 }, y: Fx { bits: FX_SCALE as i64 }, z: Fx { bits: 0 }, w: Fx { bits: 0 } },
        r2: Vec4 { x: Fx { bits: 0 }, y: Fx { bits: 0 }, z: Fx { bits: FX_SCALE as i64 }, w: Fx { bits: 0 } },
        r3: Vec4 { x: Fx { bits: 0 }, y: Fx { bits: 0 }, z: Fx { bits: 0 }, w: Fx { bits: FX_SCALE as i64 } },
    }
}

impl Mat4 {
    /// The identity transform.
    pub fn identity() -> (r: Mat4)
        ensures
            r == spec_mat4_identity(),
            r.r0 == (Vec4 { x: Fx { bits: FX_SCALE as i64 }, y: Fx { bits: 0 }, z: Fx { bits: 0 }, w: Fx { bits: 0 } }),
            r.r1 == (Vec4 { x: Fx { bits: 0 }, y: Fx { bits: FX_SCALE as i64 }, z: Fx { bits: 0 }, w: Fx { bits: 0 } }),
            r.r2 == (Vec4 { x: Fx { bits: 0 }, y: Fx { bits: 0 }, z: Fx { bits: FX_SCALE as i64 }, w: Fx { bits: 0 } }),
            r.r3 == (Vec4 { x: Fx { bits: 0 }, y: Fx { bits: 0 }, z: Fx { bits: 0 }, w: Fx { bits: FX_SCALE as i64 } }),
    {
        let o: Fx = Fx { bits: FX_SCALE };
        let z: Fx = Fx { bits: 0 };
        Mat4 {
            r0: Vec4 { x: o, y: z, z: z, w: z },
            r1: Vec4 { x: z, y: o, z: z, w: z },
            r2: Vec4 { x: z, y: z, z: o, w: z },
            r3: Vec4 { x: z, y: z, z: z, w: o },
        }
    }

    pub fn transpose(self) -> (r: Mat4)
        ensures
            r.r0 == spec_col0(self),
            r.r1 == spec_col1(self),
            r.r2 == spec_col2(self),
            r.r3 == spec_col3(self),
    {
        Mat4 {
            r0: Vec4 { x: self.r0.x, y: self.r1.x, z: self.r2.x, w: self.r3.x },
            r1: Vec4 { x: self.r0.y, y: self.r1.y, z: self.r2.y, w: self.r3.y },
            r2: Vec4 { x: self.r0.z, y: self.r1.z, z: self.r2.z, w: self.r3.z },
            r3: Vec4 { x: self.r0.w, y: self.r1.w, z: self.r2.w, w: self.r3.w },
        }
    }

    /// Matrix product; entry `(i, j)` is the dot product of row `i` of
    /// `self` with column `j` of `o`.
    pub fn mul_mat(self, o: Mat4) -> (r: Mat4)
        requires
            mat4_bounded(self, FX_MM as int),
            mat4_bounded(o, FX_MM as int),
        ensures
            r.r0.x.bits == spec_dot4(self.r0, spec_col0(o)),
            r.r0.y.bits == spec_dot4(self.r0, spec_col1(o)),
            r.r0.z.bits == spec_dot4(self.r0, spec_col2(o)),
            r.r0.w.bits == spec_dot4(self.r0, spec_col3(o)),
            r.r1.x.bits == spec_dot4(self.r1, spec_col0(o)),
            r.r1.y.bits == spec_dot4(self.r1, spec_col1(o)),
            r.r1.z.bits == spec_dot4(self.r1, spec_col2(o)),
            r.r1.w.bits == spec_dot4(self.r1, spec_col3(o)),
            r.r2.x.bits == spec_dot4(self.r2, spec_col0(o)),
            r.r2.y.bits == spec_dot4(self.r2, spec_col1(o)),
            r.r2.z.bits == spec_dot4(self.r2, spec_col2(o)),
            r.r2.w.bits == spec_dot4(self.r2, spec_col3(o)),
            r.r3.x.bits == spec_dot4(self.r3, spec_col0(o)),
            r.r3.y.bits == spec_dot4(self.r3, spec_col1(o)),
            r.r3.z.bits == spec_dot4(self.r3, spec_col2(o)),
            r.r3.w.bits == spec_dot4(self.r3, spec_col3(o)),
    {
        let t = o.transpose();
        Mat4 {
            r0: Vec4 {
                x: self.r0.dot(t.r0),
                y: self.r0.dot(t.r1),
                z: self.r0.dot(t.r2),
                w: self.r0.dot(t.r3),
            },
            r1: Vec4 {
                x: self.r1.dot(t.r0),
                y: self.r1.dot(t.r1),
                z: self.r1.dot(t.r2),
                w: self.r1.dot(t.r3),
            },
            r2: Vec4 {
                x: self.r2.dot(t.r0),
                y: self.r2.dot(t.r1),
                z: self.r2.dot(t.r2),
                w: self.r2.dot(t.r3),
            },
            r3: Vec4 {
                x: self.r3.dot(t.r0),
                y: self.r3.dot(t.r1),
                z: self.r3.dot(t.r2),
                w: self.r3.dot(t.r3),
            },
        }
    }

    /// Matrix-vector product.
    pub fn mul_vec(self, v: Vec4) -> (r: Vec4)
        requires
            mat4_bounded(self, FX_MM as int),
            vec4_bounded(v, FX_MM as int),
        ensures
            r.x.bits == spec_dot4(self.r0, v),
            r.y.bits == spec_dot4(self.r1, v),
            r.z.bits == spec_dot4(self.r2, v),
            r.w.bits == spec_dot4(self.r3, v),
    {
        Vec4 { x: self.r0.dot(v), y: self.r1.dot(v), z: self.r2.dot(v), w: self.r3.dot(v) }
    }
}


/// `|a * b| <= m1 * m2` for `|a| <= m1`, `|b| <= m2`.
pub proof fn lemma_prod_bound2(a: int, b: int, m1: int, m2: int)
    requires
        0 <= m1,
        0 <= m2,
        -m1 <= a <= m1,
        -m2 <= b <= m2,
    ensures
        -(m1 * m2) <= a * b <= m1 * m2,
{
    assert(-(m1 * m2) <= a * b <= m1 * m2) by (nonlinear_arith)
        requires
            0 <= m1,
            0 <= m2,
            -m1 <= a <= m1,
            -m2 <= b <= m2;
}

/// A vector clamped componentwise into `[-b, b]`.
pub open spec fn spec_clamp3(v: Vec3, b: int) -> Vec3 {
    Vec3 {
        x: Fx { bits: spec_clamp(v.x.bits as int, -b, b) as i64 },
        y: Fx { bits: spec_clamp(v.y.bits as int, -b, b) as i64 },
        z: Fx { bits: spec_clamp(v.z.bits as int, -b, b) as i64 },
    }
}

pub fn clamp3(v: Vec3, b: i64) -> (r: Vec3)
    requires
        b >= 0,
    ensures
        r == spec_clamp3(v, b as int),
        vec3_bounded(r, b as int),
{
    Vec3 { x: v.x.clamp_bits(-b, b), y: v.y.clamp_bits(-b, b), z: v.z.clamp_bits(-b, b) }
}

/// A homogeneous point clamped componentwise into `[-b, b]`.
pub open spec fn spec_clamp4(v: Vec4, b: int) -> Vec4 {
    Vec4 {
        x: Fx { bits: spec_clamp(v.x.bits as int, -b, b) as i64 },
        y: Fx { bits: spec_clamp(v.y.bits as int, -b, b) as i64 },
        z: Fx { bits: spec_clamp(v.z.bits as int, -b, b) as i64 },
        w: Fx { bits: spec_clamp(v.w.bits as int, -b, b) as i64 },
    }
}

pub fn clamp4(v: Vec4, b: i64) -> (r: Vec4)
    requires
        b >= 0,
    ensures
        r == spec_clamp4(v, b as int),
        vec4_bounded(r, b as int),
{
    Vec4 {
        x: v.x.clamp_bits(-b, b),
        y: v.y.clamp_bits(-b, b),
        z: v.z.clamp_bits(-b, b),
        w: v.w.clamp_bits(-b, b),
    }
}

/// A matrix clamped entrywise into `[-b, b]`.
pub open spec fn spec_mat4_clamp(m: Mat4, b: int) -> Mat4 {
    Mat4 {
        r0: spec_clamp4(m.r0, b),
        r1: spec_clamp4(m.r1, b),
        r2: spec_clamp4(m.r2, b),
        r3: spec_clamp4(m.r3, b),
    }
}

pub fn mat4_clamp(m: Mat4, b: i64) -> (r: Mat4)
    requires
        b >= 0,
    ensures
        r == spec_mat4_clamp(m, b as int),
        mat4_bounded(r, b as int),
{
    Mat4 {
        r0: clamp4(m.r0, b),
        r1: clamp4(m.r1, b),
        r2: clamp4(m.r2, b),
        r3: clamp4(m.r3, b),
    }
}

/// Every component of a homogeneous point divided by its `w`, rounded
/// down to the integer grid, and clamped; the form the scan converter
/// takes.
pub open spec fn spec_h_div4_floor(p: Vec4) -> Vec4 {
    let d = spec_h_div4(p);
    Vec4 {
        x: Fx { bits: spec_clamp(fdiv(d.x.bits as int, FX_SCALE as int) * FX_SCALE, -FX_PT as int, FX_PT as int) as i64 },
        y: Fx { bits: spec_clamp(fdiv(d.y.bits as int, FX_SCALE as int) * FX_SCALE, -FX_PT as int, FX_PT as int) as i64 },
        z: Fx { bits: spec_clamp(fdiv(d.z.bits as int, FX_SCALE as int) * FX_SCALE, -FX_PT as int, FX_PT as int) as i64 },
        w: Fx { bits: spec_clamp(fdiv(d.w.bits as int, FX_SCALE as int) * FX_SCALE, -FX_PT as int, FX_PT as int) as i64 },
    }
}

/// Total homogeneous division with flooring, exactly `spec_h_div4_floor`.
pub fn h_div4_floor(p: Vec4) -> (r: Vec4)
    ensures
        r == spec_h_div4_floor(p),
        vec4_bounded(r, FX_PT as int),
{
    let d = h_div4(p);
    proof {
        lemma_fdiv_bounds(d.x.bits as int, FX_SCALE as int);
        lemma_fdiv_bounds(d.y.bits as int, FX_SCALE as int);
        lemma_fdiv_bounds(d.z.bits as int, FX_SCALE as int);
        lemma_fdiv_bounds(d.w.bits as int, FX_SCALE as int);
    }
    let fx: i64 = d.x.floor_int();
    let fy: i64 = d.y.floor_int();
    let fz: i64 = d.z.floor_int();
    let fw: i64 = d.w.floor_int();
    Vec4 {
        x: Fx { bits: fx * FX_SCALE }.clamp_bits(-FX_PT, FX_PT),
        y: Fx { bits: fy * FX_SCALE }.clamp_bits(-FX_PT, FX_PT),
        z: Fx { bits: fz * FX_SCALE }.clamp_bits(-FX_PT, FX_PT),
        w: Fx { bits: fw * FX_SCALE }.clamp_bits(-FX_PT, FX_PT),
    }
}

/// Raw-bits determinant of the 3x3 matrix with rows `r0, r1, r2`.
pub open spec fn spec_det3(r0: Vec3, r1: Vec3, r2: Vec3) -> int {
    r0.x.bits * (r1.y.bits * r2.z.bits - r1.z.bits * r2.y.bits) - r0.y.bits * (r1.x.bits
        * r2.z.bits - r1.z.bits * r2.x.bits) + r0.z.bits * (r1.x.bits * r2.y.bits - r1.y.bits
        * r2.x.bits)
}

/// Bound accepted by the 3x3 solver for every entry of its rows and
/// right-hand side.
pub const SV_LIM: i64 = 8589934592;

/// One row with its `k`-th entry replaced.
pub open spec fn spec_row_rep(r: Vec3, k: int, b: Fx) -> Vec3 {
    if k == 0 {
        Vec3 { x: b, y: r.y, z: r.z }
    } else if k == 1 {
        Vec3 { x: r.x, y: b, z: r.z }
    } else {
        Vec3 { x: r.x, y: r.y, z: b }
    }
}

/// The determinant with column `k` replaced by `b`.
pub open spec fn spec_det3_rep(r0: Vec3, r1: Vec3, r2: Vec3, b: Vec3, k: int) -> int {
    spec_det3(spec_row_rep(r0, k, b.x), spec_row_rep(r1, k, b.y), spec_row_rep(r2, k, b.z))
}

/// Cramer solution of the 3x3 system with rows `r0, r1, r2` and
/// right-hand side `b`, each component scaled to fixed point, rounded
/// down and clamped; defined for a nonzero determinant.
pub open spec fn spec_solve3(r0: Vec3, r1: Vec3, r2: Vec3, b: Vec3) -> Vec3 {
    let d = spec_det3(r0, r1, r2);
    Vec3 {
        x: Fx { bits: spec_clamp(fdiv(spec_det3_rep(r0, r1, r2, b, 0) * FX_SCALE, d), -FX_PT as int, FX_PT as int) as i64 },
        y: Fx { bits: spec_clamp(fdiv(spec_det3_rep(r0, r1, r2, b, 1) * FX_SCALE, d), -FX_PT as int, FX_PT as int) as i64 },
        z: Fx { bits: spec_clamp(fdiv(spec_det3_rep(r0, r1, r2, b, 2) * FX_SCALE, d), -FX_PT as int, FX_PT as int) as i64 },
    }
}

/// The determinant of rows within `SV_LIM` stays well inside `i128`.
proof fn lemma_det3_bound(r0: Vec3, r1: Vec3, r2: Vec3)
    requires
        vec3_bounded(r0, SV_LIM as int),
        vec3_bounded(r1, SV_LIM as int),
        vec3_bounded(r2, SV_LIM as int),
    ensures
        -0x40000000000000000000000000 <= spec_det3(r0, r1, r2) <= 0x40000000000000000000000000,
{
    let m = SV_LIM as int;
    lemma_prod_bound(r1.y.bits as int, r2.z.bits as int, m);
    lemma_prod_bound(r1.z.bits as int, r2.y.bits as int, m);
    lemma_prod_bound(r1.x.bits as int, r2.z.bits as int, m);
    lemma_prod_bound(r1.z.bits as int, r2.x.bits as int, m);
    lemma_prod_bound(r1.x.bits as int, r2.y.bits as int, m);
    lemma_prod_bound(r1.y.bits as int, r2.x.bits as int, m);
    lemma_prod_bound2(r0.x.bits as int, r1.y.bits * r2.z.bits - r1.z.bits * r2.y.bits, m, 2 * m * m);
    lemma_prod_bound2(r0.y.bits as int, r1.x.bits * r2.z.bits - r1.z.bits * r2.x.bits, m, 2 * m * m);
    lemma_prod_bound2(r0.z.bits as int, r1.x.bits * r2.y.bits - r1.y.bits * r2.x.bits, m, 2 * m * m);
    assert(6 * (m * (m * m)) <= 0x40000000000000000000000000) by (nonlinear_arith)
        requires
            m == 8589934592;
    assert(m * (2 * m * m) == 2 * (m * (m * m))) by (nonlinear_arith);
}

/// Raw-bits determinant of a 3x3 system.
fn det3_i128(r0: Vec3, r1: Vec3, r2: Vec3) -> (d: i128)
    requires
        vec3_bounded(r0, SV_LIM as int),
        vec3_bounded(r1, SV_LIM as int),
        vec3_bounded(r2, SV_LIM as int),
    ensures
        d == spec_det3(r0, r1, r2),
        -0x40000000000000000000000000 <= d <= 0x40000000000000000000000000,
{
    proof {
        lemma_det3_bound(r0, r1, r2);
        let m = SV_LIM as int;
        lemma_prod_bound(r1.y.bits as int, r2.z.bits as int, m);
        lemma_prod_bound(r1.z.bits as int, r2.y.bits as int, m);
        lemma_prod_bound(r1.x.bits as int, r2.z.bits as int, m);
        lemma_prod_bound(r1.z.bits as int, r2.x.bits as int, m);
        lemma_prod_bound(r1.x.bits as int, r2.y.bits as int, m);
        lemma_prod_bound(r1.y.bits as int, r2.x.bits as int, m);
        lemma_prod_bound2(r0.x.bits as int, r1.y.bits * r2.z.bits - r1.z.bits * r2.y.bits, m, 2 * m * m);
        lemma_prod_bound2(r0.y.bits as int, r1.x.bits * r2.z.bits - r1.z.bits * r2.x.bits, m, 2 * m * m);
        lemma_prod_bound2(r0.z.bits as int, r1.x.bits * r2.y.bits - r1.y.bits * r2.x.bits, m, 2 * m * m);
    }
    let m0: i128 = (r1.y.bits as i128) * (r2.z.bits as i128) - (r1.z.bits as i128) * (
    r2.y.bits as i128);
    let m1: i128 = (r1.x.bits as i128) * (r2.z.bits as i128) - (r1.z.bits as i128) * (
    r2.x.bits as i128);
    let m2: i128 = (r1.x.bits as i128) * (r2.y.bits as i128) - (r1.y.bits as i128) * (
    r2.x.bits as i128);
    (r0.x.bits as i128) * m0 - (r0.y.bits as i128) * m1 + (r0.z.bits as i128) * m2
}

/// One entry replaced in an executable row.
fn row_rep(r: Vec3, k: usize, b: Fx) -> (o: Vec3)
    requires
        k < 3,
    ensures
        o == spec_row_rep(r, k as int, b),
{
    if k == 0 {
        Vec3 { x: b, y: r.y, z: r.z }
    } else if k == 1 {
        Vec3 { x: r.x, y: b, z: r.z }
    } else {
        Vec3 { x: r.x, y: r.y, z: b }
    }
}

/// Solves the 3x3 system with rows `r0, r1, r2` and right-hand side `b`
/// by Cramer's rule; `None` exactly when the system is singular.
pub fn solve3(r0: Vec3, r1: Vec3, r2: Vec3, b: Vec3) -> (r: Option<Vec3>)
    requires
        vec3_bounded(r0, SV_LIM as int),
        vec3_bounded(r1, SV_LIM as int),
        vec3_bounded(r2, SV_LIM as int),
        vec3_bounded(b, SV_LIM as int),
    ensures
        r is Some <==> spec_det3(r0, r1, r2) != 0,
        r is Some ==> r->0 == spec_solve3(r0, r1, r2, b),
        r is Some ==> vec3_bounded(r->0, FX_PT as int),
{
    let d: i128 = det3_i128(r0, r1, r2);
    if d == 0 {
        return None;
    }
    let d0: i128 = det3_i128(row_rep(r0, 0, b.x), row_rep(r1, 0, b.y), row_rep(r2, 0, b.z));
    let d1: i128 = det3_i128(row_rep(r0, 1, b.x), row_rep(r1, 1, b.y), row_rep(r2, 1, b.z));
    let d2: i128 = det3_i128(row_rep(r0, 2, b.x), row_rep(r1, 2, b.y), row_rep(r2, 2, b.z));
    proof {
        lemma_prod_bound2(d0 as int, FX_SCALE as int, 0x40000000000000000000000000, FX_SCALE as int);
        lemma_prod_bound2(d1 as int, FX_SCALE as int, 0x40000000000000000000000000, FX_SCALE as int);
        lemma_prod_bound2(d2 as int, FX_SCALE as int, 0x40000000000000000000000000, FX_SCALE as int);
        assert(0x40000000000000000000000000 * (FX_SCALE as int)
            < 0x40000000000000000000000000000000) by (nonlinear_arith)
            requires
                FX_SCALE == 100000;
    }
    let qx: i128 = i128_fdiv(d0 * (FX_SCALE as i128), d);
    let qy: i128 = i128_fdiv(d1 * (FX_SCALE as i128), d);
    let qz: i128 = i128_fdiv(d2 * (FX_SCALE as i128), d);
    let cx: i128 = if qx < (-FX_PT) as i128 { (-FX_PT) as i128 } else if qx > FX_PT as i128 { FX_PT as i128 } else { qx };
    let cy: i128 = if qy < (-FX_PT) as i128 { (-FX_PT) as i128 } else if qy > FX_PT as i128 { FX_PT as i128 } else { qy };
    let cz: i128 = if qz < (-FX_PT) as i128 { (-FX_PT) as i128 } else if qz > FX_PT as i128 { FX_PT as i128 } else { qz };
    Some(Vec3 { x: Fx { bits: cx as i64 }, y: Fx { bits: cy as i64 }, z: Fx { bits: cz as i64 } })
}

/// A 4-vector with the `j`-th component removed.
pub open spec fn spec_drop_col(v: Vec4, j: int) -> Vec3 {
    if j == 0 {
        Vec3 { x: v.y, y: v.z, z: v.w }
    } else if j == 1 {
        Vec3 { x: v.x, y: v.z, z: v.w }
    } else if j == 2 {
        Vec3 { x: v.x, y: v.y, z: v.w }
    } else {
        Vec3 { x: v.x, y: v.y, z: v.z }
    }
}

/// The 3x3 minor determinant of `m` with row `i` and column `j`
/// removed, over raw bits.
pub open spec fn spec_minor_det(m: Mat4, i: int, j: int) -> int {
    if i == 0 {
        spec_det3(spec_drop_col(m.r1, j), spec_drop_col(m.r2, j), spec_drop_col(m.r3, j))
    } else if i == 1 {
        spec_det3(spec_drop_col(m.r0, j), spec_drop_col(m.r2, j), spec_drop_col(m.r3, j))
    } else if i == 2 {
        spec_det3(spec_drop_col(m.r0, j), spec_drop_col(m.r1, j), spec_drop_col(m.r3, j))
    } else {
        spec_det3(spec_drop_col(m.r0, j), spec_drop_col(m.r1, j), spec_drop_col(m.r2, j))
    }
}

/// The raw-bits determinant of a 4x4 matrix, by expansion along the
/// first row.
pub open spec fn spec_det4(m: Mat4) -> int {
    m.r0.x.bits * spec_minor_det(m, 0, 0) - m.r0.y.bits * spec_minor_det(m, 0, 1) + m.r0.z.bits
        * spec_minor_det(m, 0, 2) - m.r0.w.bits * spec_minor_det(m, 0, 3)
}

pub open spec fn spec_cof_sign(i: int, j: int) -> int {
    if (i + j) % 2 == 0 {
        1
    } else {
        -1
    }
}

/// Entry `(i, j)` of the inverse-transpose: the signed minor over the
/// determinant, scaled to fixed point, rounded down and clamped.
pub open spec fn spec_mit_entry(m: Mat4, i: int, j: int) -> int {
    spec_clamp(
        fdiv(
            spec_cof_sign(i, j) * spec_minor_det(m, i, j) * FX_SCALE * FX_SCALE,
            spec_det4(m),
        ),
        -FX_MM as int,
        FX_MM as int,
    )
}

/// The inverse-transpose as a value; defined for a nonzero determinant.
pub open spec fn spec_mit(m: Mat4) -> Mat4 {
    Mat4 {
        r0: Vec4 {
            x: Fx { bits: spec_mit_entry(m, 0, 0) as i64 },
            y: Fx { bits: spec_mit_entry(m, 0, 1) as i64 },
            z: Fx { bits: spec_mit_entry(m, 0, 2) as i64 },
            w: Fx { bits: spec_mit_entry(m, 0, 3) as i64 },
        },
        r1: Vec4 {
            x: Fx { bits: spec_mit_entry(m, 1, 0) as i64 },
            y: Fx { bits: spec_mit_entry(m, 1, 1) as i64 },
            z: Fx { bits: spec_mit_entry(m, 1, 2) as i64 },
            w: Fx { bits: spec_mit_entry(m, 1, 3) as i64 },
        },
        r2: Vec4 {
            x: Fx { bits: spec_mit_entry(m, 2, 0) as i64 },
            y: Fx { bits: spec_mit_entry(m, 2, 1) as i64 },
            z: Fx { bits: spec_mit_entry(m, 2, 2) as i64 },
            w: Fx { bits: spec_mit_entry(m, 2, 3) as i64 },
        },
        r3: Vec4 {
            x: Fx { bits: spec_mit_entry(m, 3, 0) as i64 },
            y: Fx { bits: spec_mit_entry(m, 3, 1) as i64 },
            z: Fx { bits: spec_mit_entry(m, 3, 2) as i64 },
            w: Fx { bits: spec_mit_entry(m, 3, 3) as i64 },
        },
    }
}

/// Bound accepted by the 4x4 inversion for every entry.
pub const SV4_LIM: i64 = 1073741824;

/// `spec_det3` over rows within `b` is within `6 * b^3`.
proof fn lemma_det3_bound_m(r0: Vec3, r1: Vec3, r2: Vec3, b: int)
    requires
        1 <= b,
        vec3_bounded(r0, b),
        vec3_bounded(r1, b),
        vec3_bounded(r2, b),
    ensures
        -(6 * (b * (b * b))) <= spec_det3(r0, r1, r2) <= 6 * (b * (b * b)),
{
    lemma_prod_bound(r1.y.bits as int, r2.z.bits as int, b);
    lemma_prod_bound(r1.z.bits as int, r2.y.bits as int, b);
    lemma_prod_bound(r1.x.bits as int, r2.z.bits as int, b);
    lemma_prod_bound(r1.z.bits as int, r2.x.bits as int, b);
    lemma_prod_bound(r1.x.bits as int, r2.y.bits as int, b);
    lemma_prod_bound(r1.y.bits as int, r2.x.bits as int, b);
    lemma_prod_bound2(r0.x.bits as int, r1.y.bits * r2.z.bits - r1.z.bits * r2.y.bits, b, 2 * (b * b));
    lemma_prod_bound2(r0.y.bits as int, r1.x.bits * r2.z.bits - r1.z.bits * r2.x.bits, b, 2 * (b * b));
    lemma_prod_bound2(r0.z.bits as int, r1.x.bits * r2.y.bits - r1.y.bits * r2.x.bits, b, 2 * (b * b));
    assert(b * (2 * (b * b)) == 2 * (b * (b * b))) by (nonlinear_arith);
}

/// A 4-vector with the `j`-th component removed.
fn drop_col(v: Vec4, j: usize) -> (r: Vec3)
    requires
        j < 4,
    ensures
        r == spec_drop_col(v, j as int),
{
    if j == 0 {
        Vec3 { x: v.y, y: v.z, z: v.w }
    } else if j == 1 {
        Vec3 { x: v.x, y: v.z, z: v.w }
    } else if j == 2 {
        Vec3 { x: v.x, y: v.y, z: v.w }
    } else {
        Vec3 { x: v.x, y: v.y, z: v.z }
    }
}

/// The 3x3 minor determinant of an `SV4_LIM`-bounded matrix.
fn minor_det(m: &Mat4, i: usize, j: usize) -> (d: i128)
    requires
        i < 4,
        j < 4,
        mat4_bounded(*m, SV4_LIM as int),
    ensures
        d == spec_minor_det(*m, i as int, j as int),
        -(6 * ((SV4_LIM as int) * ((SV4_LIM as int) * (SV4_LIM as int)))) <= d <= 6 * ((
        SV4_LIM as int) * ((SV4_LIM as int) * (SV4_LIM as int))),
{
    let (a, b, c) = if i == 0 {
        (drop_col(m.r1, j), drop_col(m.r2, j), drop_col(m.r3, j))
    } else if i == 1 {
        (drop_col(m.r0, j), drop_col(m.r2, j), drop_col(m.r3, j))
    } else if i == 2 {
        (drop_col(m.r0, j), drop_col(m.r1, j), drop_col(m.r3, j))
    } else {
        (drop_col(m.r0, j), drop_col(m.r1, j), drop_col(m.r2, j))
    };
    proof {
        lemma_det3_bound_m(a, b, c, SV4_LIM as int);
    }
    det3_i128(a, b, c)
}

/// The raw-bits determinant of an `SV4_LIM`-bounded matrix.
fn det4_i128(m: &Mat4) -> (d: i128)
    requires
        mat4_bounded(*m, SV4_LIM as int),
    ensures
        d == spec_det4(*m),
        -0x40000000000000000000000000000000 <= d <= 0x40000000000000000000000000000000,
{
    let m00: i128 = minor_det(m, 0, 0);
    let m01: i128 = minor_det(m, 0, 1);
    let m02: i128 = minor_det(m, 0, 2);
    let m03: i128 = minor_det(m, 0, 3);
    proof {
        let b6 = 6 * ((SV4_LIM as int) * ((SV4_LIM as int) * (SV4_LIM as int)));
        lemma_prod_bound2(m.r0.x.bits as int, m00 as int, SV4_LIM as int, b6);
        lemma_prod_bound2(m.r0.y.bits as int, m01 as int, SV4_LIM as int, b6);
        lemma_prod_bound2(m.r0.z.bits as int, m02 as int, SV4_LIM as int, b6);
        lemma_prod_bound2(m.r0.w.bits as int, m03 as int, SV4_LIM as int, b6);
        assert((SV4_LIM as int) * (6 * ((SV4_LIM as int) * ((SV4_LIM as int) * (SV4_LIM as int))))
            < 0x8000000000000000000000000000000) by (nonlinear_arith)
            requires
                SV4_LIM == 1073741824;
        assert(4 * 0x8000000000000000000000000000000 <= 0x40000000000000000000000000000000);
    }
    (m.r0.x.bits as i128) * m00 - (m.r0.y.bits as i128) * m01 + (m.r0.z.bits as i128) * m02 - (
    m.r0.w.bits as i128) * m03
}

/// One entry of the inverse-transpose.
fn mit_entry(m: &Mat4, d: i128, i: usize, j: usize) -> (e: i64)
    requires
        i < 4,
        j < 4,
        mat4_bounded(*m, SV4_LIM as int),
        d == spec_det4(*m),
        d != 0,
        -0x40000000000000000000000000000000 <= d <= 0x40000000000000000000000000000000,
    ensures
        e as int == spec_mit_entry(*m, i as int, j as int),
        -FX_MM <= e <= FX_MM,
{
    let md: i128 = minor_det(m, i, j);
    let sign: i128 = if (i + j) % 2 == 0 {
        1
    } else {
        -1
    };
    proof {
        let b6 = 6 * ((SV4_LIM as int) * ((SV4_LIM as int) * (SV4_LIM as int)));
        assert(-(b6 * (FX_SCALE as int) * (FX_SCALE as int)) <= (sign as int) * (md as int) * (
        FX_SCALE as int) * (FX_SCALE as int) <= b6 * (FX_SCALE as int) * (FX_SCALE as int))
            by (nonlinear_arith)
            requires
                -b6 <= md as int <= b6,
                sign as int == 1 || sign as int == -1,
                b6 == 6 * ((SV4_LIM as int) * ((SV4_LIM as int) * (SV4_LIM as int))),
                SV4_LIM == 1073741824,
                FX_SCALE == 100000;
        assert(6 * ((SV4_LIM as int) * ((SV4_LIM as int) * (SV4_LIM as int))) * (FX_SCALE as int)
            * (FX_SCALE as int) < 0x40000000000000000000000000000000) by (nonlinear_arith)
            requires
                SV4_LIM == 1073741824,
                FX_SCALE == 100000;
    }
    let num: i128 = sign * md * (FX_SCALE as i128) * (FX_SCALE as i128);
    let q: i128 = i128_fdiv(num, d);
    if q < (-FX_MM) as i128 {
        -FX_MM
    } else if q > FX_MM as i128 {
        FX_MM
    } else {
        q as i64
    }
}

/// The inverse-transpose of an `SV4_LIM`-bounded matrix by Cramer's
/// rule, used to carry normals through a transform: each entry is the
/// signed minor over the determinant, rounded down and clamped.
/// `None` exactly when the matrix is singular.
pub fn mat4_inverse_transpose(m: &Mat4) -> (r: Option<Mat4>)
    requires
        mat4_bounded(*m, SV4_LIM as int),
    ensures
        r is Some <==> spec_det4(*m) != 0,
        r is Some ==> r->0 == spec_mit(*m),
        r is Some ==> mat4_bounded(r->0, FX_MM as int),
{
    let d: i128 = det4_i128(m);
    if d == 0 {
        return None;
    }
    Some(
        Mat4 {
            r0: Vec4 {
                x: Fx { bits: mit_entry(m, d, 0, 0) },
                y: Fx { bits: mit_entry(m, d, 0, 1) },
                z: Fx { bits: mit_entry(m, d, 0, 2) },
                w: Fx { bits: mit_entry(m, d, 0, 3) },
            },
            r1: Vec4 {
                x: Fx { bits: mit_entry(m, d, 1, 0) },
                y: Fx { bits: mit_entry(m, d, 1, 1) },
                z: Fx { bits: mit_entry(m, d, 1, 2) },
                w: Fx { bits: mit_entry(m, d, 1, 3) },
            },
            r2: Vec4 {
                x: Fx { bits: mit_entry(m, d, 2, 0) },
                y: Fx { bits: mit_entry(m, d, 2, 1) },
                z: Fx { bits: mit_entry(m, d, 2, 2) },
                w: Fx { bits: mit_entry(m, d, 2, 3) },
            },
            r3: Vec4 {
                x: Fx { bits: mit_entry(m, d, 3, 0) },
                y: Fx { bits: mit_entry(m, d, 3, 1) },
                z: Fx { bits: mit_entry(m, d, 3, 2) },
                w: Fx { bits: mit_entry(m, d, 3, 3) },
            },
        },
    )
}

} // verus!
