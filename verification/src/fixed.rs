//! Fixed-point scalars.
//!
//! Every real-valued quantity of the pipeline (coordinates, normals,
//! intensities, depths) is a rational of the form `bits / SCALE` with a
//! decimal scale, so that the quantization thresholds and the depth range
//! of the pipeline are represented exactly.  All rounding is downward
//! (floor), which the contracts state through `fdiv`.

use vstd::prelude::*;

verus! {

/// Denominator of every fixed-point scalar: a value `v` is stored as
/// `bits == v * FX_SCALE`.
pub const FX_SCALE: i64 = 100000;

/// Floor division: the unique `q` with `d*q <= n < d*(q+1)` (for `d > 0`),
/// mirrored for negative divisors.  Unspecified for `d == 0`.
pub open spec fn fdiv(n: int, d: int) -> int {
    if d > 0 {
        n / d
    } else {
        (-n) / (-d)
    }
}

pub proof fn lemma_fdiv_bounds(n: int, d: int)
    requires
        d > 0,
    ensures
        d * fdiv(n, d) <= n < d * (fdiv(n, d) + 1),
{
    vstd::arithmetic::div_mod::lemma_fundamental_div_mod(n, d);
    vstd::arithmetic::div_mod::lemma_mod_bound(n, d);
    assert(d * (fdiv(n, d) + 1) == d * fdiv(n, d) + d) by (nonlinear_arith);
}

/// Floor division of `i128` values, exactly `fdiv` of the mathematical
/// quotient.
pub fn i128_fdiv(n: i128, d: i128) -> (q: i128)
    requires
        d != 0,
        n > i128::MIN,
        d > i128::MIN,
    ensures
        q == fdiv(n as int, d as int),
{
    let (nn, dd): (i128, i128) = if d < 0 { (-n, -d) } else { (n, d) };
    proof {
        assert(fdiv(n as int, d as int) == fdiv(nn as int, dd as int));
    }
    if nn >= 0 {
        let q0: u128 = (nn as u128) / (dd as u128);
        proof {
            vstd::arithmetic::div_mod::lemma_fundamental_div_mod(nn as int, dd as int);
            vstd::arithmetic::div_mod::lemma_mod_bound(nn as int, dd as int);
            assert(q0 <= nn as u128) by {
                vstd::arithmetic::div_mod::lemma_div_nonincreasing(nn as int, dd as int);
            }
        }
        q0 as i128
    } else {
        let m: u128 = (-nn) as u128;
        let q0: u128 = m / (dd as u128);
        let r0: u128 = m % (dd as u128);
        proof {
            vstd::arithmetic::div_mod::lemma_fundamental_div_mod(m as int, dd as int);
            vstd::arithmetic::div_mod::lemma_mod_bound(m as int, dd as int);
            assert(q0 * (dd as u128) <= m) by (nonlinear_arith)
                requires
                    m as int == (dd as int) * (q0 as int) + (r0 as int),
                    r0 as int >= 0,
                    dd > 0;
            if r0 == 0 {
                assert(nn as int == (dd as int) * (-(q0 as int)) + 0) by (nonlinear_arith)
                    requires
                        m as int == (dd as int) * (q0 as int),
                        nn as int == -(m as int);
                vstd::arithmetic::div_mod::lemma_fundamental_div_mod_converse(
                    nn as int, dd as int, -(q0 as int), 0);
            } else {
                assert(nn as int == (dd as int) * (-(q0 as int) - 1) + ((dd as int) - (
                r0 as int))) by (nonlinear_arith)
                    requires
                        m as int == (dd as int) * (q0 as int) + (r0 as int),
                        nn as int == -(m as int);
                vstd::arithmetic::div_mod::lemma_fundamental_div_mod_converse(
                    nn as int, dd as int, -(q0 as int) - 1, (dd as int) - (r0 as int));
            }
        }
        if r0 == 0 {
            -(q0 as i128)
        } else {
            -(q0 as i128) - 1
        }
    }
}

/// A fixed-point scalar, worth `bits / FX_SCALE`.
#[derive(Clone, Copy, PartialEq, Eq, Structural, Debug)]
pub struct Fx {
    pub bits: i64,
}

/// Product of two fixed-point scalars, rounded down.
pub open spec fn spec_fx_mul(a: int, b: int) -> int {
    fdiv(a * b, FX_SCALE as int)
}

/// Quotient of two fixed-point scalars, rounded down.
pub open spec fn spec_fx_div(a: int, b: int) -> int {
    fdiv(a * (FX_SCALE as int), b)
}

impl Fx {
    /// The scalar worth exactly the integer `i`.
    pub fn from_int(i: i64) -> (r: Fx)
        requires
            -90000000000000 <= i <= 90000000000000,
        ensures
            r.bits == i * FX_SCALE,
    {
        Fx { bits: i * FX_SCALE }
    }

    pub fn zero() -> (r: Fx)
        ensures
            r.bits == 0,
    {
        Fx { bits: 0 }
    }

    pub fn one() -> (r: Fx)
        ensures
            r.bits == FX_SCALE,
    {
        Fx { bits: FX_SCALE }
    }

    pub fn add(self, o: Fx) -> (r: Fx)
        requires
            i64::MIN <= self.bits + o.bits <= i64::MAX,
        ensures
            r.bits == self.bits + o.bits,
    {
        Fx { bits: self.bits + o.bits }
    }

    pub fn sub(self, o: Fx) -> (r: Fx)
        requires
            i64::MIN <= self.bits - o.bits <= i64::MAX,
        ensures
            r.bits == self.bits - o.bits,
    {
        Fx { bits: self.bits - o.bits }
    }

    pub fn neg(self) -> (r: Fx)
        requires
            self.bits > i64::MIN,
        ensures
            r.bits == -self.bits,
    {
        Fx { bits: -self.bits }
    }

    pub fn mul(self, o: Fx) -> (r: Fx)
        requires
            i64::MIN <= spec_fx_mul(self.bits as int, o.bits as int) <= i64::MAX,
        ensures
            r.bits == spec_fx_mul(self.bits as int, o.bits as int),
    {
        let p: i128 = (self.bits as i128) * (o.bits as i128);
        let q: i128 = i128_fdiv(p, FX_SCALE as i128);
        Fx { bits: q as i64 }
    }

    pub fn div(self, o: Fx) -> (r: Fx)
        requires
            o.bits != 0,
            i64::MIN <= spec_fx_div(self.bits as int, o.bits as int) <= i64::MAX,
        ensures
            r.bits == spec_fx_div(self.bits as int, o.bits as int),
    {
        let p: i128 = (self.bits as i128) * (FX_SCALE as i128);
        let q: i128 = i128_fdiv(p, o.bits as i128);
        Fx { bits: q as i64 }
    }

    /// Largest integer not above the scalar.
    pub fn floor_int(self) -> (r: i64)
        ensures
            r == fdiv(self.bits as int, FX_SCALE as int),
    {
        let q: i128 = i128_fdiv(self.bits as i128, FX_SCALE as i128);
        proof {
            lemma_fdiv_bounds(self.bits as int, FX_SCALE as int);
        }
        q as i64
    }

    /// The scalar clamped to the inclusive range `[lo, hi]`.
    pub fn clamp_bits(self, lo: i64, hi: i64) -> (r: Fx)
        requires
            lo <= hi,
        ensures
            r.bits == spec_clamp(self.bits as int, lo as int, hi as int),
    {
        if self.bits < lo {
            Fx { bits: lo }
        } else if self.bits > hi {
            Fx { bits: hi }
        } else {
            self
        }
    }
}

/// `x` clamped to the inclusive range `[lo, hi]`.
pub open spec fn spec_clamp(x: int, lo: int, hi: int) -> int {
    if x < lo {
        lo
    } else if x > hi {
        hi
    } else {
        x
    }
}

/// Largest `r >= 0` with `r * r <= n` (for `n >= 0`).
pub open spec fn sqrt_floor(n: int) -> int {
    choose|r: int| 0 <= r && #[trigger] (r * r) <= n && n < (r + 1) * (r + 1)
}

pub proof fn lemma_sqrt_floor_unique(n: int, r: int)
    requires
        0 <= r,
        r * r <= n,
        n < (r + 1) * (r + 1),
    ensures
        sqrt_floor(n) == r,
{
    let s = sqrt_floor(n);
    assert(0 <= s && s * s <= n && n < (s + 1) * (s + 1));
    if s < r {
        assert(false) by (nonlinear_arith)
            requires
                0 <= s < r,
                r * r <= n,
                n < (s + 1) * (s + 1);
    }
    if r < s {
        assert(false) by (nonlinear_arith)
            requires
                0 <= r < s,
                s * s <= n,
                n < (r + 1) * (r + 1);
    }
}

/// Integer square root by bisection.
pub fn isqrt_u128(n: u128) -> (r: u64)
    requires
        n < 0x40000000000000000000000000000000u128,
    ensures
        r * r <= n < (r + 1) * (r + 1),
        r == sqrt_floor(n as int),
{
    let mut lo: u64 = 0;
    let mut hi: u64 = 1u64 << 63;
    proof {
        assert((1u64 << 63) == 0x8000000000000000u64) by (bit_vector);
    }
    while lo + 1 < hi
        invariant
            lo < hi <= 0x8000000000000000u64,
            (lo as u128) * (lo as u128) <= n,
            n < (hi as u128) * (hi as u128),
        decreases hi - lo,
    {
        let mid: u64 = lo + (hi - lo) / 2;
        proof {
            assert((mid as u128) * (mid as u128) <= (0x8000000000000000u128)
                * (0x8000000000000000u128)) by (nonlinear_arith)
                requires
                    mid as u128 <= 0x8000000000000000u128;
        }
        if (mid as u128) * (mid as u128) <= n {
            lo = mid;
        } else {
            hi = mid;
        }
    }
    proof {
        assert(n < ((lo + 1) as u128) * ((lo + 1) as u128));
        lemma_sqrt_floor_unique(n as int, lo as int);
    }
    lo
}

/// `spec_fx_mul` keeps the closed unit range `[0, FX_SCALE]`.
pub proof fn lemma_fx_mul_unit_range(a: int, b: int)
    requires
        0 <= a <= FX_SCALE,
        0 <= b <= FX_SCALE,
    ensures
        0 <= spec_fx_mul(a, b) <= FX_SCALE,
{
    lemma_fdiv_bounds(a * b, FX_SCALE as int);
    assert(a * b <= FX_SCALE * FX_SCALE) by (nonlinear_arith)
        requires
            0 <= a <= FX_SCALE,
            0 <= b <= FX_SCALE;
    assert(0 <= a * b) by (nonlinear_arith)
        requires
            0 <= a,
            0 <= b;
    let q = spec_fx_mul(a, b);
    assert(FX_SCALE * q <= FX_SCALE * FX_SCALE);
    if q > FX_SCALE {
        assert(false) by (nonlinear_arith)
            requires
                FX_SCALE * q <= FX_SCALE * FX_SCALE,
                q > FX_SCALE;
    }
    if q < 0 {
        assert(FX_SCALE * (q + 1) <= 0) by (nonlinear_arith)
            requires
                q + 1 <= 0;
        assert(false);
    }
}

/// `base` raised to the integer power `e`, one rounded-down fixed-point
/// multiplication per step.
pub open spec fn spec_fx_pow(base: int, e: nat) -> int
    decreases e,
{
    if e == 0 {
        FX_SCALE as int
    } else {
        spec_fx_mul(base, spec_fx_pow(base, (e - 1) as nat))
    }
}

pub proof fn lemma_fx_pow_unit_range(base: int, e: nat)
    requires
        0 <= base <= FX_SCALE,
    ensures
        0 <= spec_fx_pow(base, e) <= FX_SCALE,
    decreases e,
{
    if e > 0 {
        lemma_fx_pow_unit_range(base, (e - 1) as nat);
        lemma_fx_mul_unit_range(base, spec_fx_pow(base, (e - 1) as nat));
    }
}

/// Fixed-point power with a nonnegative unit-range base.
pub fn fx_pow(base: Fx, e: u32) -> (r: Fx)
    requires
        0 <= base.bits <= FX_SCALE,
    ensures
        r.bits == spec_fx_pow(base.bits as int, e as nat),
        0 <= r.bits <= FX_SCALE,
{
    proof {
        lemma_fx_pow_unit_range(base.bits as int, e as nat);
    }
    let mut acc: Fx = Fx { bits: FX_SCALE };
    let mut i: u32 = 0;
    while i < e
        invariant
            i <= e,
            0 <= base.bits <= FX_SCALE,
            acc.bits == spec_fx_pow(base.bits as int, i as nat),
            0 <= acc.bits <= FX_SCALE,
        decreases e - i,
    {
        proof {
            lemma_fx_mul_unit_range(base.bits as int, acc.bits as int);
            lemma_fx_pow_unit_range(base.bits as int, (i + 1) as nat);
        }
        acc = base.mul(acc);
        i = i + 1;
    }
    acc
}

} // verus!
