//! Color values with three 8-bit channels.

use vstd::prelude::*;
use crate::fixed::{Fx, FX_SCALE, fdiv, i128_fdiv};

verus! {

#[derive(Clone, Copy, PartialEq, Eq, Structural, Debug)]
pub struct Color {
    pub r: u8,
    pub g: u8,
    pub b: u8,
}

/// One channel scaled by a fixed-point intensity, truncated into the
/// 8-bit range (negative intensities yield 0).
pub open spec fn spec_channel_scale(c: int, intensity: int) -> int {
    let v = fdiv(c * intensity, FX_SCALE as int);
    if v < 0 {
        0
    } else if v > 255 {
        255
    } else {
        v
    }
}

impl Color {
    pub fn new(r: u8, g: u8, b: u8) -> (c: Color)
        ensures
            c == (Color { r, g, b }),
    {
        Color { r, g, b }
    }

    pub fn black() -> (c: Color)
        ensures
            c == (Color { r: 0u8, g: 0u8, b: 0u8 }),
    {
        Color { r: 0, g: 0, b: 0 }
    }

    /// As a triple of channels, the form the frame buffer contracts use.
    pub open spec fn triple(self) -> (u8, u8, u8) {
        (self.r, self.g, self.b)
    }

    /// Every channel scaled by the same fixed-point intensity.
    pub fn scale(self, intensity: Fx) -> (c: Color)
        ensures
            c.r as int == spec_channel_scale(self.r as int, intensity.bits as int),
            c.g as int == spec_channel_scale(self.g as int, intensity.bits as int),
            c.b as int == spec_channel_scale(self.b as int, intensity.bits as int),
    {
        Color {
            r: channel_scale(self.r, intensity),
            g: channel_scale(self.g, intensity),
            b: channel_scale(self.b, intensity),
        }
    }
}

/// One channel scaled by a fixed-point intensity.
pub fn channel_scale(c: u8, intensity: Fx) -> (r: u8)
    ensures
        r as int == spec_channel_scale(c as int, intensity.bits as int),
{
    proof {
        assert((c as int) * (intensity.bits as int) <= 255 * (i64::MAX as int) && (c as int) * (
        intensity.bits as int) >= 255 * (i64::MIN as int)) by (nonlinear_arith)
            requires
                0 <= c as int <= 255,
                i64::MIN <= intensity.bits <= i64::MAX;
    }
    let p: i128 = (c as i128) * (intensity.bits as i128);
    let v: i128 = i128_fdiv(p, FX_SCALE as i128);
    if v < 0 {
        0
    } else if v > 255 {
        255
    } else {
        v as u8
    }
}

} // verus!
