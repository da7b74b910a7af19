//! Colors as fixed-point vectors, and channel quantization.
//!
//! A color channel holds a fixed-point value where `SCALE` stands for full
//! intensity. Before emission a channel is gamma-corrected (square root of
//! the linear value), clamped to just below full intensity and scaled to a
//! byte.

use vstd::prelude::*;
use crate::fx::{SCALE, div_trunc, sqrt_floor, isqrt_i128, lemma_div_trunc_bounds};
use crate::fx::lemma_div_trunc_mag;
use crate::rtx::vector::{Vector, mul_vec_spec, lemma_mul_bounds};

verus! {

pub type RGB = Vector;

/// A well-formed color: every channel within `[0, SCALE]`.
pub open spec fn rgb_wf(c: Vector) -> bool {
    &&& 0 <= c.x <= SCALE
    &&& 0 <= c.y <= SCALE
    &&& 0 <= c.z <= SCALE
}

/// Attenuating one well-formed color by another yields a well-formed color.
pub proof fn lemma_rgb_mul(a: Vector, b: Vector)
    requires
        rgb_wf(a),
        rgb_wf(b),
    ensures
        rgb_wf(mul_vec_spec(a, b)),
{
    lemma_mul_bounds(a.x as int, b.x as int, 65536, 65536);
    lemma_mul_bounds(a.y as int, b.y as int, 65536, 65536);
    lemma_mul_bounds(a.z as int, b.z as int, 65536, 65536);
    assert(0 <= a.x * b.x && 0 <= a.y * b.y && 0 <= a.z * b.z) by (nonlinear_arith)
        requires
            0 <= a.x && 0 <= b.x && 0 <= a.y && 0 <= b.y && 0 <= a.z && 0 <= b.z,
    ;
    lemma_div_trunc_mag(a.x * b.x, 65536, 65536);
    lemma_div_trunc_mag(a.y * b.y, 65536, 65536);
    lemma_div_trunc_mag(a.z * b.z, 65536, 65536);
    lemma_div_trunc_bounds(a.x * b.x, 65536);
    lemma_div_trunc_bounds(a.y * b.y, 65536);
    lemma_div_trunc_bounds(a.z * b.z, 65536);
}

/// Channel clamp ceiling: just below full intensity, so a full channel maps
/// to byte 255 and not 256.
pub const INTENSITY_MAX: i64 = 65470;

/// Gamma correction of one linear channel: the fixed-point square root.
pub open spec fn linear_to_gamma_spec(c: int) -> int {
    if c > 0 {
        sqrt_floor(c * (SCALE as int))
    } else {
        0
    }
}

/// Gamma-corrected channel clamped to `[0, INTENSITY_MAX]` and scaled to a
/// byte.
pub open spec fn channel_byte_spec(c: int) -> int {
    let g = linear_to_gamma_spec(c);
    let clamped = if g > INTENSITY_MAX as int {
        INTENSITY_MAX as int
    } else {
        g
    };
    div_trunc(clamped * 256, SCALE as int)
}

/// Gamma correction of one channel.
pub fn linear_to_gamma(c: i64) -> (r: i64)
    requires
        c <= 0x40_0000_0000,
    ensures
        r == linear_to_gamma_spec(c as int),
        0 <= r <= 0x800_0000,
{
    if c > 0 {
        let s = isqrt_i128((c as i128) * 65536);
        proof {
            assert(s <= 0x800_0000) by (nonlinear_arith)
                requires
                    s as int * s as int <= c * 65536,
                    c <= 0x40_0000_0000,
                    s >= 0,
            ;
        }
        s as i64
    } else {
        0
    }
}

/// One channel as an output byte.
pub fn channel_byte(c: i64) -> (r: u8)
    requires
        c <= 0x40_0000_0000,
    ensures
        r == channel_byte_spec(c as int),
{
    let g = linear_to_gamma(c);
    let clamped: i64 = if g > INTENSITY_MAX {
        INTENSITY_MAX
    } else {
        g
    };
    proof {
        lemma_div_trunc_bounds(clamped * 256, SCALE as int);
    }
    crate::fx::div_i128((clamped as i128) * 256, 65536) as u8
}

impl Vector {
    /// The three channels of this color as gamma-corrected bytes.
    pub fn gamma_bytes(&self) -> (r: (u8, u8, u8))
        requires
            self.x <= 0x40_0000_0000,
            self.y <= 0x40_0000_0000,
            self.z <= 0x40_0000_0000,
        ensures
            r.0 == channel_byte_spec(self.x as int),
            r.1 == channel_byte_spec(self.y as int),
            r.2 == channel_byte_spec(self.z as int),
    {
        (channel_byte(self.x), channel_byte(self.y), channel_byte(self.z))
    }
}

} // verus!
