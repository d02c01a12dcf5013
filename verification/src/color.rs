//! Colours, and how a gathered colour is written as a pixel.

use crate::fixed::{fx_div, fx_mul, fx_sqrt, lemma_floor_sqrt, quot, saturate, Fixed, SCALE};
use crate::vec3::{Vec3, V3};
use vstd::prelude::*;

verus! {

/// A colour: red, green and blue in the three components.
pub type Color = Vec3;

/// The raw value of 0.999, the brightest that a channel is written at.
pub const BRIGHTEST: i64 = 999_000;

/// The byte written for a channel whose gathered sum, times `scale`, is the mean: the mean
/// is gamma-corrected by a square root, clamped to `[0, 0.999]`, and scaled to `0..=255`.
pub open spec fn scaled_byte(sum: int, scale: int) -> int {
    let gamma = fx_sqrt(fx_mul(sum, scale));
    let clamped = if gamma > BRIGHTEST {
        BRIGHTEST as int
    } else {
        gamma
    };
    quot(256 * clamped, SCALE as int)
}

/// The byte written for a channel that has gathered `sum` over `samples` samples.
pub open spec fn channel_byte(sum: int, samples: int) -> int {
    scaled_byte(sum, fx_div(SCALE as int, saturate(samples * SCALE)))
}

/// The decimal digits of `n` in ASCII, without leading zeros.
pub open spec fn decimal(n: nat) -> Seq<u8>
    decreases n,
{
    if n < 10 {
        seq![(48 + n) as u8]
    } else {
        decimal(n / 10).push((48 + n % 10) as u8)
    }
}

/// The line of a plain pixel map for one pixel: the three channel bytes in decimal,
/// separated by single spaces and closed by a newline.
pub open spec fn pixel_line(sum: V3, samples: int) -> Seq<u8> {
    decimal(channel_byte(sum.x, samples) as nat) + seq![32u8] + decimal(
        channel_byte(sum.y, samples) as nat,
    ) + seq![32u8] + decimal(channel_byte(sum.z, samples) as nat) + seq![10u8]
}

fn channel(sum: Fixed, scale: Fixed) -> (byte: u8)
    ensures
        byte == scaled_byte(sum@, scale@),
{
    let gamma: i64 = sum.mul(scale).sqrt().raw();
    proof {
        let mean = fx_mul(sum@, scale@);
        if mean > 0 {
            assert(mean * SCALE >= 0) by (nonlinear_arith)
                requires
                    mean > 0,
            ;
            lemma_floor_sqrt(mean * SCALE);
        }
    }
    let clamped: i64 = if gamma > BRIGHTEST {
        BRIGHTEST
    } else {
        gamma
    };
    ((256 * clamped) / 1_000_000) as u8
}

fn write_decimal(byte: u8, out: &mut Vec<u8>)
    ensures
        final(out)@ == old(out)@ + decimal(byte as nat),
{
    reveal_with_fuel(decimal, 3);
    if byte >= 100 {
        out.push(48 + byte / 100);
        out.push(48 + (byte / 10) % 10);
        out.push(48 + byte % 10);
    } else if byte >= 10 {
        out.push(48 + byte / 10);
        out.push(48 + byte % 10);
    } else {
        out.push(48 + byte);
    }
}

impl Color {
    /// Appends to `out` the pixel-map line of this colour, taken as the sum that
    /// `samples_per_pixel` samples have gathered.
    pub fn write_color(&self, samples_per_pixel: i32, out: &mut Vec<u8>)
        ensures
            final(out)@ == old(out)@ + pixel_line(self@, samples_per_pixel as int),
    {
        let scale = Fixed::from_raw(SCALE).div(Fixed::from_int(samples_per_pixel as i64));
        let r: u8 = channel(self.x, scale);
        let g: u8 = channel(self.y, scale);
        let b: u8 = channel(self.z, scale);

        write_decimal(r, out);
        out.push(32);
        write_decimal(g, out);
        out.push(32);
        write_decimal(b, out);
        out.push(10);
    }
}

} // verus!
