//! Pixel finishing: box-filter averaging of accumulated sample colors,
//! clamping, and 8-bit quantization.  No gamma correction is applied
//! before quantization; that is the documented behavior, not an omission.

use vstd::prelude::*;
use crate::fixed::{ONE, iabs, tdiv, div_t, lemma_tdiv_mag};
use crate::vec3::{Vec3, vcap};
use vstd::arithmetic::div_mod::lemma_div_is_ordered;

verus! {

/// The clamp ceiling just below one, so that quantization stays at 255.
pub const CLAMP_TOP: i128 = 65470;

pub open spec fn clamp_s(x: int, min: int, max: int) -> int {
    if x < min {
        min
    } else if x > max {
        max
    } else {
        x
    }
}

pub fn clamp(x: i128, min: i128, max: i128) -> (r: i128)
    ensures
        r as int == clamp_s(x as int, min as int, max as int),
{
    if x < min {
        return min;
    }
    if x > max {
        return max;
    }
    x
}

/// One channel of a finished pixel: average the accumulated channel over
/// the sample count, clamp to [0, 0.999], and take floor(256 * channel).
pub open spec fn quantize_channel(sum: int, samples: int) -> int
    recommends
        samples >= 1,
{
    tdiv(clamp_s(tdiv(sum, samples), 0, CLAMP_TOP as int) * 256, ONE as int)
}

/// The finished 8-bit pixel for an accumulated color and sample count.
pub fn pixel_value(color: Vec3, samples_per_pixel: i128) -> (r: (u8, u8, u8))
    requires
        1 <= samples_per_pixel <= 0x1_0000_0000,
        vcap(color@, 0x1000_0000_0000_0000),
    ensures
        r.0 as int == quantize_channel(color@.x, samples_per_pixel as int),
        r.1 as int == quantize_channel(color@.y, samples_per_pixel as int),
        r.2 as int == quantize_channel(color@.z, samples_per_pixel as int),
{
    let a: u8 = quantize_one(color.x(), samples_per_pixel);
    let b: u8 = quantize_one(color.y(), samples_per_pixel);
    let c: u8 = quantize_one(color.z(), samples_per_pixel);
    (a, b, c)
}

fn quantize_one(sum: i128, samples: i128) -> (r: u8)
    requires
        1 <= samples <= 0x1_0000_0000,
        iabs(sum as int) <= 0x1000_0000_0000_0000,
    ensures
        r as int == quantize_channel(sum as int, samples as int),
{
    let avg: i128 = div_t(sum, samples);
    let c: i128 = clamp(avg, 0, CLAMP_TOP);
    let q: i128 = div_t(c * 256, ONE);
    proof {
        lemma_tdiv_mag((c as int) * 256, ONE as int);
        assert(0 <= (c as int) * 256 <= 65470 * 256int) by (nonlinear_arith)
            requires
                0 <= c <= 65470,
        ;
        lemma_div_is_ordered((c as int) * 256, 65470 * 256int, ONE as int);
        assert(0 <= q <= 255);
    }
    q as u8
}

} // verus!
