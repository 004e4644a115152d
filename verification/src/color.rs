//! Colour-space conversion from RGB to YCbCr.
//!
//! The conversion weights are exact decimals with six fractional digits, so
//! the whole computation is done in millionths: each channel is a linear
//! combination of the inputs scaled by 1_000_000, truncated toward zero by a
//! single integer division, and clamped to [0, 255].  For 8-bit inputs the
//! clamp never fires, which `lemma_ycbcr_in_range` proves.

use vstd::prelude::*;

verus! {

/// Numerator of the luma channel, in millionths:
/// 0.299*r + 0.587*g + 0.114*b.
pub open spec fn luma_num(r: int, g: int, b: int) -> int {
    299_000 * r + 587_000 * g + 114_000 * b
}

/// Numerator of the blue-difference channel, in millionths:
/// 128 - 0.168736*r - 0.331264*g + 0.5*b.
pub open spec fn cb_num(r: int, g: int, b: int) -> int {
    128_000_000 + 500_000 * b - 168_736 * r - 331_264 * g
}

/// Numerator of the red-difference channel, in millionths:
/// 128 + 0.5*r - 0.418688*g - 0.081312*b.
pub open spec fn cr_num(r: int, g: int, b: int) -> int {
    128_000_000 + 500_000 * r - 418_688 * g - 81_312 * b
}

/// Saturate a value into the 8-bit channel range.
pub open spec fn clamp_255(v: int) -> int {
    if v < 0 {
        0
    } else if v > 255 {
        255
    } else {
        v
    }
}

/// The luma channel of the converted pixel.
pub open spec fn spec_luma(r: int, g: int, b: int) -> int {
    clamp_255(luma_num(r, g, b) / 1_000_000)
}

/// The blue-difference chroma channel of the converted pixel.
pub open spec fn spec_cb(r: int, g: int, b: int) -> int {
    clamp_255(cb_num(r, g, b) / 1_000_000)
}

/// The red-difference chroma channel of the converted pixel.
pub open spec fn spec_cr(r: int, g: int, b: int) -> int {
    clamp_255(cr_num(r, g, b) / 1_000_000)
}

/// The full converted triple (y, cb, cr) of one RGB triple.
pub open spec fn spec_ycbcr(r: int, g: int, b: int) -> (int, int, int) {
    (spec_luma(r, g, b), spec_cb(r, g, b), spec_cr(r, g, b))
}

/// Clamping invariant: for every 8-bit RGB triple each converted channel
/// already lies in [0, 255], so the saturation step never alters a value;
/// the channels are exactly the truncated quotients.
pub proof fn lemma_ycbcr_in_range(r: int, g: int, b: int)
    requires
        0 <= r <= 255,
        0 <= g <= 255,
        0 <= b <= 255,
    ensures
        0 <= spec_luma(r, g, b) <= 255,
        0 <= spec_cb(r, g, b) <= 255,
        0 <= spec_cr(r, g, b) <= 255,
        spec_luma(r, g, b) == luma_num(r, g, b) / 1_000_000,
        spec_cb(r, g, b) == cb_num(r, g, b) / 1_000_000,
        spec_cr(r, g, b) == cr_num(r, g, b) / 1_000_000,
{
    assert(0 <= luma_num(r, g, b) <= 255_000_000);
    assert(500_000 <= cb_num(r, g, b) <= 255_500_000);
    assert(500_000 <= cr_num(r, g, b) <= 255_500_000);
    lemma_div_range_255(luma_num(r, g, b));
    lemma_div_range_255(cb_num(r, g, b));
    lemma_div_range_255(cr_num(r, g, b));
}

/// A nonnegative numerator below 256 million has a quotient by one million
/// inside the 8-bit range.
proof fn lemma_div_range_255(n: int)
    by (nonlinear_arith)
    requires
        0 <= n < 256_000_000,
    ensures
        0 <= n / 1_000_000 <= 255,
{
}

/// Convert one 8-bit RGB triple to its YCbCr triple.  Total over all inputs;
/// the result is a pure function of the arguments, so two calls on the same
/// triple return the same value.
pub fn rgb_to_ycbcr(r: u8, g: u8, b: u8) -> (res: (u8, u8, u8))
    ensures
        res.0 as int == spec_luma(r as int, g as int, b as int),
        res.1 as int == spec_cb(r as int, g as int, b as int),
        res.2 as int == spec_cr(r as int, g as int, b as int),
{
    proof {
        lemma_ycbcr_in_range(r as int, g as int, b as int);
    }
    let y_num: u32 = 299_000 * (r as u32) + 587_000 * (g as u32) + 114_000 * (b as u32);
    let y: u32 = y_num / 1_000_000;

    let cb_pos: u32 = 128_000_000 + 500_000 * (b as u32);
    let cb_neg: u32 = 168_736 * (r as u32) + 331_264 * (g as u32);
    let cb: u32 = (cb_pos - cb_neg) / 1_000_000;

    let cr_pos: u32 = 128_000_000 + 500_000 * (r as u32);
    let cr_neg: u32 = 418_688 * (g as u32) + 81_312 * (b as u32);
    let cr: u32 = (cr_pos - cr_neg) / 1_000_000;

    (y as u8, cb as u8, cr as u8)
}

} // verus!
