//! Wideband decoder constants and small steps.
use vstd::prelude::*;
use super::filters::clamped;
use super::fixed::{add32, asr32, asr64, low32, sub32, wrap32, wrap32_add};
use super::math::trunc_div;

verus! {

/// Output saturation, positive.
pub const OUT_MAX: i32 = 32767;

/// Output saturation, negative: not the full 16-bit range.
pub const OUT_MIN: i32 = -32767;

/// The line-spectral-pair margin of the wideband decoder.
pub const LSP_MARGIN: i32 = 410;

/// The Q15 high-band gain factor.
pub const HIGH_GAIN_Q15: i32 = 28626;

/// Coded frame sizes that select each submode, indexed by `submode - 1`. The
/// last submode has one size, listed twice.
pub const SUBMODE_FRAME_BYTES: [[u8; 2]; 5] = [
    [0x1d, 0x13],
    [0x27, 0x18],
    [0x38, 0x30],
    [0x52, 0x42],
    [0x66, 0x66],
];

/// The submode that a coded frame size selects.
pub open spec fn submode_of(bytes: u8) -> Option<u8> {
    if bytes == 0x1d || bytes == 0x13 {
        Some(1)
    } else if bytes == 0x27 || bytes == 0x18 {
        Some(2)
    } else if bytes == 0x38 || bytes == 0x30 {
        Some(3)
    } else if bytes == 0x52 || bytes == 0x42 {
        Some(4)
    } else if bytes == 0x66 {
        Some(5)
    } else {
        None
    }
}

/// Picks a submode from the coded frame size.
///
/// `None` for a size that selects nothing by itself.
pub fn submode_from_frame_bytes(bytes: u8) -> (r: Option<u8>)
    ensures
        r == submode_of(bytes),
{
    let mut i: usize = 0;
    while i < 5
        invariant
            i <= 5,
            i >= 1 ==> bytes != 0x1d && bytes != 0x13,
            i >= 2 ==> bytes != 0x27 && bytes != 0x18,
            i >= 3 ==> bytes != 0x38 && bytes != 0x30,
            i >= 4 ==> bytes != 0x52 && bytes != 0x42,
            i >= 5 ==> bytes != 0x66,
        decreases 5 - i,
    {
        let pair: [u8; 2] = SUBMODE_FRAME_BYTES[i];
        if pair[0] == bytes || pair[1] == bytes {
            return Some(i as u8 + 1);
        }
        i = i + 1;
    }
    None
}

/// The quotient by five rounded toward zero, then shifted right by five
/// rounding down.
///
/// The two roundings differ, so for a negative operand this is not a division
/// by 160.
pub fn div_trunc5_shr5(x: i32) -> (r: i32)
    ensures
        r == trunc_div(x as int, 5) / 32,
{
    proof {
        super::fixed::weight_values();
    }
    let t: i64 = asr64(x as i64 * 0x6666_6667, 33);
    proof {
        let y = x * 0x6666_6667;
        assert(t == y / 0x2_0000_0000);
        let q = vstd::math::abs(x as int) as int / 5;
        let r = vstd::math::abs(x as int) as int % 5;
        if x >= 0 {
            assert(5 * (y - q * 0x2_0000_0000) == r * 0x2_0000_0000 + 3 * x);
            assert(t == q);
        } else {
            assert(5 * (y + q * 0x2_0000_0000) == 3 * x - r * 0x2_0000_0000);
            assert(t == -q - 1);
        }
        assert(trunc_div(x as int, 5) == if x < 0 { -q } else { q });
    }
    let q5: i32 = low32(t) - asr32(x, 31);
    asr32(q5, 5)
}

/// The final sample from the two band outputs.
pub open spec fn combined(lo: int, hi: int) -> int {
    clamped(wrap32(lo - hi + 0x1000) as int / 0x2000, OUT_MIN as int, OUT_MAX as int)
}

/// Combines the two band outputs into the final sample, rounded and saturated.
pub fn qmf_combine(lo: i32, hi: i32) -> (r: i16)
    ensures
        r == combined(lo as int, hi as int),
{
    proof {
        wrap32_add(lo - hi, 0x1000);
    }
    let v: i32 = asr32(add32(sub32(lo, hi), 0x1000), 13);
    if v < OUT_MIN {
        OUT_MIN as i16
    } else if v > OUT_MAX {
        OUT_MAX as i16
    } else {
        v as i16
    }
}

} // verus!
