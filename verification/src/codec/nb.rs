//! Narrowband decoder constants and small steps.
use vstd::prelude::*;
use super::fixed::{add32, asr32, low16, mul32, wrap16, wrap32, wrap32_add};

verus! {

/// The line-spectral-pair margin of the narrowband decoder.
pub const NB_LSP_MARGIN: i32 = 16;

/// The wideband margin, for contrast.
pub const SB_LSP_MARGIN: i32 = 410;

/// Bits in the open-loop pitch field.
pub const PITCH_BITS: u32 = 7;

/// Bits in the forced pitch-gain index, where a submode has one.
pub const PITCH_GAIN_BITS: u32 = 4;

/// Slots in the pitch gain ring.
pub const GAIN_HISTORY: usize = 3;

/// Width of the frame's gain index: four bits at an order of fifteen, five
/// otherwise.
pub fn ol_gain_bits(lpc_size: u32) -> (r: u32)
    ensures
        r == if lpc_size == 15 {
            4u32
        } else {
            5u32
        },
{
    if lpc_size == 15 {
        4
    } else {
        5
    }
}

/// The innovation and twice the excitation, rounded to Q-14.
pub open spec fn folded(innov: int, exc: int) -> i16 {
    wrap16(wrap32(innov + 2 * exc + 0x2000) as int / 0x4000)
}

/// Folds the innovation into the excitation.
pub fn fold_innovation(innov: i32, exc: i32) -> (r: i16)
    ensures
        r == folded(innov as int, exc as int),
{
    let v: i32 = add32(add32(innov, mul32(exc, 2)), 0x2000);
    proof {
        wrap32_add(2 * exc, innov as int);
        wrap32_add(innov + 2 * exc, 0x2000);
    }
    low16(asr32(v, 14))
}

/// Adds a second codebook pass to the excitation.
pub fn add_second_pass(exc2: i16, innov2: i32) -> (r: i16)
    ensures
        r == wrap16(exc2 + wrap32(innov2 + 0x2000) as int / 0x4000),
{
    low16(exc2 as i32 + asr32(add32(innov2, 0x2000), 14))
}

/// Advances the three-slot pitch gain ring.
pub fn next_gain_slot(slot: usize) -> (r: usize)
    requires
        slot < usize::MAX,
    ensures
        r == if slot >= 2 {
            0
        } else {
            slot + 1
        },
{
    let n: usize = slot + 1;
    if n > GAIN_HISTORY - 1 {
        0
    } else {
        n
    }
}

} // verus!
