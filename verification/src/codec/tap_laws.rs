//! What holds of the half-band filters' taps.
use vstd::prelude::*;
use super::tables::{band_taps_as_sequences, high_taps, low_taps, QMF_H0, QMF_H1};

verus! {

/// The low band's taps read the same from both ends, and the high band's are the
/// same with every other one turned round.
pub proof fn taps_mirror(k: int)
    requires
        0 <= k < 64,
    ensures
        low_taps()[k] == low_taps()[63 - k],
        k % 2 == 0 ==> high_taps()[k] == low_taps()[k],
        k % 2 == 1 ==> high_taps()[k] == -low_taps()[k],
        low_taps()[31] == 30153,
        k < 31 ==> -low_taps()[31] < low_taps()[k] < low_taps()[31],
{
    band_taps_as_sequences();
    assert(forall|i: int| 0 <= i < 64 ==> #[trigger] QMF_H0@[i] == QMF_H0@[63 - i]);
    assert(forall|i: int| 0 <= i < 64 && i % 2 == 0 ==> #[trigger] QMF_H1@[i] == QMF_H0@[i]);
    assert(forall|i: int| 0 <= i < 64 && i % 2 == 1 ==> #[trigger] QMF_H1@[i] == -QMF_H0@[i]);
    assert(forall|i: int| 0 <= i < 31 ==> -30153 < #[trigger] QMF_H0@[i] < 30153);
}

} // verus!
