//! The three-tap long-term (pitch) predictor.
//!
//! Each output is a weighted sum of three neighbouring samples one pitch
//! period back. Where the period is shorter than the subframe the predictor
//! would need its own output, so the tail is taken from one period further
//! back instead.
use vstd::prelude::*;
use super::bits::{read_width, reads_keep_room, room, width, Bits, Cursor};
use super::fixed::{add32, low16, low32_of, mult16_16, mul32, sub32, weight, wrap16, wrap32, wrap32_add};
use super::innov::{word_sum, wrap_usize};

verus! {

/// Widths of the predictor's two fields.
#[derive(Debug, Clone, Copy, PartialEq, Eq)]
pub struct LtpParams {
    /// Width of the gain codebook index.
    pub gain_bits: u32,
    /// Width of the pitch.
    pub pitch_bits: u32,
}

/// Bytes per gain codebook entry: three taps and one the predictor ignores.
pub const GAIN_CDBK_STRIDE: usize = 4;

/// The bias added to every stored codebook byte.
pub const GAIN_BIAS: i16 = 32;

/// The factor the gains are scaled by before prediction.
pub const GAIN_SCALE: i16 = 128;

/// Index of the first byte of a codebook entry.
pub open spec fn entry_index(cdbk_offset: int, gain_bits: int, gain_idx: int) -> usize {
    let base = (cdbk_offset * weight((gain_bits % 32) as nat)) % 0x1_0000_0000;
    wrap_usize(4 * (base + gain_idx))
}

/// Index of the first byte of a codebook entry.
///
/// `cdbk_offset` counts whole codebooks of `1 << gain_bits` entries.
pub fn cdbk_index(cdbk_offset: u32, gain_bits: u32, gain_idx: u32) -> (r: usize)
    requires
        4 * gain_idx <= usize::MAX,
    ensures
        r == entry_index(cdbk_offset as int, gain_bits as int, gain_idx as int),
{
    let n: u32 = gain_bits % 32;
    let mut base: u32 = cdbk_offset;
    let mut i: u32 = 0;
    while i < n
        invariant
            i <= n,
            n < 32,
            base == (cdbk_offset * weight(i as nat)) % 0x1_0000_0000,
        decreases n - i,
    {
        proof {
            super::fixed::weight_doubles(i as nat);
            let x = cdbk_offset * weight(i as nat);
            assert(cdbk_offset * weight((i + 1) as nat) == 2 * x) by (nonlinear_arith)
                requires
                    weight((i + 1) as nat) == 2 * weight(i as nat),
                    x == cdbk_offset * weight(i as nat),
            ;
            doubled_word(x);
        }
        base = base.wrapping_mul(2);
        i = i + 1;
    }
    let a: usize = (base as usize).wrapping_mul(GAIN_CDBK_STRIDE);
    let b: usize = gain_idx as usize * GAIN_CDBK_STRIDE;
    proof {
        word_sum(base * 4, b);
    }
    a.wrapping_add(b)
}

/// Doubling a wrapped word gives the wrapped double.
proof fn doubled_word(x: int)
    ensures
        (x % 0x1_0000_0000) * 2 % 0x1_0000_0000 == (2 * x) % 0x1_0000_0000,
{
}

/// The three taps of the entry at `at`, unscaled.
pub open spec fn taps_at(cdbk: Seq<i8>, at: int) -> Seq<i16> {
    Seq::new(
        3,
        |i: int|
            (32 + if at + i < cdbk.len() {
                cdbk[at + i] as int
            } else {
                0
            }) as i16,
    )
}

/// The three taps of the entry at `at`, biased but not scaled.
pub fn gains(cdbk: &[i8], at: usize) -> (r: [i16; 3])
    requires
        at + 2 <= usize::MAX,
    ensures
        r@ == taps_at(cdbk@, at as int),
{
    let a: i16 = biased(cdbk, at);
    let b: i16 = biased(cdbk, at + 1);
    let c: i16 = biased(cdbk, at + 2);
    let r: [i16; 3] = [a, b, c];
    assert(r@ =~= taps_at(cdbk@, at as int));
    r
}

/// One biased codebook byte, or the bias alone past the end.
fn biased(cdbk: &[i8], at: usize) -> (r: i16)
    ensures
        r == 32 + if at < cdbk@.len() {
            cdbk@[at as int] as int
        } else {
            0
        },
{
    if at < cdbk.len() {
        GAIN_BIAS + cdbk[at] as i16
    } else {
        GAIN_BIAS
    }
}

/// The sample `back` places before the end of the history, zero before its
/// start.
pub open spec fn behind(hist: Seq<i16>, back: int) -> int {
    if 0 < back <= hist.len() {
        hist[hist.len() - back] as int
    } else {
        0
    }
}

/// The history sample that tap `k` weighs for output `i`.
pub open spec fn tap_source(hist: Seq<i16>, pitch: int, nsf: int, k: int, i: int) -> int {
    let lag1 = wrap32(pitch + 1 - k) as int;
    let lag2 = wrap32(2 * pitch + 1 - k) as int;
    if i < nsf && i < lag1 {
        behind(hist, lag1 - i)
    } else if i < nsf && i < lag2 {
        behind(hist, lag2 - i)
    } else {
        0
    }
}

/// The first `n` tap products of output `i`, in the order they are added.
pub open spec fn prediction(hist: Seq<i16>, pitch: int, g: Seq<i16>, nsf: int, i: int, n: nat) -> int
    decreases n,
{
    if n == 0 {
        0
    } else {
        let k = n - 1;
        prediction(hist, pitch, g, nsf, i, k as nat) + wrap16(g[2 - k] * 128) * tap_source(
            hist,
            pitch,
            nsf,
            k,
            i,
        )
    }
}

/// What [`predict_into`] leaves.
pub open spec fn predicted(hist: Seq<i16>, pitch: int, g: Seq<i16>, nsf: int, exc: Seq<i32>) -> Seq<i32> {
    exc.map(
        |i: int, e: i32|
            wrap32(
                (if i < nsf {
                    0
                } else {
                    e as int
                }) + prediction(hist, pitch, g, wrap32(nsf) as int, i, 3),
            ),
    )
}

/// Adds one tap's products over `from..to`.
fn add_tap(hist: &[i16], lag: i32, tap: i16, from: i32, to: i32, exc: &mut [i32])
    requires
        to <= lag,
    ensures
        final(exc)@ == old(exc)@.map(
            |i: int, e: i32|
                if from <= i < to {
                    wrap32(e + tap * behind(hist@, lag - i))
                } else {
                    e
                },
        ),
{
    let ghost e0 = exc@;
    let ghost want = e0.map(
        |i: int, e: i32|
            if from <= i < to {
                wrap32(e + tap * behind(hist@, lag - i))
            } else {
                e
            },
    );
    let mut i: i32 = if from > 0 {
        from
    } else {
        0
    };
    while i < to && (i as usize) < exc.len()
        invariant
            0 <= i,
            from <= i,
            to <= lag,
            exc@.len() == e0.len() == want.len(),
            want == e0.map(
                |i: int, e: i32|
                    if from <= i < to {
                        wrap32(e + tap * behind(hist@, lag - i))
                    } else {
                        e
                    },
            ),
            forall|k: int| 0 <= k < i && k < e0.len() ==> exc@[k] == want[k],
            forall|k: int| i <= k < e0.len() ==> exc@[k] == e0[k],
        decreases to - i,
    {
        let h: i16 = match sample(hist, i, lag) {
            Some(v) => v,
            None => 0,
        };
        exc[i as usize] = add32(exc[i as usize], mult16_16(tap, h));
        i = i + 1;
    }
    assert(exc@ =~= want);
}

/// The history sample that output `i` sees at `lag`: index 0 is the first
/// sample of the current subframe, and the history runs backwards from its
/// own end. `None` where there is no such sample.
pub fn sample(hist: &[i16], i: i32, lag: i32) -> (r: Option<i16>)
    ensures
        r is Some <==> 0 < lag - i <= i32::MAX && lag - i <= hist@.len(),
        r matches Some(v) ==> v == behind(hist@, lag - i),
        r is None && lag - i <= i32::MAX ==> behind(hist@, lag - i) == 0,
{
    let back: i32 = match lag.checked_sub(i) {
        Some(b) => b,
        None => return None,
    };
    if back <= 0 || hist.len() < back as usize {
        return None;
    }
    Some(hist[hist.len() - back as usize])
}

/// Runs the three-tap predictor over the first `nsf` outputs, which are
/// zeroed first.
///
/// `hist` is everything before the current subframe, and `gains_unscaled` the
/// taps as they come out of the codebook.
pub fn predict_into(
    hist: &[i16],
    pitch: i32,
    gains_unscaled: [i16; 3],
    nsf: usize,
    exc: &mut [i32],
)
    ensures
        final(exc)@ == predicted(hist@, pitch as int, gains_unscaled@, nsf as int, old(exc)@),
{
    let ghost e0 = exc@;
    let mut z: usize = 0;
    while z < nsf && z < exc.len()
        invariant
            z <= nsf,
            z <= exc@.len() == e0.len(),
            forall|k: int| 0 <= k < z ==> exc@[k] == 0,
            forall|k: int| z <= k < e0.len() ==> exc@[k] == e0[k],
        decreases nsf - z,
    {
        exc[z] = 0;
        z = z + 1;
    }
    let n: i32 = low32_of(nsf);
    let ghost g = gains_unscaled@;
    let mut k: i32 = 0;
    while k < 3
        invariant
            0 <= k <= 3,
            n == wrap32(nsf as int),
            g == gains_unscaled@,
            exc@.len() == e0.len(),
            forall|i: int|
                0 <= i < e0.len() ==> #[trigger] exc@[i] == wrap32(
                    (if i < nsf {
                        0
                    } else {
                        e0[i] as int
                    }) + prediction(hist@, pitch as int, g, n as int, i, k as nat),
                ),
        decreases 3 - k,
    {
        let tap: i16 = low16(gains_unscaled[(2 - k) as usize] as i32 * GAIN_SCALE as i32);
        let lag1: i32 = sub32(add32(pitch, 1), k);
        let lag2: i32 = sub32(add32(mul32(pitch, 2), 1), k);
        proof {
            wrap32_add(pitch + 1, -k);
            wrap32_add(2 * pitch, 1);
            wrap32_add(2 * pitch + 1, -k);
        }
        let n1: i32 = if n < lag1 {
            n
        } else {
            lag1
        };
        let n2: i32 = if n < lag2 {
            n
        } else {
            lag2
        };
        let ghost before = exc@;
        add_tap(hist, lag1, tap, 0, n1, exc);
        let ghost middle = exc@;
        add_tap(hist, lag2, tap, n1, n2, exc);
        proof {
            assert forall|i: int| 0 <= i < e0.len() implies #[trigger] exc@[i] == wrap32(
                (if i < nsf {
                    0
                } else {
                    e0[i] as int
                }) + prediction(hist@, pitch as int, g, n as int, i, (k + 1) as nat),
            ) by {
                let b = (if i < nsf {
                    0
                } else {
                    e0[i] as int
                }) + prediction(hist@, pitch as int, g, n as int, i, k as nat);
                let src = tap_source(hist@, pitch as int, n as int, k as int, i);
                assert(before[i] == wrap32(b));
                wrap32_add(b, tap * src);
                assert(prediction(hist@, pitch as int, g, n as int, i, (k + 1) as nat)
                    == prediction(hist@, pitch as int, g, n as int, i, k as nat) + tap * src);
                if i < n1 {
                    assert(exc@[i] == middle[i]);
                } else {
                    assert(middle[i] == before[i]);
                }
            }
        }
        k = k + 1;
    }
    assert(exc@ =~= predicted(hist@, pitch as int, g, nsf as int, e0));
}

/// Runs the three-tap predictor, allocating the output.
pub fn predict(hist: &[i16], pitch: i32, gains_unscaled: [i16; 3], nsf: usize) -> (exc: Vec<i32>)
    ensures
        exc@ == predicted(
            hist@,
            pitch as int,
            gains_unscaled@,
            nsf as int,
            Seq::new(nsf as nat, |i: int| 0i32),
        ),
{
    let mut exc: Vec<i32> = vec![0i32; nsf];
    assert(exc@ =~= Seq::new(nsf as nat, |i: int| 0i32));
    predict_into(hist, pitch, gains_unscaled, nsf, exc.as_mut_slice());
    exc
}

/// The pitch [`unquant`] decodes.
pub open spec fn decoded_pitch(start: int, par: LtpParams, b: Cursor) -> i32 {
    wrap32(start + b.value(width(par.pitch_bits)))
}

/// The taps [`unquant`] decodes.
pub open spec fn decoded_taps(par: LtpParams, cdbk: Seq<i8>, b: Cursor, cdbk_offset: int) -> Seq<i16> {
    let idx = b.after(width(par.pitch_bits)).value(width(par.gain_bits));
    taps_at(cdbk, entry_index(cdbk_offset, par.gain_bits as int, idx as int) as int)
}

/// Reads the pitch and the gain index, looks the taps up, and predicts.
///
/// Returns the pitch with `start` added, and the taps before scaling.
pub fn unquant(
    hist: &[i16],
    exc: &mut [i32],
    start: i32,
    par: &LtpParams,
    cdbk: &[i8],
    nsf: usize,
    bits: &mut Bits,
    cdbk_offset: u32,
) -> (r: (i32, [i16; 3]))
    requires
        old(bits)@.holds(room(par.pitch_bits) + room(par.gain_bits)),
        4 * old(bits)@.after(width(par.pitch_bits)).value(width(par.gain_bits)) <= usize::MAX,
    ensures
        r.0 == decoded_pitch(start as int, *par, old(bits)@),
        r.1@ == decoded_taps(*par, cdbk@, old(bits)@, cdbk_offset as int),
        final(exc)@ == predicted(hist@, r.0 as int, r.1@, nsf as int, old(exc)@),
        final(bits)@ == old(bits)@.after(width(par.pitch_bits)).after(width(par.gain_bits)),
        final(bits)@.holds(0),
{
    proof {
        reads_keep_room(
            bits@,
            width(par.pitch_bits),
            room(par.pitch_bits) + room(par.gain_bits),
        );
        reads_keep_room(
            bits@.after(width(par.pitch_bits)),
            width(par.gain_bits),
            room(par.gain_bits),
        );
    }
    let pitch: u32 = bits.unpack(read_width(par.pitch_bits));
    let gain_idx: u32 = bits.unpack(read_width(par.gain_bits));
    let at: usize = cdbk_index(cdbk_offset, par.gain_bits, gain_idx);
    assert(at + 2 <= usize::MAX) by {
        aligned_word((cdbk_offset * weight((par.gain_bits % 32) as nat)) % 0x1_0000_0000 + gain_idx);
    }
    let g: [i16; 3] = gains(cdbk, at);
    let pitch_val: i32 = add32(start, super::fixed::low32(pitch as i64));
    proof {
        wrap32_add(pitch as int, start as int);
    }
    predict_into(hist, pitch_val, g, nsf, exc);
    (pitch_val, g)
}

/// A multiple of four stays one when it wraps, so three more fit above it.
proof fn aligned_word(x: int)
    ensures
        wrap_usize(4 * x) + 3 <= usize::MAX,
{
    let m = usize::MAX + 1;
    assert(m % 4 == 0);
    let r = (4 * x) % m;
    let q = (4 * x) / m;
    vstd::arithmetic::div_mod::lemma_fundamental_div_mod(4 * x, m);
    assert(m * q == 4 * ((m / 4) * q)) by (nonlinear_arith)
        requires
            m % 4 == 0,
    ;
    assert(r % 4 == 0);
}

} // verus!
