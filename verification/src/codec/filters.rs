//! The four signal-path filters, and the fixed-point product they share.
//!
//! | routine | what |
//! |---|---|
//! | [`fir2x`] | polyphase synthesis, two outputs per input |
//! | [`iir32`] | all-pole synthesis filter, 32-bit |
//! | [`iir16`] | the same filter, 16-bit |
//! | [`signal_mul`] | scale a 32-bit signal by a Q14 gain |
use vstd::prelude::*;
use super::fixed::{add32, asr32, asr64, low16, low32, lsl32, mult16_16, wrap16, wrap32, wrap32_add};

verus! {

/// The 16-bit filters saturate to this, not to the full 16-bit range.
pub const SAT_HIGH: i32 = 32767;

/// The low clamp is the negation of the high one.
pub const SAT_LOW: i32 = -32767;

/// The 32-bit filter clamps here, leaving room for the feedback term.
pub const WIDE: i32 = 0x3000_0000;

/// `x` brought into `low..=high`.
pub open spec fn clamped(x: int, low: int, high: int) -> int {
    if x < low {
        low
    } else if x > high {
        high
    } else {
        x
    }
}

/// Entry `i` of a buffer that reads as zero outside its bounds.
pub open spec fn tap16(s: Seq<i16>, i: int) -> int {
    if 0 <= i < s.len() {
        s[i] as int
    } else {
        0
    }
}

/// Entry `i` of a buffer that reads as zero outside its bounds.
pub open spec fn tap32(s: Seq<i32>, i: int) -> int {
    if 0 <= i < s.len() {
        s[i] as int
    } else {
        0
    }
}

/// The product of a 16-bit and a 32-bit number, in Q14: all 48 bits are kept
/// before the shift.
pub fn mult16_32_q14(x: i16, y: i32) -> (r: i32)
    ensures
        r == wrap32(y * x / 0x4000),
{
    assert(-0x1_0000_0000_0000 < y * x < 0x1_0000_0000_0000) by (nonlinear_arith)
        requires
            -0x8000 <= x <= 0x7fff,
            -0x8000_0000 <= y <= 0x7fff_ffff,
    ;
    low32(asr64(y as i64 * x as i64, 14))
}

/// Clamps to plus or minus [`WIDE`].
pub fn clamp_wide(v: i32) -> (r: i32)
    ensures
        r == clamped(v as int, -WIDE, WIDE as int),
{
    if v > WIDE {
        WIDE
    } else if v < -WIDE {
        -WIDE
    } else {
        v
    }
}

/// How many history entries a filter of order `ord` keeps for [`fir2x_run`].
pub open spec fn history(ord: int) -> int {
    if ord <= 1 {
        0
    } else {
        ord / 2
    }
}

/// How many history entries [`fir2x_run`] carries: half the order.
pub fn history_len(ord: i32) -> (r: usize)
    ensures
        r == history(ord as int),
{
    if ord <= 1 {
        0
    } else {
        (ord / 2) as usize
    }
}

/// The smallest and largest 32-bit numbers bound `x`.
pub open spec fn saturated32(x: int) -> int {
    clamped(x, i32::MIN as int, i32::MAX as int)
}

/// What [`scratch_len`] returns.
pub open spec fn scratch(n: int, ord: int) -> int {
    let bytes = saturated32(2 * saturated32(n + ord));
    if bytes <= 0 {
        0
    } else {
        bytes / 4
    }
}

/// Slots in the tap buffer of [`fir2x_run`]: one for every four bytes of
/// twice the number of samples and taps.
pub fn scratch_len(n: i32, ord: i32) -> (r: usize)
    ensures
        r == scratch(n as int, ord as int),
{
    let sum: i64 = saturate(n as i64 + ord as i64);
    let bytes: i64 = saturate(2 * sum);
    if bytes <= 0 {
        0
    } else {
        (bytes / 4) as usize
    }
}

/// Clamps to the 32-bit range.
fn saturate(x: i64) -> (r: i64)
    ensures
        r == saturated32(x as int),
{
    if x < -0x8000_0000 {
        -0x8000_0000
    } else if x > 0x7fff_ffff {
        0x7fff_ffff
    } else {
        x
    }
}

/// A tap outside the buffer reads as zero.
fn tap(s: &[i16], i: i64) -> (r: i16)
    ensures
        r == tap16(s@, i as int),
{
    if 0 <= i && (i as u64) < s.len() as u64 {
        s[i as usize]
    } else {
        0
    }
}

/// One polyphase sum: `steps` pairs of taps, two samples and four
/// coefficients further along each time, every product in Q-2.
pub open spec fn phase_sum(s: Seq<i16>, coef: Seq<i16>, from: int, phase: int, steps: nat) -> int
    decreases steps,
{
    if steps == 0 {
        0
    } else {
        let t = steps - 1;
        phase_sum(s, coef, from, phase, t as nat) + tap16(s, from + 2 * t) * tap16(
            coef,
            4 * t + phase,
        ) / 4 + tap16(s, from + 2 * t + 1) * tap16(coef, 4 * t + phase + 2) / 4
    }
}

/// Groups of four coefficients that a filter of order `ord` reads.
pub open spec fn tap_groups(ord: int) -> nat {
    if ord <= 0 {
        0
    } else {
        ((ord + 3) / 4) as nat
    }
}

/// Output `o` of [`fir2x`] over `n` outputs.
pub open spec fn fir_output(s: Seq<i16>, coef: Seq<i16>, n: int, ord: int, o: int) -> i32 {
    wrap32(phase_sum(s, coef, n / 2 - 2 * (o / 4) - 1 - (o % 4) / 2, o % 2, tap_groups(ord)))
}

/// Adds two Q-2 products to a running sum.
fn accumulate(acc: i32, a: i16, c: i16, b: i16, d: i16) -> (r: i32)
    ensures
        r == wrap32(acc + (a * c / 4 + b * d / 4)),
{
    proof {
        wrap32_add(acc + a * c / 4, b * d / 4);
    }
    add32(add32(acc, asr32(mult16_16(a, c), 2)), asr32(mult16_16(b, d), 2))
}

/// Four adjacent outputs of [`fir2x`].
fn fir_group(s: &[i16], coef: &[i16], sigma: i64, ord: i32) -> (r: (i32, i32, i32, i32))
    requires
        -0x8000_0000 <= sigma <= 0x8000_0000,
    ensures
        r.0 == wrap32(phase_sum(s@, coef@, sigma - 1, 0, tap_groups(ord as int))),
        r.1 == wrap32(phase_sum(s@, coef@, sigma - 1, 1, tap_groups(ord as int))),
        r.2 == wrap32(phase_sum(s@, coef@, sigma - 2, 0, tap_groups(ord as int))),
        r.3 == wrap32(phase_sum(s@, coef@, sigma - 2, 1, tap_groups(ord as int))),
{
    let mut acc0: i32 = 0;
    let mut acc1: i32 = 0;
    let mut acc2: i32 = 0;
    let mut acc3: i32 = 0;
    let mut prev: i16 = tap(s, sigma - 2);
    let mut j: i64 = 0;
    let ghost mut t: nat = 0;
    while j < ord as i64
        invariant
            -0x8000_0000 <= sigma <= 0x8000_0000,
            j == 4 * t,
            t <= tap_groups(ord as int),
            j < ord + 4 || ord <= 0,
            ord <= 0 ==> t == 0,
            prev == tap16(s@, sigma - 2 + 2 * t),
            acc0 == wrap32(phase_sum(s@, coef@, sigma - 1, 0, t)),
            acc1 == wrap32(phase_sum(s@, coef@, sigma - 1, 1, t)),
            acc2 == wrap32(phase_sum(s@, coef@, sigma - 2, 0, t)),
            acc3 == wrap32(phase_sum(s@, coef@, sigma - 2, 1, t)),
        decreases ord + 4 - j,
    {
        let at: i64 = sigma + j / 2;
        let a: i16 = tap(s, at - 1);
        let b: i16 = tap(s, at);
        let c0: i16 = tap(coef, j);
        let c1: i16 = tap(coef, j + 1);
        let c2: i16 = tap(coef, j + 2);
        let c3: i16 = tap(coef, j + 3);
        acc0 = accumulate(acc0, a, c0, b, c2);
        acc1 = accumulate(acc1, a, c1, b, c3);
        acc2 = accumulate(acc2, prev, c0, a, c2);
        acc3 = accumulate(acc3, prev, c1, a, c3);
        proof {
            let (x, y, z) = (prev as int, a as int, b as int);
            let (p, q, r, w) = (c0 as int, c1 as int, c2 as int, c3 as int);
            wrap32_add(phase_sum(s@, coef@, sigma - 1, 0, t), y * p / 4 + z * r / 4);
            wrap32_add(phase_sum(s@, coef@, sigma - 1, 1, t), y * q / 4 + z * w / 4);
            wrap32_add(phase_sum(s@, coef@, sigma - 2, 0, t), x * p / 4 + y * r / 4);
            wrap32_add(phase_sum(s@, coef@, sigma - 2, 1, t), x * q / 4 + y * w / 4);
            t = t + 1;
        }
        prev = b;
        j = j + 4;
    }
    (acc0, acc1, acc2, acc3)
}

/// Stores a value where the buffer has a place for it.
fn put(out: &mut [i32], i: usize, v: i32)
    ensures
        final(out)@ == if i < old(out)@.len() {
            old(out)@.update(i as int, v)
        } else {
            old(out)@
        },
{
    if i < out.len() {
        out[i] = v;
    }
}

/// Polyphase synthesis.
///
/// `s` holds the reversed input and its history, `coef` the interleaved taps.
/// Outputs come four at a time, the window sliding two input samples per
/// group, and whatever does not fit in `out` is dropped.
pub fn fir2x(s: &[i16], coef: &[i16], n: i32, ord: i32, out: &mut [i32])
    ensures
        final(out)@.len() == old(out)@.len(),
        forall|o: int|
            0 <= o < old(out)@.len() ==> #[trigger] final(out)@[o] == if n > 0 && o / 4 < (n + 3) / 4 {
                fir_output(s@, coef@, n as int, ord as int, o)
            } else {
                old(out)@[o]
            },
{
    if n <= 0 {
        return ;
    }
    let half: i64 = (n / 2) as i64;
    let ghost before = out@;
    let mut i: i64 = 0;
    let mut k: i64 = 0;
    while i < n as i64
        invariant
            n > 0,
            half == n / 2,
            i == 4 * k,
            0 <= k <= (n + 3) / 4,
            out@.len() == before.len(),
            forall|o: int|
                0 <= o < before.len() ==> #[trigger] out@[o] == if o < i {
                    fir_output(s@, coef@, n as int, ord as int, o)
                } else {
                    before[o]
                },
        decreases n + 4 - i,
    {
        let (a, b, c, d) = fir_group(s, coef, half - 2 * k, ord);
        let at: usize = i as usize;
        put(out, at, a);
        put(out, at + 1, b);
        put(out, at + 2, c);
        put(out, at + 3, d);
        i = i + 4;
        k = k + 1;
    }
}

/// The history with its first `ord` entries halved.
pub open spec fn halved(mem: Seq<i32>, ord: int) -> Seq<i32> {
    mem.map(|j: int, m: i32| if j < ord {
        (m as int / 2) as i32
    } else {
        m
    })
}

/// The history with its first `ord` entries doubled.
pub open spec fn doubled(mem: Seq<i32>, ord: int) -> Seq<i32> {
    mem.map(|j: int, m: i32| if j < ord {
        wrap32(2 * m)
    } else {
        m
    })
}

/// One output of the 32-bit filter.
pub open spec fn iir32_output(x: int, mem: Seq<i32>) -> int {
    let v = clamped(x, -WIDE, WIDE as int);
    clamped(wrap32(v + 4 * tap32(mem, 0)) as int, -WIDE, WIDE as int)
}

/// The history after an output `y`: every entry moves down one place and
/// takes its share of the negated output.
pub open spec fn iir32_feed(y: int, den: Seq<i16>, mem: Seq<i32>, ord: int) -> Seq<i32> {
    mem.map(|j: int, m: i32| if j < ord - 1 {
        wrap32(wrap32(-y * tap16(den, j) / 0x8000) + mem[j + 1])
    } else if j == ord - 1 {
        wrap32(-y * tap16(den, j) / 0x8000)
    } else {
        m
    })
}

/// The history after `i` samples.
pub open spec fn iir32_history(x: Seq<i32>, den: Seq<i16>, mem: Seq<i32>, ord: int, i: nat) -> Seq<i32>
    decreases i,
{
    if i == 0 {
        mem
    } else {
        let m = iir32_history(x, den, mem, ord, (i - 1) as nat);
        iir32_feed(iir32_output(tap32(x, i - 1), m), den, m, ord)
    }
}

/// `x`, or zero below it.
pub open spec fn at_least_zero(x: int) -> int {
    if x < 0 {
        0
    } else {
        x
    }
}

/// One tap's share: the negated output times a coefficient, in Q15.
fn feedback(y: i32, c: i16) -> (r: i32)
    ensures
        r == wrap32(-y * c / 0x8000),
{
    assert(-0x1_0000_0000_0000 < -y * c < 0x1_0000_0000_0000) by (nonlinear_arith)
        requires
            -0x8000 <= c <= 0x7fff,
            -0x8000_0000 <= y <= 0x7fff_ffff,
    ;
    low32(asr64(-(y as i64) * c as i64, 15))
}

/// Moves the 32-bit filter's history on by one output.
fn iir32_advance(y: i32, den: &[i16], ord: usize, mem: &mut [i32])
    requires
        ord <= old(mem)@.len(),
    ensures
        final(mem)@ == iir32_feed(y as int, den@, old(mem)@, ord as int),
{
    let ghost before = mem@;
    let mut j: usize = 0;
    while j < ord
        invariant
            j <= ord <= before.len(),
            mem@.len() == before.len(),
            forall|k: int| 0 <= k < j ==> mem@[k] == iir32_feed(y as int, den@, before, ord as int)[k],
            forall|k: int| j <= k < before.len() ==> mem@[k] == before[k],
        decreases ord - j,
    {
        let c: i16 = if j < den.len() {
            den[j]
        } else {
            0
        };
        let p: i32 = feedback(y, c);
        if j + 1 < ord {
            mem[j] = add32(p, mem[j + 1]);
        } else {
            mem[j] = p;
        }
        j = j + 1;
    }
    assert(mem@ =~= iir32_feed(y as int, den@, before, ord as int));
}

/// An all-pole synthesis filter over 32-bit samples.
///
/// The history is halved on the way in and doubled on the way out, which buys
/// a guard bit for the accumulation in between.
pub fn iir32(x: &[i32], den: &[i16], n: i32, ord: i32, out: &mut [i32], mem: &mut [i32])
    requires
        n > 0 ==> ord <= old(mem)@.len(),
    ensures
        final(out)@.len() == old(out)@.len(),
        forall|i: int|
            0 <= i < old(out)@.len() ==> #[trigger] final(out)@[i] == if i < n {
                iir32_output(
                    tap32(x@, i),
                    iir32_history(x@, den@, halved(old(mem)@, ord as int), ord as int, i as nat),
                )
            } else {
                old(out)@[i] as int
            },
        final(mem)@ == doubled(
            iir32_history(
                x@,
                den@,
                halved(old(mem)@, ord as int),
                ord as int,
                at_least_zero(n as int) as nat,
            ),
            ord as int,
        ),
{
    let count: usize = if n > 0 {
        n as usize
    } else {
        0
    };
    let ord_u: usize = if ord > 0 {
        ord as usize
    } else {
        0
    };
    let ghost m0 = mem@;
    let ghost o0 = out@;
    let mut j: usize = 0;
    while j < ord_u && j < mem.len()
        invariant
            j <= ord_u,
            ord_u == at_least_zero(ord as int),
            j <= mem@.len() == m0.len(),
            forall|k: int| 0 <= k < j ==> mem@[k] == halved(m0, ord as int)[k],
            forall|k: int| j <= k < m0.len() ==> mem@[k] == m0[k],
        decreases ord_u - j,
    {
        mem[j] = asr32(mem[j], 1);
        j = j + 1;
    }
    let ghost h = halved(m0, ord as int);
    assert(mem@ =~= h);
    let mut i: usize = 0;
    while i < count
        invariant
            i <= count,
            count == at_least_zero(n as int),
            ord_u == at_least_zero(ord as int),
            n > 0 ==> ord <= m0.len(),
            h == halved(m0, ord as int),
            mem@.len() == m0.len(),
            mem@ == iir32_history(x@, den@, h, ord as int, i as nat),
            out@.len() == o0.len(),
            forall|k: int|
                0 <= k < o0.len() ==> #[trigger] out@[k] == if k < i {
                    iir32_output(tap32(x@, k), iir32_history(x@, den@, h, ord as int, k as nat))
                } else {
                    o0[k] as int
                },
        decreases count - i,
    {
        let xi: i32 = if i < x.len() {
            x[i]
        } else {
            0
        };
        let m: i32 = if mem.len() > 0 {
            mem[0]
        } else {
            0
        };
        proof {
            super::fixed::wrap32_add(4 * m, clamped(xi as int, -WIDE, WIDE as int));
        }
        let v: i32 = clamp_wide(add32(clamp_wide(xi), lsl32(m, 2)));
        let ghost was = mem@;
        iir32_advance(v, den, ord_u, mem);
        assert(iir32_feed(v as int, den@, was, ord_u as int) =~= iir32_feed(
            v as int,
            den@,
            was,
            ord as int,
        ));
        put(out, i, v);
        i = i + 1;
    }
    let ghost m1 = mem@;
    let mut j: usize = 0;
    while j < ord_u && j < mem.len()
        invariant
            j <= ord_u,
            ord_u == at_least_zero(ord as int),
            j <= mem@.len() == m1.len(),
            forall|k: int| 0 <= k < j ==> mem@[k] == doubled(m1, ord as int)[k],
            forall|k: int| j <= k < m1.len() ==> mem@[k] == m1[k],
        decreases ord_u - j,
    {
        mem[j] = lsl32(mem[j], 1);
        j = j + 1;
    }
    assert(mem@ =~= doubled(m1, ord as int));
}

/// One output of the 16-bit filter.
pub open spec fn iir16_output(x: int, mem: Seq<i32>) -> int {
    clamped(x + wrap32(tap32(mem, 0) + 0x1000) as int / 0x2000, SAT_LOW as int, SAT_HIGH as int)
}

/// The history of the 16-bit filter after an output `y`.
pub open spec fn iir16_feed(y: int, den: Seq<i16>, mem: Seq<i32>, ord: int) -> Seq<i32> {
    mem.map(|j: int, m: i32| if j < ord - 1 {
        wrap32(-y * tap16(den, j) + mem[j + 1])
    } else if j == ord - 1 {
        wrap32(-y * tap16(den, j))
    } else {
        m
    })
}

/// The history of the 16-bit filter after `i` samples.
pub open spec fn iir16_history(x: Seq<i16>, den: Seq<i16>, mem: Seq<i32>, ord: int, i: nat) -> Seq<i32>
    decreases i,
{
    if i == 0 {
        mem
    } else {
        let m = iir16_history(x, den, mem, ord, (i - 1) as nat);
        iir16_feed(iir16_output(tap16(x, i - 1), m), den, m, ord)
    }
}

/// Moves the 16-bit filter's history on by one output.
fn iir16_advance(y: i16, den: &[i16], ord: usize, mem: &mut [i32])
    requires
        ord <= old(mem)@.len(),
        y > i16::MIN,
    ensures
        final(mem)@ == iir16_feed(y as int, den@, old(mem)@, ord as int),
{
    let ghost before = mem@;
    let neg: i16 = -y;
    let mut j: usize = 0;
    while j < ord
        invariant
            j <= ord <= before.len(),
            neg == -y,
            mem@.len() == before.len(),
            forall|k: int| 0 <= k < j ==> mem@[k] == iir16_feed(y as int, den@, before, ord as int)[k],
            forall|k: int| j <= k < before.len() ==> mem@[k] == before[k],
        decreases ord - j,
    {
        let c: i16 = if j < den.len() {
            den[j]
        } else {
            0
        };
        let p: i32 = mult16_16(neg, c);
        if j + 1 < ord {
            mem[j] = add32(p, mem[j + 1]);
        } else {
            mem[j] = p;
        }
        j = j + 1;
    }
    assert(mem@ =~= iir16_feed(y as int, den@, before, ord as int));
}

/// An all-pole synthesis filter over 16-bit samples.
///
/// The feedback term arrives rounded down from the 32-bit history, and the
/// result saturates to plus or minus 32767.
pub fn iir16(x: &[i16], den: &[i16], n: i32, ord: i32, out: &mut [i16], mem: &mut [i32])
    requires
        n > 0 ==> ord <= old(mem)@.len(),
    ensures
        final(out)@.len() == old(out)@.len(),
        forall|i: int|
            0 <= i < old(out)@.len() ==> #[trigger] final(out)@[i] == if i < n {
                iir16_output(
                    tap16(x@, i),
                    iir16_history(x@, den@, old(mem)@, ord as int, i as nat),
                )
            } else {
                old(out)@[i] as int
            },
        final(mem)@ == iir16_history(
            x@,
            den@,
            old(mem)@,
            ord as int,
            at_least_zero(n as int) as nat,
        ),
{
    let count: usize = if n > 0 {
        n as usize
    } else {
        0
    };
    let ord_u: usize = if ord > 0 {
        ord as usize
    } else {
        0
    };
    let ghost m0 = mem@;
    let ghost o0 = out@;
    let mut i: usize = 0;
    while i < count
        invariant
            i <= count,
            count == at_least_zero(n as int),
            ord_u == at_least_zero(ord as int),
            n > 0 ==> ord <= m0.len(),
            mem@.len() == m0.len(),
            mem@ == iir16_history(x@, den@, m0, ord as int, i as nat),
            out@.len() == o0.len(),
            forall|k: int|
                0 <= k < o0.len() ==> #[trigger] out@[k] == if k < i {
                    iir16_output(tap16(x@, k), iir16_history(x@, den@, m0, ord as int, k as nat))
                } else {
                    o0[k] as int
                },
        decreases count - i,
    {
        let xi: i16 = if i < x.len() {
            x[i]
        } else {
            0
        };
        let m: i32 = if mem.len() > 0 {
            mem[0]
        } else {
            0
        };
        let v: i32 = xi as i32 + asr32(add32(m, 0x1000), 13);
        let y: i16 = if v > SAT_HIGH {
            SAT_HIGH as i16
        } else if v < SAT_LOW {
            SAT_LOW as i16
        } else {
            v as i16
        };
        let ghost was = mem@;
        iir16_advance(y, den, ord_u, mem);
        assert(iir16_feed(y as int, den@, was, ord_u as int) =~= iir16_feed(
            y as int,
            den@,
            was,
            ord as int,
        ));
        if i < out.len() {
            out[i] = y;
        }
        i = i + 1;
    }
}

/// The tap buffer of [`fir2x_run`]: the input newest first and rounded to
/// Q-14, then the saved history, then zeros.
pub open spec fn fir_scratch(x: Seq<i32>, mem: Seq<i32>, n: int, ord: int) -> Seq<i16> {
    let half = at_least_zero(n) / 2;
    let hist = history(ord);
    let slots = if scratch(n, ord) > half + hist {
        scratch(n, ord)
    } else {
        half + hist
    };
    Seq::new(
        slots as nat,
        |k: int|
            if k < half {
                wrap16(wrap32(tap32(x, half - 1 - k) + 0x2000) as int / 0x4000)
            } else if k < half + hist {
                wrap16(tap32(mem, 2 * (k - half) + 1))
            } else {
                0
            },
    )
}

/// The coefficients padded with zeros to whole groups of four.
pub open spec fn fir_taps(coef: Seq<i16>, ord: int) -> Seq<i16> {
    Seq::new(4 * tap_groups(ord), |j: int| tap16(coef, j) as i16)
}

/// The history [`fir2x_run`] leaves.
pub open spec fn fir_history(x: Seq<i32>, mem: Seq<i32>, n: int, ord: int) -> Seq<i32> {
    mem.map(
        |i: int, m: i32|
            if i % 2 == 1 && i / 2 < history(ord) {
                fir_scratch(x, mem, n, ord)[i / 2] as i32
            } else {
                m
            },
    )
}

/// [`fir2x`] with its history kept between calls.
///
/// `mem` holds the history in its odd entries: entry `k` at `2 * k + 1`. The
/// even entries are not touched.
pub fn fir2x_run(x: &[i32], coef: &[i16], out: &mut [i32], n: i32, ord: i32, mem: &mut [i32])
    ensures
        final(out)@.len() == old(out)@.len(),
        forall|o: int|
            0 <= o < old(out)@.len() ==> #[trigger] final(out)@[o] == if n > 0 && o / 4 < (n + 3) / 4 {
                fir_output(
                    fir_scratch(x@, old(mem)@, n as int, ord as int),
                    fir_taps(coef@, ord as int),
                    n as int,
                    ord as int,
                    o,
                )
            } else {
                old(out)@[o]
            },
        final(mem)@ == fir_history(x@, old(mem)@, n as int, ord as int),
{
    let half: usize = if n > 0 {
        (n / 2) as usize
    } else {
        0
    };
    let hist: usize = history_len(ord);
    let wanted: usize = scratch_len(n, ord);
    let slots: usize = if wanted > half + hist {
        wanted
    } else {
        half + hist
    };
    let ghost m0 = mem@;
    let ghost sc = fir_scratch(x@, m0, n as int, ord as int);
    let mut s: Vec<i16> = Vec::new();
    let mut k: usize = 0;
    while k < slots
        invariant
            k <= slots,
            slots == sc.len(),
            half == at_least_zero(n as int) / 2,
            hist == history(ord as int),
            half + hist <= slots,
            half <= 0x4000_0000,
            hist <= 0x4000_0000,
            mem@ == m0,
            sc == fir_scratch(x@, m0, n as int, ord as int),
            s@.len() == k,
            forall|i: int| 0 <= i < k ==> s@[i] == sc[i],
        decreases slots - k,
    {
        let v: i16 = if k < half {
            let xi: i32 = if half - 1 - k < x.len() {
                x[half - 1 - k]
            } else {
                0
            };
            low16(asr32(add32(xi, 0x2000), 14))
        } else if k < half + hist {
            let i: usize = 2 * (k - half) + 1;
            if i < mem.len() {
                low16(mem[i])
            } else {
                0
            }
        } else {
            0
        };
        s.push(v);
        k = k + 1;
    }
    assert(s@ =~= sc);
    let ghost ts = fir_taps(coef@, ord as int);
    let taps: usize = if ord > 0 {
        (((ord as i64 + 3) / 4) * 4) as usize
    } else {
        0
    };
    let mut c: Vec<i16> = Vec::new();
    let mut j: usize = 0;
    while j < taps
        invariant
            j <= taps,
            taps == ts.len(),
            ts == fir_taps(coef@, ord as int),
            c@.len() == j,
            forall|i: int| 0 <= i < j ==> c@[i] == ts[i],
        decreases taps - j,
    {
        c.push(if j < coef.len() {
            coef[j]
        } else {
            0
        });
        j = j + 1;
    }
    assert(c@ =~= ts);
    fir2x(s.as_slice(), c.as_slice(), n, ord, out);
    let mut k: usize = 0;
    while k < hist
        invariant
            k <= hist <= 0x4000_0000,
            hist == history(ord as int),
            hist <= sc.len(),
            s@ == sc,
            mem@.len() == m0.len(),
            forall|i: int|
                0 <= i < m0.len() ==> #[trigger] mem@[i] == if i % 2 == 1 && i / 2 < k {
                    sc[i / 2] as int
                } else {
                    m0[i] as int
                },
        decreases hist - k,
    {
        put(mem, 2 * k + 1, s[k] as i32);
        k = k + 1;
    }
    assert(mem@ =~= fir_history(x@, m0, n as int, ord as int));
}

/// A sample scaled by a Q14 gain: the low seven bits take no part.
pub open spec fn scaled_sample(v: int, scale: int) -> i32 {
    wrap32(wrap32(scale * (v / 128) / 0x4000) * 128)
}

/// Scales a 32-bit signal by a Q14 gain.
pub fn signal_mul(x: &[i32], y: &mut [i32], scale: i32, len: i32)
    ensures
        final(y)@.len() == old(y)@.len(),
        forall|i: int|
            0 <= i < old(y)@.len() ==> #[trigger] final(y)@[i] == if i < len {
                scaled_sample(tap32(x@, i), scale as int)
            } else {
                old(y)@[i]
            },
{
    let count: usize = if len > 0 {
        len as usize
    } else {
        0
    };
    let ghost y0 = y@;
    let mut i: usize = 0;
    while i < count
        invariant
            i <= count,
            count == at_least_zero(len as int),
            y@.len() == y0.len(),
            forall|k: int|
                0 <= k < y0.len() ==> #[trigger] y@[k] == if k < i {
                    scaled_sample(tap32(x@, k), scale as int)
                } else {
                    y0[k]
                },
        decreases count - i,
    {
        let v: i32 = if i < x.len() {
            x[i]
        } else {
            0
        };
        let w: i32 = asr32(v, 7);
        assert(-0x80_0000_0000_0000 <= scale * w <= 0x80_0000_0000_0000) by (nonlinear_arith)
            requires
                -0x8000_0000 <= scale <= 0x7fff_ffff,
                -0x100_0000 <= w <= 0x100_0000,
        ;
        put(y, i, lsl32(low32(asr64(scale as i64 * w as i64, 14)), 7));
        i = i + 1;
    }
}

/// Inputs that differ only in their low seven bits scale alike.
pub proof fn low_seven_bits_do_not_matter(v: int, w: int, scale: int)
    requires
        v / 128 == w / 128,
    ensures
        scaled_sample(v, scale) == scaled_sample(w, scale),
{
}

} // verus!
