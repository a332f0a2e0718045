//! What holds of decoded frames, whatever they hold.
//!
//! A frame is a run of bits, and every law here speaks of the bits at their
//! places in it.
use vstd::prelude::*;
use super::bits::{field_at, width, Cursor};
use super::decoder::{
    adaptive_part, fixed_part, frame_gain, nb_header, nb_ltp, nb_split_cb, nb_stage_cursors,
    past_pitch, past_subframe, zeros32, Voice,
};
use super::filters::scaled_sample;
use super::fixed::{weight, wrap16, wrap32};
use super::innov::{codebook_index, cursor_at, entry, index_at, innovation, voice_codebook};
use super::lsp::stage_cursor;
use super::ltp::{decoded_pitch, decoded_taps, prediction, tap_source};
use super::tables::{gain_codebook, EXC_GAIN_SCAL3, OL_GAIN};

verus! {

/// A cursor with at least `n` bits left.
pub open spec fn has(b: Cursor, n: int) -> bool {
    b.wf() && b.overflow == 0 && b.at() + n <= b.nb_bits
}

/// One read of what is there.
pub(crate) proof fn a_read(b: Cursor, n: nat, left: int)
    requires
        has(b, left),
        0 < n <= left,
        n <= 16,
    ensures
        b.value(n as int) == field_at(b.chars, b.at(), n),
        0 <= b.value(n as int) < weight(n),
        has(b.after(n as int), left - n),
        b.after(n as int).at() == b.at() + n,
        b.after(n as int).chars == b.chars,
        b.after(n as int).nb_bits == b.nb_bits,
{
    field_bounds(b.chars, b.at(), n);
    super::fixed::weight_values();
    super::fixed::weight_monotone(n, 16);
}

pub(crate) proof fn field_bounds(chars: Seq<u8>, p: int, n: nat)
    ensures
        0 <= field_at(chars, p, n) < weight(n),
    decreases n,
{
    if n > 0 {
        field_bounds(chars, p, (n - 1) as nat);
        super::fixed::weight_doubles((n - 1) as nat);
    }
}

/// Where the narrowband stages leave a cursor.
pub(crate) proof fn header_place(voice: Voice, b: Cursor)
    requires
        has(b, 20),
    ensures
        stage_cursor(voice.nb_stages(), b, 3).at() == b.at() + 15,
        stage_cursor(voice.nb_stages(), b, 3).value(5) == field_at(b.chars, b.at() + 15, 5),
        0 <= field_at(b.chars, b.at() + 15, 5) < 32,
        has(stage_cursor(voice.nb_stages(), b, 3), b.nb_bits - b.at() - 15),
        nb_header(voice, b).at() == b.at() + 20,
        nb_header(voice, b).chars == b.chars,
        nb_header(voice, b).nb_bits == b.nb_bits,
        has(nb_header(voice, b), b.nb_bits - b.at() - 20),
{
    let left = b.nb_bits - b.at();
    a_read(b, 7, left);
    let c1 = b.after(7);
    a_read(c1, 4, left - 7);
    let c2 = c1.after(4);
    a_read(c2, 4, left - 11);
    let c3 = c2.after(4);
    a_read(c3, 5, left - 15);
    super::fixed::weight_values();
    nb_stage_cursors(voice, b);
}

/// The frame gain grows with its field, the five bits behind the pairs: a
/// larger field is always louder, by a third for each step, from the smallest
/// gain to the largest.
pub proof fn gains_follow_their_field(voice: Voice, a: Cursor, b: Cursor)
    requires
        has(a, 20),
        has(b, 20),
    ensures
        ({
            let (f, g) = (field_at(a.chars, a.at() + 15, 5), field_at(b.chars, b.at() + 15, 5));
            let (x, y) = (frame_gain(voice, a), frame_gain(voice, b));
            &&& 0 <= f < 32
            &&& f < g ==> 0 < x < y
            &&& f == g ==> x == y
            &&& g == f + 1 ==> 1330 * x <= 1000 * y <= 1332 * x
            &&& f == 0 ==> x == 16384
            &&& f == 31 ==> x == 115088100
        }),
{
    gain_is_rung(voice, a);
    gain_is_rung(voice, b);
    ladder_climbs();
}

proof fn gain_is_rung(voice: Voice, b: Cursor)
    requires
        has(b, 20),
    ensures
        0 <= field_at(b.chars, b.at() + 15, 5) < 32,
        frame_gain(voice, b) == rung(field_at(b.chars, b.at() + 15, 5)),
{
    header_place(voice, b);
    rung_of(field_at(b.chars, b.at() + 15, 5));
}

proof fn rung_of(q: int)
    ensures
        0 <= q < 32 ==> wrap32(28406 * OL_GAIN@[q % 32] / 0x8000) == rung(q),
{
    if 0 <= q < 32 {
        ladder_climbs();
        assert(rung(0) < rung(31));
        assert(0 < rung(q) <= 115088100);
    }
    reveal(rung);
}

/// What gain a field stands for.
#[verifier::opaque]
spec fn rung(q: int) -> int {
    28406 * OL_GAIN@[q] / 0x8000
}

proof fn ladder_climbs()
    ensures
        rung(0) == 16384,
        rung(31) == 115088100,
        forall|i: int, j: int|
            0 <= i < j < 32 ==> 0 < #[trigger] rung(i) < #[trigger] rung(j) <= 115088100,
        forall|i: int, j: int|
            0 <= i < 31 && j == i + 1 ==> 1330 * #[trigger] rung(i) <= 1000 * #[trigger] rung(j)
                <= 1332 * rung(i),
{
    reveal(rung);
}

/// Where the fields of a narrowband subframe lie.
pub(crate) proof fn subframe_place(b: Cursor, left: int)
    requires
        has(b, left),
        65 <= left,
    ensures
        b.value(7) == field_at(b.chars, b.at(), 7),
        b.after(7).value(7) == field_at(b.chars, b.at() + 7, 7),
        past_pitch(b).value(3) == field_at(b.chars, b.at() + 14, 3),
        past_pitch(b).after(3).at() == b.at() + 17,
        past_pitch(b).after(3).chars == b.chars,
        has(past_pitch(b).after(3), left - 17),
        past_subframe(b).at() == b.at() + 65,
        past_subframe(b).chars == b.chars,
        past_subframe(b).nb_bits == b.nb_bits,
        has(past_subframe(b), left - 65),
        0 <= field_at(b.chars, b.at(), 7) < 128,
        0 <= field_at(b.chars, b.at() + 7, 7) < 128,
        0 <= field_at(b.chars, b.at() + 14, 3) < 8,
{
    super::fixed::weight_values();
    a_read(b, 7, left);
    a_read(b.after(7), 7, left - 7);
    a_read(past_pitch(b), 3, left - 14);
    index_place(nb_split_cb(), past_pitch(b).after(3), 8, 6, left - 17);
}

/// Where the indices of a codebook's shapes lie.
pub(crate) proof fn index_place(par: super::innov::SplitCbParams, b: Cursor, i: nat, w: nat, left: int)
    requires
        !par.have_sign,
        par.shape_bits == w,
        0 < w <= 16,
        has(b, left),
        i * w <= left,
    ensures
        cursor_at(par, b, i).at() == b.at() + i * w,
        cursor_at(par, b, i).chars == b.chars,
        cursor_at(par, b, i).nb_bits == b.nb_bits,
        has(cursor_at(par, b, i), left - i * w),
        (i + 1) * w <= left ==> index_at(par, b, i as int) == field_at(b.chars, b.at() + i * w, w),
        (i + 1) * w <= left ==> 0 <= index_at(par, b, i as int) < weight(w),
    decreases i,
{
    assert((i + 1) * w == i * w + w) by (nonlinear_arith);
    assert(i * w >= 0) by (nonlinear_arith);
    assert(width(par.shape_bits) == w);
    if i > 0 {
        let m = (i - 1) as nat;
        assert(i * w == m * w + w && m * w >= 0) by (nonlinear_arith)
            requires
                i == m + 1,
        ;
        assert((m + 1) * w == i * w);
        index_place(par, b, m, w, left);
        a_read(cursor_at(par, b, m), w, left - m * w);
    } else {
        assert(0 * w == 0) by (nonlinear_arith);
    }
    if (i + 1) * w <= left {
        a_read(cursor_at(par, b, i), w, left - i * w);
    }
}

/// The entry of a codebook, or zero where it has none.
pub open spec fn shape_byte(cb: Seq<i8>, k: int) -> int {
    if 0 <= k < cb.len() {
        cb[k] as int
    } else {
        0
    }
}

/// The fixed part of a subframe is made of shapes: five samples for each
/// six-bit index, out of the sixty-four entries of the frame's context, scaled
/// by the frame's gain and by the correction that the three bits before the
/// indices choose.
pub proof fn shapes_come_from_their_context(
    voice: Voice,
    ctx: u8,
    gain: int,
    b: Cursor,
    o: int,
)
    requires
        has(b, 65),
        0 <= o < 40,
        0 <= gain <= 115088100,
        4 <= voice.nb_innov_log2 <= 14,
    ensures
        ({
            let idx = field_at(b.chars, b.at() + 17 + 6 * (o / 5), 6);
            let shape = shape_byte(voice.nb_innov@, 5 * (64 * ctx + idx) + o % 5) * weight(
                (14 - voice.nb_innov_log2) as nat,
            );
            let ener = gain * correction(field_at(b.chars, b.at() + 14, 3)) / 0x4000;
            fixed_part(voice, ctx, gain, b)[o] == 128 * (ener * (shape / 128) / 0x4000)
        }),
{
    subframe_place(b, 65);
    let c = past_pitch(b).after(3);
    shape_taken(voice, ctx, c, o);
    energy_of(voice, ctx, gain, b, o);
    assert(c.at() + 6 * (o / 5) == b.at() + 17 + 6 * (o / 5));
}

/// The fixed part is the innovation, scaled.
proof fn energy_of(voice: Voice, ctx: u8, gain: int, b: Cursor, o: int)
    requires
        0 <= o < 40,
        0 <= gain <= 115088100,
        past_pitch(b).value(3) < 8,
        ({
            let v = innovation(
                voice.nb_cbk(),
                ctx,
                nb_split_cb(),
                past_pitch(b).after(3),
                zeros32(40),
            )[o];
            -0x2_0000 <= v <= 0x2_0000
        }),
    ensures
        ({
            let v = innovation(
                voice.nb_cbk(),
                ctx,
                nb_split_cb(),
                past_pitch(b).after(3),
                zeros32(40),
            )[o];
            let ener = gain * correction(past_pitch(b).value(3) as int) / 0x4000;
            fixed_part(voice, ctx, gain, b)[o] == 128 * (ener * (v as int / 128) / 0x4000)
        }),
{
    let q = past_pitch(b).value(3) as int;
    let v = innovation(
        voice.nb_cbk(),
        ctx,
        nb_split_cb(),
        past_pitch(b).after(3),
        zeros32(40),
    )[o];
    correction_bounds(gain, q);
    scaling_is_exact(v as int, gain * correction(q) / 0x4000);
}

proof fn correction_bounds(gain: int, q: int)
    requires
        0 <= gain <= 115088100,
        0 <= q < 8,
    ensures
        0 < correction(q) <= 21740,
        0 <= gain * correction(q) / 0x4000 <= 152711760,
        wrap32(gain * EXC_GAIN_SCAL3@[q % 8] / 0x4000) == gain * correction(q) / 0x4000,
{
    corrections();
    let x = correction(q);
    assert(0 < x <= 21740);
    assert(0 <= gain * x <= 115088100 * 21740) by (nonlinear_arith)
        requires
            0 <= gain <= 115088100,
            0 < x <= 21740,
    ;
    in_range(gain * x / 0x4000);
    assert(q % 8 == q);
    reveal(correction);
}

proof fn shape_taken(voice: Voice, ctx: u8, c: Cursor, o: int)
    requires
        has(c, 48),
        0 <= o < 40,
        4 <= voice.nb_innov_log2 <= 14,
    ensures
        ({
            let idx = field_at(c.chars, c.at() + 6 * (o / 5), 6);
            let k = 5 * (64 * ctx + idx) + o % 5;
            let v = innovation(voice.nb_cbk(), ctx, nb_split_cb(), c, zeros32(40))[o];
            &&& v == shape_byte(voice.nb_innov@, k) * weight((14 - voice.nb_innov_log2) as nat)
            &&& -0x2_0000 <= v <= 0x2_0000
        }),
{
    let par = nb_split_cb();
    let i = o / 5;
    index_place(par, c, i as nat, 6, 48);
    let idx = field_at(c.chars, c.at() + 6 * i, 6);
    assert(c.at() + i * 6 == c.at() + 6 * i);
    super::fixed::weight_values();
    let ind = Seq::new(par.nb_subvect as nat, |i: int| index_at(par, c, i));
    assert(ind[i] == idx);
    assert(0 <= idx < 64);
    assert(entry(ind, o / 5) == idx);
    assert(idx * 5 + o % 5 < 0x1_0000_0000);
    codebook_place(par, ind, o, idx);
    let from = 5 * (weight(6) * ctx);
    assert(from == 320 * ctx);
    fits_word(from);
    let cb = voice_codebook(voice.nb_cbk(), par.shape_bits, ctx);
    let k = 5 * (64 * ctx + idx) + o % 5;
    assert(k == from + 5 * idx + o % 5);
    let w = weight((14 - voice.nb_innov_log2) as nat);
    super::fixed::weight_monotone((14 - voice.nb_innov_log2) as nat, 10);
    small_weight((14 - voice.nb_innov_log2) as nat);
    let e = shape_byte(voice.nb_innov@, k);
    assert(-0x2_0000 <= e * w <= 0x2_0000) by (nonlinear_arith)
        requires
            -128 <= e <= 127,
            0 < w <= 1024,
    ;
    assert((14 - voice.nb_innov_log2) % 256 == 14 - voice.nb_innov_log2);
    if k < voice.nb_innov@.len() {
        assert(cb[5 * idx + o % 5] == voice.nb_innov@[k]);
    } else {
        assert(0 * w == 0);
    }
}

proof fn codebook_place(par: super::innov::SplitCbParams, ind: Seq<u32>, o: int, idx: int)
    requires
        par.subvect_size == 5,
        0 <= o,
        entry(ind, o / 5) == idx,
        0 <= idx < 64,
    ensures
        codebook_index(par, ind, o) == 5 * idx + o % 5,
        o / par.subvect_size as int == o / 5,
{
    let s = par.subvect_size as int;
    assert(o / s == o / 5 && o % s == o % 5) by (nonlinear_arith)
        requires
            s == 5,
    ;
    fits_word(5 * idx + o % 5);
}

/// A small number is a word.
pub(crate) proof fn fits_word(x: int)
    requires
        0 <= x <= 0xffff_ffff,
    ensures
        super::innov::wrap_usize(x) == x,
{
    vstd::arithmetic::div_mod::lemma_small_mod(x as nat, (usize::MAX + 1) as nat);
}

pub(crate) proof fn small_weight(n: nat)
    ensures
        weight(n) > 0,
    decreases n,
{
    if n > 0 {
        small_weight((n - 1) as nat);
    }
}

proof fn scaling_is_exact(v: int, ener: int)
    requires
        -0x2_0000 <= v <= 0x2_0000,
        0 <= ener <= 152711760,
    ensures
        scaled_sample(v, ener) == 128 * (ener * (v / 128) / 0x4000),
        -152711760 * 1024 <= ener * (v / 128) <= 152711760 * 1024,
{
    let a = v / 128;
    assert(-1024 <= a <= 1024);
    let p = ener * a;
    assert(-152711760 * 1024 <= p <= 152711760 * 1024) by (nonlinear_arith)
        requires
            -1024 <= a <= 1024,
            0 <= ener <= 152711760,
            p == ener * a,
    ;
    in_range(p / 0x4000);
    in_range(p / 0x4000 * 128);
}

/// A number that fits does not wrap.
pub(crate) proof fn in_range(x: int)
    requires
        i32::MIN <= x <= i32::MAX,
    ensures
        wrap32(x) == x,
{
}

/// A louder frame is nowhere quieter: of two frames that differ only in their
/// gain, the one with the larger has at every sample of a subframe's fixed part
/// the same sign and at least the size.
pub proof fn louder_frames_are_nowhere_quieter(
    voice: Voice,
    ctx: u8,
    low: int,
    high: int,
    b: Cursor,
    o: int,
)
    requires
        has(b, 65),
        0 <= o < 40,
        0 <= low <= high <= 115088100,
        4 <= voice.nb_innov_log2 <= 14,
    ensures
        ({
            let (x, y) = (
                fixed_part(voice, ctx, low, b)[o],
                fixed_part(voice, ctx, high, b)[o],
            );
            0 <= x <= y || y <= x <= 0
        }),
{
    shapes_come_from_their_context(voice, ctx, low, b, o);
    shapes_come_from_their_context(voice, ctx, high, b, o);
    let q = field_at(b.chars, b.at() + 14, 3);
    subframe_place(b, 65);
    correction_bounds(low, q);
    let s = correction(q);
    assert(low * s <= high * s) by (nonlinear_arith)
        requires
            low <= high,
            0 < s,
    ;
    let (e1, e2) = (low * s / 0x4000, high * s / 0x4000);
    let idx = field_at(b.chars, b.at() + 17 + 6 * (o / 5), 6);
    let a = shape_byte(voice.nb_innov@, 5 * (64 * ctx + idx) + o % 5) * weight(
        (14 - voice.nb_innov_log2) as nat,
    ) / 128;
    assert(0 <= e1 <= e2);
    if a >= 0 {
        assert(0 <= e1 * a <= e2 * a) by (nonlinear_arith)
            requires
                0 <= e1 <= e2,
                a >= 0,
        ;
    } else {
        assert(e2 * a <= e1 * a <= 0) by (nonlinear_arith)
            requires
                0 <= e1 <= e2,
                a < 0,
        ;
    }
}

/// The corrections of a subframe's gain grow with their field, around one:
/// fields up to six quieten, to less than a sixteenth, and the last makes
/// louder.
pub proof fn corrections_follow_their_field(i: int, j: int)
    requires
        0 <= i < j < 8,
    ensures
        0 < correction(i) < correction(j),
        correction(6) < 0x4000 < correction(7),
        16 * correction(0) < 0x4000 < 17 * correction(0),
{
    corrections();
}

/// The correction of a subframe's gain that a field stands for, in Q14.
#[verifier::opaque]
pub open spec fn correction(q: int) -> int {
    EXC_GAIN_SCAL3@[q] as int
}

proof fn corrections()
    ensures
        correction(0) == 1002,
        correction(1) == 2680,
        correction(2) == 5086,
        correction(3) == 7016,
        correction(4) == 9108,
        correction(5) == 11781,
        correction(6) == 15380,
        correction(7) == 21740,
{
    reveal(correction);
}

/// One of the three taps of an entry of the pitch gain codebook.
pub open spec fn pitch_tap(idx: int, k: int) -> int {
    32 + gain_codebook()[4 * idx + k]
}

/// The adaptive part of a subframe repeats the excitation: each sample is a
/// weighted sum of the three around the one a pitch period earlier. The period
/// is seventeen samples and as many more as the subframe's first field says, the
/// weights are those of the entry that its second field chooses, and past the
/// period the samples two periods earlier stand in.
pub proof fn predictions_look_one_period_back(exc: Seq<i16>, b: Cursor, sub: int, i: int)
    requires
        exc.len() == 500,
        has(b, 65),
        0 <= sub < 4,
        0 <= i < 40,
    ensures
        ({
            let p = 17 + field_at(b.chars, b.at(), 7);
            let idx = field_at(b.chars, b.at() + 7, 7);
            let now = 334 + 40 * sub + i;
            let at = if i < p - 1 {
                now - p
            } else {
                now - 2 * p
            };
            &&& 17 <= p <= 144
            &&& i < p - 1 || p + 1 <= i < 2 * p - 1 ==> adaptive_part(exc, b, sub)[i] == wrap32(
                128 * (pitch_tap(idx, 2) * exc[at - 1] + pitch_tap(idx, 1) * exc[at] + pitch_tap(
                    idx,
                    0,
                ) * exc[at + 1]),
            )
            &&& i >= 2 * p + 1 ==> adaptive_part(exc, b, sub)[i] == 0
        }),
{
    subframe_place(b, 65);
    let p = 17 + field_at(b.chars, b.at(), 7);
    let idx = field_at(b.chars, b.at() + 7, 7);
    let n = 334 + 40 * sub;
    let hist = exc.subrange(0, n);
    assert(width(nb_ltp().pitch_bits) == 7);
    assert(decoded_pitch(17, nb_ltp(), b) == p);
    assert(wrap32(40) == 40);
    let g = decoded_taps(nb_ltp(), gain_codebook(), b, 0);
    taps_taken(b, idx);
    prediction_sum(hist, p, g, i);
    sources(exc, n, p, i);
    let (x, y, z) = (
        tap_source(hist, p, 40, 0, i),
        tap_source(hist, p, 40, 1, i),
        tap_source(hist, p, 40, 2, i),
    );
    assert(adaptive_part(exc, b, sub)[i] == wrap32(
        128 * (pitch_tap(idx, 2) * x + pitch_tap(idx, 1) * y + pitch_tap(idx, 0) * z),
    ));
    if i >= 2 * p + 1 {
        assert(pitch_tap(idx, 2) * 0 + pitch_tap(idx, 1) * 0 + pitch_tap(idx, 0) * 0 == 0);
    }
}

/// The taps that an index chooses.
proof fn taps_taken(b: Cursor, idx: int)
    requires
        b.after(7).value(7) == idx,
        0 <= idx < 128,
    ensures
        ({
            let g = decoded_taps(nb_ltp(), gain_codebook(), b, 0);
            g[0] == pitch_tap(idx, 0) && g[1] == pitch_tap(idx, 1) && g[2] == pitch_tap(idx, 2)
        }),
{
    super::fixed::weight_values();
    super::tables::codebook_has_its_length();
    assert(width(nb_ltp().pitch_bits) == 7 && width(nb_ltp().gain_bits) == 7);
    assert(0 * weight(7) == 0);
    fits_word(4 * idx);
    assert(super::ltp::entry_index(0, 7, idx) == 4 * idx);
}

/// The three products of a prediction.
proof fn prediction_sum(hist: Seq<i16>, p: int, g: Seq<i16>, i: int)
    requires
        -128 <= g[0] <= 160,
        -128 <= g[1] <= 160,
        -128 <= g[2] <= 160,
    ensures
        prediction(hist, p, g, 40, i, 3) == 128 * (g[2] * tap_source(hist, p, 40, 0, i) + g[1]
            * tap_source(hist, p, 40, 1, i) + g[0] * tap_source(hist, p, 40, 2, i)),
{
    reveal_with_fuel(prediction, 4);
    let (x, y, z) = (
        tap_source(hist, p, 40, 0, i),
        tap_source(hist, p, 40, 1, i),
        tap_source(hist, p, 40, 2, i),
    );
    let (t0, t1, t2) = (g[0] as int, g[1] as int, g[2] as int);
    assert(wrap16(t0 * 128) == t0 * 128 && wrap16(t1 * 128) == t1 * 128 && wrap16(t2 * 128) == t2
        * 128);
    assert((t2 * 128) * x + (t1 * 128) * y + (t0 * 128) * z == 128 * (t2 * x + t1 * y + t0 * z))
        by (nonlinear_arith);
}

/// The samples that a prediction weighs.
proof fn sources(exc: Seq<i16>, n: int, p: int, i: int)
    requires
        334 <= n <= exc.len(),
        17 <= p <= 144,
        0 <= i < 40,
    ensures
        ({
            let hist = exc.subrange(0, n);
            let at = if i < p - 1 {
                n + i - p
            } else {
                n + i - 2 * p
            };
            &&& i < p - 1 || p + 1 <= i < 2 * p - 1 ==> {
                &&& tap_source(hist, p, 40, 0, i) == exc[at - 1]
                &&& tap_source(hist, p, 40, 1, i) == exc[at]
                &&& tap_source(hist, p, 40, 2, i) == exc[at + 1]
            }
            &&& i >= 2 * p + 1 ==> {
                &&& tap_source(hist, p, 40, 0, i) == 0
                &&& tap_source(hist, p, 40, 1, i) == 0
                &&& tap_source(hist, p, 40, 2, i) == 0
            }
        }),
{
    in_range(p + 1);
    in_range(p);
    in_range(p - 1);
    in_range(2 * p + 1);
    in_range(2 * p);
    in_range(2 * p - 1);
}

} // verus!
