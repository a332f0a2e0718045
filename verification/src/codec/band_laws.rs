//! What holds of the high band and of the two bands together.
use vstd::prelude::*;
use super::bits::{field_at, Cursor};
use super::decoder::{
    band_edge, band_ratio, high_gain, nb_header, past_nb_frame, rounded_quotient, sb_cursor,
    sb_pairs, sb_split_cb, sb_stage_cursors, zeros32, SbState, Voice,
};
use super::filters::scaled_sample;
use super::fixed::{weight, wrap16};
use super::innov::{codebook_index, entry, index_at, innovation, voice_codebook};
use super::frame_laws::subframe_starts;
use super::laws::{
    a_read, fits_word, has, header_place, in_range, index_place, shape_byte, small_weight,
};
use super::lsp::stage_cursor;
use super::math::{level, trunc_div};
use super::sb::combined;
use super::tables::GC_QUANT_BOUND;

verus! {

/// Where the high band of a frame lies.
proof fn high_places(voice: Voice, b: Cursor, s: nat)
    requires
        has(b, 384),
        s <= 4,
    ensures
        ({
            let b1 = past_nb_frame(voice, b);
            let c = sb_cursor(stage_cursor(voice.sb_stages(), b1, 2), s);
            &&& b1.at() == b.at() + 280
            &&& b1.chars == b.chars
            &&& has(b1, 104)
            &&& c.at() == b.at() + 288 + 24 * s
            &&& c.chars == b.chars
            &&& has(c, 96 - 24 * s)
        }),
{
    header_place(voice, b);
    let h = nb_header(voice, b);
    let left = b.nb_bits - b.at() - 20;
    subframe_starts(h, 4, left);
    let b1 = past_nb_frame(voice, b);
    a_read(b1, 5, left - 260);
    a_read(b1.after(5), 3, left - 265);
    sb_stage_cursors(voice, b1);
    high_starts(stage_cursor(voice.sb_stages(), b1, 2), s, left - 268);
}

proof fn high_starts(b: Cursor, n: nat, left: int)
    requires
        has(b, left),
        24 * n <= left,
    ensures
        sb_cursor(b, n).at() == b.at() + 24 * n,
        sb_cursor(b, n).chars == b.chars,
        sb_cursor(b, n).nb_bits == b.nb_bits,
        has(sb_cursor(b, n), left - 24 * n),
    decreases n,
{
    if n > 0 {
        let m = (n - 1) as nat;
        high_starts(b, m, left);
        let c = sb_cursor(b, m);
        a_read(c, 4, left - 24 * m);
        index_place(sb_split_cb(), c.after(4), 4, 5, left - 24 * m - 4);
    }
}

/// The shape of a high-band sample: ten samples for each five-bit index, out of
/// the thirty-two entries of the frame's context.
proof fn high_shape(voice: Voice, ctx: u8, c: Cursor, o: int)
    requires
        has(c, 20),
        0 <= o < 40,
        4 <= voice.sb_innov_log2 <= 14,
    ensures
        ({
            let idx = field_at(c.chars, c.at() + 5 * (o / 10), 5);
            innovation(voice.sb_cbk(), ctx, sb_split_cb(), c, zeros32(40))[o] == shape_byte(
                voice.sb_innov@,
                10 * (32 * ctx + idx) + o % 10,
            ) * weight((14 - voice.sb_innov_log2) as nat)
        }),
{
    let par = sb_split_cb();
    let i = o / 10;
    index_place(par, c, i as nat, 5, 20);
    let idx = field_at(c.chars, c.at() + 5 * i, 5);
    assert(c.at() + i * 5 == c.at() + 5 * i);
    super::fixed::weight_values();
    let ind = Seq::new(par.nb_subvect as nat, |i: int| index_at(par, c, i));
    assert(ind[i] == idx);
    assert(entry(ind, o / 10) == idx);
    assert(0 <= idx < 32);
    let s = par.subvect_size as int;
    assert(o / s == o / 10 && o % s == o % 10) by (nonlinear_arith)
        requires
            s == 10,
    ;
    fits_word(10 * idx + o % 10);
    assert(idx * s == 10 * idx) by (nonlinear_arith)
        requires
            s == 10,
    ;
    assert(codebook_index(par, ind, o) == 10 * idx + o % 10);
    let t = par.nb_subvect as int;
    assert(t * s == 40) by (nonlinear_arith)
        requires
            s == 10,
            t == 4,
    ;
    let from = 10 * (weight(5) * ctx);
    assert(from == 320 * ctx);
    fits_word(from);
    let cb = voice_codebook(voice.sb_cbk(), par.shape_bits, ctx);
    let k = 10 * (32 * ctx + idx) + o % 10;
    let w = weight((14 - voice.sb_innov_log2) as nat);
    super::fixed::weight_monotone((14 - voice.sb_innov_log2) as nat, 10);
    small_weight((14 - voice.sb_innov_log2) as nat);
    let e = shape_byte(voice.sb_innov@, k);
    assert(-0x2_0000 <= e * w <= 0x2_0000) by (nonlinear_arith)
        requires
            -128 <= e <= 127,
            0 < w <= 1024,
    ;
    assert((14 - voice.sb_innov_log2) % 256 == 14 - voice.sb_innov_log2);
    if k < voice.sb_innov@.len() {
        assert(cb[10 * idx + o % 10] == voice.sb_innov@[k]);
    } else {
        assert(0 * w == 0);
    }
}

/// The high band's excitation: each subframe has twenty-four bits behind the
/// frame's first 288, four of them for its gain and five for each of its four
/// shapes. Its gain follows from that field, from the level of the low band's
/// excitation in the same subframe, and from where the two filters meet.
pub proof fn high_shapes_come_from_their_context(
    st: SbState,
    voice: Voice,
    ctx: u8,
    b: Cursor,
    s: int,
    o: int,
)
    requires
        st.wf(),
        has(b, 384),
        0 <= s < 4,
        0 <= o < 40,
        4 <= voice.sb_innov_log2 <= 14,
    ensures
        ({
            let f = st.frame(voice, ctx, b);
            let at = b.at() + 288 + 24 * s;
            let idx = field_at(b.chars, at + 4 + 5 * (o / 10), 5);
            let shape = shape_byte(voice.sb_innov@, 10 * (32 * ctx + idx) + o % 10) * weight(
                (14 - voice.sb_innov_log2) as nat,
            );
            let now = f.low.exc.subrange(334 + 40 * s, 494);
            let gain = high_gain(
                band_edge(f.low.lpc_at(s), 5) as int,
                band_edge(f.lpc_at(s), 4) as int,
                field_at(b.chars, at, 4),
                level(now, 40),
            );
            f.parts[s][o] == scaled_sample(shape, gain as int)
        }),
{
    reveal(SbState::frame);
    let f = st.frame(voice, ctx, b);
    high_places(voice, b, s as nat);
    let b2 = stage_cursor(voice.sb_stages(), past_nb_frame(voice, b), 2);
    let c = sb_cursor(b2, s as nat);
    a_read(c, 4, 96 - 24 * s);
    high_shape(voice, ctx, c.after(4), o);
    let low_len = f.low.exc.len();
    super::frame_laws::frame_has_its_length(st.low, voice, ctx, b);
    assert(f.low.exc.subrange(334, 494).subrange(40 * s, 160) =~= f.low.exc.subrange(
        334 + 40 * s,
        494,
    ));
}

/// The gain of the high band grows with its field and with the level of the low
/// band, and each step of the field is heard.
pub proof fn high_gains_follow_their_field(
    low_edge: int,
    high_edge: int,
    i: int,
    j: int,
    quiet: int,
    loud: int,
)
    requires
        0 <= i <= j < 16,
        0 <= quiet <= loud <= 1000,
        band_ratio(low_edge, high_edge) >= 64,
    ensures
        0 <= high_gain(low_edge, high_edge, i, quiet) <= high_gain(low_edge, high_edge, j, loud),
        band_ratio(low_edge, high_edge) <= 200 && i < j ==> high_gain(low_edge, high_edge, i, quiet)
            < high_gain(low_edge, high_edge, j, loud),
{
    steps();
    let r = band_ratio(low_edge, high_edge) as int;
    gain_is(low_edge, high_edge, i, quiet);
    gain_is(low_edge, high_edge, j, loud);
    let (x, y) = ((high_step(i) * 256 + r / 2) / r, (high_step(j) * 256 + r / 2) / r);
    assert(high_step(i) <= high_step(j));
    vstd::arithmetic::div_mod::lemma_div_is_ordered(
        high_step(i) * 256 + r / 2,
        high_step(j) * 256 + r / 2,
        r,
    );
    vstd::arithmetic::div_mod::lemma_div_pos_is_pos(high_step(i) * 256 + r / 2, r);
    assert(0 <= x * (quiet + 1) <= y * (loud + 1)) by (nonlinear_arith)
        requires
            0 <= x <= y,
            0 <= quiet <= loud,
    ;
    if r <= 200 && i < j {
        let d = high_step(j) * 256 - high_step(i) * 256;
        assert(d >= 200);
        vstd::arithmetic::div_mod::lemma_fundamental_div_mod(high_step(i) * 256 + r / 2, r);
        vstd::arithmetic::div_mod::lemma_fundamental_div_mod(high_step(j) * 256 + r / 2, r);
        vstd::arithmetic::div_mod::lemma_mod_bound(high_step(i) * 256 + r / 2, r);
        vstd::arithmetic::div_mod::lemma_mod_bound(high_step(j) * 256 + r / 2, r);
        assert(x < y) by (nonlinear_arith)
            requires
                r * x <= high_step(i) * 256 + r / 2,
                high_step(j) * 256 + r / 2 < r * y + r,
                high_step(j) * 256 >= high_step(i) * 256 + r,
                r > 0,
        ;
        assert(x * (quiet + 1) < y * (loud + 1)) by (nonlinear_arith)
            requires
                0 <= x < y,
                0 <= quiet <= loud,
        ;
    }
}

/// The step of the high band's gain that a field stands for.
#[verifier::opaque]
pub open spec fn high_step(q: int) -> int {
    28626 * GC_QUANT_BOUND@[q] / 0x8000
}

/// The steps rise by a third and a little less, from the first to the last.
pub proof fn steps()
    ensures
        high_step(0) == 109,
        high_step(15) == 6314,
        forall|i: int, j: int|
            0 <= i < j < 16 ==> 109 <= #[trigger] high_step(i) < #[trigger] high_step(j) <= 6314,
        forall|i: int, j: int|
            0 <= i < 15 && j == i + 1 ==> 1300 * #[trigger] high_step(i) <= 1000
                * #[trigger] high_step(j) <= 1320 * high_step(i),
{
    reveal(high_step);
}

proof fn gain_is(low_edge: int, high_edge: int, q: int, level: int)
    requires
        0 <= q < 16,
        0 <= level <= 1000,
        band_ratio(low_edge, high_edge) >= 64,
    ensures
        ({
            let r = band_ratio(low_edge, high_edge) as int;
            let x = (high_step(q) * 256 + r / 2) / r;
            &&& 0 <= x <= 25300
            &&& high_gain(low_edge, high_edge, q, level) == 64 * (x * (level + 1))
        }),
{
    steps();
    if q > 0 {
        assert(high_step(0) < high_step(q));
    }
    if q < 15 {
        assert(high_step(q) < high_step(15));
    }
    let g = high_step(q);
    assert(109 <= g <= 6314);
    let r = band_ratio(low_edge, high_edge) as int;
    assert(q % 16 == q);
    assert(g == 28626 * GC_QUANT_BOUND@[q] / 0x8000) by {
        reveal(high_step);
    }
    in_range(g);
    assert(wrap16(g) == g);
    let n = g * 256 + r / 2;
    in_range(n);
    let x = n / r;
    vstd::arithmetic::div_mod::lemma_fundamental_div_mod(n, r);
    vstd::arithmetic::div_mod::lemma_mod_bound(n, r);
    vstd::arithmetic::div_mod::lemma_div_pos_is_pos(n, r);
    assert(x <= 25300) by (nonlinear_arith)
        requires
            r * x <= n,
            n <= 6314 * 256 + r / 2,
            r >= 64,
    ;
    assert(trunc_div(n, r) == x);
    assert(rounded_quotient(g * 256, r) == x);
    in_range(level + 1);
    assert(0 <= x * (level + 1) <= 25300 * 1001) by (nonlinear_arith)
        requires
            0 <= x <= 25300,
            0 <= level <= 1000,
    ;
    in_range(x * (level + 1));
    in_range(64 * (x * (level + 1)));
}

/// The high band runs one subframe behind as well: its last subframe is carried
/// over to the next frame, whose filters start with it.
pub proof fn high_band_runs_behind(st: SbState, voice: Voice, c1: u8, b1: Cursor, c2: u8, b2: Cursor)
    requires
        st.wf(),
    ensures
        ({
            let f = st.frame(voice, c1, b1);
            let next = st.after(f).frame(voice, c2, b2);
            &&& f.feed(0) == st.exc
            &&& f.feed(1) == f.parts[0]
            &&& f.feed(2) == f.parts[1]
            &&& f.feed(3) == f.parts[2]
            &&& next.feed(0) == f.parts[3]
            &&& next.old_lsp == f.new_lsp
            &&& f.new_lsp == sb_pairs(voice, c1, past_nb_frame(voice, b1))
            &&& next.mem == f.mem_at(4)
            &&& st.first ==> f.old_lsp == f.new_lsp
            &&& f.low == st.low.frame(voice, c1, b1)
            &&& next.low == st.low.after(f.low).frame(voice, c2, b2)
        }),
{
    reveal(SbState::frame);
    reveal(SbState::after);
}

/// The two bands are told apart by their sign: the low one is added and the high
/// one taken away, and the difference is rounded to the nearest and kept between
/// the two largest samples of equal size.
pub proof fn bands_are_told_apart(lo: int, hi: int)
    requires
        -0x3000_0000 <= lo <= 0x3000_0000,
        -0x3000_0000 <= hi <= 0x3000_0000,
    ensures
        -32767 <= combined(lo, hi) <= 32767,
        -32767 < combined(lo, hi) < 32767 ==> -0x1000 <= 0x2000 * combined(lo, hi) - (lo - hi)
            <= 0x1000,
        combined(lo, hi) == 32767 ==> lo - hi >= 0x2000 * 32767 - 0x1000,
        combined(lo, hi) == -32767 ==> lo - hi <= 0x2000 * -32766 - 0x1000,
        combined(0, 0) == 0,
{
    in_range(lo - hi + 0x1000);
}

} // verus!
