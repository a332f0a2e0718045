//! What holds of a frame as a whole: its pairs, its excitation and the two bands
//! that come of it.
use vstd::prelude::*;
use super::bits::{field_at, width, Cursor};
use super::decoder::{
    adaptive_part, band_edge, excited, excited_once, fixed_part, frame_gain, lagged_exc, nb_cursor,
    nb_header, nb_pairs, sb_pairs, slid, subframe_lpc, zeros16, NbFrame, NbState, Voice,
};
use super::filters::{iir16_history, iir16_output, tap16};
use super::fixed::{weight, wrap16};
use super::innov::shifted;
use super::laws::{
    a_read, fits_word, has, header_place, in_range, shape_byte, small_weight, subframe_place,
};
use super::lpc::coefficient;
use super::lsp::{
    blend_weight, blended, ladder, margin_enforced, refined, stage_byte, stage_cursor, staged,
    LspStage,
};
use super::nb::folded;

verus! {

/// A stage's byte is the entry of its context and index.
proof fn byte_taken(st: LspStage, ctx: u8, id: u32, i: int)
    requires
        1 <= st.count <= 10,
        1 <= st.nbits <= 7,
        id < weight(st.nbits as nat),
        0 <= i < st.count,
    ensures
        stage_byte(st, ctx, id, i) == shape_byte(
            st.cb@,
            st.count * (weight(st.nbits as nat) * ctx + id) + i,
        ),
{
    let w = weight(st.nbits as nat);
    let (c, k) = (st.count as int, id as int);
    super::fixed::weight_values();
    super::fixed::weight_monotone(st.nbits as nat, 7);
    small_weight(st.nbits as nat);
    assert(0 <= c * ctx * w <= 10 * 255 * 128) by (nonlinear_arith)
        requires
            1 <= c <= 10,
            0 <= ctx <= 255,
            0 < w <= 128,
    ;
    assert(c * (w * ctx + k) == c * ctx * w + k * c) by (nonlinear_arith);
    assert(0 <= k * c <= 128 * 10) by (nonlinear_arith)
        requires
            0 <= k < w,
            0 < w <= 128,
            1 <= c <= 10,
    ;
    in_range(c * ctx * w);
    assert(st.nbits as int % 256 == st.nbits);
    assert(shifted(c * ctx, st.nbits as int) == c * ctx * w);
    assert(super::lsp::stage_offset(st, ctx) == c * ctx * w);
    fits_word(k * c + i);
}

/// A stage adds its bytes to the pairs it refines and leaves the others.
proof fn refined_pairs(lsp: Seq<i16>, st: LspStage, ctx: u8, id: u32, n: nat, k: int)
    requires
        0 <= k < lsp.len() <= 16,
        st.start + st.count <= lsp.len(),
        n <= st.count,
    ensures
        refined(lsp, st, ctx, id, n).len() == lsp.len(),
        refined(lsp, st, ctx, id, n)[k] == if st.start <= k < st.start + n {
            wrap16(
                lsp[k] + shifted(stage_byte(st, ctx, id, k - st.start) as int, st.shift as int),
            )
        } else {
            lsp[k]
        },
    decreases n,
{
    if n > 0 {
        refined_pairs(lsp, st, ctx, id, (n - 1) as nat, k);
        fits_word(st.start + n - 1);
        if st.start + n - 1 < lsp.len() {
            refined_pairs(lsp, st, ctx, id, (n - 1) as nat, st.start + n - 1);
        }
    }
}

proof fn scaled_byte(c: i8, shift: u32)
    requires
        shift == 4 || shift == 5,
    ensures
        shifted(c as int, shift as int) == if shift == 5 {
            32 * c
        } else {
            16 * c
        },
{
    super::fixed::weight_values();
}

proof fn narrow_stages(voice: Voice, ctx: u8, b: Cursor)
    ensures
        ({
            let st = voice.nb_stages();
            let (c1, c2) = (b.after(7), b.after(7).after(4));
            nb_pairs(voice, ctx, b) == refined(
                refined(
                    refined(
                        ladder(zeros16(10), 10, 2048, 0x800),
                        st[0],
                        ctx,
                        b.value(7),
                        10,
                    ),
                    st[1],
                    ctx,
                    c1.value(4),
                    5,
                ),
                st[2],
                ctx,
                c2.value(4),
                5,
            )
        }),
{
    let st = voice.nb_stages();
    assert(width(st[0].nbits) == 7 && width(st[1].nbits) == 4 && width(st[2].nbits) == 4);
    reveal_with_fuel(stage_cursor, 4);
    reveal_with_fuel(staged, 4);
}

/// The narrowband pairs of a frame: evenly spaced, each moved by the first
/// stage's entry, and the lower five by the second's and the upper five by the
/// third's at half the size. The frame's first fifteen bits choose the entries
/// among those of its context.
pub proof fn narrow_pairs_are_refined(voice: Voice, ctx: u8, b: Cursor, i: int)
    requires
        has(b, 15),
        0 <= i < 10,
    ensures
        ({
            let id1 = field_at(b.chars, b.at(), 7);
            let id2 = field_at(b.chars, b.at() + 7, 4);
            let id3 = field_at(b.chars, b.at() + 11, 4);
            nb_pairs(voice, ctx, b)[i] == 2048 * (i + 1) + 32 * shape_byte(
                voice.nb_lsp@[0]@,
                10 * (128 * ctx + id1) + i,
            ) + 16 * if i < 5 {
                shape_byte(voice.nb_lsp@[1]@, 5 * (16 * ctx + id2) + i)
            } else {
                shape_byte(voice.nb_lsp@[2]@, 5 * (16 * ctx + id3) + i - 5)
            }
        }),
{
    let st = voice.nb_stages();
    super::fixed::weight_values();
    a_read(b, 7, 15);
    let c1 = b.after(7);
    a_read(c1, 4, 8);
    let c2 = c1.after(4);
    a_read(c2, 4, 4);
    narrow_stages(voice, ctx, b);
    narrow_entry(voice, ctx, b.value(7), c1.value(4), c2.value(4), i);
}

proof fn narrow_entry(voice: Voice, ctx: u8, v1: u32, v2: u32, v3: u32, i: int)
    requires
        v1 < 128,
        v2 < 16,
        v3 < 16,
        0 <= i < 10,
    ensures
        ({
            let st = voice.nb_stages();
            let l = refined(
                refined(
                    refined(ladder(zeros16(10), 10, 2048, 0x800), st[0], ctx, v1, 10),
                    st[1],
                    ctx,
                    v2,
                    5,
                ),
                st[2],
                ctx,
                v3,
                5,
            );
            l[i] == 2048 * (i + 1) + 32 * shape_byte(
                voice.nb_lsp@[0]@,
                10 * (128 * ctx + v1) + i,
            ) + 16 * if i < 5 {
                shape_byte(voice.nb_lsp@[1]@, 5 * (16 * ctx + v2) + i)
            } else {
                shape_byte(voice.nb_lsp@[2]@, 5 * (16 * ctx + v3) + i - 5)
            }
        }),
{
    let st = voice.nb_stages();
    super::fixed::weight_values();
    let l0 = ladder(zeros16(10), 10, 2048, 0x800);
    assert(l0[i] == 2048 * (i + 1));
    let l1 = refined(l0, st[0], ctx, v1, 10);
    let l2 = refined(l1, st[1], ctx, v2, 5);
    stage_adds(l0, st[0], ctx, v1, i);
    let a = shape_byte(voice.nb_lsp@[0]@, 10 * (128 * ctx + v1) + i);
    assert(l1[i] == 2048 * (i + 1) + 32 * a);
    stage_adds(l1, st[1], ctx, v2, i);
    stage_adds(l2, st[2], ctx, v3, i);
}

/// What a stage adds to one pair.
proof fn stage_adds(lsp: Seq<i16>, st: LspStage, ctx: u8, id: u32, k: int)
    requires
        0 <= k < lsp.len() <= 16,
        1 <= st.count <= 10,
        1 <= st.nbits <= 7,
        id < weight(st.nbits as nat),
        st.start + st.count <= lsp.len(),
        st.shift == 4 || st.shift == 5,
    ensures
        refined(lsp, st, ctx, id, st.count as nat).len() == lsp.len(),
        refined(lsp, st, ctx, id, st.count as nat)[k] == if st.start <= k < st.start + st.count {
            wrap16(
                lsp[k] + (if st.shift == 5 {
                    32int
                } else {
                    16
                }) * shape_byte(
                    st.cb@,
                    st.count * (weight(st.nbits as nat) * ctx + id) + (k - st.start),
                ),
            )
        } else {
            lsp[k]
        },
{
    refined_pairs(lsp, st, ctx, id, st.count as nat, k);
    if st.start <= k < st.start + st.count {
        byte_taken(st, ctx, id, k - st.start);
        scaled_byte(stage_byte(st, ctx, id, k - st.start), st.shift);
    }
}

/// The wideband pairs of a frame: evenly spaced higher up, each moved by the
/// first stage's entry and by the second's at half the size.
pub proof fn wide_pairs_are_refined(voice: Voice, ctx: u8, b: Cursor, i: int)
    requires
        has(b, 8),
        0 <= i < 8,
    ensures
        ({
            let id1 = field_at(b.chars, b.at(), 5);
            let id2 = field_at(b.chars, b.at() + 5, 3);
            sb_pairs(voice, ctx, b)[i] == 6144 + 2560 * i + 32 * shape_byte(
                voice.sb_lsp@[0]@,
                8 * (32 * ctx + id1) + i,
            ) + 16 * shape_byte(voice.sb_lsp@[1]@, 8 * (8 * ctx + id2) + i)
        }),
{
    let st = voice.sb_stages();
    super::fixed::weight_values();
    a_read(b, 5, 8);
    let c1 = b.after(5);
    a_read(c1, 3, 3);
    assert(width(st[0].nbits) == 5 && width(st[1].nbits) == 3);
    reveal_with_fuel(stage_cursor, 3);
    reveal_with_fuel(staged, 3);
    let l0 = ladder(zeros16(8), 8, 2560, 0x1800);
    assert(l0[i] == 6144 + 2560 * i);
    let l1 = refined(l0, st[0], ctx, b.value(5), 8);
    refined_pairs(l0, st[0], ctx, b.value(5), 8, i);
    refined_pairs(l1, st[1], ctx, c1.value(3), 8, i);
    byte_taken(st[0], ctx, b.value(5), i);
    scaled_byte(stage_byte(st[0], ctx, b.value(5), i), 5);
    byte_taken(st[1], ctx, c1.value(3), i);
    scaled_byte(stage_byte(st[1], ctx, c1.value(3), i), 4);
}

/// The blend of two frames' pairs moves from the old to the new in quarters, to
/// the nearest whole number or one beside it; in the last subframe nothing of the
/// old is left.
pub proof fn pairs_move_in_quarters(old_v: i16, new_v: i16, s: int)
    requires
        0 <= s < 4,
        -0x4000 <= old_v <= 0x6fff,
        -0x4000 <= new_v <= 0x6fff,
    ensures
        ({
            let v = blended(old_v as int, new_v as int, blend_weight(s, 4) as int);
            &&& -4 <= 4 * v - ((s + 1) * new_v + (3 - s) * old_v) <= 4
            &&& s == 3 ==> v == new_v
        }),
{
    weights_are_quarters(s);
    let (o, n) = (old_v as int, new_v as int);
    if s == 0 {
        blend_is_near(o, n, 0x1000);
        assert((s + 1) * n == 1 * n && (3 - s) * o == 3 * o) by (nonlinear_arith)
            requires
                s == 0,
        ;
    } else if s == 1 {
        blend_is_near(o, n, 0x2000);
        assert((s + 1) * n == 2 * n && (3 - s) * o == 2 * o) by (nonlinear_arith)
            requires
                s == 1,
        ;
    } else if s == 2 {
        blend_is_near(o, n, 0x3000);
        assert((s + 1) * n == 3 * n && (3 - s) * o == 1 * o) by (nonlinear_arith)
            requires
                s == 2,
        ;
    } else {
        assert(o * 0 == 0);
        assert(blended(o, n, 0x4000) == n);
        assert((s + 1) * n == 4 * n && (3 - s) * o == 0) by (nonlinear_arith)
            requires
                s == 3,
        ;
    }
}

proof fn blend_is_near(o: int, n: int, t: int)
    requires
        0 <= t <= 0x4000,
        -0x4000 <= o <= 0x6fff,
        -0x4000 <= n <= 0x6fff,
    ensures
        -0x4000 <= 0x4000 * blended(o, n, t) - (n * t + o * (0x4000 - t)) <= 0x4000,
{
    let u = 0x4000 - t;
    assert(wrap16(u) == u);
    let (a, b) = (n * t, o * u);
    assert(-0x4000 * 0x4000 <= a + b <= 0x6fff * 0x4000 && -0x4000 * 0x4000 <= a <= 0x6fff * 0x4000
        && -0x4000 * 0x4000 <= b <= 0x6fff * 0x4000) by (nonlinear_arith)
        requires
            0 <= t <= 0x4000,
            u == 0x4000 - t,
            -0x4000 <= o <= 0x6fff,
            -0x4000 <= n <= 0x6fff,
            a == n * t,
            b == o * u,
    ;
}

proof fn weights_are_quarters(s: int)
    requires
        0 <= s < 4,
    ensures
        blend_weight(s, 4) == 0x1000 * (s + 1),
{
    let n = (s + 1) * 0x4000;
    in_range(n);
    super::math::div15_is_division(n as i32, 4);
    let (x, y) = (vstd::math::abs(n) as int, vstd::math::abs(4) as int);
    assert(x / y == n / 4) by (nonlinear_arith)
        requires
            x == n,
            y == 4,
    ;
}

/// In its last subframe a frame is filtered with its own pairs alone.
pub proof fn last_subframes_use_their_own_pairs(
    old_lsp: Seq<i16>,
    other: Seq<i16>,
    new_lsp: Seq<i16>,
    order: nat,
    margin: int,
)
    requires
        old_lsp.len() == order,
        other.len() == order,
        new_lsp.len() == order,
    ensures
        subframe_lpc(old_lsp, new_lsp, order, margin, 3) == subframe_lpc(
            other,
            new_lsp,
            order,
            margin,
            3,
        ),
        subframe_lpc(old_lsp, new_lsp, order, margin, 3) == Seq::new(
            order,
            |j: int| coefficient(margin_enforced(new_lsp, margin), order as int, j),
        ),
{
    weights_are_quarters(3);
    let mix = Seq::new(
        order,
        |i: int| blended(old_lsp[i] as int, new_lsp[i] as int, 0x4000),
    );
    let mix2 = Seq::new(order, |i: int| blended(other[i] as int, new_lsp[i] as int, 0x4000));
    assert forall|i: int| 0 <= i < order implies #[trigger] mix[i] == new_lsp[i] && mix2[i]
        == new_lsp[i] by {
        assert(old_lsp[i] * 0 == 0 && other[i] * 0 == 0);
    }
    assert(mix =~= new_lsp);
    assert(mix2 =~= new_lsp);
}

/// The two parts of an excitation sample are added, the adaptive one twice, and
/// rounded to the nearest.
pub proof fn parts_are_added_and_rounded(fixed: i32, adaptive: i32)
    requires
        -0x1000_0000 <= fixed <= 0x1000_0000,
        -0x400_0000 <= adaptive <= 0x400_0000,
    ensures
        ({
            let x = fixed + 2 * adaptive;
            -0x2000 <= 0x4000 * folded(fixed as int, adaptive as int) - x <= 0x2000
        }),
{
    in_range(fixed + 2 * adaptive + 0x2000);
}

/// What a frame leaves of the frames before it: everything they had moves down by
/// one frame, and nothing of it is lost up to where the new frame begins.
pub proof fn history_moves_down_by_a_frame(st: NbState, voice: Voice, ctx: u8, b: Cursor, i: int)
    requires
        st.wf(),
        0 <= i < 334,
    ensures
        st.frame(voice, ctx, b).exc[i] == st.exc[i + 160],
        st.after(st.frame(voice, ctx, b)).exc[i] == st.exc[i + 160],
        st.after(st.frame(voice, ctx, b)).exc.len() == 500,
{
    written_so_far(voice, ctx, frame_gain(voice, b), slid(st.exc), nb_header(voice, b), 0, 4, i);
}

proof fn written_so_far(
    voice: Voice,
    ctx: u8,
    gain: int,
    exc: Seq<i16>,
    b: Cursor,
    m: nat,
    n: nat,
    i: int,
)
    requires
        m <= n,
        0 <= i < exc.len(),
    ensures
        excited(voice, ctx, gain, exc, b, n).len() == exc.len(),
        i < 334 + 40 * m || i >= 334 + 40 * n ==> excited(voice, ctx, gain, exc, b, n)[i]
            == excited(voice, ctx, gain, exc, b, m)[i],
    decreases n,
{
    if n > m {
        written_so_far(voice, ctx, gain, exc, b, m, (n - 1) as nat, i);
    } else if n > 0 {
        written_so_far(voice, ctx, gain, exc, b, (n - 1) as nat, (n - 1) as nat, i);
    }
}

/// Where a subframe's fields begin.
pub(crate) proof fn subframe_starts(b: Cursor, n: nat, left: int)
    requires
        has(b, left),
        65 * n <= left,
    ensures
        nb_cursor(b, n).at() == b.at() + 65 * n,
        nb_cursor(b, n).chars == b.chars,
        nb_cursor(b, n).nb_bits == b.nb_bits,
        has(nb_cursor(b, n), left - 65 * n),
    decreases n,
{
    if n > 0 {
        subframe_starts(b, (n - 1) as nat, left);
        subframe_place(nb_cursor(b, (n - 1) as nat), left - 65 * (n - 1));
    }
}

pub(crate) proof fn frame_has_its_length(st: NbState, voice: Voice, ctx: u8, b: Cursor)
    requires
        st.wf(),
    ensures
        st.frame(voice, ctx, b).exc.len() == 500,
{
    written_so_far(voice, ctx, frame_gain(voice, b), slid(st.exc), nb_header(voice, b), 0, 4, 0);
}

/// A frame's excitation, sample by sample: each subframe is its fixed part and
/// what the excitation before it predicts, its own earlier subframes included,
/// read from sixty-five bits of its own behind the frame's first twenty.
pub proof fn excitation_builds_on_itself(
    st: NbState,
    voice: Voice,
    ctx: u8,
    b: Cursor,
    sub: nat,
    i: int,
)
    requires
        st.wf(),
        has(b, 280),
        sub < 4,
        0 <= i < 40,
    ensures
        ({
            let exc = st.frame(voice, ctx, b).exc;
            let c = nb_cursor(nb_header(voice, b), sub);
            &&& c.at() == b.at() + 20 + 65 * sub
            &&& c.chars == b.chars
            &&& has(c, 65)
            &&& exc.len() == 500
            &&& exc[334 + 40 * sub + i] == folded(
                fixed_part(voice, ctx, frame_gain(voice, b), c)[i] as int,
                adaptive_part(exc, c, sub as int)[i] as int,
            )
        }),
{
    let h = nb_header(voice, b);
    header_place(voice, b);
    subframe_starts(h, sub, b.nb_bits - b.at() - 20);
    let (g, e) = (frame_gain(voice, b), slid(st.exc));
    let exc = st.frame(voice, ctx, b).exc;
    let c = nb_cursor(h, sub);
    let before = excited(voice, ctx, g, e, h, sub);
    let here = excited(voice, ctx, g, e, h, sub + 1);
    written_so_far(voice, ctx, g, e, h, sub, sub, 0);
    written_so_far(voice, ctx, g, e, h, sub + 1, 4, 334 + 40 * sub + i);
    assert(here == excited_once(voice, ctx, g, before, c, sub as int));
    let n: int = (334 + 40 * sub) as int;
    assert(before.subrange(0, n) =~= exc.subrange(0, n)) by {
        assert forall|k: int| 0 <= k < n implies before[k] == exc[k] by {
            written_so_far(voice, ctx, g, e, h, sub, 4, k);
        }
    }
    assert(adaptive_part(before, c, sub as int) == adaptive_part(exc, c, sub as int));
}

/// The filters run one subframe behind: what is heard of a frame's last subframe
/// is heard in the next frame, and its first samples are those of the frame
/// before, filtered with that frame's coefficients.
pub proof fn filters_run_one_subframe_behind(f: NbFrame, g: NbFrame, i: int)
    requires
        f.exc.len() == 500,
        g.exc.len() == 500,
        f.lpc == g.lpc,
        f.mem == g.mem,
        f.old_lsp == g.old_lsp,
        f.new_lsp == g.new_lsp,
        forall|k: int| 294 <= k < 454 ==> #[trigger] f.exc[k] == g.exc[k],
        0 <= i < 160,
    ensures
        f.sample(i) == g.sample(i),
        f.lpc_at(0) == f.lpc,
        lagged_exc(f.exc, 0) == f.exc.subrange(294, 334),
{
    assert forall|s: int| 0 <= s < 4 implies #[trigger] lagged_exc(f.exc, s) == lagged_exc(
        g.exc,
        s,
    ) by {
        assert(lagged_exc(f.exc, s) =~= lagged_exc(g.exc, s));
    }
    same_memory(f, g, (i / 40) as nat);
}

proof fn same_memory(f: NbFrame, g: NbFrame, sub: nat)
    requires
        f.lpc == g.lpc,
        f.mem == g.mem,
        f.old_lsp == g.old_lsp,
        f.new_lsp == g.new_lsp,
        sub <= 4,
        forall|s: int| 0 <= s < 4 ==> #[trigger] lagged_exc(f.exc, s) == lagged_exc(g.exc, s),
    ensures
        f.mem_at(sub) == g.mem_at(sub),
    decreases sub,
{
    if sub > 0 {
        same_memory(f, g, (sub - 1) as nat);
        assert(lagged_exc(f.exc, sub - 1) == lagged_exc(g.exc, sub - 1));
    }
}

/// Silence stays silent: a filter with nothing in its memory that is fed nothing
/// gives nothing, whatever its coefficients are.
pub proof fn silence_stays_silent(den: Seq<i16>, n: nat)
    ensures
        ({
            let quiet = zeros16(40);
            let mem = super::decoder::zeros32(10);
            &&& iir16_history(quiet, den, mem, 10, n) == mem
            &&& iir16_output(tap16(quiet, n as int), iir16_history(quiet, den, mem, 10, n)) == 0
        }),
    decreases n,
{
    let quiet = zeros16(40);
    let mem = super::decoder::zeros32(10);
    if n > 0 {
        silence_stays_silent(den, (n - 1) as nat);
        assert(iir16_history(quiet, den, mem, 10, n) =~= mem) by {
            assert forall|j: int| 0 <= j < 10 implies -0 * #[trigger] tap16(den, j) == 0 by {
            }
        }
    }
}

/// The first subframe that a fresh decoder gives is silent, whatever the frame
/// holds.
pub proof fn first_samples_are_silent(voice: Voice, ctx: u8, b: Cursor, i: int)
    requires
        0 <= i < 40,
    ensures
        NbState::fresh().frame(voice, ctx, b).sample(i) == 0,
{
    let st = NbState::fresh();
    let f = st.frame(voice, ctx, b);
    assert forall|k: int| 0 <= k < 334 implies #[trigger] f.exc[k] == 0 by {
        history_moves_down_by_a_frame(st, voice, ctx, b, k);
    }
    written_so_far(voice, ctx, frame_gain(voice, b), slid(st.exc), nb_header(voice, b), 0, 4, 0);
    assert(lagged_exc(f.exc, 0) =~= zeros16(40));
    assert(i / 40 == 0 && i % 40 == i);
    silence_stays_silent(f.lpc_at(0), i as nat);
}

/// The response at the band's edge is the alternating sum of the coefficients.
pub proof fn edges_alternate(lpc: Seq<i16>)
    requires
        lpc.len() >= 8,
    ensures
        band_edge(lpc, 4) == 8192 - lpc[0] + lpc[1] - lpc[2] + lpc[3] - lpc[4] + lpc[5] - lpc[6]
            + lpc[7],
        lpc.len() >= 10 ==> band_edge(lpc, 5) == 8192 - lpc[0] + lpc[1] - lpc[2] + lpc[3] - lpc[4]
            + lpc[5] - lpc[6] + lpc[7] - lpc[8] + lpc[9],
{
    assert(band_edge(lpc, 0) == 8192);
    let a = 8192 + lpc[1] - lpc[0];
    in_range(a);
    assert(band_edge(lpc, 1) == a);
    let b = a + lpc[3] - lpc[2];
    in_range(b);
    assert(band_edge(lpc, 2) == b);
    let c = b + lpc[5] - lpc[4];
    in_range(c);
    assert(band_edge(lpc, 3) == c);
    let d = c + lpc[7] - lpc[6];
    in_range(d);
    assert(band_edge(lpc, 4) == d);
    if lpc.len() >= 10 {
        in_range(d + lpc[9] - lpc[8]);
    }
}

/// A frame hands its pairs on: the next frame blends from them, and the first
/// frame of all from its own.
pub proof fn pairs_are_handed_on(st: NbState, voice: Voice, c1: u8, b1: Cursor, c2: u8, b2: Cursor)
    ensures
        ({
            let f = st.frame(voice, c1, b1);
            let next = st.after(f).frame(voice, c2, b2);
            &&& f.new_lsp == nb_pairs(voice, c1, b1)
            &&& next.old_lsp == nb_pairs(voice, c1, b1)
            &&& next.new_lsp == nb_pairs(voice, c2, b2)
            &&& next.lpc == subframe_lpc(f.old_lsp, f.new_lsp, 10, 16, 3)
            &&& next.mem == f.mem_at(4)
            &&& st.first ==> f.old_lsp == f.new_lsp
            &&& !st.first ==> f.old_lsp == st.lsp
        }),
{
}

} // verus!
