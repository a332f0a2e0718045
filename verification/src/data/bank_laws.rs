//! What holds of a bank's preamble, whatever the bank holds.
use vstd::prelude::*;
use vstd::arithmetic::power2::{lemma_pow2_pos, pow2};
use super::bank::{
    index_width, is_power, logarithm_bounds, params_in, powers_have_logarithms, stages_of, widths,
    Band, BankHeader, BankTables,
};

verus! {

/// The number of the four bytes at `i`, the highest first.
pub open spec fn number_at(raw: Seq<u8>, i: int) -> int {
    0x100_0000 * raw[i] + 0x1_0000 * raw[i + 1] + 0x100 * raw[i + 2] + raw[i + 3]
}

/// Where a header's numbers stand.
pub proof fn header_numbers_stand_in_order(h: BankHeader, raw: Seq<u8>)
    requires
        raw.len() >= 48,
        h.heads(raw),
    ensures
        h.bitrate_bps == number_at(raw, 0),
        h.frame_samples == number_at(raw, 8),
        h.output_rate == number_at(raw, 12),
        h.header_len == number_at(raw, 16),
        h.frames == number_at(raw, 20),
        h.data_offset == number_at(raw, 32),
{
}

/// The frame rate is how many whole frames a second's samples make, and a
/// frame's bytes are what the bitrate leaves each of them.
pub proof fn rates_divide(h: BankHeader)
    requires
        h.frame_samples > 0,
    ensures
        h.frames_per_second() * h.frame_samples <= h.output_rate,
        h.output_rate < (h.frames_per_second() + 1) * h.frame_samples,
        h.frames_per_second() > 0 ==> 8 * h.bytes_per_frame() * h.frames_per_second()
            <= h.bitrate_bps,
        h.frames_per_second() > 0 ==> h.bitrate_bps < 8 * (h.bytes_per_frame() + 1)
            * h.frames_per_second(),
{
    let (s, r) = (h.frame_samples as int, h.output_rate as int);
    let f = h.frames_per_second();
    assert(f * s <= r < (f + 1) * s) by (nonlinear_arith)
        requires
            f == r / s,
            s > 0,
    ;
    if f > 0 {
        let b = h.bitrate_bps as int;
        let q = b / f;
        assert(q * f <= b < (q + 1) * f) by (nonlinear_arith)
            requires
                q == b / f,
                f > 0,
        ;
        let n = q / 8;
        assert(8 * n * f <= q * f && (q + 1) * f <= 8 * (n + 1) * f) by (nonlinear_arith)
            requires
                8 * n <= q,
                q + 1 <= 8 * (n + 1),
                f > 0,
        ;
    } else {
        assert(f >= 0) by (nonlinear_arith)
            requires
                f == r / s,
                s > 0,
                r >= 0,
        ;
    }
}

/// A file's frames, as long as they measure, fill it from where they start to its
/// end.
pub proof fn measured_frames_fill_the_file(h: BankHeader, len: int, n: int)
    requires
        h.measured(len) == Some(n),
    ensures
        h.data_offset + h.frames * n == len,
        h.frames > 0,
        n >= 0,
{
    let (p, f) = (len - h.data_offset, h.frames as int);
    assert(p == f * n && n >= 0) by (nonlinear_arith)
        requires
            n == p / f,
            p % f == 0,
            f > 0,
            p >= 0,
    ;
}

/// Where the numbers stand that say how long each codebook is for one context,
/// and how many contexts there are.
pub proof fn codebook_sizes_stand_in_order(t: BankTables, raw: Seq<u8>, h: BankHeader)
    requires
        raw.len() >= 0x7c,
        h.heads(raw),
        t.lie_in(raw, h),
    ensures
        t.contexts == number_at(raw, 36),
        t.xor_key == raw[27],
        t.nb_cb1.per_context == number_at(raw, 40),
        t.nb_cb2.per_context == number_at(raw, 44),
        t.nb_cb3.per_context == number_at(raw, 48),
        t.nb_innov.per_context == number_at(raw, 52),
        t.sb_cb1.per_context == number_at(raw, 56),
        t.sb_cb2.per_context == number_at(raw, 60),
        t.sb_innov.per_context == number_at(raw, 72),
{
}

/// An innovation byte is shifted up by as much as brings its scale to fourteen
/// bits.
pub proof fn shifts_bring_scales_to_fourteen_bits(t: BankTables, raw: Seq<u8>, h: BankHeader)
    requires
        raw.len() >= 0x7c,
        t.lie_in(raw, h),
        number_at(raw, 76) > 0,
        number_at(raw, 80) > 0,
    ensures
        t.nb_innov_shift <= 14,
        t.sb_innov_shift <= 14,
        pow2((14 - t.nb_innov_shift) as nat) <= number_at(raw, 76) < 2 * pow2(
            (14 - t.nb_innov_shift) as nat,
        ),
        pow2((14 - t.sb_innov_shift) as nat) <= number_at(raw, 80) < 2 * pow2(
            (14 - t.sb_innov_shift) as nat,
        ),
{
    logarithm_bounds(number_at(raw, 76));
    logarithm_bounds(number_at(raw, 80));
}

/// An index's width is such that there is an entry for each of its values.
pub proof fn indices_reach_every_entry(size: int, count: int, what: Seq<char>, w: int)
    requires
        size >= 0,
        count >= 0,
        index_width(size, count, what) == Ok::<int, Seq<char>>(w),
    ensures
        w >= 0,
        count * pow2(w as nat) == size,
{
    let n = size / count;
    let k = choose|k: nat| n == #[trigger] pow2(k);
    assert(is_power(n));
    powers_have_logarithms(k);
    assert(count * n == size) by (nonlinear_arith)
        requires
            n == size / count,
            size % count == 0,
            count > 0,
    ;
}

proof fn widths_are_stages(stages: Seq<(int, int, Seq<char>)>, n: nat, k: int)
    requires
        widths(stages, n) is Ok,
        0 <= k < n,
    ensures
        widths(stages, n)->Ok_0.len() == n,
        index_width(stages[k].0, stages[k].1, stages[k].2) matches Ok(w) && widths(
            stages,
            n,
        )->Ok_0[k] == w as u32,
    decreases n,
{
    reveal_with_fuel(widths, 2);
    if n > 1 {
        widths_are_stages(stages, (n - 1) as nat, 0);
    }
    if k < n - 1 {
        widths_are_stages(stages, (n - 1) as nat, k);
    }
}

proof fn stage_is_full(raw: Seq<u8>, t: BankTables, k: int)
    requires
        0 <= k < 7,
        params_in(raw, t) is Ok,
        0 <= stages_of(raw, t)[k].0 <= 0xffff_ffff,
    ensures
        ({
            let s = stages_of(raw, t);
            let w = widths(s, 7)->Ok_0;
            w.len() == 7 && s[k].1 * pow2(w[k] as nat) == s[k].0
        }),
{
    let s = stages_of(raw, t);
    widths_are_stages(s, 7, k);
    let w = index_width(s[k].0, s[k].1, s[k].2)->Ok_0;
    indices_reach_every_entry(s[k].0, s[k].1, s[k].2, w);
    if w > u32::MAX {
        vstd::arithmetic::power2::lemma2_to64();
        vstd::arithmetic::power2::lemma_pow2_strictly_increases(32, w as nat);
        assert(s[k].1 * pow2(w as nat) > 0xffff_ffff) by (nonlinear_arith)
            requires
                s[k].1 >= 1,
                pow2(w as nat) > 0xffff_ffff,
        ;
    }
    lemma_pow2_pos(w as nat);
}

/// Each stage's codebook holds one entry for each value of its index, as long as
/// the coefficients it refines; so does each innovation codebook. The stages of
/// the narrow band refine all coefficients, then the low ones, then those behind
/// them, and the ladder's steps add up to its span.
pub proof fn codebooks_fit_their_indices(raw: Seq<u8>, t: BankTables, nb: Band, sb: Band)
    requires
        params_in(raw, t) == Ok::<(Band, Band), Seq<char>>((nb, sb)),
        t.nb_cb1.per_context <= 0xffff_ffff,
        t.nb_cb2.per_context <= 0xffff_ffff,
        t.nb_cb3.per_context <= 0xffff_ffff,
        t.nb_innov.per_context <= 0xffff_ffff,
        t.sb_cb1.per_context <= 0xffff_ffff,
        t.sb_cb2.per_context <= 0xffff_ffff,
        t.sb_innov.per_context <= 0xffff_ffff,
        usize::MAX >= 0xffff_ffff,
    ensures
        nb.lsp_counts[0] * pow2(nb.lsp_nbits[0] as nat) == t.nb_cb1.per_context,
        nb.lsp_counts[1] * pow2(nb.lsp_nbits[1] as nat) == t.nb_cb2.per_context,
        nb.lsp_counts[2] * pow2(nb.lsp_nbits[2] as nat) == t.nb_cb3.per_context,
        nb.innov_subvect * pow2(nb.innov_shape_bits as nat) == t.nb_innov.per_context,
        sb.lsp_counts[0] * pow2(sb.lsp_nbits[0] as nat) == t.sb_cb1.per_context,
        sb.lsp_counts[1] * pow2(sb.lsp_nbits[1] as nat) == t.sb_cb2.per_context,
        sb.innov_subvect * pow2(sb.innov_shape_bits as nat) == t.sb_innov.per_context,
        nb.lsp_counts[0] == nb.order == number_at(raw, 84),
        sb.lsp_counts[0] == sb.order == number_at(raw, 96),
        nb.lsp_counts[1] == number_at(raw, 88),
        nb.lsp_counts[2] == number_at(raw, 92),
        sb.lsp_counts[1] == number_at(raw, 100),
        nb.innov_subvect == number_at(raw, 112),
        sb.innov_subvect == number_at(raw, 116),
        nb.lsp_starts[0] == 0 && nb.lsp_starts[1] == 0 && nb.lsp_starts[2] == nb.lsp_counts[1],
        sb.lsp_starts[0] == 0 && sb.lsp_starts[1] == 0,
        nb.innov_shift == t.nb_innov_shift,
        sb.innov_shift == t.sb_innov_shift,
        nb.spacing * nb.order <= 20480 < (nb.spacing + 1) * nb.order,
        sb.spacing * sb.order <= 20480 < (sb.spacing + 1) * sb.order,
{
    stage_is_full(raw, t, 0);
    stage_is_full(raw, t, 1);
    stage_is_full(raw, t, 2);
    stage_is_full(raw, t, 3);
    stage_is_full(raw, t, 4);
    stage_is_full(raw, t, 5);
    stage_is_full(raw, t, 6);
    ladder_adds_up(nb.order);
    ladder_adds_up(sb.order);
}

proof fn ladder_adds_up(order: int)
    requires
        order > 0,
    ensures
        (20480int / order) * order <= 20480 < (20480int / order + 1) * order,
{
    let q = 20480int / order;
    assert(q * order <= 20480 < (q + 1) * order) by (nonlinear_arith)
        requires
            q == 20480int / order,
            order > 0,
    ;
}

} // verus!
