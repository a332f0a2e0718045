//! Line spectral pairs: separation, interpolation and unquantisation.
use vstd::prelude::*;
use super::bits::{read_width, reads_keep_room, room, width, Bits, Cursor};
use super::fixed::{asr32, low16, mult16_16, add32, mul32, weight, wrap16, wrap32};
use super::innov::{arm_lsl, shifted, tail, word_sum, wrap_usize};
use super::math::{div15, quotient15};

verus! {

/// The upper end of the range: fixed-point pi.
pub const LSP_MAX: i32 = 0x6488;

/// Address of the narrowband ladder's spacing word in the module's data.
pub const SPACING_ADDR_NB: u32 = 0x1d8d8;

/// Address of the wideband ladder's spacing word.
pub const SPACING_ADDR_SB: u32 = 0x1d8da;

/// Additive base of the narrowband ladder.
pub const BASE_NB: i32 = 0x800;

/// Additive base of the wideband ladder.
pub const BASE_SB: i32 = 0x1800;

/// The two endpoint clamps.
pub open spec fn ends_clamped(lsp: Seq<i16>, margin: int) -> Seq<i16> {
    let a = if lsp[0] < margin {
        lsp.update(0, margin as i16)
    } else {
        lsp
    };
    let last = lsp.len() - 1;
    let top = wrap16(LSP_MAX - margin);
    if a[last] > top {
        a.update(last, top)
    } else {
        a
    }
}

/// Element `i` pushed up from its left neighbour, then drawn halfway to its
/// right one.
///
/// The comparisons are exact and the stores wrap. The halves are taken
/// separately, so two odd operands lose one.
pub open spec fn moved(lsp: Seq<i16>, margin: int, i: int) -> i16 {
    let up = if lsp[i] < lsp[i - 1] + margin {
        wrap16(lsp[i - 1] + margin)
    } else {
        lsp[i]
    };
    let ceiling = lsp[i + 1] - margin;
    if ceiling < up {
        wrap16(ceiling / 2 + up as int / 2)
    } else {
        up
    }
}

/// Elements `1..n` moved in order, each seeing what the ones before left.
pub open spec fn spread(lsp: Seq<i16>, margin: int, n: int) -> Seq<i16>
    decreases n,
{
    if n <= 1 {
        lsp
    } else {
        let s = spread(lsp, margin, n - 1);
        s.update(n - 1, moved(s, margin, n - 1))
    }
}

/// What [`enforce_margin`] leaves.
pub open spec fn margin_enforced(lsp: Seq<i16>, margin: int) -> Seq<i16> {
    if lsp.len() == 0 {
        lsp
    } else {
        spread(ends_clamped(lsp, margin), margin, lsp.len() - 1)
    }
}

/// Every element inside the range and at least `margin` from its neighbours.
pub open spec fn separated(lsp: Seq<i16>, margin: int) -> bool {
    &&& lsp.len() > 0 ==> lsp[0] >= margin
    &&& lsp.len() > 0 ==> lsp[lsp.len() - 1] <= LSP_MAX - margin
    &&& forall|i: int| 1 <= i < lsp.len() ==> #[trigger] lsp[i] >= lsp[i - 1] + margin
}

/// A set that is already separated is left alone.
pub proof fn separated_sets_stay(lsp: Seq<i16>, margin: int)
    requires
        separated(lsp, margin),
        0 <= margin <= LSP_MAX,
    ensures
        margin_enforced(lsp, margin) == lsp,
{
    if lsp.len() > 0 {
        assert(ends_clamped(lsp, margin) == lsp);
        separated_spread(lsp, margin, lsp.len() - 1);
    }
}

proof fn separated_spread(lsp: Seq<i16>, margin: int, n: int)
    requires
        separated(lsp, margin),
        n <= lsp.len() - 1,
    ensures
        spread(lsp, margin, n) == lsp,
    decreases n,
{
    if n > 1 {
        separated_spread(lsp, margin, n - 1);
        assert(lsp[n - 1] >= lsp[n - 2] + margin);
        assert(lsp[n] >= lsp[n - 1] + margin);
        assert(lsp.update(n - 1, lsp[n - 1]) =~= lsp);
    }
}

/// The ends are clamped into the range and moved no further.
pub proof fn ends_come_into_range(lsp: Seq<i16>, margin: int)
    requires
        lsp.len() >= 2,
        0 <= margin <= LSP_MAX,
    ensures
        margin_enforced(lsp, margin).len() == lsp.len(),
        margin_enforced(lsp, margin)[0] == if lsp[0] < margin {
            margin
        } else {
            lsp[0] as int
        },
        margin_enforced(lsp, margin)[lsp.len() - 1] == if lsp[lsp.len() - 1] > LSP_MAX - margin {
            LSP_MAX - margin
        } else {
            lsp[lsp.len() - 1] as int
        },
{
    spread_keeps_ends(ends_clamped(lsp, margin), margin, lsp.len() - 1);
}

proof fn spread_keeps_ends(lsp: Seq<i16>, margin: int, n: int)
    requires
        lsp.len() >= 2,
        n <= lsp.len() - 1,
    ensures
        spread(lsp, margin, n).len() == lsp.len(),
        spread(lsp, margin, n)[0] == lsp[0],
        spread(lsp, margin, n)[lsp.len() - 1] == lsp[lsp.len() - 1],
    decreases n,
{
    if n > 1 {
        spread_keeps_ends(lsp, margin, n - 1);
    }
}

/// Moves line spectral pairs at least `margin` apart and inside the range.
///
/// A slice shorter than three gets only the two endpoint clamps.
pub fn enforce_margin(lsp: &mut [i16], margin: i16)
    ensures
        final(lsp)@ == margin_enforced(old(lsp)@, margin as int),
{
    let len: usize = lsp.len();
    if len == 0 {
        return ;
    }
    let m: i32 = margin as i32;
    let ghost l0 = lsp@;
    if (lsp[0] as i32) < m {
        lsp[0] = margin;
    }
    let top: i16 = low16(LSP_MAX - m);
    if lsp[len - 1] > top {
        lsp[len - 1] = top;
    }
    let ghost l1 = lsp@;
    assert(l1 == ends_clamped(l0, m as int));
    if len < 3 {
        return ;
    }
    let mut i: usize = 1;
    while i < len - 1
        invariant
            1 <= i <= len - 1,
            len == lsp@.len() == l1.len(),
            m == margin,
            lsp@ == spread(l1, m as int, i as int),
        decreases len - i,
    {
        let ghost s = lsp@;
        let left: i32 = lsp[i - 1] as i32 + m;
        let mut cur: i16 = lsp[i];
        if (cur as i32) < left {
            cur = low16(left);
        }
        let ceiling: i32 = lsp[i + 1] as i32 - m;
        if ceiling < cur as i32 {
            cur = low16(asr32(ceiling, 1) + asr32(cur as i32, 1));
        }
        lsp[i] = cur;
        assert(cur == moved(s, m as int, i as int));
        i = i + 1;
    }
}

/// The Q14 weight of the new set in subframe `subframe` of `nb_subframes`.
pub open spec fn blend_weight(subframe: int, nb_subframes: int) -> i16 {
    quotient15(wrap32((subframe + 1) * 0x4000) as int, nb_subframes)
}

/// One coefficient between two frames, each half narrowed before they are
/// added.
pub open spec fn blended(old_v: int, new_v: int, t: int) -> i16 {
    let inv = wrap16(0x4000 - t);
    wrap16(wrap16((new_v * t + 0x2000) / 0x4000) + wrap16((old_v * inv + 0x2000) / 0x4000))
}

/// The shortest of four lengths.
pub open spec fn shortest(a: int, b: int, c: int, d: int) -> int {
    let x = if a < b {
        a
    } else {
        b
    };
    let y = if c < d {
        c
    } else {
        d
    };
    if x < y {
        x
    } else {
        y
    }
}

/// One coefficient between two frames.
fn blend(old_v: i16, new_v: i16, t: i16) -> (r: i16)
    ensures
        r == blended(old_v as int, new_v as int, t as int),
{
    let inv: i16 = low16(0x4000 - t as i32);
    let a: i16 = low16(asr32(mult16_16(new_v, t) + 0x2000, 14));
    let b: i16 = low16(asr32(mult16_16(old_v, inv) + 0x2000, 14));
    low16(a as i32 + b as i32)
}

/// Blends the previous frame's pairs towards the current frame's, in
/// proportion to how far through the frame this subframe is.
pub fn interpolate(
    prev: &[i16],
    new: &[i16],
    out: &mut [i16],
    len: usize,
    subframe: i32,
    nb_subframes: i32,
)
    ensures
        final(out)@.len() == old(out)@.len(),
        forall|i: int|
            0 <= i < old(out)@.len() ==> #[trigger] final(out)@[i] == if i < shortest(
                len as int,
                prev@.len() as int,
                new@.len() as int,
                old(out)@.len() as int,
            ) {
                blended(
                    prev@[i] as int,
                    new@[i] as int,
                    blend_weight(subframe as int, nb_subframes as int) as int,
                )
            } else {
                old(out)@[i]
            },
{
    let num: i32 = mul32(add32(subframe, 1), 0x4000);
    proof {
        super::fixed::wrap32_congruent(subframe + 1);
        let k = choose|k: int| subframe + 1 - wrap32(subframe + 1) == #[trigger] (k * 0x1_0000_0000);
        super::fixed::wrap32_shift(wrap32(subframe + 1) * 0x4000, k * 0x4000);
    }
    let t: i16 = div15(num, nb_subframes);
    let ghost o0 = out@;
    let mut i: usize = 0;
    while i < len && i < prev.len() && i < new.len() && i < out.len()
        invariant
            i <= shortest(len as int, prev@.len() as int, new@.len() as int, o0.len() as int),
            out@.len() == o0.len(),
            forall|k: int|
                0 <= k < o0.len() ==> #[trigger] out@[k] == if k < i {
                    blended(prev@[k] as int, new@[k] as int, t as int)
                } else {
                    o0[k]
                },
        decreases len - i,
    {
        out[i] = blend(prev[i], new[i], t);
        i = i + 1;
    }
}

/// One refinement stage of the quantiser.
#[derive(Debug, Clone, Copy)]
pub struct LspStage<'a> {
    /// The whole codebook array for this stage, before the per-voice offset.
    pub cb: &'a [i8],
    /// Index width in bits.
    pub nbits: u32,
    /// How many coefficients this stage refines.
    pub count: usize,
    /// Index of the first coefficient it refines.
    pub start: usize,
    /// Left shift applied to each codebook byte.
    pub shift: u32,
}

impl<'a> LspStage<'a> {
    /// The full-order stage, shifted by five.
    pub fn first(cb: &'a [i8], nbits: u32, order: usize) -> (r: Self)
        ensures
            r == (LspStage { cb, nbits, count: order, start: 0usize, shift: 5u32 }),
    {
        LspStage { cb, nbits, count: order, start: 0, shift: 5 }
    }

    /// A refinement stage, shifted by four.
    pub fn split(cb: &'a [i8], nbits: u32, count: usize, start: usize) -> (r: Self)
        ensures
            r == (LspStage { cb, nbits, count, start, shift: 4u32 }),
    {
        LspStage { cb, nbits, count, start, shift: 4 }
    }
}

/// The ladder the stages refine.
pub open spec fn ladder(lsp: Seq<i16>, order: int, spacing: int, base: int) -> Seq<i16> {
    lsp.map(
        |i: int, v: i16|
            if i < order {
                wrap16(i * spacing + base)
            } else {
                v
            },
    )
}

/// Offset of the voice's codebook within a stage's array.
pub open spec fn stage_offset(st: LspStage, selector: u8) -> int {
    shifted(st.count * selector, st.nbits as int) as int % 0x1_0000_0000
}

/// Byte `i` of codebook row `id`, zero past the end.
pub open spec fn stage_byte(st: LspStage, selector: u8, id: u32, i: int) -> i8 {
    let cb = tail(st.cb@, stage_offset(st, selector));
    let at = wrap_usize(id * st.count + i);
    if at < cb.len() {
        cb[at as int]
    } else {
        0
    }
}

/// The pairs after a stage has refined its first `n` coefficients from row
/// `id`.
pub open spec fn refined(lsp: Seq<i16>, st: LspStage, selector: u8, id: u32, n: nat) -> Seq<i16>
    decreases n,
{
    if n == 0 {
        lsp
    } else {
        let s = refined(lsp, st, selector, id, (n - 1) as nat);
        let slot = wrap_usize(st.start + n - 1) as int;
        if slot < s.len() {
            let c = stage_byte(st, selector, id, n - 1);
            s.update(slot, wrap16(s[slot] + shifted(c as int, st.shift as int)))
        } else {
            s
        }
    }
}

/// Bits that stages `k..` read.
pub open spec fn stage_bits(stages: Seq<LspStage>, k: int) -> int
    decreases stages.len() - k,
{
    if 0 <= k < stages.len() {
        room(stages[k].nbits) + stage_bits(stages, k + 1)
    } else {
        0
    }
}

/// The cursor after the first `k` stages.
pub open spec fn stage_cursor(stages: Seq<LspStage>, b: Cursor, k: nat) -> Cursor
    decreases k,
{
    if k == 0 {
        b
    } else {
        stage_cursor(stages, b, (k - 1) as nat).after(width(stages[k - 1].nbits))
    }
}

/// The pairs after the first `k` stages.
pub open spec fn staged(lsp: Seq<i16>, stages: Seq<LspStage>, selector: u8, b: Cursor, k: nat) -> Seq<i16>
    decreases k,
{
    if k == 0 {
        lsp
    } else {
        let j = (k - 1) as nat;
        let id = stage_cursor(stages, b, j).value(width(stages[j as int].nbits));
        refined(staged(lsp, stages, selector, b, j), stages[j as int], selector, id, stages[j as int].count as nat)
    }
}

proof fn stage_bits_nonnegative(stages: Seq<LspStage>, k: int)
    ensures
        stage_bits(stages, k) >= 0,
    decreases stages.len() - k,
{
    if 0 <= k < stages.len() {
        stage_bits_nonnegative(stages, k + 1);
    }
}

/// A stage's offset as the shift register gives it.
fn offset_of(st: &LspStage, selector: u8) -> (r: usize)
    ensures
        r == stage_offset(*st, selector),
{
    let product: usize = st.count.wrapping_mul(selector as usize);
    let low: i32 = super::fixed::low32_of(product);
    let off: i32 = arm_lsl(low, st.nbits);
    proof {
        let x = st.count * selector;
        word_then_32(x);
        if st.nbits % 256 < 32 {
            let w = weight((st.nbits % 256) as nat);
            super::fixed::wrap32_congruent(x);
            let k = choose|k: int| x - wrap32(x) == #[trigger] (k * 0x1_0000_0000);
            assert(wrap32(x) * w + (k * w) * 0x1_0000_0000 == x * w) by (nonlinear_arith)
                requires
                    x - wrap32(x) == k * 0x1_0000_0000,
            ;
            super::fixed::wrap32_shift(wrap32(x) * w, k * w);
        }
    }
    let u: u32 = if off < 0 {
        (off as i64 + 0x1_0000_0000) as u32
    } else {
        off as u32
    };
    u as usize
}

/// The low 32 bits of a machine word are those of the number it wraps.
proof fn word_then_32(x: int)
    ensures
        wrap32(wrap_usize(x) as int) == wrap32(x),
{
    let m = usize::MAX + 1;
    let q = x / m;
    vstd::arithmetic::div_mod::lemma_fundamental_div_mod(x, m);
    assert(wrap_usize(x) == x - m * q);
    if m == 0x1_0000_0000 {
        super::fixed::wrap32_shift(wrap_usize(x) as int, q);
    } else {
        assert(m == 0x1_0000_0000_0000_0000);
        assert(m * q == (0x1_0000_0000 * q) * 0x1_0000_0000) by (nonlinear_arith)
            requires
                m == 0x1_0000_0000_0000_0000,
        ;
        super::fixed::wrap32_shift(wrap_usize(x) as int, 0x1_0000_0000 * q);
    }
}

/// Adds a shifted codebook byte.
fn nudge(v: i16, c: i8, shift: u32) -> (r: i16)
    ensures
        r == wrap16(v + shifted(c as int, shift as int)),
{
    low16(add32(v as i32, arm_lsl(c as i32, shift)))
}

/// Applies one stage.
fn apply_stage(lsp: &mut [i16], st: &LspStage, selector: u8, id: u32)
    ensures
        final(lsp)@ == refined(old(lsp)@, *st, selector, id, st.count as nat),
        final(lsp)@.len() == old(lsp)@.len(),
{
    let off: usize = offset_of(st, selector);
    let from: usize = if off <= st.cb.len() {
        off
    } else {
        st.cb.len()
    };
    let cb: &[i8] = vstd::slice::slice_subrange(st.cb, from, st.cb.len());
    assert(cb@ =~= tail(st.cb@, stage_offset(*st, selector)));
    let row: usize = (id as usize).wrapping_mul(st.count);
    let ghost l0 = lsp@;
    let mut i: usize = 0;
    while i < st.count
        invariant
            i <= st.count,
            row == wrap_usize(id * st.count),
            cb@ == tail(st.cb@, stage_offset(*st, selector)),
            lsp@.len() == l0.len(),
            lsp@ == refined(l0, *st, selector, id, i as nat),
        decreases st.count - i,
    {
        let at: usize = row.wrapping_add(i);
        let slot: usize = st.start.wrapping_add(i);
        proof {
            word_sum(id * st.count, i);
            vstd::arithmetic::div_mod::lemma_small_mod(st.start as nat, (usize::MAX + 1) as nat);
            word_sum(st.start as int, i);
        }
        let c: i8 = if at < cb.len() {
            cb[at]
        } else {
            0
        };
        assert(c == stage_byte(*st, selector, id, i as int));
        if slot < lsp.len() {
            lsp[slot] = nudge(lsp[slot], c, st.shift);
        }
        i = i + 1;
    }
}

/// Decodes one frame's pairs into `lsp`: a ladder, refined by each stage.
pub fn unquant(
    lsp: &mut [i16],
    order: usize,
    spacing: u16,
    base: i32,
    stages: &[LspStage],
    selector: u8,
    bits: &mut Bits,
)
    requires
        old(bits)@.holds(stage_bits(stages@, 0)),
    ensures
        final(lsp)@ == staged(
            ladder(old(lsp)@, order as int, spacing as int, base as int),
            stages@,
            selector,
            old(bits)@,
            stages@.len(),
        ),
        final(lsp)@.len() == old(lsp)@.len(),
        final(bits)@ == stage_cursor(stages@, old(bits)@, stages@.len()),
        final(bits)@.holds(0),
{
    let ghost l0 = lsp@;
    let ghost b0 = bits@;
    let ghost rungs = ladder(l0, order as int, spacing as int, base as int);
    let mut i: usize = 0;
    while i < order && i < lsp.len()
        invariant
            i <= order,
            i <= lsp@.len() == l0.len(),
            rungs == ladder(l0, order as int, spacing as int, base as int),
            forall|k: int| 0 <= k < i ==> lsp@[k] == rungs[k],
            forall|k: int| i <= k < l0.len() ==> lsp@[k] == l0[k],
        decreases order - i,
    {
        lsp[i] = rung(i, spacing, base);
        i = i + 1;
    }
    assert(lsp@ =~= rungs);
    let mut k: usize = 0;
    while k < stages.len()
        invariant
            k <= stages@.len(),
            lsp@.len() == l0.len(),
            bits@ == stage_cursor(stages@, b0, k as nat),
            bits@.holds(stage_bits(stages@, k as int)),
            lsp@ == staged(rungs, stages@, selector, b0, k as nat),
        decreases stages@.len() - k,
    {
        let st: LspStage = stages[k];
        proof {
            stage_bits_nonnegative(stages@, k + 1);
            reads_keep_room(bits@, width(st.nbits), stage_bits(stages@, k as int));
        }
        let id: u32 = bits.unpack(read_width(st.nbits));
        apply_stage(lsp, &st, selector, id);
        k = k + 1;
    }
}

/// One rung of the ladder.
fn rung(i: usize, spacing: u16, base: i32) -> (r: i16)
    ensures
        r == wrap16(i * spacing + base),
{
    let low: i32 = super::fixed::low32_of(i);
    let v: i32 = add32(mul32(low, spacing as i32), base);
    proof {
        super::fixed::wrap32_congruent(i as int);
        let k = choose|k: int| i - wrap32(i as int) == #[trigger] (k * 0x1_0000_0000);
        let p = low * spacing;
        assert(p + (k * spacing) * 0x1_0000_0000 == i * spacing) by (nonlinear_arith)
            requires
                i - low == k * 0x1_0000_0000,
                p == low * spacing,
        ;
        super::fixed::wrap32_shift(p, k * spacing);
        super::fixed::wrap32_add(i * spacing, base as int);
        super::fixed::wrap16_of_wrap32(i * spacing + base);
    }
    low16(v)
}

} // verus!
