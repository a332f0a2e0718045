//! The innovation unquantiser: a fixed codebook read in subvectors.
//!
//! The codebook belongs to the voice. A selector byte picks one out of an
//! array of them, and each subvector of the excitation is a codebook row,
//! possibly negated.
use vstd::prelude::*;
use super::bits::{read_width, reads_keep_room, room, width, Bits, Cursor};
use super::fixed::{lsl32, sub32, weight, weight_doubles, wrap32};

verus! {

/// How the innovation is split over the bitstream.
#[derive(Debug, Clone, Copy, PartialEq, Eq)]
pub struct SplitCbParams {
    /// Samples per subvector.
    pub subvect_size: usize,
    /// Subvectors per call.
    pub nb_subvect: usize,
    /// Width of a codebook index.
    pub shape_bits: u32,
    /// Whether a sign bit precedes each index.
    pub have_sign: bool,
}

/// Which sub-band's state fields to use.
#[derive(Debug, Clone, Copy, PartialEq, Eq)]
pub enum Band {
    /// Below the split.
    Low,
    /// Above it.
    High,
}

impl Band {
    /// State offset of this band's codebook base pointer.
    pub fn cb_base_offset(self) -> (r: u32)
        ensures
            r == if self is Low {
                0x60u32
            } else {
                0x64u32
            },
    {
        match self {
            Band::Low => 0x60,
            Band::High => 0x64,
        }
    }

    /// State offset of this band's bytes-per-entry word.
    pub fn entry_bytes_offset(self) -> (r: u32)
        ensures
            r == if self is Low {
                0x38u32
            } else {
                0x3cu32
            },
    {
        match self {
            Band::Low => 0x38,
            Band::High => 0x3c,
        }
    }

    /// State offset of this band's scaling shift byte.
    pub fn shift_offset(self) -> (r: u32)
        ensures
            r == if self is Low {
                0x84u32
            } else {
                0x85u32
            },
    {
        match self {
            Band::Low => 0x84,
            Band::High => 0x85,
        }
    }
}

/// The per-voice codebooks of one band.
#[derive(Debug, Clone, Copy)]
pub struct VoiceCodebook<'a> {
    /// The band's whole codebook array.
    pub cb: &'a [i8],
    /// Bytes per entry.
    pub entry_bytes: usize,
    /// Scaling shift.
    pub shift: u8,
}

/// The machine word congruent to `x`.
pub open spec fn wrap_usize(x: int) -> usize {
    (x % (usize::MAX + 1)) as usize
}

/// Adding to a wrapped word gives the wrapped sum.
pub proof fn word_sum(x: int, j: usize)
    ensures
        wrap_usize(x).wrapping_add(j) == wrap_usize(x + j),
{
    vstd::arithmetic::div_mod::lemma_add_mod_noop(x, j as int, usize::MAX + 1);
    vstd::arithmetic::div_mod::lemma_small_mod(j as nat, (usize::MAX + 1) as nat);
    let s = wrap_usize(x) + j;
    if s > usize::MAX {
        vstd::arithmetic::div_mod::lemma_fundamental_div_mod_converse(
            s,
            usize::MAX + 1,
            1,
            s - (usize::MAX + 1),
        );
    } else {
        vstd::arithmetic::div_mod::lemma_small_mod(s as nat, (usize::MAX + 1) as nat);
    }
}

/// A left shift whose amount is the low byte of `amount`, and which gives
/// zero from 32 on.
pub open spec fn shifted(v: int, amount: int) -> i32 {
    if amount % 256 >= 32 {
        0
    } else {
        wrap32(v * weight((amount % 256) as nat))
    }
}

/// A register shift: the amount is the low byte, and 32 or more gives zero.
pub fn arm_lsl(v: i32, amount: u32) -> (r: i32)
    ensures
        r == shifted(v as int, amount as int),
{
    let a: u32 = amount % 256;
    if a >= 32 {
        0
    } else {
        lsl32(v, a)
    }
}

/// Two to the power `n`, modulo the machine word.
fn power_word(n: u32) -> (r: usize)
    ensures
        r == wrap_usize(weight(n as nat)),
{
    proof {
        vstd::arithmetic::div_mod::lemma_small_mod(1, (usize::MAX + 1) as nat);
    }
    let mut p: usize = 1;
    let mut i: u32 = 0;
    while i < n
        invariant
            i <= n,
            p == wrap_usize(weight(i as nat)),
        decreases n - i,
    {
        proof {
            weight_doubles(i as nat);
            vstd::arithmetic::div_mod::lemma_mul_mod_noop(2, weight(i as nat), usize::MAX + 1);
            vstd::arithmetic::div_mod::lemma_mul_mod_noop_right(2, weight(i as nat), usize::MAX + 1);
        }
        p = p.wrapping_mul(2);
        i = i + 1;
    }
    p
}

/// Byte offset of a per-voice codebook from the start of its band's array.
pub fn codebook_offset(entry_bytes: usize, shape_bits: u32, selector: u8) -> (r: usize)
    requires
        shape_bits < usize::BITS,
    ensures
        r == wrap_usize(entry_bytes * (weight(shape_bits as nat) * selector)),
{
    let p: usize = power_word(shape_bits);
    let s: usize = p.wrapping_mul(selector as usize);
    proof {
        let m = usize::MAX + 1;
        let w = weight(shape_bits as nat);
        vstd::arithmetic::div_mod::lemma_mul_mod_noop_left(w, selector as int, m);
        vstd::arithmetic::div_mod::lemma_mul_mod_noop_right(entry_bytes as int, w * selector, m);
    }
    entry_bytes.wrapping_mul(s)
}

/// The cursor after `i` subvectors.
pub open spec fn cursor_at(par: SplitCbParams, b: Cursor, i: nat) -> Cursor
    decreases i,
{
    if i == 0 {
        b
    } else {
        past_sign(par, cursor_at(par, b, (i - 1) as nat)).after(width(par.shape_bits))
    }
}

/// The cursor past a sign bit, where there is one.
pub open spec fn past_sign(par: SplitCbParams, b: Cursor) -> Cursor {
    if par.have_sign {
        b.after(1)
    } else {
        b
    }
}

/// The sign bit of subvector `i`.
pub open spec fn sign_at(par: SplitCbParams, b: Cursor, i: int) -> u32 {
    if par.have_sign {
        cursor_at(par, b, i as nat).value(1)
    } else {
        0
    }
}

/// The codebook index of subvector `i`.
pub open spec fn index_at(par: SplitCbParams, b: Cursor, i: int) -> u32 {
    past_sign(par, cursor_at(par, b, i as nat)).value(width(par.shape_bits))
}

/// Bits per subvector.
pub open spec fn subvector_bits(par: SplitCbParams) -> int {
    room(par.shape_bits) + if par.have_sign {
        1int
    } else {
        0
    }
}

/// Reads every sign and index, in bitstream order.
///
/// Returns the signs, then the indices.
pub fn read_indices(par: &SplitCbParams, bits: &mut Bits) -> (r: (Vec<u32>, Vec<u32>))
    requires
        old(bits)@.holds(par.nb_subvect * subvector_bits(*par)),
    ensures
        r.0@ == Seq::new(par.nb_subvect as nat, |i: int| sign_at(*par, old(bits)@, i)),
        r.1@ == Seq::new(par.nb_subvect as nat, |i: int| index_at(*par, old(bits)@, i)),
        final(bits)@ == cursor_at(*par, old(bits)@, par.nb_subvect as nat),
        final(bits)@.holds(0),
{
    let ghost b0 = bits@;
    let mut signs: Vec<u32> = Vec::new();
    let mut ind: Vec<u32> = Vec::new();
    let mut i: usize = 0;
    while i < par.nb_subvect
        invariant
            i <= par.nb_subvect,
            bits@ == cursor_at(*par, b0, i as nat),
            bits@.holds((par.nb_subvect - i) * subvector_bits(*par)),
            signs@.len() == i,
            ind@.len() == i,
            forall|k: int| 0 <= k < i ==> signs@[k] == sign_at(*par, b0, k),
            forall|k: int| 0 <= k < i ==> ind@[k] == index_at(*par, b0, k),
        decreases par.nb_subvect - i,
    {
        let ghost left = (par.nb_subvect - i) * subvector_bits(*par);
        proof {
            let per = subvector_bits(*par);
            assert(left == per + (par.nb_subvect - i - 1) * per && per <= left) by (nonlinear_arith)
                requires
                    left == (par.nb_subvect - i) * per,
                    par.nb_subvect - i >= 1,
                    per >= 0,
            ;
            if par.have_sign {
                reads_keep_room(bits@, 1, left);
                reads_keep_room(bits@.after(1), width(par.shape_bits), left - 1);
            } else {
                reads_keep_room(bits@, width(par.shape_bits), left);
            }
        }
        let s: u32 = if par.have_sign {
            bits.unpack(1)
        } else {
            0
        };
        let x: u32 = bits.unpack(read_width(par.shape_bits));
        signs.push(s);
        ind.push(x);
        i = i + 1;
    }
    assert(signs@ =~= Seq::new(par.nb_subvect as nat, |i: int| sign_at(*par, b0, i)));
    assert(ind@ =~= Seq::new(par.nb_subvect as nat, |i: int| index_at(*par, b0, i)));
    (signs, ind)
}

/// How far `n` unsigned subvectors move the cursor.
pub proof fn indices_read(par: SplitCbParams, b: Cursor, n: nat)
    requires
        !par.have_sign,
        b.holds(n * room(par.shape_bits)),
    ensures
        cursor_at(par, b, n).wf(),
        cursor_at(par, b, n).at() <= b.at() + n * room(par.shape_bits),
    decreases n,
{
    if n > 0 {
        let m = (n - 1) as nat;
        let per = room(par.shape_bits);
        assert(n * per == m * per + per && m * per >= 0) by (nonlinear_arith)
            requires
                n == m + 1,
                per >= 0,
        ;
        indices_read(par, b, m);
        let c = cursor_at(par, b, m);
        reads_keep_room(c, width(par.shape_bits), per);
    }
}

/// Entry `i` of a list that reads as zero past its end.
pub open spec fn entry(s: Seq<u32>, i: int) -> u32 {
    if 0 <= i < s.len() {
        s[i]
    } else {
        0
    }
}

/// A codebook byte scaled up by `14 - shift`, and negated where `sign` says.
pub open spec fn shape_value(c: i8, shift: int, sign: u32) -> i32 {
    let v = shifted(c as int, 14 - shift);
    if sign != 0 {
        wrap32(-v)
    } else {
        v
    }
}

/// Where in the codebook sample `o` of the excitation comes from.
pub open spec fn codebook_index(par: SplitCbParams, ind: Seq<u32>, o: int) -> int {
    wrap_usize(
        entry(ind, o / par.subvect_size as int) * par.subvect_size + o % par.subvect_size as int,
    ) as int
}

/// What [`expand`] leaves in the excitation.
pub open spec fn expanded(
    cb: Seq<i8>,
    par: SplitCbParams,
    shift: int,
    signs: Seq<u32>,
    ind: Seq<u32>,
    exc: Seq<i32>,
) -> Seq<i32> {
    exc.map(
        |o: int, e: i32|
            if o < par.nb_subvect * par.subvect_size && codebook_index(par, ind, o) < cb.len() {
                shape_value(
                    cb[codebook_index(par, ind, o)],
                    shift,
                    entry(signs, o / par.subvect_size as int),
                )
            } else {
                e
            },
    )
}

/// Expands the innovation from signs and indices already read.
///
/// `cb` starts at the voice's own codebook. A codebook too short for an index
/// leaves that part of the excitation alone.
pub fn expand(
    cb: &[i8],
    par: &SplitCbParams,
    shift: u32,
    signs: &[u32],
    ind: &[u32],
    exc: &mut [i32],
)
    requires
        par.nb_subvect * par.subvect_size <= usize::MAX,
    ensures
        final(exc)@ == expanded(cb@, *par, shift as int, signs@, ind@, old(exc)@),
{
    let up: u32 = 14u32.wrapping_sub(shift);
    let ghost e0 = exc@;
    let ghost want = expanded(cb@, *par, shift as int, signs@, ind@, e0);
    let ss: usize = par.subvect_size;
    let mut i: usize = 0;
    let mut at: usize = 0;
    while i < par.nb_subvect
        invariant
            i <= par.nb_subvect,
            ss == par.subvect_size,
            par.nb_subvect * par.subvect_size <= usize::MAX,
            at == i * ss,
            up as int % 256 == (14 - shift) % 256,
            want == expanded(cb@, *par, shift as int, signs@, ind@, e0),
            exc@.len() == e0.len() == want.len(),
            forall|o: int| 0 <= o < e0.len() && o < at ==> exc@[o] == want[o],
            forall|o: int| at <= o < e0.len() ==> exc@[o] == e0[o],
        decreases par.nb_subvect - i,
    {
        let negate: bool = if i < signs.len() {
            signs[i] != 0
        } else {
            false
        };
        let x: u32 = if i < ind.len() {
            ind[i]
        } else {
            0
        };
        let base: usize = (x as usize).wrapping_mul(ss);
        proof {
            assert(i * ss + ss <= par.nb_subvect * ss) by (nonlinear_arith)
                requires
                    i < par.nb_subvect,
            ;
        }
        let mut j: usize = 0;
        while j < ss
            invariant
                i < par.nb_subvect,
                j <= ss,
                ss == par.subvect_size,
                at == i * ss,
                at + ss <= par.nb_subvect * par.subvect_size <= usize::MAX,
                up as int % 256 == (14 - shift) % 256,
                x == entry(ind@, i as int),
                negate == (entry(signs@, i as int) != 0),
                base == wrap_usize(x * ss),
                want == expanded(cb@, *par, shift as int, signs@, ind@, e0),
                exc@.len() == e0.len() == want.len(),
                forall|o: int| 0 <= o < e0.len() && o < at + j ==> exc@[o] == want[o],
                forall|o: int| at + j <= o < e0.len() ==> exc@[o] == e0[o],
            decreases ss - j,
        {
            let k: usize = base.wrapping_add(j);
            let ghost o = at + j;
            proof {
                vstd::arithmetic::div_mod::lemma_fundamental_div_mod_converse(
                    o,
                    ss as int,
                    i as int,
                    j as int,
                );
                word_sum(x * ss, j);
                assert(k == codebook_index(*par, ind@, o));
            }
            if k < cb.len() && at + j < exc.len() {
                let v: i32 = arm_lsl(cb[k] as i32, up);
                exc[at + j] = if negate {
                    sub32(0, v)
                } else {
                    v
                };
            }
            j = j + 1;
        }
        i = i + 1;
        assert(i * ss == (i - 1) * ss + ss) by (nonlinear_arith);
        at = at + ss;
    }
    assert(exc@ =~= want);
}

/// The rest of a buffer from `from` on, nothing where it is too short.
pub open spec fn tail(s: Seq<i8>, from: int) -> Seq<i8> {
    if from <= s.len() {
        s.subrange(from, s.len() as int)
    } else {
        Seq::empty()
    }
}

/// The codebook [`unquant`] reads.
pub open spec fn voice_codebook(cbk: VoiceCodebook, shape_bits: u32, selector: u8) -> Seq<i8> {
    tail(
        cbk.cb@,
        wrap_usize(cbk.entry_bytes * (weight(shape_bits as nat) * selector)) as int,
    )
}

/// The excitation [`unquant`] leaves.
pub open spec fn innovation(
    cbk: VoiceCodebook,
    selector: u8,
    par: SplitCbParams,
    b: Cursor,
    exc: Seq<i32>,
) -> Seq<i32> {
    expanded(
        voice_codebook(cbk, par.shape_bits, selector),
        par,
        cbk.shift as int,
        Seq::new(par.nb_subvect as nat, |i: int| sign_at(par, b, i)),
        Seq::new(par.nb_subvect as nat, |i: int| index_at(par, b, i)),
        exc,
    )
}

/// Resolves the voice's codebook, reads the bitstream, and expands into `exc`.
pub fn unquant(
    cbk: &VoiceCodebook,
    selector: u8,
    par: &SplitCbParams,
    bits: &mut Bits,
    exc: &mut [i32],
)
    requires
        par.shape_bits < usize::BITS,
        par.nb_subvect * par.subvect_size <= usize::MAX,
        old(bits)@.holds(par.nb_subvect * subvector_bits(*par)),
    ensures
        final(exc)@ == innovation(*cbk, selector, *par, old(bits)@, old(exc)@),
        final(bits)@ == cursor_at(*par, old(bits)@, par.nb_subvect as nat),
        final(bits)@.holds(0),
{
    let off: usize = codebook_offset(cbk.entry_bytes, par.shape_bits, selector);
    let from: usize = if off <= cbk.cb.len() {
        off
    } else {
        cbk.cb.len()
    };
    let cb: &[i8] = vstd::slice::slice_subrange(cbk.cb, from, cbk.cb.len());
    assert(cb@ =~= voice_codebook(*cbk, par.shape_bits, selector));
    let (signs, ind) = read_indices(par, bits);
    expand(cb, par, cbk.shift as u32, signs.as_slice(), ind.as_slice(), exc);
}

} // verus!
