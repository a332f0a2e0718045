//! A phrase as a mapping routine sees it: its phones and words laid out in
//! memory, one call for each broad phone, and the narrow phones it leaves.
//!
//! The routine itself runs elsewhere. It is given the address of a context, a
//! word, a phone and a place for the number of narrow phones, and returns the
//! next phone.
use vstd::prelude::*;
use vstd::utf8::encode_utf8;
use super::narrow::Phone;
use crate::data::sde::strings;
use crate::data::text::{latin1, latin1_chars};
use crate::engine::calls::others::{
    in_order, listings_are_sorted, order_carries_over, order_tells_apart, ordered, sort_names,
};
use crate::engine::calls::strings::order_of;
use crate::engine::cfmt::push_bytes;
use crate::engine::runtime::{bytes_of, imageable, map_images, same, zeros};
use crate::xrt::mem::{imaged, word_bytes, Mem, Space};

verus! {

/// Where the phrase is laid out.
pub const HEAP: u32 = 0x1000_0000;

/// Where the stack is.
pub const STACK: u32 = 0x2000_0000;

/// How large it is.
pub const STACK_SIZE: u32 = 0x4000;

/// The style.
pub const STYLE: u32 = 3;

/// A size in whole eights.
pub open spec fn eights(n: int) -> int {
    (n + 7) / 8 * 8
}

/// How many phones there is room for.
pub open spec fn room(phones: int) -> int {
    phones + 16
}

/// How many words each word's record takes in all.
pub open spec fn elem_words(words: int) -> int {
    eights(
        20 * (if words < 1 {
            1
        } else {
            words
        }),
    ) / 4
}

/// Where the narrow phones go.
pub open spec fn out_at() -> int {
    0x1000_0100
}

/// Where the broad phones are.
pub open spec fn phones_at(phones: int) -> int {
    out_at() + 16 * room(phones) + 64
}

/// Where the phrase's record is.
pub open spec fn phrase_at(phones: int) -> int {
    phones_at(phones) + 8 * room(phones)
}

/// Where the words' records are.
pub open spec fn elems_at(phones: int) -> int {
    phrase_at(phones) + 112
}

/// Where the configuration is.
pub open spec fn cfg_at(phones: int, words: int) -> int {
    elems_at(phones) + 4 * elem_words(words)
}

/// Where the number of narrow phones goes.
pub open spec fn count_at(phones: int, words: int) -> int {
    cfg_at(phones, words) + 0x400
}

/// Where the spelling of word `k` is.
pub open spec fn spelling_at(phones: int, words: Seq<Seq<char>>, k: nat) -> int
    decreases k,
{
    if k == 0 {
        count_at(phones, words.len() as int) + 8
    } else {
        spelling_at(phones, words, (k - 1) as nat) + eights(
            encode_utf8(words[k - 1]).len() as int + 1,
        )
    }
}

/// Word `k` of the context: where everything is.
pub open spec fn context_word(phones: int, words: int, k: int) -> u32 {
    if k == 1 {
        out_at() as u32
    } else if k == 4 {
        phones_at(phones) as u32
    } else if k == 10 {
        phrase_at(phones) as u32
    } else if k == 11 {
        elems_at(phones) as u32
    } else if k == 16 {
        cfg_at(phones, words) as u32
    } else {
        0
    }
}

/// Word `k` of the broad phones: each is its word and its code.
pub open spec fn phone_word(ph: Seq<Phone>, k: int) -> u32 {
    if k / 2 >= ph.len() {
        0
    } else if k % 2 == 0 {
        ph[k / 2].word
    } else {
        ph[k / 2].code as u32
    }
}

/// A word's flag byte.
pub open spec fn flag_of(elem12: Seq<u8>, k: int) -> u8 {
    if k < elem12.len() {
        elem12[k]
    } else {
        0
    }
}

/// Word `k` of the words' records: each holds the address of a spelling and a
/// flag byte.
pub open spec fn elem_word(
    phones: int,
    words: Seq<Seq<char>>,
    elem12: Seq<u8>,
    k: int,
) -> u32 {
    if k / 5 >= words.len() {
        0
    } else if k % 5 == 1 {
        spelling_at(phones, words, (k / 5) as nat) as u32
    } else if k % 5 == 4 {
        (flag_of(elem12, k / 5) * 0x1_0000) as u32
    } else {
        0
    }
}

/// Everything but the spellings, as words.
pub open spec fn layout_words(ph: Seq<Phone>, words: Seq<Seq<char>>, elem12: Seq<u8>) -> Seq<u32> {
    let (n, w) = (ph.len() as int, words.len() as int);
    Seq::new(64, |k: int| context_word(n, w, k)) + Seq::new(
        (4 * room(n) + 16) as nat,
        |k: int| 0u32,
    ) + Seq::new((2 * room(n)) as nat, |k: int| phone_word(ph, k)) + Seq::new(
        28,
        |k: int|
            if k == 1 {
                w as u32
            } else {
                0u32
            },
    ) + Seq::new(elem_words(w) as nat, |k: int| elem_word(n, words, elem12, k)) + Seq::new(
        256,
        |k: int|
            if k == 195 {
                3u32
            } else {
                0u32
            },
    ) + Seq::new(2, |k: int| 0u32)
}

/// Words as bytes.
pub open spec fn words_as_bytes(v: Seq<u32>) -> Seq<u8>
    decreases v.len(),
{
    if v.len() == 0 {
        Seq::empty()
    } else {
        words_as_bytes(v.drop_last()) + word_bytes(v.last())
    }
}

/// A spelling with zeros behind it, up to whole eights.
pub open spec fn spelled_out(s: Seq<char>) -> Seq<u8> {
    let b = encode_utf8(s);
    b + zeros(eights(b.len() as int + 1) - b.len())
}

/// The first `n` spellings.
pub open spec fn spellings(words: Seq<Seq<char>>, n: nat) -> Seq<u8>
    decreases n,
{
    if n == 0 {
        Seq::empty()
    } else {
        spellings(words, (n - 1) as nat) + spelled_out(words[n - 1])
    }
}

/// A phrase laid out.
pub open spec fn layout(ph: Seq<Phone>, words: Seq<Seq<char>>, elem12: Seq<u8>) -> Seq<u8> {
    words_as_bytes(layout_words(ph, words, elem12)) + spellings(words, words.len())
}

/// Memory with the routine's own data, a stack and a phrase.
pub open spec fn phrase_space(
    image: Seq<(u32, &'static [u8])>,
    ph: Seq<Phone>,
    words: Seq<Seq<char>>,
    elem12: Seq<u8>,
) -> Space {
    imaged(image, image.len()).map(0x2000_0000, zeros(0x4000)).map(
        0x1000_0000,
        layout(ph, words, elem12),
    )
}

fn push_word(out: &mut Vec<u8>, v: u32)
    ensures
        final(out)@ == old(out)@ + word_bytes(v),
{
    out.push((v % 0x100) as u8);
    out.push((v / 0x100 % 0x100) as u8);
    out.push((v / 0x1_0000 % 0x100) as u8);
    out.push((v / 0x100_0000) as u8);
    assert(out@ =~= old(out)@ + word_bytes(v));
}

fn to_bytes(v: &Vec<u32>) -> (r: Vec<u8>)
    ensures
        r@ == words_as_bytes(v@),
{
    let mut out: Vec<u8> = Vec::new();
    let mut i: usize = 0;
    assert(v@.take(0) =~= Seq::empty());
    while i < v.len()
        invariant
            i <= v@.len(),
            out@ == words_as_bytes(v@.take(i as int)),
        decreases v@.len() - i,
    {
        push_word(&mut out, v[i]);
        proof {
            let t = v@.take(i + 1);
            assert(t.drop_last() =~= v@.take(i as int));
            assert(t.last() == v@[i as int]);
        }
        i = i + 1;
    }
    assert(v@.take(v@.len() as int) =~= v@);
    out
}

/// Puts `n` words at the end: zeros, but for `v` at `at`.
fn push_block(out: &mut Vec<u32>, n: usize, at: usize, v: u32)
    ensures
        final(out)@ == old(out)@ + Seq::new(
            n as nat,
            |k: int|
                if k == at {
                    v
                } else {
                    0u32
                },
        ),
{
    let ghost before = out@;
    let ghost all = Seq::new(
        n as nat,
        |k: int|
            if k == at {
                v
            } else {
                0u32
            },
    );
    let mut k: usize = 0;
    assert(before + all.take(0) =~= before);
    while k < n
        invariant
            k <= n,
            all == Seq::new(
                n as nat,
                |k: int|
                    if k == at {
                        v
                    } else {
                        0u32
                    },
            ),
            out@ == before + all.take(k as int),
        decreases n - k,
    {
        out.push(
            if k == at {
                v
            } else {
                0
            },
        );
        assert(out@ =~= before + all.take(k + 1));
        k = k + 1;
    }
    assert(all.take(n as int) =~= all);
}

/// Puts the broad phones at the end.
fn push_phones(out: &mut Vec<u32>, ph: &[Phone], n: usize)
    requires
        2 * n <= usize::MAX,
    ensures
        final(out)@ == old(out)@ + Seq::new((2 * n) as nat, |k: int| phone_word(ph@, k)),
{
    let ghost before = out@;
    let ghost all = Seq::new((2 * n) as nat, |k: int| phone_word(ph@, k));
    let mut i: usize = 0;
    assert(before + all.take(0) =~= before);
    while i < n
        invariant
            i <= n,
            all == Seq::new((2 * n) as nat, |k: int| phone_word(ph@, k)),
            out@ == before + all.take(2 * i),
        decreases n - i,
    {
        let (w, c) = if i < ph.len() {
            (ph[i].word, ph[i].code as u32)
        } else {
            (0, 0)
        };
        out.push(w);
        out.push(c);
        assert(all[2 * i] == w && all[2 * i + 1] == c);
        assert(out@ =~= before + all.take(2 * (i + 1)));
        i = i + 1;
    }
    assert(all.take(2 * n) =~= all);
}

/// Puts the words' records at the end. `first` is where the spellings begin.
fn push_elems(
    out: &mut Vec<u32>,
    words: &Vec<String>,
    elem12: &[u8],
    first: u32,
    n: usize,
    Ghost(phones): Ghost<int>,
)
    requires
        first == spelling_at(phones, strings(words@), 0),
        spelling_at(phones, strings(words@), words@.len()) <= u32::MAX,
        n == elem_words(words@.len() as int),
        phones >= 0,
    ensures
        final(out)@ == old(out)@ + Seq::new(
            n as nat,
            |k: int| elem_word(phones, strings(words@), elem12@, k),
        ),
{
    let ghost before = out@;
    let ghost ws = strings(words@);
    let ghost all = Seq::new(n as nat, |k: int| elem_word(phones, ws, elem12@, k));
    let mut i: usize = 0;
    let mut at: u32 = first;
    assert(before + all.take(0) =~= before);
    while i < words.len()
        invariant
            i <= words@.len(),
            ws == strings(words@),
            phones >= 0,
            n == elem_words(words@.len() as int),
            all == Seq::new(n as nat, |k: int| elem_word(phones, ws, elem12@, k)),
            at == spelling_at(phones, ws, i as nat),
            spelling_at(phones, ws, words@.len()) <= u32::MAX,
            out@ == before + all.take(5 * i),
        decreases words@.len() - i,
    {
        let f: u8 = if i < elem12.len() {
            elem12[i]
        } else {
            0
        };
        out.push(0);
        out.push(at);
        out.push(0);
        out.push(0);
        out.push(f as u32 * 0x1_0000);
        proof {
            assert(5 * (i + 1) <= n);
            assert(all[5 * i] == 0 && all[5 * i + 1] == at && all[5 * i + 2] == 0 && all[5 * i + 3]
                == 0 && all[5 * i + 4] == f * 0x1_0000);
            assert(out@ =~= before + all.take(5 * (i + 1)));
            spellings_grow(phones, ws, (i + 1) as nat, words@.len());
            assert(ws[i as int] == words@[i as int]@);
        }
        let len: usize = bytes_of(words[i].as_str()).len();
        assert(spelling_at(phones, ws, (i + 1) as nat) == at + eights(len as int + 1));
        at = at + ((len as u64 + 8) / 8 * 8) as u32;
        i = i + 1;
    }
    let ghost done = out@;
    let mut k: usize = 5 * words.len();
    while k < n
        invariant
            5 * words@.len() <= k <= n,
            ws == strings(words@),
            all == Seq::new(n as nat, |k: int| elem_word(phones, ws, elem12@, k)),
            out@ == before + all.take(k as int),
        decreases n - k,
    {
        out.push(0);
        assert(all[k as int] == 0);
        assert(out@ =~= before + all.take(k + 1));
        k = k + 1;
    }
    assert(all.take(n as int) =~= all);
}

proof fn spellings_grow(phones: int, words: Seq<Seq<char>>, k: nat, n: nat)
    requires
        k <= n,
    ensures
        spelling_at(phones, words, k) <= spelling_at(phones, words, n),
    decreases n,
{
    if k < n {
        spellings_grow(phones, words, k, (n - 1) as nat);
    }
}

/// Puts the spellings at the end.
fn push_spellings(out: &mut Vec<u8>, words: &Vec<String>)
    ensures
        final(out)@ == old(out)@ + spellings(strings(words@), words@.len()),
{
    let ghost before = out@;
    let ghost ws = strings(words@);
    let mut i: usize = 0;
    assert(before + Seq::empty() =~= before);
    while i < words.len()
        invariant
            i <= words@.len(),
            ws == strings(words@),
            out@ == before + spellings(ws, i as nat),
        decreases words@.len() - i,
    {
        assert(ws[i as int] == words@[i as int]@);
        let ghost so_far = out@;
        let b: Vec<u8> = bytes_of(words[i].as_str());
        push_bytes(out, b.as_slice());
        let fill: usize = 8 - b.len() % 8;
        let mut k: usize = 0;
        assert(fill == eights(b@.len() as int + 1) - b@.len());
        assert(so_far + b@ + zeros(0) =~= so_far + b@);
        while k < fill
            invariant
                k <= fill,
                out@ == so_far + b@ + zeros(k as int),
            decreases fill - k,
        {
            out.push(0);
            assert(out@ =~= so_far + b@ + zeros(k + 1));
            k = k + 1;
        }
        assert(out@ =~= before + spellings(ws, (i + 1) as nat));
        i = i + 1;
    }
}

/// Where the last spelling ends.
fn end_of(words: &Vec<String>, first: u64, Ghost(phones): Ghost<int>) -> (r: Option<u64>)
    requires
        first == spelling_at(phones, strings(words@), 0),
    ensures
        match r {
            Some(e) => e == spelling_at(phones, strings(words@), words@.len()) && e <= 0xffff_ffff,
            None => spelling_at(phones, strings(words@), words@.len()) > 0xffff_ffff,
        },
{
    let ghost ws = strings(words@);
    if first > 0xffff_ffff {
        proof {
            spellings_grow(phones, ws, 0, words@.len());
        }
        return None;
    }
    let mut at: u64 = first;
    let mut i: usize = 0;
    while i < words.len()
        invariant
            i <= words@.len(),
            ws == strings(words@),
            at <= 0xffff_ffff,
            at == spelling_at(phones, ws, i as nat),
        decreases words@.len() - i,
    {
        assert(ws[i as int] == words@[i as int]@);
        let len: usize = bytes_of(words[i].as_str()).len();
        let next: u128 = at as u128 + (len as u128 + 8) / 8 * 8;
        assert(next == spelling_at(phones, ws, (i + 1) as nat));
        if next > 0xffff_ffff {
            proof {
                spellings_grow(phones, ws, (i + 1) as nat, words@.len());
            }
            return None;
        }
        at = next as u64;
        i = i + 1;
    }
    Some(at)
}

/// Lays a phrase out. Nothing comes of it where 32 bits do not reach its end.
fn lay_out(ph: &[Phone], words: &Vec<String>, elem12: &[u8]) -> (r: Option<Vec<u8>>)
    ensures
        match r {
            Some(v) => v@ == layout(ph@, strings(words@), elem12@) && spelling_at(
                ph@.len() as int,
                strings(words@),
                words@.len(),
            ) <= 0xffff_ffff,
            None => spelling_at(ph@.len() as int, strings(words@), words@.len()) > 0xffff_ffff,
        },
{
    let ghost (p, ws) = (ph@.len() as int, strings(words@));
    let ghost w = words@.len() as int;
    proof {
        spellings_grow(p, ws, 0, words@.len());
    }
    if ph.len() as u64 > 0x1000_0000 || words.len() as u64 > 0x1000_0000 {
        return None;
    }
    let n: usize = ph.len() + 16;
    let shown: usize = if words.len() < 1 {
        1
    } else {
        words.len()
    };
    let elem: u64 = (20 * shown as u64 + 7) / 8 * 8 / 4;
    assert(elem == elem_words(w));
    let phones: u64 = 0x1000_0100 + 16 * n as u64 + 64;
    let phrase: u64 = phones + 8 * n as u64;
    let elems: u64 = phrase + 112;
    let cfg: u64 = elems + 4 * elem;
    let first: u64 = cfg + 0x400 + 8;
    assert(first == spelling_at(p, ws, 0));
    if end_of(words, first, Ghost(p)).is_none() {
        return None;
    }
    let mut out: Vec<u32> = Vec::new();
    push_block(&mut out, 64, 64, 0);
    out[1] = 0x1000_0100;
    out[4] = phones as u32;
    out[10] = phrase as u32;
    out[11] = elems as u32;
    out[16] = cfg as u32;
    assert(out@ =~= Seq::new(64, |k: int| context_word(p, w, k)));
    let ghost a = out@;
    push_block(&mut out, 4 * n + 16, usize::MAX, 0);
    assert(out@ =~= a + Seq::new((4 * room(p) + 16) as nat, |k: int| 0u32));
    push_phones(&mut out, ph, n);
    let ghost b = out@;
    push_block(&mut out, 28, 1, words.len() as u32);
    assert(out@ =~= b + Seq::new(
        28,
        |k: int|
            if k == 1 {
                w as u32
            } else {
                0u32
            },
    ));
    push_elems(&mut out, words, elem12, first as u32, elem as usize, Ghost(p));
    let ghost c = out@;
    push_block(&mut out, 256, 195, STYLE);
    assert(out@ =~= c + Seq::new(
        256,
        |k: int|
            if k == 195 {
                3u32
            } else {
                0u32
            },
    ));
    let ghost d = out@;
    push_block(&mut out, 2, 2, 0);
    assert(out@ =~= d + Seq::new(2, |k: int| 0u32));
    assert(out@ =~= layout_words(ph@, ws, elem12@));
    let mut bytes: Vec<u8> = to_bytes(&out);
    push_spellings(&mut bytes, words);
    Some(bytes)
}

/// A phrase that is being mapped.
pub struct Phrase {
    /// Memory.
    pub m: Mem,
    /// The broad phones.
    pub phones: Vec<Phone>,
    /// Where the number of narrow phones is.
    pub count: u32,
    /// Where the broad phones are.
    pub at: u32,
    /// The next broad phone.
    pub i: u32,
    /// How many narrow phones there are.
    pub last_j: u32,
    /// The broad phone that each narrow one came from.
    pub owner: Vec<u32>,
}

/// Narrow phones' owners after one more call.
pub open spec fn owned(owner: Seq<u32>, last: u32, by: u32) -> Seq<u32> {
    if owner.len() < last {
        owner + Seq::new((last - owner.len()) as nat, |k: int| by)
    } else {
        owner
    }
}

/// Whether a phrase fits in memory beside the routine's own data.
pub open spec fn phrase_fits(
    image: Seq<(u32, &'static [u8])>,
    phones: Seq<Phone>,
    ws: Seq<Seq<char>>,
    elem12: Seq<u8>,
) -> bool {
    let base = imaged(image, image.len());
    let bytes = layout(phones, ws, elem12);
    &&& imageable(image, image.len())
    &&& spelling_at(phones.len() as int, ws, ws.len()) <= 0xffff_ffff
    &&& base.vacant(0x2000_0000, 0x4000)
    &&& base.map(0x2000_0000, zeros(0x4000)).vacant(0x1000_0000, bytes.len() as int)
}

impl Phrase {
    /// Lays a phrase out in memory, beside the routine's own data. Nothing
    /// comes of it where it does not fit.
    pub fn new(
        image: &Vec<(u32, &'static [u8])>,
        phones: &[Phone],
        words: &Vec<String>,
        elem12: &[u8],
    ) -> (r: Option<Phrase>)
        ensures
            ({
                let (n, ws) = (phones@.len() as int, strings(words@));
                match r {
                    Some(p) => {
                        &&& phrase_fits(image@, phones@, ws, elem12@)
                        &&& p.m@ == phrase_space(image@, phones@, ws, elem12@)
                        &&& p.phones@ == phones@
                        &&& p.count == count_at(n, ws.len() as int)
                        &&& p.at == phones_at(n)
                        &&& p.i == 0
                        &&& p.last_j == 0
                        &&& p.owner@.len() == 0
                    },
                    None => !phrase_fits(image@, phones@, ws, elem12@),
                }
            }),
    {
        let bytes: Vec<u8> = match lay_out(phones, words, elem12) {
            Some(v) => v,
            None => {
                return None;
            },
        };
        let mut m: Mem = match map_images(image) {
            Some(m) => m,
            None => {
                return None;
            },
        };
        if !m.vacant(STACK, STACK_SIZE as u64) {
            return None;
        }
        m.zeroed(STACK, STACK_SIZE);
        assert(Seq::new(0x4000, |i: int| 0u8) =~= zeros(0x4000));
        if !m.vacant(HEAP, bytes.len() as u64) {
            return None;
        }
        m.map(HEAP, bytes);
        let ghost ws = strings(words@);
        proof {
            spellings_grow(phones@.len() as int, ws, 0, words@.len());
        }
        let n: u32 = phones.len() as u32 + 16;
        let shown: u32 = if words.len() < 1 {
            1
        } else {
            words.len() as u32
        };
        let at: u32 = 0x1000_0100 + 16 * n + 64;
        let count: u32 = at + 8 * n + 112 + (20 * shown + 7) / 8 * 8 + 0x400;
        Some(
            Phrase {
                m,
                phones: vstd::slice::slice_to_vec(phones),
                count,
                at,
                i: 0,
                last_j: 0,
                owner: Vec::new(),
            },
        )
    }

    /// Where the stack pointer is.
    pub fn sp(&self) -> (r: u32)
        ensures
            r == 0x2000_3ff0,
    {
        STACK + STACK_SIZE - 16
    }

    /// Lays out the next call: the routine's arguments, and on the stack where
    /// the broad phones are. Nothing where all phones were taken, or there is
    /// no stack.
    pub fn next_call(&mut self) -> (r: Option<Vec<u32>>)
        ensures
            ({
                let p = *old(self);
                if p.i < p.phones@.len() && p.m@.mapped(0x2000_3ff0, 4) {
                    &&& r is Some
                    &&& r->Some_0@ == seq![HEAP, p.phones@[p.i as int].word, p.i, p.count]
                    &&& final(self).m@ == p.m@.write(0x2000_3ff0, word_bytes(p.at))
                } else {
                    r is None && final(self).m@ == p.m@
                }
            }),
            final(self).phones == old(self).phones,
            final(self).count == old(self).count,
            final(self).at == old(self).at,
            final(self).i == old(self).i,
            final(self).last_j == old(self).last_j,
            final(self).owner == old(self).owner,
    {
        let sp: u32 = self.sp();
        if self.i as u64 >= self.phones.len() as u64 || !self.m.mapped(sp, 4) {
            return None;
        }
        let word: u32 = self.phones[self.i as usize].word;
        self.m.w32(sp, self.at);
        let args: Vec<u32> = vec![HEAP, word, self.i, self.count];
        assert(args@ =~= seq![HEAP, word, self.i, self.count]);
        Some(args)
    }

    /// Takes what a call returned: the next broad phone. The narrow phones that
    /// it left belong to the one that was taken.
    pub fn returned(&mut self, next: u32) -> (r: bool)
        ensures
            r == old(self).m@.mapped(old(self).count as int, 4),
            r ==> {
                let last = old(self).m@.word(old(self).count as int);
                &&& final(self).i == next
                &&& final(self).last_j == last
                &&& final(self).owner@ == owned(old(self).owner@, last, old(self).i)
            },
            !r ==> *final(self) == *old(self),
            final(self).m == old(self).m,
            final(self).phones == old(self).phones,
            final(self).count == old(self).count,
            final(self).at == old(self).at,
    {
        if !self.m.mapped(self.count, 4) {
            return false;
        }
        let before: u32 = self.i;
        let last: u32 = self.m.r32(self.count);
        let ghost own = self.owner@;
        while (self.owner.len() as u64) < last as u64
            invariant
                self.m == old(self).m,
                self.phones == old(self).phones,
                self.count == old(self).count,
                self.at == old(self).at,
                own == old(self).owner@,
                own.len() <= self.owner@.len(),
                own.len() < last ==> self.owner@.len() <= last,
                own.len() >= last ==> self.owner@.len() == own.len(),
                self.owner@ == own + Seq::new(
                    (self.owner@.len() - own.len()) as nat,
                    |k: int| before,
                ),
            decreases last - self.owner@.len(),
        {
            self.owner.push(before);
            assert(self.owner@ =~= own + Seq::new(
                (self.owner@.len() - own.len()) as nat,
                |k: int| before,
            ));
        }
        assert(self.owner@ =~= owned(own, last, before));
        self.i = next;
        self.last_j = last;
        true
    }

    /// The narrow phones; none where they are not there.
    pub fn codes(&self) -> (r: Option<Vec<u8>>)
        ensures
            match r {
                Some(v) => {
                    &&& v@ == Seq::new(
                        self.last_j as nat,
                        |k: int| self.m@.at(0x1000_0106 + 16 * k),
                    )
                    &&& forall|k: int| 0 <= k < self.last_j ==> #[trigger] code_there(self.m@, k)
                },
                None => exists|k: int|
                    0 <= k < self.last_j && !#[trigger] code_there(self.m@, k),
            },
    {
        let mut out: Vec<u8> = Vec::new();
        let mut k: u32 = 0;
        while k < self.last_j
            invariant
                k <= self.last_j,
                out@ == Seq::new(k as nat, |k: int| self.m@.at(0x1000_0106 + 16 * k)),
                forall|i: int| 0 <= i < k ==> #[trigger] code_there(self.m@, i),
            decreases self.last_j - k,
        {
            let at: u64 = 0x1000_0106 + 16 * k as u64;
            if at > 0xffff_ffff || !self.m.mapped(at as u32, 1) {
                assert(!code_there(self.m@, k as int));
                return None;
            }
            out.push(self.m.r8(at as u32));
            assert(out@ =~= Seq::new((k + 1) as nat, |k: int| self.m@.at(0x1000_0106 + 16 * k)));
            k = k + 1;
        }
        Some(out)
    }
}

/// Whether narrow phone `k` is there.
pub open spec fn code_there(m: Space, k: int) -> bool {
    0x1000_0106 + 16 * k <= u32::MAX && m.mapped(0x1000_0106 + 16 * k, 1)
}

proof fn bytes_of_words(v: Seq<u32>, k: int)
    requires
        0 <= k < v.len(),
    ensures
        words_as_bytes(v).len() == 4 * v.len(),
        words_as_bytes(v).subrange(4 * k, 4 * k + 4) == word_bytes(v[k]),
    decreases v.len(),
{
    let t = v.drop_last();
    let b = words_as_bytes(t);
    words_len(t);
    if k < t.len() {
        bytes_of_words(t, k);
        assert(words_as_bytes(v).subrange(4 * k, 4 * k + 4) =~= b.subrange(4 * k, 4 * k + 4));
    } else {
        assert(words_as_bytes(v).subrange(4 * k, 4 * k + 4) =~= word_bytes(v[k]));
    }
}

proof fn words_len(v: Seq<u32>)
    ensures
        words_as_bytes(v).len() == 4 * v.len(),
    decreases v.len(),
{
    if v.len() > 0 {
        words_len(v.drop_last());
    }
}

/// Word `k` of a phrase that was laid out reads back.
proof fn layout_word_reads(
    image: Seq<(u32, &'static [u8])>,
    ph: Seq<Phone>,
    words: Seq<Seq<char>>,
    elem12: Seq<u8>,
    k: int,
)
    requires
        0 <= k < layout_words(ph, words, elem12).len(),
    ensures
        phrase_space(image, ph, words, elem12).word(0x1000_0000 + 4 * k) == layout_words(
            ph,
            words,
            elem12,
        )[k],
{
    let v = layout_words(ph, words, elem12);
    let m = phrase_space(image, ph, words, elem12);
    let more = spellings(words, words.len());
    words_len(v);
    assert forall|i: int| 0 <= i < 4 * v.len() implies #[trigger] m.at(0x1000_0000 + i)
        == words_as_bytes(v)[i] by {
        assert(layout(ph, words, elem12)[i] == words_as_bytes(v)[i]);
    }
    words_read(m, 0x1000_0000, v, k);
}

proof fn words_read(m: Space, base: int, v: Seq<u32>, k: int)
    requires
        0 <= k < v.len(),
        forall|i: int| 0 <= i < 4 * v.len() ==> #[trigger] m.at(base + i) == words_as_bytes(v)[i],
    ensures
        m.word(base + 4 * k) == v[k],
{
    let b = words_as_bytes(v);
    bytes_of_words(v, k);
    let part = b.subrange(4 * k, 4 * k + 4);
    let a = base + 4 * k;
    assert(part[0] == b[4 * k] && part[1] == b[4 * k + 1] && part[2] == b[4 * k + 2] && part[3]
        == b[4 * k + 3]);
    assert(m.at(base + (4 * k)) == b[4 * k]);
    assert(m.at(base + (4 * k + 1)) == b[4 * k + 1]);
    assert(m.at(base + (4 * k + 2)) == b[4 * k + 2]);
    assert(m.at(base + (4 * k + 3)) == b[4 * k + 3]);
    crate::xrt::cpu::word_from_bytes(m, a, v[k]);
}

/// The context leads to the phones: what it says is where they are, and each
/// is there as it was given.
pub proof fn context_leads_to_phones(
    image: Seq<(u32, &'static [u8])>,
    ph: Seq<Phone>,
    words: Seq<Seq<char>>,
    elem12: Seq<u8>,
    k: int,
)
    requires
        0 <= k < ph.len(),
        spelling_at(ph.len() as int, words, words.len()) <= u32::MAX,
    ensures
        ({
            let m = phrase_space(image, ph, words, elem12);
            let at = m.word(0x1000_0010) as int;
            &&& m.word(at + 8 * k) == ph[k].word
            &&& m.word(at + 8 * k + 4) == ph[k].code
        }),
{
    let n = ph.len() as int;
    let v = layout_words(ph, words, elem12);
    spellings_grow(n, words, 0, words.len());
    layout_word_reads(image, ph, words, elem12, 4);
    assert(v[4] == context_word(n, words.len() as int, 4));
    let start = 64 + 4 * room(n) + 16;
    assert(v[start + 2 * k] == phone_word(ph, 2 * k));
    assert(v[start + 2 * k + 1] == phone_word(ph, 2 * k + 1));
    layout_word_reads(image, ph, words, elem12, start + 2 * k);
    layout_word_reads(image, ph, words, elem12, start + 2 * k + 1);
}

/// Whether a byte is one that can be seen.
pub open spec fn is_graphic(b: u8) -> bool {
    0x21 <= b <= 0x7e
}

/// Whether bytes are a text that can be seen.
pub open spec fn is_literal(s: Seq<u8>) -> bool {
    s.len() > 0 && forall|i: int| 0 <= i < s.len() ==> is_graphic(#[trigger] s[i])
}

/// The texts among bytes from `from` on, where `start` is where the last zero
/// was passed.
pub open spec fn literals_from(b: Seq<u8>, start: int, at: int) -> Seq<Seq<char>>
    decreases b.len() - at,
{
    let part = b.subrange(start, at);
    let found = if is_literal(part) {
        seq![latin1(part)]
    } else {
        Seq::empty()
    };
    if at < 0 || at >= b.len() {
        found
    } else if b[at] == 0 {
        found + literals_from(b, at + 1, at + 1)
    } else {
        literals_from(b, start, at + 1)
    }
}

/// The texts in the first `n` regions of an image.
pub open spec fn literals_in(image: Seq<(u32, &'static [u8])>, n: nat) -> Seq<Seq<char>>
    decreases n,
{
    if n == 0 {
        Seq::empty()
    } else {
        literals_in(image, (n - 1) as nat) + literals_from(image[n - 1].1@, 0, 0)
    }
}

/// Texts without those that equal the one before them.
pub open spec fn each_once(v: Seq<Seq<char>>, n: nat) -> Seq<Seq<char>>
    decreases n,
{
    if n == 0 {
        Seq::empty()
    } else {
        let before = each_once(v, (n - 1) as nat);
        if n >= 2 && v[n - 1] == v[n - 2] {
            before
        } else {
            before.push(v[n - 1])
        }
    }
}

fn literal(s: &[u8]) -> (r: bool)
    ensures
        r == is_literal(s@),
{
    let mut i: usize = 0;
    while i < s.len()
        invariant
            i <= s@.len(),
            forall|k: int| 0 <= k < i ==> is_graphic(#[trigger] s@[k]),
        decreases s@.len() - i,
    {
        if s[i] < 0x21 || s[i] > 0x7e {
            assert(!is_graphic(s@[i as int]));
            return false;
        }
        i = i + 1;
    }
    s.len() > 0
}

fn push_literals(out: &mut Vec<String>, b: &[u8])
    ensures
        strings(final(out)@) == strings(old(out)@) + literals_from(b@, 0, 0),
{
    let ghost before = strings(out@);
    let ghost all = literals_from(b@, 0, 0);
    let mut start: usize = 0;
    let mut at: usize = 0;
    let size: usize = b.len();
    assert(before + all =~= before + all);
    while at < size
        invariant
            start <= at <= size == b@.len(),
            strings(out@) + literals_from(b@, start as int, at as int) == before + all,
        decreases size - at,
    {
        if b[at] == 0 {
            let part: &[u8] = vstd::slice::slice_subrange(b, start, at);
            let ghost so_far = strings(out@);
            let ghost later = literals_from(b@, at + 1, at + 1);
            if literal(part) {
                let t: String = crate::data::chars::text_of(latin1_chars(part).as_slice());
                out.push(t);
                assert(strings(out@) =~= so_far + seq![t@]);
                assert(so_far + (seq![t@] + later) =~= so_far + seq![t@] + later);
            } else {
                assert(so_far + (Seq::<Seq<char>>::empty() + later) =~= so_far + later);
            }
            start = at + 1;
        }
        at = at + 1;
    }
    let part: &[u8] = vstd::slice::slice_subrange(b, start, at);
    let ghost so_far = strings(out@);
    if literal(part) {
        let t: String = crate::data::chars::text_of(latin1_chars(part).as_slice());
        out.push(t);
        assert(strings(out@) =~= so_far + seq![t@]);
    } else {
        assert(so_far + Seq::<Seq<char>>::empty() =~= so_far);
    }
}

/// Every text that can be seen in an image, in order, each once.
pub fn literals(image: &Vec<(u32, &'static [u8])>) -> (r: Vec<String>)
    ensures
        ({
            let found = literals_in(image@, image@.len());
            let sorted = ordered(found, found.len());
            strings(r@) == each_once(sorted, sorted.len())
        }),
{
    let mut all: Vec<String> = Vec::new();
    assert(strings(all@) =~= Seq::empty());
    let mut i: usize = 0;
    while i < image.len()
        invariant
            i <= image@.len(),
            strings(all@) == literals_in(image@, i as nat),
        decreases image@.len() - i,
    {
        let (base, bytes) = image[i];
        assert(image@[i as int] == (base, bytes));
        push_literals(&mut all, bytes);
        i = i + 1;
    }
    assert(strings(all@).len() == all@.len());
    let sorted: Vec<String> = sort_names(all);
    let ghost ss = strings(sorted@);
    let mut out: Vec<String> = Vec::new();
    assert(strings(out@) =~= Seq::empty());
    let mut k: usize = 0;
    while k < sorted.len()
        invariant
            k <= sorted@.len(),
            ss == strings(sorted@),
            strings(out@) == each_once(ss, k as nat),
        decreases sorted@.len() - k,
    {
        assert(ss[k as int] == sorted@[k as int]@);
        let mut again: bool = false;
        if k > 0 {
            assert(ss[k - 1] == sorted@[k - 1]@);
            again = same(sorted[k].as_str(), sorted[k - 1].as_str());
        }
        if !again {
            let ghost before = strings(out@);
            let t: String = sorted[k].clone();
            out.push(t);
            assert(strings(out@) =~= before.push(t@));
        }
        k = k + 1;
    }
    out
}

/// Whether a text comes strictly before another.
pub open spec fn comes_before(x: Seq<char>, y: Seq<char>) -> bool {
    order_of(encode_utf8(x), encode_utf8(y)) < 0
}

proof fn before_the_last(v: Seq<Seq<char>>, n: nat, i: int)
    requires
        n <= v.len(),
        forall|k: int| 0 <= k < v.len() - 1 ==> in_order(#[trigger] v[k], v[k + 1]),
        0 <= i < each_once(v, n).len(),
    ensures
        each_once(v, n).last() == v[n - 1],
        i < each_once(v, n).len() - 1 ==> comes_before(each_once(v, n)[i], v[n - 1]),
    decreases n,
{
    let before = each_once(v, (n - 1) as nat);
    if n >= 2 {
        assert(in_order(v[n - 2], v[n - 1]));
        if v[n - 1] == v[n - 2] {
            before_the_last(v, (n - 1) as nat, i);
        } else {
            if before.len() == 0 {
                nothing_is_lost(v, (n - 1) as nat);
            }
            let (x, y) = (encode_utf8(v[n - 2]), encode_utf8(v[n - 1]));
            order_tells_apart(x, y);
            if x == y {
                vstd::utf8::encode_utf8_decode_utf8(v[n - 2]);
                vstd::utf8::encode_utf8_decode_utf8(v[n - 1]);
            }
            if i < before.len() {
                before_the_last(v, (n - 1) as nat, i);
                if i < before.len() - 1 {
                    order_carries_over(encode_utf8(before[i]), x, y);
                }
            }
        }
    }
}

proof fn nothing_is_lost(v: Seq<Seq<char>>, n: nat)
    requires
        0 < n <= v.len(),
    ensures
        each_once(v, n).len() > 0,
    decreases n,
{
    if n >= 2 {
        nothing_is_lost(v, (n - 1) as nat);
    }
}

/// The texts that can be seen in an image are told in order, each once.
pub proof fn literals_are_told_once(image: Seq<(u32, &'static [u8])>, i: int, j: int)
    requires
        ({
            let found = literals_in(image, image.len());
            let sorted = ordered(found, found.len());
            0 <= i < j < each_once(sorted, sorted.len()).len()
        }),
    ensures
        ({
            let found = literals_in(image, image.len());
            let sorted = ordered(found, found.len());
            let told = each_once(sorted, sorted.len());
            comes_before(told[i], told[j]) && told[i] != told[j]
        }),
{
    let found = literals_in(image, image.len());
    let sorted = ordered(found, found.len());
    listings_are_sorted(found, found.len());
    told_in_order(sorted, sorted.len(), i, j);
    let told = each_once(sorted, sorted.len());
    order_tells_apart(encode_utf8(told[i]), encode_utf8(told[j]));
}

proof fn told_in_order(v: Seq<Seq<char>>, n: nat, i: int, j: int)
    requires
        n <= v.len(),
        forall|k: int| 0 <= k < v.len() - 1 ==> in_order(#[trigger] v[k], v[k + 1]),
        0 <= i < j < each_once(v, n).len(),
    ensures
        comes_before(each_once(v, n)[i], each_once(v, n)[j]),
    decreases n,
{
    before_the_last(v, n, i);
    if j < each_once(v, n).len() - 1 || (n >= 2 && v[n - 1] == v[n - 2]) {
        told_in_order(v, (n - 1) as nat, i, j);
    }
}

proof fn spellings_follow(phones: int, words: Seq<Seq<char>>, k: nat, n: nat, i: int)
    requires
        k < n <= words.len(),
        0 <= i < spelled_out(words[k as int]).len(),
    ensures
        spellings(words, k).len() + spelled_out(words[k as int]).len() <= spellings(words, n).len(),
        spellings(words, n)[spellings(words, k).len() + i] == spelled_out(words[k as int])[i],
    decreases n,
{
    if k < n - 1 {
        spellings_follow(phones, words, k, (n - 1) as nat, i);
    }
}

proof fn spellings_have_their_place(phones: int, words: Seq<Seq<char>>, k: nat)
    requires
        k <= words.len(),
    ensures
        spelling_at(phones, words, k) == spelling_at(phones, words, 0) + spellings(words, k).len(),
    decreases k,
{
    if k > 0 {
        spellings_have_their_place(phones, words, (k - 1) as nat);
        let b = encode_utf8(words[k - 1]);
        assert(eights(b.len() as int + 1) >= b.len() + 1);
    }
}

proof fn records_read(
    image: Seq<(u32, &'static [u8])>,
    ph: Seq<Phone>,
    words: Seq<Seq<char>>,
    elem12: Seq<u8>,
    k: int,
)
    requires
        0 <= k < words.len(),
        spelling_at(ph.len() as int, words, words.len()) <= u32::MAX,
    ensures
        ({
            let n = ph.len() as int;
            let m = phrase_space(image, ph, words, elem12);
            let record = elems_at(n) + 20 * k;
            &&& m.word(0x1000_002c) == elems_at(n)
            &&& m.word(record + 4) == spelling_at(n, words, k as nat)
            &&& m.word(record + 16) == 0x1_0000 * flag_of(elem12, k)
        }),
{
    let n = ph.len() as int;
    let w = words.len() as int;
    let v = layout_words(ph, words, elem12);
    spellings_grow(n, words, 0, words.len());
    spellings_grow(n, words, k as nat, words.len());
    spellings_grow(n, words, 0, k as nat);
    layout_word_reads(image, ph, words, elem12, 11);
    assert(v[11] == context_word(n, w, 11));
    let elems = 64 + 4 * room(n) + 16 + 2 * room(n) + 28;
    assert(v[elems + (5 * k + 1)] == elem_word(n, words, elem12, 5 * k + 1));
    assert(v[elems + (5 * k + 4)] == elem_word(n, words, elem12, 5 * k + 4));
    assert((5 * k + 1) / 5 == k && (5 * k + 1) % 5 == 1);
    assert((5 * k + 4) / 5 == k && (5 * k + 4) % 5 == 4);
    layout_word_reads(image, ph, words, elem12, elems + (5 * k + 1));
    layout_word_reads(image, ph, words, elem12, elems + (5 * k + 4));
}

proof fn layout_length(ph: Seq<Phone>, words: Seq<Seq<char>>, elem12: Seq<u8>)
    ensures
        0x1000_0000 + 4 * layout_words(ph, words, elem12).len() == spelling_at(
            ph.len() as int,
            words,
            0,
        ),
{
    let w = words.len() as int;
    assert(4 * elem_words(w) == eights(
        20 * (if w < 1 {
            1
        } else {
            w
        }),
    ));
}

proof fn spelling_reads(
    image: Seq<(u32, &'static [u8])>,
    ph: Seq<Phone>,
    words: Seq<Seq<char>>,
    elem12: Seq<u8>,
    k: int,
    i: int,
)
    requires
        0 <= k < words.len(),
        0 <= i < spelled_out(words[k]).len(),
    ensures
        phrase_space(image, ph, words, elem12).at(spelling_at(ph.len() as int, words, k as nat) + i)
            == spelled_out(words[k])[i],
{
    let n = ph.len() as int;
    let v = layout_words(ph, words, elem12);
    words_len(v);
    layout_length(ph, words, elem12);
    spellings_have_their_place(n, words, k as nat);
    spellings_follow(n, words, k as nat, words.len(), i);
    let off = 4 * v.len() as int + spellings(words, k as nat).len();
    let all = layout(ph, words, elem12);
    assert(all[off + i] == spelled_out(words[k])[i]);
}

/// The context leads to the words: to a record for each that leads to its
/// spelling, which a zero ends, and holds its flag.
pub proof fn context_leads_to_words(
    image: Seq<(u32, &'static [u8])>,
    ph: Seq<Phone>,
    words: Seq<Seq<char>>,
    elem12: Seq<u8>,
    k: int,
    i: int,
)
    requires
        0 <= k < words.len(),
        spelling_at(ph.len() as int, words, words.len()) <= u32::MAX,
        0 <= i < encode_utf8(words[k]).len(),
    ensures
        ({
            let m = phrase_space(image, ph, words, elem12);
            let record = m.word(0x1000_002c) + 20 * k;
            let at = m.word(record + 4) as int;
            let s = encode_utf8(words[k]);
            &&& m.at(at + i) == s[i]
            &&& m.at(at + s.len()) == 0
            &&& m.word(record + 16) == 0x1_0000 * flag_of(elem12, k)
        }),
{
    let s = encode_utf8(words[k]);
    records_read(image, ph, words, elem12, k);
    assert(eights(s.len() as int + 1) >= s.len() + 1);
    assert(spelled_out(words[k])[i] == s[i]);
    assert(spelled_out(words[k])[s.len() as int] == 0);
    spelling_reads(image, ph, words, elem12, k, i);
    spelling_reads(image, ph, words, elem12, k, s.len() as int);
}

/// The context leads to how many words there are, to the style, and to where the
/// narrow phones go.
pub proof fn context_leads_to_counts(
    image: Seq<(u32, &'static [u8])>,
    ph: Seq<Phone>,
    words: Seq<Seq<char>>,
    elem12: Seq<u8>,
)
    requires
        spelling_at(ph.len() as int, words, words.len()) <= u32::MAX,
    ensures
        ({
            let m = phrase_space(image, ph, words, elem12);
            &&& m.word(m.word(0x1000_0028) + 4) == words.len()
            &&& m.word(m.word(0x1000_0040) + 780) == STYLE
            &&& m.word(0x1000_0004) == 0x1000_0100
        }),
{
    let n = ph.len() as int;
    let w = words.len() as int;
    let v = layout_words(ph, words, elem12);
    spellings_grow(n, words, 0, words.len());
    layout_length(ph, words, elem12);
    layout_word_reads(image, ph, words, elem12, 1);
    layout_word_reads(image, ph, words, elem12, 10);
    layout_word_reads(image, ph, words, elem12, 16);
    assert(v[1] == context_word(n, w, 1));
    assert(v[10] == context_word(n, w, 10));
    assert(v[16] == context_word(n, w, 16));
    let phrase = 64 + 4 * room(n) + 16 + 2 * room(n);
    assert(v[phrase + 1] == w as u32);
    layout_word_reads(image, ph, words, elem12, phrase + 1);
    let cfg = phrase + 28 + elem_words(w);
    assert(v[cfg + 195] == 3);
    layout_word_reads(image, ph, words, elem12, cfg + 195);
}

/// Texts stand between zeros: what comes before one is told where it can be seen
/// throughout, and what follows is told by itself.
pub proof fn literals_stand_between_zeros(x: Seq<u8>, rest: Seq<u8>)
    requires
        forall|i: int| 0 <= i < x.len() ==> #[trigger] x[i] != 0,
    ensures
        literals_from(x + seq![0u8] + rest, 0, 0) == (if x.len() > 0 && forall|i: int|
            0 <= i < x.len() ==> 0x21 <= #[trigger] x[i] <= 0x7e {
            seq![latin1(x)]
        } else {
            Seq::empty()
        }) + literals_from(rest, 0, 0),
{
    let b = x + seq![0u8] + rest;
    let n = x.len() as int;
    literal_runs_on(b, 0, n);
    assert(b[n] == 0);
    assert(b.subrange(0, n) =~= x);
    shifted_literals(b, rest, n + 1, 0, 0);
}

proof fn literal_runs_on(b: Seq<u8>, from: int, n: int)
    requires
        0 <= from <= n < b.len(),
        forall|i: int| from <= i < n ==> #[trigger] b[i] != 0,
    ensures
        literals_from(b, 0, from) == literals_from(b, 0, n),
    decreases n - from,
{
    if from < n {
        literal_runs_on(b, from + 1, n);
    }
}

proof fn shifted_literals(b: Seq<u8>, rest: Seq<u8>, d: int, start: int, at: int)
    requires
        0 <= start <= at <= rest.len(),
        0 <= d,
        b.len() == d + rest.len(),
        forall|i: int| 0 <= i < rest.len() ==> #[trigger] rest[i] == b[d + i],
    ensures
        literals_from(b, d + start, d + at) == literals_from(rest, start, at),
    decreases rest.len() - at,
{
    assert(b.subrange(d + start, d + at) =~= rest.subrange(start, at));
    if at < rest.len() {
        assert(rest[at] == b[d + at]);
        if rest[at] == 0 {
            shifted_literals(b, rest, d, at + 1, at + 1);
        } else {
            shifted_literals(b, rest, d, start, at + 1);
        }
    }
}

} // verus!
