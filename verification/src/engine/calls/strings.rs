//! Calls on bytes and text in memory. Each gives a word, or cannot be made
//! because what it reads or writes is not there.
use vstd::prelude::*;
use vstd::utf8::encode_utf8;
use crate::data::chars::chars_of;
use crate::engine::runtime::bytes_of;
use crate::engine::scan::{
    is_digit_in, number_in, number_of, past_digits, past_white, signed_word, skip_digits,
    skip_white,
};
use crate::engine::words::{lowercase, lowered};
use crate::engine::world::{bytes_in, cstr, cstr_bytes, text_in};
use crate::xrt::cpu::{as_word, padded_copy, padded_source, to_word};
use crate::xrt::mem::{word_bytes, Mem, Space};
use crate::xrt::text::{
    comparable, difference, fill, find_bytes, find_text, first_found, parting,
    parting_bounds, put_cstr, reachable, regions_decide, stands, terminated,
};

verus! {

/// A call on bytes or text.
#[derive(Debug, Clone, Copy, PartialEq, Eq, Structural)]
pub enum TextCall {
    /// Copies bytes.
    Copy,
    /// Sets bytes.
    Fill,
    /// Compares bytes.
    CompareBytes,
    /// Measures a text.
    Length,
    /// Copies a text.
    CopyText,
    /// Copies a part of a text.
    CopyPart,
    /// Puts a text behind another.
    Join,
    /// Puts a part of a text behind another.
    JoinPart,
    /// Compares texts.
    Compare,
    /// Compares texts in lower case.
    CompareFolded,
    /// Compares parts of texts.
    ComparePart,
    /// Finds a byte.
    First,
    /// Finds a byte from the end.
    Last,
    /// Finds a text in another.
    Find,
    /// Finds one of some bytes.
    FindAny,
    /// Counts leading bytes that are among some.
    Span,
    /// Counts leading bytes that are not.
    SpanNot,
    /// Reads a whole number.
    Number,
}

/// How two runs of bytes are ordered: -1, 0 or 1.
pub open spec fn order_of(x: Seq<u8>, y: Seq<u8>) -> int
    decreases x.len(),
{
    if x.len() == 0 {
        if y.len() == 0 {
            0
        } else {
            -1
        }
    } else if y.len() == 0 {
        1
    } else if x[0] < y[0] {
        -1
    } else if x[0] > y[0] {
        1
    } else {
        order_of(x.subrange(1, x.len() as int), y.subrange(1, y.len() as int))
    }
}

/// The first place of a byte from `from` on; the length where there is none.
pub open spec fn first_place(v: Seq<u8>, b: u8, from: int) -> int
    decreases v.len() - from,
{
    if from < 0 || from >= v.len() {
        v.len() as int
    } else if v[from] == b {
        from
    } else {
        first_place(v, b, from + 1)
    }
}

/// The last place of a byte before `end`; -1 where there is none.
pub open spec fn last_place(v: Seq<u8>, b: u8, end: int) -> int
    decreases end,
{
    if end <= 0 {
        -1
    } else if v[end - 1] == b {
        end - 1
    } else {
        last_place(v, b, end - 1)
    }
}

/// The first place from `from` on where a byte is among `set`, or is not,
/// as `wanted` says; the length where there is none.
pub open spec fn place_among(v: Seq<u8>, set: Seq<u8>, wanted: bool, from: int) -> int
    decreases v.len() - from,
{
    if from < 0 || from >= v.len() {
        v.len() as int
    } else if set.contains(v[from]) == wanted {
        from
    } else {
        place_among(v, set, wanted, from + 1)
    }
}

/// The first place of a text in another.
pub open spec fn place_of(hay: Seq<u8>, needle: Seq<u8>) -> Option<int> {
    if exists|k: int| first_found(hay, needle, Some(k)) {
        Some(choose|k: int| first_found(hay, needle, Some(k)))
    } else {
        None
    }
}

/// An address and a distance, where that is an address.
pub open spec fn address(a: u32, k: int) -> Option<u32> {
    if a + k <= u32::MAX {
        Some((a + k) as u32)
    } else {
        None
    }
}

/// Memory with the bytes of a text at `from`, up to `n` of them, copied behind
/// `to`, and how many there were; each is read after the ones before it were
/// written.
pub open spec fn poured(m: Space, to: int, from: int, j: int, n: int) -> Option<(Space, int)>
    decreases n - j,
{
    if j >= n {
        Some((m, j))
    } else if !m.reachable(from + j, 1) {
        None
    } else if m.at(from + j) == 0 {
        Some((m, j))
    } else if !m.reachable(to + j, 1) {
        None
    } else {
        poured(m.write(to + j, seq![m.at(from + j)]), to, from, j + 1, n)
    }
}

/// A whole number in a text: its value, whether it is negative, and how many
/// bytes it took.
pub struct Numeral {
    /// Its value, zero where it is beyond 64 bits.
    pub value: int,
    /// Whether it is negative.
    pub minus: bool,
    /// How many bytes it took: its white space, its digits and a minus.
    pub used: int,
}

/// The whole number that a text starts with, in a base.
pub open spec fn numeral(s: Seq<char>, radix: int) -> Numeral {
    let i = past_white(s, 0);
    let lead = encode_utf8(s.subrange(0, i)).len();
    let t = s.subrange(i, s.len() as int);
    let minus = t.len() > 0 && t[0] == '-';
    let from = if minus || (t.len() > 0 && t[0] == '+') {
        1int
    } else {
        0
    };
    let e = past_digits(t, from, from, radix, None);
    let v = number_in(t.subrange(from, e), radix);
    Numeral {
        value: if v <= i64::MAX {
            v
        } else {
            0
        },
        minus,
        used: if e == from {
            0
        } else {
            lead + (e - from) + if minus {
                1int
            } else {
                0
            }
        },
    }
}

/// The base that a number is read in; none where there is no such base.
pub open spec fn base_of(base: u32) -> Option<int> {
    if base == 0 {
        Some(10)
    } else if 2 <= base <= 36 {
        Some(base as int)
    } else {
        None
    }
}

/// What reading a number gives: memory with its end noted, and its value.
pub open spec fn number_effect(m: Space, a: Seq<u32>) -> Option<(Space, u32)> {
    match (text_in(m, a[0]), base_of(a[2])) {
        (Some(s), Some(radix)) => {
            let n = numeral(s, radix);
            let v = as_word(
                if n.minus {
                    -n.value
                } else {
                    n.value
                },
            );
            if a[1] == 0 {
                Some((m, v))
            } else if m.mapped(a[1] as int, 4) && a[0] + n.used <= u32::MAX {
                Some((m.write(a[1] as int, word_bytes((a[0] + n.used) as u32)), v))
            } else {
                None
            }
        },
        _ => None,
    }
}

/// What a copying call gives: memory, and its first argument.
pub open spec fn copy_effect(call: TextCall, m: Space, a: Seq<u32>) -> Option<(Space, u32)> {
    let (d, s, n) = (a[0] as int, a[1] as int, a[2]);
    match call {
        TextCall::Copy => if m.mapped(s, n as int) && m.mapped(d, n as int) {
            Some((m.write(d, m.read(s, n as nat)), a[0]))
        } else {
            None
        },
        TextCall::Fill => if m.reachable(d, n as int) {
            Some((m.write(d, Seq::new(n as nat, |i: int| (a[1] % 0x100) as u8)), a[0]))
        } else {
            None
        },
        TextCall::CopyText => match bytes_in(m, a[1]) {
            Some(v) => if m.reachable(d, v.len() as int + 1) {
                Some((m.write(d, terminated(v)), a[0]))
            } else {
                None
            },
            None => None,
        },
        TextCall::CopyPart => if m.reachable(d, n as int) && padded_source(m, d, s, n as nat) {
            Some((padded_copy(m, d, s, n as nat).0, a[0]))
        } else {
            None
        },
        TextCall::Join => match bytes_in(m, a[1]) {
            Some(v) => if m.is_text(d) && m.reachable(d + m.text_len(d), v.len() as int + 1) {
                Some((m.write(d + m.text_len(d), terminated(v)), a[0]))
            } else {
                None
            },
            None => None,
        },
        TextCall::JoinPart => if m.is_text(d) {
            let k = m.text_len(d);
            match poured(m, d + k, s, 0, n as int) {
                Some((w, j)) => if w.reachable(d + k + j, 1) {
                    Some((w.write(d + k + j, seq![0u8]), a[0]))
                } else {
                    None
                },
                None => None,
            }
        } else {
            None
        },
        _ => None,
    }
}

/// What a call that only looks gives.
pub open spec fn look_effect(call: TextCall, m: Space, a: Seq<u32>) -> Option<u32> {
    let (x, y, n) = (a[0] as int, a[1] as int, a[2] as int);
    match call {
        TextCall::CompareBytes => if comparable(m, x, y, n, false) {
            Some(as_word(difference(m, x, y, n, false)))
        } else {
            None
        },
        TextCall::ComparePart => if comparable(m, x, y, n, true) {
            Some(as_word(difference(m, x, y, n, true)))
        } else {
            None
        },
        TextCall::Length => if m.is_text(x) {
            Some(m.text_len(x) as u32)
        } else {
            None
        },
        TextCall::Compare => match (bytes_in(m, a[0]), bytes_in(m, a[1])) {
            (Some(v), Some(w)) => Some(as_word(order_of(v, w))),
            _ => None,
        },
        TextCall::CompareFolded => match (text_in(m, a[0]), text_in(m, a[1])) {
            (Some(v), Some(w)) => Some(
                as_word(order_of(encode_utf8(lowercase(v)), encode_utf8(lowercase(w)))),
            ),
            _ => None,
        },
        TextCall::First => match bytes_in(m, a[0]) {
            Some(v) => {
                let b = (a[1] % 0x100) as u8;
                let k = first_place(v, b, 0);
                if k < v.len() || b == 0 {
                    address(a[0], k)
                } else {
                    Some(0)
                }
            },
            None => None,
        },
        TextCall::Last => match bytes_in(m, a[0]) {
            Some(v) => {
                let b = (a[1] % 0x100) as u8;
                let k = last_place(v, b, v.len() as int);
                if k >= 0 {
                    address(a[0], k)
                } else if b == 0 {
                    address(a[0], v.len() as int)
                } else {
                    Some(0)
                }
            },
            None => None,
        },
        TextCall::Find => match (bytes_in(m, a[0]), bytes_in(m, a[1])) {
            (Some(v), Some(w)) => match place_of(v, w) {
                Some(k) => address(a[0], k),
                None => Some(0),
            },
            _ => None,
        },
        TextCall::FindAny => match (bytes_in(m, a[0]), bytes_in(m, a[1])) {
            (Some(v), Some(w)) => {
                let k = place_among(v, w, true, 0);
                if k < v.len() {
                    address(a[0], k)
                } else {
                    Some(0)
                }
            },
            _ => None,
        },
        TextCall::Span => match (bytes_in(m, a[0]), bytes_in(m, a[1])) {
            (Some(v), Some(w)) => Some((place_among(v, w, false, 0) % 0x1_0000_0000) as u32),
            _ => None,
        },
        TextCall::SpanNot => match (bytes_in(m, a[0]), bytes_in(m, a[1])) {
            (Some(v), Some(w)) => Some((place_among(v, w, true, 0) % 0x1_0000_0000) as u32),
            _ => None,
        },
        _ => None,
    }
}

/// Whether a call writes to memory.
pub open spec fn copies(call: TextCall) -> bool {
    call == TextCall::Copy || call == TextCall::Fill || call == TextCall::CopyText || call
        == TextCall::CopyPart || call == TextCall::Join || call == TextCall::JoinPart
}

/// What a call on bytes or text gives: memory and a word. Nothing where it
/// cannot be made.
pub open spec fn text_effect(call: TextCall, m: Space, a: Seq<u32>) -> Option<(Space, u32)> {
    if call == TextCall::Number {
        number_effect(m, a)
    } else if copies(call) {
        copy_effect(call, m, a)
    } else {
        match look_effect(call, m, a) {
            Some(v) => Some((m, v)),
            None => None,
        }
    }
}

/// Orders two runs of bytes.
pub fn compare_bytes(x: &[u8], y: &[u8]) -> (r: i32)
    ensures
        r == order_of(x@, y@),
{
    let mut i: usize = 0;
    assert(x@.subrange(0, x@.len() as int) =~= x@);
    assert(y@.subrange(0, y@.len() as int) =~= y@);
    while i < x.len() && i < y.len() && x[i] == y[i]
        invariant
            i <= x@.len(),
            i <= y@.len(),
            order_of(x@, y@) == order_of(
                x@.subrange(i as int, x@.len() as int),
                y@.subrange(i as int, y@.len() as int),
            ),
        decreases x@.len() - i,
    {
        let ghost (p, q) = (
            x@.subrange(i as int, x@.len() as int),
            y@.subrange(i as int, y@.len() as int),
        );
        assert(p.subrange(1, p.len() as int) =~= x@.subrange(i + 1, x@.len() as int));
        assert(q.subrange(1, q.len() as int) =~= y@.subrange(i + 1, y@.len() as int));
        i = i + 1;
    }
    if i >= x.len() {
        if i >= y.len() {
            0
        } else {
            -1
        }
    } else if i >= y.len() {
        1
    } else if x[i] < y[i] {
        -1
    } else {
        1
    }
}

fn find_first(v: &[u8], b: u8) -> (r: usize)
    ensures
        r == first_place(v@, b, 0),
        r <= v@.len(),
{
    let mut i: usize = 0;
    while i < v.len() && v[i] != b
        invariant
            i <= v@.len(),
            first_place(v@, b, 0) == first_place(v@, b, i as int),
        decreases v@.len() - i,
    {
        i = i + 1;
    }
    i
}

fn find_last(v: &[u8], b: u8) -> (r: Option<usize>)
    ensures
        match r {
            Some(k) => k < v@.len() && k == last_place(v@, b, v@.len() as int),
            None => last_place(v@, b, v@.len() as int) == -1,
        },
{
    let mut i: usize = v.len();
    while i > 0
        invariant
            i <= v@.len(),
            last_place(v@, b, v@.len() as int) == last_place(v@, b, i as int),
        decreases i,
    {
        if v[i - 1] == b {
            return Some(i - 1);
        }
        i = i - 1;
    }
    None
}

fn is_among(set: &[u8], b: u8) -> (r: bool)
    ensures
        r == set@.contains(b),
{
    let k: usize = find_first(set, b);
    proof {
        first_place_holds(set@, b, 0);
        if set@.contains(b) {
            let j = choose|j: int| 0 <= j < set@.len() && set@[j] == b;
            assert(set@[j] == b);
        }
    }
    k < set.len()
}

proof fn first_place_holds(v: Seq<u8>, b: u8, from: int)
    requires
        0 <= from <= v.len(),
    ensures
        from <= first_place(v, b, from) <= v.len(),
        first_place(v, b, from) < v.len() ==> v[first_place(v, b, from)] == b,
        forall|j: int| from <= j < first_place(v, b, from) ==> #[trigger] v[j] != b,
    decreases v.len() - from,
{
    if from < v.len() && v[from] != b {
        first_place_holds(v, b, from + 1);
    }
}

fn find_among(v: &[u8], set: &[u8], wanted: bool) -> (r: usize)
    ensures
        r == place_among(v@, set@, wanted, 0),
        r <= v@.len(),
{
    let mut i: usize = 0;
    while i < v.len() && is_among(set, v[i]) != wanted
        invariant
            i <= v@.len(),
            place_among(v@, set@, wanted, 0) == place_among(v@, set@, wanted, i as int),
        decreases v@.len() - i,
    {
        i = i + 1;
    }
    i
}

fn low_word(n: usize) -> (r: u32)
    ensures
        r == (n as int % 0x1_0000_0000) as u32,
{
    (n as u64 % 0x1_0000_0000) as u32
}

fn address_of(a: u32, k: usize) -> (r: Option<u32>)
    ensures
        r == address(a, k as int),
{
    if k as u64 <= (u32::MAX - a) as u64 {
        Some(a + k as u32)
    } else {
        None
    }
}

/// Compares bytes, where they are there up to where they part.
fn try_compare(m: &Mem, a: u32, b: u32, n: u32, texts: bool) -> (r: Option<u32>)
    ensures
        r == if comparable(m@, a as int, b as int, n as int, texts) {
            Some(as_word(difference(m@, a as int, b as int, n as int, texts)))
        } else {
            None
        },
{
    let mut k: u32 = 0;
    while k < n
        invariant
            k <= n,
            forall|i: int| 0 <= i < k ==> #[trigger] m@.mapped(a + i, 1),
            forall|i: int| 0 <= i < k ==> #[trigger] m@.mapped(b + i, 1),
            a + k <= 0x1_0000_0000,
            b + k <= 0x1_0000_0000,
            parting(m@, a as int, b as int, 0, n as int, texts) == parting(
                m@,
                a as int,
                b as int,
                k as int,
                n as int,
                texts,
            ),
        decreases n - k,
    {
        proof {
            parting_bounds(m@, a as int, b as int, k as int, n as int, texts);
        }
        if k > u32::MAX - a || k > u32::MAX - b {
            assert(!comparable(m@, a as int, b as int, n as int, texts));
            return None;
        }
        if !m.mapped(a + k, 1) || !m.mapped(b + k, 1) {
            assert(!(m@.mapped(a + k, 1) && m@.mapped(b + k, 1)));
            assert(!comparable(m@, a as int, b as int, n as int, texts));
            return None;
        }
        let (p, q) = (m.r8(a + k), m.r8(b + k));
        if p != q || (texts && p == 0) {
            assert(parting(m@, a as int, b as int, 0, n as int, texts) == k);
            assert(m@.reachable(a as int, k + 1) && m@.reachable(b as int, k + 1));
            return Some(to_word(p as i32 - q as i32));
        }
        k = k + 1;
    }
    assert(m@.reachable(a as int, n as int) && m@.reachable(b as int, n as int));
    Some(0)
}

/// Copies a part of a text, and fills up with zeros, where it is there.
fn try_copy_part(m: &mut Mem, d: u32, s: u32, n: u32) -> (r: bool)
    ensures
        r == (old(m)@.reachable(d as int, n as int) && padded_source(
            old(m)@,
            d as int,
            s as int,
            n as nat,
        )),
        r ==> final(m)@ == padded_copy(old(m)@, d as int, s as int, n as nat).0,
{
    if !reachable(m, d, n as u64) {
        return false;
    }
    let ghost before = m@;
    let mut end: bool = false;
    let mut k: u32 = 0;
    while k < n
        invariant
            k <= n,
            before == old(m)@,
            before.reachable(d as int, n as int),
            padded_source(before, d as int, s as int, k as nat),
            m@.extents == before.extents,
            (m@, end) == padded_copy(before, d as int, s as int, k as nat),
        decreases n - k,
    {
        proof {
            regions_decide(before, m@);
            assert(before.mapped(d + k, 1));
        }
        let mut b: u8 = 0;
        if !end {
            if k > u32::MAX - s || !m.mapped(s + k, 1) {
                assert(!padded_copy(before, d as int, s as int, k as nat).1);
                return false;
            }
            b = m.r8(s + k);
        }
        assert(padded_source(before, d as int, s as int, (k + 1) as nat));
        end = end || b == 0;
        m.w8(d + k, b);
        k = k + 1;
    }
    true
}

/// Copies a part of a text behind another.
fn pour(m: &mut Mem, to: u32, from: u32, n: u32) -> (r: Option<u32>)
    ensures
        match (r, poured(old(m)@, to as int, from as int, 0, n as int)) {
            (Some(j), Some((w, want))) => j == want && final(m)@ == w,
            (None, None) => true,
            _ => false,
        },
{
    let ghost before = m@;
    let mut j: u32 = 0;
    while j < n
        invariant
            j <= n,
            before == old(m)@,
            poured(before, to as int, from as int, 0, n as int) == poured(
                m@,
                to as int,
                from as int,
                j as int,
                n as int,
            ),
        decreases n - j,
    {
        if j > u32::MAX - from || !reachable(m, from + j, 1) {
            return None;
        }
        assert(m@.mapped(from + j + 0, 1));
        let b: u8 = m.r8(from + j);
        if b == 0 {
            return Some(j);
        }
        if j > u32::MAX - to || !reachable(m, to + j, 1) {
            return None;
        }
        assert(m@.mapped(to + j + 0, 1));
        m.w8(to + j, b);
        j = j + 1;
    }
    Some(j)
}

fn copy_call(call: TextCall, m: &mut Mem, a: &[u32]) -> (r: Option<u32>)
    requires
        a@.len() == 20,
        copies(call),
    ensures
        match (r, copy_effect(call, old(m)@, a@)) {
            (Some(v), Some((w, want))) => v == want && final(m)@ == w,
            (None, None) => true,
            _ => false,
        },
{
    let (d, s, n) = (a[0], a[1], a[2]);
    match call {
        TextCall::Copy => {
            if !m.mapped(s, n) || !m.mapped(d, n) {
                return None;
            }
            let tmp: Vec<u8> = m.read(s, n as usize);
            m.write(d, tmp.as_slice());
            Some(d)
        },
        TextCall::Fill => {
            if !reachable(m, d, n as u64) {
                return None;
            }
            fill(m, d, (s % 0x100) as u8, n);
            Some(d)
        },
        TextCall::CopyText => match cstr_bytes(m, s) {
            Some(v) => {
                if v.len() as u64 >= 0x1_0000_0000 || !reachable(m, d, v.len() as u64 + 1) {
                    return None;
                }
                put_cstr(m, d, v.as_slice());
                Some(d)
            },
            None => None,
        },
        TextCall::CopyPart => {
            if try_copy_part(m, d, s, n) {
                Some(d)
            } else {
                None
            }
        },
        TextCall::Join => match cstr_bytes(m, s) {
            Some(v) => match find_text(m, d) {
                Some(k) => {
                    if v.len() as u64 >= 0x1_0000_0000 || !reachable(m, d + k, v.len() as u64 + 1) {
                        return None;
                    }
                    put_cstr(m, d + k, v.as_slice());
                    Some(d)
                },
                None => None,
            },
            None => None,
        },
        TextCall::JoinPart => match find_text(m, d) {
            Some(k) => {
                let to: u32 = d + k;
                match pour(m, to, s, n) {
                    Some(j) => {
                        if j > u32::MAX - to || !reachable(m, to + j, 1) {
                            return None;
                        }
                        assert(m@.mapped(to + j + 0, 1));
                        m.w8(to + j, 0);
                        Some(d)
                    },
                    None => None,
                }
            },
            None => None,
        },
        _ => None,
    }
}

fn look_call(call: TextCall, m: &Mem, a: &[u32]) -> (r: Option<u32>)
    requires
        a@.len() == 20,
        !copies(call),
        call != TextCall::Number,
    ensures
        r == look_effect(call, m@, a@),
{
    let (x, y, n) = (a[0], a[1], a[2]);
    match call {
        TextCall::CompareBytes => {
            return try_compare(m, x, y, n, false);
        },
        TextCall::ComparePart => {
            return try_compare(m, x, y, n, true);
        },
        TextCall::Length => {
            return find_text(m, x);
        },
        TextCall::CompareFolded => {
            return match (cstr(m, x), cstr(m, y)) {
                (Some(v), Some(w)) => {
                    let v1: Vec<u8> = bytes_of(lowered(v.as_str()).as_str());
                    let w1: Vec<u8> = bytes_of(lowered(w.as_str()).as_str());
                    Some(to_word(compare_bytes(v1.as_slice(), w1.as_slice())))
                },
                _ => None,
            };
        },
        _ => {},
    }
    let v: Vec<u8> = match cstr_bytes(m, x) {
        Some(v) => v,
        None => {
            return None;
        },
    };
    let b: u8 = (y % 0x100) as u8;
    match call {
        TextCall::First => {
            let k: usize = find_first(v.as_slice(), b);
            return if k < v.len() || b == 0 {
                address_of(x, k)
            } else {
                Some(0)
            };
        },
        TextCall::Last => {
            return match find_last(v.as_slice(), b) {
                Some(k) => address_of(x, k),
                None => if b == 0 {
                    address_of(x, v.len())
                } else {
                    Some(0)
                },
            };
        },
        _ => {},
    }
    let w: Vec<u8> = match cstr_bytes(m, y) {
        Some(w) => w,
        None => {
            return None;
        },
    };
    match call {
        TextCall::Compare => Some(to_word(compare_bytes(v.as_slice(), w.as_slice()))),
        TextCall::Find => match find_bytes(v.as_slice(), w.as_slice()) {
            Some(k) => {
                proof {
                    places_are_one(v@, w@, k as int);
                }
                address_of(x, k)
            },
            None => {
                proof {
                    no_place(v@, w@);
                }
                Some(0)
            },
        },
        TextCall::FindAny => {
            let k: usize = find_among(v.as_slice(), w.as_slice(), true);
            if k < v.len() {
                address_of(x, k)
            } else {
                Some(0)
            }
        },
        TextCall::Span => Some(low_word(find_among(v.as_slice(), w.as_slice(), false))),
        TextCall::SpanNot => Some(low_word(find_among(v.as_slice(), w.as_slice(), true))),
        _ => None,
    }
}

proof fn places_are_one(hay: Seq<u8>, needle: Seq<u8>, k: int)
    requires
        first_found(hay, needle, Some(k)),
    ensures
        place_of(hay, needle) == Some(k),
{
    let j = choose|j: int| first_found(hay, needle, Some(j));
    assert(first_found(hay, needle, Some(j)));
    assert(stands(hay, needle, j) && stands(hay, needle, k));
}

proof fn no_place(hay: Seq<u8>, needle: Seq<u8>)
    requires
        first_found(hay, needle, None),
    ensures
        place_of(hay, needle) is None,
{
    assert forall|k: int| !first_found(hay, needle, Some(k)) by {
        assert(!stands(hay, needle, k));
    }
}

fn number_call(m: &mut Mem, a: &[u32]) -> (r: Option<u32>)
    requires
        a@.len() == 20,
    ensures
        match (r, number_effect(old(m)@, a@)) {
            (Some(v), Some((w, want))) => v == want && final(m)@ == w,
            (None, None) => true,
            _ => false,
        },
{
    let radix: u32 = if a[2] == 0 {
        10
    } else {
        a[2]
    };
    let s: Vec<char> = match cstr(m, a[0]) {
        Some(s) => chars_of(s.as_str()),
        None => {
            return None;
        },
    };
    if radix < 2 || radix > 36 {
        return None;
    }
    let (value, minus, used) = read_numeral(s.as_slice(), radix);
    if a[1] != 0 {
        if !m.mapped(a[1], 4) {
            return None;
        }
        if used > (u32::MAX - a[0]) as u128 {
            return None;
        }
        m.w32(a[1], a[0] + used as u32);
    }
    Some(signed_word(value, minus))
}

/// The whole number that a text starts with.
fn read_numeral(s: &[char], radix: u32) -> (r: (u64, bool, u128))
    requires
        2 <= radix <= 36,
    ensures
        (Numeral { value: r.0 as int, minus: r.1, used: r.2 as int }) == numeral(
            s@,
            radix as int,
        ),
{
    let i: usize = skip_white(s, 0);
    let lead: usize = utf8_len(vstd::slice::slice_subrange(s, 0, i));
    let t: &[char] = vstd::slice::slice_subrange(s, i, s.len());
    let minus: bool = t.len() > 0 && t[0] == '-';
    let from: usize = if minus || (t.len() > 0 && t[0] == '+') {
        1
    } else {
        0
    };
    let e: usize = skip_digits(t, from, from, radix, None);
    let ds: &[char] = vstd::slice::slice_subrange(t, from, e);
    assert forall|k: int| 0 <= k < ds@.len() implies is_digit_in(#[trigger] ds@[k], radix as int) by {
        assert(ds@[k] == t@[from + k]);
    }
    let value: u64 = match number_of(ds, radix, i64::MAX as u64) {
        Some(v) => v,
        None => 0,
    };
    let used: u128 = if e == from {
        0
    } else {
        lead as u128 + (e - from) as u128 + if minus {
            1
        } else {
            0
        }
    };
    (value, minus, used)
}

/// How many bytes characters take.
pub fn utf8_len(s: &[char]) -> (r: usize)
    ensures
        r == encode_utf8(s@).len(),
{
    bytes_of(crate::data::chars::text_of(s).as_str()).len()
}

/// Makes a call on bytes or text.
pub fn text_call(call: TextCall, m: &mut Mem, a: &[u32]) -> (r: Option<u32>)
    requires
        a@.len() == 20,
    ensures
        match (r, text_effect(call, old(m)@, a@)) {
            (Some(v), Some((w, want))) => v == want && final(m)@ == w,
            (None, None) => true,
            _ => false,
        },
{
    match call {
        TextCall::Number => number_call(m, a),
        TextCall::Copy | TextCall::Fill | TextCall::CopyText | TextCall::CopyPart | TextCall::Join
        | TextCall::JoinPart => copy_call(call, m, a),
        _ => look_call(call, m, a),
    }
}

} // verus!
