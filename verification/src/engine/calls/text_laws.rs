//! What holds of the calls on bytes and text.
use vstd::prelude::*;
use vstd::utf8::encode_utf8;
use crate::data::chars::{is_white, written};
use crate::engine::format_laws::written_numbers_read_back;
use crate::engine::scan::{is_digit_in, past_digits, past_white};
use crate::engine::world::{bytes_in, text_in};
use crate::xrt::cpu::{as_word, padded_copy};
use crate::xrt::mem::{words_read_back, Space};
use crate::xrt::text::{first_found, parting, stands, texts_have_one_length};
use super::strings::{
    first_place, last_place, order_of, place_among, place_of, poured, text_effect, TextCall,
};

verus! {

/// Whether two runs of bytes share no address.
pub open spec fn clear_of(a: int, n: int, b: int, k: int) -> bool {
    a + n <= b || b + k <= a
}

/// Whether a memory holds the same as another but for `n` bytes at `a`.
pub open spec fn same_but(w: Space, m: Space, a: int, n: int) -> bool {
    w.extents == m.extents && forall|i: int| i < a || a + n <= i ==> #[trigger] w.at(i) == m.at(i)
}

/// A copy holds the bytes that stood at its source before it was made, and
/// nothing else has changed.
pub proof fn copies_hold_what_was_there(m: Space, a: Seq<u32>)
    requires
        m.mapped(a[1] as int, a[2] as int),
        m.mapped(a[0] as int, a[2] as int),
    ensures
        text_effect(TextCall::Copy, m, a) matches Some((w, r)) && r == a[0] && same_but(
            w,
            m,
            a[0] as int,
            a[2] as int,
        ) && forall|i: int| 0 <= i < a[2] ==> #[trigger] w.at(a[0] + i) == m.at(a[1] + i),
{
}

/// Filled memory holds the low byte of the value throughout.
pub proof fn fills_repeat_their_byte(m: Space, a: Seq<u32>)
    requires
        m.reachable(a[0] as int, a[2] as int),
    ensures
        text_effect(TextCall::Fill, m, a) matches Some((w, r)) && r == a[0] && same_but(
            w,
            m,
            a[0] as int,
            a[2] as int,
        ) && forall|i: int| 0 <= i < a[2] ==> #[trigger] w.at(a[0] + i) == a[1] % 0x100,
{
}

/// The length of a text counts the bytes before its zero.
pub proof fn lengths_stop_at_the_zero(m: Space, a: Seq<u32>, n: nat)
    requires
        m.ends(a[0] as int, n),
    ensures
        text_effect(TextCall::Length, m, a) == Some((m, n as u32)),
{
    texts_have_one_length(m, a[0] as int, n);
}

/// A copied text lies at its destination with a zero behind it.
pub proof fn texts_are_copied_whole(m: Space, a: Seq<u32>, v: Seq<u8>)
    requires
        bytes_in(m, a[1]) == Some(v),
        m.reachable(a[0] as int, v.len() as int + 1),
    ensures
        text_effect(TextCall::CopyText, m, a) matches Some((w, r)) && r == a[0] && same_but(
            w,
            m,
            a[0] as int,
            v.len() as int + 1,
        ) && w.read(a[0] as int, v.len()) == v && w.at(a[0] + v.len()) == 0,
{
    if let Some((w, r)) = text_effect(TextCall::CopyText, m, a) {
        assert(w.read(a[0] as int, v.len()) =~= v);
    }
}

/// A joined text lies where the one before it ended, which stays.
pub proof fn texts_are_joined_at_the_end(m: Space, a: Seq<u32>, v: Seq<u8>, k: nat)
    requires
        bytes_in(m, a[1]) == Some(v),
        m.ends(a[0] as int, k),
        m.reachable(a[0] + k, v.len() as int + 1),
    ensures
        text_effect(TextCall::Join, m, a) matches Some((w, r)) && r == a[0] && same_but(
            w,
            m,
            a[0] + k,
            v.len() as int + 1,
        ) && w.read(a[0] + k, v.len()) == v && w.at(a[0] + k + v.len()) == 0,
{
    texts_have_one_length(m, a[0] as int, k);
    if let Some((w, r)) = text_effect(TextCall::Join, m, a) {
        assert(w.read(a[0] + k, v.len()) =~= v);
    }
}

proof fn padding_follows(m: Space, d: int, s: int, n: nat)
    requires
        clear_of(d, n as int, s, n as int),
    ensures
        same_but(padded_copy(m, d, s, n).0, m, d, n as int),
        padded_copy(m, d, s, n).1 <==> exists|j: int| 0 <= j < n && #[trigger] m.at(s + j) == 0,
        forall|i: int|
            0 <= i < n ==> #[trigger] padded_copy(m, d, s, n).0.at(d + i) == (if exists|j: int|
                0 <= j < i && #[trigger] m.at(s + j) == 0 {
                0
            } else {
                m.at(s + i)
            }),
    decreases n,
{
    if n > 0 {
        let k = (n - 1) as nat;
        padding_follows(m, d, s, k);
        let (w, ended) = padded_copy(m, d, s, k);
        assert(w.at(s + n - 1) == m.at(s + n - 1));
        let x = padded_copy(m, d, s, n).0;
        assert(x.at(d + k) == (if ended {
            0
        } else {
            m.at(s + k)
        }));
        if ended {
            let j = choose|j: int| 0 <= j < k && #[trigger] m.at(s + j) == 0;
            assert(0 <= j < n && m.at(s + j) == 0);
        } else if m.at(s + k) == 0 {
            assert(0 <= k < n && m.at(s + k as int) == 0);
        }
        assert forall|i: int| 0 <= i < n implies #[trigger] x.at(d + i) == (if exists|j: int|
            0 <= j < i && #[trigger] m.at(s + j) == 0 {
            0
        } else {
            m.at(s + i)
        }) by {
            if i < k {
                assert(x.at(d + i) == w.at(d + i));
            }
        }
    }
}

/// A part of a text that is copied elsewhere holds its bytes up to the zero,
/// and zeros from there on.
pub proof fn parts_are_filled_with_zeros(m: Space, a: Seq<u32>)
    requires
        clear_of(a[0] as int, a[2] as int, a[1] as int, a[2] as int),
    ensures
        text_effect(TextCall::CopyPart, m, a) matches Some((w, r)) ==> r == a[0] && same_but(
            w,
            m,
            a[0] as int,
            a[2] as int,
        ) && forall|i: int|
            0 <= i < a[2] ==> #[trigger] w.at(a[0] + i) == (if exists|j: int|
                0 <= j < i && #[trigger] m.at(a[1] + j) == 0 {
                0
            } else {
                m.at(a[1] + i)
            }),
{
    padding_follows(m, a[0] as int, a[1] as int, a[2] as nat);
}

proof fn pouring_copies(m0: Space, m: Space, to: int, from: int, j: int, n: int, len: nat)
    requires
        m0.ends(from, len),
        clear_of(to, n, from, len as int + 1),
        0 <= j <= n,
        j <= len,
        same_but(m, m0, to, j),
        forall|i: int| 0 <= i < j ==> #[trigger] m.at(to + i) == m0.at(from + i),
    ensures
        poured(m, to, from, j, n) matches Some((w, k)) ==> k == (if n < len {
            n
        } else {
            len as int
        }) && same_but(w, m0, to, k) && forall|i: int|
            0 <= i < k ==> #[trigger] w.at(to + i) == m0.at(from + i),
    decreases n - j,
{
    if j < n {
        assert(m.at(from + j) == m0.at(from + j));
        if j < len && m.reachable(from + j, 1) && m.reachable(to + j, 1) {
            assert(m0.at(from + j) != 0);
            let w = m.write(to + j, seq![m.at(from + j)]);
            assert forall|i: int| 0 <= i < j + 1 implies #[trigger] w.at(to + i) == m0.at(
                from + i,
            ) by {
                if i < j {
                    assert(m.at(to + i) == m0.at(from + i));
                }
            }
            assert forall|i: int| i < to || to + (j + 1) <= i implies #[trigger] w.at(i) == m0.at(
                i,
            ) by {
                assert(m.at(i) == m0.at(i));
            }
            pouring_copies(m0, w, to, from, j + 1, n, len);
        }
    }
}

/// Where a part of a text is joined to another that it shares no bytes with, its
/// bytes up to the limit lie where that one ended, and one zero behind them.
pub proof fn parts_are_joined_at_the_end(m: Space, a: Seq<u32>, k: nat, len: nat)
    requires
        m.ends(a[0] as int, k),
        m.ends(a[1] as int, len),
        clear_of(a[0] + k, a[2] as int, a[1] as int, len as int + 1),
    ensures
        ({
            let n = if a[2] < len {
                a[2] as int
            } else {
                len as int
            };
            text_effect(TextCall::JoinPart, m, a) matches Some((w, r)) ==> r == a[0] && same_but(
                w,
                m,
                a[0] + k,
                n + 1,
            ) && w.at(a[0] + k + n) == 0 && forall|i: int|
                0 <= i < n ==> #[trigger] w.at(a[0] + k + i) == m.at(a[1] + i)
        }),
{
    texts_have_one_length(m, a[0] as int, k);
    pouring_copies(m, m, a[0] + k, a[1] as int, 0, a[2] as int, len);
    if let Some((w, j)) = poured(m, a[0] + k, a[1] as int, 0, a[2] as int) {
        if let Some((x, r)) = text_effect(TextCall::JoinPart, m, a) {
            assert forall|i: int| 0 <= i < j implies #[trigger] x.at(a[0] + k + i) == m.at(
                a[1] + i,
            ) by {
                assert(w.at(a[0] + k + i) == m.at(a[1] + i));
            }
            assert forall|i: int| i < a[0] + k || a[0] + k + (j + 1) <= i implies #[trigger] x.at(i)
                == m.at(i) by {
                assert(w.at(i) == m.at(i));
            }
        }
    }
}

proof fn order_past_a_start(x: Seq<u8>, y: Seq<u8>, k: int)
    requires
        0 <= k <= x.len(),
        k <= y.len(),
        x.take(k) == y.take(k),
    ensures
        order_of(x, y) == order_of(x.skip(k), y.skip(k)),
    decreases k,
{
    if k == 0 {
        assert(x.skip(0) =~= x);
        assert(y.skip(0) =~= y);
    } else {
        assert(x[0] == x.take(k)[0]);
        assert(y[0] == y.take(k)[0]);
        let (p, q) = (x.subrange(1, x.len() as int), y.subrange(1, y.len() as int));
        assert(p.take(k - 1) =~= x.take(k).subrange(1, k));
        assert(q.take(k - 1) =~= y.take(k).subrange(1, k));
        order_past_a_start(p, q, k - 1);
        assert(p.skip(k - 1) =~= x.skip(k));
        assert(q.skip(k - 1) =~= y.skip(k));
    }
}

/// Texts are ordered by the first byte in which they differ, a text before each
/// that goes on from it.
pub proof fn first_difference_orders(m: Space, a: Seq<u32>, v: Seq<u8>, u: Seq<u8>, k: int)
    requires
        bytes_in(m, a[0]) == Some(v),
        bytes_in(m, a[1]) == Some(u),
        0 <= k <= v.len(),
        k <= u.len(),
        v.take(k) == u.take(k),
    ensures
        k < v.len() && k < u.len() && v[k] < u[k] ==> text_effect(TextCall::Compare, m, a) == Some(
            (m, 0xffff_ffffu32),
        ),
        k < v.len() && k < u.len() && v[k] > u[k] ==> text_effect(TextCall::Compare, m, a) == Some(
            (m, 1u32),
        ),
        k == v.len() && k < u.len() ==> text_effect(TextCall::Compare, m, a) == Some(
            (m, 0xffff_ffffu32),
        ),
        k < v.len() && k == u.len() ==> text_effect(TextCall::Compare, m, a) == Some((m, 1u32)),
        k == v.len() && k == u.len() ==> text_effect(TextCall::Compare, m, a) == Some((m, 0u32)),
{
    order_past_a_start(v, u, k);
}

proof fn parting_is_first(m: Space, a: int, b: int, k: int, n: int, texts: bool, at: int)
    requires
        k <= at <= n,
        forall|i: int|
            k <= i < at ==> #[trigger] m.at(a + i) == m.at(b + i) && (texts ==> m.at(a + i) != 0),
        at < n ==> m.at(a + at) != m.at(b + at) || (texts && m.at(a + at) == 0),
    ensures
        parting(m, a, b, k, n, texts) == at,
    decreases at - k,
{
    if k < at {
        assert(m.at(a + k) == m.at(b + k));
        parting_is_first(m, a, b, k + 1, n, texts, at);
    }
}

/// Bytes compare by the first place within the limit in which they differ, and
/// parts of texts go no further than where both end.
pub proof fn limits_bound_comparisons(m: Space, a: Seq<u32>, at: int, texts: bool)
    requires
        0 <= at <= a[2],
        forall|i: int|
            0 <= i < at ==> #[trigger] m.at(a[0] + i) == m.at(a[1] + i) && (texts ==> m.at(a[0] + i)
                != 0),
    ensures
        ({
            let call = if texts {
                TextCall::ComparePart
            } else {
                TextCall::CompareBytes
            };
            text_effect(call, m, a) matches Some((w, r)) ==> w == m && (at == a[2] ==> r == 0) && (at
                < a[2] && m.at(a[0] + at) != m.at(a[1] + at) ==> r == as_word(
                m.at(a[0] + at) - m.at(a[1] + at),
            )) && (at < a[2] && texts && m.at(a[0] + at) == 0 && m.at(a[1] + at) == 0 ==> r == 0)
        }),
{
    let n = a[2] as int;
    if at == n || m.at(a[0] + at) != m.at(a[1] + at) || (texts && m.at(a[0] + at) == 0) {
        parting_is_first(m, a[0] as int, a[1] as int, 0, n, texts, at);
    }
}

proof fn first_place_is_first(v: Seq<u8>, b: u8, from: int, k: int)
    requires
        0 <= from <= k <= v.len(),
        forall|i: int| from <= i < k ==> #[trigger] v[i] != b,
        k < v.len() ==> v[k] == b,
    ensures
        first_place(v, b, from) == k,
    decreases k - from,
{
    if from < k {
        first_place_is_first(v, b, from + 1, k);
    }
}

proof fn last_place_is_last(v: Seq<u8>, b: u8, end: int, k: int)
    requires
        -1 <= k < end <= v.len() || -1 == k == end - 1,
        forall|i: int| k < i < end ==> #[trigger] v[i] != b,
        k >= 0 ==> v[k] == b,
    ensures
        last_place(v, b, end) == k,
    decreases end,
{
    if 0 < end && k < end - 1 {
        last_place_is_last(v, b, end - 1, k);
    }
}

/// Finding a byte gives the address of its first place, or of its last one.
pub proof fn bytes_are_found_where_they_stand(m: Space, a: Seq<u32>, v: Seq<u8>, k: int)
    requires
        bytes_in(m, a[0]) == Some(v),
        0 <= k < v.len(),
        v[k] == a[1] % 0x100,
        a[0] + v.len() <= u32::MAX,
    ensures
        (forall|i: int| 0 <= i < k ==> #[trigger] v[i] != a[1] % 0x100) ==> text_effect(
            TextCall::First,
            m,
            a,
        ) == Some((m, (a[0] + k) as u32)),
        (forall|i: int| k < i < v.len() ==> #[trigger] v[i] != a[1] % 0x100) ==> text_effect(
            TextCall::Last,
            m,
            a,
        ) == Some((m, (a[0] + k) as u32)),
{
    let b = (a[1] % 0x100) as u8;
    if forall|i: int| 0 <= i < k ==> #[trigger] v[i] != a[1] % 0x100 {
        first_place_is_first(v, b, 0, k);
    }
    if forall|i: int| k < i < v.len() ==> #[trigger] v[i] != a[1] % 0x100 {
        last_place_is_last(v, b, v.len() as int, k);
    }
}

/// A byte that a text lacks is found nowhere, but for zero, which is found at its
/// end.
pub proof fn missing_bytes_are_not_found(m: Space, a: Seq<u32>, v: Seq<u8>)
    requires
        bytes_in(m, a[0]) == Some(v),
        forall|i: int| 0 <= i < v.len() ==> #[trigger] v[i] != a[1] % 0x100,
        a[0] + v.len() <= u32::MAX,
    ensures
        ({
            let r = if a[1] % 0x100 == 0 {
                (a[0] + v.len()) as u32
            } else {
                0
            };
            text_effect(TextCall::First, m, a) == Some((m, r)) && text_effect(TextCall::Last, m, a)
                == Some((m, r))
        }),
{
    let b = (a[1] % 0x100) as u8;
    first_place_is_first(v, b, 0, v.len() as int);
    last_place_is_last(v, b, v.len() as int, -1);
}

/// Finding a text gives the address of the first place where it stands, and zero
/// where it stands nowhere.
pub proof fn texts_are_found_where_they_stand(
    m: Space,
    a: Seq<u32>,
    v: Seq<u8>,
    u: Seq<u8>,
    k: int,
)
    requires
        bytes_in(m, a[0]) == Some(v),
        bytes_in(m, a[1]) == Some(u),
        a[0] + v.len() <= u32::MAX,
    ensures
        stands(v, u, k) && (forall|j: int| 0 <= j < k ==> !#[trigger] stands(v, u, j))
            ==> text_effect(TextCall::Find, m, a) == Some((m, (a[0] + k) as u32)),
        (forall|j: int| !#[trigger] stands(v, u, j)) ==> text_effect(TextCall::Find, m, a) == Some(
            (m, 0u32),
        ),
{
    if stands(v, u, k) && (forall|j: int| 0 <= j < k ==> !#[trigger] stands(v, u, j)) {
        assert(first_found(v, u, Some(k)));
        let c = choose|c: int| first_found(v, u, Some(c));
        assert(first_found(v, u, Some(c)));
        assert(stands(v, u, c) && stands(v, u, k));
        if c < k {
            assert(!stands(v, u, c));
        } else if k < c {
            assert(!stands(v, u, k));
        }
        assert(place_of(v, u) == Some(k));
    }
    if forall|j: int| !#[trigger] stands(v, u, j) {
        if exists|c: int| first_found(v, u, Some(c)) {
            let c = choose|c: int| first_found(v, u, Some(c));
            assert(stands(v, u, c));
        }
    }
}

proof fn place_among_is_first(v: Seq<u8>, set: Seq<u8>, wanted: bool, from: int, k: int)
    requires
        0 <= from <= k <= v.len(),
        forall|i: int| from <= i < k ==> set.contains(#[trigger] v[i]) != wanted,
        k < v.len() ==> set.contains(v[k]) == wanted,
    ensures
        place_among(v, set, wanted, from) == k,
    decreases k - from,
{
    if from < k {
        assert(set.contains(v[from]) != wanted);
        place_among_is_first(v, set, wanted, from + 1, k);
    }
}

/// A leading run of bytes that are among some is as long as it is, and stops at
/// the first that is not.
pub proof fn spans_count_what_belongs(m: Space, a: Seq<u32>, v: Seq<u8>, u: Seq<u8>, k: int)
    requires
        bytes_in(m, a[0]) == Some(v),
        bytes_in(m, a[1]) == Some(u),
        0 <= k <= v.len() <= u32::MAX,
        forall|i: int| 0 <= i < k ==> u.contains(#[trigger] v[i]),
        k < v.len() ==> !u.contains(v[k]),
    ensures
        text_effect(TextCall::Span, m, a) == Some((m, k as u32)),
{
    place_among_is_first(v, u, false, 0, k);
    assert(k % 0x1_0000_0000 == k);
}

/// A leading run of bytes that are not among some stops at the first that is, and
/// that is where one of them is found.
pub proof fn spans_stop_at_what_is_looked_for(
    m: Space,
    a: Seq<u32>,
    v: Seq<u8>,
    u: Seq<u8>,
    k: int,
)
    requires
        bytes_in(m, a[0]) == Some(v),
        bytes_in(m, a[1]) == Some(u),
        0 <= k <= v.len(),
        a[0] + v.len() <= u32::MAX,
        forall|i: int| 0 <= i < k ==> !u.contains(#[trigger] v[i]),
        k < v.len() ==> u.contains(v[k]),
    ensures
        text_effect(TextCall::SpanNot, m, a) == Some((m, k as u32)),
        text_effect(TextCall::FindAny, m, a) == Some(
            (
                m,
                if k < v.len() {
                    (a[0] + k) as u32
                } else {
                    0
                },
            ),
        ),
{
    place_among_is_first(v, u, true, 0, k);
    assert(k % 0x1_0000_0000 == k);
}

proof fn white_is_passed(white: Seq<char>, t: Seq<char>, i: int)
    requires
        0 <= i <= white.len(),
        forall|k: int| 0 <= k < white.len() ==> is_white(#[trigger] white[k]),
        t.len() > 0 ==> !is_white(t[0]),
    ensures
        past_white(white + t, i) == white.len(),
    decreases white.len() - i,
{
    let s = white + t;
    if i < white.len() {
        assert(s[i] == white[i]);
        white_is_passed(white, t, i + 1);
    } else if t.len() > 0 {
        assert(s[i] == t[0]);
    }
}

proof fn digits_are_passed(t: Seq<char>, from: int, i: int, end: int, radix: int)
    requires
        0 <= from <= i <= end <= t.len(),
        forall|k: int| from <= k < end ==> is_digit_in(#[trigger] t[k], radix),
        end < t.len() ==> !is_digit_in(t[end], radix),
    ensures
        past_digits(t, from, i, radix, None) == end,
    decreases end - i,
{
    if i < end {
        digits_are_passed(t, from, i + 1, end, radix);
    }
}

/// A number in a text is read behind white space and a minus, in its base, up to
/// the first character that is no digit of it; where its end is asked for, that
/// is noted.
pub proof fn numerals_are_read(
    m: Space,
    a: Seq<u32>,
    white: Seq<char>,
    minus: bool,
    n: nat,
    radix: nat,
    rest: Seq<char>,
)
    requires
        2 <= radix <= 16,
        a[2] == radix || (a[2] == 0 && radix == 10),
        n <= i64::MAX,
        forall|k: int| 0 <= k < white.len() ==> is_white(#[trigger] white[k]),
        rest.len() > 0 ==> !is_digit_in(rest[0], radix as int),
        text_in(m, a[0]) == Some(
            white + ((if minus {
                seq!['-']
            } else {
                Seq::empty()
            }) + written(n, radix) + rest),
        ),
        a[1] != 0 ==> m.mapped(a[1] as int, 4),
        a[0] + encode_utf8(white).len() + 1 + written(n, radix).len() <= u32::MAX,
    ensures
        ({
            let v = if minus {
                -(n as int)
            } else {
                n as int
            };
            let end = a[0] + encode_utf8(white).len() + (if minus {
                1int
            } else {
                0
            }) + written(n, radix).len();
            text_effect(TextCall::Number, m, a) matches Some((w, r)) && r == as_word(v) && (a[1] == 0
                ==> w == m) && (a[1] != 0 ==> w.word(a[1] as int) == end)
        }),
{
    let d = written(n, radix);
    let sign = if minus {
        seq!['-']
    } else {
        Seq::empty()
    };
    let t = sign + d + rest;
    let s = white + t;
    let from = sign.len() as int;
    written_numbers_read_back(n, radix);
    assert(is_digit_in(d[0], radix as int) && d[0] < '\u{80}');
    assert(t[0] == (if minus {
        '-'
    } else {
        d[0]
    }));
    assert(!is_white(t[0]) && (!minus ==> t[0] != '-') && t[0] != '+');
    white_is_passed(white, t, 0);
    assert(s.subrange(0, white.len() as int) =~= white);
    assert(s.subrange(white.len() as int, s.len() as int) =~= t);
    let end = from + d.len();
    assert forall|k: int| from <= k < end implies is_digit_in(#[trigger] t[k], radix as int) by {
        assert(t[k] == d[k - from]);
    }
    if end < t.len() {
        assert(t[end] == rest[0]);
    }
    digits_are_passed(t, from, from, end, radix as int);
    assert(t.subrange(from, end) =~= d);
    let u = (a[0] + encode_utf8(white).len() + from + d.len()) as u32;
    words_read_back(m, a[1] as int, u, 0);
}

} // verus!
