//! What holds of pieces, lines and numbers in text.
use vstd::prelude::*;
use super::chars::{
    all_digits, begins, digits_value, find_bounds, find_from, hex8, is_white, lines, lower,
    same_letters, signed, split_at_each, trim_end, trim_start, trimmed, unsigned, written,
};

verus! {

/// Pieces with a character between each two.
pub open spec fn joined_by(v: Seq<Seq<char>>, c: char) -> Seq<char>
    decreases v.len(),
{
    if v.len() == 0 {
        Seq::empty()
    } else if v.len() == 1 {
        v[0]
    } else {
        v[0].push(c) + joined_by(v.skip(1), c)
    }
}

/// Lines with an end behind each.
pub open spec fn ended(v: Seq<Seq<char>>, end: Seq<char>) -> Seq<char>
    decreases v.len(),
{
    if v.len() == 0 {
        Seq::empty()
    } else {
        v[0] + end + ended(v.skip(1), end)
    }
}

/// Whether a character stands nowhere in a text.
pub open spec fn lacks(s: Seq<char>, c: char) -> bool {
    forall|i: int| 0 <= i < s.len() ==> #[trigger] s[i] != c
}

/// The pieces of a text, with what they were split at between them, are the
/// text, and none of them holds it.
pub proof fn pieces_join_back(s: Seq<char>, c: char)
    ensures
        joined_by(split_at_each(s, c), c) == s,
        split_at_each(s, c).len() > 0,
        forall|k: int| 0 <= k < split_at_each(s, c).len() ==> lacks(#[trigger] split_at_each(s, c)[k], c),
    decreases s.len(),
{
    find_bounds(s, c, 0);
    let n = find_from(s, c, 0);
    let v = split_at_each(s, c);
    if n < s.len() {
        let t = s.subrange(n + 1, s.len() as int);
        pieces_join_back(t, c);
        let w = split_at_each(t, c);
        assert(v.skip(1) =~= w);
        assert(v[0] == s.subrange(0, n));
        assert(s =~= s.subrange(0, n).push(c) + t);
        assert forall|k: int| 0 <= k < v.len() implies lacks(#[trigger] v[k], c) by {
            if k > 0 {
                assert(v[k] == w[k - 1]);
            }
        }
    }
}

proof fn finds_first(s: Seq<char>, c: char, from: int, k: int)
    requires
        0 <= from <= k <= s.len(),
        forall|i: int| from <= i < k ==> #[trigger] s[i] != c,
        k < s.len() ==> s[k] == c,
    ensures
        find_from(s, c, from) == k,
    decreases k - from,
{
    if from < k {
        finds_first(s, c, from + 1, k);
    }
}

/// What was joined is split into the same pieces again.
pub proof fn joined_pieces_are_split_again(v: Seq<Seq<char>>, c: char)
    requires
        v.len() > 0,
        forall|k: int| 0 <= k < v.len() ==> lacks(#[trigger] v[k], c),
    ensures
        split_at_each(joined_by(v, c), c) == v,
    decreases v.len(),
{
    let s = joined_by(v, c);
    let n = v[0].len() as int;
    assert(lacks(v[0], c));
    if v.len() == 1 {
        assert(forall|i: int| 0 <= i < n ==> #[trigger] s[i] != c);
        finds_first(s, c, 0, n);
        assert(split_at_each(s, c) =~= v);
    } else {
        let t = joined_by(v.skip(1), c);
        assert forall|i: int| 0 <= i < n implies #[trigger] s[i] != c by {
            assert(s[i] == v[0][i]);
        }
        finds_first(s, c, 0, n);
        assert(s.subrange(n + 1, s.len() as int) =~= t);
        assert(s.subrange(0, n) =~= v[0]);
        assert forall|k: int| 0 <= k < v.skip(1).len() implies lacks(#[trigger] v.skip(1)[k], c) by {
            assert(lacks(v[k + 1], c));
        }
        joined_pieces_are_split_again(v.skip(1), c);
        assert(seq![v[0]] + v.skip(1) =~= v);
    }
}

/// Lines that end in a line feed, or in a return and one, are read as they are;
/// what stands behind the last of them is one more.
pub proof fn lines_come_back(v: Seq<Seq<char>>, last: Seq<char>, both: bool)
    requires
        forall|k: int|
            0 <= k < v.len() ==> lacks(#[trigger] v[k], '\n') && (v[k].len() > 0 ==> v[k].last()
                != '\r'),
        lacks(last, '\n'),
    ensures
        ({
            let end = if both {
                seq!['\r', '\n']
            } else {
                seq!['\n']
            };
            lines(ended(v, end) + last) == (if last.len() > 0 {
                v.push(last)
            } else {
                v
            })
        }),
    decreases v.len(),
{
    let end = if both {
        seq!['\r', '\n']
    } else {
        seq!['\n']
    };
    let s = ended(v, end) + last;
    if v.len() == 0 {
        assert(s =~= last);
        finds_first(s, '\n', 0, s.len() as int);
        assert(v =~= Seq::empty());
        assert(v.push(last) =~= seq![last]);
    } else {
        let rest = ended(v.skip(1), end) + last;
        let n = v[0].len() + end.len() - 1;
        assert(lacks(v[0], '\n'));
        assert(s =~= v[0] + end + rest);
        assert forall|i: int| 0 <= i < n implies #[trigger] s[i] != '\n' by {
            if i < v[0].len() {
                assert(s[i] == v[0][i]);
            } else {
                assert(s[i] == end[i - v[0].len()]);
            }
        }
        assert(s[n] == end[end.len() - 1]);
        finds_first(s, '\n', 0, n);
        assert(s.subrange(n + 1, s.len() as int) =~= rest);
        let head = s.subrange(0, n);
        if both {
            assert(head =~= v[0].push('\r'));
            assert(head.subrange(0, head.len() - 1) =~= v[0]);
        } else {
            assert(head =~= v[0]);
        }
        assert forall|k: int| 0 <= k < v.skip(1).len() implies lacks(
            #[trigger] v.skip(1)[k],
            '\n',
        ) && (v.skip(1)[k].len() > 0 ==> v.skip(1)[k].last() != '\r') by {
            assert(lacks(v[k + 1], '\n'));
        }
        lines_come_back(v.skip(1), last, both);
        assert(seq![v[0]] + v.skip(1) =~= v);
        assert(seq![v[0]] + v.skip(1).push(last) =~= v.push(last));
    }
}

/// White space around a text is taken off, and nothing else.
pub proof fn white_space_is_taken_off(a: Seq<char>, s: Seq<char>, b: Seq<char>)
    requires
        forall|i: int| 0 <= i < a.len() ==> is_white(#[trigger] a[i]),
        forall|i: int| 0 <= i < b.len() ==> is_white(#[trigger] b[i]),
        s.len() > 0 ==> !is_white(s[0]) && !is_white(s.last()),
    ensures
        trimmed(a + s + b) == s,
        trim_start(a + s) == s,
        trim_end(s + b) == s,
{
    end_taken_off(s, b);
    start_taken_off(a, s);
    if s.len() > 0 {
        start_taken_off(a, s + b);
        assert(a + s + b =~= a + (s + b));
    } else {
        assert(a + s + b =~= (a + b) + Seq::<char>::empty());
        assert forall|i: int| 0 <= i < (a + b).len() implies is_white(#[trigger] (a + b)[i]) by {
            if i < a.len() {
                assert(is_white(a[i]));
            } else {
                assert(is_white(b[i - a.len()]));
            }
        }
        start_taken_off(a + b, Seq::empty());
        assert(s =~= Seq::empty());
    }
}

proof fn start_taken_off(a: Seq<char>, s: Seq<char>)
    requires
        forall|i: int| 0 <= i < a.len() ==> is_white(#[trigger] a[i]),
        s.len() > 0 ==> !is_white(s[0]),
    ensures
        trim_start(a + s) == s,
    decreases a.len(),
{
    let t = a + s;
    if a.len() > 0 {
        assert(t[0] == a[0]);
        assert(t.subrange(1, t.len() as int) =~= a.skip(1) + s);
        start_taken_off(a.skip(1), s);
    } else {
        assert(t =~= s);
    }
}

pub(crate) proof fn end_taken_off(s: Seq<char>, b: Seq<char>)
    requires
        forall|i: int| 0 <= i < b.len() ==> is_white(#[trigger] b[i]),
        s.len() > 0 ==> !is_white(s.last()),
    ensures
        trim_end(s + b) == s,
    decreases b.len(),
{
    let t = s + b;
    if b.len() > 0 {
        assert(t[t.len() - 1] == b[b.len() - 1]);
        assert(t.subrange(0, t.len() - 1) =~= s + b.drop_last());
        end_taken_off(s, b.drop_last());
    } else {
        assert(t =~= s);
    }
}

pub(crate) proof fn decimals_mean_their_number(n: nat)
    ensures
        all_digits(written(n, 10)),
        digits_value(written(n, 10)) == n,
        written(n, 10).len() > 0,
    decreases n,
{
    let s = written(n, 10);
    if n < 10 {
        assert(s =~= seq![('0' as u8 + n) as char]);
        assert(s.subrange(0, 0) =~= Seq::empty());
        assert(digits_value(s.subrange(0, s.len() - 1)) == 0);
    } else {
        decimals_mean_their_number(n / 10);
        let p = written(n / 10, 10);
        assert(s.subrange(0, s.len() - 1) =~= p);
        assert(s[s.len() - 1] == ('0' as u8 + n % 10) as char);
        assert forall|i: int| 0 <= i < s.len() implies '0' <= #[trigger] s[i] <= '9' by {
            if i < p.len() {
                assert(s[i] == p[i]);
            }
        }
    }
}

/// A number that is written in decimal digits reads as itself, where it is no
/// larger than it may be; so it does behind a plus, and behind a minus as its
/// negative.
pub proof fn decimals_read_back(n: nat, max: int)
    ensures
        unsigned(written(n, 10), max) == (if n <= max {
            Some(n as int)
        } else {
            None
        }),
        unsigned(seq!['+'] + written(n, 10), max) == unsigned(written(n, 10), max),
        n <= i64::MAX ==> signed(written(n, 10)) == Some(n as int),
        n <= i64::MAX ==> signed(seq!['+'] + written(n, 10)) == Some(n as int),
        n <= 0x8000_0000_0000_0000 ==> signed(seq!['-'] + written(n, 10)) == Some(-(n as int)),
        n > i64::MAX ==> signed(written(n, 10)) is None,
{
    decimals_mean_their_number(n);
    let w = written(n, 10);
    assert('0' <= w[0] <= '9');
    let p = seq!['+'] + w;
    assert(p.subrange(1, p.len() as int) =~= w);
    let m = seq!['-'] + w;
    assert(m.subrange(1, m.len() as int) =~= w);
}

/// A text that holds anything but digits behind its sign is no number.
pub proof fn only_digits_make_numbers(s: Seq<char>, max: int, i: int)
    requires
        0 <= i < s.len(),
        !('0' <= s[i] <= '9'),
        i > 0 || (s[0] != '+' && s[0] != '-'),
    ensures
        unsigned(s, max) is None,
        signed(s) is None,
{
    if s.len() >= 2 {
        let d = s.subrange(1, s.len() as int);
        if i > 0 {
            assert(d[i - 1] == s[i]);
        }
    }
}

/// Texts are the same but for their case exactly where each letter is the same
/// or the other's capital; what is no letter has to be the same.
pub proof fn only_capitals_are_overlooked(a: Seq<char>, b: Seq<char>, i: int)
    requires
        same_letters(a, b),
        0 <= i < a.len(),
        a[i] != b[i],
    ensures
        a.len() == b.len(),
        ('A' <= a[i] <= 'Z' && b[i] as int == a[i] as int + 32) || ('A' <= b[i] <= 'Z' && a[i] as int
            == b[i] as int + 32),
{
    assert(lower(a[i]) == lower(b[i]));
}

/// A text begins with each of its starts, and with nothing longer than it is.
pub proof fn texts_begin_with_their_starts(a: Seq<char>, b: Seq<char>)
    ensures
        begins(a + b, a),
        b.len() > 0 ==> !begins(a, a + b),
{
    assert((a + b).subrange(0, a.len() as int) =~= a);
}

/// A word in hexadecimal has eight digits, its own last and zeros before them.
pub proof fn words_have_eight_digits(v: u32)
    ensures
        ({
            let (h, d) = (hex8(v), written(v as nat, 16));
            &&& h.len() >= 8
            &&& d.len() <= 8 ==> h.len() == 8
            &&& d.len() <= h.len()
            &&& h.skip(h.len() - d.len()) == d
            &&& forall|i: int| 0 <= i < h.len() - d.len() ==> #[trigger] h[i] == '0'
        }),
{
    let (h, d) = (hex8(v), written(v as nat, 16));
    assert(h.skip(h.len() - d.len()) =~= d);
}

} // verus!
