//! Characters: trimming, splitting and number parsing, on sequences.
use vstd::prelude::*;

verus! {

/// [`String::push`] appends one character.
pub assume_specification[ String::push ](s: &mut String, c: char)
    ensures
        final(s)@ == old(s)@.push(c),
;

/// The characters of a string.
pub fn chars_of(s: &str) -> (r: Vec<char>)
    ensures
        r@ == s@,
{
    let mut out: Vec<char> = Vec::new();
    for c in it: s.chars()
        invariant
            out@ == it.seq().take(it.index()),
            it.seq() == s@,
    {
        out.push(c);
    }
    out
}

/// A string of the given characters.
pub fn text_of(cs: &[char]) -> (r: String)
    ensures
        r@ == cs@,
{
    let mut out: String = String::new();
    let mut i: usize = 0;
    while i < cs.len()
        invariant
            i <= cs@.len(),
            out@ == cs@.take(i as int),
        decreases cs@.len() - i,
    {
        out.push(cs[i]);
        assert(cs@.take(i + 1) =~= cs@.take(i as int).push(cs@[i as int]));
        i = i + 1;
    }
    assert(cs@.take(cs@.len() as int) =~= cs@);
    out
}

/// Whether a character is white space in the Unicode sense.
pub open spec fn is_white(c: char) -> bool {
    ||| '\u{9}' <= c <= '\u{d}'
    ||| c == ' '
    ||| c == '\u{85}'
    ||| c == '\u{a0}'
    ||| c == '\u{1680}'
    ||| '\u{2000}' <= c <= '\u{200a}'
    ||| c == '\u{2028}'
    ||| c == '\u{2029}'
    ||| c == '\u{202f}'
    ||| c == '\u{205f}'
    ||| c == '\u{3000}'
}

/// Whether a character is white space in the Unicode sense.
pub fn white(c: char) -> (r: bool)
    ensures
        r == is_white(c),
{
    ('\u{9}' <= c && c <= '\u{d}') || c == ' ' || c == '\u{85}' || c == '\u{a0}' || c
        == '\u{1680}' || ('\u{2000}' <= c && c <= '\u{200a}') || c == '\u{2028}' || c
        == '\u{2029}' || c == '\u{202f}' || c == '\u{205f}' || c == '\u{3000}'
}

/// Without the white space at its start.
pub open spec fn trim_start(s: Seq<char>) -> Seq<char>
    decreases s.len(),
{
    if s.len() > 0 && is_white(s[0]) {
        trim_start(s.subrange(1, s.len() as int))
    } else {
        s
    }
}

/// Without the white space at its end.
pub open spec fn trim_end(s: Seq<char>) -> Seq<char>
    decreases s.len(),
{
    if s.len() > 0 && is_white(s[s.len() - 1]) {
        trim_end(s.subrange(0, s.len() - 1))
    } else {
        s
    }
}

/// Without the white space at either end.
pub open spec fn trimmed(s: Seq<char>) -> Seq<char> {
    trim_end(trim_start(s))
}

/// Without the white space at its end.
pub fn trim_right(s: &[char]) -> (r: &[char])
    ensures
        r@ == trim_end(s@),
{
    let mut j: usize = s.len();
    assert(s@.subrange(0, j as int) =~= s@);
    while j > 0 && white(s[j - 1])
        invariant
            j <= s@.len(),
            trim_end(s@) == trim_end(s@.subrange(0, j as int)),
        decreases j,
    {
        assert(s@.subrange(0, j as int).subrange(0, j - 1) =~= s@.subrange(0, j - 1));
        j = j - 1;
    }
    vstd::slice::slice_subrange(s, 0, j)
}

/// Without the white space at either end.
pub fn trim(s: &[char]) -> (r: &[char])
    ensures
        r@ == trimmed(s@),
{
    let mut i: usize = 0;
    assert(s@.subrange(0, s@.len() as int) =~= s@);
    while i < s.len() && white(s[i])
        invariant
            i <= s@.len(),
            trim_start(s@) == trim_start(s@.subrange(i as int, s@.len() as int)),
        decreases s@.len() - i,
    {
        let ghost rest = s@.subrange(i as int, s@.len() as int);
        assert(rest.subrange(1, rest.len() as int) =~= s@.subrange(i + 1, s@.len() as int));
        i = i + 1;
    }
    trim_right(vstd::slice::slice_subrange(s, i, s.len()))
}

/// The first place at or after `from` where `c` stands, or the length.
pub open spec fn find_from(s: Seq<char>, c: char, from: int) -> int
    decreases s.len() - from,
{
    if from < 0 || from >= s.len() {
        s.len() as int
    } else if s[from] == c {
        from
    } else {
        find_from(s, c, from + 1)
    }
}

/// Finding stays inside.
pub proof fn find_bounds(s: Seq<char>, c: char, from: int)
    requires
        0 <= from <= s.len(),
    ensures
        from <= find_from(s, c, from) <= s.len(),
        find_from(s, c, from) < s.len() ==> s[find_from(s, c, from)] == c,
        forall|i: int| from <= i < find_from(s, c, from) ==> s[i] != c,
    decreases s.len() - from,
{
    if from < s.len() && s[from] != c {
        find_bounds(s, c, from + 1);
    }
}

/// The first place at or after `from` where `c` stands, or the length.
pub fn find(s: &[char], c: char, from: usize) -> (r: usize)
    requires
        from <= s@.len(),
    ensures
        r == find_from(s@, c, from as int),
        from <= r <= s@.len(),
{
    let mut i: usize = from;
    while i < s.len() && s[i] != c
        invariant
            from <= i <= s@.len(),
            find_from(s@, c, from as int) == find_from(s@, c, i as int),
        decreases s@.len() - i,
    {
        i = i + 1;
    }
    i
}

/// The pieces between occurrences of `c`: one more than there are occurrences.
pub open spec fn split_at_each(s: Seq<char>, c: char) -> Seq<Seq<char>>
    decreases s.len(),
{
    let n = find_from(s, c, 0);
    if 0 <= n < s.len() {
        seq![s.subrange(0, n)] + split_at_each(s.subrange(n + 1, s.len() as int), c)
    } else {
        seq![s]
    }
}

/// A list of character lists, as sequences.
pub open spec fn pieces(v: Seq<Vec<char>>) -> Seq<Seq<char>> {
    v.map_values(|x: Vec<char>| x@)
}

/// Searching a suffix is searching the whole from there.
pub proof fn find_in_suffix(s: Seq<char>, c: char, at: int, from: int)
    requires
        0 <= at <= s.len(),
        0 <= from <= s.len() - at,
    ensures
        find_from(s.subrange(at, s.len() as int), c, from) == find_from(s, c, at + from) - at,
    decreases s.len() - at - from,
{
    let t = s.subrange(at, s.len() as int);
    if from < t.len() && t[from] != c {
        find_in_suffix(s, c, at, from + 1);
    }
}

/// Splits at each occurrence of `c`.
pub fn split_on(s: &[char], c: char) -> (r: Vec<Vec<char>>)
    ensures
        pieces(r@) == split_at_each(s@, c),
{
    let mut out: Vec<Vec<char>> = Vec::new();
    let mut at: usize = 0;
    assert(s@.subrange(0, s@.len() as int) =~= s@);
    assert(pieces(out@) =~= Seq::empty());
    loop
        invariant
            at <= s@.len(),
            split_at_each(s@, c) =~= pieces(out@) + split_at_each(
                s@.subrange(at as int, s@.len() as int),
                c,
            ),
        decreases s@.len() - at,
    {
        let n: usize = find(s, c, at);
        let ghost rest = s@.subrange(at as int, s@.len() as int);
        let ghost before = pieces(out@);
        proof {
            find_in_suffix(s@, c, at as int, 0);
        }
        let piece: Vec<char> = vstd::slice::slice_to_vec(vstd::slice::slice_subrange(s, at, n));
        assert(piece@ =~= rest.subrange(0, n - at));
        out.push(piece);
        assert(pieces(out@) =~= before.push(piece@));
        if n == s.len() {
            assert(rest.subrange(0, n - at) =~= rest);
            assert(pieces(out@) =~= split_at_each(s@, c));
            return out;
        }
        assert(rest.subrange(n - at + 1, rest.len() as int) =~= s@.subrange(
            n + 1,
            s@.len() as int,
        ));
        assert(split_at_each(rest, c) =~= seq![piece@] + split_at_each(
            s@.subrange(n + 1, s@.len() as int),
            c,
        ));
        at = n + 1;
    }
}

/// A line without the carriage return before its line feed.
pub open spec fn without_return(s: Seq<char>) -> Seq<char> {
    if s.len() > 0 && s[s.len() - 1] == '\r' {
        s.subrange(0, s.len() - 1)
    } else {
        s
    }
}

/// The lines of a text. A final line feed ends its line and starts no other.
pub open spec fn lines(s: Seq<char>) -> Seq<Seq<char>>
    decreases s.len(),
{
    let n = find_from(s, '\n', 0);
    if s.len() == 0 {
        Seq::empty()
    } else if 0 <= n < s.len() {
        seq![without_return(s.subrange(0, n))] + lines(s.subrange(n + 1, s.len() as int))
    } else {
        seq![s]
    }
}

/// The lines of a text.
pub fn split_lines(s: &[char]) -> (r: Vec<Vec<char>>)
    ensures
        pieces(r@) == lines(s@),
{
    let mut out: Vec<Vec<char>> = Vec::new();
    let mut at: usize = 0;
    assert(s@.subrange(0, s@.len() as int) =~= s@);
    assert(pieces(out@) =~= Seq::empty());
    while at < s.len()
        invariant
            at <= s@.len(),
            lines(s@) =~= pieces(out@) + lines(s@.subrange(at as int, s@.len() as int)),
        decreases s@.len() - at,
    {
        let n: usize = find(s, '\n', at);
        let ghost rest = s@.subrange(at as int, s@.len() as int);
        let ghost before = pieces(out@);
        proof {
            find_in_suffix(s@, '\n', at as int, 0);
        }
        let cut: usize = if n < s.len() && n > at && s[n - 1] == '\r' {
            n - 1
        } else {
            n
        };
        let piece: Vec<char> = vstd::slice::slice_to_vec(vstd::slice::slice_subrange(s, at, cut));
        out.push(piece);
        assert(pieces(out@) =~= before.push(piece@));
        if n == s.len() {
            assert(piece@ =~= rest);
            assert(lines(rest) =~= seq![piece@]);
            at = n;
            assert(s@.subrange(at as int, s@.len() as int) =~= Seq::empty());
        } else {
            assert(piece@ =~= without_return(rest.subrange(0, n - at)));
            assert(rest.subrange(n - at + 1, rest.len() as int) =~= s@.subrange(
                n + 1,
                s@.len() as int,
            ));
            assert(lines(rest) =~= seq![piece@] + lines(s@.subrange(n + 1, s@.len() as int)));
            at = n + 1;
        }
    }
    out
}

/// Whether a character is a decimal digit.
pub open spec fn is_digit(c: char) -> bool {
    '0' <= c <= '9'
}

/// Whether every character is a decimal digit.
pub open spec fn all_digits(s: Seq<char>) -> bool {
    forall|i: int| 0 <= i < s.len() ==> is_digit(#[trigger] s[i])
}

/// The number that decimal digits write.
pub open spec fn digits_value(s: Seq<char>) -> int
    decreases s.len(),
{
    if s.len() == 0 {
        0
    } else {
        10 * digits_value(s.subrange(0, s.len() - 1)) + (s[s.len() - 1] as int - '0' as int)
    }
}

/// Without a plus sign, where something follows it.
pub open spec fn without_plus(s: Seq<char>) -> Seq<char> {
    if s.len() >= 2 && s[0] == '+' {
        s.subrange(1, s.len() as int)
    } else {
        s
    }
}

/// A number written in decimal digits, perhaps after a plus sign, and no
/// larger than `max`.
pub open spec fn unsigned(s: Seq<char>, max: int) -> Option<int> {
    let d = without_plus(s);
    if d.len() > 0 && all_digits(d) && digits_value(d) <= max {
        Some(digits_value(d))
    } else {
        None
    }
}

/// A number written in decimal digits, perhaps after a sign, that fits in 64
/// bits.
pub open spec fn signed(s: Seq<char>) -> Option<int> {
    if s.len() >= 2 && s[0] == '-' {
        let d = s.subrange(1, s.len() as int);
        if all_digits(d) && digits_value(d) <= 0x8000_0000_0000_0000 {
            Some(-digits_value(d))
        } else {
            None
        }
    } else {
        unsigned(s, i64::MAX as int)
    }
}

/// A longer number is no smaller.
proof fn prefix_value(s: Seq<char>, n: int)
    requires
        all_digits(s),
        0 <= n <= s.len(),
    ensures
        0 <= digits_value(s.subrange(0, n)) <= digits_value(s),
    decreases s.len(),
{
    if n == s.len() {
        assert(s.subrange(0, n) =~= s);
        if n > 0 {
            prefix_value(s.subrange(0, n - 1), 0);
            let t = s.subrange(0, n - 1);
            assert(t.subrange(0, 0) =~= Seq::empty());
        }
    } else {
        let t = s.subrange(0, s.len() - 1);
        assert(t.subrange(0, n) =~= s.subrange(0, n));
        prefix_value(t, n);
    }
}

/// The number that digits write, where it is at most `max`.
fn digits(s: &[char], max: u64) -> (r: Option<u64>)
    ensures
        r == if all_digits(s@) && digits_value(s@) <= max {
            Some(digits_value(s@) as u64)
        } else {
            None::<u64>
        },
{
    let mut v: u64 = 0;
    let mut i: usize = 0;
    while i < s.len()
        invariant
            i <= s@.len(),
            v <= max,
            all_digits(s@.subrange(0, i as int)),
            v == digits_value(s@.subrange(0, i as int)),
        decreases s@.len() - i,
    {
        let c: char = s[i];
        assert(s@.subrange(0, i + 1).subrange(0, i as int) =~= s@.subrange(0, i as int));
        if c < '0' || c > '9' {
            assert(!is_digit(s@[i as int]));
            return None;
        }
        let d: u64 = (c as u32 - '0' as u32) as u64;
        let w: u128 = v as u128 * 10 + d as u128;
        if w > max as u128 {
            proof {
                if all_digits(s@) {
                    prefix_value(s@, i + 1);
                }
            }
            return None;
        }
        v = w as u64;
        i = i + 1;
    }
    assert(s@.subrange(0, s@.len() as int) =~= s@);
    Some(v)
}

/// A decimal number no larger than `max`, perhaps after a plus sign.
pub fn parse_unsigned(s: &[char], max: u64) -> (r: Option<u64>)
    ensures
        match (r, unsigned(s@, max as int)) {
            (Some(v), Some(want)) => v == want,
            (None, None) => true,
            _ => false,
        },
{
    let d: &[char] = if s.len() >= 2 && s[0] == '+' {
        vstd::slice::slice_subrange(s, 1, s.len())
    } else {
        s
    };
    if d.len() == 0 {
        return None;
    }
    proof {
        if all_digits(d@) {
            prefix_value(d@, 0);
            assert(d@.subrange(0, 0) =~= Seq::empty());
        }
    }
    digits(d, max)
}

/// A decimal number that fits in 64 bits, perhaps after a sign.
pub fn parse_signed(s: &[char]) -> (r: Option<i64>)
    ensures
        match (r, signed(s@)) {
            (Some(v), Some(want)) => v == want,
            (None, None) => true,
            _ => false,
        },
{
    if s.len() >= 2 && s[0] == '-' {
        let d: &[char] = vstd::slice::slice_subrange(s, 1, s.len());
        proof {
            if all_digits(d@) {
                prefix_value(d@, 0);
                assert(d@.subrange(0, 0) =~= Seq::empty());
            }
        }
        match digits(d, 0x8000_0000_0000_0000) {
            Some(v) => {
                if v == 0x8000_0000_0000_0000 {
                    Some(i64::MIN)
                } else {
                    Some(-(v as i64))
                }
            },
            None => None,
        }
    } else {
        match parse_unsigned(s, 0x7fff_ffff_ffff_ffff) {
            Some(v) => Some(v as i64),
            None => None,
        }
    }
}

/// A character in lower case, where it is an ASCII letter.
pub open spec fn lower(c: char) -> char {
    if 'A' <= c <= 'Z' {
        (c as u8 + 32) as char
    } else {
        c
    }
}

/// Equal but for the case of ASCII letters.
pub open spec fn same_letters(a: Seq<char>, b: Seq<char>) -> bool {
    a.len() == b.len() && forall|i: int| 0 <= i < a.len() ==> lower(a[i]) == lower(#[trigger] b[i])
}

/// A character in lower case, where it is an ASCII letter.
fn to_lower(c: char) -> (r: char)
    ensures
        r == lower(c),
{
    if 'A' <= c && c <= 'Z' {
        (c as u8 + 32) as char
    } else {
        c
    }
}

/// Equal but for the case of ASCII letters.
pub fn equal_ignoring_case(a: &[char], b: &[char]) -> (r: bool)
    ensures
        r == same_letters(a@, b@),
{
    if a.len() != b.len() {
        return false;
    }
    let mut i: usize = 0;
    while i < a.len()
        invariant
            i <= a@.len() == b@.len(),
            forall|k: int| 0 <= k < i ==> lower(a@[k]) == lower(#[trigger] b@[k]),
        decreases a@.len() - i,
    {
        if to_lower(a[i]) != to_lower(b[i]) {
            assert(lower(a@[i as int]) != lower(b@[i as int]));
            return false;
        }
        i = i + 1;
    }
    true
}

/// Equal.
pub fn equal(a: &[char], b: &[char]) -> (r: bool)
    ensures
        r == (a@ == b@),
{
    if a.len() != b.len() {
        return false;
    }
    let mut i: usize = 0;
    while i < a.len()
        invariant
            i <= a@.len() == b@.len(),
            forall|k: int| 0 <= k < i ==> a@[k] == b@[k],
        decreases a@.len() - i,
    {
        if a[i] != b[i] {
            return false;
        }
        i = i + 1;
    }
    assert(a@ =~= b@);
    true
}

/// Whether `s` begins with `p`.
pub open spec fn begins(s: Seq<char>, p: Seq<char>) -> bool {
    p.len() <= s.len() && s.subrange(0, p.len() as int) == p
}

/// Whether `s` begins with `p`.
pub fn starts_with(s: &[char], p: &[char]) -> (r: bool)
    ensures
        r == begins(s@, p@),
{
    p.len() <= s.len() && equal(vstd::slice::slice_subrange(s, 0, p.len()), p)
}

/// The rest of `s` from `from` on.
pub fn rest(s: &[char], from: usize) -> (r: &[char])
    requires
        from <= s@.len(),
    ensures
        r@ == s@.subrange(from as int, s@.len() as int),
{
    vstd::slice::slice_subrange(s, from, s.len())
}

/// Puts a string's characters at the end.
pub fn push_str(out: &mut Vec<char>, s: &str)
    ensures
        final(out)@ == old(out)@ + s@,
{
    let ghost o0 = out@;
    for c in it: s.chars()
        invariant
            out@ == o0 + it.seq().take(it.index()),
            it.seq() == s@,
    {
        out.push(c);
    }
}

/// Puts characters at the end.
pub fn push_all(out: &mut Vec<char>, s: &[char])
    ensures
        final(out)@ == old(out)@ + s@,
{
    let ghost o0 = out@;
    let mut i: usize = 0;
    while i < s.len()
        invariant
            i <= s@.len(),
            out@ == o0 + s@.take(i as int),
        decreases s@.len() - i,
    {
        out.push(s[i]);
        assert(s@.take(i + 1) =~= s@.take(i as int).push(s@[i as int]));
        i = i + 1;
    }
    assert(s@.take(s@.len() as int) =~= s@);
}

/// A string as the standard debug format writes it, in quotes and escaped.
pub uninterp spec fn debug_text(s: Seq<char>) -> Seq<char>;

/// [`format!`] with `{:?}` on a string: the result is the string in quotes,
/// escaped as the standard library escapes it, and depends on nothing else.
#[verifier::external_body]
pub(crate) fn debug_of(s: &str) -> (r: String)
    ensures
        r@ == debug_text(s@),
{
    format!("{:?}", s)
}

/// The digit of a number below sixteen.
pub open spec fn digit_char(d: int) -> char {
    if d < 10 {
        ('0' as u8 + d) as char
    } else {
        ('a' as u8 + d - 10) as char
    }
}

/// A number written in the given base, without leading zeros.
pub open spec fn written(n: nat, base: nat) -> Seq<char>
    decreases n,
{
    if base < 2 {
        Seq::empty()
    } else if n < base {
        seq![digit_char(n as int)]
    } else {
        proof {
            vstd::arithmetic::div_mod::lemma_div_decreases(n as int, base as int);
        }
        written(n / base, base).push(digit_char((n % base) as int))
    }
}

/// The digit of a number below sixteen.
fn digit_of(d: u128) -> (r: char)
    requires
        d < 16,
    ensures
        r == digit_char(d as int),
{
    if d < 10 {
        ('0' as u8 + d as u8) as char
    } else {
        ('a' as u8 + (d as u8 - 10)) as char
    }
}

/// A number's digits, in decimal, octal or hexadecimal.
pub fn number(n: u128, base: u128) -> (r: Vec<char>)
    requires
        2 <= base <= 16,
    ensures
        r@ == written(n as nat, base as nat),
    decreases n,
{
    if n < base {
        let mut r: Vec<char> = Vec::new();
        r.push(digit_of(n));
        assert(r@ =~= seq![digit_char(n as int)]);
        r
    } else {
        proof {
            vstd::arithmetic::div_mod::lemma_div_decreases(n as int, base as int);
        }
        let mut r: Vec<char> = number(n / base, base);
        r.push(digit_of(n % base));
        r
    }
}

/// Puts a decimal number at the end.
pub fn push_decimal(out: &mut Vec<char>, n: u64)
    ensures
        final(out)@ == old(out)@ + written(n as nat, 10),
{
    let d: Vec<char> = number(n as u128, 10);
    push_all(out, d.as_slice());
}

/// A word in hexadecimal, eight digits wide.
pub open spec fn hex8(v: u32) -> Seq<char> {
    let d = written(v as nat, 16);
    if d.len() < 8 {
        Seq::new((8 - d.len()) as nat, |i: int| '0') + d
    } else {
        d
    }
}

/// Puts a word in hexadecimal, eight digits wide, at the end.
pub fn push_hex8(out: &mut Vec<char>, v: u32)
    ensures
        final(out)@ == old(out)@ + hex8(v),
{
    let d: Vec<char> = number(v as u128, 16);
    let ghost before = out@;
    let mut k: usize = d.len();
    let ghost zeros = Seq::new((8 - d@.len()) as nat, |i: int| '0');
    if k < 8 {
        while k < 8
            invariant
                d@.len() <= k <= 8,
                zeros == Seq::new((8 - d@.len()) as nat, |i: int| '0'),
                out@ == before + zeros.take(k - d@.len()),
            decreases 8 - k,
        {
            out.push('0');
            assert(out@ =~= before + zeros.take(k + 1 - d@.len()));
            k = k + 1;
        }
        assert(zeros.take(8 - d@.len()) =~= zeros);
    }
    push_all(out, d.as_slice());
    assert(out@ =~= before + hex8(v));
}

} // verus!
