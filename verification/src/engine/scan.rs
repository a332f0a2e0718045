//! Values read out of text, as `sscanf` reads them.
//!
//! What a text gives under a format is worked out first: a list of values to
//! be stored, one for each conversion that was met. A number with a fraction
//! is kept as text until its value is known.
use vstd::prelude::*;
use super::cfmt::arg_at;
use crate::data::chars::{is_white, text_of, white};
use crate::xrt::mem::{word_bytes, Mem, Space};
use crate::xrt::text::{reachable, terminated};

verus! {

/// A value to be stored.
#[derive(Debug, Clone)]
pub enum Found {
    /// A word.
    Word(u32),
    /// A text.
    Text(Vec<u8>),
    /// A byte.
    Byte(u8),
    /// A number with a fraction, as it is written.
    Real {
        /// Its text.
        text: String,
        /// Whether it is stored as a double.
        long: bool,
    },
}

/// A value to be stored, as mathematics.
pub enum Value {
    /// A word.
    Word(u32),
    /// A text.
    Text(Seq<u8>),
    /// A byte.
    Byte(u8),
    /// A number with a fraction.
    Real(Seq<char>, bool),
}

impl View for Found {
    type V = Value;

    open spec fn view(&self) -> Value {
        match *self {
            Found::Word(v) => Value::Word(v),
            Found::Text(s) => Value::Text(s@),
            Found::Byte(b) => Value::Byte(b),
            Found::Real { text, long } => Value::Real(text@, long),
        }
    }
}

/// Values as mathematics.
pub open spec fn values(v: Seq<Found>) -> Seq<Value> {
    v.map_values(|f: Found| f@)
}

/// The character at `i`, or a zero past the end.
pub open spec fn char_or(s: Seq<char>, i: int) -> char {
    if 0 <= i < s.len() {
        s[i]
    } else {
        '\0'
    }
}

/// A digit's value in bases up to 36; none where it is no digit.
pub open spec fn digit_value(c: char) -> Option<int> {
    if '0' <= c <= '9' {
        Some(c as int - 48)
    } else if 'a' <= c <= 'z' {
        Some(c as int - 87)
    } else if 'A' <= c <= 'Z' {
        Some(c as int - 55)
    } else {
        None
    }
}

/// Whether a character is a digit in a base.
pub open spec fn is_digit_in(c: char, radix: int) -> bool {
    match digit_value(c) {
        Some(d) => d < radix,
        None => false,
    }
}

/// Whether a character can stand in a number with a fraction.
pub open spec fn is_real_char(c: char) -> bool {
    '0' <= c <= '9' || c == '+' || c == '-' || c == '.' || c == 'e' || c == 'E'
}

/// Whether a run that started at `start` may still take the character at `i`.
pub open spec fn in_width(start: int, i: int, width: Option<u64>) -> bool {
    match width {
        Some(w) => i - start < w,
        None => true,
    }
}

/// Past the white space from `i` on.
pub open spec fn past_white(s: Seq<char>, i: int) -> int
    decreases s.len() - i,
{
    if 0 <= i < s.len() && is_white(s[i]) {
        past_white(s, i + 1)
    } else {
        i
    }
}

/// Past the digits from `i` on.
pub open spec fn past_digits(s: Seq<char>, start: int, i: int, radix: int, width: Option<u64>) -> int
    decreases s.len() - i,
{
    if 0 <= i < s.len() && is_digit_in(s[i], radix) && in_width(start, i, width) {
        past_digits(s, start, i + 1, radix, width)
    } else {
        i
    }
}

/// Past the characters of a number with a fraction from `i` on.
pub open spec fn past_real(s: Seq<char>, i: int) -> int
    decreases s.len() - i,
{
    if 0 <= i < s.len() && is_real_char(s[i]) {
        past_real(s, i + 1)
    } else {
        i
    }
}

/// Past the word from `i` on.
pub open spec fn past_word(s: Seq<char>, start: int, i: int, width: Option<u64>) -> int
    decreases s.len() - i,
{
    if 0 <= i < s.len() && !is_white(s[i]) && in_width(start, i, width) {
        past_word(s, start, i + 1, width)
    } else {
        i
    }
}

/// Past the length letters from `i` on.
pub open spec fn past_lengths(s: Seq<char>, i: int) -> int
    decreases s.len() - i,
{
    if 0 <= i < s.len() && (s[i] == 'l' || s[i] == 'h' || s[i] == 'L') {
        past_lengths(s, i + 1)
    } else {
        i
    }
}

/// The number that digits write in a base.
pub open spec fn number_in(s: Seq<char>, radix: int) -> int
    decreases s.len(),
{
    if s.len() == 0 {
        0
    } else {
        number_in(s.drop_last(), radix) * radix + match digit_value(s.last()) {
            Some(d) => d,
            None => 0,
        }
    }
}

/// The value of a whole number with its sign; zero where it has no digits or
/// is beyond 64 bits.
pub open spec fn whole_value(s: Seq<char>, radix: int) -> int {
    let minus = s.len() > 0 && s[0] == '-';
    let plus = s.len() > 0 && s[0] == '+';
    let body = if minus || plus {
        s.subrange(1, s.len() as int)
    } else {
        s
    };
    let v = number_in(body, radix);
    if body.len() == 0 {
        0
    } else if minus {
        if v <= 0x8000_0000_0000_0000 {
            -v
        } else {
            0
        }
    } else if v <= i64::MAX {
        v
    } else {
        0
    }
}

/// A character's low byte.
pub open spec fn low_byte(c: char) -> u8 {
    (c as int % 0x100) as u8
}

/// Characters' low bytes.
pub open spec fn low_bytes(s: Seq<char>) -> Seq<u8> {
    s.map_values(|c: char| low_byte(c))
}

/// A conversion: whether its value is dropped, how wide at most, whether it is
/// long, what it converts, and where the format goes on.
pub struct Conversion {
    /// Whether its value is dropped.
    pub suppress: bool,
    /// How wide at most.
    pub width: Option<u64>,
    /// Whether it is long.
    pub long: bool,
    /// What it converts.
    pub conv: char,
    /// Where the format goes on.
    pub at: int,
}

/// The width that digits write: none where there are no digits or it is beyond
/// 64 bits.
pub open spec fn width_of(s: Seq<char>) -> Option<u64> {
    let v = number_in(s, 10);
    if s.len() > 0 && v <= u64::MAX {
        Some(v as u64)
    } else {
        None
    }
}

/// The conversion whose percent sign stands before `p`; none where the format
/// ends inside it.
pub open spec fn conversion(f: Seq<char>, p: int) -> Option<Conversion> {
    let suppress = char_or(f, p) == '*';
    let a = if suppress {
        p + 1
    } else {
        p
    };
    let b = past_digits(f, a, a, 10, None);
    let g = past_lengths(f, b);
    if g >= f.len() {
        None
    } else {
        Some(
            Conversion {
                suppress,
                width: width_of(f.subrange(a, b)),
                long: f.subrange(b, g).contains('l'),
                conv: f[g],
                at: g + 1,
            },
        )
    }
}

/// What a conversion finds in the text from `i` on.
pub enum Hit {
    /// Nothing: the scan ends.
    Miss,
    /// Nothing: the conversion is unknown.
    Bad,
    /// A value, and where the text goes on.
    Got(Value, int),
}

/// What a conversion finds in the text at `i`, past white space.
pub open spec fn hit(src: Seq<char>, i: int, c: Conversion) -> Hit {
    if c.conv == 'd' || c.conv == 'i' || c.conv == 'u' || c.conv == 'x' {
        let radix = if c.conv == 'x' {
            16int
        } else {
            10
        };
        let signed = char_or(src, i) == '-' || char_or(src, i) == '+';
        let e = past_digits(
            src,
            i,
            if signed {
                i + 1
            } else {
                i
            },
            radix,
            c.width,
        );
        if e == i {
            Hit::Miss
        } else {
            Hit::Got(
                Value::Word((whole_value(src.subrange(i, e), radix) % 0x1_0000_0000) as u32),
                e,
            )
        }
    } else if c.conv == 'f' || c.conv == 'e' || c.conv == 'g' {
        let e = past_real(src, i);
        if e == i {
            Hit::Miss
        } else {
            Hit::Got(Value::Real(src.subrange(i, e), c.long), e)
        }
    } else if c.conv == 's' {
        let e = past_word(src, i, i, c.width);
        if e == i {
            Hit::Miss
        } else {
            Hit::Got(Value::Text(low_bytes(src.subrange(i, e))), e)
        }
    } else if c.conv == 'c' {
        if i >= src.len() {
            Hit::Miss
        } else {
            Hit::Got(Value::Byte(low_byte(src[i])), i + 1)
        }
    } else {
        Hit::Bad
    }
}

/// What a text gives under a format, from `i` and `p` on, after the values
/// `acc`. Nothing where a conversion is unknown.
pub open spec fn scan_from(
    src: Seq<char>,
    i: int,
    f: Seq<char>,
    p: int,
    acc: Seq<Value>,
) -> Option<Seq<Value>>
    decreases f.len() - p,
{
    if p < 0 || p >= f.len() {
        Some(acc)
    } else if is_white(f[p]) {
        scan_from(src, past_white(src, i), f, p + 1, acc)
    } else if f[p] != '%' {
        if i < src.len() && src[i] == f[p] {
            scan_from(src, i + 1, f, p + 1, acc)
        } else {
            Some(acc)
        }
    } else {
        match conversion(f, p + 1) {
            None => Some(acc),
            Some(c) => match hit(src, past_white(src, i), c) {
                Hit::Miss => Some(acc),
                Hit::Bad => None,
                Hit::Got(v, e) => if c.at > p {
                    scan_from(
                        src,
                        e,
                        f,
                        c.at,
                        if c.suppress {
                            acc
                        } else {
                            acc.push(v)
                        },
                    )
                } else {
                    None
                },
            },
        }
    }
}

/// What a text gives under a format.
pub open spec fn scanned(src: Seq<char>, f: Seq<char>) -> Option<Seq<Value>> {
    scan_from(src, 0, f, 0, Seq::empty())
}

fn digit_of(c: char) -> (r: Option<u32>)
    ensures
        match (r, digit_value(c)) {
            (Some(d), Some(want)) => d == want,
            (None, None) => true,
            _ => false,
        },
{
    let u: u32 = c as u32;
    if '0' <= c && c <= '9' {
        Some(u - 48)
    } else if 'a' <= c && c <= 'z' {
        Some(u - 87)
    } else if 'A' <= c && c <= 'Z' {
        Some(u - 55)
    } else {
        None
    }
}

fn digit_in(c: char, radix: u32) -> (r: bool)
    ensures
        r == is_digit_in(c, radix as int),
{
    match digit_of(c) {
        Some(d) => d < radix,
        None => false,
    }
}

fn may_take(start: usize, i: usize, width: Option<u64>) -> (r: bool)
    requires
        start <= i,
    ensures
        r == in_width(start as int, i as int, width),
{
    match width {
        Some(w) => ((i - start) as u64) < w,
        None => true,
    }
}

/// Past the white space from `from` on.
pub fn skip_white(s: &[char], from: usize) -> (r: usize)
    requires
        from <= s@.len(),
    ensures
        r == past_white(s@, from as int),
        from <= r <= s@.len(),
{
    let mut i: usize = from;
    while i < s.len() && white(s[i])
        invariant
            from <= i <= s@.len(),
            past_white(s@, from as int) == past_white(s@, i as int),
        decreases s@.len() - i,
    {
        i = i + 1;
    }
    i
}

/// Past the digits from `from` on.
pub fn skip_digits(s: &[char], start: usize, from: usize, radix: u32, width: Option<u64>) -> (r:
    usize)
    requires
        start <= from <= s@.len(),
    ensures
        r == past_digits(s@, start as int, from as int, radix as int, width),
        from <= r <= s@.len(),
        forall|k: int| from <= k < r ==> is_digit_in(#[trigger] s@[k], radix as int),
{
    let mut i: usize = from;
    while i < s.len() && digit_in(s[i], radix) && may_take(start, i, width)
        invariant
            start <= from <= i <= s@.len(),
            past_digits(s@, start as int, from as int, radix as int, width) == past_digits(
                s@,
                start as int,
                i as int,
                radix as int,
                width,
            ),
            forall|k: int| from <= k < i ==> is_digit_in(#[trigger] s@[k], radix as int),
        decreases s@.len() - i,
    {
        i = i + 1;
    }
    i
}

/// Past the characters of a number with a fraction from `from` on.
pub fn skip_real(s: &[char], from: usize) -> (r: usize)
    requires
        from <= s@.len(),
    ensures
        r == past_real(s@, from as int),
        from <= r <= s@.len(),
{
    let mut i: usize = from;
    while i < s.len() && (('0' <= s[i] && s[i] <= '9') || s[i] == '+' || s[i] == '-' || s[i] == '.'
        || s[i] == 'e' || s[i] == 'E')
        invariant
            from <= i <= s@.len(),
            past_real(s@, from as int) == past_real(s@, i as int),
        decreases s@.len() - i,
    {
        i = i + 1;
    }
    i
}

/// Past the word from `from` on.
pub fn skip_word(s: &[char], from: usize, width: Option<u64>) -> (r: usize)
    requires
        from <= s@.len(),
    ensures
        r == past_word(s@, from as int, from as int, width),
        from <= r <= s@.len(),
{
    let mut i: usize = from;
    while i < s.len() && !white(s[i]) && may_take(from, i, width)
        invariant
            from <= i <= s@.len(),
            past_word(s@, from as int, from as int, width) == past_word(
                s@,
                from as int,
                i as int,
                width,
            ),
        decreases s@.len() - i,
    {
        i = i + 1;
    }
    i
}

fn skip_lengths(s: &[char], from: usize) -> (r: (usize, bool))
    requires
        from <= s@.len(),
    ensures
        r.0 == past_lengths(s@, from as int),
        from <= r.0 <= s@.len(),
        r.1 == s@.subrange(from as int, r.0 as int).contains('l'),
{
    let mut i: usize = from;
    let mut long: bool = false;
    while i < s.len() && (s[i] == 'l' || s[i] == 'h' || s[i] == 'L')
        invariant
            from <= i <= s@.len(),
            past_lengths(s@, from as int) == past_lengths(s@, i as int),
            long == exists|k: int| from <= k < i && #[trigger] s@[k] == 'l',
        decreases s@.len() - i,
    {
        if s[i] == 'l' {
            long = true;
        }
        i = i + 1;
    }
    proof {
        let t = s@.subrange(from as int, i as int);
        if long {
            let k = choose|k: int| from <= k < i && #[trigger] s@[k] == 'l';
            assert(t[k - from] == 'l');
        }
        if t.contains('l') {
            let k = choose|k: int| 0 <= k < t.len() && t[k] == 'l';
            assert(s@[from + k] == 'l');
        }
    }
    (i, long)
}

proof fn number_bounds(s: Seq<char>, n: int, radix: int)
    requires
        0 <= n <= s.len(),
        radix >= 2,
        forall|k: int| 0 <= k < s.len() ==> is_digit_in(#[trigger] s[k], radix),
    ensures
        0 <= number_in(s.take(n), radix) <= number_in(s, radix),
    decreases s.len(),
{
    if s.len() > 0 {
        let t = s.drop_last();
        assert(is_digit_in(s[s.len() - 1], radix));
        assert(s.last() == s[s.len() - 1]);
        assert forall|k: int| 0 <= k < t.len() implies is_digit_in(#[trigger] t[k], radix) by {
            assert(t[k] == s[k]);
        }
        if n < s.len() {
            number_bounds(t, n, radix);
            assert(t.take(n) =~= s.take(n));
        } else {
            number_bounds(t, n - 1, radix);
            assert(t.take(n - 1) =~= t);
            assert(s.take(n) =~= s);
        }
        let x = number_in(t, radix);
        assert(x * radix >= x) by (nonlinear_arith)
            requires
                x >= 0,
                radix >= 1,
        ;
    } else {
        assert(s.take(n) =~= s);
    }
}

/// The number that digits write in a base, where it does not exceed `max`.
pub fn number_of(s: &[char], radix: u32, max: u64) -> (r: Option<u64>)
    requires
        2 <= radix <= 36,
        forall|k: int| 0 <= k < s@.len() ==> is_digit_in(#[trigger] s@[k], radix as int),
    ensures
        match r {
            Some(v) => v == number_in(s@, radix as int) && v <= max,
            None => number_in(s@, radix as int) > max,
        },
{
    let mut v: u64 = 0;
    let mut i: usize = 0;
    while i < s.len()
        invariant
            i <= s@.len(),
            2 <= radix <= 36,
            v <= max,
            forall|k: int| 0 <= k < s@.len() ==> is_digit_in(#[trigger] s@[k], radix as int),
            v == number_in(s@.take(i as int), radix as int),
        decreases s@.len() - i,
    {
        assert(is_digit_in(s@[i as int], radix as int));
        let d: u32 = match digit_of(s[i]) {
            Some(d) => d,
            None => 0,
        };
        proof {
            assert(s@.take(i + 1).drop_last() =~= s@.take(i as int));
            assert(s@.take(i + 1).last() == s@[i as int]);
            assert(v * radix <= u64::MAX * 36) by (nonlinear_arith)
                requires
                    0 <= v <= u64::MAX,
                    0 <= radix <= 36,
            ;
        }
        let next: u128 = v as u128 * radix as u128 + d as u128;
        assert(next == number_in(s@.take(i + 1), radix as int));
        if next > max as u128 {
            proof {
                number_bounds(s@, i + 1, radix as int);
            }
            return None;
        }
        v = next as u64;
        i = i + 1;
    }
    assert(s@.take(s@.len() as int) =~= s@);
    Some(v)
}

/// A number with a sign, as a word.
pub fn signed_word(v: u64, minus: bool) -> (r: u32)
    ensures
        r == ((if minus {
            -(v as int)
        } else {
            v as int
        }) % 0x1_0000_0000) as u32,
{
    let low: u32 = (v % 0x1_0000_0000) as u32;
    if minus && low > 0 {
        (0x1_0000_0000u64 - low as u64) as u32
    } else {
        low
    }
}

/// The value of a whole number with its sign, as a word.
fn whole_word(s: &[char], radix: u32) -> (r: u32)
    requires
        2 <= radix <= 36,
        s@.len() > 0,
        forall|k: int|
            0 <= k < s@.len() && !(k == 0 && (s@[0] == '-' || s@[0] == '+')) ==> is_digit_in(
                #[trigger] s@[k],
                radix as int,
            ),
    ensures
        r == (whole_value(s@, radix as int) % 0x1_0000_0000) as u32,
{
    let minus: bool = s[0] == '-';
    let signed: bool = minus || s[0] == '+';
    let body: &[char] = vstd::slice::slice_subrange(
        s,
        if signed {
            1
        } else {
            0
        },
        s.len(),
    );
    proof {
        if !signed {
            assert(body@ =~= s@);
        }
        assert forall|k: int| 0 <= k < body@.len() implies is_digit_in(
            #[trigger] body@[k],
            radix as int,
        ) by {
            assert(body@[k] == s@[if signed {
                k + 1
            } else {
                k
            }]);
        }
    }
    let max: u64 = if minus {
        0x8000_0000_0000_0000
    } else {
        0x7fff_ffff_ffff_ffff
    };
    let v: u64 = match number_of(body, radix, max) {
        Some(v) => v,
        None => 0,
    };
    signed_word(v, minus)
}

/// Reads a conversion.
fn read_conversion(f: &[char], p: usize) -> (r: Option<(bool, Option<u64>, bool, char, usize)>)
    requires
        p <= f@.len(),
    ensures
        match (r, conversion(f@, p as int)) {
            (Some((suppress, width, long, conv, at)), Some(c)) => c == (Conversion {
                suppress,
                width,
                long,
                conv,
                at: at as int,
            }),
            (None, None) => true,
            _ => false,
        },
        r is Some ==> p < r->Some_0.4 <= f@.len(),
{
    let suppress: bool = p < f.len() && f[p] == '*';
    let a: usize = if suppress {
        p + 1
    } else {
        p
    };
    let b: usize = skip_digits(f, a, a, 10, None);
    let ds: &[char] = vstd::slice::slice_subrange(f, a, b);
    assert forall|k: int| 0 <= k < ds@.len() implies is_digit_in(#[trigger] ds@[k], 10) by {
        assert(ds@[k] == f@[a + k]);
    }
    let width: Option<u64> = if b > a {
        number_of(ds, 10, u64::MAX)
    } else {
        None
    };
    let (g, long) = skip_lengths(f, b);
    if g >= f.len() {
        return None;
    }
    Some((suppress, width, long, f[g], g + 1))
}

fn low_byte_of(c: char) -> (r: u8)
    ensures
        r == low_byte(c),
{
    (c as u32 % 0x100) as u8
}

fn low_bytes_of(s: &[char]) -> (r: Vec<u8>)
    ensures
        r@ == low_bytes(s@),
{
    let mut out: Vec<u8> = Vec::new();
    let mut i: usize = 0;
    while i < s.len()
        invariant
            i <= s@.len(),
            out@ == low_bytes(s@.take(i as int)),
        decreases s@.len() - i,
    {
        out.push(low_byte_of(s[i]));
        assert(out@ =~= low_bytes(s@.take(i + 1)));
        i = i + 1;
    }
    assert(s@.take(s@.len() as int) =~= s@);
    out
}

/// What a conversion finds: a value and where the text goes on, or whether the
/// scan simply ends.
fn find_value(src: &[char], i: usize, width: Option<u64>, long: bool, conv: char) -> (r: Result<
    (Found, usize),
    bool,
>)
    requires
        i <= src@.len(),
    ensures
        forall|c: Conversion|
            c.width == width && c.long == long && c.conv == conv ==> match (
                r,
                #[trigger] hit(src@, i as int, c),
            ) {
                (Ok((v, e)), Hit::Got(want, at)) => v@ == want && e == at,
                (Err(true), Hit::Miss) => true,
                (Err(false), Hit::Bad) => true,
                _ => false,
            },
        r is Ok ==> i <= r->Ok_0.1 <= src@.len(),
{
    if conv == 'd' || conv == 'i' || conv == 'u' || conv == 'x' {
        let radix: u32 = if conv == 'x' {
            16
        } else {
            10
        };
        let signed: bool = i < src.len() && (src[i] == '-' || src[i] == '+');
        let from: usize = if signed {
            i + 1
        } else {
            i
        };
        let e: usize = skip_digits(src, i, from, radix, width);
        if e == i {
            return Err(true);
        }
        let t: &[char] = vstd::slice::slice_subrange(src, i, e);
        assert forall|k: int|
            0 <= k < t@.len() && !(k == 0 && (t@[0] == '-' || t@[0] == '+')) implies is_digit_in(
            #[trigger] t@[k],
            radix as int,
        ) by {
            assert(t@[k] == src@[i + k]);
            assert(t@[0] == src@[i as int]);
        }
        return Ok((Found::Word(whole_word(t, radix)), e));
    }
    if conv == 'f' || conv == 'e' || conv == 'g' {
        let e: usize = skip_real(src, i);
        if e == i {
            return Err(true);
        }
        let text: String = text_of(vstd::slice::slice_subrange(src, i, e));
        return Ok((Found::Real { text, long }, e));
    }
    if conv == 's' {
        let e: usize = skip_word(src, i, width);
        if e == i {
            return Err(true);
        }
        return Ok((Found::Text(low_bytes_of(vstd::slice::slice_subrange(src, i, e))), e));
    }
    if conv == 'c' {
        if i >= src.len() {
            return Err(true);
        }
        return Ok((Found::Byte(low_byte_of(src[i])), i + 1));
    }
    Err(false)
}

/// What a text gives under a format. Nothing where a conversion is unknown.
pub fn scan(input: &[char], fmt: &[char]) -> (r: Option<Vec<Found>>)
    ensures
        match (r, scanned(input@, fmt@)) {
            (Some(v), Some(want)) => values(v@) == want,
            (None, None) => true,
            _ => false,
        },
{
    let ghost want = scanned(input@, fmt@);
    let mut out: Vec<Found> = Vec::new();
    assert(values(out@) =~= Seq::empty());
    let mut i: usize = 0;
    let mut p: usize = 0;
    while p < fmt.len()
        invariant
            i <= input@.len(),
            p <= fmt@.len(),
            want == scanned(input@, fmt@),
            want == scan_from(input@, i as int, fmt@, p as int, values(out@)),
        decreases fmt@.len() - p,
    {
        let ch: char = fmt[p];
        if white(ch) {
            i = skip_white(input, i);
            p = p + 1;
        } else if ch != '%' {
            if i < input.len() && input[i] == ch {
                i = i + 1;
                p = p + 1;
            } else {
                return Some(out);
            }
        } else {
            match read_conversion(fmt, p + 1) {
                None => {
                    return Some(out);
                },
                Some((suppress, width, long, conv, at)) => {
                    let from: usize = skip_white(input, i);
                    let ghost c = Conversion { suppress, width, long, conv, at: at as int };
                    match find_value(input, from, width, long, conv) {
                        Ok((v, e)) => {
                            assert(hit(input@, from as int, c) == Hit::Got(v@, e as int));
                            if !suppress {
                                let ghost before = values(out@);
                                out.push(v);
                                assert(values(out@) =~= before.push(v@));
                            }
                            i = e;
                            p = at;
                        },
                        Err(ended) => {
                            assert(hit(input@, from as int, c) is Miss || hit(
                                input@,
                                from as int,
                                c,
                            ) is Bad);
                            return if ended {
                                Some(out)
                            } else {
                                None
                            };
                        },
                    }
                },
            }
        }
    }
    Some(out)
}

/// The bits of a number with a fraction.
#[derive(Debug, Clone, Copy, PartialEq, Eq, Structural)]
pub struct Bits {
    /// As a double.
    pub double: u64,
    /// As a single.
    pub single: u32,
}

/// The bytes that a value is stored as.
pub open spec fn stored_as(v: Value, bits: Bits) -> Seq<u8> {
    match v {
        Value::Word(w) => word_bytes(w),
        Value::Text(s) => terminated(s),
        Value::Byte(b) => seq![b],
        Value::Real(_, long) => if long {
            word_bytes((bits.double / 0x1_0000_0000) as u32) + word_bytes(
                (bits.double % 0x1_0000_0000) as u32,
            )
        } else {
            word_bytes(bits.single)
        },
    }
}

/// How many numbers with a fraction are among the first `n` values.
pub open spec fn reals_among(vs: Seq<Value>, n: nat) -> int
    decreases n,
{
    if n == 0 {
        0
    } else {
        reals_among(vs, (n - 1) as nat) + if vs[n - 1] is Real {
            1int
        } else {
            0
        }
    }
}

/// The bits for value `n`.
pub open spec fn bits_for(vs: Seq<Value>, bits: Seq<Bits>, n: nat) -> Bits {
    bits[reals_among(vs, n)]
}

/// Memory after the first `n` values were stored, each where its argument
/// points; nothing where one cannot be.
pub open spec fn stored(
    m: Space,
    vs: Seq<Value>,
    bits: Seq<Bits>,
    args: Seq<u32>,
    from: int,
    n: nat,
) -> Option<Space>
    decreases n,
{
    if n == 0 {
        Some(m)
    } else {
        match stored(m, vs, bits, args, from, (n - 1) as nat) {
            None => None,
            Some(w) => {
                let a = arg_at(args, from + n - 1) as int;
                let v = vs[n - 1];
                let s = stored_as(v, bits_for(vs, bits, (n - 1) as nat));
                if v is Real && reals_among(vs, (n - 1) as nat) >= bits.len() {
                    None
                } else if w.reachable(a, s.len() as int) {
                    Some(w.write(a, s))
                } else {
                    None
                }
            },
        }
    }
}

proof fn unstored(
    m: Space,
    vs: Seq<Value>,
    bits: Seq<Bits>,
    args: Seq<u32>,
    from: int,
    n: nat,
    k: nat,
)
    requires
        n <= k,
        stored(m, vs, bits, args, from, n) is None,
    ensures
        stored(m, vs, bits, args, from, k) is None,
    decreases k,
{
    if n < k {
        unstored(m, vs, bits, args, from, n, (k - 1) as nat);
    }
}

/// A word's bytes.
fn word_to_bytes(v: u32) -> (r: Vec<u8>)
    ensures
        r@ == word_bytes(v),
{
    let r: Vec<u8> = vec![
        (v % 0x100) as u8,
        (v / 0x100 % 0x100) as u8,
        (v / 0x1_0000 % 0x100) as u8,
        (v / 0x100_0000) as u8,
    ];
    assert(r@ =~= word_bytes(v));
    r
}

/// The bytes that a value is stored as.
fn bytes_of(v: &Found, bits: Bits) -> (r: Vec<u8>)
    ensures
        r@ == stored_as(v@, bits),
{
    match v {
        Found::Word(w) => word_to_bytes(*w),
        Found::Text(s) => {
            let mut t: Vec<u8> = vstd::slice::slice_to_vec(s.as_slice());
            t.push(0);
            t
        },
        Found::Byte(b) => {
            let t: Vec<u8> = vec![*b];
            assert(t@ =~= seq![*b]);
            t
        },
        Found::Real { text: _, long } => {
            if *long {
                let mut t: Vec<u8> = word_to_bytes((bits.double / 0x1_0000_0000) as u32);
                super::cfmt::push_bytes(
                    &mut t,
                    word_to_bytes((bits.double % 0x1_0000_0000) as u32).as_slice(),
                );
                t
            } else {
                word_to_bytes(bits.single)
            }
        },
    }
}

/// Stores values, each where its argument points. Says whether all could be.
pub fn store(m: &mut Mem, vs: &Vec<Found>, bits: &Vec<Bits>, args: &[u32], from: usize) -> (r: bool)
    requires
        args@.len() > 0,
    ensures
        match stored(old(m)@, values(vs@), bits@, args@, from as int, vs@.len()) {
            Some(want) => r && final(m)@ == want,
            None => !r,
        },
        final(m)@.extents == old(m)@.extents,
{
    let ghost before = m@;
    let ghost all = values(vs@);
    let mut used: usize = 0;
    let mut i: usize = 0;
    while i < vs.len()
        invariant
            i <= vs@.len(),
            args@.len() > 0,
            before == old(m)@,
            all == values(vs@),
            used == reals_among(all, i as nat),
            used <= i,
            m@.extents == before.extents,
            stored(before, all, bits@, args@, from as int, i as nat) == Some(m@),
        decreases vs@.len() - i,
    {
        assert(all[i as int] == vs@[i as int]@);
        let v: &Found = &vs[i];
        let mut b = Bits { double: 0, single: 0 };
        if let Found::Real { text: _, long: _ } = v {
            if used >= bits.len() {
                proof {
                    unstored(before, all, bits@, args@, from as int, (i + 1) as nat, vs@.len());
                }
                return false;
            }
            b = bits[used];
            used = used + 1;
        }
        let s: Vec<u8> = bytes_of(v, b);
        let a: u32 = if i < args.len() && from < args.len() - i {
            args[from + i]
        } else {
            args[args.len() - 1]
        };
        assert(a == arg_at(args@, from + i));
        if !reachable(m, a, s.len() as u64) {
            proof {
                unstored(before, all, bits@, args@, from as int, (i + 1) as nat, vs@.len());
            }
            return false;
        }
        crate::xrt::text::put_bytes(m, a, s.as_slice());
        i = i + 1;
    }
    true
}

} // verus!
