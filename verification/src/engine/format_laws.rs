//! What holds of formatted text and of values read back out of text.
use vstd::prelude::*;
use super::cfmt::{
    arg_at, ascii, figures, figures_end, flags_end, is_figure, is_flag, is_length, is_real,
    least_width, lengths_end, padded, read_spec, rendered, signed_text, stride, text_arg,
    word_text, Part, Spec, Stride,
};
use super::scan::{
    digit_value, hit, is_digit_in, low_bytes, number_in, past_digits, past_white, past_word,
    scan_from, Conversion, Hit, Value,
};
use crate::data::chars::{digit_char, is_white, written};
use crate::xrt::cpu::joined;
use crate::xrt::mem::Space;

verus! {

/// Zeros fill a number up: with the zero flag and without the minus flag, text
/// that is narrower than its width comes out as its sign, where it has one, then
/// zeros and nothing else, then the rest of it.
pub proof fn zeros_fill_numbers(s: Seq<u8>, sp: Spec, k: int)
    requires
        sp.zero,
        !sp.minus,
        sp.conv != 115,
        sp.conv != 99,
        s.len() < least_width(sp) <= i64::MAX,
    ensures
        padded(s, sp) is Some,
        ({
            let t = padded(s, sp)->Some_0;
            let w = least_width(sp);
            let sign = if s.len() > 0 && (s[0] == 45 || s[0] == 43) {
                1int
            } else {
                0
            };
            &&& t.len() == w
            &&& sign == 1 ==> t[0] == s[0]
            &&& sign <= k < w - (s.len() - sign) ==> t[k] == 48
            &&& t.subrange(w - (s.len() - sign), w) == s.subrange(sign, s.len() as int)
        }),
{
    let t = padded(s, sp)->Some_0;
    let w = least_width(sp);
    let sign = if s.len() > 0 && (s[0] == 45 || s[0] == 43) {
        1int
    } else {
        0
    };
    assert(t.subrange(w - (s.len() - sign), w) =~= s.subrange(sign, s.len() as int));
}

/// Spaces fill up whatever zeros do not: behind the text with the minus flag, and
/// before it otherwise.
pub proof fn spaces_fill_the_rest(s: Seq<u8>, sp: Spec, k: int)
    requires
        sp.minus || !sp.zero || sp.conv == 115 || sp.conv == 99,
        s.len() < least_width(sp) <= i64::MAX,
    ensures
        padded(s, sp) is Some,
        ({
            let t = padded(s, sp)->Some_0;
            let (n, w) = (s.len() as int, least_width(sp));
            &&& t.len() == w
            &&& sp.minus ==> t.subrange(0, n) == s
            &&& sp.minus && n <= k < w ==> t[k] == 32
            &&& !sp.minus ==> t.subrange(w - n, w) == s
            &&& !sp.minus && 0 <= k < w - n ==> t[k] == 32
        }),
{
    let t = padded(s, sp)->Some_0;
    let (n, w) = (s.len() as int, least_width(sp));
    if sp.minus {
        assert(t.subrange(0, n) =~= s);
    } else {
        assert(t.subrange(w - n, w) =~= s);
    }
}

/// A number that is written in a base reads as itself in that base, and is
/// written without a zero before it.
pub proof fn written_numbers_read_back(n: nat, base: nat)
    requires
        2 <= base <= 16,
    ensures
        number_in(written(n, base), base as int) == n,
        written(n, base).len() > 0,
        n > 0 ==> written(n, base)[0] != '0',
        n == 0 ==> written(n, base) == seq!['0'],
        forall|k: int|
            0 <= k < written(n, base).len() ==> is_digit_in(
                #[trigger] written(n, base)[k],
                base as int,
            ) && !('A' <= written(n, base)[k] <= 'Z') && written(n, base)[k] < '\u{80}',
    decreases n,
{
    let s = written(n, base);
    if n < base {
        digits_mean_themselves(n as int);
        assert(s =~= seq![digit_char(n as int)]);
        assert(s.drop_last() =~= Seq::empty());
        assert(s.last() == s[0]);
        assert(number_in(s.drop_last(), base as int) == 0);
        assert(0 * base == 0);
    } else {
        vstd::arithmetic::div_mod::lemma_div_decreases(n as int, base as int);
        vstd::arithmetic::div_mod::lemma_fundamental_div_mod(n as int, base as int);
        vstd::arithmetic::div_mod::lemma_mod_bound(n as int, base as int);
        vstd::arithmetic::div_mod::lemma_div_non_zero(n as int, base as int);
        let (q, r) = (n / base, n % base);
        written_numbers_read_back(q, base);
        digits_mean_themselves(r as int);
        let p = written(q, base);
        assert(s =~= p.push(digit_char(r as int)));
        assert(s.drop_last() =~= p);
        assert(s.last() == digit_char(r as int));
        assert(q * base == base * q) by (nonlinear_arith);
        assert(s[0] == p[0]);
        assert forall|k: int| 0 <= k < s.len() implies is_digit_in(
            #[trigger] s[k],
            base as int,
        ) && !('A' <= s[k] <= 'Z') && s[k] < '\u{80}' by {
            if k < p.len() {
                assert(s[k] == p[k]);
            }
        }
    }
}

proof fn digits_mean_themselves(d: int)
    requires
        0 <= d < 16,
    ensures
        digit_value(digit_char(d)) == Some(d),
        !('A' <= digit_char(d) <= 'Z'),
        digit_char(d) < '\u{80}',
        (d == 0) == (digit_char(d) == '0'),
        digit_char(d) != '-',
        digit_char(d) != '+',
{
}

/// A number without a precision is written as its digits behind its sign: a
/// minus where it is negative, and what the flags say where it is not.
pub proof fn numbers_keep_their_sign(v: int, sp: Spec)
    requires
        sp.prec is None,
    ensures
        ({
            let t = signed_text(v, sp);
            let marked = v < 0 || sp.plus || sp.space;
            let digits = if v < 0 {
                ascii(written((-v) as nat, 10))
            } else {
                ascii(written(v as nat, 10))
            };
            &&& v < 0 ==> t == seq![45u8] + digits
            &&& v >= 0 && sp.plus ==> t == seq![43u8] + digits
            &&& v >= 0 && !sp.plus && sp.space ==> t == seq![32u8] + digits
            &&& !marked ==> t == digits && t[0] != 45 && t[0] != 43 && t[0] != 32
            &&& digits.len() > 0
        }),
{
    let n = (if v < 0 {
        -v
    } else {
        v
    }) as nat;
    written_numbers_read_back(n, 10);
    let w = written(n, 10);
    assert(is_digit_in(w[0], 10));
    assert(ascii(w)[0] == w[0] as u8);
}

/// A precision is how many digits there are at least: zeros stand before fewer.
pub proof fn precisions_fill_with_zeros(v: int, sp: Spec, p: u64, k: int)
    requires
        sp.prec == Some(p),
        !sp.plus,
        !sp.space,
        0 <= v,
    ensures
        ({
            let digits = ascii(written(v as nat, 10));
            let t = signed_text(v, sp);
            &&& t.len() == if p > digits.len() {
                p as int
            } else {
                digits.len() as int
            }
            &&& 0 <= k < t.len() - digits.len() ==> t[k] == 48
            &&& t.subrange(t.len() - digits.len(), t.len() as int) == digits
        }),
{
    let digits = ascii(written(v as nat, 10));
    let t = signed_text(v, sp);
    assert(t.subrange(t.len() - digits.len(), t.len() as int) =~= digits);
}

/// What each conversion of a word writes: signed and unsigned numbers in decimal,
/// hexadecimal with small or capital letters and its mark where asked for, octal,
/// an address as ten characters, and a character as itself.
pub proof fn words_are_converted(m: Space, sp: Spec, v: u32)
    requires
        sp.prec is None,
        !sp.plus,
        !sp.space,
    ensures
        ({
            let hex = ascii(written(v as nat, 16));
            let t = word_text(m, sp, v)->Some_0;
            &&& sp.conv == 'd' as u8 || sp.conv == 'i' as u8 ==> word_text(m, sp, v) is Some && if v
                < 0x8000_0000 {
                t == ascii(written(v as nat, 10))
            } else {
                t == seq![45u8] + ascii(written((0x1_0000_0000 - v) as nat, 10))
            }
            &&& sp.conv == 'u' as u8 ==> word_text(m, sp, v) == Some(ascii(written(v as nat, 10)))
            &&& sp.conv == 'x' as u8 && !sp.hash ==> word_text(m, sp, v) == Some(hex)
            &&& sp.conv == 'x' as u8 && sp.hash ==> word_text(m, sp, v) == Some(
                seq!['0' as u8, 'x' as u8] + hex,
            )
            &&& sp.conv == 'X' as u8 && !sp.hash ==> word_text(m, sp, v) is Some && t.len()
                == hex.len() && forall|k: int|
                0 <= k < hex.len() ==> #[trigger] t[k] == if hex[k] >= 'a' as u8 {
                    hex[k] - 32
                } else {
                    hex[k] as int
                }
            &&& sp.conv == 'o' as u8 ==> word_text(m, sp, v) == Some(ascii(written(v as nat, 8)))
            &&& sp.conv == 'p' as u8 ==> word_text(m, sp, v) is Some && t.len() == 10 && t[0]
                == '0' as u8 && t[1] == 'x' as u8 && t.subrange(10 - hex.len(), 10) == hex
                && forall|k: int| 2 <= k < 10 - hex.len() ==> #[trigger] t[k] == '0' as u8
            &&& sp.conv == 'c' as u8 && v % 0x100 < 0x80 ==> word_text(m, sp, v) == Some(
                seq![(v % 0x100) as u8],
            )
        }),
{
    let hex = ascii(written(v as nat, 16));
    crate::codec::fixed::weight_values();
    word_in_hex(v as nat, 8);
    let t = word_text(m, sp, v)->Some_0;
    if sp.conv == 112 {
        assert(t.subrange(10 - hex.len(), 10) =~= hex);
    }
}

proof fn word_in_hex(v: nat, n: nat)
    requires
        v < crate::codec::fixed::weight(4 * n),
        1 <= n <= 8,
    ensures
        0 < written(v, 16).len() <= n,
    decreases n,
{
    crate::codec::fixed::weight_values();
    if v >= 16 {
        let a = (4 * n) as nat;
        crate::codec::fixed::weight_doubles((a - 1) as nat);
        crate::codec::fixed::weight_doubles((a - 2) as nat);
        crate::codec::fixed::weight_doubles((a - 3) as nat);
        crate::codec::fixed::weight_doubles((a - 4) as nat);
        assert(v / 16 < crate::codec::fixed::weight((a - 4) as nat));
        if n == 1 {
            assert(crate::codec::fixed::weight(4) == 16);
        }
        word_in_hex(v / 16, (n - 1) as nat);
    }
}

/// A text argument is written as far as its precision reaches, and whole without
/// one.
pub proof fn texts_are_cut_to_their_precision(m: Space, sp: Spec, v: u32, p: u64)
    requires
        sp.conv == 's' as u8,
        text_arg(m, v) is Some,
    ensures
        ({
            let s = text_arg(m, v)->Some_0;
            &&& sp.prec is None ==> word_text(m, sp, v) == Some(s)
            &&& sp.prec == Some(p) && p >= s.len() ==> word_text(m, sp, v) == Some(s)
            &&& sp.prec == Some(p) && p < s.len() && s[p as int] < 0x80 ==> word_text(m, sp, v)
                == Some(s.subrange(0, p as int))
        }),
{
}

/// Whether a byte can only be a conversion's letter.
pub open spec fn is_letter(b: u8) -> bool {
    !is_flag(b) && !is_figure(b) && !is_length(b) && b != 42 && b != 46
}

/// How a conversion is read: each flag sets its own mark and no other, digits are
/// the width, those behind a point the precision, a star takes an argument, and
/// length letters say nothing.
pub proof fn conversions_are_read(f: Seq<u8>, i: int, args: Seq<u32>, j: int)
    requires
        0 <= i,
        i + 1 < f.len(),
        0 <= j,
        args.len() > 0,
    ensures
        ({
            let r = read_spec(f, i, args, j);
            let one = r.spec->Some_0;
            let plain = Spec {
                minus: false,
                zero: false,
                plus: false,
                space: false,
                hash: false,
                width: None,
                prec: None,
                conv: f[i],
            };
            let next = Spec { conv: f[i + 1], ..plain };
            &&& is_letter(f[i]) ==> r.spec == Some(plain) && r.at == i + 1 && r.arg == j
            &&& is_length(f[i]) && is_letter(f[i + 1]) ==> r.spec == Some(next) && r.at == i + 2
                && r.arg == j
            &&& is_flag(f[i]) && is_letter(f[i + 1]) ==> r.spec == Some(
                Spec {
                    minus: f[i] == '-' as u8,
                    zero: f[i] == '0' as u8,
                    plus: f[i] == '+' as u8,
                    space: f[i] == ' ' as u8,
                    hash: f[i] == '#' as u8,
                    ..next
                },
            ) && r.at == i + 2 && r.arg == j
            &&& is_figure(f[i]) && f[i] != '0' as u8 && is_letter(f[i + 1]) ==> r.spec == Some(
                Spec { width: Some((f[i] - 48) as u64), ..next },
            ) && r.at == i + 2 && r.arg == j
            &&& f[i] == '*' as u8 && is_letter(f[i + 1]) && arg_at(args, j) < 0x8000_0000 ==> r.spec
                == Some(Spec { width: Some(arg_at(args, j) as u64), ..next }) && r.at == i + 2
                && r.arg == j + 1
        }),
{
    reveal_with_fuel(flags_end, 3);
    reveal_with_fuel(figures_end, 3);
    reveal_with_fuel(lengths_end, 3);
    reveal_with_fuel(figures, 3);
    let a = flags_end(f, i);
    if is_flag(f[i]) && is_letter(f[i + 1]) {
        assert(a == i + 1);
        assert(f[i] == f[i]);
        assert(super::cfmt::among(f, i, a, f[i]));
    }
}

/// A conversion of two digits, a point and two more is that wide and that
/// precise.
pub proof fn widths_and_precisions_are_read(f: Seq<u8>, i: int, args: Seq<u32>, j: int)
    requires
        0 <= i,
        i + 5 < f.len(),
        is_figure(f[i]),
        f[i] != 48,
        is_figure(f[i + 1]),
        f[i + 2] == 46,
        is_figure(f[i + 3]),
        is_figure(f[i + 4]),
        is_letter(f[i + 5]),
    ensures
        ({
            let r = read_spec(f, i, args, j);
            &&& r.spec is Some
            &&& r.spec->Some_0.width == Some((10 * (f[i] - 48) + (f[i + 1] - 48)) as u64)
            &&& r.spec->Some_0.prec == Some((10 * (f[i + 3] - 48) + (f[i + 4] - 48)) as u64)
            &&& r.spec->Some_0.conv == f[i + 5]
            &&& r.at == i + 6
            &&& r.arg == j
        }),
{
    reveal_with_fuel(flags_end, 2);
    reveal_with_fuel(figures_end, 4);
    reveal_with_fuel(lengths_end, 2);
    reveal_with_fuel(figures, 4);
    assert(figures_end(f, i) == i + 2);
    assert(figures_end(f, i + 3) == i + 5);
    assert(figures(f, i, i + 2) == 10 * (f[i] - 48) + (f[i + 1] - 48));
    assert(figures(f, i + 3, i + 5) == 10 * (f[i + 3] - 48) + (f[i + 4] - 48));
}

/// Arguments are taken in turn: two percent signs write one and take none, a
/// number with a fraction takes two words with the upper one first, and any other
/// conversion takes one.
pub proof fn arguments_are_taken_in_turn(m: Space, f: Seq<u8>, i: int, args: Seq<u32>, j: int)
    requires
        0 <= i,
        i + 2 < f.len(),
        0 <= j,
        args.len() > 0,
        f[i] == 37,
        is_letter(f[i + 1]),
    ensures
        f[i + 1] == 37 ==> stride(m, f, i, args, j) == Stride::Go(
            Part::Text(seq![37u8]),
            i + 2,
            j,
        ),
        is_real(f[i + 1]) ==> {
            &&& stride(m, f, i, args, j) matches Stride::Go(Part::Real(bits, sp), at, next)
            &&& bits == joined(arg_at(args, j), arg_at(args, j + 1))
            &&& sp.conv == f[i + 1]
            &&& at == i + 2
            &&& next == j + 2
        },
        f[i + 1] != 37 && !is_real(f[i + 1]) ==> match stride(m, f, i, args, j) {
            Stride::Go(Part::Text(s), at, next) => {
                let sp = read_spec(f, i + 1, args, j).spec->Some_0;
                word_text(m, sp, arg_at(args, j)) == Some(s) && at == i + 2 && next == j + 1
            },
            Stride::Go(..) => false,
            Stride::End => false,
            Stride::Bad => true,
        },
{
    conversions_are_read(f, i + 1, args, j);
}

/// Parts follow each other in their order, each whole.
pub proof fn parts_follow_each_other(ps: Seq<Part>, texts: Seq<Seq<u8>>, n: nat, s: Seq<u8>)
    requires
        n < ps.len(),
        ps[n as int] == Part::Text(s),
        rendered(ps, texts, n) is Some,
    ensures
        rendered(ps, texts, n + 1) == Some(
            (rendered(ps, texts, n)->Some_0.0 + s, rendered(ps, texts, n)->Some_0.1),
        ),
{
}

/// What was written as a number is read as that number: decimal by the decimal
/// conversions, hexadecimal by the hexadecimal one, and with a minus before it as
/// the negative one.
pub proof fn written_numbers_are_scanned(n: nat, c: Conversion)
    requires
        n <= i64::MAX,
        c.width is None,
        c.conv == 'd' || c.conv == 'i' || c.conv == 'u' || c.conv == 'x',
    ensures
        ({
            let s = written(
                n,
                if c.conv == 'x' {
                    16
                } else {
                    10
                },
            );
            &&& hit(s, 0, c) == Hit::Got(
                Value::Word((n as int % 0x1_0000_0000) as u32),
                s.len() as int,
            )
            &&& hit(seq!['-'] + s, 0, c) == Hit::Got(
                Value::Word((-n % 0x1_0000_0000) as u32),
                (s.len() + 1) as int,
            )
        }),
{
    let base: nat = if c.conv == 'x' {
        16
    } else {
        10
    };
    let s = written(n, base);
    written_numbers_read_back(n, base);
    assert(is_digit_in(s[0], base as int));
    all_digits(s, 0, 0, base as int);
    assert(s.subrange(0, s.len() as int) =~= s);
    let t = seq!['-'] + s;
    assert forall|k: int| 1 <= k < t.len() implies is_digit_in(#[trigger] t[k], base as int) by {
        assert(t[k] == s[k - 1]);
    }
    all_digits(t, 0, 1, base as int);
    assert(t.subrange(0, t.len() as int) =~= t);
    assert(t.subrange(1, t.len() as int) =~= s);
}

proof fn all_digits(s: Seq<char>, start: int, i: int, radix: int)
    requires
        0 <= i <= s.len(),
        forall|k: int| i <= k < s.len() ==> is_digit_in(#[trigger] s[k], radix),
    ensures
        past_digits(s, start, i, radix, None) == s.len(),
    decreases s.len() - i,
{
    if i < s.len() {
        all_digits(s, start, i + 1, radix);
    }
}

/// A word is read up to the next white space, or as far as the width reaches, and
/// it is never empty.
pub proof fn words_are_scanned_whole(src: Seq<char>, i: int, c: Conversion)
    requires
        0 <= i <= src.len(),
        c.conv == 's',
    ensures
        hit(src, i, c) matches Hit::Got(v, e) ==> {
            &&& i < e <= src.len()
            &&& v == Value::Text(low_bytes(src.subrange(i, e)))
            &&& forall|k: int| i <= k < e ==> !is_white(#[trigger] src[k])
            &&& e < src.len() ==> is_white(src[e]) || c.width == Some((e - i) as u64)
            &&& c.width matches Some(w) ==> e - i <= w
        },
        hit(src, i, c) is Got || hit(src, i, c) is Miss,
        i < src.len() && !is_white(src[i]) && c.width != Some(0u64) ==> hit(src, i, c) is Got,
{
    word_end(src, i, i, c.width);
}

pub(crate) proof fn word_end(src: Seq<char>, start: int, i: int, width: Option<u64>)
    requires
        0 <= start <= i <= src.len(),
        width matches Some(w) ==> i - start <= w,
    ensures
        ({
            let e = past_word(src, start, i, width);
            &&& i <= e <= src.len()
            &&& forall|k: int| i <= k < e ==> !is_white(#[trigger] src[k])
            &&& e < src.len() ==> is_white(src[e]) || width == Some((e - start) as u64)
            &&& width matches Some(w) ==> e - start <= w
        }),
    decreases src.len() - i,
{
    if i < src.len() && !is_white(src[i]) && (width matches Some(w) ==> i - start < w) {
        word_end(src, start, i + 1, width);
    }
}

/// How a scan goes on: white space in the format passes over any in the text,
/// another character must be the next in the text, and where it is not, what was
/// found so far is all there is.
pub proof fn scans_go_on_while_they_match(
    src: Seq<char>,
    i: int,
    f: Seq<char>,
    p: int,
    acc: Seq<Value>,
)
    requires
        0 <= i <= src.len(),
        0 <= p < f.len(),
        f[p] != '%',
    ensures
        ({
            let r = scan_from(src, i, f, p, acc);
            &&& is_white(f[p]) && i < src.len() && is_white(src[i]) ==> r == scan_from(
                src,
                i + 1,
                f,
                p,
                acc,
            )
            &&& is_white(f[p]) && (i == src.len() || !is_white(src[i])) ==> r == scan_from(
                src,
                i,
                f,
                p + 1,
                acc,
            )
            &&& !is_white(f[p]) && i < src.len() && src[i] == f[p] ==> r == scan_from(
                src,
                i + 1,
                f,
                p + 1,
                acc,
            )
            &&& !is_white(f[p]) && (i == src.len() || src[i] != f[p]) ==> r == Some(acc)
        }),
{
}

/// A character is read as it stands, and the space before any conversion is
/// passed over.
pub proof fn characters_are_scanned_singly(src: Seq<char>, i: int, c: Conversion)
    requires
        0 <= i < src.len(),
        c.conv == 'c',
        src[i] < '\u{100}',
    ensures
        hit(src, i, c) == Hit::Got(Value::Byte(src[i] as u8), i + 1),
        past_white(src, i) == if is_white(src[i]) {
            past_white(src, i + 1)
        } else {
            i
        },
{
}

} // verus!
