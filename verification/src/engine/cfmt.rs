//! Formatted text, as `printf` writes it.
//!
//! A format is read byte by byte, and its arguments are words, taken in turn;
//! a double takes two, the upper one first. What a number with a fraction looks
//! like is left open: such a conversion is kept as it is, and its text is filled
//! in later.
use vstd::prelude::*;
use vstd::utf8::encode_utf8;
use super::words::{lossy, lossy_text};
use crate::data::chars::{number, written};
use crate::xrt::cpu::joined;
use crate::xrt::flags::as_signed;
use crate::xrt::mem::{Mem, Space};
use crate::xrt::text::{find_text, text_at};

verus! {

/// One conversion.
#[derive(Debug, Clone, Copy, PartialEq, Eq, Structural)]
pub struct Spec {
    /// To the left.
    pub minus: bool,
    /// Filled up with zeros.
    pub zero: bool,
    /// With a sign.
    pub plus: bool,
    /// With a space for a sign.
    pub space: bool,
    /// With a mark of its base.
    pub hash: bool,
    /// How wide at least.
    pub width: Option<u64>,
    /// How many digits, or how many bytes of a text.
    pub prec: Option<u64>,
    /// What it converts.
    pub conv: u8,
}

/// A part of formatted text.
#[derive(Debug, Clone)]
pub enum Piece {
    /// Bytes.
    Text(Vec<u8>),
    /// A number with a fraction, still to be written.
    Real {
        /// The bits of the double.
        bits: u64,
        /// How to write it.
        spec: Spec,
    },
}

/// A part of formatted text as mathematics.
pub enum Part {
    /// Bytes.
    Text(Seq<u8>),
    /// A number with a fraction.
    Real(u64, Spec),
}

impl View for Piece {
    type V = Part;

    open spec fn view(&self) -> Part {
        match *self {
            Piece::Text(s) => Part::Text(s@),
            Piece::Real { bits, spec } => Part::Real(bits, spec),
        }
    }
}

/// Parts as mathematics.
pub open spec fn parts(v: Seq<Piece>) -> Seq<Part> {
    v.map_values(|p: Piece| p@)
}

/// Characters as bytes.
pub open spec fn ascii(s: Seq<char>) -> Seq<u8> {
    s.map_values(|c: char| c as u8)
}

/// `n` times the same byte.
pub open spec fn repeated(b: u8, n: int) -> Seq<u8> {
    Seq::new(n as nat, |i: int| b)
}

/// The byte at `i`, or zero past the end.
pub open spec fn byte_or(f: Seq<u8>, i: int) -> u8 {
    if 0 <= i < f.len() {
        f[i]
    } else {
        0
    }
}

/// Whether a byte is a flag: one of `-0+ #`.
pub open spec fn is_flag(b: u8) -> bool {
    b == 45 || b == 48 || b == 43 || b == 32 || b == 35
}

/// Whether a byte is a digit.
pub open spec fn is_figure(b: u8) -> bool {
    48 <= b <= 57
}

/// Whether a byte is a length letter: one of `lhL`.
pub open spec fn is_length(b: u8) -> bool {
    b == 108 || b == 104 || b == 76
}

/// Where the flags from `i` on end.
pub open spec fn flags_end(f: Seq<u8>, i: int) -> int
    decreases f.len() - i,
{
    if 0 <= i < f.len() && is_flag(f[i]) {
        flags_end(f, i + 1)
    } else {
        i
    }
}

/// Where the digits from `i` on end.
pub open spec fn figures_end(f: Seq<u8>, i: int) -> int
    decreases f.len() - i,
{
    if 0 <= i < f.len() && is_figure(f[i]) {
        figures_end(f, i + 1)
    } else {
        i
    }
}

/// Where the length letters from `i` on end.
pub open spec fn lengths_end(f: Seq<u8>, i: int) -> int
    decreases f.len() - i,
{
    if 0 <= i < f.len() && is_length(f[i]) {
        lengths_end(f, i + 1)
    } else {
        i
    }
}

/// The number that the digits from `a` to `b` write.
pub open spec fn figures(f: Seq<u8>, a: int, b: int) -> int
    decreases b - a,
{
    if b <= a {
        0
    } else {
        figures(f, a, b - 1) * 10 + (f[b - 1] - 48)
    }
}

/// Whether a byte is among those from `a` to `b`.
pub open spec fn among(f: Seq<u8>, a: int, b: int, c: u8) -> bool {
    exists|k: int| a <= k < b && #[trigger] f[k] == c
}

/// An argument: the last one stands for those that are missing.
pub open spec fn arg_at(args: Seq<u32>, j: int) -> u32 {
    if j < args.len() {
        args[j]
    } else {
        args[args.len() - 1]
    }
}

/// A number that 64 bits hold.
pub open spec fn fits(n: int) -> Option<u64> {
    if n <= u64::MAX {
        Some(n as u64)
    } else {
        None
    }
}

/// A negative width is as wide as can be.
pub open spec fn star_width(w: u32) -> u64 {
    if as_signed(w) < 0 {
        (0x1_0000_0000_0000_0000 + as_signed(w)) as u64
    } else {
        w as u64
    }
}

/// A conversion that was read: what it is, and where the format and the
/// arguments go on.
pub struct Read {
    /// The conversion; none where the format ended inside it.
    pub spec: Option<Spec>,
    /// Where the format goes on.
    pub at: int,
    /// Which argument is next.
    pub arg: int,
}

/// The precision from `c` on: what it is, where it ends, which argument is
/// next.
pub open spec fn read_prec(f: Seq<u8>, c: int, args: Seq<u32>, j: int) -> (Option<u64>, int, int) {
    if byte_or(f, c) == 46 {
        let d = figures_end(f, c + 1);
        if byte_or(f, d) == 42 {
            (Some(arg_at(args, j) as u64), d + 1, j + 1)
        } else {
            let n = figures(f, c + 1, d);
            (
                Some(
                    if n <= u64::MAX {
                        n as u64
                    } else {
                        0
                    },
                ),
                d,
                j,
            )
        }
    } else {
        (None, c, j)
    }
}

/// The width from `a` on: what it is, where it ends, which argument is next.
pub open spec fn read_width(f: Seq<u8>, a: int, args: Seq<u32>, j: int) -> (Option<u64>, int, int) {
    let b = figures_end(f, a);
    if byte_or(f, b) == 42 {
        (Some(star_width(arg_at(args, j))), b + 1, j + 1)
    } else if b > a {
        (fits(figures(f, a, b)), b, j)
    } else {
        (None, b, j)
    }
}

/// The conversion whose percent sign stands before `i`.
pub open spec fn read_spec(f: Seq<u8>, i: int, args: Seq<u32>, j: int) -> Read {
    let a = flags_end(f, i);
    let (width, c, j1) = read_width(f, a, args, j);
    let (prec, e, j2) = read_prec(f, c, args, j1);
    let g = lengths_end(f, e);
    if g >= f.len() {
        Read { spec: None, at: g, arg: j2 }
    } else {
        Read {
            spec: Some(
                Spec {
                    minus: among(f, i, a, 45),
                    zero: among(f, i, a, 48),
                    plus: among(f, i, a, 43),
                    space: among(f, i, a, 32),
                    hash: among(f, i, a, 35),
                    width,
                    prec,
                    conv: f[g],
                },
            ),
            at: g + 1,
            arg: j2,
        }
    }
}

/// A whole number with its sign.
pub open spec fn signed_text(v: int, sp: Spec) -> Seq<u8> {
    let digits = ascii(
        written(
            (if v < 0 {
                -v
            } else {
                v
            }) as nat,
            10,
        ),
    );
    let filled = match sp.prec {
        Some(p) => if digits.len() < p {
            repeated(48, p - digits.len()) + digits
        } else {
            digits
        },
        None => digits,
    };
    if v < 0 {
        seq![45u8] + filled
    } else if sp.plus {
        seq![43u8] + filled
    } else if sp.space {
        seq![32u8] + filled
    } else {
        filled
    }
}

/// How wide at least.
pub open spec fn least_width(sp: Spec) -> int {
    match sp.width {
        Some(w) => w as int,
        None => 0,
    }
}

/// Text filled up to its width. No text is as wide as half of what 64 bits
/// count.
pub open spec fn padded(s: Seq<u8>, sp: Spec) -> Option<Seq<u8>> {
    let w = least_width(sp);
    let fill = w - s.len();
    if s.len() >= w {
        Some(s)
    } else if w > i64::MAX {
        None
    } else if sp.minus {
        Some(s + repeated(32, fill))
    } else if sp.zero && sp.conv != 115 && sp.conv != 99 {
        if s.len() > 0 && (s[0] == 45 || s[0] == 43) {
            Some(seq![s[0]] + repeated(48, fill) + s.subrange(1, s.len() as int))
        } else {
            Some(repeated(48, fill) + s)
        }
    } else {
        Some(repeated(32, fill) + s)
    }
}

/// A character of one byte as text.
pub open spec fn one_char(b: u8) -> Seq<u8> {
    if b < 0x80 {
        seq![b]
    } else if b < 0xc0 {
        seq![0xc2u8, b]
    } else {
        seq![0xc3u8, (b - 0x40) as u8]
    }
}

/// Letters of a hexadecimal number as capitals.
pub open spec fn capitals(s: Seq<u8>) -> Seq<u8> {
    s.map_values(
        |b: u8|
            if b >= 97 {
                (b - 32) as u8
            } else {
                b
            },
    )
}

/// The bytes of a text argument: those of the text it points to.
pub open spec fn text_arg(m: Space, a: u32) -> Option<Seq<u8>> {
    if a == 0 {
        Some(seq![40u8, 110u8, 117u8, 108u8, 108u8, 41u8])
    } else if m.is_text(a as int) {
        Some(encode_utf8(lossy(m.text(a as int))))
    } else {
        None
    }
}

/// A text cut to a precision, where that does not cut a character.
pub open spec fn cut(s: Seq<u8>, prec: Option<u64>) -> Option<Seq<u8>> {
    match prec {
        Some(p) => if p < s.len() {
            if 0x80 <= s[p as int] < 0xc0 {
                None
            } else {
                Some(s.subrange(0, p as int))
            }
        } else {
            Some(s)
        },
        None => Some(s),
    }
}

/// Whether a conversion is one of a number with a fraction: one of `fFeEgG`.
pub open spec fn is_real(conv: u8) -> bool {
    conv == 102 || conv == 70 || conv == 101 || conv == 69 || conv == 103 || conv == 71
}

/// The text of a conversion that takes one argument word, before it is filled
/// up.
pub open spec fn word_text(m: Space, sp: Spec, v: u32) -> Option<Seq<u8>> {
    let hex = ascii(written(v as nat, 16));
    if sp.conv == 100 || sp.conv == 105 {
        Some(signed_text(as_signed(v), sp))
    } else if sp.conv == 117 {
        Some(signed_text(v as int, sp))
    } else if sp.conv == 120 {
        Some(
            if sp.hash {
                seq![48u8, 120u8] + hex
            } else {
                hex
            },
        )
    } else if sp.conv == 88 {
        Some(
            if sp.hash {
                seq![48u8, 88u8] + capitals(hex)
            } else {
                capitals(hex)
            },
        )
    } else if sp.conv == 111 {
        Some(ascii(written(v as nat, 8)))
    } else if sp.conv == 112 {
        Some(seq![48u8, 120u8] + repeated(48, 8 - hex.len()) + hex)
    } else if sp.conv == 99 {
        Some(one_char((v % 0x100) as u8))
    } else if sp.conv == 115 {
        match text_arg(m, v) {
            Some(s) => cut(s, sp.prec),
            None => None,
        }
    } else {
        None
    }
}

/// What one step of formatting gives.
pub enum Stride {
    /// Nothing: the format ends inside a conversion.
    End,
    /// Nothing: the conversion cannot be done.
    Bad,
    /// A part, and where the format and the arguments go on.
    Go(Part, int, int),
}

/// One step of formatting.
pub open spec fn stride(m: Space, f: Seq<u8>, i: int, args: Seq<u32>, j: int) -> Stride {
    if f[i] != 37 {
        Stride::Go(Part::Text(seq![f[i]]), i + 1, j)
    } else {
        let r = read_spec(f, i + 1, args, j);
        match r.spec {
            None => Stride::End,
            Some(sp) => if is_real(sp.conv) {
                Stride::Go(
                    Part::Real(joined(arg_at(args, r.arg), arg_at(args, r.arg + 1)), sp),
                    r.at,
                    r.arg + 2,
                )
            } else if sp.conv == 37 {
                match padded(seq![37u8], sp) {
                    Some(s) => Stride::Go(Part::Text(s), r.at, r.arg),
                    None => Stride::Bad,
                }
            } else {
                match word_text(m, sp, arg_at(args, r.arg)) {
                    Some(t) => match padded(t, sp) {
                        Some(s) => Stride::Go(Part::Text(s), r.at, r.arg + 1),
                        None => Stride::Bad,
                    },
                    None => Stride::Bad,
                }
            },
        }
    }
}

/// Formatting from `i` on, after the parts `acc`.
pub open spec fn format_from(
    m: Space,
    f: Seq<u8>,
    i: int,
    args: Seq<u32>,
    j: int,
    acc: Seq<Part>,
) -> Option<Seq<Part>>
    decreases f.len() - i,
{
    if i < 0 || i >= f.len() {
        Some(acc)
    } else {
        match stride(m, f, i, args, j) {
            Stride::End => Some(acc),
            Stride::Bad => None,
            Stride::Go(p, k, n) => if k > i {
                format_from(m, f, k, args, n, acc.push(p))
            } else {
                None
            },
        }
    }
}

/// The parts that a format at `fmt` gives with arguments from `from` on.
pub open spec fn formatted(m: Space, fmt: u32, args: Seq<u32>, from: int) -> Option<Seq<Part>> {
    match text_arg(m, fmt) {
        Some(f) => format_from(m, f, 0, args, from, Seq::empty()),
        None => None,
    }
}

/// The first `n` parts as bytes, with the texts of the numbers filled in.
pub open spec fn rendered(ps: Seq<Part>, texts: Seq<Seq<u8>>, n: nat) -> Option<(Seq<u8>, int)>
    decreases n,
{
    if n == 0 {
        Some((Seq::empty(), 0))
    } else {
        match rendered(ps, texts, (n - 1) as nat) {
            None => None,
            Some((out, k)) => match ps[n - 1] {
                Part::Text(s) => Some((out + s, k)),
                Part::Real(_, sp) => if k < texts.len() {
                    match padded(texts[k], sp) {
                        Some(s) => Some((out + s, k + 1)),
                        None => None,
                    }
                } else {
                    None
                },
            },
        }
    }
}

/// Where a run of one kind of bytes ends: flags, digits or length letters.
pub open spec fn run_end(f: Seq<u8>, i: int, kind: int) -> int {
    if kind == 0 {
        flags_end(f, i)
    } else if kind == 1 {
        figures_end(f, i)
    } else {
        lengths_end(f, i)
    }
}

proof fn run_bounds(f: Seq<u8>, i: int)
    requires
        0 <= i <= f.len(),
    ensures
        i <= flags_end(f, i) <= f.len(),
        i <= figures_end(f, i) <= f.len(),
        i <= lengths_end(f, i) <= f.len(),
        forall|k: int| i <= k < figures_end(f, i) ==> is_figure(#[trigger] f[k]),
    decreases f.len() - i,
{
    if i < f.len() {
        run_bounds(f, i + 1);
    }
}

/// Whether a byte belongs to a run of one kind.
fn in_run(b: u8, kind: u8) -> (r: bool)
    ensures
        kind == 0 ==> r == is_flag(b),
        kind == 1 ==> r == is_figure(b),
        kind >= 2 ==> r == is_length(b),
{
    if kind == 0 {
        b == 45 || b == 48 || b == 43 || b == 32 || b == 35
    } else if kind == 1 {
        48 <= b && b <= 57
    } else {
        b == 108 || b == 104 || b == 76
    }
}

/// Where a run of one kind of bytes ends.
fn skip(f: &[u8], from: usize, kind: u8) -> (r: usize)
    requires
        from <= f@.len(),
        kind <= 2,
    ensures
        r == run_end(f@, from as int, kind as int),
        from <= r <= f@.len(),
        kind == 1 ==> forall|k: int| from <= k < r ==> is_figure(#[trigger] f@[k]),
{
    let mut i: usize = from;
    while i < f.len() && in_run(f[i], kind)
        invariant
            from <= i <= f@.len(),
            kind <= 2,
            run_end(f@, from as int, kind as int) == run_end(f@, i as int, kind as int),
        decreases f@.len() - i,
    {
        i = i + 1;
    }
    proof {
        run_bounds(f@, from as int);
    }
    i
}

/// Whether a byte is among those from `a` to `b`.
fn is_among(f: &[u8], a: usize, b: usize, c: u8) -> (r: bool)
    requires
        a <= b <= f@.len(),
    ensures
        r == among(f@, a as int, b as int, c),
{
    let mut i: usize = a;
    while i < b
        invariant
            a <= i <= b <= f@.len(),
            forall|k: int| a <= k < i ==> #[trigger] f@[k] != c,
        decreases b - i,
    {
        if f[i] == c {
            return true;
        }
        i = i + 1;
    }
    false
}

proof fn figures_grow(f: Seq<u8>, a: int, b: int, c: int)
    requires
        a <= b <= c <= f.len(),
        0 <= a,
        forall|k: int| a <= k < c ==> is_figure(#[trigger] f[k]),
    ensures
        0 <= figures(f, a, b) <= figures(f, a, c),
    decreases c - a,
{
    if b < c {
        figures_grow(f, a, b, c - 1);
        assert(is_figure(f[c - 1]));
    } else if a < c {
        figures_grow(f, a, b - 1, c - 1);
        assert(is_figure(f[c - 1]));
    }
}

/// The number that digits write, where 64 bits hold it.
fn read_figures(f: &[u8], a: usize, b: usize) -> (r: Option<u64>)
    requires
        a <= b <= f@.len(),
        forall|k: int| a <= k < b ==> is_figure(#[trigger] f@[k]),
    ensures
        r == fits(figures(f@, a as int, b as int)),
{
    let mut v: u64 = 0;
    let mut i: usize = a;
    while i < b
        invariant
            a <= i <= b <= f@.len(),
            forall|k: int| a <= k < b ==> is_figure(#[trigger] f@[k]),
            v == figures(f@, a as int, i as int),
        decreases b - i,
    {
        assert(is_figure(f@[i as int]));
        let next: u128 = v as u128 * 10 + (f[i] - 48) as u128;
        assert(next == figures(f@, a as int, i + 1));
        if next > u64::MAX as u128 {
            proof {
                figures_grow(f@, a as int, i + 1, b as int);
            }
            return None;
        }
        v = next as u64;
        i = i + 1;
    }
    Some(v)
}

/// An argument.
fn take_arg(args: &[u32], j: usize) -> (r: u32)
    requires
        args@.len() > 0,
    ensures
        r == arg_at(args@, j as int),
{
    if j < args.len() {
        args[j]
    } else {
        args[args.len() - 1]
    }
}

/// Reads a width.
fn scan_width(f: &[u8], a: usize, args: &[u32], j: usize) -> (r: (Option<u64>, usize, usize))
    requires
        a <= f@.len(),
        args@.len() > 0,
        j < usize::MAX,
    ensures
        (r.0, r.1 as int, r.2 as int) == read_width(f@, a as int, args@, j as int),
        a <= r.1 <= f@.len(),
        j <= r.2 <= j + 1,
{
    let b: usize = skip(f, a, 1);
    if b < f.len() && f[b] == 42 {
        let w: u32 = take_arg(args, j);
        let wide: u64 = if w >= 0x8000_0000 {
            u64::MAX - (u32::MAX - w) as u64
        } else {
            w as u64
        };
        (Some(wide), b + 1, j + 1)
    } else if b > a {
        (read_figures(f, a, b), b, j)
    } else {
        (None, b, j)
    }
}

/// Reads a precision.
fn scan_prec(f: &[u8], c: usize, args: &[u32], j: usize) -> (r: (Option<u64>, usize, usize))
    requires
        c <= f@.len(),
        args@.len() > 0,
        j < usize::MAX,
    ensures
        (r.0, r.1 as int, r.2 as int) == read_prec(f@, c as int, args@, j as int),
        c <= r.1 <= f@.len(),
        j <= r.2 <= j + 1,
{
    if c < f.len() && f[c] == 46 {
        let d: usize = skip(f, c + 1, 1);
        if d < f.len() && f[d] == 42 {
            (Some(take_arg(args, j) as u64), d + 1, j + 1)
        } else {
            let n: u64 = match read_figures(f, c + 1, d) {
                Some(n) => n,
                None => 0,
            };
            (Some(n), d, j)
        }
    } else {
        (None, c, j)
    }
}

/// Reads a conversion.
fn scan_spec(f: &[u8], i: usize, args: &[u32], j: usize) -> (r: (Option<Spec>, usize, usize))
    requires
        i <= f@.len(),
        args@.len() > 0,
        j + 2 <= usize::MAX,
    ensures
        (Read { spec: r.0, at: r.1 as int, arg: r.2 as int }) == read_spec(
            f@,
            i as int,
            args@,
            j as int,
        ),
        i <= r.1 <= f@.len(),
        j <= r.2 <= j + 2,
{
    let a: usize = skip(f, i, 0);
    let (width, c, j1) = scan_width(f, a, args, j);
    let (prec, e, j2) = scan_prec(f, c, args, j1);
    let g: usize = skip(f, e, 2);
    if g >= f.len() {
        return (None, g, j2);
    }
    let sp = Spec {
        minus: is_among(f, i, a, 45),
        zero: is_among(f, i, a, 48),
        plus: is_among(f, i, a, 43),
        space: is_among(f, i, a, 32),
        hash: is_among(f, i, a, 35),
        width,
        prec,
        conv: f[g],
    };
    (Some(sp), g + 1, j2)
}

/// Puts bytes at the end.
pub fn push_bytes(out: &mut Vec<u8>, s: &[u8])
    ensures
        final(out)@ == old(out)@ + s@,
{
    let ghost before = out@;
    let mut i: usize = 0;
    assert(before + s@.take(0) =~= before);
    while i < s.len()
        invariant
            i <= s@.len(),
            out@ == before + s@.take(i as int),
        decreases s@.len() - i,
    {
        out.push(s[i]);
        assert(out@ =~= before + s@.take(i + 1));
        i = i + 1;
    }
    assert(s@.take(s@.len() as int) =~= s@);
}

/// Puts one byte at the end `n` times.
fn push_repeated(out: &mut Vec<u8>, b: u8, n: u64)
    ensures
        final(out)@ == old(out)@ + repeated(b, n as int),
{
    let ghost before = out@;
    let mut i: u64 = 0;
    assert(before + repeated(b, 0) =~= before);
    while i < n
        invariant
            i <= n,
            out@ == before + repeated(b, i as int),
        decreases n - i,
    {
        out.push(b);
        assert(out@ =~= before + repeated(b, i + 1));
        i = i + 1;
    }
}

/// A number in a base, as bytes.
fn digits(n: u64, base: u128) -> (r: Vec<u8>)
    requires
        2 <= base <= 16,
    ensures
        r@ == ascii(written(n as nat, base as nat)),
        r@.len() <= 64,
{
    let cs: Vec<char> = number(n as u128, base);
    let mut out: Vec<u8> = Vec::new();
    let mut i: usize = 0;
    proof {
        written_is_ascii(n as nat, base as nat);
        vstd::arithmetic::power2::lemma2_to64_rest();
        written_is_short(n as nat, base as nat, 64);
    }
    while i < cs.len()
        invariant
            i <= cs@.len(),
            forall|k: int| 0 <= k < cs@.len() ==> #[trigger] cs@[k] <= '\u{7f}',
            out@ == ascii(cs@.take(i as int)),
        decreases cs@.len() - i,
    {
        assert(cs@[i as int] <= '\u{7f}');
        out.push(cs[i] as u8);
        assert(out@ =~= ascii(cs@.take(i + 1)));
        i = i + 1;
    }
    assert(cs@.take(cs@.len() as int) =~= cs@);
    out
}

proof fn written_is_ascii(n: nat, base: nat)
    requires
        2 <= base <= 16,
    ensures
        forall|k: int| 0 <= k < written(n, base).len() ==> #[trigger] written(n, base)[k] <= '\u{7f}',
    decreases n,
{
    if n >= base {
        vstd::arithmetic::div_mod::lemma_div_decreases(n as int, base as int);
        vstd::arithmetic::div_mod::lemma_mod_bound(n as int, base as int);
        written_is_ascii(n / base, base);
        let w = written(n / base, base);
        let d = crate::data::chars::digit_char((n % base) as int);
        assert(written(n, base) == w.push(d));
        assert(d <= '\u{7f}');
        assert forall|k: int| 0 <= k < w.push(d).len() implies #[trigger] w.push(d)[k]
            <= '\u{7f}' by {
            if k < w.len() {
                assert(w[k] <= '\u{7f}');
            }
        }
    }
}

proof fn written_is_short(n: nat, base: nat, k: nat)
    requires
        2 <= base <= 16,
        n < vstd::arithmetic::power2::pow2(k) || n == 0,
        k >= 1,
    ensures
        1 <= written(n, base).len() <= k,
    decreases k,
{
    if n >= base {
        vstd::arithmetic::power2::lemma_pow2_unfold(k);
        if k == 1 {
            vstd::arithmetic::power2::lemma2_to64();
        } else {
            assert(n / base <= n / 2) by (nonlinear_arith)
                requires
                    base >= 2,
                    n >= 0,
            ;
            written_is_short(n / base, base, (k - 1) as nat);
        }
    }
}

/// A whole number with its sign.
fn signed(v: i64, sp: &Spec) -> (r: Vec<u8>)
    requires
        v > i64::MIN,
    ensures
        r@ == signed_text(v as int, *sp),
{
    let n: u64 = if v < 0 {
        (-v) as u64
    } else {
        v as u64
    };
    let mut out: Vec<u8> = Vec::new();
    if v < 0 {
        out.push(45);
    } else if sp.plus {
        out.push(43);
    } else if sp.space {
        out.push(32);
    }
    let ghost sign = out@;
    let ds: Vec<u8> = digits(n, 10);
    match sp.prec {
        Some(p) => {
            if (ds.len() as u64) < p {
                push_repeated(&mut out, 48, p - ds.len() as u64);
            }
        },
        None => {},
    }
    push_bytes(&mut out, ds.as_slice());
    assert(out@ =~= signed_text(v as int, *sp));
    out
}

/// Text filled up to its width; none where no text is that wide.
fn pad(s: Vec<u8>, sp: &Spec) -> (r: Option<Vec<u8>>)
    ensures
        match (r, padded(s@, *sp)) {
            (Some(t), Some(want)) => t@ == want,
            (None, None) => true,
            _ => false,
        },
{
    let w: u64 = match sp.width {
        Some(w) => w,
        None => 0,
    };
    if s.len() as u64 >= w {
        return Some(s);
    }
    if w > i64::MAX as u64 {
        return None;
    }
    let fill: u64 = w - s.len() as u64;
    let mut out: Vec<u8> = Vec::new();
    if sp.minus {
        push_bytes(&mut out, s.as_slice());
        push_repeated(&mut out, 32, fill);
        assert(out@ =~= s@ + repeated(32, fill as int));
    } else if sp.zero && sp.conv != 115 && sp.conv != 99 {
        if s.len() > 0 && (s[0] == 45 || s[0] == 43) {
            out.push(s[0]);
            push_repeated(&mut out, 48, fill);
            push_bytes(&mut out, vstd::slice::slice_subrange(s.as_slice(), 1, s.len()));
            assert(out@ =~= seq![s@[0]] + repeated(48, fill as int) + s@.subrange(
                1,
                s@.len() as int,
            ));
        } else {
            push_repeated(&mut out, 48, fill);
            push_bytes(&mut out, s.as_slice());
            assert(out@ =~= repeated(48, fill as int) + s@);
        }
    } else {
        push_repeated(&mut out, 32, fill);
        push_bytes(&mut out, s.as_slice());
        assert(out@ =~= repeated(32, fill as int) + s@);
    }
    Some(out)
}

/// The bytes of a text argument; none where it points to no text.
fn text_of_arg(m: &Mem, a: u32) -> (r: Option<Vec<u8>>)
    ensures
        match (r, text_arg(m@, a)) {
            (Some(t), Some(want)) => t@ == want,
            (None, None) => true,
            _ => false,
        },
{
    if a == 0 {
        let t: Vec<u8> = vec![40u8, 110u8, 117u8, 108u8, 108u8, 41u8];
        assert(t@ =~= seq![40u8, 110u8, 117u8, 108u8, 108u8, 41u8]);
        return Some(t);
    }
    match find_text(m, a) {
        Some(_) => {
            let b: Vec<u8> = text_at(m, a);
            let t: String = lossy_text(b.as_slice());
            Some(vstd::slice::slice_to_vec(t.as_str().as_bytes()))
        },
        None => None,
    }
}

/// A text cut to a precision.
fn cut_to(s: Vec<u8>, prec: Option<u64>) -> (r: Option<Vec<u8>>)
    ensures
        match (r, cut(s@, prec)) {
            (Some(t), Some(want)) => t@ == want,
            (None, None) => true,
            _ => false,
        },
{
    match prec {
        Some(p) => {
            if p < s.len() as u64 {
                let b: u8 = s[p as usize];
                if 0x80 <= b && b < 0xc0 {
                    None
                } else {
                    Some(
                        vstd::slice::slice_to_vec(
                            vstd::slice::slice_subrange(s.as_slice(), 0, p as usize),
                        ),
                    )
                }
            } else {
                Some(s)
            }
        },
        None => Some(s),
    }
}

/// A hexadecimal number, with a mark of its base, in small letters or capitals.
fn hex_text(v: u32, mark: bool, large: bool) -> (r: Vec<u8>)
    ensures
        r@ == ({
            let hex = ascii(written(v as nat, 16));
            let body = if large {
                capitals(hex)
            } else {
                hex
            };
            if mark {
                seq![
                    48u8,
                    if large {
                        88u8
                    } else {
                        120u8
                    },
                ] + body
            } else {
                body
            }
        }),
{
    let hex: Vec<u8> = digits(v as u64, 16);
    let mut out: Vec<u8> = Vec::new();
    if mark {
        out.push(48);
        out.push(
            if large {
                88
            } else {
                120
            },
        );
    }
    let ghost head = out@;
    let mut i: usize = 0;
    while i < hex.len()
        invariant
            i <= hex@.len(),
            out@ == head + if large {
                capitals(hex@.take(i as int))
            } else {
                hex@.take(i as int)
            },
        decreases hex@.len() - i,
    {
        let b: u8 = hex[i];
        out.push(
            if large && b >= 97 {
                b - 32
            } else {
                b
            },
        );
        assert(out@ =~= head + if large {
            capitals(hex@.take(i + 1))
        } else {
            hex@.take(i + 1)
        });
        i = i + 1;
    }
    assert(hex@.take(hex@.len() as int) =~= hex@);
    out
}

/// The text of a conversion that takes one argument word.
fn convert(m: &Mem, sp: &Spec, v: u32) -> (r: Option<Vec<u8>>)
    ensures
        match (r, word_text(m@, *sp, v)) {
            (Some(t), Some(want)) => t@ == want,
            (None, None) => true,
            _ => false,
        },
{
    if sp.conv == 100 || sp.conv == 105 {
        let x: i64 = if v >= 0x8000_0000 {
            v as i64 - 0x1_0000_0000
        } else {
            v as i64
        };
        Some(signed(x, sp))
    } else if sp.conv == 117 {
        Some(signed(v as i64, sp))
    } else if sp.conv == 120 {
        Some(hex_text(v, sp.hash, false))
    } else if sp.conv == 88 {
        Some(hex_text(v, sp.hash, true))
    } else if sp.conv == 111 {
        Some(digits(v as u64, 8))
    } else if sp.conv == 112 {
        let hex: Vec<u8> = digits(v as u64, 16);
        proof {
            eight_digits(v);
        }
        let mut out: Vec<u8> = vec![48u8, 120u8];
        assert(out@ =~= seq![48u8, 120u8]);
        push_repeated(&mut out, 48, 8 - hex.len() as u64);
        push_bytes(&mut out, hex.as_slice());
        Some(out)
    } else if sp.conv == 99 {
        let b: u8 = (v % 0x100) as u8;
        let t: Vec<u8> = if b < 0x80 {
            vec![b]
        } else if b < 0xc0 {
            vec![0xc2u8, b]
        } else {
            vec![0xc3u8, b - 0x40]
        };
        assert(t@ =~= one_char(b));
        Some(t)
    } else if sp.conv == 115 {
        match text_of_arg(m, v) {
            Some(s) => cut_to(s, sp.prec),
            None => None,
        }
    } else {
        None
    }
}

proof fn eight_digits(v: u32)
    ensures
        ascii(written(v as nat, 16)).len() <= 8,
{
    assert(vstd::arithmetic::power::pow(16, 8) == 0x1_0000_0000) by {
        reveal_with_fuel(vstd::arithmetic::power::pow, 9);
    }
    sixteenths(v as nat, 8);
}

proof fn sixteenths(n: nat, k: nat)
    requires
        k >= 1,
        n < vstd::arithmetic::power::pow(16, k),
    ensures
        written(n, 16).len() <= k,
    decreases k,
{
    reveal_with_fuel(vstd::arithmetic::power::pow, 2);
    if n >= 16 {
        if k > 1 {
            assert(n / 16 < vstd::arithmetic::power::pow(16, (k - 1) as nat));
            sixteenths(n / 16, (k - 1) as nat);
        }
    }
}

/// One step of formatting: a part, and where the format and the arguments go
/// on; or whether the format simply ends.
fn advance(m: &Mem, f: &[u8], i: usize, args: &[u32], j: usize) -> (r: Result<
    (Piece, usize, usize),
    bool,
>)
    requires
        i < f@.len(),
        args@.len() > 0,
        j + 4 <= usize::MAX,
    ensures
        match (r, stride(m@, f@, i as int, args@, j as int)) {
            (Ok((p, k, n)), Stride::Go(want, at, arg)) => p@ == want && k == at && n == arg,
            (Err(true), Stride::End) => true,
            (Err(false), Stride::Bad) => true,
            _ => false,
        },
        r is Ok ==> i < r->Ok_0.1 <= f@.len() && j <= r->Ok_0.2 <= j + 4,
{
    if f[i] != 37 {
        let t: Vec<u8> = vec![f[i]];
        assert(t@ =~= seq![f@[i as int]]);
        return Ok((Piece::Text(t), i + 1, j));
    }
    let (spec, at, arg) = scan_spec(f, i + 1, args, j);
    let sp: Spec = match spec {
        Some(sp) => sp,
        None => {
            return Err(true);
        },
    };
    if sp.conv == 102 || sp.conv == 70 || sp.conv == 101 || sp.conv == 69 || sp.conv == 103
        || sp.conv == 71 {
        let (hi, lo) = (take_arg(args, arg), take_arg(args, arg + 1));
        let bits: u64 = hi as u64 * 0x1_0000_0000 + lo as u64;
        return Ok((Piece::Real { bits, spec: sp }, at, arg + 2));
    }
    if sp.conv == 37 {
        let t: Vec<u8> = vec![37u8];
        assert(t@ =~= seq![37u8]);
        return match pad(t, &sp) {
            Some(s) => Ok((Piece::Text(s), at, arg)),
            None => Err(false),
        };
    }
    match convert(m, &sp, take_arg(args, arg)) {
        Some(t) => match pad(t, &sp) {
            Some(s) => Ok((Piece::Text(s), at, arg + 1)),
            None => Err(false),
        },
        None => Err(false),
    }
}

/// Formats: the parts that the format at `fmt` gives with the arguments from
/// `from` on. There are none where the format or a text is not there, where a
/// conversion is unknown, or where a width is beyond any text.
pub fn format(m: &Mem, fmt: u32, args: &[u32], from: usize) -> (r: Option<Vec<Piece>>)
    requires
        args@.len() > 0,
        from <= args@.len() <= 0x7fff_ffff,
    ensures
        match (r, formatted(m@, fmt, args@, from as int)) {
            (Some(v), Some(want)) => parts(v@) == want,
            (None, None) => true,
            _ => false,
        },
{
    let f: Vec<u8> = match text_of_arg(m, fmt) {
        Some(f) => f,
        None => {
            return None;
        },
    };
    let ghost want = formatted(m@, fmt, args@, from as int);
    let mut out: Vec<Piece> = Vec::new();
    assert(parts(out@) =~= Seq::empty());
    let mut i: usize = 0;
    let mut j: usize = from;
    while i < f.len()
        invariant
            i <= f@.len(),
            args@.len() > 0,
            args@.len() <= 0x7fff_ffff,
            want == formatted(m@, fmt, args@, from as int),
            want == format_from(m@, f@, i as int, args@, j as int, parts(out@)),
        decreases f@.len() - i,
    {
        if j > args.len() {
            proof {
                late_args(m@, f@, i as int, args@, j as int, args@.len() as int, parts(out@));
            }
            j = args.len();
        }
        match advance(m, f.as_slice(), i, args, j) {
            Ok((p, k, n)) => {
                let ghost before = parts(out@);
                out.push(p);
                assert(parts(out@) =~= before.push(p@));
                i = k;
                j = n;
            },
            Err(ended) => {
                return if ended {
                    Some(out)
                } else {
                    None
                };
            },
        }
    }
    Some(out)
}

proof fn late_args(
    m: Space,
    f: Seq<u8>,
    i: int,
    args: Seq<u32>,
    j: int,
    k: int,
    acc: Seq<Part>,
)
    requires
        0 <= i,
        j >= args.len(),
        k >= args.len(),
    ensures
        format_from(m, f, i, args, j, acc) == format_from(m, f, i, args, k, acc),
    decreases f.len() - i,
{
    if i < f.len() {
        match (stride(m, f, i, args, j), stride(m, f, i, args, k)) {
            (Stride::Go(p, x, n), Stride::Go(q, y, o)) => {
                if x > i {
                    late_args(m, f, x, args, n, o, acc.push(p));
                }
            },
            _ => {},
        }
    }
}

/// The numbers with a fraction among some parts, in order.
pub open spec fn reals(ps: Seq<Part>, n: nat) -> Seq<(u64, Spec)>
    decreases n,
{
    if n == 0 {
        Seq::empty()
    } else {
        match ps[n - 1] {
            Part::Real(bits, sp) => reals(ps, (n - 1) as nat).push((bits, sp)),
            Part::Text(_) => reals(ps, (n - 1) as nat),
        }
    }
}

/// The numbers with a fraction among some parts, in order: those whose texts
/// are still to be written.
pub fn open_numbers(ps: &Vec<Piece>) -> (r: Vec<(u64, Spec)>)
    ensures
        r@ == reals(parts(ps@), ps@.len()),
{
    let mut out: Vec<(u64, Spec)> = Vec::new();
    let mut i: usize = 0;
    while i < ps.len()
        invariant
            i <= ps@.len(),
            out@ == reals(parts(ps@), i as nat),
        decreases ps@.len() - i,
    {
        assert(parts(ps@)[i as int] == ps@[i as int]@);
        match &ps[i] {
            Piece::Real { bits, spec } => {
                out.push((*bits, *spec));
            },
            Piece::Text(_) => {},
        }
        i = i + 1;
    }
    out
}

/// Texts as bytes.
pub open spec fn byte_texts(v: Seq<String>) -> Seq<Seq<u8>> {
    v.map_values(|s: String| encode_utf8(s@))
}

/// Parts as bytes, with the texts of the numbers filled in; none where a text
/// is missing or a width is beyond any text.
pub fn render(ps: &Vec<Piece>, texts: &Vec<String>) -> (r: Option<Vec<u8>>)
    ensures
        match (r, rendered(parts(ps@), byte_texts(texts@), ps@.len())) {
            (Some(v), Some((want, _))) => v@ == want,
            (None, None) => true,
            _ => false,
        },
{
    let ghost all = parts(ps@);
    let ghost ts = byte_texts(texts@);
    let mut out: Vec<u8> = Vec::new();
    let mut k: usize = 0;
    let mut i: usize = 0;
    while i < ps.len()
        invariant
            i <= ps@.len(),
            k <= texts@.len(),
            all == parts(ps@),
            ts == byte_texts(texts@),
            rendered(all, ts, i as nat) == Some((out@, k as int)),
        decreases ps@.len() - i,
    {
        assert(all[i as int] == ps@[i as int]@);
        match &ps[i] {
            Piece::Text(s) => {
                push_bytes(&mut out, s.as_slice());
            },
            Piece::Real { bits: _, spec } => {
                if k >= texts.len() {
                    proof {
                        unrendered(all, ts, (i + 1) as nat, all.len());
                    }
                    return None;
                }
                assert(ts[k as int] == encode_utf8(texts@[k as int]@));
                let t: Vec<u8> = vstd::slice::slice_to_vec(texts[k].as_str().as_bytes());
                match pad(t, spec) {
                    Some(s) => {
                        push_bytes(&mut out, s.as_slice());
                    },
                    None => {
                        proof {
                            unrendered(all, ts, (i + 1) as nat, all.len());
                        }
                        return None;
                    },
                }
                k = k + 1;
            },
        }
        i = i + 1;
    }
    Some(out)
}

proof fn unrendered(ps: Seq<Part>, texts: Seq<Seq<u8>>, n: nat, m: nat)
    requires
        n <= m,
        rendered(ps, texts, n) is None,
    ensures
        rendered(ps, texts, m) is None,
    decreases m,
{
    if n < m {
        unrendered(ps, texts, n, (m - 1) as nat);
    }
}

/// Bytes as parts, one each.
pub open spec fn one_each(f: Seq<u8>) -> Seq<Part> {
    f.map_values(|b: u8| Part::Text(seq![b]))
}

/// A format without a percent sign gives itself, whatever the arguments are.
pub proof fn plain_formats_stay(m: Space, f: Seq<u8>, args: Seq<u32>, j: int, texts: Seq<Seq<u8>>)
    requires
        forall|i: int| 0 <= i < f.len() ==> #[trigger] f[i] != 37,
    ensures
        ({
            let r = format_from(m, f, 0, args, j, Seq::empty());
            r is Some && rendered(r->Some_0, texts, r->Some_0.len()) == Some((f, 0int))
        }),
{
    plain_from(m, f, 0, args, j, Seq::empty());
    assert(one_each(f).take(0) =~= Seq::empty());
    let ps = one_each(f);
    assert(f.subrange(0, f.len() as int) =~= f);
    assert(Seq::<Part>::empty() + one_each(f) =~= ps);
    plain_renders(f, texts, f.len());
    assert(f.take(f.len() as int) =~= f);
}

proof fn plain_from(m: Space, f: Seq<u8>, i: int, args: Seq<u32>, j: int, acc: Seq<Part>)
    requires
        0 <= i <= f.len(),
        forall|k: int| 0 <= k < f.len() ==> #[trigger] f[k] != 37,
    ensures
        format_from(m, f, i, args, j, acc) == Some(
            acc + one_each(f.subrange(i, f.len() as int)),
        ),
    decreases f.len() - i,
{
    if i < f.len() {
        let p = Part::Text(seq![f[i]]);
        plain_from(m, f, i + 1, args, j, acc.push(p));
        assert(acc.push(p) + one_each(f.subrange(i + 1, f.len() as int)) =~= acc + one_each(
            f.subrange(i, f.len() as int),
        ));
    } else {
        assert(acc + one_each(f.subrange(i, f.len() as int)) =~= acc);
    }
}

proof fn plain_renders(f: Seq<u8>, texts: Seq<Seq<u8>>, n: nat)
    requires
        n <= f.len(),
    ensures
        rendered(one_each(f), texts, n) == Some((f.take(n as int), 0int)),
    decreases n,
{
    if n > 0 {
        plain_renders(f, texts, (n - 1) as nat);
        assert(f.take(n - 1) + seq![f[n - 1]] =~= f.take(n as int));
    } else {
        assert(f.take(0) =~= Seq::<u8>::empty());
    }
}

/// Filling up reaches the width and takes nothing away: what comes out is as
/// long as the longer of the two, and text that is wide enough stays.
pub proof fn filling_reaches_the_width(s: Seq<u8>, sp: Spec)
    requires
        least_width(sp) <= i64::MAX,
    ensures
        padded(s, sp) matches Some(t) && t.len() == if s.len() >= least_width(sp) {
            s.len() as int
        } else {
            least_width(sp)
        } && (s.len() >= least_width(sp) ==> t == s),
{
}

} // verus!
