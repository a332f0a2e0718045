//! Fixed-point square root, restoring division and block level.
use vstd::prelude::*;
use super::fixed::{add32, asr32, low16, low32_of, lsl32, mul32, mult16_16, sub32, weight, weight_doubles, weight_values, wrap16, wrap32};

verus! {

/// The normalisation loop shifts its operand up until it exceeds this.
pub const NORM_FLOOR: i32 = 0xfff;

/// Ceiling applied to the polynomial before denormalising.
pub const SAT: i32 = 0x3fff;

/// Quotient rounded toward zero.
pub open spec fn trunc_div(a: int, b: int) -> int
    recommends
        b != 0,
{
    let q = vstd::math::abs(a) as int / vstd::math::abs(b) as int;
    if (a < 0) != (b < 0) {
        -q
    } else {
        q
    }
}

/// Scales a small operand up by fours, counting down, until it exceeds
/// [`NORM_FLOOR`].
pub open spec fn lift(x: int, k: int) -> (int, int)
    decreases 0x4000 - x,
{
    if 0 < x <= NORM_FLOOR {
        lift(4 * x, k - 1)
    } else {
        (x, k)
    }
}

/// One normalisation step: above `limit`, drop `2 * halves` bits.
pub open spec fn drop_bits(p: (int, int), limit: int, halves: nat) -> (int, int) {
    if p.0 > limit {
        (p.0 / weight(2 * halves), p.1 + halves)
    } else {
        p
    }
}

/// A positive operand as `(m, k)` with `m` in the polynomial's window and the
/// operand close to `m * 4^k`.
pub open spec fn normalised(x: int) -> (int, int) {
    let p = drop_bits((x, 0), 0x00ff_ffff, 5);
    let p = drop_bits(p, 0x000f_ffff, 3);
    let p = drop_bits(p, 0x0003_ffff, 2);
    let p = drop_bits(p, 0x0000_7fff, 1);
    let p = drop_bits(p, 0x0000_3fff, 1);
    lift(p.0, p.1)
}

/// The cubic through the window, each product narrowed to 16 bits.
pub open spec fn root_polynomial(n: int) -> int {
    let a = wrap16(n * 0x1077 / 0x4000) - 0x3153;
    let b = wrap16(wrap16(a) * n / 0x4000) + 0x52b5;
    let c = wrap16(wrap16(b) * n / 0x4000) + 0x0e32;
    wrap16(c) as int
}

/// What [`spx_sqrt`] returns.
pub open spec fn root(x: int) -> int {
    if x <= 0 {
        0
    } else {
        let (m, k) = normalised(x);
        let p = root_polynomial(wrap16(m) as int);
        let v = if p >= SAT {
            SAT as int
        } else {
            p
        };
        let d = if k < 1 {
            v / weight((-k) as nat)
        } else {
            wrap32(v * weight(k as nat)) as int
        };
        wrap32(d * 512) as int / 0x1_0000
    }
}

/// Keeps the low 16 bits and sign-extends.
pub fn trunc16(v: i32) -> (r: i32)
    ensures
        r == wrap16(v as int),
{
    low16(v) as i32
}

/// The cubic through the normalisation window.
fn polynomial(n: i16) -> (r: i32)
    ensures
        r == root_polynomial(n as int),
{
    let a: i32 = low16(asr32(mult16_16(n, 0x1077), 14)) as i32 - 0x3153;
    let b: i32 = low16(asr32(mult16_16(low16(a), n), 14)) as i32 + 0x52b5;
    let c: i32 = low16(asr32(mult16_16(low16(b), n), 14)) as i32 + 0x0e32;
    trunc16(c)
}

/// Fixed-point square root: normalise, evaluate a cubic, denormalise.
///
/// Zero for anything that is not positive. The five normalisation tests are
/// sequential, each seeing what the previous one left.
pub fn spx_sqrt(x: i32) -> (r: i32)
    ensures
        r == root(x as int),
{
    if x <= 0 {
        return 0;
    }
    let mut m: i32 = x;
    let mut k: i32 = 0;
    if m > 0x00ff_ffff {
        m = asr32(m, 10);
        k = 5;
    }
    if m > 0x000f_ffff {
        m = asr32(m, 6);
        k = k + 3;
    }
    if m > 0x0003_ffff {
        m = asr32(m, 4);
        k = k + 2;
    }
    if m > 0x0000_7fff {
        m = asr32(m, 2);
        k = k + 1;
    }
    if m > 0x0000_3fff {
        m = asr32(m, 2);
        k = k + 1;
    }
    proof {
        weight_values();
    }
    let ghost m0 = m as int;
    let ghost k0 = k as int;
    let ghost mut j: int = 0;
    while m <= NORM_FLOOR
        invariant
            0 < m,
            0 <= k0 <= 12,
            0 <= j <= 6,
            k == k0 - j,
            m >= weight((2 * j) as nat),
            lift(m0, k0) == lift(m as int, k as int),
        decreases 0x4000 - m,
    {
        proof {
            weight_values();
            weight_doubles((2 * j) as nat);
            weight_doubles((2 * j + 1) as nat);
            j = j + 1;
        }
        m = m * 4;
        k = k - 1;
    }
    let p: i32 = polynomial(low16(m));
    let v: i32 = if p >= SAT {
        SAT
    } else {
        p
    };
    let d: i32 = if k < 1 {
        asr32(v, (-k) as u32)
    } else {
        lsl32(v, k as u32)
    };
    asr32(lsl32(d, 9), 16)
}

/// Bits `e` and below of a restoring quotient of `n` by `d`.
///
/// Each step takes its bit where the wrapped difference is not negative; the
/// lowest step leaves the remainder alone.
pub open spec fn restoring(n: int, d: int, e: nat) -> int
    decreases e,
{
    let t = wrap32(n - d * weight(e));
    if e == 0 {
        if t >= 0 {
            1
        } else {
            0
        }
    } else if t >= 0 {
        weight(e) + restoring(t as int, d, (e - 1) as nat)
    } else {
        restoring(n, d, (e - 1) as nat)
    }
}

/// The magnitude of a 32-bit number, wrapping at the most negative one.
pub open spec fn magnitude(x: int) -> int {
    if x < 0 {
        wrap32(-x) as int
    } else {
        x
    }
}

/// What [`div15`] returns.
pub open spec fn quotient15(num: int, den: int) -> i16 {
    let q = restoring(magnitude(num), magnitude(den), 14);
    if (num < 0) != (den < 0) {
        wrap16(-q)
    } else {
        wrap16(q)
    }
}

/// A fifteen-bit restoring division.
///
/// The sign is taken off both operands and put back on the 16-bit quotient.
/// The trial products wrap, so a large divisor gives whatever the wrapped
/// comparisons say.
pub fn div15(num: i32, den: i32) -> (r: i16)
    ensures
        r == quotient15(num as int, den as int),
{
    let negative: bool = (num < 0) != (den < 0);
    let mut n: i32 = if num < 0 {
        sub32(0, num)
    } else {
        num
    };
    let d: i32 = if den < 0 {
        sub32(0, den)
    } else {
        den
    };
    let mut q: i32 = 0;
    let mut bit: i32 = 0x4000;
    let ghost n0 = n as int;
    let ghost mut e: nat = 14;
    proof {
        weight_values();
    }
    while bit >= 2
        invariant
            e <= 14,
            bit == weight(e),
            0 <= q,
            q + 2 * bit <= 0x8000,
            q + restoring(n as int, d as int, e) == restoring(n0, d as int, 14),
        decreases bit,
    {
        let t: i32 = sub32(n, mul32(d, bit));
        proof {
            super::fixed::wrap32_sub(n as int, d * bit);
        }
        if t >= 0 {
            q = q + bit;
            n = t;
        }
        bit = bit / 2;
        proof {
            weight_doubles((e - 1) as nat);
            e = (e - 1) as nat;
        }
    }
    assert(e == 0) by {
        if e > 0 {
            weight_doubles((e - 1) as nat);
        }
    }
    if sub32(n, d) >= 0 {
        q = q + 1;
    }
    low16(if negative {
        -q
    } else {
        q
    })
}

/// The divisor's share of a dividend: [`restoring`] is floor division while
/// no trial product leaves the word.
proof fn restoring_divides(n: int, d: int, e: nat)
    requires
        e <= 14,
        0 < d <= 0x1_ffff,
        0 <= n < d * weight(e + 1),
    ensures
        restoring(n, d, e) == n / d,
    decreases e,
{
    weight_doubles(e);
    let w = weight(e);
    weight_values();
    super::fixed::weight_monotone(e, 14);
    assert(0 < d * w <= 0x1_ffff * 0x4000 && d * weight(e + 1) == 2 * (d * w)) by (nonlinear_arith)
        requires
            0 < d <= 0x1_ffff,
            1 <= w <= 0x4000,
            weight(e + 1) == 2 * w,
    ;
    let t = n - d * w;
    assert(wrap32(t) == t);
    if e == 0 {
        if t >= 0 {
            vstd::arithmetic::div_mod::lemma_fundamental_div_mod_converse(n, d, 1, n - d);
        } else {
            vstd::arithmetic::div_mod::lemma_fundamental_div_mod_converse(n, d, 0, n);
        }
    } else {
        weight_doubles((e - 1) as nat);
        if t >= 0 {
            restoring_divides(t, d, (e - 1) as nat);
            vstd::arithmetic::div_mod::lemma_fundamental_div_mod(t, d);
            let q = t / d;
            assert(n == d * (w + q) + t % d) by (nonlinear_arith)
                requires
                    t == n - d * w,
                    t == d * q + t % d,
            ;
            vstd::arithmetic::div_mod::lemma_fundamental_div_mod_converse(n, d, w + q, t % d);
        } else {
            restoring_divides(n, d, (e - 1) as nat);
        }
    }
}

/// Within its range the restoring division is ordinary division, rounded
/// toward zero: the divisor fits in seventeen bits and the quotient in
/// fifteen.
pub proof fn div15_is_division(num: i32, den: i32)
    requires
        den != 0,
        -0x1_ffff <= den <= 0x1_ffff,
        magnitude(num as int) < 0x8000 * magnitude(den as int),
        num > i32::MIN,
    ensures
        quotient15(num as int, den as int) == trunc_div(num as int, den as int),
{
    let n = magnitude(num as int);
    let d = magnitude(den as int);
    weight_values();
    restoring_divides(n, d, 14);
    let q = n / d;
    vstd::arithmetic::div_mod::lemma_fundamental_div_mod(n, d);
    assert(0 <= q < 0x8000) by (nonlinear_arith)
        requires
            n == d * q + n % d,
            0 <= n % d < d,
            0 <= n < 0x8000 * d,
            d > 0,
    ;
}

/// The level at which [`compute_rms16`] changes its scaling.
pub const LOUD: i32 = 0x4000;

/// The block's peak magnitude over its first `n` samples, at least ten.
pub open spec fn peak(x: Seq<i16>, n: nat) -> int
    decreases n,
{
    if n == 0 {
        10
    } else {
        let p = peak(x, (n - 1) as nat);
        let a = vstd::math::abs(x[n - 1] as int) as int;
        if p < a {
            a
        } else {
            p
        }
    }
}

/// How far a quiet block is shifted up before squaring.
pub open spec fn headroom(peak: int) -> nat {
    if peak < 0x800 {
        3
    } else if peak < 0x1000 {
        2
    } else if peak < 0x2000 {
        1
    } else {
        0
    }
}

/// A sample scaled for squaring: up by the headroom below [`LOUD`], and
/// halved with rounding at or above it.
#[verifier::opaque]
pub open spec fn scaled(s: int, peak: int) -> int {
    if peak < LOUD {
        wrap16(s * weight(headroom(peak))) as int
    } else {
        (s + 1) / 2
    }
}

/// The sum of squares of four scaled samples starting at `i`.
pub open spec fn four_squares(x: Seq<i16>, i: int, peak: int) -> int {
    let a = scaled(x[i] as int, peak);
    let b = scaled(x[i + 1] as int, peak);
    let c = scaled(x[i + 2] as int, peak);
    let d = scaled(x[i + 3] as int, peak);
    a * a + b * b + c * c + d * d
}

/// The energy of the first `g` groups of four, each group's sum of squares
/// divided by 64.
pub open spec fn energy(x: Seq<i16>, g: nat, peak: int) -> i32
    decreases g,
{
    if g == 0 {
        0
    } else {
        let before = energy(x, (g - 1) as nat, peak);
        wrap32(before + wrap32(four_squares(x, 4 * (g - 1), peak)) as int / 64)
    }
}

/// What [`compute_rms16`] returns.
pub open spec fn level(x: Seq<i16>, len: int) -> int {
    if len > x.len() || len % 4 != 0 {
        0
    } else {
        let p = peak(x, len as nat);
        let mean = trunc_div(energy(x, (len / 4) as nat, p) as int, wrap32(len) as int);
        rescaled(root(mean), p)
    }
}

/// A root brought back to the block's own scale.
pub open spec fn rescaled(r: int, peak: int) -> int {
    if peak < LOUD {
        wrap16(r * weight((3 - headroom(peak)) as nat)) as int
    } else {
        wrap32(r * 0x10_0000) as int / 0x1_0000
    }
}

/// Divides, rounding toward zero.
pub fn div_toward_zero(a: i32, b: i32) -> (r: i32)
    requires
        b != 0,
        a != i32::MIN || b != -1,
    ensures
        r == trunc_div(a as int, b as int),
{
    proof {
        let x = vstd::math::abs(a as int) as int;
        let d = vstd::math::abs(b as int) as int;
        vstd::arithmetic::div_mod::lemma_div_nonincreasing(x, d);
        vstd::arithmetic::div_mod::lemma_div_pos_is_pos(x, d);
        if d >= 2 {
            vstd::arithmetic::div_mod::lemma_div_is_ordered_by_denominator(x, 2, d);
        }
    }
    match a.checked_div(b) {
        Some(q) => q,
        None => 0,
    }
}

/// The block's peak, at least ten.
fn block_peak(x: &[i16], len: usize) -> (r: i32)
    requires
        len <= x@.len(),
    ensures
        r == peak(x@, len as nat),
        10 <= r <= 0x8000,
{
    let mut p: i32 = 10;
    let mut i: usize = 0;
    while i < len
        invariant
            i <= len <= x@.len(),
            p == peak(x@, i as nat),
            10 <= p <= 0x8000,
        decreases len - i,
    {
        let v: i32 = x[i] as i32;
        let a: i32 = if v < 0 {
            -v
        } else {
            v
        };
        if p < a {
            p = a;
        }
        i = i + 1;
    }
    p
}

/// One sample scaled for squaring.
fn scale_sample(s: i16, p: i32) -> (r: i16)
    ensures
        r == scaled(s as int, p as int),
{
    reveal(scaled);
    if p < LOUD {
        let shift: u32 = if p < 0x800 {
            3
        } else if p < 0x1000 {
            2
        } else if p < 0x2000 {
            1
        } else {
            0
        };
        low16(lsl32(s as i32, shift))
    } else {
        low16(asr32(s as i32 + 1, 1))
    }
}

/// One sample scaled for squaring, and squared.
fn scaled_square(s: i16, p: i32) -> (r: i32)
    ensures
        r == scaled(s as int, p as int) * scaled(s as int, p as int),
{
    let v: i16 = scale_sample(s, p);
    mult16_16(v, v)
}

/// The block's energy over whole groups of four.
fn block_energy(x: &[i16], len: usize, p: i32) -> (r: i32)
    requires
        len <= x@.len(),
        len % 4 == 0,
    ensures
        r == energy(x@, (len / 4) as nat, p as int),
{
    let mut sum: i32 = 0;
    let mut i: usize = 0;
    while i < len
        invariant
            i <= len <= x@.len(),
            len % 4 == 0,
            i % 4 == 0,
            sum == energy(x@, (i / 4) as nat, p as int),
        decreases len - i,
    {
        let a: i32 = scaled_square(x[i], p);
        let b: i32 = scaled_square(x[i + 1], p);
        let c: i32 = scaled_square(x[i + 2], p);
        let d: i32 = scaled_square(x[i + 3], p);
        let acc: i32 = add32(add32(add32(a, b), c), d);
        proof {
            assert(4 * ((i + 4) / 4 - 1) == i);
            super::fixed::wrap32_add(a + b, c as int);
            super::fixed::wrap32_add(a + b + c, d as int);
        }
        sum = add32(sum, asr32(acc, 6));
        i = i + 4;
    }
    sum
}

/// Brings a root back to the block's own scale.
fn rescale(r: i32, p: i32) -> (v: i32)
    ensures
        v == rescaled(r as int, p as int),
{
    if p < LOUD {
        let back: u32 = if p < 0x800 {
            0
        } else if p < 0x1000 {
            1
        } else if p < 0x2000 {
            2
        } else {
            3
        };
        low16(lsl32(r, back)) as i32
    } else {
        asr32(lsl32(r, 20), 16)
    }
}

/// The root-mean-square level of a block of 16-bit samples.
///
/// A length that is not a multiple of four, or that exceeds the block, gives
/// zero.
pub fn compute_rms16(x: &[i16], len: usize) -> (r: i32)
    requires
        len <= x@.len() && len % 4 == 0 ==> wrap32(len as int) != 0,
    ensures
        r == level(x@, len as int),
{
    if len > x.len() || len % 4 != 0 {
        return 0;
    }
    let p: i32 = block_peak(x, len);
    let sum: i32 = block_energy(x, len, p);
    let d: i32 = low32_of(len);
    let r: i32 = spx_sqrt(div_toward_zero(sum, d));
    rescale(r, p)
}

} // verus!
