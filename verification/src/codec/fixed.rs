//! Two's-complement arithmetic, stated over the integers.
//!
//! Every signal-path formula in the codec wraps at a fixed width and rounds
//! its right shifts toward negative infinity. The functions here give those
//! operations a meaning on mathematical integers, so that the formulas built
//! on them can be read as arithmetic.
use vstd::prelude::*;

verus! {

/// The 16-bit two's-complement number congruent to `x`.
pub open spec fn wrap16(x: int) -> i16 {
    ((x + 0x8000) % 0x1_0000 - 0x8000) as i16
}

/// The 32-bit two's-complement number congruent to `x`.
pub open spec fn wrap32(x: int) -> i32 {
    ((x + 0x8000_0000) % 0x1_0000_0000 - 0x8000_0000) as i32
}

/// The weight of bit `n`: two to the power `n`.
pub open spec fn weight(n: nat) -> int
    decreases n,
{
    if n == 0 {
        1
    } else {
        2 * weight((n - 1) as nat)
    }
}

/// The weights of a 34-bit number.
pub proof fn weight_values()
    ensures
        weight(0) == 0x1,
        weight(1) == 0x2,
        weight(2) == 0x4,
        weight(3) == 0x8,
        weight(4) == 0x10,
        weight(5) == 0x20,
        weight(6) == 0x40,
        weight(7) == 0x80,
        weight(8) == 0x100,
        weight(9) == 0x200,
        weight(10) == 0x400,
        weight(11) == 0x800,
        weight(12) == 0x1000,
        weight(13) == 0x2000,
        weight(14) == 0x4000,
        weight(15) == 0x8000,
        weight(16) == 0x10000,
        weight(17) == 0x20000,
        weight(18) == 0x40000,
        weight(19) == 0x80000,
        weight(20) == 0x100000,
        weight(21) == 0x200000,
        weight(22) == 0x400000,
        weight(23) == 0x800000,
        weight(24) == 0x1000000,
        weight(25) == 0x2000000,
        weight(26) == 0x4000000,
        weight(27) == 0x8000000,
        weight(28) == 0x10000000,
        weight(29) == 0x20000000,
        weight(30) == 0x40000000,
        weight(31) == 0x80000000,
        weight(32) == 0x100000000,
        weight(33) == 0x200000000,
{
    reveal_with_fuel(weight, 34);
}

/// Each weight is twice the one below it.
pub proof fn weight_doubles(n: nat)
    ensures
        weight(n + 1) == 2 * weight(n),
        weight(n) > 0,
    decreases n,
{
    if n > 0 {
        weight_doubles((n - 1) as nat);
    }
}

/// A higher bit weighs no less.
pub proof fn weight_monotone(a: nat, b: nat)
    requires
        a <= b,
    ensures
        0 < weight(a) <= weight(b),
    decreases b,
{
    weight_doubles(b);
    if a < b {
        weight_doubles((b - 1) as nat);
        weight_monotone(a, (b - 1) as nat);
    }
}

/// Floor division by `a`, then by two, is floor division by twice `a`.
proof fn halving_composes(x: int, a: int)
    requires
        a > 0,
    ensures
        (x / a) / 2 == x / (2 * a),
{
    let w = x / a;
    let r = w / 2;
    vstd::arithmetic::div_mod::lemma_fundamental_div_mod(x, a);
    assert(x == (2 * a) * r + (x - 2 * a * r) && 0 <= x - 2 * a * r < 2 * a) by (nonlinear_arith)
        requires
            a > 0,
            x == a * w + x % a,
            0 <= x % a < a,
            r * 2 <= w < r * 2 + 2,
    ;
    vstd::arithmetic::div_mod::lemma_fundamental_div_mod_converse(x, 2 * a, r, x - 2 * a * r);
}

/// An arithmetic right shift is a floor division by a power of two.
proof fn asr32_is_division(v: i32, n: u32)
    requires
        n < 32,
    ensures
        (v >> n) as int == v as int / weight(n as nat),
    decreases n,
{
    if n == 0 {
        assert(v >> 0u32 == v) by (bit_vector);
    } else {
        let m: u32 = (n - 1) as u32;
        asr32_is_division(v, m);
        let w: i32 = v >> m;
        let r: i32 = v >> n;
        assert(r * 2 <= w < r * 2 + 2) by (bit_vector)
            requires
                n > 0,
                n < 32,
                m == n - 1,
                w == v >> m,
                r == v >> n,
        ;
        weight_doubles(m as nat);
        halving_composes(v as int, weight(m as nat));
    }
}

/// An arithmetic right shift is a floor division by a power of two.
proof fn asr64_is_division(v: i64, n: u32)
    requires
        n < 64,
    ensures
        (v >> n) as int == v as int / weight(n as nat),
    decreases n,
{
    if n == 0 {
        assert(v >> 0u32 == v) by (bit_vector);
    } else {
        let m: u32 = (n - 1) as u32;
        asr64_is_division(v, m);
        let w: i64 = v >> m;
        let r: i64 = v >> n;
        assert(r * 2 <= w < r * 2 + 2) by (bit_vector)
            requires
                n > 0,
                n < 64,
                m == n - 1,
                w == v >> m,
                r == v >> n,
        ;
        weight_doubles(m as nat);
        halving_composes(v as int, weight(m as nat));
    }
}

/// A left shift is a multiplication by a power of two, modulo the width.
proof fn lsl32_is_product(v: i32, n: u32)
    requires
        n < 32,
    ensures
        (v << n) == wrap32(v * weight(n as nat)),
    decreases n,
{
    if n == 0 {
        assert(v << 0u32 == v) by (bit_vector);
    } else {
        let m: u32 = (n - 1) as u32;
        lsl32_is_product(v, m);
        let w: i32 = v << m;
        let r: i32 = v << n;
        assert(r as int == (w * 2 + 0x8000_0000) % 0x1_0000_0000 - 0x8000_0000) by (bit_vector)
            requires
                n > 0,
                n < 32,
                m == n - 1,
                w == v << m,
                r == v << n,
        ;
        weight_doubles(m as nat);
        let x = v * weight(m as nat);
        assert(v * weight(n as nat) == 2 * x) by (nonlinear_arith)
            requires
                weight(n as nat) == 2 * weight(m as nat),
                x == v * weight(m as nat),
        ;
        wrap32_congruent(x);
        let k = choose|k: int| x - wrap32(x) == #[trigger] (k * 0x1_0000_0000);
        wrap32_shift(2 * wrap32(x), 2 * k);
    }
}

/// Wrapping changes a number by a multiple of the width.
pub proof fn wrap32_congruent(x: int)
    ensures
        exists|k: int| x - wrap32(x) == #[trigger] (k * 0x1_0000_0000),
{
    let k = (x + 0x8000_0000) / 0x1_0000_0000;
    assert(x - wrap32(x) == k * 0x1_0000_0000);
}

/// Wrapping a summand first changes nothing.
pub proof fn wrap32_add(a: int, b: int)
    ensures
        wrap32(wrap32(a) + b) == wrap32(a + b),
{
}

/// Wrapping the subtrahend first changes nothing.
pub proof fn wrap32_sub(a: int, b: int)
    ensures
        wrap32(a - wrap32(b)) == wrap32(a - b),
{
}

/// Wrapping to 32 bits on the way to 16 changes nothing.
pub proof fn wrap16_of_wrap32(x: int)
    ensures
        wrap16(wrap32(x) as int) == wrap16(x),
{
}

/// Adding a multiple of the width changes nothing.
pub proof fn wrap32_shift(x: int, k: int)
    ensures
        wrap32(x + k * 0x1_0000_0000) == wrap32(x),
{
    vstd::arithmetic::div_mod::lemma_mod_multiples_vanish(k, x + 0x8000_0000, 0x1_0000_0000);
}

/// Shifts right by `n`, rounding toward negative infinity.
pub fn asr32(v: i32, n: u32) -> (r: i32)
    requires
        n < 32,
    ensures
        r as int == v as int / weight(n as nat),
        n == 1 ==> r == v as int / 0x2,
        n == 2 ==> r == v as int / 0x4,
        n == 4 ==> r == v as int / 0x10,
        n == 5 ==> r == v as int / 0x20,
        n == 6 ==> r == v as int / 0x40,
        n == 7 ==> r == v as int / 0x80,
        n == 8 ==> r == v as int / 0x100,
        n == 10 ==> r == v as int / 0x400,
        n == 13 ==> r == v as int / 0x2000,
        n == 14 ==> r == v as int / 0x4000,
        n == 16 ==> r == v as int / 0x10000,
        n == 31 ==> r == v as int / 0x80000000,
{
    proof {
        weight_values();
        asr32_is_division(v, n);
    }
    v >> n
}

/// Shifts right by `n`, rounding toward negative infinity.
pub fn asr64(v: i64, n: u32) -> (r: i64)
    requires
        n < 64,
    ensures
        r as int == v as int / weight(n as nat),
        n == 14 ==> r == v as int / 0x4000,
        n == 15 ==> r == v as int / 0x8000,
        n == 33 ==> r == v as int / 0x200000000,
{
    proof {
        weight_values();
        asr64_is_division(v, n);
    }
    v >> n
}

/// Shifts left by `n`, dropping what leaves the word.
pub fn lsl32(v: i32, n: u32) -> (r: i32)
    requires
        n < 32,
    ensures
        r == wrap32(v * weight(n as nat)),
        n == 1 ==> r == wrap32(v * 0x2),
        n == 2 ==> r == wrap32(v * 0x4),
        n == 3 ==> r == wrap32(v * 0x8),
        n == 6 ==> r == wrap32(v * 0x40),
        n == 7 ==> r == wrap32(v * 0x80),
        n == 8 ==> r == wrap32(v * 0x100),
        n == 9 ==> r == wrap32(v * 0x200),
        n == 14 ==> r == wrap32(v * 0x4000),
        n == 20 ==> r == wrap32(v * 0x100000),
{
    proof {
        weight_values();
        lsl32_is_product(v, n);
    }
    v << n
}

/// Keeps the low 16 bits, sign-extended.
pub fn low16(v: i32) -> (r: i16)
    ensures
        r == wrap16(v as int),
{
    let r: i16 = v as i16;
    assert(r as int == (v + 0x8000) % 0x1_0000 - 0x8000) by (bit_vector)
        requires
            r == v as i16,
    ;
    r
}

/// Keeps the low 32 bits, sign-extended.
pub fn low32(v: i64) -> (r: i32)
    ensures
        r == wrap32(v as int),
{
    let r: i32 = v as i32;
    assert(r as int == (v + 0x8000_0000) % 0x1_0000_0000 - 0x8000_0000) by (bit_vector)
        requires
            r == v as i32,
    ;
    r
}

/// Keeps the low 32 bits of a length, as a signed number.
pub fn low32_of(v: usize) -> (r: i32)
    ensures
        r == wrap32(v as int),
{
    let w: u64 = v as u64;
    let r: i32 = w as i32;
    assert(r as int == (w + 0x8000_0000) % 0x1_0000_0000 - 0x8000_0000) by (bit_vector)
        requires
            r == w as i32,
    ;
    r
}

/// The full product of two 16-bit numbers.
pub fn mult16_16(a: i16, b: i16) -> (r: i32)
    ensures
        r == a * b,
        -0x4000_0000 <= r <= 0x4000_0000,
{
    assert(-0x4000_0000 <= a * b <= 0x4000_0000) by (nonlinear_arith)
        requires
            -0x8000 <= a <= 0x7fff,
            -0x8000 <= b <= 0x7fff,
    ;
    a as i32 * b as i32
}

/// Adds, wrapping at 32 bits.
pub fn add32(a: i32, b: i32) -> (r: i32)
    ensures
        r == wrap32(a + b),
{
    a.wrapping_add(b)
}

/// Subtracts, wrapping at 32 bits.
pub fn sub32(a: i32, b: i32) -> (r: i32)
    ensures
        r == wrap32(a - b),
{
    a.wrapping_sub(b)
}

/// Multiplies, wrapping at 32 bits.
pub fn mul32(a: i32, b: i32) -> (r: i32)
    ensures
        r == wrap32(a * b),
{
    a.wrapping_mul(b)
}

} // verus!
