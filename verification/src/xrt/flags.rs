//! Condition flags and the barrel shifter.
use vstd::prelude::*;
use vstd::arithmetic::power2::pow2;
use vstd::bits::lemma_u64_shl_is_mul;

verus! {

/// The condition flags.
#[derive(Clone, Copy, Debug, PartialEq, Eq, Structural)]
pub struct Flags {
    /// Negative.
    pub n: bool,
    /// Zero.
    pub z: bool,
    /// Carry.
    pub c: bool,
    /// Signed overflow.
    pub v: bool,
}

/// A word as a signed number.
pub open spec fn as_signed(a: u32) -> int {
    if a >= 0x8000_0000 {
        a - 0x1_0000_0000
    } else {
        a as int
    }
}

/// Whether a number is one that a signed word cannot hold.
pub open spec fn overflows(x: int) -> bool {
    x < -0x8000_0000 || x > 0x7fff_ffff
}

impl Default for Flags {
    fn default() -> (r: Self)
        ensures
            r == (Flags { n: false, z: false, c: false, v: false }),
    {
        Flags { n: false, z: false, c: false, v: false }
    }
}

impl Flags {
    /// The flags of result `r` with a carry and an overflow.
    pub open spec fn of(r: u32, c: bool, v: bool) -> Flags {
        Flags { n: as_signed(r) < 0, z: r == 0, c, v }
    }

    /// A difference. The carry says that nothing was borrowed.
    pub fn sub(a: u32, b: u32) -> (r: (u32, Flags))
        ensures
            r.0 == (a - b) % 0x1_0000_0000,
            r.1 == Flags::of(r.0, a >= b, overflows(as_signed(a) - as_signed(b))),
            r == taken(a, b, true),
    {
        let d: u32 = a.wrapping_sub(b);
        let (na, nb, nd) = (a >= 0x8000_0000, b >= 0x8000_0000, d >= 0x8000_0000);
        (d, Flags { n: nd, z: d == 0, c: a >= b, v: na != nb && na != nd })
    }

    /// A sum.
    pub fn add(a: u32, b: u32) -> (r: (u32, Flags))
        ensures
            r.0 == (a + b) % 0x1_0000_0000,
            r.1 == Flags::of(
                r.0,
                a + b >= 0x1_0000_0000,
                overflows(as_signed(a) + as_signed(b)),
            ),
            r == summed(a, b, false),
    {
        Flags::adc(a, b, false)
    }

    /// A sum with a carry in.
    pub fn adc(a: u32, b: u32, cin: bool) -> (r: (u32, Flags))
        ensures
            r.0 == (a + b + carried(cin)) % 0x1_0000_0000,
            r.1 == Flags::of(
                r.0,
                a + b + carried(cin) >= 0x1_0000_0000,
                overflows(as_signed(a) + as_signed(b) + carried(cin)),
            ),
            r == summed(a, b, cin),
    {
        let wide: u64 = a as u64 + b as u64 + if cin {
            1
        } else {
            0
        };
        let s: u32 = (wide % 0x1_0000_0000) as u32;
        let (na, nb, ns) = (a >= 0x8000_0000, b >= 0x8000_0000, s >= 0x8000_0000);
        (s, Flags { n: ns, z: s == 0, c: wide >= 0x1_0000_0000, v: na == nb && na != ns })
    }

    /// A difference with a borrow in: one less where the carry is clear.
    pub fn sbc(a: u32, b: u32, cin: bool) -> (r: (u32, Flags))
        ensures
            r.0 == (a - b - 1 + carried(cin)) % 0x1_0000_0000,
            r.1 == Flags::of(
                r.0,
                a >= b + 1 - carried(cin),
                overflows(as_signed(a) - as_signed(b) - 1 + carried(cin)),
            ),
            r == taken(a, b, cin),
    {
        Flags::adc(a, u32::MAX - b, cin)
    }

    /// The flags of a logical result: the carry is the shifter's, and the
    /// overflow stays.
    pub fn logic(self, r: u32, c: bool) -> (f: Flags)
        ensures
            f == Flags::of(r, c, self.v),
    {
        Flags { n: r >= 0x8000_0000, z: r == 0, c, v: self.v }
    }
}

/// A carry as a number.
pub open spec fn carried(c: bool) -> int {
    if c {
        1
    } else {
        0
    }
}

/// A sum with a carry in, and its flags.
pub open spec fn summed(a: u32, b: u32, cin: bool) -> (u32, Flags) {
    let wide = a + b + carried(cin);
    let r = (wide % 0x1_0000_0000) as u32;
    (
        r,
        Flags::of(
            r,
            wide >= 0x1_0000_0000,
            overflows(as_signed(a) + as_signed(b) + carried(cin)),
        ),
    )
}

/// A difference, one less where the carry in is clear, and its flags.
pub open spec fn taken(a: u32, b: u32, cin: bool) -> (u32, Flags) {
    let wide = a - b - 1 + carried(cin);
    let r = (wide % 0x1_0000_0000) as u32;
    (r, Flags::of(r, wide >= 0, overflows(as_signed(a) - as_signed(b) - 1 + carried(cin))))
}

/// Bit `i` of a word.
pub open spec fn bit(v: u32, i: int) -> bool {
    (v as int / pow2(i as nat) as int) % 2 == 1
}

/// What the shifter gives for a shift by `n`, with a carry.
pub open spec fn shifted(kind: u8, v: u32, n: int, cin: bool) -> (int, bool) {
    let k = n % 32;
    if n == 0 {
        (v as int, cin)
    } else if kind == 0 {
        if n < 32 {
            (v * pow2(n as nat) % 0x1_0000_0000, bit(v, 32 - n))
        } else {
            (0, n == 32 && bit(v, 0))
        }
    } else if kind == 1 {
        if n < 32 {
            (v as int / pow2(n as nat) as int, bit(v, n - 1))
        } else {
            (0, n == 32 && bit(v, 31))
        }
    } else if kind == 2 {
        if n < 32 {
            ((as_signed(v) / pow2(n as nat) as int) % 0x1_0000_0000, bit(v, n - 1))
        } else {
            (if bit(v, 31) {
                0xffff_ffff
            } else {
                0
            }, bit(v, 31))
        }
    } else if k == 0 {
        (v as int, bit(v, 31))
    } else {
        (
            v as int / pow2(k as nat) as int + (v as int % pow2(k as nat) as int) * pow2(
                (32 - k) as nat,
            ),
            bit(v, k - 1),
        )
    }
}

/// Two to the power `n`.
fn power(n: u32) -> (r: u64)
    requires
        n <= 32,
    ensures
        r == pow2(n as nat),
        1 <= r <= 0x1_0000_0000,
        n < 32 ==> r <= 0x8000_0000,
{
    proof {
        vstd::arithmetic::power2::lemma2_to64();
        if n < 32 {
            if n < 31 {
                vstd::arithmetic::power2::lemma_pow2_strictly_increases(n as nat, 31);
            }
        }
        vstd::arithmetic::power2::lemma_pow2_pos(n as nat);
        lemma_u64_shl_is_mul(1, n as u64);
    }
    1u64 << (n as u64)
}

/// Bit `i` of a word.
fn bit_of(v: u32, i: u32) -> (r: bool)
    requires
        i < 32,
    ensures
        r == bit(v, i as int),
{
    (v as u64 / power(i)) % 2 == 1
}

/// A shift whose amount is only known at run time: left for 0, right for 1,
/// right with the sign for 2, and a rotation for the rest.
///
/// Only the low byte of the amount counts. A shift by nothing leaves the carry
/// alone.
pub fn shift_reg(kind: u8, v: u32, amount: u32, cin: bool) -> (r: (u32, bool))
    ensures
        (r.0 as int, r.1) == shifted(kind, v, amount as int % 256, cin),
{
    let n: u32 = amount % 256;
    if n == 0 {
        return (v, cin);
    }
    proof {
        vstd::arithmetic::power2::lemma2_to64();
    }
    if kind == 0 {
        if n < 32 {
            let p: u64 = power(n);
            proof {
                assert(v * p <= 0xffff_ffff * 0x8000_0000) by (nonlinear_arith)
                    requires
                        0 <= v <= 0xffff_ffff,
                        0 <= p <= 0x8000_0000,
                ;
            }
            (((v as u64 * p) % 0x1_0000_0000) as u32, bit_of(v, 32 - n))
        } else {
            (0, n == 32 && bit_of(v, 0))
        }
    } else if kind == 1 {
        if n < 32 {
            ((v as u64 / power(n)) as u32, bit_of(v, n - 1))
        } else {
            (0, n == 32 && bit_of(v, 31))
        }
    } else if kind == 2 {
        let last: bool = bit_of(v, 31);
        if n < 32 {
            (shift_signed(v, n), bit_of(v, n - 1))
        } else if last {
            (0xffff_ffff, true)
        } else {
            (0, false)
        }
    } else {
        let k: u32 = n % 32;
        if k == 0 {
            (v, bit_of(v, 31))
        } else {
            let (p, q) = (power(k), power(32 - k));
            proof {
                vstd::arithmetic::power2::lemma_pow2_adds(k as nat, (32 - k) as nat);
                rotation_fits(v as int, p as int, q as int);
            }
            ((v as u64 / p + (v as u64 % p) * q) as u32, bit_of(v, k - 1))
        }
    }
}

proof fn rotation_fits(v: int, p: int, q: int)
    requires
        0 <= v < 0x1_0000_0000,
        p > 0,
        q > 0,
        p * q == 0x1_0000_0000,
    ensures
        0 <= (v % p) * q,
        v / p + (v % p) * q < 0x1_0000_0000,
{
    vstd::arithmetic::div_mod::lemma_fundamental_div_mod(v, p);
    let (a, b) = (v / p, v % p);
    assert(a < q) by (nonlinear_arith)
        requires
            v == p * a + b,
            v < p * q,
            0 <= b,
            p > 0,
    ;
    assert(b * q <= (p - 1) * q && (p - 1) * q == p * q - q && 0 <= b * q) by (nonlinear_arith)
        requires
            0 <= b <= p - 1,
            q > 0,
    ;
}

/// A right shift that keeps the sign.
fn shift_signed(v: u32, n: u32) -> (r: u32)
    requires
        1 <= n < 32,
    ensures
        r == (as_signed(v) / pow2(n as nat) as int) % 0x1_0000_0000,
{
    let p: u64 = power(n);
    if v < 0x8000_0000 {
        proof {
            assert(v as int / p as int <= v) by (nonlinear_arith)
                requires
                    p >= 1,
                    v >= 0,
            ;
            assert(v as int / p as int >= 0) by (nonlinear_arith)
                requires
                    p >= 1,
                    v >= 0,
            ;
        }
        (v as u64 / p) as u32
    } else {
        let d: u64 = 0x1_0000_0000 - v as u64;
        // Rounding the distance from zero up rounds the number down.
        let up: u64 = (d + p - 1) / p;
        proof {
            floor_of_negative(d as int, p as int);
        }
        (0x1_0000_0000 - up) as u32
    }
}

proof fn floor_of_negative(d: int, p: int)
    requires
        p >= 1,
        1 <= d <= 0x8000_0000,
    ensures
        (-d) / p == -((d + p - 1) / p),
        1 <= (d + p - 1) / p <= 0x8000_0000,
{
    let q = (d + p - 1) / p;
    let m = (d + p - 1) % p;
    vstd::arithmetic::div_mod::lemma_fundamental_div_mod(d + p - 1, p);
    assert(-d == p * (-q) + (p - 1 - m)) by (nonlinear_arith)
        requires
            d + p - 1 == p * q + m,
    ;
    vstd::arithmetic::div_mod::lemma_fundamental_div_mod_converse(-d, p, -q, p - 1 - m);
    assert(q >= 1 && q <= d) by (nonlinear_arith)
        requires
            d + p - 1 == p * q + m,
            0 <= m < p,
            p >= 1,
            d >= 1,
    ;
}

/// A subtraction is the addition of the complement with a carry in.
pub proof fn subtraction_adds_the_complement(a: u32, b: u32)
    ensures
        (a - b) % 0x1_0000_0000 == (a + (u32::MAX - b) + carried(true)) % 0x1_0000_0000,
        (a >= b) == (a + (u32::MAX - b) + carried(true) >= 0x1_0000_0000),
        (as_signed(a) - as_signed(b)) == (as_signed(a) + as_signed((u32::MAX - b) as u32) + carried(
            true,
        )),
{
}

/// A sum and its carry out are what was added, and its sign, read the other way
/// round where it overflowed, is that of the signed sum.
pub proof fn sums_are_whole_with_their_carry(a: u32, b: u32, cin: bool)
    ensures
        ({
            let (r, f) = summed(a, b, cin);
            let signed = as_signed(a) + as_signed(b) + carried(cin);
            &&& r + 0x1_0000_0000 * carried(f.c) == a + b + carried(cin)
            &&& f.z <==> r == 0
            &&& f.n <==> r >= 0x8000_0000
            &&& f.n != f.v <==> signed < 0
            &&& !f.v <==> as_signed(r) == signed
        }),
{
}

/// The flags of a difference compare: they tell equal numbers, a smaller one
/// and a smaller signed one. A borrow is a clear carry, in and out.
pub proof fn differences_compare(a: u32, b: u32, cin: bool)
    ensures
        ({
            let (r, f) = taken(a, b, true);
            &&& f.z <==> a == b
            &&& f.c <==> a >= b
            &&& f.n != f.v <==> as_signed(a) < as_signed(b)
        }),
        ({
            let (r, f) = taken(a, b, cin);
            &&& r - 0x1_0000_0000 * (1 - carried(f.c)) == a - b - (1 - carried(cin))
            &&& taken(a, b, cin) == summed(a, (u32::MAX - b) as u32, cin)
        }),
{
}

proof fn halves_of_a_word(n: int)
    requires
        0 < n < 32,
    ensures
        pow2(n as nat) * pow2((32 - n) as nat) == 0x1_0000_0000,
        pow2(n as nat) > 0,
        pow2((32 - n) as nat) > 0,
        pow2(n as nat) == 2 * pow2((n - 1) as nat),
{
    vstd::arithmetic::power2::lemma2_to64();
    vstd::arithmetic::power2::lemma_pow2_adds(n as nat, (32 - n) as nat);
    vstd::arithmetic::power2::lemma_pow2_pos(n as nat);
    vstd::arithmetic::power2::lemma_pow2_pos((32 - n) as nat);
    vstd::arithmetic::power2::lemma_pow2_unfold(n as nat);
}

/// A left shift leaves as many zeros as it is wide, and a right shift by as much
/// brings back what it did not push out; it carries out the bit that the right
/// shift of the rest to one would.
pub proof fn right_shifts_undo_left_shifts(v: u32, n: int, cin: bool)
    requires
        0 < n < 32,
    ensures
        ({
            let (l, c) = shifted(0, v, n, cin);
            &&& 0 <= l < 0x1_0000_0000
            &&& l % pow2(n as nat) as int == 0
            &&& shifted(1, l as u32, n, cin).0 == v as int % pow2((32 - n) as nat) as int
            &&& c == (shifted(1, v, 32 - n, cin).0 % 2 == 1)
        }),
{
    halves_of_a_word(n);
    let (p, q) = (pow2(n as nat) as int, pow2((32 - n) as nat) as int);
    vstd::arithmetic::div_mod::lemma_truncate_middle(v as int, p, q);
    let k = v as int % q;
    assert(v * p % 0x1_0000_0000 == p * k) by {
        assert(v * p == p * v) by (nonlinear_arith);
    }
    assert(0 <= p * k && p * k < p * q) by (nonlinear_arith)
        requires
            0 <= k < q,
            p > 0,
    ;
    vstd::arithmetic::div_mod::lemma_fundamental_div_mod_converse(p * k, p, k, 0);
}

/// A right shift carries out the last bit that it drops, which is what a shift
/// by one less leaves lowest.
pub proof fn right_shifts_carry_the_last_bit(v: u32, n: int, cin: bool)
    requires
        0 < n < 32,
    ensures
        ({
            let (r, c) = shifted(1, v, n, cin);
            &&& c == (shifted(1, v, n - 1, cin).0 % 2 == 1)
            &&& r == shifted(1, v, n - 1, cin).0 / 2
            &&& shifted(2, v, n, cin).1 == c
        }),
{
    halves_of_a_word(n);
    vstd::arithmetic::power2::lemma_pow2_pos((n - 1) as nat);
    vstd::arithmetic::power2::lemma2_to64();
    let p = pow2((n - 1) as nat) as int;
    vstd::arithmetic::div_mod::lemma_div_denominator(v as int, p, 2);
    assert(p * 2 == pow2(n as nat));
    if n == 1 {
        assert(v as int / 1 == v);
    }
}

/// A right shift that keeps the sign is an ordinary one of a number that is not
/// negative, and of the complement of one that is.
pub proof fn signed_shifts_mirror(v: u32, n: int, cin: bool)
    requires
        0 < n < 32,
    ensures
        v < 0x8000_0000 ==> shifted(2, v, n, cin).0 == shifted(1, v, n, cin).0,
        v >= 0x8000_0000 ==> shifted(2, v, n, cin).0 == u32::MAX - shifted(
            1,
            (u32::MAX - v) as u32,
            n,
            cin,
        ).0,
{
    halves_of_a_word(n);
    let p = pow2(n as nat) as int;
    if v >= 0x8000_0000 {
        let u = u32::MAX - v;
        let (q, m) = (u / p, u % p);
        vstd::arithmetic::div_mod::lemma_fundamental_div_mod(u, p);
        assert(as_signed(v) == p * (-q - 1) + (p - 1 - m)) by (nonlinear_arith)
            requires
                as_signed(v) == -u - 1,
                u == p * q + m,
        ;
        vstd::arithmetic::div_mod::lemma_fundamental_div_mod_converse(
            as_signed(v),
            p,
            -q - 1,
            p - 1 - m,
        );
        assert(0 <= q <= u) by (nonlinear_arith)
            requires
                q == u / p,
                u >= 0,
                p > 0,
        ;
    } else {
        assert(0 <= v as int / p <= v) by (nonlinear_arith)
            requires
                p > 0,
        ;
    }
}

/// A rotation is undone by the rest of the way round, and carries out the bit
/// that it brings to the top.
pub proof fn rotations_come_round(v: u32, n: int, cin: bool)
    requires
        0 < n < 32,
    ensures
        ({
            let (r, c) = shifted(3, v, n, cin);
            &&& 0 <= r < 0x1_0000_0000
            &&& shifted(3, r as u32, 32 - n, cin).0 == v
            &&& r % pow2((32 - n) as nat) as int == shifted(1, v, n, cin).0
            &&& c == shifted(1, v, n, cin).1
            &&& shifted(3, v, n + 32, cin) == shifted(3, v, n, cin)
        }),
{
    halves_of_a_word(n);
    let (p, q) = (pow2(n as nat) as int, pow2((32 - n) as nat) as int);
    rotation_fits(v as int, p, q);
    vstd::arithmetic::div_mod::lemma_fundamental_div_mod(v as int, p);
    let (a, b) = (v as int / p, v as int % p);
    assert(0 <= a < q) by (nonlinear_arith)
        requires
            v == p * a + b,
            v < p * q,
            0 <= v,
            0 <= b < p,
            p > 0,
    ;
    let r = a + b * q;
    assert(r == q * b + a) by (nonlinear_arith)
        requires
            r == a + b * q,
    ;
    vstd::arithmetic::div_mod::lemma_fundamental_div_mod_converse(r, q, b, a);
    assert(a * p == p * a) by (nonlinear_arith);
    assert(n % 32 == n && (n + 32) % 32 == n && (32 - n) % 32 == 32 - n);
}

/// A shift by nothing changes nothing and leaves the carry alone. One by a word
/// or more leaves nothing, or the sign, and carries out the bit that a shift by
/// a word brings to the edge, and past that none but the sign.
pub proof fn wide_shifts_leave_nothing(kind: u8, v: u32, n: int, cin: bool)
    requires
        32 <= n,
    ensures
        shifted(kind, v, 0, cin) == (v as int, cin),
        shifted(0, v, n, cin) == (0int, n == 32 && v % 2 == 1),
        shifted(1, v, n, cin) == (0int, n == 32 && v >= 0x8000_0000),
        shifted(2, v, n, cin) == (if v >= 0x8000_0000 {
            (0xffff_ffffint, true)
        } else {
            (0int, false)
        }),
        n % 32 == 0 && kind > 2 ==> shifted(kind, v, n, cin) == (v as int, v >= 0x8000_0000),
{
    vstd::arithmetic::power2::lemma2_to64();
    assert(v as int / 1 == v);
    let top = pow2(31) as int;
    assert(top == 0x8000_0000);
    assert(v as int / top == v as int / 0x8000_0000);
    assert(bit(v, 31) == (v >= 0x8000_0000));
}

} // verus!
