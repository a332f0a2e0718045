//! Line spectral pairs back into synthesis filter coefficients.
//!
//! Each pair contributes a quadratic factor to one of two symmetric
//! polynomials, and the filter is read off their sum and difference.
use vstd::prelude::*;
use super::filters::{mult16_32_q14, tap16};
use super::fixed::{add32, asr32, low16, mul32, sub32, wrap16, wrap32, wrap32_add};

verus! {

/// The leading coefficient of both polynomials, one in Q20.
pub const UNIT: i32 = 0x10_0000;

/// Where the cosine polynomial is reflected: half of fixed-point pi.
pub const QUARTER_TURN: i32 = 12868;

/// Fixed-point pi.
pub const HALF_TURN: i32 = 25736;

/// A rounded product in Q13.
pub open spec fn p13(a: int, b: int) -> int {
    wrap32(4096 + a * b) as int / 8192
}

/// A rounded product in Q13. The operands keep all their bits.
pub fn mult16_16_p13(a: i32, b: i32) -> (r: i32)
    ensures
        r == p13(a as int, b as int),
{
    proof {
        wrap32_add(a * b, 4096);
    }
    asr32(add32(4096, mul32(a, b)), 13)
}

/// The cosine's polynomial in the squared angle, without its constant term.
pub open spec fn cos_poly(x2: int) -> int {
    p13(x2, wrap32(-4096 + p13(x2, wrap32(340 + p13(-10, x2)) as int)) as int)
}

/// What [`spx_cos`] returns.
pub open spec fn cosine(x: int) -> i16 {
    if x < QUARTER_TURN {
        wrap16(8192 + cos_poly(p13(x, x)))
    } else {
        wrap16(-8192 - cos_poly(p13(HALF_TURN - x, HALF_TURN - x)))
    }
}

/// The cosine's polynomial in the squared angle, without its constant term.
fn cos_terms(x2: i32) -> (r: i32)
    ensures
        r == cos_poly(x2 as int),
        -0x4_0000 <= r <= 0x3_ffff,
{
    let a: i32 = add32(340, mult16_16_p13(-10, x2));
    let b: i32 = add32(-4096, mult16_16_p13(x2, a));
    mult16_16_p13(x2, b)
}

/// Cosine of a fixed-point angle, in Q13.
///
/// A fourth-order polynomial on the first quadrant, reflected about a quarter
/// turn. Only the finished value is narrowed to 16 bits.
pub fn spx_cos(x: i16) -> (r: i16)
    ensures
        r == cosine(x as int),
{
    if (x as i32) < QUARTER_TURN {
        let x2: i32 = mult16_16_p13(x as i32, x as i32);
        low16(8192 + cos_terms(x2))
    } else {
        let xx: i32 = HALF_TURN - x as i32;
        let x2: i32 = mult16_16_p13(xx, xx);
        low16(-8192 - cos_terms(x2))
    }
}

/// Four times a cosine, wrapping.
#[verifier::opaque]
pub open spec fn double_cosine(a: int) -> i16 {
    wrap16(4 * cosine(a))
}

/// Twice the cosine in Q14, wrapping rather than saturating.
pub fn angle2x(a: i16) -> (r: i16)
    ensures
        r == double_cosine(a as int),
{
    reveal(double_cosine);
    low16(4 * spx_cos(a) as i32)
}

/// What [`saturate_ak`] returns.
pub open spec fn stored_coefficient(a: int) -> i16 {
    if -0x1_0000 < a < 0x1_0000 {
        wrap16(a)
    } else if a < 0 {
        -32767i16
    } else {
        32767
    }
}

/// How a coefficient is stored: wrapped to 16 bits while its magnitude is
/// below 65536, and saturated to plus or minus 32767 from there on.
pub fn saturate_ak(a: i32) -> (r: i16)
    ensures
        r == stored_coefficient(a as int),
{
    if -0x1_0000 < a && a < 0x1_0000 {
        low16(a)
    } else if a < 0 {
        -32767
    } else {
        32767
    }
}

/// Coefficient `k` of the product of `i` quadratic factors.
///
/// Factor `t` has the doubled cosine of `freq[2 * t + odd]` as its middle
/// coefficient. Both end coefficients stay at [`UNIT`].
pub open spec fn product(freq: Seq<i16>, odd: int, i: nat, k: int) -> i32
    decreases i,
{
    if k < 0 || k > 2 * i {
        0
    } else if k == 0 || k == 2 * i {
        UNIT
    } else {
        let h = (i - 1) as nat;
        let f = double_cosine(tap16(freq, 2 * h + odd));
        let middle = wrap32(product(freq, odd, h, k - 1) * f / 0x4000);
        wrap32(product(freq, odd, h, k) - middle + product(freq, odd, h, k - 2))
    }
}

/// What [`lsp_to_lpc`] stores at `j`.
pub open spec fn coefficient(freq: Seq<i16>, order: int, j: int) -> i16 {
    let m = (order / 2) as nat;
    let sum = wrap32(
        product(freq, 0, m, j + 1) + product(freq, 0, m, j) + product(freq, 1, m, j + 1) - product(
            freq,
            1,
            m,
            j,
        ),
    );
    stored_coefficient(wrap32(sum + 128) as int / 256)
}

/// One coefficient of a product with a factor whose middle is `-f`.
fn factor_term(f: i16, high: i32, middle: i32, low: i32) -> (r: i32)
    ensures
        r == wrap32(high - wrap32(middle * f / 0x4000) + low),
{
    let t: i32 = mult16_32_q14(f, middle);
    proof {
        wrap32_add(high - t, low as int);
    }
    add32(sub32(high, t), low)
}

/// Multiplies a product of `i` factors, held in `p`, by one more.
fn multiply_factor(p: &mut Vec<i32>, freq: &[i16], odd: usize, i: usize)
    requires
        odd <= 1,
        i <= 0x4000_0000,
        2 * i + 2 < old(p)@.len(),
        forall|k: int| 0 <= k < old(p)@.len() ==> old(p)@[k] == product(freq@, odd as int, i as nat, k),
    ensures
        final(p)@.len() == old(p)@.len(),
        forall|k: int|
            0 <= k < old(p)@.len() ==> final(p)@[k] == product(freq@, odd as int, (i + 1) as nat, k),
{
    let at: usize = 2 * i + odd;
    let f: i16 = angle2x(
        if at < freq.len() {
            freq[at]
        } else {
            0
        },
    );
    let ghost before = p@;
    let mut k: usize = 2 * i + 2;
    p.set(k, UNIT);
    while k > 1
        invariant
            odd <= 1,
            1 <= k <= 2 * i + 2,
            2 * i + 2 < p@.len(),
            p@.len() == before.len(),
            f == double_cosine(tap16(freq@, 2 * i + odd)),
            forall|q: int|
                0 <= q < before.len() ==> before[q] == product(freq@, odd as int, i as nat, q),
            forall|q: int| 0 <= q < k ==> p@[q] == before[q],
            forall|q: int|
                k <= q < before.len() ==> p@[q] == product(freq@, odd as int, (i + 1) as nat, q),
        decreases k,
    {
        k = k - 1;
        let low: i32 = if k >= 2 {
            p[k - 2]
        } else {
            0
        };
        let v: i32 = factor_term(f, p[k], p[k - 1], low);
        proof {
            assert(before[k - 1] == product(freq@, odd as int, i as nat, k - 1));
            assert(before[k as int] == product(freq@, odd as int, i as nat, k as int));
            if k >= 2 {
                assert(before[k - 2] == product(freq@, odd as int, i as nat, k - 2));
            }
            assert(low == product(freq@, odd as int, i as nat, k - 2));
            let h = ((i + 1) as nat - 1) as nat;
            assert(h == i as nat);
            assert(v == product(freq@, odd as int, (i + 1) as nat, k as int));
        }
        p.set(k, v);
    }
    assert(p@[0] == before[0]);
}

/// The product of the first `m` factors, as `2 * m + 1` coefficients.
fn factor_product(freq: &[i16], odd: usize, m: usize) -> (p: Vec<i32>)
    requires
        odd <= 1,
        m <= 0x4000_0000,
    ensures
        p@.len() == 2 * m + 1,
        forall|k: int| 0 <= k < p@.len() ==> p@[k] == product(freq@, odd as int, m as nat, k),
{
    let mut p: Vec<i32> = vec![0i32; 2 * m + 1];
    p.set(0, UNIT);
    let mut i: usize = 0;
    while i < m
        invariant
            odd <= 1,
            i <= m <= 0x4000_0000,
            p@.len() == 2 * m + 1,
            forall|k: int| 0 <= k < p@.len() ==> p@[k] == product(freq@, odd as int, i as nat, k),
        decreases m - i,
    {
        multiply_factor(&mut p, freq, odd, i);
        i = i + 1;
    }
    p
}

/// Expands `lpcrdr` line spectral pairs into `lpcrdr` filter coefficients.
///
/// Coefficients that do not fit in `ak` are dropped, and an order below two
/// writes nothing.
pub fn lsp_to_lpc(freq: &[i16], ak: &mut [i16], lpcrdr: i32)
    ensures
        final(ak)@.len() == old(ak)@.len(),
        forall|j: int|
            0 <= j < old(ak)@.len() ==> #[trigger] final(ak)@[j] == if lpcrdr >= 2 && j < lpcrdr {
                coefficient(freq@, lpcrdr as int, j)
            } else {
                old(ak)@[j]
            },
{
    if lpcrdr < 2 {
        return ;
    }
    let n: usize = lpcrdr as usize;
    let m: usize = n / 2;
    let p: Vec<i32> = factor_product(freq, 0, m);
    let q: Vec<i32> = factor_product(freq, 1, m);
    let ghost before = ak@;
    let mut j: usize = 0;
    while j < n && j < ak.len()
        invariant
            lpcrdr >= 2,
            n == lpcrdr,
            m == n / 2,
            j <= n,
            ak@.len() == before.len(),
            p@.len() == 2 * m + 1,
            q@.len() == 2 * m + 1,
            forall|k: int| 0 <= k < p@.len() ==> p@[k] == product(freq@, 0, m as nat, k),
            forall|k: int| 0 <= k < q@.len() ==> q@[k] == product(freq@, 1, m as nat, k),
            forall|k: int|
                0 <= k < before.len() ==> #[trigger] ak@[k] == if k < j {
                    coefficient(freq@, lpcrdr as int, k)
                } else {
                    before[k]
                },
        decreases n - j,
    {
        let (p1, q1): (i32, i32) = if j + 1 < p.len() {
            (p[j + 1], q[j + 1])
        } else {
            (0, 0)
        };
        let (p0, q0): (i32, i32) = if j < p.len() {
            (p[j], q[j])
        } else {
            (0, 0)
        };
        assert(p1 == product(freq@, 0, m as nat, j + 1));
        assert(q1 == product(freq@, 1, m as nat, j + 1));
        assert(p0 == product(freq@, 0, m as nat, j as int));
        assert(q0 == product(freq@, 1, m as nat, j as int));
        let sum: i32 = sub32(add32(add32(p1, p0), q1), q0);
        proof {
            wrap32_add(p1 + p0, q1 as int);
            wrap32_add(p1 + p0 + q1, -q0);
        }
        ak[j] = saturate_ak(asr32(add32(sum, 128), 8));
        j = j + 1;
    }
}

/// The cascades' polynomials read the same from both ends.
pub proof fn products_mirror(freq: Seq<i16>, odd: int, i: nat, k: int)
    ensures
        product(freq, odd, i, k) == product(freq, odd, i, 2 * i - k),
    decreases i,
{
    if 0 < k < 2 * i {
        let h = (i - 1) as nat;
        products_mirror(freq, odd, h, k);
        products_mirror(freq, odd, h, k - 1);
        products_mirror(freq, odd, h, k - 2);
        assert(2 * h - k == 2 * i - k - 2);
        assert(2 * h - (k - 1) == 2 * i - k - 1);
        assert(2 * h - (k - 2) == 2 * i - k);
    }
}

/// Each section of a cascade takes its doubled cosine off the coefficient beside
/// the first, which is one throughout.
pub proof fn sections_take_their_cosine(freq: Seq<i16>, odd: int, i: nat)
    requires
        0 < i,
    ensures
        product(freq, odd, i, 0) == UNIT,
        product(freq, odd, i, 1) == wrap32(
            product(freq, odd, (i - 1) as nat, 1) - UNIT * double_cosine(
                tap16(freq, 2 * (i - 1) + odd),
            ) / 0x4000,
        ),
{
    let h = (i - 1) as nat;
    let f = double_cosine(tap16(freq, 2 * h + odd)) as int;
    assert(product(freq, odd, h, 0) == UNIT);
    assert(product(freq, odd, h, -1) == 0);
    assert(-0x8000 * 0x10_0000 <= UNIT * f <= 0x8000 * 0x10_0000) by (nonlinear_arith)
        requires
            UNIT == 0x10_0000,
            -0x8000 <= f <= 0x7fff,
    ;
    let x = UNIT * f / 0x4000;
    assert(-0x20_0000 <= x <= 0x20_0000);
    assert(wrap32(x) == x);
    if i > 1 {
        assert(product(freq, odd, i, 1) == wrap32(product(freq, odd, h, 1) - x + 0));
    } else {
        assert(product(freq, odd, 0, 1) == 0);
        assert(product(freq, odd, i, 1) == wrap32(0 - x + 0));
    }
}

} // verus!
