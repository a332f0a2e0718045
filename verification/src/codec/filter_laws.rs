//! What holds of the filters, whatever their coefficients are.
use vstd::prelude::*;
use super::filters::{
    at_least_zero, fir_history, fir_output, fir_scratch, history, iir16_feed, iir16_history,
    iir16_output, iir32_feed, iir32_history, iir32_output, phase_sum, scaled_sample, scratch, tap16, tap32, tap_groups,
};
use super::fixed::{wrap32, wrap32_add};
use super::laws::in_range;

verus! {

/// Output `i` of the 16-bit filter that starts from silence.
pub open spec fn ringing(x: Seq<i16>, den: Seq<i16>, ord: nat, i: nat) -> int {
    iir16_output(
        tap16(x, i as int),
        iir16_history(x, den, Seq::new(ord, |j: int| 0i32), ord as int, i),
    )
}

/// What the outputs before `i` take off from coefficient `j` on: each times the
/// coefficient as far behind `j` as it lies behind the last.
pub open spec fn taken_off(x: Seq<i16>, den: Seq<i16>, ord: nat, i: nat, j: int) -> int
    decreases i,
{
    if i == 0 || j >= ord {
        0
    } else {
        ringing(x, den, ord, (i - 1) as nat) * tap16(den, j) + taken_off(
            x,
            den,
            ord,
            (i - 1) as nat,
            j + 1,
        )
    }
}

proof fn history_holds_what_is_taken_off(x: Seq<i16>, den: Seq<i16>, ord: nat, i: nat, j: int)
    requires
        0 <= j < ord,
    ensures
        ({
            let h = iir16_history(x, den, Seq::new(ord, |k: int| 0i32), ord as int, i);
            h.len() == ord && h[j] == wrap32(-taken_off(x, den, ord, i, j))
        }),
    decreases i,
{
    let quiet = Seq::new(ord, |k: int| 0i32);
    if i > 0 {
        let p = (i - 1) as nat;
        let m = iir16_history(x, den, quiet, ord as int, p);
        let y = ringing(x, den, ord, p);
        history_holds_what_is_taken_off(x, den, ord, p, j);
        assert(-y * tap16(den, j) == -(y * tap16(den, j))) by (nonlinear_arith);
        assert(iir16_history(x, den, quiet, ord as int, i) == iir16_feed(y, den, m, ord as int));
        if j + 1 < ord {
            history_holds_what_is_taken_off(x, den, ord, p, j + 1);
            wrap32_add(-taken_off(x, den, ord, p, j + 1), -(y * tap16(den, j)));
        } else {
            assert(taken_off(x, den, ord, p, j + 1) == 0);
        }
    } else {
        in_range(0);
    }
}

/// The recursive filter takes off its own past: each output is the input, less
/// the outputs before it times the coefficients, rounded, and held within 16
/// bits.
pub proof fn filters_take_off_their_past(x: Seq<i16>, den: Seq<i16>, ord: nat, i: nat)
    requires
        0 < ord,
        -0x7000_0000 <= taken_off(x, den, ord, i, 0) <= 0x7000_0000,
    ensures
        ({
            let t = taken_off(x, den, ord, i, 0);
            let y = ringing(x, den, ord, i);
            let exact = 0x2000 * tap16(x, i as int) - t;
            &&& -0x7fff <= y <= 0x7fff
            &&& -0x7fff < y < 0x7fff ==> -0x1000 <= exact - 0x2000 * y <= 0x1000
            &&& y == 0x7fff ==> exact >= 0x2000 * 0x7fff - 0x1000
            &&& y == -0x7fff ==> exact <= -0x2000 * 0x7fff + 0x1000
        }),
{
    history_holds_what_is_taken_off(x, den, ord, i, 0);
    let t = taken_off(x, den, ord, i, 0);
    in_range(-t);
    in_range(-t + 0x1000);
}

/// Output `i` of the 32-bit filter that starts from silence.
pub open spec fn wide_ringing(x: Seq<i32>, den: Seq<i16>, ord: nat, i: nat) -> int {
    iir32_output(
        tap32(x, i as int),
        iir32_history(x, den, Seq::new(ord, |j: int| 0i32), ord as int, i),
    )
}

/// What the outputs before `i` of the 32-bit filter add from coefficient `j` on,
/// each share rounded down by itself.
pub open spec fn wide_shares(x: Seq<i32>, den: Seq<i16>, ord: nat, i: nat, j: int) -> int
    decreases i,
{
    if i == 0 || j >= ord {
        0
    } else {
        -wide_ringing(x, den, ord, (i - 1) as nat) * tap16(den, j) / 0x8000 + wide_shares(
            x,
            den,
            ord,
            (i - 1) as nat,
            j + 1,
        )
    }
}

proof fn history_holds_the_shares(x: Seq<i32>, den: Seq<i16>, ord: nat, i: nat, j: int)
    requires
        0 <= j < ord,
    ensures
        ({
            let h = iir32_history(x, den, Seq::new(ord, |k: int| 0i32), ord as int, i);
            h.len() == ord && h[j] == wrap32(wide_shares(x, den, ord, i, j))
        }),
    decreases i,
{
    let quiet = Seq::new(ord, |k: int| 0i32);
    if i > 0 {
        let p = (i - 1) as nat;
        let m = iir32_history(x, den, quiet, ord as int, p);
        let y = wide_ringing(x, den, ord, p);
        let share = -y * tap16(den, j) / 0x8000;
        history_holds_the_shares(x, den, ord, p, j);
        assert(iir32_history(x, den, quiet, ord as int, i) == iir32_feed(y, den, m, ord as int));
        if j + 1 < ord {
            history_holds_the_shares(x, den, ord, p, j + 1);
            let rest = wide_shares(x, den, ord, p, j + 1);
            wrap32_add(share, wrap32(rest) as int);
            wrap32_add(rest, share);
        } else {
            assert(wide_shares(x, den, ord, p, j + 1) == 0);
        }
    } else {
        in_range(0);
    }
}

/// The 32-bit filter adds four times the shares of its past outputs to what comes
/// in, and stays within its bounds.
pub proof fn wide_filters_add_their_shares(x: Seq<i32>, den: Seq<i16>, ord: nat, i: nat)
    requires
        0 < ord,
        -0x400_0000 <= wide_shares(x, den, ord, i, 0) <= 0x400_0000,
        -0x1000_0000 <= tap32(x, i as int) <= 0x1000_0000,
    ensures
        wide_ringing(x, den, ord, i) == tap32(x, i as int) + 4 * wide_shares(x, den, ord, i, 0),
{
    history_holds_the_shares(x, den, ord, i, 0);
    let t = wide_shares(x, den, ord, i, 0);
    in_range(t);
    in_range(tap32(x, i as int) + 4 * t);
}

proof fn impulse_sum(s: Seq<i16>, coef: Seq<i16>, q: int, from: int, phase: int, steps: nat)
    requires
        0 <= q < s.len(),
        forall|i: int| 0 <= i < s.len() && i != q ==> #[trigger] s[i] == 0,
    ensures
        phase_sum(s, coef, from, phase, steps) == (if from <= q < from + 2 * steps {
            s[q] * tap16(coef, 2 * (q - from) + phase) / 4
        } else {
            0
        }),
    decreases steps,
{
    if steps > 0 {
        let t = steps - 1;
        impulse_sum(s, coef, q, from, phase, t as nat);
        let (a, b) = (from + 2 * t, from + 2 * t + 1);
        let (c, d) = (tap16(coef, 4 * t + phase), tap16(coef, 4 * t + phase + 2));
        if a != q {
            assert(tap16(s, a) * c == 0) by (nonlinear_arith)
                requires
                    tap16(s, a) == 0,
            ;
        }
        if b != q {
            assert(tap16(s, b) * d == 0) by (nonlinear_arith)
                requires
                    tap16(s, b) == 0,
            ;
        }
    }
}

/// A single sample comes out as the filter's taps: with samples newest first and
/// two outputs for each, the sample `k` places from the oldest gives output `o`
/// tap `o - 2 * k`, times itself, quartered.
pub proof fn impulses_ring_as_the_taps(
    s: Seq<i16>,
    coef: Seq<i16>,
    n: int,
    ord: int,
    k: int,
    o: int,
)
    requires
        0 < ord,
        ord % 4 == 0,
        n % 2 == 0,
        0 <= o < n,
        0 <= n / 2 - 1 - k < s.len(),
        forall|i: int| 0 <= i < s.len() && i != n / 2 - 1 - k ==> #[trigger] s[i] == 0,
    ensures
        fir_output(s, coef, n, ord, o) == (if 0 <= o - 2 * k < ord {
            wrap32(s[n / 2 - 1 - k] * tap16(coef, o - 2 * k) / 4)
        } else {
            0
        }),
{
    let q = n / 2 - 1 - k;
    let from = n / 2 - 2 * (o / 4) - 1 - (o % 4) / 2;
    assert(2 * (o / 4) + (o % 4) / 2 == o / 2);
    assert(2 * (o / 2) + o % 2 == o);
    impulse_sum(s, coef, q, from, o % 2, tap_groups(ord));
    assert(2 * (q - from) + o % 2 == o - 2 * k);
    in_range(0);
}

/// Blocks join: behind the samples of a block stand those that the block before
/// it kept, newest first.
pub proof fn blocks_join(
    x: Seq<i32>,
    y: Seq<i32>,
    mem: Seq<i32>,
    n: int,
    ord: int,
    k: int,
)
    requires
        0 <= n <= 0x1_0000,
        0 < ord <= 0x1_0000,
        0 <= k < ord / 2,
        ord <= mem.len(),
    ensures
        fir_scratch(y, fir_history(x, mem, n, ord), n, ord)[n / 2 + k] == fir_scratch(
            x,
            mem,
            n,
            ord,
        )[k],
{
    let kept = fir_history(x, mem, n, ord);
    assert((2 * k + 1) % 2 == 1 && (2 * k + 1) / 2 == k);
    assert(kept.len() == mem.len());
    assert(tap32(kept, 2 * k + 1) == fir_scratch(x, mem, n, ord)[k]);
    let v = fir_scratch(x, mem, n, ord)[k];
    assert(super::fixed::wrap16(v as int) == v);
    assert(history(ord) == ord / 2);
    assert(at_least_zero(n) == n);
    assert(2 * (n / 2 + k - n / 2) + 1 == 2 * k + 1);
}

/// The newest sample of a block stands first, rounded to sixteen bits.
pub proof fn newest_samples_stand_first(x: Seq<i32>, mem: Seq<i32>, n: int, ord: int, k: int)
    requires
        0 <= n <= 0x1_0000,
        0 < ord <= 0x1_0000,
        0 <= k < n / 2,
        n / 2 <= x.len(),
        -0x1f00_0000 <= x[n / 2 - 1 - k] <= 0x1f00_0000,
    ensures
        -0x2000 <= x[n / 2 - 1 - k] - 0x4000 * fir_scratch(x, mem, n, ord)[k] <= 0x2000,
{
    in_range(x[n / 2 - 1 - k] + 0x2000);
    let r = (x[n / 2 - 1 - k] + 0x2000) / 0x4000;
    assert(-0x8000 <= r < 0x8000);
    assert(super::fixed::wrap16(r) == r);
    assert(scratch(n, ord) + history(ord) >= 0);
}

/// A scaled sample is the product with the gain, in steps of 128 and never above
/// it.
pub proof fn scaled_samples_are_products(v: i32, scale: int)
    requires
        0 <= scale <= 0x2000,
    ensures
        ({
            let r = scaled_sample(v as int, scale) as int;
            &&& r % 128 == 0
            &&& 0x4000 * r <= scale * (v - v as int % 128)
            &&& scale * (v - v as int % 128) < 0x4000 * (r + 128)
        }),
{
    let u = v as int / 128;
    let p = scale * u;
    assert(-0x100_0000 * 0x2000 <= p <= 0x100_0000 * 0x2000) by (nonlinear_arith)
        requires
            p == scale * u,
            0 <= scale <= 0x2000,
            -0x100_0000 <= u <= 0x100_0000,
    ;
    let q = p / 0x4000;
    in_range(q);
    in_range(q * 128);
    assert(v - v as int % 128 == 128 * u);
    assert(scale * (128 * u) == 128 * p) by (nonlinear_arith)
        requires
            p == scale * u,
    ;
}

} // verus!
