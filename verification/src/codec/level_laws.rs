//! What holds of the level of a block of samples.
use vstd::prelude::*;
use super::fixed::{weight_values, wrap16};
use super::laws::in_range;
use super::math::{
    energy, four_squares, headroom, level, peak, rescaled, root, scaled, trunc_div,
};

verus! {

/// The sum of the squares of the first `n` samples.
pub open spec fn squares(x: Seq<i16>, n: nat) -> int
    decreases n,
{
    if n == 0 {
        0
    } else {
        squares(x, (n - 1) as nat) + x[n - 1] * x[n - 1]
    }
}

/// Twice the samples.
pub open spec fn twice(x: Seq<i16>) -> Seq<i16> {
    x.map_values(|v: i16| (2 * v) as i16)
}

proof fn peak_bounds(x: Seq<i16>, n: nat, i: int)
    requires
        n <= x.len(),
    ensures
        peak(x, n) >= 10,
        0 <= i < n ==> -peak(x, n) <= x[i] <= peak(x, n),
    decreases n,
{
    if n > 0 {
        peak_bounds(x, (n - 1) as nat, i);
    }
}

proof fn quiet_energy(x: Seq<i16>, g: nat, p: int)
    requires
        4 * g <= x.len(),
        10 <= p < 0x800,
        forall|i: int| 0 <= i < 4 * g ==> -p <= #[trigger] x[i] <= p,
        squares(x, 4 * g) <= i32::MAX,
    ensures
        energy(x, g, p) == squares(x, 4 * g),
        squares(x, 4 * g) >= 0,
    decreases g,
{
    if g > 0 {
        let h = (g - 1) as nat;
        let k = 4 * h as int;
        let (a, b, c, d) = (x[k] as int, x[k + 1] as int, x[k + 2] as int, x[k + 3] as int);
        weight_values();
        reveal(scaled);
        assert(-p <= x[k] <= p && -p <= x[k + 1] <= p && -p <= x[k + 2] <= p && -p <= x[k + 3]
            <= p);
        assert(scaled(a, p) == 8 * a && scaled(b, p) == 8 * b && scaled(c, p) == 8 * c && scaled(
            d,
            p,
        ) == 8 * d);
        reveal_with_fuel(squares, 5);
        assert(squares(x, 4 * g) == squares(x, 4 * h) + a * a + b * b + c * c + d * d);
        let s = a * a + b * b + c * c + d * d;
        square_is_small(a);
        square_is_small(b);
        square_is_small(c);
        square_is_small(d);
        quiet_energy(x, h, p);
        assert(four_squares(x, k, p) == 64 * s);
        in_range(64 * s);
        in_range(squares(x, 4 * g));
    }
}

proof fn square_is_small(a: int)
    requires
        -0x800 < a < 0x800,
    ensures
        0 <= a * a < 0x40_0000,
        (8 * a) * (8 * a) == 64 * (a * a),
{
    assert(0 <= a * a < 0x40_0000) by (nonlinear_arith)
        requires
            -0x800 < a < 0x800,
    ;
    assert((8 * a) * (8 * a) == 64 * (a * a)) by (nonlinear_arith);
}

/// The level of a quiet block is the root of its mean square.
pub proof fn quiet_levels_are_mean_squares(x: Seq<i16>, len: int)
    requires
        0 < len <= x.len(),
        len <= 0x7fff_ffff,
        len % 4 == 0,
        peak(x, len as nat) < 0x800,
        squares(x, len as nat) <= i32::MAX,
    ensures
        level(x, len) == wrap16(root(squares(x, len as nat) / len)),
{
    let p = peak(x, len as nat);
    let g = (len / 4) as nat;
    assert forall|i: int| 0 <= i < 4 * g implies -p <= #[trigger] x[i] <= p by {
        peak_bounds(x, len as nat, i);
    }
    peak_bounds(x, len as nat, 0);
    assert(4 * g == len);
    quiet_energy(x, g, p);
    weight_values();
    in_range(len);
    let e = squares(x, len as nat);
    assert(trunc_div(e, len) == e / len);
    assert(headroom(p) == 3);
}

proof fn twice_the_peak(x: Seq<i16>, n: nat)
    requires
        n <= x.len(),
        forall|i: int| 0 <= i < n ==> -0x4000 < #[trigger] x[i] < 0x4000,
    ensures
        peak(x, n) > 10 ==> peak(twice(x), n) == 2 * peak(x, n),
        peak(x, n) <= 10 ==> peak(twice(x), n) <= 20,
        peak(x, n) >= 10,
    decreases n,
{
    if n > 0 {
        twice_the_peak(x, (n - 1) as nat);
        assert(twice(x)[n - 1] == 2 * x[n - 1]);
    }
}

proof fn twice_the_sample(s: int, p: int)
    requires
        0x400 <= p < 0x4000,
        -p <= s <= p,
    ensures
        scaled(2 * s, 2 * p) == scaled(s, p),
{
    reveal(scaled);
    weight_values();
}

proof fn same_energy(x: Seq<i16>, g: nat, p: int)
    requires
        4 * g <= x.len(),
        0x400 <= p < 0x4000,
        forall|i: int| 0 <= i < 4 * g ==> -p <= #[trigger] x[i] <= p,
    ensures
        energy(twice(x), g, 2 * p) == energy(x, g, p),
    decreases g,
{
    if g > 0 {
        let k = 4 * (g - 1);
        same_energy(x, (g - 1) as nat, p);
        let y = twice(x);
        assert(y[k] == 2 * x[k] && y[k + 1] == 2 * x[k + 1] && y[k + 2] == 2 * x[k + 2] && y[k + 3]
            == 2 * x[k + 3]);
        twice_the_sample(x[k] as int, p);
        twice_the_sample(x[k + 1] as int, p);
        twice_the_sample(x[k + 2] as int, p);
        twice_the_sample(x[k + 3] as int, p);
    }
}

/// A block that is twice as loud has twice the level, whatever its peak makes of
/// its scale.
pub proof fn levels_double_with_the_samples(x: Seq<i16>, len: int)
    requires
        0 < len <= x.len(),
        len <= 0x7fff_ffff,
        len % 4 == 0,
        0x400 <= peak(x, len as nat) < 0x4000,
        0 <= root(trunc_div(energy(x, (len / 4) as nat, peak(x, len as nat)) as int, len)) < 0x800,
    ensures
        level(twice(x), len) == 2 * level(x, len),
{
    let p = peak(x, len as nat);
    let g = (len / 4) as nat;
    assert forall|i: int| 0 <= i < len implies -p <= #[trigger] x[i] <= p by {
        peak_bounds(x, len as nat, i);
    }
    assert forall|i: int| 0 <= i < len as nat implies -0x4000 < #[trigger] x[i] < 0x4000 by {
        assert(-p <= x[i] <= p);
    }
    twice_the_peak(x, len as nat);
    same_energy(x, g, p);
    in_range(len);
    weight_values();
    let r = root(trunc_div(energy(x, g, p) as int, len));
    in_range(r * 0x10_0000);
    assert(level(x, len) == rescaled(r, p));
    assert(level(twice(x), len) == rescaled(r, 2 * p));
    if p < 0x800 {
        assert(rescaled(r, p) == r && rescaled(r, 2 * p) == 2 * r);
    } else if p < 0x1000 {
        assert(rescaled(r, p) == 2 * r && rescaled(r, 2 * p) == 4 * r);
    } else if p < 0x2000 {
        assert(rescaled(r, p) == 4 * r && rescaled(r, 2 * p) == 8 * r);
    } else {
        assert(rescaled(r, p) == 8 * r);
        assert(r * 0x10_0000 / 0x1_0000 == 16 * r);
    }
}

/// A block that is not whole fours has no level.
pub proof fn broken_blocks_have_no_level(x: Seq<i16>, len: int)
    requires
        len > x.len() || len % 4 != 0,
    ensures
        level(x, len) == 0,
{
}

} // verus!
