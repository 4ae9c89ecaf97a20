//! How the statistics of angles turn with the angles.
use crate::arithmetic;
use crate::close;
use crate::constants;
use crate::ieee;
use crate::signal_processing::math;
use crate::single;
use crate::single::Single;
use crate::single_laws;
use crate::stats;
use vstd::arithmetic::{div_mod, power2};
use vstd::prelude::*;

verus! {

/// The grid of angles that are added and wrapped without rounding: a degree
/// over `2^12`, in units of the smallest number.
pub open spec fn grid() -> int {
    power2::pow2(137) as int
}

/// Whether an angle is a number of steps of the grid, not beyond `2^12`
/// degrees.
pub open spec fn is_grid_point(x: Single, i: int) -> bool {
    x.value() == i * grid() && -0x100_0000 <= i <= 0x100_0000
}

/// A multiple of the grid is held exactly.
proof fn grid_point_is_held(negative: bool, i: nat)
    requires
        i <= 0x100_0000,
    ensures
        ({
            let x = Single::rounded(negative, (i * grid()) as nat, 1);
            &&& x.finite()
            &&& x.value() == if negative {
                -(i * grid())
            } else {
                i * grid()
            }
        }),
{
    let h = single::HIDDEN as nat;
    let inf = single::INFINITE as nat;
    let g = power2::pow2(137);
    power2::lemma2_to64();
    power2::lemma_pow2_pos(137);
    power2::lemma_pow2_adds(24, 137);
    assert(0 < i ==> i * power2::pow2(23) >= h) by (nonlinear_arith)
        requires
            power2::pow2(23) == h,
    ;
    single_laws::whole_number_is_held(h, inf, i, 137, 23);
    assert(i * g <= power2::pow2(24) * g) by (nonlinear_arith)
        requires
            i <= power2::pow2(24),
            g > 0,
    ;
    single_laws::rounded_within(negative, i * g, 1, 161);
}

/// Angles on the grid add up exactly.
proof fn grid_sum(a: Single, i: int, b: Single, j: int)
    requires
        a.finite(),
        b.finite(),
        is_grid_point(a, i),
        is_grid_point(b, j),
        -0x100_0000 <= i + j <= 0x100_0000,
    ensures
        a.plus_spec(b).finite(),
        is_grid_point(a.plus_spec(b), i + j),
{
    let g = grid();
    let s = a.value() + b.value();
    power2::lemma_pow2_pos(137);
    assert(s == (i + j) * g) by (nonlinear_arith)
        requires
            s == i * g + j * g,
    ;
    let negative = if s == 0 {
        a.negative() && b.negative()
    } else {
        s < 0
    };
    assert((s < 0 <==> i + j < 0) && (s == 0 <==> i + j == 0)) by (nonlinear_arith)
        requires
            s == (i + j) * g,
            g > 0,
    ;
    let n = if i + j < 0 {
        (-(i + j)) as nat
    } else {
        (i + j) as nat
    };
    assert(arithmetic::magnitude(s) == n * g) by (nonlinear_arith)
        requires
            s == (i + j) * g,
            n == if i + j < 0 {
                -(i + j)
            } else {
                i + j
            },
            g > 0,
            arithmetic::magnitude(s) == if s < 0 {
                -s
            } else {
                s
            },
    ;
    grid_point_is_held(negative, n);
    if n == 0 {
        assert(0 * g == 0);
    }
    if s < 0 {
        assert(-(n * g) == (i + j) * g) by (nonlinear_arith)
            requires
                n == -(i + j),
        ;
    }
}

/// A turn, in steps of the grid.
pub open spec fn turn_steps() -> int {
    0x16_8000
}

proof fn turn_on_grid()
    ensures
        is_grid_point(constants::of(math::FULL_TURN), turn_steps()),
        is_grid_point(constants::of(stats::HALF_TURN), turn_steps() / 2),
{
    let h = single::HIDDEN as nat;
    assert(stats::HALF_TURN as nat / h == 134 && stats::HALF_TURN as nat % h == 0x34_0000);
    assert(math::FULL_TURN as nat / h == 135 && math::FULL_TURN as nat % h == 0x34_0000);
    let p = power2::pow2(133);
    let g = power2::pow2(137);
    power2::lemma2_to64();
    power2::lemma_pow2_unfold(134);
    power2::lemma_pow2_adds(4, 133);
    assert(0xb4_0000 * p == 0xb_4000 * (16 * p)) by (nonlinear_arith);
    assert(0xb4_0000 * (2 * p) == 0x16_8000 * (16 * p)) by (nonlinear_arith);
}

/// The remainder of an angle on the grid is exact.
proof fn grid_turn(x: Single, i: int)
    requires
        x.finite(),
        is_grid_point(x, i),
    ensures
        ({
            let r = x.rem_euclid_spec(constants::of(math::FULL_TURN));
            &&& r.finite()
            &&& is_grid_point(r, i % turn_steps())
            &&& math::turn_spec(x) == r
        }),
{
    let full = constants::of(math::FULL_TURN);
    let g = grid();
    let m = turn_steps();
    turn_on_grid();
    power2::lemma_pow2_pos(137);
    let n = if i < 0 {
        -i
    } else {
        i
    };
    assert(arithmetic::magnitude(x.value()) == n * g && (x.value() < 0 <==> i < 0))
        by (nonlinear_arith)
        requires
            x.value() == i * g,
            n == if i < 0 {
                -i
            } else {
                i
            },
            g > 0,
            arithmetic::magnitude(x.value()) == if x.value() < 0 {
                -x.value()
            } else {
                x.value()
            },
    ;
    let q = n / m;
    let k = n % m;
    div_mod::lemma_fundamental_div_mod(n, m);
    assert(n * g == q * (m * g) + k * g) by (nonlinear_arith)
        requires
            n == m * q + k,
    ;
    assert(0 <= k * g < m * g) by (nonlinear_arith)
        requires
            0 <= k < m,
            g > 0,
    ;
    div_mod::lemma_fundamental_div_mod_converse(n * g, m * g, q, k * g);
    grid_point_is_held(x.negative(), k as nat);
    let r = x.rem_spec(full);
    assert(r.finite());
    let zero = Single { bits: 0 };
    ieee::pattern_value_increases(single::HIDDEN as nat, 0, r.magnitude() as nat);
    single::rank_orders_values(r, zero);
    assert(zero.value() == 0) by {
        ieee::pattern_value_increases(single::HIDDEN as nat, 0, 0);
    }
    if x.negative() && k > 0 {
        assert(r.value() == (-k) * g) by (nonlinear_arith)
            requires
                r.value() == -(k * g),
        ;
        assert(r.value() < 0) by (nonlinear_arith)
            requires
                r.value() == (-k) * g,
                k > 0,
                g > 0,
        ;
        assert(full.abs_spec() == full);
        grid_sum(r, -k, full, m);
        assert(i < 0) by {
            if x.value() == 0 {
                assert(i == 0) by (nonlinear_arith)
                    requires
                        i * g == 0,
                        g > 0,
                ;
            }
        }
        div_mod::lemma_fundamental_div_mod_converse(i, m, -q - 1, m - k);
    } else {
        assert(k == 0 ==> k * g == 0) by (nonlinear_arith);
        assert(r.value() == k * g);
        if i < 0 {
            div_mod::lemma_fundamental_div_mod_converse(i, m, -q, 0);
        }
    }
    let e = x.rem_euclid_spec(full);
    let w = i % m;
    assert(w * g < m * g) by (nonlinear_arith)
        requires
            w < m,
            g > 0,
    ;
    single::rank_orders_values(e, full);
}

/// A wrapped deviation on the grid is exact.
proof fn grid_wrapped(x: Single, i: int)
    requires
        x.finite(),
        is_grid_point(x, i),
        -0x80_0000 <= i <= 0x80_0000,
    ensures
        stats::wrapped_degrees(x).finite(),
        is_grid_point(stats::wrapped_degrees(x), (i + turn_steps() / 2) % turn_steps() - turn_steps() / 2),
{
    let half = constants::of(stats::HALF_TURN);
    let m = turn_steps();
    turn_on_grid();
    grid_sum(x, i, half, m / 2);
    grid_turn(x.plus_spec(half), i + m / 2);
    let r = x.plus_spec(half).rem_euclid_spec(constants::of(math::FULL_TURN));
    grid_negated(half, m / 2);
    grid_sum(r, (i + m / 2) % m, half.neg_spec(), -(m / 2));
}

proof fn grid_negated(x: Single, i: int)
    requires
        x.finite(),
        is_grid_point(x, i),
    ensures
        x.neg_spec().finite(),
        is_grid_point(x.neg_spec(), -i),
{
    let g = grid();
    assert(x.neg_spec().value() == -x.value());
    assert((-i) * g == -(i * g)) by (nonlinear_arith);
}

/// Whether an angle is in [0, 360), on the grid.
pub open spec fn on_circle(x: Single) -> bool {
    x.finite() && exists|i: int| is_circle_point(x, i)
}

pub open spec fn is_circle_point(x: Single, i: int) -> bool {
    x.value() == i * grid() && 0 <= i < turn_steps()
}

/// An angle turned by another one.
pub open spec fn turned(x: Single, by: Single) -> Single {
    math::turn_spec(x.plus_spec(by))
}

/// Turning both an angle and the mean keeps the deviation.
proof fn turning_keeps_deviation(a: Single, mean: Single, by: Single)
    requires
        on_circle(a),
        on_circle(mean),
        on_circle(by),
    ensures
        stats::wrapped_degrees(a.minus_spec(mean)).finite(),
        stats::in_half_turn(stats::wrapped_degrees(a.minus_spec(mean))),
        stats::wrapped_degrees(turned(a, by).minus_spec(turned(mean, by))).finite(),
        stats::wrapped_degrees(turned(a, by).minus_spec(turned(mean, by))).value() == stats::wrapped_degrees(
            a.minus_spec(mean),
        ).value(),
        exists|k: int|
            -(turn_steps() / 2) <= k <= turn_steps() / 2 && is_grid_point(
                stats::wrapped_degrees(a.minus_spec(mean)),
                k,
            ),
{
    let m = turn_steps();
    let i = choose|i: int| is_circle_point(a, i);
    let j = choose|j: int| is_circle_point(mean, j);
    let t = choose|t: int| is_circle_point(by, t);
    grid_negated(mean, j);
    grid_sum(a, i, mean.neg_spec(), -j);
    grid_wrapped(a.minus_spec(mean), i - j);
    grid_sum(a, i, by, t);
    grid_turn(a.plus_spec(by), i + t);
    grid_sum(mean, j, by, t);
    grid_turn(mean.plus_spec(by), j + t);
    let x = turned(a, by);
    let y = turned(mean, by);
    grid_negated(y, (j + t) % m);
    grid_sum(x, (i + t) % m, y.neg_spec(), -((j + t) % m));
    grid_wrapped(x.minus_spec(y), (i + t) % m - (j + t) % m);
    steps_agree(i, j, t);
    let k = (i - j + m / 2) % m - m / 2;
    assert(is_grid_point(stats::wrapped_degrees(a.minus_spec(mean)), k));
    turn_on_grid();
    let g = grid();
    power2::lemma_pow2_pos(137);
    let w = stats::wrapped_degrees(a.minus_spec(mean));
    let half = constants::of(stats::HALF_TURN);
    assert(k * g <= (m / 2) * g && (-(m / 2)) * g <= k * g) by (nonlinear_arith)
        requires
            -(m / 2) <= k <= m / 2,
            g > 0,
    ;
    assert((-(m / 2)) * g == -((m / 2) * g)) by (nonlinear_arith);
    single::rank_orders_values(w, half);
    assert(half.neg_spec().value() == -half.value());
    single::rank_orders_values(half.neg_spec(), w);
}

proof fn steps_agree(i: int, j: int, t: int)
    ensures
        ((i + t) % turn_steps() - (j + t) % turn_steps() + turn_steps() / 2) % turn_steps() == (i - j
            + turn_steps() / 2) % turn_steps(),
{
    let m = turn_steps();
    let a = i + t;
    let b = j + t;
    div_mod::lemma_fundamental_div_mod(a, m);
    div_mod::lemma_fundamental_div_mod(b, m);
    let x = a % m - b % m + m / 2;
    let q = b / m - a / m;
    assert(x == m * q + (i - j + m / 2)) by (nonlinear_arith)
        requires
            a == m * (a / m) + a % m,
            b == m * (b / m) + b % m,
            x == a % m - b % m + m / 2,
            q == b / m - a / m,
            a - b == i - j,
    ;
    div_mod::lemma_mod_multiples_vanish(q, i - j + m / 2, m);
}

/// Whether a deviation lies on the grid, within half a turn.
pub open spec fn is_deviation(d: Single) -> bool {
    d.finite() && exists|k: int| is_deviation_point(d, k)
}

pub open spec fn is_deviation_point(d: Single, k: int) -> bool {
    -(turn_steps() / 2) <= k <= turn_steps() / 2 && is_grid_point(d, k)
}

/// Angles turned by another one.
pub open spec fn all_turned(angles: Seq<Single>, by: Single) -> Seq<Single> {
    angles.map_values(|a: Single| turned(a, by))
}

proof fn turning_keeps_extremes(angles: Seq<Single>, mean: Single, by: Single)
    requires
        forall|i: int| 0 <= i < angles.len() ==> on_circle(#[trigger] angles[i]),
        on_circle(mean),
        on_circle(by),
    ensures
        ({
            let (low, high) = stats::extremes(angles, mean);
            let (low2, high2) = stats::extremes(all_turned(angles, by), turned(mean, by));
            &&& low2.rank() == low.rank()
            &&& high2.rank() == high.rank()
            &&& !low.nan() && !high.nan() && !low2.nan() && !high2.nan()
            &&& angles.len() > 0 ==> is_deviation(low) && is_deviation(high)
        }),
    decreases angles.len(),
{
    if angles.len() > 0 {
        let front = angles.drop_last();
        let all = all_turned(angles, by);
        assert(all.drop_last() =~= all_turned(front, by));
        assert(all.last() == turned(angles.last(), by));
        assert(angles.last() == angles[angles.len() - 1]);
        assert forall|i: int| 0 <= i < front.len() implies on_circle(#[trigger] front[i]) by {
            assert(front[i] == angles[i]);
        }
        turning_keeps_extremes(front, mean, by);
        turning_keeps_deviation(angles.last(), mean, by);
        let d = stats::wrapped_degrees(angles.last().minus_spec(mean));
        let e = stats::wrapped_degrees(all.last().minus_spec(turned(mean, by)));
        single::rank_orders_values(d, e);
        let k = choose|k: int|
            -(turn_steps() / 2) <= k <= turn_steps() / 2 && is_grid_point(d, k);
        assert(is_deviation_point(d, k));
    }
}

/// A common turn of all angles and of their mean turns the least and the
/// greatest angle with them, and keeps the count, the range and the spread.
///
/// The angles, the mean and the turn lie on the grid, on which nothing is
/// lost to rounding.
pub proof fn common_turn_carries_over(
    angles: Seq<Single>,
    mean: Single,
    std_dev: Single,
    by: Single,
)
    requires
        angles.len() > 0,
        forall|i: int| 0 <= i < angles.len() ==> on_circle(#[trigger] angles[i]),
        on_circle(mean),
        on_circle(by),
    ensures
        ({
            let before = stats::summary_of(angles, mean, std_dev);
            let after = stats::summary_of(all_turned(angles, by), turned(mean, by), std_dev);
            &&& after.count == before.count
            &&& after.mean == turned(before.mean, by)
            &&& after.std_dev == before.std_dev
            &&& after.range.same_value(before.range)
            &&& after.min.same_value(turned(before.min, by))
            &&& after.max.same_value(turned(before.max, by))
        }),
{
    turning_keeps_extremes(angles, mean, by);
    let (low, high) = stats::extremes(angles, mean);
    let (low2, high2) = stats::extremes(all_turned(angles, by), turned(mean, by));
    let i = choose|k: int| is_deviation_point(low, k);
    let j = choose|k: int| is_deviation_point(high, k);
    same_rank_same_point(low2, low, i);
    same_rank_same_point(high2, high, j);
    grid_negated(low, i);
    grid_negated(low2, i);
    grid_sum(high, j, low.neg_spec(), -i);
    grid_sum(high2, j, low2.neg_spec(), -i);
    single::rank_orders_values(high.minus_spec(low), high2.minus_spec(low2));
    turning_keeps_extreme(mean, by, low, low2, i);
    turning_keeps_extreme(mean, by, high, high2, j);
}

proof fn same_rank_same_point(a: Single, b: Single, i: int)
    requires
        b.finite(),
        !a.nan(),
        a.rank() == b.rank(),
        is_grid_point(b, i),
    ensures
        a.finite(),
        is_grid_point(a, i),
{
    single::rank_orders_values(a, b);
}

proof fn turning_keeps_extreme(mean: Single, by: Single, d: Single, e: Single, k: int)
    requires
        on_circle(mean),
        on_circle(by),
        d.finite(),
        e.finite(),
        is_deviation_point(d, k),
        is_deviation_point(e, k),
    ensures
        math::turn_spec(turned(mean, by).plus_spec(e)).same_value(
            turned(math::turn_spec(mean.plus_spec(d)), by),
        ),
{
    let m = turn_steps();
    let j = choose|j: int| is_circle_point(mean, j);
    let t = choose|t: int| is_circle_point(by, t);
    grid_sum(mean, j, by, t);
    grid_turn(mean.plus_spec(by), j + t);
    let y = turned(mean, by);
    grid_sum(y, (j + t) % m, e, k);
    grid_turn(y.plus_spec(e), (j + t) % m + k);
    grid_sum(mean, j, d, k);
    grid_turn(mean.plus_spec(d), j + k);
    let x = math::turn_spec(mean.plus_spec(d));
    grid_sum(x, (j + k) % m, by, t);
    grid_turn(x.plus_spec(by), (j + k) % m + t);
    div_mod::lemma_add_mod_noop_right(k, j + t, m);
    div_mod::lemma_add_mod_noop_right(t, j + k, m);
    single::rank_orders_values(math::turn_spec(y.plus_spec(e)), turned(x, by));
}

/// A turn, in units of the smallest number.
pub open spec fn turn() -> int {
    360 * (power2::pow2(single::UNIT as nat) as int)
}

/// What one rounding of an angle below `2^10` degrees takes off or adds at
/// most: a degree over `2^14`, in units of the smallest number.
pub open spec fn slack() -> int {
    power2::pow2(135) as int
}

/// Whether two angles are no further apart than a tolerance, but for a number
/// of turns.
pub open spec fn near(x: int, y: int, tolerance: int) -> bool {
    exists|k: int| near_by(x, y, tolerance, k)
}

pub open spec fn near_by(x: int, y: int, tolerance: int, k: int) -> bool {
    -tolerance <= x - y - k * turn() <= tolerance
}

proof fn near_through(x: int, y: int, z: int, a: int, b: int)
    requires
        near(x, y, a),
        near(y, z, b),
    ensures
        near(x, z, a + b),
{
    let i = choose|k: int| near_by(x, y, a, k);
    let j = choose|k: int| near_by(y, z, b, k);
    assert((i + j) * turn() == i * turn() + j * turn()) by (nonlinear_arith);
    assert(near_by(x, z, a + b, i + j));
}

proof fn near_back(x: int, y: int, a: int)
    requires
        near(x, y, a),
    ensures
        near(y, x, a),
{
    let i = choose|k: int| near_by(x, y, a, k);
    assert((-i) * turn() == -(i * turn())) by (nonlinear_arith);
    assert(near_by(y, x, a, -i));
}

/// Sums and differences of near angles are near.
proof fn near_sums(x: int, y: int, a: int, v: int, w: int, b: int)
    requires
        near(x, y, a),
        near(v, w, b),
    ensures
        near(x + v, y + w, a + b),
        near(x - v, y - w, a + b),
{
    let i = choose|k: int| near_by(x, y, a, k);
    let j = choose|k: int| near_by(v, w, b, k);
    assert((i + j) * turn() == i * turn() + j * turn()) by (nonlinear_arith);
    assert((i - j) * turn() == i * turn() - j * turn()) by (nonlinear_arith);
    assert(near_by(x + v, y + w, a + b, i + j));
    assert(near_by(x - v, y - w, a + b, i - j));
}

proof fn near_itself(x: int, y: int, a: int)
    requires
        -a <= x - y <= a,
    ensures
        near(x, y, a),
{
    assert(0 * turn() == 0);
    assert(near_by(x, y, a, 0));
}

/// The values of half a turn and of a full one.
proof fn turns_in_units()
    ensures
        constants::of(math::FULL_TURN).value() == turn(),
        2 * constants::of(stats::HALF_TURN).value() == turn(),
        constants::of(math::FULL_TURN).finite(),
        constants::of(stats::HALF_TURN).finite(),
        turn() == 0x5a_0000 * slack(),
        slack() > 0,
        power2::pow2(159) == 0x100_0000 * slack(),
{
    let g = power2::pow2(137);
    turn_on_grid();
    power2::lemma2_to64();
    power2::lemma_pow2_pos(135);
    power2::lemma_pow2_adds(12, 137);
    power2::lemma_pow2_adds(2, 135);
    power2::lemma_pow2_adds(14, 135);
    power2::lemma_pow2_adds(24, 135);
    assert(0x16_8000 * g == 360 * (0x1000 * g)) by (nonlinear_arith);
    assert(0xb_4000 * g == 180 * (0x1000 * g)) by (nonlinear_arith);
}

/// A sum of two angles is off by no more than one rounding.
proof fn sum_is_near(a: Single, b: Single)
    requires
        a.finite(),
        b.finite(),
        -0x100_0000 * slack() <= a.value() + b.value() <= 0x100_0000 * slack(),
    ensures
        a.plus_spec(b).finite(),
        -slack() <= a.plus_spec(b).value() - (a.value() + b.value()) <= slack(),
{
    turns_in_units();
    single_laws::sum_is_close(a, b, 159);
}

/// An angle brought into one turn is where it was, but for two roundings.
proof fn remainder_is_near(x: Single)
    requires
        x.finite(),
    ensures
        ({
            let r = x.rem_euclid_spec(constants::of(math::FULL_TURN));
            &&& r.finite()
            &&& 0 <= r.value() <= turn()
            &&& near(r.value(), x.value(), 2 * slack())
        }),
{
    let h = single::HIDDEN as nat;
    let inf = single::INFINITE as nat;
    let full = constants::of(math::FULL_TURN);
    let zero = Single { bits: 0 };
    let v = turn();
    turns_in_units();
    single_laws::rem_euclid_in_range(x, full);
    single_laws::rem_in_range(x, full);
    let r = x.rem_spec(full);
    let m = arithmetic::magnitude(x.value());
    let n = (m as int % v) as nat;
    let q = m as int / v;
    div_mod::lemma_fundamental_div_mod(m as int, v);
    div_mod::lemma_mod_bound(m as int, v);
    ieee::nearest_exists(h, inf, n, 1);
    let b = ieee::nearest(h, inf, n, 1);
    assert(r == Single::of_parts(x.negative(), b));
    ieee::nearest_at_most(h, inf, n, 1, full.magnitude() as nat);
    ieee::nearest_integer_is_close(h, inf, n);
    let y = ieee::pattern_value(h, b) as int;
    ieee::pattern_value_increases(h, b, full.magnitude() as nat);
    ieee::pattern_value_increases(h, 0, full.magnitude() as nat);
    ieee::pattern_value_increases(h, 0, r.magnitude() as nat);
    assert(2 * h * (y - n) == 0x100_0000 * (y - n) && 2 * h * (n - y) == 0x100_0000 * (n - y));
    assert(y <= turn());
    assert(0x100_0000 * (y - n) <= 0x5a_0000 * slack());
    assert(0x100_0000 * (n - y) <= 0x5a_0000 * slack());
    assert(-slack() <= y - n <= slack());
    assert(v * q == q * v) by (nonlinear_arith);
    assert(v * (-q) == -(q * v)) by (nonlinear_arith);
    assert((-q) * v == -(q * v)) by (nonlinear_arith);
    let k = if x.negative() {
        q
    } else {
        -q
    };
    assert(near_by(r.value(), x.value(), slack(), k));
    single::rank_orders_values(r, zero);
    assert(zero.value() == 0);
    let e = x.rem_euclid_spec(full);
    single::rank_orders_values(e, full);
    single::rank_orders_values(zero, e);
    if r.lt_spec(zero) {
        assert(full.abs_spec() == full);
        sum_is_near(r, full);
        assert((k + 1) * v == k * v + v) by (nonlinear_arith);
        assert(near_by(e.value(), x.value(), 2 * slack(), k + 1));
    } else {
        assert(near_by(e.value(), x.value(), 2 * slack(), k));
    }
}

/// The same of an angle in [0, 360).
proof fn turn_is_near(x: Single)
    requires
        x.finite(),
    ensures
        math::turn_spec(x).finite(),
        0 <= math::turn_spec(x).value() < turn(),
        near(math::turn_spec(x).value(), x.value(), 2 * slack()),
{
    let full = constants::of(math::FULL_TURN);
    let r = x.rem_euclid_spec(full);
    let t = math::turn_spec(x);
    remainder_is_near(x);
    turns_in_units();
    single::rank_orders_values(r, full);
    single::rank_orders_values(full, r);
    if full.le_spec(r) {
        assert(t.value() == 0);
        let tolerance = 2 * slack();
        let k = choose|k: int| near_by(r.value(), x.value(), tolerance, k);
        assert((k - 1) * turn() == k * turn() - turn()) by (nonlinear_arith);
        assert(near_by(0, x.value(), 2 * slack(), k - 1));
    }
}

/// Whether an angle is a number in [0, 360).
pub open spec fn in_turn(x: Single) -> bool {
    x.finite() && 0 <= x.value() < turn()
}

/// An angle that is turned lies where it should, but for three roundings.
proof fn turned_is_near(x: Single, by: Single)
    requires
        in_turn(x),
        in_turn(by),
    ensures
        in_turn(turned(x, by)),
        near(turned(x, by).value(), x.value() + by.value(), 3 * slack()),
{
    turns_in_units();
    sum_is_near(x, by);
    let s = x.plus_spec(by);
    turn_is_near(s);
    near_itself(s.value(), x.value() + by.value(), slack());
    near_through(
        turned(x, by).value(),
        s.value(),
        x.value() + by.value(),
        2 * slack(),
        slack(),
    );
}

/// A wrapped deviation lies where it should, but for five roundings, and
/// within half a turn.
proof fn wrapped_is_near(a: Single, mean: Single)
    requires
        in_turn(a),
        in_turn(mean),
    ensures
        ({
            let d = stats::wrapped_degrees(a.minus_spec(mean));
            &&& d.finite()
            &&& -turn() <= 2 * d.value() <= turn()
            &&& near(d.value(), a.value() - mean.value(), 5 * slack())
        }),
{
    let half = constants::of(stats::HALF_TURN);
    let full = constants::of(math::FULL_TURN);
    turns_in_units();
    assert(mean.neg_spec().value() == -mean.value());
    sum_is_near(a, mean.neg_spec());
    let d = a.minus_spec(mean);
    sum_is_near(d, half);
    let s = d.plus_spec(half);
    remainder_is_near(s);
    let r = s.rem_euclid_spec(full);
    assert(half.neg_spec().value() == -half.value());
    sum_is_near(r, half.neg_spec());
    let w = stats::wrapped_degrees(d);
    single::rank_orders_values(r, full);
    single_laws::rem_euclid_in_range(s, full);
    single_laws::about_half(r, half, full);
    single::rank_orders_values(w, half);
    single::rank_orders_values(half.neg_spec(), w);
    let x = a.value() - mean.value();
    let h = half.value();
    near_itself(s.value(), x + h, 2 * slack());
    near_through(r.value(), s.value(), x + h, 2 * slack(), 2 * slack());
    near_itself(h, h, 0);
    near_sums(r.value(), x + h, 4 * slack(), h, h, 0);
    near_itself(w.value(), r.value() - h, slack());
    near_through(w.value(), r.value() - h, x, slack(), 4 * slack());
}

/// How far a deviation may be from the mean, so that a turn does not carry it
/// over to the other side: 170 degrees.
pub open spec fn clear_of_the_far_side(d: Single) -> bool {
    -170 * turn() <= 360 * d.value() <= 170 * turn()
}

/// A common turn keeps a deviation but for roundings.
proof fn turning_nearly_keeps_deviation(a: Single, mean: Single, by: Single)
    requires
        in_turn(a),
        in_turn(mean),
        in_turn(by),
        clear_of_the_far_side(stats::wrapped_degrees(a.minus_spec(mean))),
    ensures
        ({
            let d = stats::wrapped_degrees(a.minus_spec(mean));
            let e = stats::wrapped_degrees(turned(a, by).minus_spec(turned(mean, by)));
            &&& d.finite()
            &&& e.finite()
            &&& -(16 * slack()) <= e.value() - d.value() <= 16 * slack()
        }),
{
    let (x, y) = (turned(a, by), turned(mean, by));
    let d = stats::wrapped_degrees(a.minus_spec(mean));
    let e = stats::wrapped_degrees(x.minus_spec(y));
    let c = by.value();
    turns_in_units();
    turned_is_near(a, by);
    turned_is_near(mean, by);
    wrapped_is_near(a, mean);
    wrapped_is_near(x, y);
    let want = a.value() - mean.value();
    near_sums(x.value(), a.value() + c, 3 * slack(), y.value(), mean.value() + c, 3 * slack());
    near_through(e.value(), x.value() - y.value(), want, 5 * slack(), 6 * slack());
    near_back(d.value(), want, 5 * slack());
    near_through(e.value(), want, d.value(), 11 * slack(), 5 * slack());
    let tolerance = 16 * slack();
    let k = choose|k: int| near_by(e.value(), d.value(), tolerance, k);
    let v = turn();
    assert(k == 0) by {
        if k >= 1 {
            assert(k * v >= v) by (nonlinear_arith)
                requires
                    k >= 1,
                    v > 0,
            ;
        } else if k <= -1 {
            assert(k * v <= -v) by (nonlinear_arith)
                requires
                    k <= -1,
                    v > 0,
            ;
        }
    }
    assert(0 * v == 0);
}

proof fn turning_nearly_keeps_extremes(angles: Seq<Single>, mean: Single, by: Single)
    requires
        angles.len() > 0,
        forall|i: int|
            0 <= i < angles.len() ==> in_turn(#[trigger] angles[i]) && clear_of_the_far_side(
                stats::wrapped_degrees(angles[i].minus_spec(mean)),
            ),
        in_turn(mean),
        in_turn(by),
    ensures
        ({
            let (low, high) = stats::extremes(angles, mean);
            let (low2, high2) = stats::extremes(all_turned(angles, by), turned(mean, by));
            &&& low.finite() && high.finite() && low2.finite() && high2.finite()
            &&& -turn() <= 2 * low.value() <= turn()
            &&& -turn() <= 2 * high.value() <= turn()
            &&& -(16 * slack()) <= low2.value() - low.value() <= 16 * slack()
            &&& -(16 * slack()) <= high2.value() - high.value() <= 16 * slack()
        }),
    decreases angles.len(),
{
    let front = angles.drop_last();
    let all = all_turned(angles, by);
    let a = angles.last();
    assert(a == angles[angles.len() - 1]);
    assert(all.drop_last() =~= all_turned(front, by));
    assert(all.last() == turned(a, by));
    turning_nearly_keeps_deviation(a, mean, by);
    wrapped_is_near(a, mean);
    let d = stats::wrapped_degrees(a.minus_spec(mean));
    let e = stats::wrapped_degrees(turned(a, by).minus_spec(turned(mean, by)));
    if front.len() > 0 {
        assert forall|i: int| 0 <= i < front.len() implies in_turn(#[trigger] front[i])
            && clear_of_the_far_side(stats::wrapped_degrees(front[i].minus_spec(mean))) by {
            assert(front[i] == angles[i]);
        }
        turning_nearly_keeps_extremes(front, mean, by);
        let (low, high) = stats::extremes(front, mean);
        let (low2, high2) = stats::extremes(all_turned(front, by), turned(mean, by));
        single::rank_orders_values(d, low);
        single::rank_orders_values(high, d);
        single::rank_orders_values(e, low2);
        single::rank_orders_values(high2, e);
    } else {
        let nothing = (
            constants::of(single::INFINITY_BITS),
            constants::of(single::INFINITY_BITS).neg_spec(),
        );
        assert(stats::extremes(front, mean) == nothing);
        assert(stats::extremes(all_turned(front, by), turned(mean, by)) == nothing);
    }
}

/// A common turn of all angles and of their mean turns the least and the
/// greatest angle with them, and keeps the count, the range and the spread,
/// whatever the angles are: the range to 34 roundings, the extremes to 28, of
/// a degree over `2^14` each. The angles lie within 170 degrees of the mean.
pub proof fn common_turn_nearly_carries_over(
    angles: Seq<Single>,
    mean: Single,
    std_dev: Single,
    by: Single,
)
    requires
        angles.len() > 0,
        forall|i: int|
            0 <= i < angles.len() ==> in_turn(#[trigger] angles[i]) && clear_of_the_far_side(
                stats::wrapped_degrees(angles[i].minus_spec(mean)),
            ),
        in_turn(mean),
        in_turn(by),
    ensures
        ({
            let before = stats::summary_of(angles, mean, std_dev);
            let after = stats::summary_of(all_turned(angles, by), turned(mean, by), std_dev);
            &&& after.count == before.count
            &&& after.mean == turned(before.mean, by)
            &&& after.std_dev == before.std_dev
            &&& -(34 * slack()) <= after.range.value() - before.range.value() <= 34 * slack()
            &&& near(after.min.value(), turned(before.min, by).value(), 28 * slack())
            &&& near(after.max.value(), turned(before.max, by).value(), 28 * slack())
        }),
{
    turns_in_units();
    turning_nearly_keeps_extremes(angles, mean, by);
    let (low, high) = stats::extremes(angles, mean);
    let (low2, high2) = stats::extremes(all_turned(angles, by), turned(mean, by));
    assert(low.neg_spec().value() == -low.value());
    assert(low2.neg_spec().value() == -low2.value());
    sum_is_near(high, low.neg_spec());
    sum_is_near(high2, low2.neg_spec());
    turning_nearly_keeps_extreme(mean, by, low, low2);
    turning_nearly_keeps_extreme(mean, by, high, high2);
}

proof fn turning_nearly_keeps_extreme(mean: Single, by: Single, d: Single, e: Single)
    requires
        in_turn(mean),
        in_turn(by),
        d.finite(),
        e.finite(),
        -turn() <= 2 * d.value() <= turn(),
        -(16 * slack()) <= e.value() - d.value() <= 16 * slack(),
    ensures
        near(
            math::turn_spec(turned(mean, by).plus_spec(e)).value(),
            turned(math::turn_spec(mean.plus_spec(d)), by).value(),
            28 * slack(),
        ),
{
    turns_in_units();
    let t = slack();
    let c = by.value();
    let y = turned(mean, by);
    turned_is_near(mean, by);
    sum_is_near(y, e);
    let s = y.plus_spec(e);
    turn_is_near(s);
    let after = math::turn_spec(s).value();
    let want = mean.value() + c + d.value();
    // After the turn.
    near_itself(s.value(), y.value() + e.value(), t);
    near_through(after, s.value(), y.value() + e.value(), 2 * t, t);
    near_itself(e.value(), d.value(), 16 * t);
    near_sums(y.value(), mean.value() + c, 3 * t, e.value(), d.value(), 16 * t);
    near_through(after, y.value() + e.value(), want, 3 * t, 19 * t);
    // Before it, and then turned.
    sum_is_near(mean, d);
    let p = mean.plus_spec(d);
    turn_is_near(p);
    let m = math::turn_spec(p);
    near_itself(p.value(), mean.value() + d.value(), t);
    near_through(m.value(), p.value(), mean.value() + d.value(), 2 * t, t);
    turned_is_near(m, by);
    let before = turned(m, by).value();
    near_itself(c, c, 0);
    near_sums(m.value(), mean.value() + d.value(), 3 * t, c, c, 0);
    near_through(before, m.value() + c, want, 3 * t, 3 * t);
    near_back(before, want, 6 * t);
    near_through(after, want, before, 22 * t, 6 * t);
}

/// The least and the greatest deviation are deviations, and none lies beyond
/// them.
proof fn extremes_bound(angles: Seq<Single>, mean: Single)
    requires
        angles.len() > 0,
        forall|i: int| 0 <= i < angles.len() ==> in_turn(#[trigger] angles[i]),
        in_turn(mean),
    ensures
        ({
            let (low, high) = stats::extremes(angles, mean);
            &&& low.finite() && high.finite()
            &&& exists|i: int|
                0 <= i < angles.len() && low == stats::wrapped_degrees(
                    (#[trigger] angles[i]).minus_spec(mean),
                )
            &&& exists|i: int|
                0 <= i < angles.len() && high == stats::wrapped_degrees(
                    (#[trigger] angles[i]).minus_spec(mean),
                )
            &&& forall|i: int|
                0 <= i < angles.len() ==> low.rank() <= stats::wrapped_degrees(
                    (#[trigger] angles[i]).minus_spec(mean),
                ).rank() <= high.rank()
        }),
    decreases angles.len(),
{
    let front = angles.drop_last();
    let n = angles.len() - 1;
    let a = angles[n];
    assert(a == angles.last());
    wrapped_is_near(a, mean);
    let d = stats::wrapped_degrees(a.minus_spec(mean));
    let (low, high) = stats::extremes(angles, mean);
    if front.len() > 0 {
        assert forall|i: int| 0 <= i < front.len() implies in_turn(#[trigger] front[i]) by {
            assert(front[i] == angles[i]);
        }
        extremes_bound(front, mean);
        let (l, h) = stats::extremes(front, mean);
        let i = choose|i: int|
            0 <= i < front.len() && l == stats::wrapped_degrees(
                (#[trigger] front[i]).minus_spec(mean),
            );
        let j = choose|i: int|
            0 <= i < front.len() && h == stats::wrapped_degrees(
                (#[trigger] front[i]).minus_spec(mean),
            );
        assert(front[i] == angles[i]);
        assert(front[j] == angles[j]);
        assert forall|k: int| 0 <= k < angles.len() implies low.rank() <= stats::wrapped_degrees(
            (#[trigger] angles[k]).minus_spec(mean),
        ).rank() <= high.rank() by {
            if k < n {
                assert(front[k] == angles[k]);
            }
        }
    } else {
        assert(front =~= Seq::<Single>::empty());
        assert(stats::extremes(front, mean) == (
            constants::of(single::INFINITY_BITS),
            constants::of(single::INFINITY_BITS).neg_spec(),
        ));
        assert(low == d && high == d);
    }
}

/// The order of the angles does not matter to what is said of them.
pub proof fn order_does_not_matter(
    angles: Seq<Single>,
    other: Seq<Single>,
    mean: Single,
    std_dev: Single,
)
    requires
        angles.len() > 0,
        other.len() == angles.len(),
        forall|a: Single| #[trigger] angles.contains(a) <==> other.contains(a),
        forall|i: int| 0 <= i < angles.len() ==> in_turn(#[trigger] angles[i]),
        in_turn(mean),
    ensures
        ({
            let before = stats::summary_of(angles, mean, std_dev);
            let after = stats::summary_of(other, mean, std_dev);
            &&& after.count == before.count
            &&& after.mean == before.mean
            &&& after.std_dev == before.std_dev
            &&& after.min.same_value(before.min)
            &&& after.max.same_value(before.max)
            &&& after.range.same_value(before.range)
        }),
{
    assert forall|i: int| 0 <= i < other.len() implies in_turn(#[trigger] other[i]) by {
        assert(other.contains(other[i]));
        assert(angles.contains(other[i]));
    }
    extremes_bound(angles, mean);
    extremes_bound(other, mean);
    bounded_by(angles, other, mean);
    assert forall|a: Single| #[trigger] other.contains(a) implies angles.contains(a) by {}
    bounded_by(other, angles, mean);
    let (low, high) = stats::extremes(angles, mean);
    let (low2, high2) = stats::extremes(other, mean);
    sum_of_same_values(high2, low2.neg_spec(), high, low.neg_spec());
    extremes_in_half_turn(angles, mean);
    extremes_in_half_turn(other, mean);
    turns_in_units();
    sum_is_near(mean, low);
    sum_is_near(mean, high);
    sum_is_near(mean, low2);
    sum_is_near(mean, high2);
    sum_of_same_values(mean, low2, mean, low);
    sum_of_same_values(mean, high2, mean, high);
    turn_of_same_value(mean.plus_spec(low2), mean.plus_spec(low));
    turn_of_same_value(mean.plus_spec(high2), mean.plus_spec(high));
}

proof fn extremes_in_half_turn(angles: Seq<Single>, mean: Single)
    requires
        angles.len() > 0,
        forall|i: int| 0 <= i < angles.len() ==> in_turn(#[trigger] angles[i]),
        in_turn(mean),
    ensures
        ({
            let (low, high) = stats::extremes(angles, mean);
            &&& -turn() <= 2 * low.value() <= turn()
            &&& -turn() <= 2 * high.value() <= turn()
        }),
{
    extremes_bound(angles, mean);
    let (low, high) = stats::extremes(angles, mean);
    let i = choose|i: int|
        0 <= i < angles.len() && low == stats::wrapped_degrees(
            (#[trigger] angles[i]).minus_spec(mean),
        );
    let j = choose|i: int|
        0 <= i < angles.len() && high == stats::wrapped_degrees(
            (#[trigger] angles[i]).minus_spec(mean),
        );
    wrapped_is_near(angles[i], mean);
    wrapped_is_near(angles[j], mean);
}

/// Sums of numbers with the same values have the same value.
proof fn sum_of_same_values(a: Single, b: Single, c: Single, d: Single)
    requires
        a.finite(),
        b.finite(),
        c.finite(),
        d.finite(),
        a.rank() == c.rank(),
        b.rank() == d.rank(),
    ensures
        a.plus_spec(b).same_value(c.plus_spec(d)),
{
    let h = single::HIDDEN as nat;
    let inf = single::INFINITE as nat;
    single::rank_orders_values(a, c);
    single::rank_orders_values(b, d);
    let n = arithmetic::magnitude(a.value() + b.value());
    ieee::nearest_exists(h, inf, n, 1);
    ieee::nearest_of_held(h, inf, 0);
}

/// Angles with the same value are brought to the same value.
proof fn turn_of_same_value(x: Single, y: Single)
    requires
        x.finite(),
        y.finite(),
        x.rank() == y.rank(),
    ensures
        math::turn_spec(x).same_value(math::turn_spec(y)),
{
    turn_is_near(x);
    turn_is_near(y);
    if x != y {
        let h = single::HIDDEN as nat;
        let inf = single::INFINITE as nat;
        assert(x.magnitude() == 0 && y.magnitude() == 0);
        turns_in_units();
        div_mod::lemma_small_mod(0, turn() as nat);
        ieee::nearest_of_held(h, inf, 0);
    }
}

proof fn bounded_by(angles: Seq<Single>, other: Seq<Single>, mean: Single)
    requires
        angles.len() > 0,
        other.len() > 0,
        forall|a: Single| #[trigger] angles.contains(a) ==> other.contains(a),
        forall|i: int| 0 <= i < angles.len() ==> in_turn(#[trigger] angles[i]),
        forall|i: int| 0 <= i < other.len() ==> in_turn(#[trigger] other[i]),
        in_turn(mean),
    ensures
        stats::extremes(other, mean).0.rank() <= stats::extremes(angles, mean).0.rank(),
        stats::extremes(other, mean).1.rank() >= stats::extremes(angles, mean).1.rank(),
{
    extremes_bound(angles, mean);
    extremes_bound(other, mean);
    let (low, high) = stats::extremes(angles, mean);
    let i = choose|i: int|
        0 <= i < angles.len() && low == stats::wrapped_degrees(
            (#[trigger] angles[i]).minus_spec(mean),
        );
    let j = choose|i: int|
        0 <= i < angles.len() && high == stats::wrapped_degrees(
            (#[trigger] angles[i]).minus_spec(mean),
        );
    assert(angles.contains(angles[i]));
    assert(angles.contains(angles[j]));
    let k = choose|k: int| 0 <= k < other.len() && other[k] == angles[i];
    let l = choose|k: int| 0 <= k < other.len() && other[k] == angles[j];
    assert(other[k] == angles[i] && other[l] == angles[j]);
}

/// The circular standard deviation is in degrees: its square is minus twice
/// the logarithm of the resultant length, times the square of the degrees in a
/// radian (3282.806), to five digits. Angles that agree have none, and angles
/// that are spread all round have an infinite one. Logarithms are between
/// `-2^40` and `-2^-40`.
pub proof fn deviation_is_in_degrees(resultant: Single, log_resultant: Single)
    ensures
        ({
            let d = stats::deviation_spec(resultant, log_resultant);
            let one = constants::of(single::ONE_BITS);
            let least = constants::of(constants::EPSILON);
            &&& one.le_spec(resultant) ==> d.rank() == 0
            &&& resultant.le_spec(least) ==> d.infinite() && !d.negative()
            &&& (!one.le_spec(resultant) && !resultant.le_spec(least) && single_laws::between(
                log_resultant.neg_spec(),
                109,
                189,
            )) ==> {
                let square = d.value() * d.value();
                let twice = 2 * -log_resultant.value();
                &&& single_laws::normal(d)
                &&& 328279 * (twice * close::unit()) <= 100 * square
                &&& 100 * square <= 328282 * (twice * close::unit())
            }
        }),
{
    let one = constants::of(single::ONE_BITS);
    let least = constants::of(constants::EPSILON);
    let log = log_resultant.neg_spec();
    if !one.le_spec(resultant) && !resultant.le_spec(least) && single_laws::between(
        log,
        109,
        189,
    ) {
        let two = constants::of(math::TWO);
        let u = close::unit();
        let h = single::HIDDEN as nat;
        close::between_is_amount(log, 109, 189);
        assert(log.value() == -log_resultant.value());
        power2::lemma2_to64();
        power2::lemma_pow2_pos(single::UNIT as nat);
        power2::lemma_pow2_unfold(150);
        single_laws::power_pattern_value(h, 23, 150);
        single_laws::within_values(two, 150);
        assert(two.value() == 2 * u);
        let x = two.times_spec(log);
        assert(two.neg_spec().value() == -two.value());
        assert(two.neg_spec().times_spec(log_resultant) == x);
        single_laws::product_between(two, log, 150, 150, 109, 189);
        close::product_is_close(two, log);
        let l = log.value();
        assert((2 * u) * l == (2 * l) * u) by (nonlinear_arith);
        close::close_without(x.value(), 2 * l, 1, u);
        single_laws::within_more(x, 190, 249);
        power2::lemma_pow2_strictly_increases(49, 110);
        close::degrees_of_root(x);
        let v = x.value();
        let d = x.sqrt_spec().times_spec(constants::of(math::DEGREES_PER_RADIAN));
        let square = d.value() * d.value();
        let e = (2 * l) * u;
        close::close_times(v, 2 * l, 1, u);
        assert(1 * e == e) by (nonlinear_arith);
        assert(e >= 0);
        assert(328280 * (v * u) <= 100 * square);
        assert(2 * -log_resultant.value() == 2 * l);
    }
}

} // verus!
