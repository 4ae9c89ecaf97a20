//! What the looks at a bearing and their spread stand for.
use crate::arithmetic;
use crate::close;
use crate::constants;
use crate::ieee;
use crate::rdf::bearing;
use crate::rdf::bearing_calculator_base;
use crate::rdf::bearing_calculator_base::BaseState;
use crate::rdf::bearing_correlation;
use crate::rdf::bearing_laws;
use crate::rdf::measure_laws;
use crate::rdf::north_ref_common;
use crate::signal_processing::math;
use crate::single;
use crate::single::Single;
use crate::single_laws;
use vstd::arithmetic::power2;
use vstd::prelude::*;

verus! {

/// Two, in units.
proof fn two_in_units()
    ensures
        constants::of(math::TWO).value() == 2 * close::unit(),
        single_laws::between(constants::of(math::TWO), 150, 150),
        close::unit() > 0,
{
    power2::lemma2_to64();
    power2::lemma_pow2_pos(single::UNIT as nat);
    power2::lemma_pow2_unfold(150);
    single_laws::power_pattern_value(single::HIDDEN as nat, 23, 150);
    single_laws::within_values(constants::of(math::TWO), 150);
}

/// Interference decorrelates over the sample rate divided by twice the
/// bandwidth of the filter, and over no less than one sample.
pub proof fn decorrelation_follows_the_bandwidth(sample_rate: Single, bandwidth: Single)
    requires
        single_laws::between(sample_rate, 139, 179),
        single_laws::between(bandwidth, 129, 169),
    ensures
        ({
            let c = bearing_calculator_base::decorrelation_spec(sample_rate, bandwidth);
            let twice = 2 * bandwidth.value();
            let u = close::unit();
            &&& c.finite()
            &&& c.value() >= u
            &&& 0x80_0000 * sample_rate.value() >= 0x80_0008 * twice ==> close::close(
                c.value() * twice,
                sample_rate.value() * u,
                4,
            )
            &&& 0x80_0000 * sample_rate.value() <= 0x7f_fff8 * twice ==> c.value() == u
        }),
{
    let u = close::unit();
    let h = single::HIDDEN as nat;
    let two = constants::of(math::TWO);
    let one = constants::of(single::ONE_BITS);
    let eps = constants::of(constants::EPSILON);
    two_in_units();
    power2::lemma2_to64();
    single_laws::value_of_one();
    close::between_is_amount(sample_rate, 139, 179);
    close::between_is_amount(bandwidth, 129, 169);
    single_laws::power_pattern_value(h, 23, 126);
    power2::lemma_pow2_strictly_increases(126, 129);
    single::rank_orders_values(bandwidth, eps);
    assert(bandwidth.max_spec(eps) == bandwidth);
    single_laws::product_between(two, bandwidth, 150, 150, 129, 169);
    let x = two.times_spec(bandwidth);
    close::between_is_amount(two, 150, 150);
    close::between_is_amount(x, 130, 170);
    close::quotient_between(sample_rate, x, 139, 179, 130, 170);
    let q = sample_rate.over_spec(x);
    close::between_is_amount(q, 118, 198);
    close::product_is_close(two, bandwidth);
    close::quotient_is_close(sample_rate, x);
    let (b, r, xv, qv) = (bandwidth.value(), sample_rate.value(), x.value(), q.value());
    let t = 2 * b;
    assert((2 * u) * b == t * u) by (nonlinear_arith)
        requires
            t == 2 * b,
    ;
    close::close_without(xv, t, 1, u);
    close::close_back(xv, t, 1);
    close::close_times(t, xv, 2, qv);
    assert(t * qv == qv * t && xv * qv == qv * xv) by (nonlinear_arith);
    close::close_chain(qv * t, qv * xv, r * u, 2, 1);
    single::rank_orders_values(q, one);
    single::rank_orders_values(one, q);
    if 0x80_0000 * r >= 0x80_0008 * t {
        assert(qv >= u) by (nonlinear_arith)
            requires
                0x80_0000 * (r * u - qv * t) <= 4 * (r * u),
                0x80_0000 * r >= 0x80_0008 * t,
                t > 0,
                u > 0,
        ;
    }
    if 0x80_0000 * r <= 0x7f_fff8 * t {
        assert(qv <= u) by (nonlinear_arith)
            requires
                0x80_0000 * (qv * t - r * u) <= 4 * (r * u),
                0x80_0000 * r <= 0x7f_fff8 * t,
                t > 0,
                r > 0,
                u > 0,
        ;
    }
}

/// One millionth, in units.
pub proof fn millionth_in_units()
    ensures
        ({
            let p = power2::pow2(106) as int;
            let micro = constants::of(north_ref_common::MILLIONTH);
            &&& p > 0
            &&& micro.value() == 0x86_37bd * p
            &&& close::unit() == 0x800_0000_0000 * p
            &&& single_laws::between(micro, 129, 130)
        }),
{
    let p = power2::pow2(106) as int;
    let micro = constants::of(north_ref_common::MILLIONTH);
    power2::lemma_pow2_pos(106);
    ieee::pattern_parts(single::HIDDEN as nat, 106, 0x86_37bd);
    assert(power2::pow2(23) == 0x80_0000 && power2::pow2(24) == 0x100_0000) by {
        power2::lemma2_to64();
    }
    assert(power2::pow2(43) == 0x800_0000_0000) by {
        power2::lemma2_to64_rest();
    }
    power2::lemma_pow2_adds(43, 106);
    power2::lemma_pow2_adds(23, 106);
    power2::lemma_pow2_adds(24, 106);
    single_laws::within_values(micro, 130);
    let low = power2::pow2(129) as int;
    let high = power2::pow2(130) as int;
    assert(low == 0x80_0000 * p);
    assert(high == 0x100_0000 * p);
    assert(micro.value() == 0x86_37bd * p);
    assert(low <= micro.value() && micro.value() <= high);
}

/// The configured adjustment is in microseconds: a million times the
/// adjustment in samples is the microseconds times the sample rate, to six
/// digits, and a negative one is as far the other way.
pub proof fn adjustment_is_in_microseconds(us: Single, sample_rate: Single)
    requires
        single_laws::between(us, 119, 179),
        single_laws::between(sample_rate, 139, 179),
    ensures
        ({
            let a = bearing_calculator_base::adjustment_spec(us, sample_rate);
            let exact = us.value() * sample_rate.value();
            let made = 1000000 * (a.value() * close::unit());
            &&& 999999 * exact <= 1000000 * made
            &&& 1000000 * made <= 1000001 * exact
            &&& bearing_calculator_base::adjustment_spec(us.neg_spec(), sample_rate)
                == a.neg_spec()
        }),
{
    let u = close::unit();
    let micro = constants::of(north_ref_common::MILLIONTH);
    power2::lemma_pow2_pos(single::UNIT as nat);
    millionth_in_units();
    let p = power2::pow2(106) as int;
    close::between_is_amount(us, 119, 179);
    close::between_is_amount(sample_rate, 139, 179);
    close::between_is_amount(micro, 129, 130);
    single_laws::product_between(us, micro, 119, 179, 129, 130);
    let x = us.times_spec(micro);
    single_laws::product_between(x, sample_rate, 99, 160, 139, 179);
    close::between_is_amount(x, 99, 160);
    close::product_of_three_is_close(us, micro, sample_rate);
    let a = x.times_spec(sample_rate);
    bearing_laws::negated_product(us, micro);
    bearing_laws::negated_product(x, sample_rate);
    let (av, m, s, r) = (a.value(), micro.value(), us.value(), sample_rate.value());
    let exact = s * r;
    assert(s * m * r == exact * m) by (nonlinear_arith)
        requires
            exact == s * r,
    ;
    assert(av * (u * u) == (av * u) * u) by (nonlinear_arith);
    adjustment_in_units(av * u, exact, m, u, p);
}

proof fn adjustment_in_units(au: int, exact: int, m: int, u: int, p: int)
    requires
        p > 0,
        exact >= 0,
        m == 0x86_37bd * p,
        u == 0x800_0000_0000 * p,
        close::close(au * u, exact * m, 3),
    ensures
        999999 * exact <= 1000000 * (1000000 * au),
        1000000 * (1000000 * au) <= 1000001 * exact,
{
    let ep = exact * p;
    let ap = au * p;
    assert(au * u == 0x800_0000_0000 * ap && exact * m == 0x86_37bd * ep) by (nonlinear_arith)
        requires
            u == 0x800_0000_0000 * p,
            m == 0x86_37bd * p,
            ep == exact * p,
            ap == au * p,
    ;
    assert(ep >= 0) by (nonlinear_arith)
        requires
            ep == exact * p,
            exact >= 0,
            p > 0,
    ;
    assert(999999 * ep <= 1000000000000 * ap && 1000000000000 * ap <= 1000001 * ep);
    assert(999999 * exact <= 1000000000000 * au && 1000000000000 * au <= 1000001 * exact)
        by (nonlinear_arith)
        requires
            ep == exact * p,
            ap == au * p,
            p > 0,
            999999 * ep <= 1000000000000 * ap,
            1000000000000 * ap <= 1000001 * ep,
    ;
}

/// Correlated interference takes looks away: with a lag correlation `rho` the
/// looks shrink by the factor `(1 - rho) / (1 + rho)`, but not below one, up
/// to a few roundings.
pub proof fn correlation_takes_looks_away(base: BaseState, power: Single, cos: Single, rho: Single)
    requires
        base.work.len() >= 8 * base.look_lag(),
        base.residual_correlation(power, cos) == Some(rho),
        single_laws::between(rho, 129, 149),
        100 * rho.value() <= 96 * close::unit(),
        single_laws::between(base.independent_looks(), 149, 189),
    ensures
        ({
            let u = close::unit();
            let looks = base.independent_looks().value();
            let e = base.effective_looks(power, cos);
            let left = looks * (u - rho.value());
            let by = u + rho.value();
            &&& e.value() >= u
            &&& e.value() > u ==> close::close(e.value() * by, left, 8)
            &&& 0x80_0000 * left >= 0x80_0010 * (by * u) ==> close::close(
                e.value() * by,
                left,
                8,
            )
        }),
{
    let u = close::unit();
    let one = constants::of(single::ONE_BITS);
    let looks = base.independent_looks();
    power2::lemma2_to64();
    power2::lemma_pow2_pos(single::UNIT as nat);
    single_laws::value_of_one();
    close::between_is_amount(rho, 129, 149);
    close::between_is_amount(looks, 149, 189);
    single_laws::within_values(one, 149);
    single_laws::within_values(rho, 149);
    single::rank_orders_values(rho, one);
    single_laws::rest_in_unit_range(rho);
    let rest = one.minus_spec(rho);
    single_laws::rank_within_one(rest);
    close::difference_is_close(one, rho);
    let a = u - rho.value();
    assert(1 * a == a) by (nonlinear_arith);
    power2::lemma_pow2_adds(6, 143);
    power2::lemma_pow2_pos(143);
    assert(single_laws::between(rest, 143, 149));
    single_laws::sum_within(one, rho, 149);
    let more = one.plus_spec(rho);
    close::sum_is_close(one, rho);
    single_laws::sum_is_at_least(one, rho, one);
    assert(single_laws::between(more, 149, 150));
    close::between_is_amount(rest, 143, 149);
    close::between_is_amount(more, 149, 150);
    single_laws::product_between(looks, rest, 149, 189, 143, 149);
    let x = looks.times_spec(rest);
    close::between_is_amount(x, 143, 189);
    close::quotient_between(x, more, 143, 189, 149, 150);
    let q = x.over_spec(more);
    close::between_is_amount(q, 142, 189);
    close::product_is_close(looks, rest);
    close::quotient_is_close(x, more);
    let b = u + rho.value();
    let (qv, xv, lv, rv, mv) = (
        q.value(),
        x.value(),
        looks.value(),
        rest.value(),
        more.value(),
    );
    // q * more ~ x * u ~ looks * rest ~ looks * a; more ~ b.
    close::close_times(rv, a, 1, lv);
    assert(rv * lv == lv * rv && a * lv == lv * a) by (nonlinear_arith);
    close::close_chain(xv * u, lv * rv, lv * a, 1, 1);
    close::close_chain(qv * mv, xv * u, lv * a, 1, 3);
    close::close_back(mv, b, 1);
    close::close_times(b, mv, 2, qv);
    assert(b * qv == qv * b && mv * qv == qv * mv) by (nonlinear_arith);
    close::close_chain(qv * b, qv * mv, lv * a, 2, 5);
    let left = lv * a;
    if 0x80_0000 * left >= 0x80_0010 * (b * u) {
        assert(qv >= u) by (nonlinear_arith)
            requires
                0x80_0000 * (left - qv * b) <= 8 * left,
                0x80_0000 * left >= 0x80_0010 * (b * u),
                b > 0,
                u > 0,
        ;
    }
    single::rank_orders_values(q, one);
    single::rank_orders_values(one, q);
}

/// The sum of the squares of differences from a mean.
pub open spec fn squares_about(phases: Seq<Single>, mean: Single) -> int
    decreases phases.len(),
{
    if phases.len() == 0 {
        0
    } else {
        let d = bearing::wrapped_diff(phases.last(), mean).value();
        squares_about(phases.drop_last(), mean) + d * d
    }
}

/// The variance of phases is the mean of the squares of their differences from
/// the mean phase: times their number it is the sum of those squares, up to
/// two roundings for each and three more.
pub proof fn spread_is_the_mean_square(phases: Seq<Single>, mean: Single)
    requires
        1 <= phases.len() <= 64,
        forall|i: int|
            0 <= i < phases.len() ==> single_laws::between(
                bearing::wrapped_diff(#[trigger] phases[i], mean).abs_spec(),
                109,
                159,
            ) && bearing::wrapped_diff(phases[i], mean).finite(),
    ensures
        ({
            let n = phases.len() as int;
            let v = bearing_correlation::phase_variance_spec(phases, mean);
            &&& close::amount(v)
            &&& close::close(
                (v.value() * n) * close::unit(),
                squares_about(phases, mean),
                2 * n + 4,
            )
        }),
{
    let u = close::unit();
    let n = phases.len() as int;
    let squares = bearing_correlation::squared_distances(phases, mean);
    power2::lemma_pow2_pos(single::UNIT as nat);
    squares_in_units(phases, mean);
    measure_laws::sums_add_up(squares);
    let sum = math::sum_of(squares);
    let total = measure_laws::total(squares);
    let exact = squares_about(phases, mean);
    first_is_positive(phases, mean);
    power2::lemma_pow2_pos(69);
    close::close_is_positive(sum.value(), total, 2 * n);
    // The sum is between the first square and all of them.
    bearing_laws::count_between(n);
    let count = Single::from_integer_spec(n);
    close::between_is_amount(count, 149, 173);
    power2::lemma2_to64();
    power2::lemma_pow2_adds(7, 229);
    assert(n * power2::pow2(229) <= 0x40 * power2::pow2(229)) by (nonlinear_arith)
        requires
            n <= 0x40,
            power2::pow2(229) >= 0,
    ;
    assert(sum.value() <= 2 * total) by (nonlinear_arith)
        requires
            0x80_0000 * (sum.value() - total) <= (2 * n) * total,
            n <= 64,
            total >= 0,
    ;
    assert(2 * sum.value() >= total) by (nonlinear_arith)
        requires
            0x80_0000 * (total - sum.value()) <= (2 * n) * total,
            n <= 64,
            total >= 0,
    ;
    power2::lemma_pow2_unfold(69);
    single_laws::within_values(sum, 236);
    assert(close::amount(sum)) by {
        if sum.negative() {
            ieee::pattern_value_increases(single::HIDDEN as nat, 0, sum.magnitude() as nat);
        }
    }
    assert(single_laws::between(sum, 68, 236));
    close::quotient_between(sum, count, 68, 236, 149, 173);
    close::quotient_is_close(sum, count);
    let v = sum.over_spec(count);
    close::between_is_amount(v, 44, 236);
    let vv = v.value();
    assert(vv * (n * u) == (vv * n) * u) by (nonlinear_arith);
    close::close_times(sum.value(), total, 2 * n, u);
    close::close_chain(total * u, exact, exact, 1, 0);
    close::close_chain((vv * n) * u, sum.value() * u, total * u, 1, 2 * n);
    close::close_chain((vv * n) * u, total * u, exact, 2 * n + 2, 1);
}

proof fn first_is_positive(phases: Seq<Single>, mean: Single)
    requires
        1 <= phases.len(),
        forall|i: int|
            0 <= i < phases.len() ==> single_laws::between(
                bearing::wrapped_diff(#[trigger] phases[i], mean).abs_spec(),
                109,
                159,
            ) && bearing::wrapped_diff(phases[i], mean).finite(),
    ensures
        measure_laws::total(bearing_correlation::squared_distances(phases, mean))
            >= power2::pow2(69),
    decreases phases.len(),
{
    let squares = bearing_correlation::squared_distances(phases, mean);
    let front = phases.drop_last();
    assert(squares.drop_last() =~= bearing_correlation::squared_distances(front, mean));
    assert(phases.last() == phases[phases.len() - 1]);
    square_is_close(bearing::wrapped_diff(phases.last(), mean));
    assert forall|i: int| 0 <= i < front.len() implies single_laws::between(
        bearing::wrapped_diff(#[trigger] front[i], mean).abs_spec(),
        109,
        159,
    ) && bearing::wrapped_diff(front[i], mean).finite() by {
        assert(front[i] == phases[i]);
    }
    power2::lemma_pow2_pos(69);
    if front.len() > 0 {
        first_is_positive(front, mean);
    } else {
        assert(measure_laws::total(squares.drop_last()) == 0);
    }
}

/// A square is close to the square of the value.
pub proof fn square_is_close(d: Single)
    requires
        d.finite(),
        single_laws::between(d.abs_spec(), 109, 159),
    ensures
        ({
            let s = d.times_spec(d);
            &&& close::amount(s)
            &&& single_laws::between(s, 69, 169)
            &&& close::close(s.value() * close::unit(), d.value() * d.value(), 1)
        }),
{
    let m = d.abs_spec();
    close::between_is_amount(m, 109, 159);
    single_laws::product_between(m, m, 109, 159, 109, 159);
    close::product_is_close(m, m);
    assert(m.value() == arithmetic::magnitude(d.value()));
    assert(d.times_spec(d) == m.times_spec(m));
    let (x, y) = (m.value(), d.value());
    assert(x * x == y * y) by (nonlinear_arith)
        requires
            x == y || x == -y,
    ;
    close::between_is_amount(m.times_spec(m), 69, 169);
}

proof fn squares_in_units(phases: Seq<Single>, mean: Single)
    requires
        phases.len() <= 64,
        forall|i: int|
            0 <= i < phases.len() ==> single_laws::between(
                bearing::wrapped_diff(#[trigger] phases[i], mean).abs_spec(),
                109,
                159,
            ) && bearing::wrapped_diff(phases[i], mean).finite(),
    ensures
        ({
            let squares = bearing_correlation::squared_distances(phases, mean);
            &&& forall|i: int|
                0 <= i < squares.len() ==> close::amount(#[trigger] squares[i])
                    && single_laws::within(squares[i], 229)
            &&& close::close(
                measure_laws::total(squares) * close::unit(),
                squares_about(phases, mean),
                1,
            )
        }),
    decreases phases.len(),
{
    let u = close::unit();
    let squares = bearing_correlation::squared_distances(phases, mean);
    assert forall|i: int| 0 <= i < squares.len() implies close::amount(#[trigger] squares[i])
        && single_laws::within(squares[i], 229) by {
        assert(squares[i] == bearing::wrapped_diff(phases[i], mean).times_spec(
            bearing::wrapped_diff(phases[i], mean),
        ));
        square_is_close(bearing::wrapped_diff(phases[i], mean));
        single_laws::within_more(squares[i], 169, 229);
    }
    if phases.len() == 0 {
        assert(0 * u == 0);
        assert(1 * 0 == 0);
    } else {
        let front = phases.drop_last();
        assert forall|i: int| 0 <= i < front.len() implies single_laws::between(
            bearing::wrapped_diff(#[trigger] front[i], mean).abs_spec(),
            109,
            159,
        ) && bearing::wrapped_diff(front[i], mean).finite() by {
            assert(front[i] == phases[i]);
        }
        squares_in_units(front, mean);
        assert(squares.drop_last() =~= bearing_correlation::squared_distances(front, mean));
        assert(phases.last() == phases[phases.len() - 1]);
        let d = bearing::wrapped_diff(phases.last(), mean);
        square_is_close(d);
        assert(squares.last() == d.times_spec(d));
        let t = measure_laws::total(squares.drop_last());
        let s = squares.last().value();
        close::close_sums(
            t * u,
            squares_about(front, mean),
            s * u,
            d.value() * d.value(),
            1,
        );
        assert((t + s) * u == t * u + s * u) by (nonlinear_arith);
    }
}

} // verus!
