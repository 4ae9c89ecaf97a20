//! What the figures of a bearing stand for.
use crate::arithmetic;
use crate::close;
use crate::config;
use crate::config::ConfidenceConfig;
use crate::constants;
use crate::ieee;
use crate::rdf::bearing;
use crate::rdf::bearing::ConfidenceMetrics;
use crate::rdf::bearing_calculator_base;
use crate::rdf::bearing_calculator_base::BaseState;
use crate::rdf::bearing_zero_crossing;
use crate::rdf::north_ref::NorthTick;
use crate::signal_processing::math;
use crate::single;
use crate::single::Single;
use crate::single_laws;
use vstd::arithmetic::power2;
use vstd::prelude::*;

verus! {

/// Zero, or a number between two powers of two.
pub open spec fn zero_or_between(x: Single, r: nat, s: nat) -> bool {
    x == constants::of(0) || single_laws::between(x, r, s)
}

/// Zero over a positive number is zero.
pub proof fn zero_over(x: Single)
    requires
        close::amount(x),
        x.rank() > 0,
    ensures
        constants::of(0).over_spec(x) == constants::of(0),
{
    close::amount_has_value(x);
    let u = power2::pow2(single::UNIT as nat);
    let v = x.value() as nat;
    assert(0 * u == 0 && 0 * v == 0);
    ieee::nearest_of_value(single::HIDDEN as nat, single::INFINITE as nat, 0, v, 0);
}

/// The uncertainty of a bearing is made of two terms in quadrature, in
/// degrees: its square is the variance of a look over the number of looks,
/// plus the variance of the reference, times the square of the degrees in a
/// radian (3282.806), to six digits. The variances are zero, or between
/// `2^-60` and `2^60`.
pub proof fn uncertainty_adds_in_quadrature(spread: Single, looks: Single, reference: Single)
    requires
        zero_or_between(spread, 89, 209),
        zero_or_between(reference, 89, 209),
        spread.value() > 0 || reference.value() > 0,
        single_laws::between(looks, 149, 189),
    ensures
        bearing::uncertainty_spec(Some(spread), looks, Some(reference)) matches Some(y) && {
            let u = close::unit();
            let variance = spread.value() * u + reference.value() * looks.value();
            let square = y.value() * y.value();
            &&& single_laws::normal(y)
            &&& 328279 * (variance * u) <= 100 * (square * looks.value())
            &&& 100 * (square * looks.value()) <= 328282 * (variance * u)
        },
{
    let u = close::unit();
    let q = spread.over_spec(looks);
    let x = q.plus_spec(reference);
    let (s, r, n) = (spread.value(), reference.value(), looks.value());
    close::between_is_amount(looks, 149, 189);
    power2::lemma_pow2_pos(single::UNIT as nat);
    power2::lemma_pow2_pos(49);
    power2::lemma_pow2_strictly_increases(49, 89);
    if spread == constants::of(0) {
        zero_over(looks);
        close::amount_has_value(spread);
        assert(0 * u == 0 && 0 * n == 0);
    } else {
        close::between_is_amount(spread, 89, 209);
        close::quotient_between(spread, looks, 89, 209, 149, 189);
        close::quotient_is_close(spread, looks);
        close::between_is_amount(q, 49, 209);
    }
    if reference != constants::of(0) {
        close::between_is_amount(reference, 89, 209);
    }
    close::amount_has_value(q);
    close::amount_has_value(reference);
    assert(close::close(q.value() * n, s * u, 1));
    single_laws::within_values(q, 209);
    single_laws::within_values(reference, 209);
    single_laws::sum_within(q, reference, 209);
    close::sum_is_close(q, reference);
    single_laws::sum_is_at_least(q, reference, q);
    single_laws::sum_is_at_least(q, reference, reference);
    single_laws::within_more(x, 210, 249);
    assert(single_laws::between(x, 49, 249));
    close::degrees_of_root(x);
    let y = x.sqrt_spec().times_spec(constants::of(math::DEGREES_PER_RADIAN));
    let v = x.value();
    // x * n is close to (q + r) * n, which is close to s * u + r * n.
    close::close_times(v, q.value() + r, 1, n);
    assert(r * n >= 0) by (nonlinear_arith)
        requires
            r >= 0,
            n >= 0,
    ;
    assert(close::close(r * n, r * n, 1)) by {
        assert(1 * (r * n) == r * n) by (nonlinear_arith);
    }
    close::close_sums(q.value() * n, s * u, r * n, r * n, 1);
    assert((q.value() + r) * n == q.value() * n + r * n) by (nonlinear_arith);
    let e = s * u + r * n;
    close::close_chain(v * n, (q.value() + r) * n, e, 1, 1);
    let yy = y.value() * y.value();
    let a = yy * n;
    let b = (v * n) * u;
    let c = e * u;
    assert(328280 * b <= 100 * a && 100 * a <= 328281 * b) by (nonlinear_arith)
        requires
            a == yy * n,
            b == (v * n) * u,
            328280 * (v * u) <= 100 * yy,
            100 * yy <= 328281 * (v * u),
            n >= 0,
    {
        assert(b == (v * u) * n) by (nonlinear_arith)
            requires
                b == (v * n) * u,
        ;
    }
    close::close_times(v * n, e, 3, u);
    assert(c >= 0);
}

/// The uncertainty of a bearing does not fall as the variance of a look or of
/// the reference grows, nor as the looks get fewer. So it is never below what
/// the reference alone stands for.
pub proof fn uncertainty_does_not_fall(
    spread: Single,
    looks: Single,
    reference: Single,
    wider_spread: Single,
    fewer_looks: Single,
    worse_reference: Single,
)
    requires
        close::amount(spread),
        close::amount(looks),
        close::amount(reference),
        close::amount(wider_spread),
        close::amount(fewer_looks),
        close::amount(worse_reference),
        spread.le_spec(wider_spread),
        fewer_looks.le_spec(looks),
        fewer_looks.rank() > 0,
        reference.le_spec(worse_reference),
    ensures
        match (
            bearing::uncertainty_spec(Some(spread), looks, Some(reference)),
            bearing::uncertainty_spec(Some(wider_spread), fewer_looks, Some(worse_reference)),
        ) {
            (Some(a), Some(b)) => a.le_spec(b) && constants::of(0).le_spec(a),
            _ => false,
        },
{
    let a = spread.over_spec(looks);
    let b = wider_spread.over_spec(fewer_looks);
    single_laws::over_in_order(spread, wider_spread, looks);
    close::quotients_reverse(wider_spread, fewer_looks, looks);
    single_laws::plus_in_order(reference, worse_reference, a);
    single_laws::plus_in_order(a, b, worse_reference);
    plus_commutes(worse_reference, a);
    plus_commutes(worse_reference, b);
    close::roots_in_order(a.plus_spec(reference), b.plus_spec(worse_reference));
    close::degrees_in_units();
    close::products_in_order(
        a.plus_spec(reference).sqrt_spec(),
        b.plus_spec(worse_reference).sqrt_spec(),
        constants::of(math::DEGREES_PER_RADIAN),
    );
}

/// The order of two terms does not matter.
pub proof fn plus_commutes(a: Single, b: Single)
    requires
        single_laws::nonnegative(a),
        single_laws::nonnegative(b),
    ensures
        a.plus_spec(b) == b.plus_spec(a),
{
}

/// Looks that agree exactly leave the uncertainty of the reference, however
/// many there are.
pub proof fn agreeing_looks_leave_the_reference(looks: Single, other: Single, reference: Single)
    requires
        close::amount(looks),
        close::amount(other),
        looks.rank() > 0,
        other.rank() > 0,
    ensures
        bearing::uncertainty_spec(Some(constants::of(0)), looks, Some(reference))
            == bearing::uncertainty_spec(Some(constants::of(0)), other, Some(reference)),
{
    zero_over(looks);
    zero_over(other);
}

/// The verdict on the signal follows its strength. A full strength is a signal
/// under every configuration that is accepted; what is stronger than a signal
/// is one; what is below the floor is none, and neither is a strength that is
/// not a number. Where no floor is configured it lies at a twentieth. The
/// bearings and the metrics are passed on as they are.
pub proof fn verdict_follows_the_strength(
    confidence: ConfidenceConfig,
    smoothed: Single,
    raw: Single,
    metrics: ConfidenceMetrics,
    other_smoothed: Single,
    other_raw: Single,
    other: ConfidenceMetrics,
)
    requires
        bearing::confidence_fault(confidence) is None,
    ensures
        ({
            let m = bearing_calculator_base::measurement_spec(confidence, smoothed, raw, metrics);
            let o = bearing_calculator_base::measurement_spec(
                confidence,
                other_smoothed,
                other_raw,
                other,
            );
            let s = metrics.signal_strength;
            let u = close::unit();
            &&& constants::of(single::ONE_BITS).le_spec(s) ==> m.signal_present
            &&& m.signal_present && s.le_spec(other.signal_strength) ==> o.signal_present
            &&& s.nan() ==> !m.signal_present
            &&& match confidence.min_signal_strength {
                Some(floor) => {
                    &&& s.lt_spec(floor) ==> !m.signal_present
                    &&& !s.lt_spec(floor) && !s.nan() ==> m.signal_present
                },
                None => s.finite() ==> {
                    &&& 1000000 * s.value() <= 49999 * u ==> !m.signal_present
                    &&& 1000000 * s.value() >= 50001 * u ==> m.signal_present
                },
            }
            &&& m.bearing_degrees == smoothed
            &&& m.raw_bearing == raw
            &&& m.metrics == metrics
        }),
{
    let h = single::HIDDEN as nat;
    let floor = constants::of(config::MIN_SIGNAL_STRENGTH);
    let s = metrics.signal_strength;
    power2::lemma2_to64();
    power2::lemma_pow2_adds(28, 121);
    power2::lemma_pow2_pos(121);
    ieee::pattern_parts(h, 121, 0xcc_cccd);
    assert(floor.value() == 0xcc_cccd * power2::pow2(121));
    assert(close::unit() == 0x1000_0000 * power2::pow2(121));
    if s.finite() {
        single::rank_orders_values(s, floor);
        single::rank_orders_values(floor, s);
    }
}

/// The samples since a tick at a position in the buffer: the way from the tick
/// to the start of the buffer, plus the position, less the delay of the
/// filter, plus the configured adjustment, less the sub-sample part of the
/// tick. All of them within `2^r` units, the sum is off by no more than four
/// roundings.
pub proof fn elapsed_samples_add_up(base: BaseState, tick: NorthTick, index: Single, r: nat)
    requires
        149 <= r <= 173,
        -power2::pow2((r - 149) as nat) <= base.start - tick.sample_index <= power2::pow2(
            (r - 149) as nat,
        ),
        base.taps.len() >= 1,
        (base.taps.len() - 1) / 2 <= power2::pow2((r - 149) as nat),
        single_laws::within(index, r),
        single_laws::within(base.adjustment, r),
        single_laws::within(tick.fractional_sample_offset, r),
    ensures
        ({
            let t = base.since_tick(tick, index);
            let whole = base.start - tick.sample_index - (base.taps.len() - 1) / 2;
            let exact = whole * close::unit() + index.value() + base.adjustment.value()
                - tick.fractional_sample_offset.value();
            let tolerance = 32 * power2::pow2(r);
            &&& t.finite()
            &&& -tolerance <= 0x100_0000 * (t.value() - exact) <= tolerance
        }),
{
    let u = close::unit();
    let m = base.start - tick.sample_index;
    let d = (base.taps.len() - 1) / 2;
    let j = (r - 149) as nat;
    power2::lemma2_to64();
    if j < 24 {
        power2::lemma_pow2_strictly_increases(j, 24);
    }
    single_laws::count_is_exact(m);
    single_laws::count_is_exact(d);
    single_laws::count_within_power(m, j);
    single_laws::count_within_power(d, j);
    let a = Single::from_integer_spec(m);
    let b = Single::from_integer_spec(d);
    let f = tick.fractional_sample_offset;
    single_laws::within_values(a, r);
    single_laws::within_values(b, r);
    single_laws::within_values(index, r);
    single_laws::within_values(base.adjustment, r);
    single_laws::within_values(f, r);
    assert(b.neg_spec().value() == -b.value());
    assert(f.neg_spec().value() == -f.value());
    let p = power2::pow2(r) as int;
    sum_step(a, index, r);
    let a1 = a.plus_spec(index);
    sum_step(a1, b.neg_spec(), r);
    let a2 = a1.minus_spec(b);
    sum_step(a2, base.adjustment, r);
    let a3 = a2.plus_spec(base.adjustment);
    sum_step(a3, f.neg_spec(), r);
    assert((m - d) * u == m * u - d * u) by (nonlinear_arith);
}

/// One of a few sums of amounts within `2^r` units.
proof fn sum_step(a: Single, b: Single, r: nat)
    requires
        149 <= r <= 173,
        a.finite(),
        b.finite(),
        -6 * power2::pow2(r) <= a.value() <= 6 * power2::pow2(r),
        -power2::pow2(r) <= b.value() <= power2::pow2(r),
    ensures
        a.plus_spec(b).finite(),
        -8 * power2::pow2(r) <= 0x100_0000 * (a.plus_spec(b).value() - (a.value() + b.value())),
        0x100_0000 * (a.plus_spec(b).value() - (a.value() + b.value())) <= 8 * power2::pow2(r),
{
    power2::lemma2_to64();
    power2::lemma_pow2_adds(3, r);
    single_laws::sum_is_close(a, b, r + 3);
}

/// Flipping the sign of a dividend flips that of the quotient.
pub proof fn negated_quotient(a: Single, b: Single)
    requires
        a.finite(),
        close::amount(b),
        b.rank() > 0,
    ensures
        a.neg_spec().over_spec(b) == a.over_spec(b).neg_spec(),
        a.over_spec(b).negative() == a.negative(),
        !a.over_spec(b).nan(),
{
    ieee::nearest_exists(
        single::HIDDEN as nat,
        single::INFINITE as nat,
        arithmetic::magnitude(a.value()) * power2::pow2(single::UNIT as nat),
        arithmetic::magnitude(b.value()),
    );
    assert(arithmetic::magnitude(a.neg_spec().value()) == arithmetic::magnitude(a.value()));
}

/// Flipping the sign of a factor flips that of the product.
pub proof fn negated_product(a: Single, b: Single)
    requires
        a.finite(),
        b.finite(),
    ensures
        a.neg_spec().times_spec(b) == a.times_spec(b).neg_spec(),
        a.times_spec(b).negative() == (a.negative() != b.negative()),
        !a.times_spec(b).nan(),
{
    ieee::nearest_exists(
        single::HIDDEN as nat,
        single::INFINITE as nat,
        arithmetic::magnitude(a.value()) * arithmetic::magnitude(b.value()),
        power2::pow2(single::UNIT as nat),
    );
    assert(arithmetic::magnitude(a.neg_spec().value()) == arithmetic::magnitude(a.value()));
}

/// The angle of a time in a rotation.
pub open spec fn angle_in_rotation(t: Single, period: Single) -> Single {
    t.over_spec(period).times_spec(constants::of(math::TWO)).times_spec(
        constants::of(constants::PI),
    )
}

proof fn angle_of_amount(t: Single, period: Single)
    requires
        single_laws::between(t, 109, 179),
        single_laws::between(period, 139, 179),
    ensures
        ({
            let a = angle_in_rotation(t, period);
            &&& single_laws::normal(a)
            &&& 6283180 * (t.value() * close::unit()) <= 1000000 * (a.value() * period.value())
            &&& 1000000 * (a.value() * period.value()) <= 6283191 * (t.value() * close::unit())
        }),
{
    let u = close::unit();
    let two = constants::of(math::TWO);
    let pi = constants::of(constants::PI);
    let h = single::HIDDEN as nat;
    power2::lemma2_to64();
    power2::lemma_pow2_pos(single::UNIT as nat);
    power2::lemma_pow2_unfold(150);
    power2::lemma_pow2_unfold(151);
    single_laws::power_pattern_value(h, 23, 150);
    single_laws::within_values(two, 150);
    assert(two.value() == 2 * u);
    close::pi_in_units();
    math::turn_is_twice_pi();
    close::amount_has_value(pi);
    single_laws::within_values(pi, 151);
    close::between_is_amount(t, 109, 179);
    close::between_is_amount(period, 139, 179);
    close::quotient_between(t, period, 109, 179, 139, 179);
    let x = t.over_spec(period);
    single_laws::product_between(x, two, 79, 189, 150, 150);
    let y = x.times_spec(two);
    single_laws::product_between(y, pi, 80, 190, 150, 151);
    let a = y.times_spec(pi);
    close::between_is_amount(x, 79, 189);
    close::between_is_amount(y, 80, 190);
    close::quotient_is_close(t, period);
    close::product_of_three_is_close(x, two, pi);
    let (xv, av, tv, pv, c) = (x.value(), a.value(), t.value(), period.value(), pi.value());
    let uu = u * u;
    // a * u * u is close to x * 2 * u * pi; x * p is close to t * u.
    close::close_times(av * uu, xv * (2 * u) * c, 3, pv);
    let k = (2 * u) * c;
    assert(k >= 0) by (nonlinear_arith)
        requires
            k == (2 * u) * c,
            u > 0,
            c >= 0,
    ;
    close::close_times(xv * pv, tv * u, 1, k);
    assert((xv * (2 * u) * c) * pv == (xv * pv) * k) by (nonlinear_arith)
        requires
            k == (2 * u) * c,
    ;
    close::close_chain((av * uu) * pv, (xv * pv) * k, (tv * u) * k, 3, 1);
    let l = av * pv;
    let e = tv * (2 * c);
    assert((av * uu) * pv == l * uu && (tv * u) * k == e * uu) by (nonlinear_arith)
        requires
            l == av * pv,
            e == tv * (2 * c),
            k == (2 * u) * c,
            uu == u * u,
    ;
    assert(uu > 0) by (nonlinear_arith)
        requires
            uu == u * u,
            u > 0,
    ;
    close::close_without(l, e, 5, uu);
    let w = tv * u;
    assert(6283184 * w <= 1000000 * e && 1000000 * e <= 6283186 * w) by (nonlinear_arith)
        requires
            e == tv * (2 * c),
            w == tv * u,
            tv >= 0,
            3141592 * u <= 1000000 * c,
            1000000 * c <= 3141593 * u,
    ;
    assert(w >= 0) by (nonlinear_arith)
        requires
            w == tv * u,
            tv >= 0,
            u > 0,
    ;
}

/// The angle of a crossing is a full turn for every period that has passed
/// since the tick, and negative ahead of it: times the period it is 2 pi times
/// the samples since the tick, to five digits.
pub proof fn crossing_angle_is_the_share_of_a_turn(
    base: BaseState,
    tick: NorthTick,
    crossing: Single,
    period: Single,
)
    requires
        tick.period == Some(period),
        single_laws::between(period, 139, 179),
        base.since_tick(tick, crossing).finite(),
        single_laws::between(base.since_tick(tick, crossing).abs_spec(), 109, 179),
    ensures
        ({
            let t = base.since_tick(tick, crossing);
            let a = bearing_zero_crossing::crossing_angle(base, tick, crossing);
            let since = arithmetic::magnitude(t.value()) * close::unit();
            let angle = arithmetic::magnitude(a.value()) * period.value();
            &&& a.finite()
            &&& a.negative() == t.negative()
            &&& 6283180 * since <= 1000000 * angle
            &&& 1000000 * angle <= 6283191 * since
        }),
{
    let t = base.since_tick(tick, crossing);
    let two = constants::of(math::TWO);
    let pi = constants::of(constants::PI);
    let m = t.abs_spec();
    close::between_is_amount(period, 139, 179);
    close::between_is_amount(m, 109, 179);
    angle_of_amount(m, period);
    assert(m.value() == arithmetic::magnitude(t.value()));
    let a = angle_in_rotation(m, period);
    close::amount_has_value(a);
    if t.negative() {
        assert(t.neg_spec() == m);
        negated_quotient(t, period);
        let x = t.over_spec(period);
        single_laws::quotient_within(m, period, 179, 139);
        assert(m.over_spec(period) == x.neg_spec());
        negated_product(x, two);
        let y = x.times_spec(two);
        single_laws::within_values(two, 150);
        power2::lemma2_to64();
        power2::lemma_pow2_unfold(150);
        single_laws::power_pattern_value(single::HIDDEN as nat, 23, 150);
        single_laws::product_within(m.over_spec(period), two, 189, 150);
        assert(m.over_spec(period).times_spec(two) == y.neg_spec());
        negated_product(y, pi);
        assert(a == y.times_spec(pi).neg_spec());
    } else {
        assert(t == m);
    }
}

/// A count of up to `2^24`, as a number between powers of two.
pub proof fn count_between(n: int)
    requires
        1 <= n <= 0x100_0000,
    ensures
        single_laws::between(Single::from_integer_spec(n), 149, 173),
        Single::from_integer_spec(n).value() == n * close::unit(),
{
    let u = close::unit();
    power2::lemma2_to64();
    power2::lemma_pow2_pos(single::UNIT as nat);
    single_laws::count_is_exact(n);
    single_laws::count_within_power(n, 24);
    assert(n * u >= u) by (nonlinear_arith)
        requires
            n >= 1,
            u > 0,
    ;
}

/// The strength of a signal by its crossings is how many there are against how
/// many rotations there were, or the other way round, whichever is less: as
/// many crossings as rotations are a full strength, and half as many or twice
/// as many one half. With `c` crossings in `n` samples, and rotations of `p`
/// samples, it is `c * p / n`, or `n / (c * p)`, up to a few roundings.
pub proof fn density_compares_crossings_and_rotations(n: int, c: int, period: Single)
    requires
        1 <= n <= 0x100_0000,
        1 <= c <= 0x100_0000,
        single_laws::between(period, 139, 179),
    ensures
        ({
            let d = bearing_zero_crossing::density_spec(n as nat, c as nat, period).value();
            let u = close::unit();
            let covered = c * period.value();
            &&& 0x80_0000 * covered <= 0x7f_fff0 * (n * u) ==> close::close(d * n, covered, 4)
            &&& 0x80_0000 * covered >= 0x80_0010 * (n * u) ==> close::close(
                d * covered,
                (n * u) * u,
                7,
            )
        }),
{
    let u = close::unit();
    let one = constants::of(single::ONE_BITS);
    let zero = constants::of(0);
    let len = Single::from_integer_spec(n);
    let count = Single::from_integer_spec(c);
    power2::lemma_pow2_pos(single::UNIT as nat);
    single_laws::value_of_one();
    count_between(n);
    count_between(c);
    close::between_is_amount(len, 149, 173);
    close::between_is_amount(count, 149, 173);
    close::between_is_amount(period, 139, 179);
    close::quotient_between(len, period, 149, 173, 139, 179);
    let e = len.over_spec(period);
    close::between_is_amount(e, 119, 183);
    close::quotient_between(count, e, 149, 173, 119, 183);
    let ratio = count.over_spec(e);
    close::between_is_amount(ratio, 115, 203);
    single_laws::within_values(one, 149);
    close::quotient_between(one, ratio, 149, 149, 115, 203);
    let inverse = one.over_spec(ratio);
    close::between_is_amount(inverse, 95, 183);
    close::quotient_is_close(len, period);
    close::quotient_is_close(count, e);
    close::quotient_is_close(one, ratio);
    let (ev, rv, iv, p) = (e.value(), ratio.value(), inverse.value(), period.value());
    let cp = c * p;
    // ev * p ~ n * u * u; rv * ev ~ c * u * u.
    close::close_times(ev * p, (n * u) * u, 1, rv);
    close::close_back((ev * p) * rv, ((n * u) * u) * rv, 1);
    close::close_times(rv * ev, (c * u) * u, 1, p);
    assert((rv * ev) * p == (ev * p) * rv) by (nonlinear_arith);
    close::close_chain(((n * u) * u) * rv, (ev * p) * rv, ((c * u) * u) * p, 2, 1);
    let uu = u * u;
    assert(((n * u) * u) * rv == (rv * n) * uu && ((c * u) * u) * p == cp * uu)
        by (nonlinear_arith)
        requires
            uu == u * u,
            cp == c * p,
    ;
    assert(uu > 0) by (nonlinear_arith)
        requires
            uu == u * u,
            u > 0,
    ;
    close::close_without(rv * n, cp, 4, uu);
    single::rank_orders_values(one, ratio);
    single::rank_orders_values(ratio, one);
    single::rank_orders_values(one, inverse);
    single::rank_orders_values(inverse, ratio);
    single::rank_orders_values(ratio, inverse);
    let nu = n * u;
    let d = bearing_zero_crossing::density_spec(n as nat, c as nat, period);
    assert(nu > 0) by (nonlinear_arith)
        requires
            nu == n * u,
            n >= 1,
            u > 0,
    ;
    if 0x80_0000 * cp <= 0x7f_fff0 * nu {
        assert(rv <= u) by (nonlinear_arith)
            requires
                0x80_0000 * (rv * n - cp) <= 4 * cp,
                0x80_0000 * cp <= 0x7f_fff0 * nu,
                nu == n * u,
                n >= 1,
                cp >= 0,
        ;
        single_laws::one_over_small(ratio);
        assert(d == ratio);
    }
    if 0x80_0000 * cp >= 0x80_0010 * nu {
        assert(rv >= u) by (nonlinear_arith)
            requires
                0x80_0000 * (cp - rv * n) <= 4 * cp,
                0x80_0000 * cp >= 0x80_0010 * nu,
                nu == n * u,
                n >= 1,
                cp >= 0,
        ;
        single_laws::one_over_in_order(ratio, ratio);
        assert(d.value() == iv);
        close::close_back(rv * n, cp, 4);
        close::close_times(cp, rv * n, 5, iv);
        close::close_times(iv * rv, u * u, 1, n);
        assert((rv * n) * iv == (iv * rv) * n && (u * u) * n == nu * u) by (nonlinear_arith)
            requires
                nu == n * u,
        ;
        close::close_chain(cp * iv, (rv * n) * iv, nu * u, 5, 1);
        assert(cp * iv == iv * cp) by (nonlinear_arith);
    }
}

/// A buffer holds one look for every stretch over which the interference
/// decorrelates, and at least one.
pub proof fn looks_are_decorrelated_stretches(base: BaseState)
    requires
        1 <= base.work.len() <= 0x100_0000,
        single_laws::between(base.correlation_samples, 149, 179),
    ensures
        ({
            let looks = base.independent_looks();
            let u = close::unit();
            let n = base.work.len() as int;
            let stretch = base.correlation_samples.value();
            &&& n * u <= stretch ==> looks == constants::of(single::ONE_BITS)
            &&& n * u >= stretch ==> close::close(looks.value() * stretch, (n * u) * u, 1)
        }),
{
    let u = close::unit();
    let n = base.work.len() as int;
    let one = constants::of(single::ONE_BITS);
    let len = Single::from_integer_spec(n);
    let c = base.correlation_samples;
    power2::lemma_pow2_pos(single::UNIT as nat);
    single_laws::value_of_one();
    count_between(n);
    close::between_is_amount(len, 149, 173);
    close::between_is_amount(c, 149, 179);
    close::quotient_between(len, c, 149, 173, 149, 179);
    let q = len.over_spec(c);
    close::between_is_amount(q, 119, 173);
    close::quotient_is_close(len, c);
    single_laws::over_itself(c);
    single::rank_orders_values(len, c);
    single::rank_orders_values(c, len);
    if n * u <= c.value() {
        single_laws::over_in_order(len, c, c);
    }
    if n * u >= c.value() {
        single_laws::over_in_order(c, len, c);
    }
}

} // verus!
