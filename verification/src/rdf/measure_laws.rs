//! What the strength, the spread and the confidence of a bearing stand for.
use crate::arithmetic;
use crate::close;
use crate::config::ConfidenceConfig;
use crate::constants;
use crate::ieee;
use crate::rdf::bearing;
use crate::rdf::bearing::ConfidenceMetrics;
use crate::rdf::bearing_calculator_base::BaseState;
use crate::rdf::bearing_correlation;
use crate::rdf::bearing_correlation::Correlation;
use crate::rdf::bearing_laws;
use crate::rdf::loop_laws;
use crate::rdf::north_ref::NorthTick;
use crate::rdf::steering_laws;
use crate::rdf::steering_laws::distance;
use crate::signal_processing::math;
use crate::single;
use crate::single::Single;
use crate::single_laws;
use vstd::arithmetic::power2;
use vstd::prelude::*;

verus! {

/// The phase of the reference at a sample is that of the tick, plus the
/// frequency of the tick for every sample since it, up to a few roundings.
pub proof fn reference_runs_at_the_frequency(base: BaseState, tick: NorthTick, idx: int)
    requires
        tick.phase.finite(),
        steering_laws::well_rounded(
            base.since_tick(tick, Single::from_integer_spec(idx)),
            tick.frequency,
        ),
        bearing_correlation::reference_phase(base, tick, idx).finite(),
    ensures
        ({
            let t = base.since_tick(tick, Single::from_integer_spec(idx));
            let u = close::unit();
            let start = tick.phase.value() * u;
            let advance = t.value() * tick.frequency.value();
            let phase = bearing_correlation::reference_phase(base, tick, idx);
            0x80_0000 * distance(phase.value() * u, start + advance) <= distance(start, 0) + 4
                * distance(advance, 0)
        }),
{
    let t = base.since_tick(tick, Single::from_integer_spec(idx));
    let u = close::unit();
    let g = t.times_spec(tick.frequency);
    power2::lemma_pow2_pos(single::UNIT as nat);
    steering_laws::product_is_off(t, tick.frequency);
    steering_laws::sum_is_off(tick.phase, g);
    let x = bearing_correlation::reference_phase(base, tick, idx).value();
    let (a, b) = (tick.phase.value(), g.value());
    let (xu, au, bu) = (x * u, a * u, b * u);
    let d = x - (a + b);
    let m = distance(a + b, 0);
    assert(-(m * u) <= 0x80_0000 * (d * u) <= m * u) by (nonlinear_arith)
        requires
            -m <= 0x80_0000 * d <= m,
            u > 0,
    ;
    assert(d * u == xu - au - bu) by (nonlinear_arith)
        requires
            d == x - (a + b),
            xu == x * u,
            au == a * u,
            bu == b * u,
    ;
    assert(m * u <= distance(au, 0) + distance(bu, 0)) by (nonlinear_arith)
        requires
            m == a + b || m == -(a + b),
            au == a * u,
            bu == b * u,
            distance(au, 0) >= au,
            distance(au, 0) >= -au,
            distance(bu, 0) >= bu,
            distance(bu, 0) >= -bu,
    ;
}

/// The sign of a projection does not matter for the power that it accounts
/// for.
pub proof fn power_is_blind_to_sign(projection: Single, power: Single)
    requires
        projection.finite(),
        constants::of(math::TWO).times_spec(projection).finite(),
    ensures
        bearing_correlation::correlated_spec(projection.neg_spec(), power)
            == bearing_correlation::correlated_spec(projection, power),
{
    let two = constants::of(math::TWO);
    let x = two.times_spec(projection);
    product_commutes(two, projection);
    product_commutes(two, projection.neg_spec());
    bearing_laws::negated_product(projection, two);
    assert(two.times_spec(projection.neg_spec()) == x.neg_spec());
    bearing_laws::negated_product(x, projection.neg_spec());
    product_commutes(x, projection);
    product_commutes(x, projection.neg_spec());
    bearing_laws::negated_product(projection, x);
    let y = x.times_spec(projection);
    assert(x.neg_spec().times_spec(projection.neg_spec()) == x.times_spec(
        projection.neg_spec(),
    ).neg_spec());
    assert(x.times_spec(projection.neg_spec()) == y.neg_spec());
    assert(y.neg_spec().neg_spec() == y);
}

/// The order of two factors does not matter.
pub proof fn product_commutes(a: Single, b: Single)
    requires
        a.finite(),
        b.finite(),
    ensures
        a.times_spec(b) == b.times_spec(a),
{
    let x = arithmetic::magnitude(a.value());
    let y = arithmetic::magnitude(b.value());
    assert(x * y == y * x) by (nonlinear_arith);
}

/// A tone of amplitude `A` projects as `A / 2` and has the power `A * A / 2`:
/// so the power that a projection accounts for is twice its square, and never
/// more than there is.
pub proof fn correlated_power_is_twice_the_square(projection: Single, power: Single)
    requires
        single_laws::between(projection, 109, 169),
        close::amount(power),
    ensures
        ({
            let c = bearing_correlation::correlated_spec(projection, power);
            let exact = 2 * (projection.value() * projection.value());
            let all = power.value() * close::unit();
            &&& close::amount(c)
            &&& c.value() <= power.value()
            &&& c.value() < power.value() ==> close::close(c.value() * close::unit(), exact, 3)
            &&& 0x80_0000 * exact >= 0x80_0008 * all ==> c.value() == power.value()
        }),
{
    let u = close::unit();
    let h = single::HIDDEN as nat;
    let two = constants::of(math::TWO);
    power2::lemma2_to64();
    power2::lemma_pow2_pos(single::UNIT as nat);
    power2::lemma_pow2_unfold(150);
    single_laws::power_pattern_value(h, 23, 150);
    single_laws::within_values(two, 150);
    assert(two.value() == 2 * u);
    close::between_is_amount(projection, 109, 169);
    single_laws::product_between(two, projection, 150, 150, 109, 169);
    single_laws::product_between(two.times_spec(projection), projection, 110, 170, 109, 169);
    let x = two.times_spec(projection).times_spec(projection);
    close::between_is_amount(x, 70, 190);
    close::product_of_three_is_close(two, projection, projection);
    let p = projection.value();
    let exact = 2 * (p * p);
    let uu = u * u;
    assert((2 * u) * p * p == exact * u) by (nonlinear_arith)
        requires
            exact == 2 * (p * p),
    ;
    assert(x.value() * uu == (x.value() * u) * u) by (nonlinear_arith)
        requires
            uu == u * u,
    ;
    close::close_without(x.value() * u, exact, 3, u);
    single::rank_orders_values(power, x);
    close::amount_has_value(power);
    let c = bearing_correlation::correlated_spec(projection, power);
    if 0x80_0000 * exact >= 0x80_0008 * (power.value() * u) {
        let (xv, pv) = (x.value(), power.value());
        assert(xv >= pv) by (nonlinear_arith)
            requires
                0x80_0000 * (exact - xv * u) <= 3 * exact,
                0x80_0000 * exact >= 0x80_0008 * (pv * u),
                u > 0,
                pv >= 0,
                exact >= 0,
        ;
    }
}

/// The power ratio compares what correlated with the rest: times the rest it
/// is what correlated.
pub proof fn ratio_compares_signal_and_noise(projection: Single, power: Single)
    requires
        single_laws::between(projection, 109, 169),
        single_laws::between(power, 109, 169),
        ({
            let c = bearing_correlation::correlated_spec(projection, power);
            power.value() - c.value() >= power2::pow2(119) && c.value() >= power2::pow2(69)
        }),
    ensures
        ({
            let c = bearing_correlation::correlated_spec(projection, power).value();
            let r = bearing_correlation::snr_spec(projection, power).value();
            close::close(r * (power.value() - c), c * close::unit(), 4)
        }),
{
    let u = close::unit();
    let c = bearing_correlation::correlated_spec(projection, power);
    power2::lemma_pow2_pos(single::UNIT as nat);
    power2::lemma_pow2_pos(119);
    close::between_is_amount(power, 109, 169);
    correlated_power_is_twice_the_square(projection, power);
    single_laws::within_values(power, 169);
    single_laws::within_values(c, 169);
    assert(c.neg_spec().value() == -c.value());
    single_laws::sum_is_close(power, c.neg_spec(), 169);
    let n = power.minus_spec(c);
    close::difference_is_close(power, c);
    let d = power.value() - c.value();
    assert(1 * d == d) by (nonlinear_arith);
    power2::lemma_pow2_unfold(119);
    assert(n.value() >= power2::pow2(118));
    threshold_is_small(n);
    assert(n.max_spec(constants::of(constants::MIN_POWER_THRESHOLD)) == n);
    assert(single_laws::between(n, 118, 169));
    assert(single_laws::between(c, 69, 169));
    close::between_is_amount(n, 118, 169);
    close::quotient_between(c, n, 69, 169, 118, 169);
    close::quotient_is_close(c, n);
    let r = c.over_spec(n);
    close::between_is_amount(r, 49, 200);
    close::close_back(n.value(), d, 1);
    close::close_times(d, n.value(), 2, r.value());
    assert(d * r.value() == r.value() * d && n.value() * r.value() == r.value() * n.value())
        by (nonlinear_arith);
    close::close_chain(r.value() * d, r.value() * n.value(), c.value() * u, 2, 1);
}

/// A number from `2^-31` on is above the least power.
proof fn threshold_is_small(x: Single)
    requires
        x.finite(),
        x.value() >= power2::pow2(118),
    ensures
        constants::of(constants::MIN_POWER_THRESHOLD).lt_spec(x),
{
    let h = single::HIDDEN as nat;
    power2::lemma2_to64();
    ieee::pattern_parts(h, 92, 0xdb_e6ff);
    power2::lemma_pow2_adds(26, 92);
    power2::lemma_pow2_pos(92);
    let e = constants::of(constants::MIN_POWER_THRESHOLD);
    assert(e.value() == 0xdb_e6ff * power2::pow2(92));
    single::rank_orders_values(e, x);
}

/// The root of one is one.
proof fn root_of_one()
    ensures
        constants::of(single::ONE_BITS).sqrt_spec() == constants::of(single::ONE_BITS),
{
    let h = single::HIDDEN as nat;
    let inf = single::INFINITE as nat;
    let b = single::ONE_BITS as nat;
    let u = power2::pow2(single::UNIT as nat);
    single_laws::value_of_one();
    ieee::pattern_value_steps(h, (b - 1) as nat);
    ieee::pattern_value_steps(h, b);
    let x = ieee::pattern_value(h, (b - 1) as nat) + ieee::pattern_value(h, b);
    let y = ieee::pattern_value(h, b) + ieee::pattern_value(h, b + 1);
    assert(ieee::pattern_value(h, b) == u);
    assert(x * x < 4 * (u * u)) by (nonlinear_arith)
        requires
            0 <= x < 2 * u,
    ;
    assert(4 * (u * u) < y * y) by (nonlinear_arith)
        requires
            2 * u < y,
            u > 0,
    ;
    assert(arithmetic::is_nearest_root(h, inf, u * u, b));
    arithmetic::nearest_root_is(h, inf, u * u, b);
}

/// The strength of a signal is the share of its amplitude that correlated: its
/// square times the power is the correlated power. A signal whose power is
/// below a hundredth has none.
pub proof fn strength_is_the_share_of_the_amplitude(c: Correlation)
    requires
        single_laws::between(c.magnitude, 109, 169),
        single_laws::between(c.signal_power, 109, 169),
        bearing_correlation::correlated_spec(c.magnitude, c.signal_power).value()
            >= power2::pow2(69),
    ensures
        ({
            let s = bearing_correlation::strength_spec(c).value();
            let u = close::unit();
            let power = c.signal_power.value();
            let part = bearing_correlation::correlated_spec(c.magnitude, c.signal_power).value();
            &&& 10000 * power <= 99 * u ==> s == 0
            &&& 10000 * power >= 101 * u ==> close::close((s * s) * power, (part * u) * u, 4)
        }),
{
    let u = close::unit();
    let h = single::HIDDEN as nat;
    let one = constants::of(single::ONE_BITS);
    let p = c.signal_power;
    let part = bearing_correlation::correlated_spec(c.magnitude, p);
    let least = constants::of(bearing_correlation::MIN_SIGNAL_STRENGTH_POWER);
    power2::lemma2_to64();
    power2::lemma_pow2_pos(single::UNIT as nat);
    ieee::pattern_parts(h, 119, 0xa3_d70a);
    power2::lemma_pow2_adds(30, 119);
    power2::lemma_pow2_pos(119);
    assert(least.value() == 0xa3_d70a * power2::pow2(119));
    assert(u == 0x4000_0000 * power2::pow2(119));
    close::between_is_amount(p, 109, 169);
    single::rank_orders_values(least, p);
    single::rank_orders_values(p, least);
    correlated_power_is_twice_the_square(c.magnitude, p);
    single_laws::within_values(p, 169);
    single_laws::within_values(part, 169);
    close::between_is_amount(part, 69, 169);
    close::quotient_between(part, p, 69, 169, 109, 169);
    let x = part.over_spec(p);
    close::between_is_amount(x, 49, 209);
    close::quotient_is_close(part, p);
    close::root_is_close(x);
    single_laws::over_itself(p);
    single::rank_orders_values(part, p);
    single_laws::over_in_order(part, p, p);
    close::roots_in_order(x, one);
    root_of_one();
    let s = x.sqrt_spec();
    assert(10000 * p.value() >= 101 * u ==> bearing_correlation::strength_spec(c) == s);
    let (sv, xv, pv) = (s.value(), x.value(), p.value());
    close::close_times(sv * sv, xv * u, 2, pv);
    close::close_times(xv * pv, part.value() * u, 1, u);
    assert((xv * u) * pv == (xv * pv) * u) by (nonlinear_arith);
    close::close_chain((sv * sv) * pv, (xv * pv) * u, (part.value() * u) * u, 2, 1);
}

/// The angle of a correlation and its bearing: the bearing is the angle, with
/// the opposite sign, in degrees of one turn. A negative angle of up to half a
/// turn is turned round, a positive one taken off a full turn.
pub proof fn bearing_is_minus_the_angle(angle: Single)
    requires
        single_laws::between(angle.abs_spec(), 139, 151),
        angle.abs_spec().value() <= constants::of(constants::PI).value(),
        angle.finite(),
    ensures
        ({
            let b = bearing::bearing_of(
                angle.neg_spec().rem_euclid_spec(constants::of(constants::TWO_PI)),
            ).value() * close::unit();
            let degrees = constants::of(math::DEGREES_PER_RADIAN).value();
            let turn = constants::of(constants::TWO_PI).value();
            &&& angle.value() < 0 ==> close::close(b, -angle.value() * degrees, 1)
            &&& angle.value() > 0 ==> close::close(b, (turn - angle.value()) * degrees, 3)
        }),
{
    let full = constants::of(constants::TWO_PI);
    let u = close::unit();
    let m = angle.abs_spec();
    let h = single::HIDDEN as nat;
    let inf = single::INFINITE as nat;
    power2::lemma2_to64();
    power2::lemma_pow2_pos(single::UNIT as nat);
    power2::lemma_pow2_adds(10, 139);
    power2::lemma_pow2_adds(2, 149);
    close::pi_in_units();
    math::turn_is_twice_pi();
    loop_laws::turn_between();
    close::between_is_amount(m, 139, 151);
    assert(m.value() == arithmetic::magnitude(angle.value()));
    let x = angle.neg_spec();
    assert(x.value() == -angle.value());
    let n = arithmetic::magnitude(x.value());
    let t = full.value() as nat;
    vstd::arithmetic::div_mod::lemma_small_mod(n, t);
    ieee::nearest_of_held(h, inf, x.magnitude() as nat);
    assert(x.rem_spec(full) == x);
    let zero = Single { bits: 0 };
    single::rank_orders_values(x, zero);
    let w = x.rem_euclid_spec(full);
    if angle.negative() {
        assert(w == m);
        bearing_in_turn(m);
    } else {
        assert(full.abs_spec() == full);
        single_laws::within_values(x, 152);
        single_laws::within_values(full, 152);
        single_laws::sum_within(x, full, 152);
        close::sum_is_close(x, full);
        let e = full.value() - angle.value();
        let k = 1int;
        assert(1 * e == e) by (nonlinear_arith);
        assert(w == x.plus_spec(full));
        single_laws::within_values(w, 152);
        power2::lemma_pow2_strictly_increases(139, 149);
        assert(single_laws::between(w, 139, 152));
        bearing_in_turn(w);
        let d = constants::of(math::DEGREES_PER_RADIAN).value();
        close::degrees_in_units();
        close::close_times(w.value(), e, 1, d);
        close::close_chain(
            bearing::bearing_of(w).value() * u,
            w.value() * d,
            e * d,
            1,
            1,
        );
    }
}

/// A phase that is clear of a full turn keeps its place as a bearing.
proof fn bearing_in_turn(w: Single)
    requires
        single_laws::between(w, 139, 152),
        2000 * w.value() <= 2000 * constants::of(constants::TWO_PI).value() - close::unit(),
    ensures
        close::close(
            bearing::bearing_of(w).value() * close::unit(),
            w.value() * constants::of(math::DEGREES_PER_RADIAN).value(),
            1,
        ),
{
    let u = close::unit();
    let h = single::HIDDEN as nat;
    let inf = single::INFINITE as nat;
    let d = constants::of(math::DEGREES_PER_RADIAN);
    let full = constants::of(math::FULL_TURN);
    power2::lemma2_to64();
    power2::lemma_pow2_pos(single::UNIT as nat);
    power2::lemma_pow2_adds(5, 149);
    power2::lemma_pow2_adds(6, 149);
    close::pi_in_units();
    close::degrees_in_units();
    close::amount_has_value(d);
    single_laws::within_values(d, 155);
    close::between_is_amount(w, 139, 152);
    single_laws::product_between(w, d, 139, 152, 154, 155);
    close::product_is_close(w, d);
    let y = w.times_spec(d);
    close::between_is_amount(y, 144, 158);
    ieee::pattern_parts(h, 134, 0xb4_0000);
    power2::lemma_pow2_adds(15, 134);
    power2::lemma_pow2_pos(134);
    assert(full.value() == 0xb4_0000 * power2::pow2(134));
    assert(full.value() == 360 * u);
    let (wv, dv, yv) = (w.value(), d.value(), y.value());
    let e = wv * dv;
    // w is at most 6.2827, so the product is below 359.98 degrees.
    let wu = wv * u;
    assert(100000 * e <= 5729579 * wu) by (nonlinear_arith)
        requires
            e == wv * dv,
            wu == wv * u,
            100000 * dv <= 5729579 * u,
            wv >= 0,
    ;
    let uu = u * u;
    assert(10000 * wu <= 62828 * uu) by (nonlinear_arith)
        requires
            10000 * wv <= 62828 * u,
            wu == wv * u,
            uu == u * u,
            u > 0,
    ;
    assert(100 * e <= 35998 * uu);
    assert(1 * e == e) by (nonlinear_arith);
    let yu = yv * u;
    assert(uu > 0) by (nonlinear_arith)
        requires
            uu == u * u,
            u > 0,
    ;
    assert(yu * 100 < 36000 * uu);
    assert(yv < 360 * u) by (nonlinear_arith)
        requires
            yu == yv * u,
            uu == u * u,
            yu * 100 < 36000 * uu,
            u > 0,
    ;
    vstd::arithmetic::div_mod::lemma_small_mod(yv as nat, full.value() as nat);
    ieee::nearest_of_held(h, inf, y.magnitude() as nat);
    assert(y.rem_spec(full) == y);
    single::rank_orders_values(y, Single { bits: 0 });
    single::rank_orders_values(full, y);
    assert(bearing::bearing_of(w) == y);
}

/// The confidence in a bearing falls with the square of its uncertainty over
/// the half-confidence uncertainty `h`: it is `h * h / (h * h + sigma *
/// sigma)`, up to a few roundings, so that it reads one half at `h`, a fifth
/// at twice and a tenth at three times that.
pub proof fn score_is_of_the_second_order(sigma: Single, config: ConfidenceConfig)
    requires
        single_laws::between(sigma, 119, 179),
        single_laws::between(config.half_confidence_deg, 129, 169),
    ensures
        ({
            let s = ConfidenceMetrics::score_spec(Some(sigma), config).value();
            let h = config.half_confidence_deg.value();
            let square = h * h;
            close::close(
                s * (square + sigma.value() * sigma.value()),
                square * close::unit(),
                12,
            )
        }),
{
    let u = close::unit();
    let half = config.half_confidence_deg;
    let one = constants::of(single::ONE_BITS);
    power2::lemma_pow2_pos(single::UNIT as nat);
    single_laws::value_of_one();
    close::between_is_amount(sigma, 119, 179);
    close::between_is_amount(half, 129, 169);
    close::quotient_between(sigma, half, 119, 179, 129, 169);
    let r = sigma.over_spec(half);
    close::between_is_amount(r, 99, 199);
    single_laws::product_between(r, r, 99, 199, 99, 199);
    let q = r.times_spec(r);
    close::between_is_amount(q, 49, 249);
    single_laws::within_values(one, 149);
    single_laws::within_more(one, 149, 249);
    single_laws::sum_within(one, q, 249);
    let t = one.plus_spec(q);
    close::sum_is_close(one, q);
    single_laws::sum_is_at_least(one, q, one);
    assert(single_laws::between(t, 149, 250));
    close::between_is_amount(t, 149, 250);
    close::quotient_between(one, t, 149, 149, 149, 250);
    let s = one.over_spec(t);
    close::between_is_amount(s, 48, 149);
    close::quotient_is_close(sigma, half);
    close::product_is_close(r, r);
    close::quotient_is_close(one, t);
    half_is_not_small(half);
    assert(ConfidenceMetrics::score_spec(Some(sigma), config) == s);
    score_in_units(s.value(), t.value(), q.value(), r.value(), half.value(), sigma.value(), u);
}

proof fn half_is_not_small(half: Single)
    requires
        single_laws::between(half, 129, 169),
    ensures
        !half.le_spec(constants::of(constants::EPSILON)),
{
    let h = single::HIDDEN as nat;
    power2::lemma2_to64();
    single_laws::power_pattern_value(h, 23, 126);
    power2::lemma_pow2_strictly_increases(126, 129);
    single::rank_orders_values(half, constants::of(constants::EPSILON));
    single::rank_orders_values(constants::of(constants::EPSILON), half);
}

proof fn score_in_units(s: int, t: int, q: int, r: int, h: int, x: int, u: int)
    requires
        u > 0,
        s >= 0,
        t >= 0,
        q >= 0,
        r >= 0,
        h > 0,
        x >= 0,
        close::close(r * h, x * u, 1),
        close::close(q * u, r * r, 1),
        close::close(t, u + q, 1),
        close::close(s * t, u * u, 1),
    ensures
        close::close(s * (h * h + x * x), (h * h) * u, 12),
{
    // q * h * h is close to x * x * u.
    let hh = h * h;
    let xx = x * x;
    assert(hh > 0) by (nonlinear_arith)
        requires
            hh == h * h,
            h > 0,
    ;
    close::close_products(r * h, x * u, 1, r * h, x * u, 1);
    close::close_times(q * u, r * r, 1, hh);
    assert((r * r) * hh == (r * h) * (r * h)) by (nonlinear_arith)
        requires
            hh == h * h,
    ;
    close::close_chain((q * u) * hh, (r * r) * hh, (x * u) * (x * u), 1, 3);
    assert((q * u) * hh == (q * hh) * u && (x * u) * (x * u) == (xx * u) * u)
        by (nonlinear_arith)
        requires
            xx == x * x,
    ;
    close::close_without(q * hh, xx * u, 5, u);
    // t * hh is close to (u + q) * hh, which is close to (hh + xx) * u.
    close::close_times(t, u + q, 1, hh);
    assert(u * hh >= 0) by (nonlinear_arith)
        requires
            u > 0,
            hh > 0,
    ;
    assert(close::close(u * hh, u * hh, 5)) by {
        assert(5 * (u * hh) >= 0);
    }
    close::close_sums(u * hh, u * hh, q * hh, xx * u, 5);
    assert((u + q) * hh == u * hh + q * hh) by (nonlinear_arith);
    let e = (hh + xx) * u;
    assert(e == u * hh + xx * u) by (nonlinear_arith)
        requires
            e == (hh + xx) * u,
    ;
    close::close_chain(t * hh, (u + q) * hh, e, 1, 5);
    // s * e is close to s * t * hh, which is close to u * u * hh.
    close::close_back(t * hh, e, 7);
    close::close_times(e, t * hh, 8, s);
    close::close_times(s * t, u * u, 1, hh);
    assert((t * hh) * s == (s * t) * hh) by (nonlinear_arith);
    close::close_chain(e * s, (s * t) * hh, (u * u) * hh, 8, 1);
    let a = s * (hh + xx);
    let b = hh * u;
    assert(e * s == a * u && (u * u) * hh == b * u) by (nonlinear_arith)
        requires
            e == (hh + xx) * u,
            a == s * (hh + xx),
            b == hh * u,
    ;
    close::close_without(a, b, 10, u);
    close::close_by_more(a, b, 10, 12);
}

/// The sum of a sequence of values.
pub open spec fn total(s: Seq<Single>) -> int
    decreases s.len(),
{
    if s.len() == 0 {
        0
    } else {
        total(s.drop_last()) + s.last().value()
    }
}

/// A sum of amounts is close to the sum of their values: two roundings for
/// each of them.
pub proof fn sums_add_up(s: Seq<Single>)
    requires
        s.len() <= 0x1_0000,
        forall|i: int| 0 <= i < s.len() ==> close::amount(#[trigger] s[i]) && single_laws::within(s[i], 229),
    ensures
        math::sum_of(s).finite(),
        math::sum_of(s).value() >= 0,
        s.len() > 0 ==> close::amount(math::sum_of(s)) || math::sum_of(s).value() == 0,
        close::close(math::sum_of(s).value(), total(s), 2 * s.len() as int),
        0 <= total(s) <= s.len() * power2::pow2(229),
    decreases s.len(),
{
    let p = power2::pow2(229) as int;
    power2::lemma_pow2_pos(229);
    if s.len() == 0 {
        assert(0 * p == 0);
    } else {
        let front = s.drop_last();
        let n = s.len() as int;
        assert forall|i: int| 0 <= i < front.len() implies close::amount(#[trigger] front[i])
            && single_laws::within(front[i], 229) by {
            assert(front[i] == s[i]);
        }
        sums_add_up(front);
        let a = math::sum_of(front);
        let b = s.last();
        assert(b == s[n - 1]);
        single_laws::within_values(b, 229);
        close::amount_has_value(b);
        let t = total(front);
        let k = 2 * (n - 1);
        assert((n - 1) * p <= 0x1_0000 * p) by (nonlinear_arith)
            requires
                n <= 0x1_0000,
                p > 0,
        ;
        assert(n * p == (n - 1) * p + p) by (nonlinear_arith);
        assert(a.value() <= 2 * t) by (nonlinear_arith)
            requires
                0x80_0000 * (a.value() - t) <= k * t,
                k <= 0x80_0000,
                t >= 0,
        ;
        power2::lemma2_to64();
        power2::lemma_pow2_adds(18, 229);
        single_laws::rounded_within(
            if a.value() + b.value() == 0 {
                a.negative() && b.negative()
            } else {
                a.value() + b.value() < 0
            },
            arithmetic::magnitude(a.value() + b.value()),
            1,
            247,
        );
        close::sum_is_close(a, b);
        assert(close::close(b.value(), b.value(), k)) by {
            assert(k * b.value() >= 0) by (nonlinear_arith)
                requires
                    k >= 0,
                    b.value() >= 0,
            ;
        }
        close::close_sums(a.value(), t, b.value(), b.value(), k);
        close::close_chain(
            a.plus_spec(b).value(),
            a.value() + b.value(),
            t + b.value(),
            1,
            k,
        );
        let sum = a.plus_spec(b);
        assert(1 * (a.value() + b.value()) == a.value() + b.value()) by (nonlinear_arith);
        if a.value() + b.value() > 0 {
            close::close_is_positive(sum.value(), a.value() + b.value(), 1);
        }
    }
}

} // verus!
