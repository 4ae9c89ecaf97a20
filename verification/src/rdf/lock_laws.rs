//! What the lock of the oscillator stands for.
use crate::close;
use crate::constants;
use crate::ieee;
use crate::rdf::bearing_laws;
use crate::rdf::loop_laws;
use crate::rdf::measure_laws;
use crate::rdf::rotation_loop;
use crate::rdf::rotation_loop::LoopState;
use crate::rdf::steering_laws::distance;
use crate::signal_processing::math;
use crate::signal_processing::north_agc;
use crate::single;
use crate::single::Single;
use crate::single_laws;
use vstd::arithmetic::power2;
use vstd::prelude::*;

verus! {

/// The number of units in a half and in a quarter.
pub proof fn halves_in_units()
    ensures
        2 * constants::of(north_agc::HALF).value() == close::unit(),
        4 * constants::of(rotation_loop::MIN_TIMING_GATE_SAMPLES).value() == close::unit(),
        4 * constants::of(rotation_loop::MAX_TIMING_GATE_FRACTION).value() == close::unit(),
        single_laws::between(constants::of(north_agc::HALF), 148, 148),
        single_laws::between(constants::of(rotation_loop::MIN_TIMING_GATE_SAMPLES), 147, 147),
        single_laws::between(constants::of(rotation_loop::MAX_TIMING_GATE_FRACTION), 147, 147),
{
    let h = single::HIDDEN as nat;
    power2::lemma2_to64();
    power2::lemma_pow2_unfold(149);
    power2::lemma_pow2_unfold(148);
    single_laws::power_pattern_value(h, 23, 148);
    single_laws::power_pattern_value(h, 23, 147);
    single_laws::within_values(constants::of(north_agc::HALF), 148);
    single_laws::within_values(constants::of(rotation_loop::MIN_TIMING_GATE_SAMPLES), 147);
    single_laws::within_values(constants::of(rotation_loop::MAX_TIMING_GATE_FRACTION), 147);
}

/// The share of the quality that a predicted tick keeps is the share of the
/// budget that is left: after `c` samples of a budget of `b` it is `(b - c) /
/// b`, up to two roundings.
pub proof fn quality_is_the_budget_left(s: LoopState, at: int, c: int)
    requires
        0 < s.budget() <= 0x100_0000,
        s.coasted(at) == Some(c),
        0 <= c <= s.budget(),
    ensures
        ({
            let b = s.budget() as int;
            let left = (b - c) * close::unit();
            0x80_0000 * distance(s.quality_scale(at).value() * b, left) <= 2 * (b
                * close::unit())
        }),
{
    let u = close::unit();
    let b = s.budget() as int;
    let one = constants::of(single::ONE_BITS);
    let zero = constants::of(0);
    let spent = Single::from_integer_spec(c);
    let all = Single::from_integer_spec(b);
    power2::lemma_pow2_pos(single::UNIT as nat);
    single_laws::value_of_one();
    bearing_laws::count_between(b);
    close::between_is_amount(all, 149, 173);
    let x = spent.over_spec(all);
    if c == 0 {
        single_laws::count_is_exact(0);
        assert(0 * u == 0);
        ieee::nearest_of_held(single::HIDDEN as nat, single::INFINITE as nat, 0);
        assert(spent == zero);
        bearing_laws::zero_over(all);
        assert(x.value() == 0) by {
            ieee::pattern_parts(single::HIDDEN as nat, 0, 0);
        }
        assert(0 * b == 0);
        assert(close::close(x.value() * b, c * u, 1));
    } else {
        bearing_laws::count_between(c);
        close::between_is_amount(spent, 149, 173);
        close::quotient_between(spent, all, 149, 173, 149, 173);
        close::between_is_amount(x, 125, 173);
        close::quotient_is_close(spent, all);
        let (xv, cu) = (x.value(), c * u);
        assert(xv * (b * u) == (xv * b) * u) by (nonlinear_arith);
        close::close_without(xv * b, cu, 1, u);
    }
    single_laws::counts_in_order(c, b);
    single_laws::over_in_order(spent, all, all);
    single_laws::over_itself(all);
    assert(x.clamp_spec(zero, one) == x);
    let q = one.minus_spec(x);
    assert(q == s.quality_scale(at));
    assert(x.neg_spec().value() == -x.value());
    single::rank_orders_values(x, one);
    close::amount_has_value(x);
    single_laws::sum_is_close(one, x.neg_spec(), 149);
    let (qv, xv) = (q.value(), x.value());
    let d = qv - (u - xv);
    assert(-(u * b) <= 0x100_0000 * (d * b) <= u * b) by (nonlinear_arith)
        requires
            -u <= 0x100_0000 * d <= u,
            b > 0,
    ;
    let (qb, xb, ub) = (qv * b, xv * b, u * b);
    assert(d * b == qb - ub + xb) by (nonlinear_arith)
        requires
            d == qv - (u - xv),
            qb == qv * b,
            xb == xv * b,
            ub == u * b,
    ;
    let cu = c * u;
    assert((b - c) * u == ub - cu && b * u == ub) by (nonlinear_arith)
        requires
            ub == u * b,
            cu == c * u,
    ;
    assert(cu <= ub) by (nonlinear_arith)
        requires
            cu == c * u,
            ub == u * b,
            c <= b,
            u > 0,
    ;
    assert(1 * cu == cu) by (nonlinear_arith);
    assert(0x80_0000 * distance(xb, cu) <= cu);
}

/// The variance that a predicted tick carries on top is the square of half a
/// sample of rotation phase, times the share of the budget that is spent: four
/// times it is the square of that share times the frequency, up to a few
/// roundings.
pub proof fn drift_grows_with_the_budget_spent(s: LoopState, at: int)
    requires
        single_laws::in_unit_range(s.quality_scale(at)),
        close::unit() - s.quality_scale(at).value() >= power2::pow2(125),
        single_laws::between(s.frequency, 119, 169),
    ensures
        ({
            let u = close::unit();
            let spent = (u - s.quality_scale(at).value()) * s.frequency.value();
            close::close(
                4 * (s.drift_variance(at).value() * (u * (u * u))),
                spent * spent,
                13,
            )
        }),
{
    let u = close::unit();
    let one = constants::of(single::ONE_BITS);
    let half = constants::of(north_agc::HALF);
    let q = s.quality_scale(at);
    let f = s.frequency;
    let spent = one.minus_spec(q);
    power2::lemma_pow2_pos(single::UNIT as nat);
    single_laws::value_of_one();
    halves_in_units();
    power2::lemma_pow2_pos(125);
    power2::lemma_pow2_unfold(125);
    assert(q.neg_spec().value() == -q.value());
    single_laws::rest_in_unit_range(q);
    single_laws::rank_within_one(spent);
    close::amount_has_value(q);
    single::rank_orders_values(q, one);
    close::difference_is_close(one, q);
    let e = u - q.value();
    assert(1 * e == e) by (nonlinear_arith);
    assert(spent.value() >= power2::pow2(124));
    assert(single_laws::between(spent, 124, 149));
    close::between_is_amount(spent, 124, 149);
    close::between_is_amount(half, 148, 148);
    close::between_is_amount(f, 119, 169);
    single_laws::product_between(half, spent, 148, 148, 124, 149);
    single_laws::product_between(half.times_spec(spent), f, 123, 148, 119, 169);
    let r = half.times_spec(spent).times_spec(f);
    close::between_is_amount(r, 93, 168);
    single_laws::product_between(r, r, 93, 168, 93, 168);
    close::product_of_three_is_close(half, spent, f);
    close::product_is_close(r, r);
    drift_in_units(
        r.times_spec(r).value(),
        r.value(),
        half.value(),
        spent.value(),
        e,
        f.value(),
        u,
    );
}

proof fn drift_in_units(d: int, r: int, half: int, spent: int, e: int, f: int, u: int)
    requires
        u > 0,
        2 * half == u,
        r >= 0,
        spent >= 0,
        e >= 0,
        f >= 0,
        close::close(d * u, r * r, 1),
        close::close(r * (u * u), half * spent * f, 3),
        close::close(spent, e, 1),
    ensures
        close::close(4 * (d * (u * (u * u))), (e * f) * (e * f), 13),
{
    let sf = spent * f;
    let ef = e * f;
    close::close_times(r * (u * u), half * spent * f, 3, 2);
    assert(2 * (half * spent * f) == sf * u) by (nonlinear_arith)
        requires
            2 * half == u,
            sf == spent * f,
    ;
    assert(2 * (r * (u * u)) == ((2 * r) * u) * u) by (nonlinear_arith);
    close::close_without((2 * r) * u, sf, 3, u);
    close::close_times(spent, e, 1, f);
    close::close_chain((2 * r) * u, sf, ef, 3, 1);
    let x = (2 * r) * u;
    close::close_products(x, ef, 5, x, ef, 5);
    let k = 4 * (u * u);
    assert(k >= 0) by (nonlinear_arith)
        requires
            k == 4 * (u * u),
    ;
    close::close_times(d * u, r * r, 1, k);
    assert((r * r) * k == x * x) by (nonlinear_arith)
        requires
            x == (2 * r) * u,
            k == 4 * (u * u),
    ;
    assert((d * u) * k == 4 * (d * (u * (u * u)))) by (nonlinear_arith)
        requires
            k == 4 * (u * u),
    ;
    close::close_chain((d * u) * k, x * x, ef * ef, 1, 11);
}

/// A detection may be off by the configured number of standard deviations of
/// the phase error, by at least a quarter of a sample, and by no more than a
/// quarter of the rotation. Between these ends the limit times the frequency
/// is the standard deviation times their number, up to a few roundings.
pub proof fn gate_is_so_many_deviations(s: LoopState, scatter: Single, period: Single)
    requires
        s.locked(),
        s.errors.std_dev() == Some(scatter),
        single_laws::between(s.frequency, 119, 169),
        single_laws::between(s.params.gate_sigma, 139, 169),
        single_laws::between(scatter, 119, 169),
        single_laws::between(period, 139, 189),
    ensures
        s.gate(period) matches Some(g) && {
            let u = close::unit();
            let most = period.value();
            &&& g.finite()
            &&& 0x80_0000 * (4 * g.value()) <= 0x80_0001 * most
            &&& 4 * g.value() >= u || 0x80_0000 * (4 * g.value()) >= 0x7f_ffff * most
            &&& (4 * g.value() > u && 0x80_0000 * (4 * g.value()) < 0x7f_ffff * most)
                ==> close::close(
                g.value() * s.frequency.value(),
                s.params.gate_sigma.value() * scatter.value(),
                3,
            )
        },
{
    let u = close::unit();
    let sigma = s.params.gate_sigma;
    let f = s.frequency;
    let least = constants::of(rotation_loop::MIN_TIMING_GATE_SAMPLES);
    let quarter = constants::of(rotation_loop::MAX_TIMING_GATE_FRACTION);
    power2::lemma_pow2_pos(single::UNIT as nat);
    halves_in_units();
    loop_laws::beyond_resolution(f);
    close::between_is_amount(f, 119, 169);
    close::between_is_amount(sigma, 139, 169);
    close::between_is_amount(scatter, 119, 169);
    close::between_is_amount(period, 139, 189);
    close::between_is_amount(least, 147, 147);
    close::between_is_amount(quarter, 147, 147);
    single_laws::product_between(sigma, scatter, 139, 169, 119, 169);
    let x = sigma.times_spec(scatter);
    close::between_is_amount(x, 109, 189);
    close::quotient_between(x, f, 109, 189, 119, 169);
    let raw = x.over_spec(f);
    close::between_is_amount(raw, 89, 219);
    close::product_is_close(sigma, scatter);
    close::quotient_is_close(x, f);
    close::close_chain(
        raw.value() * f.value(),
        x.value() * u,
        sigma.value() * scatter.value(),
        1,
        1,
    );
    single_laws::product_between(period, quarter, 139, 189, 147, 147);
    let top = period.times_spec(quarter);
    close::between_is_amount(top, 137, 187);
    close::product_is_close(period, quarter);
    let (tv, pv) = (top.value(), period.value());
    close::close_times(tv * u, pv * quarter.value(), 1, 4);
    assert(4 * (tv * u) == (4 * tv) * u && 4 * (pv * quarter.value()) == pv * u)
        by (nonlinear_arith)
        requires
            4 * quarter.value() == u,
    ;
    close::close_without(4 * tv, pv, 1, u);
    assert(1 * pv == pv) by (nonlinear_arith);
    single::rank_orders_values(raw, least);
    single::rank_orders_values(least, raw);
    let widened = raw.max_spec(least);
    single::rank_orders_values(top, widened);
    single::rank_orders_values(widened, top);
    assert(s.gate(period) == Some(widened.min_spec(top)));
}

/// A drift is charged for what the mean phase error is beyond its own noise of
/// two standard deviations over the root of their number. For every amount `w`
/// that is above that noise, the drift times the frequency is no less than
/// what the mean is beyond `w`; for every amount below it, no more; both up to
/// a few roundings.
pub proof fn drift_is_what_stands_out(s: LoopState, mean: Single, scatter: Single, w: int)
    requires
        s.errors.mean() == Some(mean),
        s.errors.std_dev() == Some(scatter),
        mean.finite(),
        single_laws::between(scatter, 89, 169),
        single_laws::between(s.frequency, 119, 149),
        2 <= s.errors.count() <= 0x100_0000,
        single_laws::within(mean, 169),
        s.systematic_drift().rank() == 0 || single_laws::normal(s.systematic_drift()),
        w >= 0,
    ensures
        ({
            let u = close::unit();
            let n = s.errors.count() as int;
            let drift = s.systematic_drift().value() * s.frequency.value();
            let m = mean.abs_spec().value();
            let noise = 4 * (scatter.value() * scatter.value());
            let square = n * (w * w);
            &&& 0x80_0000 * square >= 0x80_0010 * noise ==> 0x80_0000 * ((m - w) * u)
                <= 0x80_0008 * drift
            &&& 0x80_0000 * square <= 0x7f_fff0 * noise && m >= w ==> 0x80_0000 * drift
                <= 0x80_0008 * ((m - w) * u)
            &&& 0x80_0000 * square <= 0x7f_fff0 * noise && m < w ==> drift == 0
        }),
{
    let u = close::unit();
    let h = single::HIDDEN as nat;
    let n = s.errors.count() as int;
    let two = constants::of(math::TWO);
    let zero = constants::of(0);
    let count = Single::from_integer_spec(n);
    let f = s.frequency;
    power2::lemma2_to64();
    power2::lemma_pow2_pos(single::UNIT as nat);
    power2::lemma_pow2_unfold(150);
    single_laws::power_pattern_value(h, 23, 150);
    single_laws::within_values(two, 150);
    assert(two.value() == 2 * u);
    assert(single_laws::between(two, 150, 150));
    close::between_is_amount(two, 150, 150);
    close::between_is_amount(scatter, 89, 169);
    close::between_is_amount(f, 119, 149);
    bearing_laws::count_between(n);
    single_laws::within_more(count, 173, 249);
    power2::lemma_pow2_strictly_increases(49, 149);
    close::between_is_amount(count, 149, 173);
    close::root_is_close(count);
    close::root_bounds(count);
    let root = count.sqrt_spec();
    close::between_is_amount(root, 98, 200);
    single_laws::product_between(two, scatter, 150, 150, 89, 169);
    let x = two.times_spec(scatter);
    close::between_is_amount(x, 90, 170);
    close::quotient_between(x, root, 90, 170, 98, 200);
    let floor = x.over_spec(root);
    close::between_is_amount(floor, 39, 221);
    close::product_is_close(two, scatter);
    close::quotient_is_close(x, root);
    noise_in_units(floor.value(), x.value(), root.value(), n, scatter.value(), u);
    // What is beyond the noise.
    let m = mean.abs_spec();
    assert(close::amount(m));
    close::amount_has_value(m);
    assert(floor.neg_spec().value() == -floor.value());
    single_laws::within_values(m, 169);
    single_laws::within_values(floor, 221);
    single_laws::within_more(m, 169, 221);
    single_laws::within_values(m, 221);
    single_laws::within_values(floor.neg_spec(), 221);
    single_laws::sum_within(m, floor.neg_spec(), 221);
    let d = m.minus_spec(floor);
    let beyond = d.max_spec(zero);
    let drift = s.systematic_drift();
    assert(drift == beyond.over_spec(f).abs_spec());
    single::rank_orders_values(d, zero);
    single::rank_orders_values(zero, d);
    assert(zero.value() == 0);
    let fv = f.value();
    let (mv, nv) = (m.value(), floor.value());
    if mv <= nv {
        single_laws::sum_is_at_most(m, floor.neg_spec(), zero);
        assert(d.value() <= 0);
        assert(beyond.rank() == 0);
        zero_drift(beyond, f);
        assert(drift.value() == 0);
        assert(0 * fv == 0);
    } else {
        close::difference_is_close(m, floor);
        close::close_is_positive(d.value(), mv - nv, 1);
        assert(beyond == d);
        assert(close::amount(d));
        single_laws::within_values(f, 149);
        let (dv, w1) = (d.value(), f.value());
        assert(dv * u >= w1) by (nonlinear_arith)
            requires
                dv >= 1,
                u >= w1,
                u > 0,
        ;
        let q = d.over_spec(f);
        single_laws::over_in_order(d, d, f);
        assert(q.abs_spec() == q);
        close::quotient_not_lost(d, f);
        close::quotient_is_close(d, f);
        close::close_times(d.value(), mv - nv, 1, u);
        close::close_chain(q.value() * fv, d.value() * u, (mv - nv) * u, 1, 1);
    }
    beyond_in_units(
        drift.value() * fv,
        mv,
        nv,
        w,
        n,
        4 * (scatter.value() * scatter.value()),
        u,
    );
}

proof fn zero_drift(x: Single, f: Single)
    requires
        x.rank() == 0,
        !x.nan(),
        close::amount(f),
        f.rank() > 0,
    ensures
        x.over_spec(f).abs_spec().value() == 0,
{
    close::amount_has_value(f);
    let u = power2::pow2(single::UNIT as nat);
    let v = f.value() as nat;
    assert(0 * u == 0 && 0 * v == 0);
    ieee::nearest_of_value(single::HIDDEN as nat, single::INFINITE as nat, 0, v, 0);
    ieee::pattern_parts(single::HIDDEN as nat, 0, 0);
}

/// The square of the noise, times the count, is four times the variance.
proof fn noise_in_units(floor: int, x: int, root: int, n: int, s: int, u: int)
    requires
        u > 0,
        floor >= 0,
        x >= 0,
        root >= 0,
        n >= 1,
        s >= 0,
        close::close(x * u, (2 * u) * s, 1),
        close::close(floor * root, x * u, 1),
        close::close(root * root, (n * u) * u, 2),
    ensures
        close::close(n * (floor * floor), 4 * (s * s), 12),
{
    let uu = u * u;
    assert((2 * u) * s == (2 * s) * u) by (nonlinear_arith);
    close::close_chain(floor * root, x * u, (2 * s) * u, 1, 1);
    let a = floor * root;
    let b = (2 * s) * u;
    close::close_products(a, b, 3, a, b, 3);
    let ff = floor * floor;
    assert(ff >= 0) by (nonlinear_arith)
        requires
            ff == floor * floor,
    ;
    close::close_back(root * root, (n * u) * u, 2);
    close::close_times((n * u) * u, root * root, 3, ff);
    assert((root * root) * ff == a * a) by (nonlinear_arith)
        requires
            a == floor * root,
            ff == floor * floor,
    ;
    close::close_chain(((n * u) * u) * ff, a * a, b * b, 3, 7);
    let c = n * ff;
    let e = 4 * (s * s);
    assert(((n * u) * u) * ff == c * uu && b * b == e * uu) by (nonlinear_arith)
        requires
            c == n * ff,
            e == 4 * (s * s),
            b == (2 * s) * u,
            uu == u * u,
    ;
    assert(uu > 0) by (nonlinear_arith)
        requires
            uu == u * u,
            u > 0,
    ;
    close::close_without(c, e, 11, uu);
    close::close_by_more(c, e, 11, 12);
}

proof fn beyond_in_units(drift: int, m: int, floor: int, w: int, n: int, noise: int, u: int)
    requires
        u > 0,
        m >= 0,
        floor >= 0,
        w >= 0,
        n >= 1,
        noise >= 0,
        close::close(n * (floor * floor), noise, 12),
        m <= floor ==> drift == 0,
        m > floor ==> close::close(drift, (m - floor) * u, 3),
    ensures
        0x80_0000 * (n * (w * w)) >= 0x80_0010 * noise ==> 0x80_0000 * ((m - w) * u)
            <= 0x80_0008 * drift,
        0x80_0000 * (n * (w * w)) <= 0x7f_fff0 * noise && m >= w ==> 0x80_0000 * drift
            <= 0x80_0008 * ((m - w) * u),
        0x80_0000 * (n * (w * w)) <= 0x7f_fff0 * noise && m < w ==> drift == 0,
{
    let a = n * (floor * floor);
    let b = n * (w * w);
    if 0x80_0000 * b >= 0x80_0010 * noise {
        assert(b >= a);
        assert(w >= floor) by (nonlinear_arith)
            requires
                n * (w * w) >= n * (floor * floor),
                n >= 1,
                w >= 0,
                floor >= 0,
        ;
        assert((m - w) * u <= (m - floor) * u) by (nonlinear_arith)
            requires
                w >= floor,
                u > 0,
        ;
        if m <= floor {
            assert((m - w) * u <= 0) by (nonlinear_arith)
                requires
                    m <= w,
                    u > 0,
            ;
        }
    }
    if 0x80_0000 * b <= 0x7f_fff0 * noise {
        assert(b <= a);
        assert(w <= floor) by (nonlinear_arith)
            requires
                n * (w * w) <= n * (floor * floor),
                n >= 1,
                w >= 0,
                floor >= 0,
        ;
        assert((m - w) * u >= (m - floor) * u) by (nonlinear_arith)
            requires
                w <= floor,
                u > 0,
        ;
        if m >= w {
            assert((m - w) * u >= 0) by (nonlinear_arith)
                requires
                    m >= w,
                    u > 0,
            ;
        }
    }
}

/// The lock quality without scatter is the sum of both weights; a phase
/// scatter of pi takes the weight of the phase, a rate scatter of a hundredth
/// of the rate that of the frequency.
pub proof fn lock_quality_weighs_both(
    s: LoopState,
    phase_std: Single,
    rate: Single,
    rate_std: Single,
)
    requires
        s.errors.std_dev() == Some(phase_std),
        s.rates.mean() == Some(rate),
        s.rates.std_dev() == Some(rate_std),
        single_laws::between(rate, 119, 169),
        close::amount(phase_std),
        close::amount(rate_std),
        single_laws::in_unit_range(s.params.lock_quality_weights.phase_weight),
        single_laws::in_unit_range(s.params.lock_quality_weights.frequency_weight),
    ensures
        s.lock_quality() matches Some(q) && {
            let w = s.params.lock_quality_weights;
            let u = close::unit();
            let still = phase_std == constants::of(0);
            let steady = rate_std == constants::of(0);
            let shaken = 1000000 * phase_std.value() >= 3141594 * u && single_laws::within(
                phase_std,
                189,
            );
            let unsteady = 0x80_0000 * (100 * rate_std.value()) >= 0x80_0008 * rate.value()
                && single_laws::within(rate_std, 189);
            &&& still && steady ==> q == w.phase_weight.plus_spec(w.frequency_weight)
            &&& still && unsteady ==> q.value() == w.phase_weight.value()
            &&& shaken && steady ==> q.value() == w.frequency_weight.value()
            &&& shaken && unsteady ==> q.value() == 0
        },
{
    let u = close::unit();
    let zero = constants::of(0);
    let one = constants::of(single::ONE_BITS);
    let pi = constants::of(constants::PI);
    let hundred = constants::of(rotation_loop::HUNDRED);
    let w = s.params.lock_quality_weights;
    let spread = phase_std.abs_spec().over_spec(pi);
    let cv = rate_std.over_spec(rate).abs_spec();
    let cost = cv.times_spec(hundred);
    power2::lemma_pow2_pos(single::UNIT as nat);
    single_laws::value_of_one();
    close::pi_in_units();
    math::turn_is_twice_pi();
    close::amount_has_value(pi);
    hundred_in_units();
    close::between_is_amount(rate, 119, 169);
    close::between_is_amount(hundred, 155, 156);
    loop_laws::beyond_resolution(rate);
    assert(rate.abs_spec() == rate);
    assert(phase_std.abs_spec() == phase_std);
    one_less_nothing();
    if phase_std == zero {
        bearing_laws::zero_over(pi);
        assert(one.minus_spec(spread).clamp_spec(zero, one) == one);
    } else if 1000000 * phase_std.value() >= 3141594 * u && single_laws::within(phase_std, 189) {
        power2::lemma_pow2_strictly_increases(119, 149);
        at_least_one(phase_std, pi);
        nothing_left(spread);
        assert(one.minus_spec(spread).clamp_spec(zero, one).rank() == 0);
    }
    if rate_std == zero {
        bearing_laws::zero_over(rate);
        zero_times(hundred);
        assert(one.minus_spec(cost).clamp_spec(zero, one) == one);
    } else if 0x80_0000 * (100 * rate_std.value()) >= 0x80_0008 * rate.value()
        && single_laws::within(rate_std, 189) {
        cost_is_whole(rate_std, rate, hundred);
        nothing_left(cost);
        assert(one.minus_spec(cost).clamp_spec(zero, one).rank() == 0);
    }
    let p = one.minus_spec(spread).clamp_spec(zero, one);
    let f = one.minus_spec(cost).clamp_spec(zero, one);
    if !p.nan() && !f.nan() {
        weight_of(w.phase_weight, p);
        weight_of(w.frequency_weight, f);
        plus_nothing(w.phase_weight.times_spec(p), w.frequency_weight.times_spec(f));
    }
}

pub proof fn hundred_in_units()
    ensures
        constants::of(rotation_loop::HUNDRED).value() == 100 * close::unit(),
        single_laws::between(constants::of(rotation_loop::HUNDRED), 155, 156),
{
    let h = single::HIDDEN as nat;
    power2::lemma2_to64();
    ieee::pattern_parts(h, 132, 0xc8_0000);
    power2::lemma_pow2_adds(17, 132);
    power2::lemma_pow2_adds(6, 149);
    power2::lemma_pow2_adds(7, 149);
    power2::lemma_pow2_pos(132);
    assert(constants::of(rotation_loop::HUNDRED).value() == 0xc8_0000 * power2::pow2(132));
    single_laws::within_values(constants::of(rotation_loop::HUNDRED), 156);
}

/// One less nothing is one.
pub proof fn one_less_nothing()
    ensures
        constants::of(single::ONE_BITS).minus_spec(constants::of(0)) == constants::of(
            single::ONE_BITS,
        ),
{
    let one = constants::of(single::ONE_BITS);
    assert(constants::of(0).neg_spec().value() == 0);
    close::amount_has_value(one);
    ieee::nearest_of_held(
        single::HIDDEN as nat,
        single::INFINITE as nat,
        single::ONE_BITS as nat,
    );
    ieee::pattern_value_increases(single::HIDDEN as nat, 0, single::ONE_BITS as nat);
}

/// Zero times a positive number is zero.
pub proof fn zero_times(x: Single)
    requires
        close::amount(x),
    ensures
        constants::of(0).times_spec(x) == constants::of(0),
        x.times_spec(constants::of(0)) == constants::of(0),
{
    close::amount_has_value(x);
    let v = x.value() as nat;
    let d = power2::pow2(single::UNIT as nat);
    power2::lemma_pow2_pos(single::UNIT as nat);
    assert(0 * v == 0 && v * 0 == 0 && 0 * d == 0);
    ieee::nearest_of_value(single::HIDDEN as nat, single::INFINITE as nat, 0, d, 0);
}

/// A number over a smaller one is at least one.
proof fn at_least_one(a: Single, b: Single)
    requires
        close::amount(a),
        single_laws::within(a, 189),
        close::amount(b),
        b.value() >= power2::pow2(119),
        a.value() >= b.value(),
    ensures
        close::amount(a.over_spec(b)),
        a.over_spec(b).rank() >= constants::of(single::ONE_BITS).rank(),
{
    power2::lemma_pow2_pos(119);
    close::amount_has_value(b);
    single_laws::quotient_within(a, b, 189, 119);
    single::rank_orders_values(b, a);
    single::rank_orders_values(a, b);
    single_laws::over_in_order(b, a, b);
    single_laws::over_itself(b);
}

/// One less a number from one on is nothing, once it is held in range.
proof fn nothing_left(x: Single)
    requires
        close::amount(x),
        x.rank() >= constants::of(single::ONE_BITS).rank(),
    ensures
        ({
            let one = constants::of(single::ONE_BITS);
            let zero = constants::of(0);
            let r = one.minus_spec(x).clamp_spec(zero, one);
            r.rank() == 0 && !r.nan()
        }),
{
    let one = constants::of(single::ONE_BITS);
    single_laws::rest_in_unit_range(x);
    single::rank_orders_values(one, x);
    single::rank_orders_values(x, one);
    assert(x.neg_spec().value() == -x.value());
    let s = one.value() - x.value();
    ieee::nearest_exists(
        single::HIDDEN as nat,
        single::INFINITE as nat,
        crate::arithmetic::magnitude(s),
        1,
    );
    if s == 0 {
        ieee::nearest_of_held(single::HIDDEN as nat, single::INFINITE as nat, 0);
    }
}

/// A scatter of a hundredth of the rate costs the whole score.
proof fn cost_is_whole(rate_std: Single, rate: Single, hundred: Single)
    requires
        close::amount(rate_std),
        single_laws::within(rate_std, 189),
        single_laws::between(rate, 119, 169),
        hundred.value() == 100 * close::unit(),
        single_laws::between(hundred, 155, 156),
        0x80_0000 * (100 * rate_std.value()) >= 0x80_0008 * rate.value(),
    ensures
        ({
            let cost = rate_std.over_spec(rate).abs_spec().times_spec(hundred);
            &&& close::amount(cost)
            &&& cost.rank() >= constants::of(single::ONE_BITS).rank()
        }),
{
    let u = close::unit();
    let one = constants::of(single::ONE_BITS);
    power2::lemma2_to64();
    power2::lemma_pow2_pos(single::UNIT as nat);
    single_laws::value_of_one();
    close::between_is_amount(rate, 119, 169);
    close::between_is_amount(hundred, 155, 156);
    power2::lemma_pow2_adds(7, 112);
    power2::lemma_pow2_pos(112);
    assert(rate_std.value() >= power2::pow2(112));
    assert(single_laws::between(rate_std, 112, 189));
    close::quotient_between(rate_std, rate, 112, 189, 119, 169);
    let x = rate_std.over_spec(rate);
    close::between_is_amount(x, 92, 219);
    assert(x.abs_spec() == x);
    single_laws::product_between(x, hundred, 92, 219, 155, 156);
    let cost = x.times_spec(hundred);
    close::between_is_amount(cost, 98, 226);
    close::quotient_is_close(rate_std, rate);
    close::product_is_close(x, hundred);
    let (cv, xv, rv, sv) = (cost.value(), x.value(), rate.value(), rate_std.value());
    assert(xv * (100 * u) == (100 * xv) * u) by (nonlinear_arith);
    close::close_without(cv, 100 * xv, 1, u);
    close::close_times(cv, 100 * xv, 1, rv);
    close::close_times(xv * rv, sv * u, 1, 100);
    assert(100 * (xv * rv) == (100 * xv) * rv) by (nonlinear_arith);
    close::close_chain(cv * rv, (100 * xv) * rv, 100 * (sv * u), 1, 1);
    let e = 100 * (sv * u);
    assert(0x80_0000 * e >= 0x80_0008 * (rv * u)) by (nonlinear_arith)
        requires
            e == 100 * (sv * u),
            0x80_0000 * (100 * sv) >= 0x80_0008 * rv,
            u > 0,
    ;
    assert(cv >= u) by (nonlinear_arith)
        requires
            0x80_0000 * (e - cv * rv) <= 3 * e,
            0x80_0000 * e >= 0x80_0008 * (rv * u),
            rv > 0,
            u > 0,
    ;
    single::rank_orders_values(one, cost);
    single::rank_orders_values(cost, one);
}

/// A weight times one is the weight, and times zero nothing.
proof fn weight_of(w: Single, score: Single)
    requires
        single_laws::in_unit_range(w),
        !score.nan(),
        score.rank() == 0 || score == constants::of(single::ONE_BITS) || single_laws::in_unit_range(
            score,
        ),
    ensures
        score == constants::of(single::ONE_BITS) ==> w.times_spec(score) == w,
        score.rank() == 0 ==> w.times_spec(score).value() == 0 && w.times_spec(score).finite(),
{
    if score == constants::of(single::ONE_BITS) {
        single_laws::one_times(w);
        measure_laws::product_commutes(w, score);
    } else if score.rank() == 0 {
        let h = single::HIDDEN as nat;
        close::amount_has_value(w);
        let v = w.value() as nat;
        let d = power2::pow2(single::UNIT as nat);
        power2::lemma_pow2_pos(single::UNIT as nat);
        ieee::pattern_parts(h, 0, 0);
        assert(v * 0 == 0 && 0 * d == 0);
        assert(score.value() == 0);
        ieee::nearest_of_value(h, single::INFINITE as nat, 0, d, 0);
    }
}

/// A sum with nothing is the other term.
proof fn plus_nothing(a: Single, b: Single)
    ensures
        a.finite() && b.finite() && a.value() >= 0 && b.value() == 0 ==> a.plus_spec(b).value()
            == a.value(),
        a.finite() && b.finite() && b.value() >= 0 && a.value() == 0 ==> a.plus_spec(b).value()
            == b.value(),
{
    let h = single::HIDDEN as nat;
    let inf = single::INFINITE as nat;
    ieee::pattern_parts(h, 0, 0);
    if a.finite() && b.finite() && a.value() >= 0 && b.value() == 0 {
        ieee::nearest_of_held(h, inf, a.magnitude() as nat);
        ieee::nearest_of_held(h, inf, 0);
        ieee::pattern_value_increases(h, 0, a.magnitude() as nat);
    }
    if a.finite() && b.finite() && b.value() >= 0 && a.value() == 0 {
        ieee::nearest_of_held(h, inf, b.magnitude() as nat);
        ieee::nearest_of_held(h, inf, 0);
        ieee::pattern_value_increases(h, 0, b.magnitude() as nat);
    }
}

} // verus!
