//! How the lock quality falls with the scatter.
use crate::close;
use crate::constants;
use crate::ieee;
use crate::rdf::bearing_laws;
use crate::rdf::lock_laws;
use crate::rdf::loop_laws;
use crate::rdf::measure_laws;
use crate::rdf::rotation_loop;
use crate::rdf::rotation_loop::LoopState;
use crate::rdf::steering_laws;
use crate::rdf::steering_laws::distance;
use crate::signal_processing::math;
use crate::single;
use crate::single::Single;
use crate::single_laws;
use vstd::arithmetic::power2;
use vstd::prelude::*;

verus! {

/// A weight times what a share leaves of one: with a share of `n / d`, the
/// score times `d` is the weight times `d - n`, up to a few roundings.
proof fn score_of_rest(x: Single, w: Single, n: int, d: int)
    requires
        single_laws::in_unit_range(x),
        single_laws::in_unit_range(w),
        d > 0,
        0 <= n <= 2 * d,
        close::close(x.value() * d, n * close::unit(), 3),
    ensures
        ({
            let one = constants::of(single::ONE_BITS);
            let zero = constants::of(0);
            let p = one.minus_spec(x).clamp_spec(zero, one);
            let t = w.times_spec(p);
            let u = close::unit();
            &&& p == one.minus_spec(x)
            &&& close::amount(t)
            &&& t.value() <= u
            &&& 0x80_0000 * distance((t.value() * d) * u, (w.value() * (d - n)) * u) <= 8 * ((u
                * d) * u)
        }),
{
    let h = single::HIDDEN as nat;
    let inf = single::INFINITE as nat;
    let u = close::unit();
    let one = constants::of(single::ONE_BITS);
    power2::lemma2_to64();
    power2::lemma_pow2_pos(single::UNIT as nat);
    power2::lemma_pow2_strictly_increases(24, single::UNIT as nat);
    single_laws::value_of_one();
    single_laws::rest_in_unit_range(x);
    let p = one.minus_spec(x);
    close::amount_has_value(x);
    close::amount_has_value(w);
    close::amount_has_value(p);
    single::rank_orders_values(x, one);
    single::rank_orders_values(w, one);
    single::rank_orders_values(p, one);
    assert(x.neg_spec().value() == -x.value());
    single_laws::sum_is_close(one, x.neg_spec(), 149);
    single_laws::times_unit(w, p);
    let t = w.times_spec(p);
    single::rank_orders_values(t, one);
    close::amount_has_value(t);
    let (xv, wv, pv, tv) = (x.value(), w.value(), p.value(), t.value());
    let top = (wv as nat) * (pv as nat);
    ieee::nearest_exists(h, inf, top, u as nat);
    ieee::nearest_ratio_is_close(h, inf, top, u as nat);
    assert(2 * h == 0x100_0000);
    let v = ieee::pattern_value(h, ieee::nearest(h, inf, top, u as nat)) as int;
    assert(tv == v);
    let wp = wv * pv;
    let tu = tv * u;
    assert(u * v == tu) by (nonlinear_arith)
        requires
            tu == tv * u,
            tv == v,
    ;
    assert(0x100_0000 * (tu - wp) <= tu + 0x100_0000 * u);
    assert(0x100_0000 * (wp - tu) <= tu + 0x100_0000 * u);
    rest_in_units(xv, wv, pv, tv, n, d, u);
}

proof fn rest_in_units(x: int, w: int, p: int, t: int, n: int, d: int, u: int)
    requires
        u >= 0x100_0000,
        d > 0,
        0 <= x <= u,
        0 <= w <= u,
        0 <= p <= u,
        0 <= t <= u,
        0 <= n <= 2 * d,
        close::close(x * d, n * u, 3),
        0x100_0000 * (p - (u - x)) <= u,
        0x100_0000 * ((u - x) - p) <= u,
        0x100_0000 * (t * u - w * p) <= t * u + 0x100_0000 * u,
        0x100_0000 * (w * p - t * u) <= t * u + 0x100_0000 * u,
    ensures
        0x80_0000 * distance((t * d) * u, (w * (d - n)) * u) <= 8 * ((u * d) * u),
{
    let uu = u * u;
    let ud = u * d;
    // t * u is w * p up to one part.
    assert(t * u <= uu && 0x100_0000 * u <= uu) by (nonlinear_arith)
        requires
            0 <= t <= u,
            u >= 0x100_0000,
            uu == u * u,
    ;
    let a = t * u - w * p;
    assert(-uu <= 0x80_0000 * a <= uu);
    assert(-(uu * d) <= 0x80_0000 * (a * d) <= uu * d) by (nonlinear_arith)
        requires
            -uu <= 0x80_0000 * a <= uu,
            d > 0,
    ;
    // p * d is u * d - x * d up to one part, and x * d is n * u.
    let b = p - (u - x);
    let wd = w * d;
    assert(0 <= wd <= ud) by (nonlinear_arith)
        requires
            wd == w * d,
            ud == u * d,
            0 <= w <= u,
            d > 0,
    ;
    assert(-(u * wd) <= 0x100_0000 * (b * wd) <= u * wd) by (nonlinear_arith)
        requires
            -u <= 0x100_0000 * b <= u,
            wd >= 0,
    ;
    let c = x * d - n * u;
    let nu = n * u;
    assert(0 <= nu <= 2 * ud) by (nonlinear_arith)
        requires
            nu == n * u,
            ud == u * d,
            0 <= n <= 2 * d,
            u > 0,
    ;
    assert(-(6 * ud) <= 0x80_0000 * c <= 6 * ud);
    assert(-(6 * (ud * w)) <= 0x80_0000 * (c * w) <= 6 * (ud * w)) by (nonlinear_arith)
        requires
            -(6 * ud) <= 0x80_0000 * c <= 6 * ud,
            w >= 0,
    ;
    let udu = ud * u;
    assert(ud * w <= udu && u * wd <= udu && uu * d == udu) by (nonlinear_arith)
        requires
            0 <= w <= u,
            0 <= wd <= ud,
            ud >= 0,
            udu == ud * u,
            ud == u * d,
            uu == u * u,
    ;
    let lhs = (t * d) * u;
    let rhs = (w * (d - n)) * u;
    let (pwd, uwd, xwd, nuw) = (p * wd, u * wd, x * wd, (n * u) * w);
    assert(a * d == lhs - pwd) by (nonlinear_arith)
        requires
            a == t * u - w * p,
            lhs == (t * d) * u,
            pwd == p * wd,
            wd == w * d,
    ;
    assert(b * wd == pwd - uwd + xwd) by (nonlinear_arith)
        requires
            b == p - (u - x),
            pwd == p * wd,
            uwd == u * wd,
            xwd == x * wd,
    ;
    assert(c * w == xwd - nuw) by (nonlinear_arith)
        requires
            c == x * d - n * u,
            xwd == x * wd,
            wd == w * d,
            nuw == (n * u) * w,
    ;
    assert(rhs == uwd - nuw) by (nonlinear_arith)
        requires
            rhs == (w * (d - n)) * u,
            uwd == u * wd,
            wd == w * d,
            nuw == (n * u) * w,
    ;
    assert(2 * (0x80_0000 * (lhs - rhs)) <= 2 * udu + udu + 12 * udu);
}

/// The lock quality falls in proportion to the scatter of the phase: where the
/// rate is steady it is the weight of the frequency, plus the share of pi that
/// the scatter leaves of the weight of the phase, up to a few roundings.
pub proof fn quality_falls_with_the_phase_scatter(
    s: LoopState,
    phase_std: Single,
    rate: Single,
)
    requires
        s.errors.std_dev() == Some(phase_std),
        s.rates.mean() == Some(rate),
        s.rates.std_dev() == Some(constants::of(0)),
        single_laws::between(rate, 119, 169),
        single_laws::between(phase_std, 119, 151),
        phase_std.value() <= constants::of(constants::PI).value(),
        single_laws::in_unit_range(s.params.lock_quality_weights.phase_weight),
        single_laws::in_unit_range(s.params.lock_quality_weights.frequency_weight),
    ensures
        s.lock_quality() matches Some(q) && {
            let w = s.params.lock_quality_weights;
            let u = close::unit();
            let pi = constants::of(constants::PI).value();
            let exact = w.frequency_weight.value() * pi + w.phase_weight.value() * (pi
                - phase_std.value());
            0x80_0000 * distance((q.value() * pi) * u, exact * u) <= 12 * ((u * pi) * u)
        },
{
    let u = close::unit();
    let zero = constants::of(0);
    let one = constants::of(single::ONE_BITS);
    let pi = constants::of(constants::PI);
    let hundred = constants::of(rotation_loop::HUNDRED);
    let w = s.params.lock_quality_weights;
    power2::lemma2_to64();
    power2::lemma_pow2_pos(single::UNIT as nat);
    single_laws::value_of_one();
    close::pi_in_units();
    math::turn_is_twice_pi();
    close::amount_has_value(pi);
    power2::lemma_pow2_unfold(150);
    power2::lemma_pow2_unfold(151);
    single_laws::within_values(pi, 151);
    lock_laws::hundred_in_units();
    close::between_is_amount(hundred, 155, 156);
    close::between_is_amount(rate, 119, 169);
    close::between_is_amount(phase_std, 119, 151);
    loop_laws::beyond_resolution(rate);
    assert(rate.abs_spec() == rate && phase_std.abs_spec() == phase_std);
    bearing_laws::zero_over(rate);
    lock_laws::zero_times(hundred);
    lock_laws::one_less_nothing();
    close::quotient_between(phase_std, pi, 119, 151, 150, 151);
    close::quotient_is_close(phase_std, pi);
    let x = phase_std.over_spec(pi);
    close::between_is_amount(x, 117, 150);
    single::rank_orders_values(phase_std, pi);
    single_laws::over_in_order(phase_std, pi, pi);
    single_laws::over_itself(pi);
    close::close_by_more(x.value() * pi.value(), phase_std.value() * u, 1, 3);
    score_of_rest(x, w.phase_weight, phase_std.value(), pi.value());
    let t = w.phase_weight.times_spec(one.minus_spec(x).clamp_spec(zero, one));
    single_laws::one_times(w.frequency_weight);
    measure_laws::product_commutes(w.frequency_weight, one);
    weighed_sum(
        t,
        w.frequency_weight,
        pi.value(),
        (w.phase_weight.value() * (pi.value() - phase_std.value())),
    );
}

/// The lock quality falls in proportion to the scatter of the rate: where the
/// phase is still it is the weight of the phase, plus what a hundred times the
/// scatter over the mean leaves of the weight of the frequency, up to a few
/// roundings.
pub proof fn quality_falls_with_the_rate_scatter(s: LoopState, rate: Single, rate_std: Single)
    requires
        s.errors.std_dev() == Some(constants::of(0)),
        s.rates.mean() == Some(rate),
        s.rates.std_dev() == Some(rate_std),
        single_laws::between(rate, 119, 169),
        single_laws::between(rate_std, 99, 169),
        0x80_0000 * (100 * rate_std.value()) <= 0x7f_fff8 * rate.value(),
        single_laws::in_unit_range(s.params.lock_quality_weights.phase_weight),
        single_laws::in_unit_range(s.params.lock_quality_weights.frequency_weight),
    ensures
        s.lock_quality() matches Some(q) && {
            let w = s.params.lock_quality_weights;
            let u = close::unit();
            let m = rate.value();
            let exact = w.phase_weight.value() * m + w.frequency_weight.value() * (m - 100
                * rate_std.value());
            0x80_0000 * distance((q.value() * m) * u, exact * u) <= 12 * ((u * m) * u)
        },
{
    let u = close::unit();
    let zero = constants::of(0);
    let one = constants::of(single::ONE_BITS);
    let pi = constants::of(constants::PI);
    let hundred = constants::of(rotation_loop::HUNDRED);
    let w = s.params.lock_quality_weights;
    power2::lemma_pow2_pos(single::UNIT as nat);
    single_laws::value_of_one();
    close::pi_in_units();
    math::turn_is_twice_pi();
    close::amount_has_value(pi);
    lock_laws::hundred_in_units();
    close::between_is_amount(hundred, 155, 156);
    close::between_is_amount(rate, 119, 169);
    close::between_is_amount(rate_std, 99, 169);
    loop_laws::beyond_resolution(rate);
    assert(rate.abs_spec() == rate && zero.abs_spec() == zero);
    bearing_laws::zero_over(pi);
    lock_laws::one_less_nothing();
    close::quotient_between(rate_std, rate, 99, 169, 119, 169);
    let y = rate_std.over_spec(rate);
    close::between_is_amount(y, 79, 199);
    assert(y.abs_spec() == y);
    single_laws::product_between(y, hundred, 79, 199, 155, 156);
    let x = y.times_spec(hundred);
    close::between_is_amount(x, 85, 206);
    close::quotient_is_close(rate_std, rate);
    close::product_is_close(y, hundred);
    let (xv, yv, m, sv) = (x.value(), y.value(), rate.value(), rate_std.value());
    assert(yv * (100 * u) == (100 * yv) * u) by (nonlinear_arith);
    close::close_without(xv, 100 * yv, 1, u);
    close::close_times(xv, 100 * yv, 1, m);
    close::close_times(yv * m, sv * u, 1, 100);
    assert(100 * (yv * m) == (100 * yv) * m) by (nonlinear_arith);
    close::close_chain(xv * m, (100 * yv) * m, 100 * (sv * u), 1, 1);
    assert(100 * (sv * u) == (100 * sv) * u) by (nonlinear_arith);
    let e = (100 * sv) * u;
    assert(xv <= u) by (nonlinear_arith)
        requires
            0x80_0000 * (xv * m - e) <= 3 * e,
            e == (100 * sv) * u,
            0x80_0000 * (100 * sv) <= 0x7f_fff8 * m,
            m > 0,
            u > 0,
    ;
    single::rank_orders_values(x, one);
    single::rank_orders_values(one, x);
    score_of_rest(x, w.frequency_weight, 100 * sv, m);
    let t = w.frequency_weight.times_spec(one.minus_spec(x).clamp_spec(zero, one));
    single_laws::one_times(w.phase_weight);
    measure_laws::product_commutes(w.phase_weight, one);
    bearing_laws::plus_commutes(w.phase_weight, t);
    weighed_sum(t, w.phase_weight, m, w.frequency_weight.value() * (m - 100 * sv));
}

/// The sum of a score and a weight.
proof fn weighed_sum(t: Single, w: Single, d: int, part: int)
    requires
        close::amount(t),
        t.value() <= close::unit(),
        single_laws::in_unit_range(w),
        d > 0,
        0x80_0000 * distance((t.value() * d) * close::unit(), part * close::unit()) <= 8
            * ((close::unit() * d) * close::unit()),
    ensures
        ({
            let u = close::unit();
            let q = t.plus_spec(w).value();
            0x80_0000 * distance((q * d) * u, (w.value() * d + part) * u) <= 12 * ((u * d) * u)
        }),
{
    let u = close::unit();
    let one = constants::of(single::ONE_BITS);
    power2::lemma_pow2_pos(single::UNIT as nat);
    single_laws::value_of_one();
    close::amount_has_value(t);
    close::amount_has_value(w);
    single::rank_orders_values(w, one);
    single_laws::rank_within_one(w);
    single_laws::within_values(t, 149);
    single_laws::sum_within(t, w, 149);
    steering_laws::sum_is_off(t, w);
    let (q, tv, wv) = (t.plus_spec(w).value(), t.value(), w.value());
    let e = q - (tv + wv);
    let du = d * u;
    assert(du > 0) by (nonlinear_arith)
        requires
            du == d * u,
            d > 0,
            u > 0,
    ;
    assert(-(2 * (u * du)) <= 0x80_0000 * (e * du) <= 2 * (u * du)) by (nonlinear_arith)
        requires
            -(2 * u) <= 0x80_0000 * e <= 2 * u,
            du > 0,
    ;
    let lhs = (q * d) * u;
    let mid = (tv * d) * u;
    let rhs = (wv * d + part) * u;
    let pu = part * u;
    assert(e * du == lhs - mid - (wv * d) * u && rhs == (wv * d) * u + pu && u * du == (u * d)
        * u) by (nonlinear_arith)
        requires
            e == q - (tv + wv),
            du == d * u,
            lhs == (q * d) * u,
            mid == (tv * d) * u,
            rhs == (wv * d + part) * u,
            pu == part * u,
    ;
}

} // verus!
