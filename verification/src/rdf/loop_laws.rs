//! What the settings and the figures of the trackers stand for.
use crate::close;
use crate::config::NorthTickConfig;
use crate::constants;
use crate::ieee;
use crate::rdf::north_ref_dpll;
use crate::rdf::north_ref_dpll::DpllNorthTracker;
use crate::rdf::north_ref_simple;
use crate::rdf::north_ref_simple::{SimpleNorthTracker, SimpleTiming};
use crate::rdf::rotation_loop;
use crate::rdf::rotation_loop::{LockQualityWeights, LoopState};
use crate::signal_processing::agc;
use crate::signal_processing::math;
use crate::single;
use crate::single::Single;
use crate::single_laws;
use vstd::arithmetic::power2;
use vstd::prelude::*;

verus! {

/// Two pi lies between four and eight.
pub proof fn turn_between()
    ensures
        single_laws::between(constants::of(constants::TWO_PI), 151, 152),
{
    let turn = constants::of(constants::TWO_PI);
    close::pi_in_units();
    power2::lemma2_to64();
    power2::lemma_pow2_adds(2, 149);
    power2::lemma_pow2_adds(3, 149);
    power2::lemma_pow2_pos(149);
    close::amount_has_value(turn);
    single_laws::within_values(turn, 152);
}

/// What is close to an amount of turns, in radians.
proof fn turns_in_radians(x: int, turn: int, y: int, u: int)
    requires
        close::close(x, turn * y, 3),
        6283185 * u <= 1000000 * turn,
        1000000 * turn <= 6283186 * u,
        y >= 0,
        u >= 0,
    ensures
        6283182 * (y * u) <= 1000000 * x,
        1000000 * x <= 6283189 * (y * u),
{
    let t = turn * y;
    let w = y * u;
    assert(6283185 * w <= 1000000 * t && 1000000 * t <= 6283186 * w) by (nonlinear_arith)
        requires
            t == turn * y,
            w == y * u,
            y >= 0,
            6283185 * u <= 1000000 * turn,
            1000000 * turn <= 6283186 * u,
    ;
    assert(w >= 0) by (nonlinear_arith)
        requires
            w == y * u,
            y >= 0,
            u >= 0,
    ;
}

/// A frequency in radians per sample, times the sample rate, is 2 pi times the
/// frequency in Hz, to six digits.
pub proof fn omega_is_the_rate(hz: Single, rate: Single, r: nat, s: nat, t: nat, v: nat)
    requires
        single_laws::between(hz, r, s),
        single_laws::between(rate, t, v),
        49 <= r <= s <= 249,
        49 <= t <= v <= 249,
        v + 23 <= r + 151 < v + 277,
        t <= s + 129,
        s + 152 - t < 277,
    ensures
        ({
            let w = north_ref_dpll::omega_spec(hz, rate);
            &&& single_laws::between(w, (r + 151 - v) as nat, (s + 152 - t) as nat)
            &&& 6283182 * (hz.value() * close::unit()) <= 1000000 * (w.value() * rate.value())
            &&& 1000000 * (w.value() * rate.value()) <= 6283189 * (hz.value() * close::unit())
        }),
{
    let turn = constants::of(constants::TWO_PI);
    let u = close::unit();
    close::pi_in_units();
    turn_between();
    power2::lemma_pow2_pos(single::UNIT as nat);
    close::between_is_amount(hz, r, s);
    close::between_is_amount(rate, t, v);
    single_laws::product_between(turn, hz, 151, 152, r, s);
    let x = turn.times_spec(hz);
    close::quotient_between(x, rate, r + 2, s + 3, t, v);
    let w = x.over_spec(rate);
    close::between_is_amount(x, r + 2, s + 3);
    close::product_is_close(turn, hz);
    close::quotient_is_close(x, rate);
    close::close_chain(
        w.value() * rate.value(),
        x.value() * u,
        turn.value() * hz.value(),
        1,
        1,
    );
    turns_in_radians(w.value() * rate.value(), turn.value(), hz.value(), u);
}

/// The limits of the loop are those of the configuration: times the sample
/// rate they are 2 pi times the frequencies in Hz, to six digits.
pub proof fn limits_are_as_configured(
    config: NorthTickConfig,
    sample_rate: Single,
    deferral: nat,
    weights: LockQualityWeights,
)
    requires
        single_laws::between(config.dpll.frequency_min_hz, 109, 189),
        single_laws::between(config.dpll.frequency_max_hz, 109, 189),
        single_laws::between(sample_rate, 129, 189),
    ensures
        ({
            let p = north_ref_dpll::params_of(config, sample_rate, deferral, weights);
            let rate = sample_rate.value();
            let low = config.dpll.frequency_min_hz.value() * close::unit();
            let high = config.dpll.frequency_max_hz.value() * close::unit();
            &&& 6283182 * low <= 1000000 * (p.min_omega.value() * rate)
            &&& 1000000 * (p.min_omega.value() * rate) <= 6283189 * low
            &&& 6283182 * high <= 1000000 * (p.max_omega.value() * rate)
            &&& 1000000 * (p.max_omega.value() * rate) <= 6283189 * high
        }),
{
    omega_is_the_rate(config.dpll.frequency_min_hz, sample_rate, 109, 189, 129, 189);
    omega_is_the_rate(config.dpll.frequency_max_hz, sample_rate, 109, 189, 129, 189);
}

/// The gains of the loop are those of a second-order loop that is updated once
/// a rotation. With a natural frequency of `wn` radians a rotation, the
/// proportional gain is twice the damping times `wn`, and the integral gain,
/// times the samples in a rotation, is `wn` squared: so that the proportional
/// gain times the rotations a second is 4 pi times damping and natural
/// frequency, and the integral gain times both rates is the square of 2 pi
/// times the natural frequency, to five digits.
pub proof fn gains_are_of_second_order(
    config: NorthTickConfig,
    sample_rate: Single,
    deferral: nat,
    weights: LockQualityWeights,
)
    requires
        single_laws::between(config.dpll.natural_frequency_hz, 129, 169),
        single_laws::between(config.dpll.initial_frequency_hz, 149, 169),
        single_laws::between(config.dpll.damping_ratio, 129, 153),
        single_laws::between(sample_rate, 149, 173),
    ensures
        ({
            let p = north_ref_dpll::params_of(config, sample_rate, deferral, weights);
            let natural = config.dpll.natural_frequency_hz.value();
            let turns = config.dpll.initial_frequency_hz.value();
            let damped = config.dpll.damping_ratio.value() * natural;
            let square = (natural * natural) * close::unit();
            let rates = sample_rate.value() * turns;
            &&& 12566359 * damped <= 1000000 * (p.kp.value() * turns)
            &&& 1000000 * (p.kp.value() * turns) <= 12566383 * damped
            &&& 394783 * square <= 10000 * (p.ki.value() * rates)
            &&& 10000 * (p.ki.value() * rates) <= 394785 * square
        }),
{
    let u = close::unit();
    let h = single::HIDDEN as nat;
    let natural = config.dpll.natural_frequency_hz;
    let tick = config.dpll.initial_frequency_hz;
    let damping = config.dpll.damping_ratio;
    let two = constants::of(math::TWO);
    let p = north_ref_dpll::params_of(config, sample_rate, deferral, weights);
    power2::lemma2_to64();
    power2::lemma_pow2_pos(single::UNIT as nat);
    power2::lemma_pow2_unfold(150);
    single_laws::power_pattern_value(h, 23, 150);
    single_laws::within_values(two, 150);
    assert(two.value() == 2 * u);
    omega_is_the_rate(natural, tick, 129, 169, 149, 169);
    let wn = north_ref_dpll::omega_spec(natural, tick);
    close::between_is_amount(natural, 129, 169);
    close::between_is_amount(tick, 149, 169);
    close::between_is_amount(damping, 129, 153);
    close::between_is_amount(sample_rate, 149, 173);
    close::between_is_amount(wn, 111, 172);
    let (w, n, t, z, rate) = (
        wn.value(),
        natural.value(),
        tick.value(),
        damping.value(),
        sample_rate.value(),
    );
    // The proportional gain.
    single_laws::product_between(two, damping, 150, 150, 129, 153);
    single_laws::product_between(two.times_spec(damping), wn, 130, 154, 111, 172);
    close::product_of_three_is_close(two, damping, wn);
    let kp = p.kp.value();
    close::close_times(kp * (u * u), (2 * u) * z * w, 3, t);
    proportional_in_units(kp, u, z, w, t, n);
    // The integral gain.
    let samples = sample_rate.over_spec(tick);
    let square = wn.times_spec(wn);
    single_laws::product_between(wn, wn, 111, 172, 111, 172);
    close::quotient_between(sample_rate, tick, 149, 173, 149, 169);
    close::between_is_amount(samples, 129, 173);
    close::between_is_amount(square, 73, 195);
    close::quotient_between(square, samples, 73, 195, 129, 173);
    close::product_is_close(wn, wn);
    close::quotient_is_close(sample_rate, tick);
    close::quotient_is_close(square, samples);
    close::between_is_amount(p.ki, 49, 215);
    integral_in_units(p.ki.value(), samples.value(), square.value(), u, w, t, rate, n);
}

proof fn proportional_in_units(kp: int, u: int, z: int, w: int, t: int, n: int)
    requires
        u > 0,
        z >= 0,
        w >= 0,
        t >= 0,
        n >= 0,
        close::close((kp * (u * u)) * t, ((2 * u) * z * w) * t, 3),
        6283182 * (n * u) <= 1000000 * (w * t),
        1000000 * (w * t) <= 6283189 * (n * u),
    ensures
        12566359 * (z * n) <= 1000000 * (kp * t),
        1000000 * (kp * t) <= 12566383 * (z * n),
{
    let a = kp * t;
    let b = z * (w * t);
    let e = z * n;
    assert((kp * (u * u)) * t == (a * u) * u) by (nonlinear_arith)
        requires
            a == kp * t,
    ;
    assert(((2 * u) * z * w) * t == (2 * b) * u) by (nonlinear_arith)
        requires
            b == z * (w * t),
    ;
    close::close_without(a * u, 2 * b, 3, u);
    let eu = e * u;
    assert(6283182 * eu <= 1000000 * b && 1000000 * b <= 6283189 * eu) by (nonlinear_arith)
        requires
            b == z * (w * t),
            eu == (z * n) * u,
            z >= 0,
            6283182 * (n * u) <= 1000000 * (w * t),
            1000000 * (w * t) <= 6283189 * (n * u),
    {
        assert(eu == z * (n * u)) by (nonlinear_arith)
            requires
                eu == (z * n) * u,
        ;
    }
    let au = a * u;
    assert(12566359 * eu <= 1000000 * au && 1000000 * au <= 12566383 * eu) by {
        assert(eu >= 0) by (nonlinear_arith)
            requires
                eu == (z * n) * u,
                z >= 0,
                n >= 0,
                u > 0,
        ;
    }
    assert(12566359 * e <= 1000000 * a && 1000000 * a <= 12566383 * e) by (nonlinear_arith)
        requires
            eu == e * u,
            au == a * u,
            u > 0,
            12566359 * eu <= 1000000 * au,
            1000000 * au <= 12566383 * eu,
    ;
}

proof fn integral_in_units(
    ki: int,
    samples: int,
    square: int,
    u: int,
    w: int,
    t: int,
    rate: int,
    n: int,
)
    requires
        u > 0,
        ki >= 0,
        samples >= 0,
        square >= 0,
        w >= 0,
        t > 0,
        rate >= 0,
        n >= 0,
        close::close(square * u, w * w, 1),
        close::close(samples * t, rate * u, 1),
        close::close(ki * samples, square * u, 1),
        6283182 * (n * u) <= 1000000 * (w * t),
        1000000 * (w * t) <= 6283189 * (n * u),
    ensures
        394783 * ((n * n) * u) <= 10000 * (ki * (rate * t)),
        10000 * (ki * (rate * t)) <= 394785 * ((n * n) * u),
{
    // ki * rate * u * t is close to ki * samples * t * t, which is close to
    // w * w * t * t.
    close::close_chain(ki * samples, square * u, w * w, 1, 1);
    let tt = t * t;
    assert(tt >= 0) by (nonlinear_arith)
        requires
            tt == t * t,
    ;
    close::close_times(ki * samples, w * w, 3, tt);
    close::close_back(samples * t, rate * u, 1);
    let kt = ki * t;
    assert(kt >= 0) by (nonlinear_arith)
        requires
            kt == ki * t,
            ki >= 0,
            t > 0,
    ;
    close::close_times(rate * u, samples * t, 2, kt);
    assert((samples * t) * kt == (ki * samples) * tt) by (nonlinear_arith)
        requires
            kt == ki * t,
            tt == t * t,
    ;
    close::close_chain((rate * u) * kt, (ki * samples) * tt, (w * w) * tt, 2, 3);
    let a = ki * (rate * t);
    assert((rate * u) * kt == a * u) by (nonlinear_arith)
        requires
            kt == ki * t,
            a == ki * (rate * t),
    ;
    let x = w * t;
    assert((w * w) * tt == x * x) by (nonlinear_arith)
        requires
            x == w * t,
            tt == t * t,
    ;
    let y = n * u;
    assert(y >= 0) by (nonlinear_arith)
        requires
            y == n * u,
            n >= 0,
            u > 0,
    ;
    assert(6283182 * 6283182 * (y * y) <= 1000000 * 1000000 * (x * x)) by (nonlinear_arith)
        requires
            0 <= 6283182 * y <= 1000000 * x,
    ;
    assert(1000000 * 1000000 * (x * x) <= 6283189 * 6283189 * (y * y)) by (nonlinear_arith)
        requires
            0 <= 1000000 * x <= 6283189 * y,
    {
        let p = 1000000 * x;
        let q = 6283189 * y;
        assert(p * p <= q * q) by (nonlinear_arith)
            requires
                0 <= p <= q,
        ;
        assert(p * p == 1000000 * 1000000 * (x * x)) by (nonlinear_arith)
            requires
                p == 1000000 * x,
        ;
        assert(q * q == 6283189 * 6283189 * (y * y)) by (nonlinear_arith)
            requires
                q == 6283189 * y,
        ;
    }
    let yy = y * y;
    let xx = x * x;
    assert(39478376 * yy <= 1000000 * xx && 1000000 * xx <= 39478465 * yy) by (nonlinear_arith)
        requires
            6283182 * 6283182 * yy <= 1000000 * 1000000 * xx,
            1000000 * 1000000 * xx <= 6283189 * 6283189 * yy,
            yy >= 0,
    ;
    let au = a * u;
    let e = (n * n) * u;
    assert(yy == e * u) by (nonlinear_arith)
        requires
            yy == y * y,
            y == n * u,
            e == (n * n) * u,
    ;
    assert(yy >= 0) by (nonlinear_arith)
        requires
            yy == y * y,
    ;
    assert(394783 * yy <= 10000 * au && 10000 * au <= 394785 * yy);
    assert(394783 * e <= 10000 * a && 10000 * a <= 394785 * e) by (nonlinear_arith)
        requires
            au == a * u,
            yy == e * u,
            u > 0,
            394783 * yy <= 10000 * au,
            10000 * au <= 394785 * yy,
    ;
}

/// The whole part of an amount.
pub proof fn whole_part_of(x: Single)
    requires
        close::amount(x),
    ensures
        x.to_count_spec() * close::unit() <= x.value(),
        x.to_count_spec() < usize::MAX ==> x.value() < (x.to_count_spec() + 1) * close::unit(),
{
    let u = close::unit();
    let v = x.value();
    power2::lemma_pow2_pos(single::UNIT as nat);
    close::amount_has_value(x);
    vstd::arithmetic::div_mod::lemma_fundamental_div_mod(v, u);
    vstd::arithmetic::div_mod::lemma_mod_bound(v, u);
    let w = v / u;
    let n = x.to_count_spec() as int;
    assert(u * w == w * u) by (nonlinear_arith);
    assert((w + 1) * u == w * u + u) by (nonlinear_arith);
    assert(n * u <= w * u) by (nonlinear_arith)
        requires
            n <= w,
            u > 0,
    ;
}

/// A thousand, in units.
pub proof fn thousand_in_units()
    ensures
        constants::of(agc::THOUSAND).value() == 1000 * close::unit(),
        single_laws::between(constants::of(agc::THOUSAND), 158, 159),
{
    let h = single::HIDDEN as nat;
    power2::lemma2_to64();
    ieee::pattern_parts(h, 135, 0xfa_0000);
    power2::lemma_pow2_adds(14, 135);
    power2::lemma_pow2_adds(9, 149);
    power2::lemma_pow2_adds(10, 149);
    power2::lemma_pow2_pos(135);
    assert(constants::of(agc::THOUSAND).value() == 0xfa_0000 * power2::pow2(135));
    single_laws::within_values(constants::of(agc::THOUSAND), 159);
}

/// The longest coast is as long as the configuration says, in whole samples:
/// a thousand times its length is the milliseconds times the sample rate, up
/// to one sample and rounding.
pub proof fn longest_coast_is_as_configured(
    config: NorthTickConfig,
    sample_rate: Single,
    deferral: nat,
    weights: LockQualityWeights,
)
    requires
        single_laws::between(config.max_coast_ms, 109, 189),
        single_laws::between(sample_rate, 129, 189),
    ensures
        ({
            let n = north_ref_dpll::params_of(
                config,
                sample_rate,
                deferral,
                weights,
            ).max_coast_samples as int;
            let exact = config.max_coast_ms.value() * sample_rate.value();
            let u = close::unit() * close::unit();
            &&& 0x80_0000 * (1000 * (n * u)) <= 0x80_0003 * exact
            &&& n < usize::MAX ==> 0x80_0000 * (1000 * ((n + 1) * u)) >= 0x7f_fffd * exact
        }),
{
    thousand_in_units();
    close::milliseconds_at_rate(config.max_coast_ms, constants::of(agc::THOUSAND), sample_rate);
    let x = config.max_coast_ms.over_spec(constants::of(agc::THOUSAND)).times_spec(sample_rate);
    close::between_is_amount(x, 79, 220);
    whole_part_of(x);
    power2::lemma_pow2_pos(single::UNIT as nat);
    assert(x.max_spec(constants::of(0)) == x);
    samples_in_units(
        x.to_count_spec() as int,
        x.value(),
        close::unit(),
        config.max_coast_ms.value() * sample_rate.value(),
    );
}

/// The dead time of the detector is as long as the configuration says, in
/// whole samples.
pub proof fn dead_time_is_as_configured(config: NorthTickConfig, sample_rate: Single)
    requires
        single_laws::between(config.min_interval_ms, 109, 189),
        single_laws::between(sample_rate, 129, 189),
    ensures
        ({
            let n = north_ref_simple::min_samples_of(config, sample_rate) as int;
            let exact = config.min_interval_ms.value() * sample_rate.value();
            let u = close::unit() * close::unit();
            &&& 0x80_0000 * (1000 * (n * u)) <= 0x80_0003 * exact
            &&& n < usize::MAX ==> 0x80_0000 * (1000 * ((n + 1) * u)) >= 0x7f_fffd * exact
        }),
{
    thousand_in_units();
    close::milliseconds_at_rate(
        config.min_interval_ms,
        constants::of(agc::THOUSAND),
        sample_rate,
    );
    let x = config.min_interval_ms.over_spec(constants::of(agc::THOUSAND)).times_spec(
        sample_rate,
    );
    close::between_is_amount(x, 79, 220);
    whole_part_of(x);
    power2::lemma_pow2_pos(single::UNIT as nat);
    samples_in_units(
        x.to_count_spec() as int,
        x.value(),
        close::unit(),
        config.min_interval_ms.value() * sample_rate.value(),
    );
}

pub proof fn samples_in_units(n: int, x: int, u: int, exact: int)
    requires
        u > 0,
        n >= 0,
        n * u <= x,
        close::close(1000 * (x * u), exact, 3),
    ensures
        0x80_0000 * (1000 * (n * (u * u))) <= 0x80_0003 * exact,
        x < (n + 1) * u ==> 0x80_0000 * (1000 * ((n + 1) * (u * u))) >= 0x7f_fffd * exact,
{
    let xu = x * u;
    assert(n * (u * u) <= xu) by (nonlinear_arith)
        requires
            xu == x * u,
            n * u <= x,
            u > 0,
    ;
    if x < (n + 1) * u {
        assert((n + 1) * (u * u) >= xu) by (nonlinear_arith)
            requires
                xu == x * u,
                x < (n + 1) * u,
                u > 0,
        ;
    }
}

/// The rotation that the simple tracker reports, in turns a second, times the
/// period in samples is the sample rate, up to one rounding.
pub proof fn simple_rotation_is_in_hz(t: SimpleNorthTracker)
    requires
        t.timing().period matches Some(p) && single_laws::between(p, 129, 189),
        single_laws::between(t.settings().sample_rate, 129, 189),
    ensures
        t.rotation_frequency_spec() matches Some(f) && close::close(
            f.value() * (t.timing().period->0).value(),
            t.settings().sample_rate.value() * close::unit(),
            1,
        ),
{
    let p = t.timing().period->0;
    let rate = t.settings().sample_rate;
    close::between_is_amount(p, 129, 189);
    close::between_is_amount(rate, 129, 189);
    close::quotient_between(rate, p, 129, 189, 129, 189);
    close::quotient_is_close(rate, p);
}

/// The rotation that the loop reports, in turns a second, times 2 pi is its
/// rate in radians per sample times the sample rate, to six digits.
pub proof fn loop_rotation_is_in_hz(t: DpllNorthTracker)
    requires
        single_laws::between(t.turn().frequency, 109, 169),
        single_laws::between(t.settings().sample_rate, 129, 189),
    ensures
        t.rotation_frequency_spec() matches Some(f) && {
            let radians = t.turn().frequency.value() * t.settings().sample_rate.value();
            &&& 6283182 * (f.value() * close::unit()) <= 1000000 * radians
            &&& 1000000 * radians <= 6283190 * (f.value() * close::unit())
        },
{
    let turn = constants::of(constants::TWO_PI);
    let w = t.turn().frequency;
    let rate = t.settings().sample_rate;
    let u = close::unit();
    turn_between();
    close::pi_in_units();
    power2::lemma_pow2_pos(single::UNIT as nat);
    close::between_is_amount(w, 109, 169);
    close::between_is_amount(rate, 129, 189);
    single_laws::product_between(w, rate, 109, 169, 129, 189);
    let x = w.times_spec(rate);
    close::between_is_amount(x, 89, 209);
    close::quotient_between(x, turn, 89, 209, 151, 152);
    let f = x.over_spec(turn);
    close::between_is_amount(f, 86, 207);
    close::product_is_close(w, rate);
    close::quotient_is_close(x, turn);
    close::close_chain(
        f.value() * turn.value(),
        x.value() * u,
        w.value() * rate.value(),
        1,
        1,
    );
    let exact = w.value() * rate.value();
    let t2 = turn.value() * f.value();
    assert(f.value() * turn.value() == t2) by (nonlinear_arith)
        requires
            t2 == turn.value() * f.value(),
    ;
    close::close_back(t2, exact, 3);
    let y = f.value() * u;
    let (tv, fv) = (turn.value(), f.value());
    assert(6283185 * y <= 1000000 * t2 && 1000000 * t2 <= 6283186 * y) by (nonlinear_arith)
        requires
            t2 == tv * fv,
            y == fv * u,
            fv >= 0,
            6283185 * u <= 1000000 * tv,
            1000000 * tv <= 6283186 * u,
    ;
    assert(y >= 0) by (nonlinear_arith)
        requires
            y == fv * u,
            fv >= 0,
            u > 0,
    ;
}

/// The uncertainty of the rate, in samples a rotation, is the share of the
/// rate that it scatters by times the period: times the mean rate and the
/// current one it is 2 pi times the scatter, to five digits.
pub proof fn rate_spread_is_the_scatter(s: LoopState, scatter: Single, mean: Single)
    requires
        s.rates.std_dev() == Some(scatter),
        s.rates.mean() == Some(mean),
        single_laws::between(scatter, 89, 169),
        single_laws::between(mean, 119, 169),
        single_laws::between(s.frequency, 119, 169),
    ensures
        ({
            let rates = mean.value() * s.frequency.value();
            let exact = (scatter.value() * close::unit()) * close::unit();
            &&& 6283180 * exact <= 1000000 * (s.rate_spread().value() * rates)
            &&& 1000000 * (s.rate_spread().value() * rates) <= 6283191 * exact
        }),
{
    let u = close::unit();
    let turn = constants::of(constants::TWO_PI);
    let f = s.frequency;
    let p = rotation_loop::period_of(f);
    let x = scatter.over_spec(mean);
    let r = x.times_spec(p);
    power2::lemma_pow2_pos(single::UNIT as nat);
    turn_between();
    close::pi_in_units();
    close::between_is_amount(scatter, 89, 169);
    close::between_is_amount(mean, 119, 169);
    close::between_is_amount(f, 119, 169);
    close::quotient_between(scatter, mean, 89, 169, 119, 169);
    close::quotient_between(turn, f, 151, 152, 119, 169);
    close::between_is_amount(x, 69, 199);
    close::between_is_amount(p, 131, 182);
    single_laws::product_between(x, p, 69, 199, 131, 182);
    close::quotient_is_close(scatter, mean);
    close::quotient_is_close(turn, f);
    close::product_is_close(x, p);
    beyond_resolution(mean);
    assert(s.rate_spread() == r);
    spread_in_units(
        r.value(),
        x.value(),
        p.value(),
        mean.value(),
        f.value(),
        scatter.value(),
        turn.value(),
        u,
    );
}

/// A number from `2^-30` on is beyond the frequency resolution.
pub proof fn beyond_resolution(x: Single)
    requires
        x.finite(),
        x.value() >= power2::pow2(119),
    ensures
        constants::of(constants::FREQUENCY_EPSILON).lt_spec(x),
{
    let h = single::HIDDEN as nat;
    power2::lemma2_to64();
    ieee::pattern_parts(h, 92, 0xdb_e6ff);
    power2::lemma_pow2_adds(27, 92);
    power2::lemma_pow2_pos(92);
    let e = constants::of(constants::FREQUENCY_EPSILON);
    assert(e.value() == 0xdb_e6ff * power2::pow2(92));
    single::rank_orders_values(e, x);
}

proof fn spread_in_units(
    r: int,
    x: int,
    p: int,
    m: int,
    f: int,
    s: int,
    turn: int,
    u: int,
)
    requires
        u > 0,
        x >= 0,
        p >= 0,
        m >= 0,
        f >= 0,
        s >= 0,
        close::close(r * u, x * p, 1),
        close::close(x * m, s * u, 1),
        close::close(p * f, turn * u, 1),
        6283185 * u <= 1000000 * turn,
        1000000 * turn <= 6283186 * u,
    ensures
        6283180 * ((s * u) * u) <= 1000000 * (r * (m * f)),
        1000000 * (r * (m * f)) <= 6283191 * ((s * u) * u),
{
    close::close_products(x * m, s * u, 1, p * f, turn * u, 1);
    let mf = m * f;
    assert(mf >= 0) by (nonlinear_arith)
        requires
            mf == m * f,
            m >= 0,
            f >= 0,
    ;
    close::close_times(r * u, x * p, 1, mf);
    assert((x * p) * mf == (x * m) * (p * f)) by (nonlinear_arith)
        requires
            mf == m * f,
    ;
    close::close_chain((r * u) * mf, (x * p) * mf, (s * u) * (turn * u), 1, 3);
    let a = r * mf;
    let e = (s * u) * turn;
    assert((r * u) * mf == a * u) by (nonlinear_arith)
        requires
            a == r * mf,
    ;
    assert((s * u) * (turn * u) == e * u) by (nonlinear_arith)
        requires
            e == (s * u) * turn,
    ;
    close::close_without(a, e, 5, u);
    let su = s * u;
    let w = su * u;
    assert(su >= 0) by (nonlinear_arith)
        requires
            su == s * u,
            s >= 0,
            u > 0,
    ;
    assert(6283185 * w <= 1000000 * e && 1000000 * e <= 6283186 * w) by (nonlinear_arith)
        requires
            e == su * turn,
            w == su * u,
            su >= 0,
            6283185 * u <= 1000000 * turn,
            1000000 * turn <= 6283186 * u,
    ;
    assert(w >= 0) by (nonlinear_arith)
        requires
            w == su * u,
            su >= 0,
            u > 0,
    ;
}

/// Each new interval makes up a tenth of the period, and each new squared
/// deviation a tenth of the variance: the average is nine tenths of what it
/// was and one tenth of what is new, to six digits.
pub proof fn smoothing_takes_a_tenth(old_average: Single, value: Single)
    requires
        single_laws::between(old_average, 79, 209),
        single_laws::between(value, 79, 209),
    ensures
        ({
            let x = north_ref_simple::smoothed(Some(old_average), value).value();
            let exact = 9 * old_average.value() + value.value();
            &&& 999999 * exact <= 10000000 * x
            &&& 10000000 * x <= 1000001 * exact
        }),
{
    let u = close::unit();
    let h = single::HIDDEN as nat;
    let a = constants::of(north_ref_simple::PERIOD_SMOOTHING_FACTOR);
    let one = constants::of(single::ONE_BITS);
    let rest = one.minus_spec(a);
    power2::lemma2_to64();
    power2::lemma_pow2_pos(single::UNIT as nat);
    ieee::pattern_parts(h, 122, 0xcc_cccd);
    power2::lemma_pow2_adds(27, 122);
    power2::lemma_pow2_pos(122);
    assert(a.value() == 0xcc_cccd * power2::pow2(122));
    assert(u == 0x800_0000 * power2::pow2(122));
    single_laws::value_of_one();
    power2::lemma_pow2_adds(4, 145);
    power2::lemma_pow2_adds(3, 146);
    power2::lemma_pow2_adds(1, 148);
    power2::lemma_pow2_pos(145);
    power2::lemma_pow2_pos(148);
    single_laws::rest_in_unit_range(a);
    assert(rest.finite());
    close::difference_is_close(one, a);
    assert(1 * (u - a.value()) == u - a.value()) by (nonlinear_arith);
    single_laws::within_values(rest, 149);
    single_laws::within_values(a, 146);
    single_laws::rank_within_one(rest);
    assert(single_laws::between(rest, 148, 149));
    assert(single_laws::between(a, 145, 146));
    close::between_is_amount(rest, 148, 149);
    close::between_is_amount(a, 145, 146);
    close::between_is_amount(old_average, 79, 209);
    close::between_is_amount(value, 79, 209);
    single_laws::product_between(rest, old_average, 148, 149, 79, 209);
    single_laws::product_between(a, value, 145, 146, 79, 209);
    let b = rest.times_spec(old_average);
    let c = a.times_spec(value);
    close::product_is_close(rest, old_average);
    close::product_is_close(a, value);
    close::between_is_amount(b, 78, 209);
    close::between_is_amount(c, 75, 206);
    single_laws::within_more(c, 206, 209);
    single_laws::sum_within(b, c, 209);
    close::sum_is_close(b, c);
    let x = b.plus_spec(c).value();
    tenths_in_units(rest.value(), a.value(), u, power2::pow2(122) as int);
    let (p, v) = (old_average.value(), value.value());
    let rp = rest.value() * p;
    let av = a.value() * v;
    close::close_sums(b.value() * u, rp, c.value() * u, av, 1);
    close::close_times(x, b.value() + c.value(), 1, u);
    assert((b.value() + c.value()) * u == b.value() * u + c.value() * u) by (nonlinear_arith);
    close::close_chain(x * u, (b.value() + c.value()) * u, rp + av, 1, 1);
    let pu = p * u;
    let vu = v * u;
    assert(8999997 * pu <= 10000000 * rp && 10000000 * rp <= 9000003 * pu) by (nonlinear_arith)
        requires
            rp == rest.value() * p,
            pu == p * u,
            p >= 0,
            8999997 * u <= 10000000 * rest.value(),
            10000000 * rest.value() <= 9000003 * u,
    ;
    assert(9999999 * vu <= 100000000 * av && 100000000 * av <= 10000001 * vu)
        by (nonlinear_arith)
        requires
            av == a.value() * v,
            vu == v * u,
            v >= 0,
            9999999 * u <= 100000000 * a.value(),
            100000000 * a.value() <= 10000001 * u,
    ;
    let e = 9 * p + v;
    let eu = e * u;
    assert(eu == 9 * pu + vu) by (nonlinear_arith)
        requires
            eu == e * u,
            e == 9 * p + v,
            pu == p * u,
            vu == v * u,
    ;
    assert(pu >= 0 && vu >= 0) by (nonlinear_arith)
        requires
            pu == p * u,
            vu == v * u,
            p >= 0,
            v >= 0,
            u > 0,
    ;
    let xu = x * u;
    assert(999999 * eu <= 10000000 * xu && 10000000 * xu <= 1000001 * eu);
    assert(999999 * e <= 10000000 * x && 10000000 * x <= 1000001 * e) by (nonlinear_arith)
        requires
            eu == e * u,
            xu == x * u,
            u > 0,
            999999 * eu <= 10000000 * xu,
            10000000 * xu <= 1000001 * eu,
    ;
}

proof fn tenths_in_units(rest: int, a: int, u: int, p: int)
    requires
        p > 0,
        a == 0xcc_cccd * p,
        u == 0x800_0000 * p,
        close::close(rest, u - a, 1),
    ensures
        8999997 * u <= 10000000 * rest,
        10000000 * rest <= 9000003 * u,
        9999999 * u <= 100000000 * a,
        100000000 * a <= 10000001 * u,
{
    let e = u - a;
    assert(1 * e == e) by (nonlinear_arith);
    assert(e == 0x733_3333 * p);
}

/// The interval between two ticks is their distance in samples, with the
/// sub-sample parts of both, up to two roundings: the last tick is at
/// `last + last_fraction`, the new one at `at + fraction`.
pub proof fn interval_is_the_distance(timing: SimpleTiming, at: int, fraction: Single, bits: nat)
    requires
        timing.last matches Some(last) && 0 <= last <= at && at - last <= power2::pow2(bits),
        bits <= 24,
        single_laws::within(fraction, 149),
        single_laws::within(timing.last_fraction, 149),
    ensures
        ({
            let exact = (at - timing.last->0) * close::unit() + fraction.value()
                - timing.last_fraction.value();
            let off = timing.interval(at, fraction).value() - exact;
            let tolerance = 4 * power2::pow2(bits + 149);
            -tolerance <= 0x80_0000 * off <= tolerance
        }),
{
    let d = at - timing.last->0;
    let u = close::unit();
    let count = Single::from_integer_spec(d);
    power2::lemma2_to64();
    if bits < 24 {
        power2::lemma_pow2_strictly_increases(bits, 24);
    }
    single_laws::count_is_exact(d);
    single_laws::count_within_power(d, bits);
    let r = bits + 149;
    single_laws::within_more(fraction, 149, r);
    single_laws::within_more(timing.last_fraction, 149, r);
    single_laws::within_values(count, r);
    single_laws::within_values(fraction, r);
    single_laws::within_values(timing.last_fraction, r);
    power2::lemma_pow2_unfold(r + 1);
    power2::lemma_pow2_unfold(r + 2);
    single_laws::sum_is_close(count, fraction, r + 1);
    let a = count.plus_spec(fraction);
    assert(timing.last_fraction.neg_spec().value() == -timing.last_fraction.value());
    single_laws::within_values(a, r + 1);
    single_laws::sum_is_close(a, timing.last_fraction.neg_spec(), r + 2);
}

/// The scatter of a tick is half the scatter of the intervals, in radians
/// squared: times the period squared and two it is the variance times the
/// square of 2 pi (39.4784), to five digits.
pub proof fn scatter_is_half_of_the_intervals(timing: SimpleTiming, variance: Single, period: Single)
    requires
        timing.variance == Some(variance),
        timing.period == Some(period),
        timing.intervals >= 2,
        single_laws::between(variance, 109, 169),
        single_laws::between(period, 139, 179),
    ensures
        timing.phase_variance() matches Some(v) && {
            let square = 2 * (v.value() * (period.value() * period.value()));
            let exact = variance.value() * (close::unit() * close::unit());
            &&& 394783 * exact <= 10000 * square
            &&& 10000 * square <= 394785 * exact
        },
{
    let u = close::unit();
    let h = single::HIDDEN as nat;
    let two = constants::of(math::TWO);
    let turn = constants::of(constants::TWO_PI);
    power2::lemma2_to64();
    power2::lemma_pow2_pos(single::UNIT as nat);
    power2::lemma_pow2_unfold(150);
    single_laws::power_pattern_value(h, 23, 150);
    single_laws::within_values(two, 150);
    turn_between();
    close::pi_in_units();
    close::between_is_amount(variance, 109, 169);
    close::between_is_amount(period, 139, 179);
    assert(single_laws::between(two, 150, 150));
    close::quotient_between(variance, two, 109, 169, 150, 150);
    close::quotient_between(turn, period, 151, 152, 139, 179);
    let half = variance.over_spec(two);
    let rad = turn.over_spec(period);
    close::between_is_amount(half, 108, 168);
    close::between_is_amount(rad, 121, 162);
    single_laws::product_between(half, rad, 108, 168, 121, 162);
    single_laws::product_between(half.times_spec(rad), rad, 80, 181, 121, 162);
    let v = half.times_spec(rad).times_spec(rad);
    close::between_is_amount(v, 52, 194);
    close::quotient_is_close(variance, two);
    close::quotient_is_close(turn, period);
    close::product_of_three_is_close(half, rad, rad);
    power2::lemma_pow2_strictly_increases(126, 139);
    single_laws::power_pattern_value(h, 23, 126);
    single::rank_orders_values(period, constants::of(constants::EPSILON));
    single::rank_orders_values(constants::of(constants::EPSILON), period);
    assert(timing.phase_variance() == Some(v));
    scatter_in_units(
        v.value(),
        half.value(),
        rad.value(),
        period.value(),
        variance.value(),
        turn.value(),
        u,
    );
}

proof fn scatter_in_units(v: int, half: int, rad: int, p: int, s: int, turn: int, u: int)
    requires
        u > 0,
        half >= 0,
        rad >= 0,
        p >= 0,
        s >= 0,
        turn >= 0,
        close::close(v * (u * u), half * rad * rad, 3),
        close::close(half * (2 * u), s * u, 1),
        close::close(rad * p, turn * u, 1),
        6283185 * u <= 1000000 * turn,
        1000000 * turn <= 6283186 * u,
    ensures
        394783 * (s * (u * u)) <= 10000 * (2 * (v * (p * p))),
        10000 * (2 * (v * (p * p))) <= 394785 * (s * (u * u)),
{
    let pp = p * p;
    assert(pp >= 0) by (nonlinear_arith)
        requires
            pp == p * p,
    ;
    assert(half * (2 * u) == (2 * half) * u) by (nonlinear_arith);
    close::close_without(2 * half, s, 1, u);
    close::close_products(rad * p, turn * u, 1, rad * p, turn * u, 1);
    let rr = (rad * p) * (rad * p);
    let tt = (turn * u) * (turn * u);
    close::close_products(2 * half, s, 1, rr, tt, 3);
    close::close_times(v * (u * u), half * rad * rad, 3, 2 * pp);
    assert((half * rad * rad) * (2 * pp) == (2 * half) * rr) by (nonlinear_arith)
        requires
            rr == (rad * p) * (rad * p),
            pp == p * p,
    ;
    close::close_chain((v * (u * u)) * (2 * pp), (2 * half) * rr, s * tt, 3, 5);
    let a = 2 * (v * pp);
    let uu = u * u;
    let q = turn * turn;
    let e = s * q;
    assert((v * uu) * (2 * pp) == a * uu) by (nonlinear_arith)
        requires
            a == 2 * (v * pp),
    ;
    assert(s * tt == e * uu) by (nonlinear_arith)
        requires
            tt == (turn * u) * (turn * u),
            e == s * q,
            q == turn * turn,
            uu == u * u,
    ;
    assert(uu > 0) by (nonlinear_arith)
        requires
            uu == u * u,
            u > 0,
    ;
    close::close_without(a, e, 9, uu);
    assert(6283185 * 6283185 * uu <= 1000000 * 1000000 * q) by (nonlinear_arith)
        requires
            0 <= 6283185 * u <= 1000000 * turn,
            uu == u * u,
            q == turn * turn,
    {
        let x = 6283185 * u;
        let y = 1000000 * turn;
        assert(x * x <= y * y) by (nonlinear_arith)
            requires
                0 <= x <= y,
        ;
        assert(x * x == 6283185 * 6283185 * uu && y * y == 1000000 * 1000000 * q)
            by (nonlinear_arith)
            requires
                x == 6283185 * u,
                y == 1000000 * turn,
                uu == u * u,
                q == turn * turn,
        ;
    }
    assert(1000000 * 1000000 * q <= 6283186 * 6283186 * uu) by (nonlinear_arith)
        requires
            0 <= 1000000 * turn <= 6283186 * u,
            uu == u * u,
            q == turn * turn,
    {
        let x = 6283186 * u;
        let y = 1000000 * turn;
        assert(y * y <= x * x) by (nonlinear_arith)
            requires
                0 <= y <= x,
        ;
        assert(x * x == 6283186 * 6283186 * uu && y * y == 1000000 * 1000000 * q)
            by (nonlinear_arith)
            requires
                x == 6283186 * u,
                y == 1000000 * turn,
                uu == u * u,
                q == turn * turn,
        ;
    }
    assert(39478413 * uu <= 1000000 * q && 1000000 * q <= 39478427 * uu) by (nonlinear_arith)
        requires
            6283185 * 6283185 * uu <= 1000000 * 1000000 * q,
            1000000 * 1000000 * q <= 6283186 * 6283186 * uu,
            uu > 0,
    ;
    let su = s * uu;
    assert(39478413 * su <= 1000000 * e && 1000000 * e <= 39478427 * su) by (nonlinear_arith)
        requires
            su == s * uu,
            e == s * q,
            s >= 0,
            39478413 * uu <= 1000000 * q,
            1000000 * q <= 39478427 * uu,
    ;
    assert(su >= 0) by (nonlinear_arith)
        requires
            su == s * uu,
            s >= 0,
            uu > 0,
    ;
}

/// A tick keeps three quarters of a period from the one before it, up to
/// rounding, in both trackers.
pub proof fn ticks_keep_three_quarters(
    simple: SimpleTiming,
    turn: LoopState,
    at: int,
    distance: int,
)
    requires
        0 <= distance <= 0x100_0000,
    ensures
        simple.last == Some(at - distance) && simple.period is Some && single_laws::between(
            simple.period->0,
            129,
            189,
        ) ==> ({
            let p = simple.period->0.value();
            let d = 0x80_0000 * (4 * (distance * close::unit()));
            &&& d < 0x7f_ffff * (3 * p) ==> simple.too_close(at)
            &&& d > 0x80_0001 * (3 * p) ==> !simple.too_close(at)
        }),
        turn.last == Some(at - distance) && single_laws::between(
            rotation_loop::period_of(turn.frequency),
            129,
            189,
        ) ==> ({
            let p = rotation_loop::period_of(turn.frequency).value();
            let d = 0x80_0000 * (4 * (distance * close::unit()));
            &&& d < 0x7f_ffff * (3 * p) ==> turn.too_close(at)
            &&& d > 0x80_0001 * (3 * p) ==> !turn.too_close(at)
        }),
{
    single_laws::count_is_exact(distance);
    if simple.last == Some(at - distance) && simple.period is Some && single_laws::between(
        simple.period->0,
        129,
        189,
    ) {
        three_quarters(simple.period->0, distance);
    }
    let p = rotation_loop::period_of(turn.frequency);
    if turn.last == Some(at - distance) && single_laws::between(p, 129, 189) {
        three_quarters(p, distance);
    }
}

proof fn three_quarters(p: Single, distance: int)
    requires
        single_laws::between(p, 129, 189),
        0 <= distance <= 0x100_0000,
    ensures
        ({
            let s = p.times_spec(constants::of(north_ref_simple::MIN_TICK_SPACING_FRACTION));
            let d = 0x80_0000 * (4 * (distance * close::unit()));
            let n = Single::from_integer_spec(distance);
            &&& d < 0x7f_ffff * (3 * p.value()) ==> n.lt_spec(s)
            &&& d > 0x80_0001 * (3 * p.value()) ==> !n.lt_spec(s)
        }),
{
    let h = single::HIDDEN as nat;
    let u = close::unit();
    let q = constants::of(north_ref_simple::MIN_TICK_SPACING_FRACTION);
    power2::lemma2_to64();
    power2::lemma_pow2_pos(single::UNIT as nat);
    ieee::pattern_parts(h, 125, 0xc0_0000);
    power2::lemma_pow2_adds(24, 125);
    power2::lemma_pow2_pos(125);
    power2::lemma_pow2_unfold(149);
    assert(q.value() == 0xc0_0000 * power2::pow2(125));
    assert(4 * q.value() == 3 * u);
    single_laws::within_values(q, 149);
    close::between_is_amount(p, 129, 189);
    single_laws::product_between(p, q, 129, 189, 148, 149);
    close::product_is_close(p, q);
    let s = p.times_spec(q);
    let (x, v) = (s.value(), p.value());
    let y = v * q.value();
    close::close_times(x * u, y, 1, 4);
    assert(4 * y == (3 * v) * u) by (nonlinear_arith)
        requires
            y == v * q.value(),
            4 * q.value() == 3 * u,
    ;
    assert(4 * (x * u) == (4 * x) * u) by (nonlinear_arith);
    close::close_without(4 * x, 3 * v, 1, u);
    assert(1 * (3 * v) == 3 * v) by (nonlinear_arith);
    single_laws::count_is_exact(distance);
    let n = Single::from_integer_spec(distance);
    single::rank_orders_values(n, s);
}

} // verus!
