//! What times, rates and counts stand for.
use crate::angle_laws;
use crate::close;
use crate::config;
use crate::config::{NorthTickConfig, RdfConfig, RotationFrequency};
use crate::constants;
use crate::ieee;
use crate::rdf::bearing_laws;
use crate::rdf::loop_laws;
use crate::rdf::looks_laws;
use crate::rdf::north_ref_common;
use crate::rdf::north_ref_common::WatchState;
use crate::signal_processing::math;
use crate::simulation::signal;
use crate::single;
use crate::single::Single;
use crate::single_laws;
use crate::stats;
use crate::tools::analyze;
use vstd::arithmetic::power2;
use vstd::prelude::*;

verus! {

/// A count over a count, times the latter, is the former.
pub proof fn share_of_counts(a: int, b: int)
    requires
        1 <= a <= 0x100_0000,
        1 <= b <= 0x100_0000,
    ensures
        ({
            let q = Single::from_integer_spec(a).over_spec(Single::from_integer_spec(b));
            &&& single_laws::between(q, 125, 173)
            &&& close::close(q.value() * b, a * close::unit(), 1)
        }),
{
    let u = close::unit();
    let (x, y) = (Single::from_integer_spec(a), Single::from_integer_spec(b));
    power2::lemma_pow2_pos(single::UNIT as nat);
    bearing_laws::count_between(a);
    bearing_laws::count_between(b);
    close::between_is_amount(x, 149, 173);
    close::between_is_amount(y, 149, 173);
    close::quotient_between(x, y, 149, 173, 149, 173);
    close::quotient_is_close(x, y);
    let q = x.over_spec(y).value();
    assert(q * (b * u) == (q * b) * u) by (nonlinear_arith);
    close::close_without(q * b, a * u, 1, u);
}

/// The time without a detection is told in seconds: the watch warns after a
/// second, so it is the samples over those of the warning.
pub proof fn silence_is_in_seconds(w: WatchState)
    requires
        1 <= w.since <= 0x100_0000,
        1 <= w.warn_after <= 0x100_0000,
    ensures
        close::close(w.seconds().value() * w.warn_after, w.since * close::unit(), 1),
{
    share_of_counts(w.since as int, w.warn_after as int);
}

/// A watch warns after as many samples as there are in a second.
pub proof fn watch_warns_after_a_second(sample_rate: Single)
    requires
        single_laws::between(sample_rate, 149, 173),
    ensures
        ({
            let n = WatchState::starting(sample_rate).warn_after as int;
            let u = close::unit();
            n * u <= sample_rate.value() < (n + 1) * u
        }),
{
    let one = constants::of(single::ONE_BITS);
    let u = close::unit();
    power2::lemma2_to64();
    power2::lemma_pow2_pos(single::UNIT as nat);
    single_laws::value_of_one();
    close::between_is_amount(sample_rate, 149, 173);
    single::rank_orders_values(sample_rate, one);
    single::rank_orders_values(one, sample_rate);
    let m = sample_rate.max_spec(one);
    assert(m.value() == sample_rate.value());
    loop_laws::whole_part_of(m);
    single_laws::counts_are_within(m, 24);
}

/// The time of a sample, times the sample rate, is its index.
pub proof fn sample_time_is_in_seconds(index: int, sample_rate: u32)
    requires
        1 <= index <= 0x100_0000,
        1 <= sample_rate <= 0x100_0000,
    ensures
        close::close(
            signal::time_spec(index as nat, sample_rate).value() * sample_rate,
            index * close::unit(),
            1,
        ),
{
    share_of_counts(index, sample_rate as int);
}

/// The microseconds in a sample, times the sample rate, are a million.
pub proof fn samples_make_a_second(sample_rate: u32)
    requires
        1 <= sample_rate <= 0x100_0000,
    ensures
        close::close(
            analyze::sample_us(sample_rate).value() * sample_rate,
            1000000 * close::unit(),
            1,
        ),
{
    single_laws::count_is_exact(1000000);
    million_in_units();
    let m = constants::of(analyze::MICROSECONDS);
    let u = close::unit();
    let rate = Single::from_integer_spec(sample_rate as int);
    power2::lemma_pow2_pos(single::UNIT as nat);
    bearing_laws::count_between(sample_rate as int);
    close::between_is_amount(rate, 149, 173);
    close::between_is_amount(m, 168, 169);
    close::quotient_between(m, rate, 168, 169, 149, 173);
    close::quotient_is_close(m, rate);
    let q = m.over_spec(rate).value();
    let n = sample_rate as int;
    assert(q * (n * u) == (q * n) * u) by (nonlinear_arith);
    close::close_without(q * n, 1000000 * u, 1, u);
}

/// A million, in units.
proof fn million_in_units()
    ensures
        constants::of(analyze::MICROSECONDS).value() == 1000000 * close::unit(),
        single_laws::between(constants::of(analyze::MICROSECONDS), 168, 169),
        constants::of(config::MICROSECONDS_PER_SECOND).value() == 1000000 * close::unit(),
        single_laws::between(constants::of(config::MICROSECONDS_PER_SECOND), 168, 169),
{
    let h = single::HIDDEN as nat;
    let m = constants::of(analyze::MICROSECONDS);
    power2::lemma2_to64();
    ieee::pattern_parts(h, 145, 0xf4_2400);
    power2::lemma_pow2_adds(4, 145);
    power2::lemma_pow2_adds(23, 145);
    power2::lemma_pow2_adds(24, 145);
    power2::lemma_pow2_pos(145);
    let p = power2::pow2(145) as int;
    assert(power2::pow2(168) == 0x80_0000 * p);
    assert(power2::pow2(169) == 0x100_0000 * p);
    assert(m.value() == 0xf4_2400 * p);
    assert(close::unit() == 16 * p);
    single_laws::within_values(m, 169);
}

/// A position as a percentage: times the total it is a hundred times the
/// position.
pub proof fn percentage_is_of_a_hundred(position: int, total: int)
    requires
        1 <= position <= 0x100_0000,
        1 <= total <= 0x100_0000,
    ensures
        close::close(
            analyze::percent_spec(position as nat, total as nat).value() * total,
            100 * (position * close::unit()),
            3,
        ),
{
    let u = close::unit();
    let h = single::HIDDEN as nat;
    let hundred = constants::of(analyze::HUNDRED);
    let (x, y) = (Single::from_integer_spec(position), Single::from_integer_spec(total));
    power2::lemma2_to64();
    power2::lemma_pow2_pos(single::UNIT as nat);
    ieee::pattern_parts(h, 132, 0xc8_0000);
    power2::lemma_pow2_adds(17, 132);
    power2::lemma_pow2_adds(6, 149);
    power2::lemma_pow2_adds(7, 149);
    power2::lemma_pow2_pos(132);
    assert(hundred.value() == 0xc8_0000 * power2::pow2(132));
    assert(u == 0x2_0000 * power2::pow2(132));
    single_laws::within_values(hundred, 156);
    bearing_laws::count_between(position);
    bearing_laws::count_between(total);
    close::between_is_amount(x, 149, 173);
    close::between_is_amount(y, 149, 173);
    close::between_is_amount(hundred, 155, 156);
    single_laws::product_between(hundred, x, 155, 156, 149, 173);
    let z = hundred.times_spec(x);
    close::between_is_amount(z, 155, 180);
    close::quotient_between(z, y, 155, 180, 149, 173);
    close::product_is_close(hundred, x);
    close::quotient_is_close(z, y);
    let (q, zv) = (z.over_spec(y).value(), z.value());
    assert(q * (total * u) == (q * total) * u) by (nonlinear_arith);
    close::close_without(q * total, zv, 1, u);
    let e = 100 * (position * u);
    assert((100 * u) * (position * u) == e * u) by (nonlinear_arith)
        requires
            e == 100 * (position * u),
    ;
    close::close_without(zv, e, 1, u);
    close::close_chain(q * total, zv, e, 1, 1);
}

/// A rotation that is given by its period in microseconds: its frequency times
/// the period is a million, and so is that of the period that is told of it.
pub proof fn rotation_and_period_make_a_million(us: Single)
    requires
        single_laws::between(us, 139, 189),
    ensures
        ({
            let f = RotationFrequency::interval_spec(us).frequency();
            let back = constants::of(config::MICROSECONDS_PER_SECOND).over_spec(f);
            let million = (1000000 * close::unit()) * close::unit();
            &&& close::close(f.value() * us.value(), million, 1)
            &&& close::close(back.value() * f.value(), million, 1)
        }),
{
    let m = constants::of(config::MICROSECONDS_PER_SECOND);
    million_in_units();
    close::between_is_amount(us, 139, 189);
    close::between_is_amount(m, 168, 169);
    close::quotient_between(m, us, 168, 169, 139, 189);
    let f = m.over_spec(us);
    RotationFrequency::frequency_reads_back(f);
    close::between_is_amount(f, 128, 179);
    close::quotient_is_close(m, us);
    close::quotient_between(m, f, 168, 169, 128, 179);
    close::quotient_is_close(m, f);
}

/// A setting that is scaled with the rotation keeps its ratio to it, and one
/// that is scaled against it keeps their product.
proof fn scaled_with_rotation(setting: Single, hz: Single, nominal: Single)
    requires
        single_laws::between(setting, 139, 179),
        single_laws::between(hz, 149, 169),
        single_laws::between(nominal, 159, 160),
    ensures
        ({
            let scale = hz.over_spec(nominal);
            &&& close::close(
                setting.times_spec(scale).value() * nominal.value(),
                setting.value() * hz.value(),
                3,
            )
            &&& close::close(
                setting.over_spec(scale).value() * hz.value(),
                setting.value() * nominal.value(),
                4,
            )
        }),
{
    let u = close::unit();
    let scale = hz.over_spec(nominal);
    power2::lemma_pow2_pos(single::UNIT as nat);
    close::between_is_amount(setting, 139, 179);
    close::between_is_amount(hz, 149, 169);
    close::between_is_amount(nominal, 159, 160);
    close::quotient_between(hz, nominal, 149, 169, 159, 160);
    close::between_is_amount(scale, 138, 159);
    single_laws::product_between(setting, scale, 139, 179, 138, 159);
    close::quotient_between(setting, scale, 139, 179, 138, 159);
    let x = setting.times_spec(scale);
    let y = setting.over_spec(scale);
    close::between_is_amount(y, 129, 190);
    close::quotient_is_close(hz, nominal);
    close::product_is_close(setting, scale);
    close::quotient_is_close(setting, scale);
    let (s, c, n, f, xv, yv) = (
        setting.value(),
        scale.value(),
        nominal.value(),
        hz.value(),
        x.value(),
        y.value(),
    );
    // x * u ~ s * c; c * n ~ f * u; y * c ~ s * u.
    close::close_times(xv * u, s * c, 1, n);
    close::close_times(c * n, f * u, 1, s);
    assert((s * c) * n == s * (c * n)) by (nonlinear_arith);
    close::close_chain((xv * u) * n, s * (c * n), s * (f * u), 1, 1);
    assert((xv * u) * n == (xv * n) * u && s * (f * u) == (s * f) * u) by (nonlinear_arith);
    close::close_without(xv * n, s * f, 3, u);
    close::close_times(yv * c, s * u, 1, n);
    close::close_back(c * n, f * u, 1);
    close::close_times(f * u, c * n, 2, yv);
    assert((yv * c) * n == (c * n) * yv) by (nonlinear_arith);
    close::close_chain((f * u) * yv, (yv * c) * n, (s * u) * n, 2, 1);
    assert((f * u) * yv == (yv * f) * u && (s * u) * n == (s * n) * u) by (nonlinear_arith);
    close::close_without(yv * f, s * n, 4, u);
}

/// Retuning to a rotation keeps the ratios of the settings to it: the tracking
/// band and the bandpass are as wide, and the dead time as long, in rotations,
/// as they are by default for the nominal rotor. The rotation itself is what
/// is looked for.
pub proof fn retuning_keeps_the_ratios(config: RdfConfig, rotation: RotationFrequency)
    requires
        single_laws::between(rotation.frequency(), 149, 169),
    ensures
        ({
            let d = RdfConfig::defaults();
            let r = config.retuned(rotation);
            let hz = rotation.frequency().value();
            let nominal = RotationFrequency::interval_spec(
                constants::of(config::DEFAULT_INTERVAL_US),
            ).frequency().value();
            let low = d.doppler.bandpass_low.value();
            let high = d.doppler.bandpass_high.value();
            let slow = d.north_tick.dpll.frequency_min_hz.value();
            let fast = d.north_tick.dpll.frequency_max_hz.value();
            let dead = d.north_tick.min_interval_ms.value();
            &&& r.doppler.expected_freq == rotation.frequency()
            &&& r.north_tick.dpll.initial_frequency_hz == rotation.frequency()
            &&& close::close(r.doppler.bandpass_low.value() * nominal, low * hz, 3)
            &&& close::close(r.doppler.bandpass_high.value() * nominal, high * hz, 3)
            &&& close::close(
                r.north_tick.dpll.frequency_min_hz.value() * nominal,
                slow * hz,
                3,
            )
            &&& close::close(
                r.north_tick.dpll.frequency_max_hz.value() * nominal,
                fast * hz,
                3,
            )
            &&& close::close(r.north_tick.min_interval_ms.value() * hz, dead * nominal, 4)
            &&& 1602563 * close::unit() <= 1000 * nominal
            &&& 1000 * nominal <= 1602565 * close::unit()
        }),
{
    let d = RdfConfig::defaults();
    let hz = rotation.frequency();
    nominal_rotation();
    moderate_constant(d.doppler.bandpass_low);
    moderate_constant(d.doppler.bandpass_high);
    moderate_constant(d.north_tick.dpll.frequency_min_hz);
    moderate_constant(d.north_tick.dpll.frequency_max_hz);
    moderate_constant(d.north_tick.min_interval_ms);
    let nominal = RotationFrequency::interval_spec(
        constants::of(config::DEFAULT_INTERVAL_US),
    ).frequency();
    scaled_with_rotation(d.doppler.bandpass_low, hz, nominal);
    scaled_with_rotation(d.doppler.bandpass_high, hz, nominal);
    scaled_with_rotation(d.north_tick.dpll.frequency_min_hz, hz, nominal);
    scaled_with_rotation(d.north_tick.dpll.frequency_max_hz, hz, nominal);
    scaled_with_rotation(d.north_tick.min_interval_ms, hz, nominal);
}

/// A number from `2^-10` to `2^30`.
proof fn moderate_constant(x: Single)
    requires
        0x3a80_0000 <= x.bits <= 0x4e80_0000,
    ensures
        single_laws::between(x, 139, 179),
{
    let h = single::HIDDEN as nat;
    power2::lemma2_to64();
    single_laws::power_pattern_value(h, 23, 139);
    assert(single_laws::power_pattern(h, 23, 139) == 0x3a80_0000);
    assert(single_laws::power_pattern(h, 23, 179) == 0x4e80_0000);
    ieee::pattern_value_increases(h, 0x3a80_0000, x.magnitude() as nat);
}

/// The nominal rotor turns 1602.564 times a second.
proof fn nominal_rotation()
    ensures
        ({
            let n = RotationFrequency::interval_spec(
                constants::of(config::DEFAULT_INTERVAL_US),
            ).frequency();
            &&& single_laws::between(n, 159, 160)
            &&& 1602563 * close::unit() <= 1000 * n.value()
            &&& 1000 * n.value() <= 1602565 * close::unit()
        }),
{
    let h = single::HIDDEN as nat;
    let u = close::unit();
    let us = constants::of(config::DEFAULT_INTERVAL_US);
    power2::lemma2_to64();
    power2::lemma_pow2_pos(single::UNIT as nat);
    ieee::pattern_parts(h, 135, 0x9c_0000);
    power2::lemma_pow2_adds(14, 135);
    power2::lemma_pow2_adds(9, 149);
    power2::lemma_pow2_adds(10, 149);
    power2::lemma_pow2_adds(11, 149);
    power2::lemma_pow2_pos(135);
    assert(us.value() == 0x9c_0000 * power2::pow2(135));
    assert(u == 0x4000 * power2::pow2(135));
    assert(us.value() == 624 * u);
    assert(power2::pow2(158) == 512 * u);
    assert(power2::pow2(159) == 1024 * u);
    assert(power2::pow2(160) == 2048 * u);
    single_laws::within_values(us, 159);
    assert(single_laws::between(us, 158, 159));
    power2::lemma_pow2_strictly_increases(139, 158);
    single_laws::within_more(us, 159, 189);
    rotation_and_period_make_a_million(us);
    million_in_units();
    let m = constants::of(config::MICROSECONDS_PER_SECOND);
    close::quotient_between(m, us, 168, 169, 158, 159);
    let n = m.over_spec(us);
    RotationFrequency::frequency_reads_back(n);
    close::between_is_amount(n, 158, 160);
    let v = n.value();
    assert(v * (624 * u) == (624 * v) * u) by (nonlinear_arith);
    close::close_without(624 * v, 1000000 * u, 1, u);
    assert(1 * (1000000 * u) == 1000000 * u) by (nonlinear_arith);
}

/// A duration in microseconds at a sample rate, to the nearest sample: a
/// million times the samples is the microseconds times the rate, to half a
/// sample and six digits.
pub proof fn microseconds_to_samples(us: Single, sample_rate: Single)
    requires
        single_laws::between(us, 139, 169),
        single_laws::between(sample_rate, 149, 169),
    ensures
        ({
            let x = us.times_spec(constants::of(north_ref_common::MILLIONTH)).times_spec(
                sample_rate,
            );
            let n = x.round_spec().to_count_spec() as int;
            let u = close::unit();
            let exact = us.value() * sample_rate.value();
            let made = 1000000 * ((n * u) * u);
            let half = 500000 * (u * u);
            &&& 999999 * exact <= 1000000 * (made + half)
            &&& 1000000 * (made - half) <= 1000001 * exact
        }),
{
    let u = close::unit();
    power2::lemma2_to64();
    power2::lemma_pow2_pos(single::UNIT as nat);
    power2::lemma_pow2_strictly_increases(119, 139);
    power2::lemma_pow2_strictly_increases(139, 149);
    single_laws::within_more(us, 169, 179);
    single_laws::within_more(sample_rate, 169, 179);
    looks_laws::adjustment_is_in_microseconds(us, sample_rate);
    let micro = constants::of(north_ref_common::MILLIONTH);
    let x = us.times_spec(micro).times_spec(sample_rate);
    looks_laws::millionth_in_units();
    single_laws::product_between(us, micro, 139, 169, 129, 130);
    single_laws::product_between(us.times_spec(micro), sample_rate, 119, 150, 149, 169);
    close::between_is_amount(x, 119, 170);
    single_laws::within_more(x, 170, 172);
    angle_laws::rounding_is_whole(x);
    let r = x.round_spec();
    let k = x.round_to_i64_spec();
    let v = x.value();
    assert(k >= 0) by (nonlinear_arith)
        requires
            2 * (v - k * u) <= u,
            v >= 0,
            u > 0,
    ;
    angle_laws::count_of_whole(r, k);
    let n = r.to_count_spec() as int;
    assert(n == k);
    let nu = n * u;
    let vu = v * u;
    assert(2 * (vu - nu * u) <= u * u && -(u * u) <= 2 * (vu - nu * u)) by (nonlinear_arith)
        requires
            vu == v * u,
            -u <= 2 * (v - nu) <= u,
            u > 0,
    ;
}

/// The taps of the highpass span the configured length, to the nearest odd
/// number of samples.
pub proof fn highpass_spans_the_length(config: NorthTickConfig, sample_rate: Single)
    requires
        single_laws::between(config.fir_highpass_length_us, 139, 169),
        single_laws::between(sample_rate, 149, 169),
    ensures
        ({
            let taps = north_ref_common::highpass_taps_spec(config, sample_rate) as int;
            let u = close::unit();
            let exact = config.fir_highpass_length_us.value() * sample_rate.value();
            let made = 1000000 * ((taps * u) * u);
            let half = 500000 * (u * u);
            &&& taps % 2 == 1
            &&& 999999 * exact <= 1000000 * (made + half)
            &&& 1000000 * (made - 3 * half) <= 1000001 * exact
        }),
{
    microseconds_to_samples(config.fir_highpass_length_us, sample_rate);
    let u = close::unit();
    let n = config.fir_highpass_length_us.times_spec(
        constants::of(north_ref_common::MILLIONTH),
    ).times_spec(sample_rate).round_spec().to_count_spec() as int;
    power2::lemma_pow2_pos(single::UNIT as nat);
    assert(((n + 1) * u) * u == (n * u) * u + u * u) by (nonlinear_arith);
    assert(u * u >= 0) by (nonlinear_arith);
}

/// The phase of the Doppler tone is a full turn for every rotation, less the
/// bearing: times the unit it is 2 pi times the rotations, to five digits,
/// before the bearing is taken off.
pub proof fn tone_turns_with_the_rotation(t: Single, rotation_hz: Single)
    requires
        single_laws::between(t, 109, 169),
        single_laws::between(rotation_hz, 139, 169),
    ensures
        ({
            let x = signal::turned_spec(t, rotation_hz);
            let rotations = rotation_hz.value() * t.value();
            &&& single_laws::normal(x)
            &&& 6283180 * rotations <= 1000000 * (x.value() * close::unit())
            &&& 1000000 * (x.value() * close::unit()) <= 6283191 * rotations
        }),
{
    let u = close::unit();
    let h = single::HIDDEN as nat;
    let two = constants::of(math::TWO);
    let pi = constants::of(constants::PI);
    power2::lemma2_to64();
    power2::lemma_pow2_pos(single::UNIT as nat);
    power2::lemma_pow2_unfold(150);
    power2::lemma_pow2_unfold(151);
    single_laws::power_pattern_value(h, 23, 150);
    single_laws::within_values(two, 150);
    assert(two.value() == 2 * u);
    close::pi_in_units();
    math::turn_is_twice_pi();
    close::amount_has_value(pi);
    single_laws::within_values(pi, 151);
    close::between_is_amount(t, 109, 169);
    close::between_is_amount(rotation_hz, 139, 169);
    single_laws::product_between(rotation_hz, t, 139, 169, 109, 169);
    let x = rotation_hz.times_spec(t);
    single_laws::product_between(x, two, 99, 189, 150, 150);
    single_laws::product_between(x.times_spec(two), pi, 100, 190, 150, 151);
    close::between_is_amount(x, 99, 189);
    let a = x.times_spec(two).times_spec(pi);
    close::between_is_amount(a, 101, 192);
    close::product_is_close(rotation_hz, t);
    close::product_of_three_is_close(x, two, pi);
    let (xv, av, c) = (x.value(), a.value(), pi.value());
    let r = rotation_hz.value() * t.value();
    let k = (2 * u) * c;
    assert(k >= 0) by (nonlinear_arith)
        requires
            k == (2 * u) * c,
            u > 0,
            c >= 0,
    ;
    let uu = u * u;
    close::close_times(xv * u, r, 1, k);
    close::close_times(av * uu, xv * (2 * u) * c, 3, u);
    assert((xv * (2 * u) * c) * u == (xv * u) * k) by (nonlinear_arith)
        requires
            k == (2 * u) * c,
    ;
    close::close_chain((av * uu) * u, (xv * u) * k, r * k, 3, 1);
    let l = av * u;
    let e = r * (2 * c);
    assert((av * uu) * u == l * uu && r * k == e * u) by (nonlinear_arith)
        requires
            l == av * u,
            e == r * (2 * c),
            k == (2 * u) * c,
            uu == u * u,
    ;
    assert(l * uu == (l * u) * u) by (nonlinear_arith)
        requires
            uu == u * u,
    ;
    close::close_without(l * u, e, 5, u);
    let w = r * u;
    assert(6283184 * w <= 1000000 * e && 1000000 * e <= 6283186 * w) by (nonlinear_arith)
        requires
            e == r * (2 * c),
            w == r * u,
            r >= 0,
            3141592 * u <= 1000000 * c,
            1000000 * c <= 3141593 * u,
    ;
    assert(r >= 0) by (nonlinear_arith)
        requires
            r == rotation_hz.value() * t.value(),
            rotation_hz.value() >= 0,
            t.value() >= 0,
    ;
    assert(w >= 0) by (nonlinear_arith)
        requires
            w == r * u,
            r >= 0,
            u > 0,
    ;
    let lu = l * u;
    assert(6283180 * w <= 1000000 * lu && 1000000 * lu <= 6283191 * w);
    assert(6283180 * r <= 1000000 * l && 1000000 * l <= 6283191 * r) by (nonlinear_arith)
        requires
            w == r * u,
            lu == l * u,
            u > 0,
            6283180 * w <= 1000000 * lu,
            1000000 * lu <= 6283191 * w,
    ;
}

/// An angle in radians, times 57.29578, is the angle in degrees.
pub proof fn radians_are_degrees_over(degrees: Single)
    requires
        single_laws::between(degrees, 109, 179),
    ensures
        ({
            let r = stats::radians_of(degrees).value();
            &&& 999998 * degrees.value() * 100000 <= 1000000 * (5729578 * r)
            &&& 1000000 * (5729578 * r) <= 1000002 * degrees.value() * 100000
        }),
{
    let u = close::unit();
    let h = single::HIDDEN as nat;
    let c = constants::of(crate::rdf::bearing::RADIANS_PER_DEGREE);
    power2::lemma2_to64();
    power2::lemma_pow2_pos(single::UNIT as nat);
    ieee::pattern_parts(h, 120, 0x8e_fa35);
    power2::lemma_pow2_adds(29, 120);
    power2::lemma_pow2_adds(23, 120);
    power2::lemma_pow2_adds(24, 120);
    power2::lemma_pow2_pos(120);
    let p = power2::pow2(120) as int;
    assert(c.value() == 0x8e_fa35 * p);
    assert(u == 0x2000_0000 * p);
    assert(power2::pow2(143) == 0x80_0000 * p);
    assert(power2::pow2(144) == 0x100_0000 * p);
    single_laws::within_values(c, 144);
    close::between_is_amount(degrees, 109, 179);
    close::between_is_amount(c, 143, 144);
    single_laws::product_between(degrees, c, 109, 179, 143, 144);
    close::product_is_close(degrees, c);
    let r = degrees.times_spec(c);
    close::between_is_amount(r, 103, 174);
    radians_in_units(r.value(), degrees.value(), c.value(), u, p);
}

proof fn radians_in_units(r: int, d: int, c: int, u: int, p: int)
    requires
        p > 0,
        d >= 0,
        c == 0x8e_fa35 * p,
        u == 0x2000_0000 * p,
        close::close(r * u, d * c, 1),
    ensures
        999998 * d * 100000 <= 1000000 * (5729578 * r),
        1000000 * (5729578 * r) <= 1000002 * d * 100000,
{
    let rp = r * p;
    let dp = d * p;
    assert(r * u == 0x2000_0000 * rp && d * c == 0x8e_fa35 * dp) by (nonlinear_arith)
        requires
            c == 0x8e_fa35 * p,
            u == 0x2000_0000 * p,
            rp == r * p,
            dp == d * p,
    ;
    let e = d * c;
    assert(1 * e == e) by (nonlinear_arith);
    assert(dp >= 0) by (nonlinear_arith)
        requires
            dp == d * p,
            d >= 0,
            p > 0,
    ;
    assert(99999800000 * dp <= 5729578000000 * rp);
    assert(5729578000000 * rp <= 100000200000 * dp);
    assert(99999800000 * d <= 5729578000000 * r && 5729578000000 * r <= 100000200000 * d)
        by (nonlinear_arith)
        requires
            rp == r * p,
            dp == d * p,
            p > 0,
            99999800000 * dp <= 5729578000000 * rp,
            5729578000000 * rp <= 100000200000 * dp,
    ;
}

} // verus!
