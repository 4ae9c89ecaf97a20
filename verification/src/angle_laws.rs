//! Angles that are wrapped, and keep their place.
use crate::arithmetic;
use crate::close;
use crate::constants;
use crate::ieee;
use crate::rdf::bearing;
use crate::rdf::loop_laws;
use crate::rdf::north_ref_common;
use crate::rdf::steering_laws;
use crate::rdf::steering_laws::distance;
use crate::run;
use crate::signal_processing::math;
use crate::simulation::measure;
use crate::single;
use crate::single::Single;
use crate::single_laws;
use crate::stats;
use crate::tools::statistics;
use vstd::arithmetic::power2;
use vstd::prelude::*;

verus! {

/// A full turn in degrees, and half of one.
pub proof fn degrees_of_turn()
    ensures
        constants::of(math::FULL_TURN).value() == 360 * close::unit(),
        constants::of(stats::HALF_TURN).value() == 180 * close::unit(),
        constants::of(statistics::HALF_TURN).value() == 180 * close::unit(),
        constants::of(statistics::TURN_AND_HALF).value() == 540 * close::unit(),
        close::unit() > 0,
{
    let h = single::HIDDEN as nat;
    power2::lemma2_to64();
    power2::lemma_pow2_pos(single::UNIT as nat);
    ieee::pattern_parts(h, 134, 0xb4_0000);
    ieee::pattern_parts(h, 133, 0xb4_0000);
    ieee::pattern_parts(h, 135, 0x87_0000);
    power2::lemma_pow2_adds(15, 134);
    power2::lemma_pow2_adds(16, 133);
    power2::lemma_pow2_adds(14, 135);
    assert(constants::of(math::FULL_TURN).value() == 0xb4_0000 * power2::pow2(134));
    assert(constants::of(stats::HALF_TURN).value() == 0xb4_0000 * power2::pow2(133));
    assert(constants::of(statistics::TURN_AND_HALF).value() == 0x87_0000 * power2::pow2(135));
}

/// An angle in degrees that is brought into one turn stays where it is, but
/// for whole turns and two roundings of a turn.
pub proof fn turn_keeps_place(x: Single)
    requires
        x.finite(),
    ensures
        ({
            let t = math::turn_spec(x);
            let full = 360 * close::unit();
            &&& t.finite()
            &&& 0 <= t.value() < full
            &&& close::turns_apart(
                0x80_0000 * t.value(),
                0x80_0000 * x.value(),
                0x80_0000 * full,
                full,
            )
        }),
{
    let full = constants::of(math::FULL_TURN);
    let f = full.value();
    degrees_of_turn();
    close::remainder_keeps_place(x, full);
    let r = x.rem_euclid_spec(full);
    let t = math::turn_spec(x);
    single::rank_orders_values(full, r);
    single::rank_orders_values(r, full);
    let k = choose|k: int| #[trigger]
        close::by_turns(0x80_0000 * r.value(), 0x80_0000 * x.value(), 0x80_0000 * f, f, k);
    if full.le_spec(r) {
        ieee::pattern_parts(single::HIDDEN as nat, 0, 0);
        assert(t.value() == 0);
        let p = 0x80_0000 * f;
        assert((k - 1) * p == k * p - p) by (nonlinear_arith);
        assert(r.value() == f);
        assert(close::by_turns(0x80_0000 * t.value(), 0x80_0000 * x.value(), p, f, k - 1));
    }
}

/// The bearing that is written out is the measured one plus the configured
/// offset, but for whole turns and a few roundings.
pub proof fn offset_turns_the_bearing(bearing: Single, offset: Single)
    requires
        single_laws::within(bearing, 159),
        single_laws::within(offset, 159),
    ensures
        ({
            let full = 360 * close::unit();
            let b = run::adjusted_spec(bearing, offset);
            &&& 0 <= b.value() < full
            &&& close::turns_apart(
                0x80_0000 * b.value(),
                0x80_0000 * (bearing.value() + offset.value()),
                0x80_0000 * full,
                full + 2048 * close::unit(),
            )
        }),
{
    let full = 360 * close::unit();
    power2::lemma2_to64();
    power2::lemma_pow2_adds(10, 149);
    single_laws::within_values(bearing, 159);
    single_laws::within_values(offset, 159);
    single_laws::sum_within(bearing, offset, 159);
    steering_laws::sum_is_off(bearing, offset);
    let s = bearing.plus_spec(offset);
    turn_keeps_place(s);
    let t = math::turn_spec(s);
    let k = choose|k: int| #[trigger]
        close::by_turns(0x80_0000 * t.value(), 0x80_0000 * s.value(), 0x80_0000 * full, full, k);
    assert(close::by_turns(
        0x80_0000 * t.value(),
        0x80_0000 * (bearing.value() + offset.value()),
        0x80_0000 * full,
        full + 2048 * close::unit(),
        k,
    ));
}

/// The difference of two phases is the one less the other, but for whole turns
/// and a few roundings.
pub proof fn phase_difference_keeps_place(phase: Single, reference: Single)
    requires
        single_laws::within(phase, 159),
        single_laws::within(reference, 159),
    ensures
        ({
            let turn = constants::of(constants::TWO_PI).value();
            let d = bearing::wrapped_diff(phase, reference);
            &&& d.finite()
            &&& close::turns_apart(
                0x80_0000 * d.value(),
                0x80_0000 * (phase.value() - reference.value()),
                0x80_0000 * turn,
                2 * turn + 2048 * close::unit(),
            )
        }),
{
    let full = constants::of(constants::TWO_PI);
    let turn = full.value();
    power2::lemma2_to64();
    power2::lemma_pow2_adds(10, 149);
    close::pi_in_units();
    loop_laws::turn_between();
    single_laws::within_values(phase, 159);
    single_laws::within_values(reference, 159);
    assert(reference.neg_spec().value() == -reference.value());
    single_laws::within_values(reference.neg_spec(), 159);
    single_laws::sum_within(phase, reference.neg_spec(), 159);
    steering_laws::sum_is_off(phase, reference.neg_spec());
    let s = phase.minus_spec(reference);
    close::remainder_keeps_place(s, full);
    let r = s.rem_euclid_spec(full);
    let k = choose|k: int| #[trigger]
        close::by_turns(0x80_0000 * r.value(), 0x80_0000 * s.value(), 0x80_0000 * turn, turn, k);
    let d = bearing::wrapped_diff(phase, reference);
    let p = 0x80_0000 * turn;
    if constants::of(constants::PI).lt_spec(r) {
        assert(full.neg_spec().value() == -turn);
        single_laws::within_values(full, 152);
        single_laws::within_values(full.neg_spec(), 152);
        single_laws::within_values(r, 152);
        single_laws::sum_within(r, full.neg_spec(), 152);
        steering_laws::sum_is_off(r, full.neg_spec());
        assert((k - 1) * p == k * p - p) by (nonlinear_arith);
        assert(close::by_turns(
            0x80_0000 * d.value(),
            0x80_0000 * (phase.value() - reference.value()),
            p,
            2 * turn + 2048 * close::unit(),
            k - 1,
        ));
    } else {
        assert(close::by_turns(
            0x80_0000 * d.value(),
            0x80_0000 * (phase.value() - reference.value()),
            p,
            2 * turn + 2048 * close::unit(),
            k,
        ));
    }
}

/// How far a measured bearing is off is the measured less the true one, the
/// short way round: within half a turn, and but for a whole turn and two
/// roundings. So it is by both ways of measuring.
pub proof fn errors_go_the_short_way(measured: Single, truth: Single)
    requires
        stats::in_turn_or_full(measured),
        stats::in_turn_or_full(truth),
    ensures
        ({
            let u = close::unit();
            let full = 360 * u;
            let e = measure::angle_error_spec(measured, truth);
            let exact = measured.value() - truth.value();
            &&& e.finite()
            &&& 0x80_0000 * distance(e.value(), exact) <= full || 0x80_0000 * distance(
                e.value(),
                exact - full,
            ) <= 2 * full || 0x80_0000 * distance(e.value(), exact + full) <= 2 * full
            &&& -180 * u <= e.value() <= 180 * u
            &&& distance(exact, 0) < 180 * u - 1024 ==> 0x80_0000 * distance(e.value(), exact)
                <= full
        }),
{
    let u = close::unit();
    let full = constants::of(math::FULL_TURN);
    let half = constants::of(stats::HALF_TURN);
    degrees_of_turn();
    power2::lemma2_to64();
    power2::lemma_pow2_adds(9, 149);
    assert(truth.neg_spec().value() == -truth.value());
    assert(half.neg_spec().value() == -half.value());
    assert(full.neg_spec().value() == -full.value());
    let exact = measured.value() - truth.value();
    single_laws::sum_is_close(measured, truth.neg_spec(), 158);
    let d = measured.minus_spec(truth);
    steering_laws::sum_is_off(measured, truth.neg_spec());
    single::rank_orders_values(half, d);
    single::rank_orders_values(d, half.neg_spec());
    // A difference within half a turn stays there.
    if exact <= 180 * u {
        single_laws::sum_is_at_most(measured, truth.neg_spec(), half);
    }
    if exact >= -180 * u {
        single_laws::sum_is_at_least(measured, truth.neg_spec(), half.neg_spec());
    }
    if exact <= 360 * u {
        single_laws::sum_is_at_most(measured, truth.neg_spec(), full);
    }
    if exact >= -360 * u {
        single_laws::sum_is_at_least(measured, truth.neg_spec(), full.neg_spec());
    }
    if half.lt_spec(d) {
        single_laws::sum_is_close(d, full.neg_spec(), 158);
        steering_laws::sum_is_off(d, full.neg_spec());
        single_laws::sum_is_at_most(d, full.neg_spec(), constants::of(0));
        single_laws::sum_is_at_least(d, full.neg_spec(), half.neg_spec());
        ieee::pattern_parts(single::HIDDEN as nat, 0, 0);
    } else if d.lt_spec(half.neg_spec()) {
        single_laws::sum_is_close(d, full, 158);
        steering_laws::sum_is_off(d, full);
        single_laws::sum_is_at_least(d, full, constants::of(0));
        single_laws::sum_is_at_most(d, full, half);
        ieee::pattern_parts(single::HIDDEN as nat, 0, 0);
    }
}

/// A rounded number is a whole number, within half of the number.
pub proof fn rounding_is_whole(x: Single)
    requires
        single_laws::within(x, 172),
    ensures
        x.round_spec().finite(),
        x.round_spec().value() == x.round_to_i64_spec() * close::unit(),
        -close::unit() <= 2 * (x.value() - x.round_spec().value()) <= close::unit(),
        -0x100_0000 <= x.round_to_i64_spec() <= 0x100_0000,
{
    let h = single::HIDDEN as nat;
    let inf = single::INFINITE as nat;
    let p = power2::pow2((single::UNIT - 1) as nat);
    let u = power2::pow2(single::UNIT as nat);
    power2::lemma2_to64();
    power2::lemma_pow2_unfold(single::UNIT as nat);
    power2::lemma_pow2_pos((single::UNIT - 1) as nat);
    let m = arithmetic::magnitude(x.value());
    let n = x.nearest_integer();
    single_laws::within_values(x, 172);
    power2::lemma_pow2_adds(24, 148);
    single_laws::nearest_integer_is_near(m, p);
    assert(n <= h) by (nonlinear_arith)
        requires
            n * (2 * p) <= m + p,
            m <= 0x100_0000 * p,
            h == 0x80_0000,
            p > 0,
    ;
    assert(0 < n ==> n * power2::pow2(23) >= h) by (nonlinear_arith)
        requires
            power2::pow2(23) == h,
    ;
    assert(x.magnitude() < single::WHOLE_BITS) by {
        assert(single_laws::power_pattern(h, 23, 172) == 150 * h);
    }
    single_laws::whole_number_is_held(h, inf, n, single::UNIT as nat, 23);
    let b = ieee::nearest(h, inf, n * u, 1);
    assert(n * u <= h * u) by (nonlinear_arith)
        requires
            n <= h,
            u > 0,
    ;
    power2::lemma_pow2_adds(23, 149);
    single_laws::rounded_within(x.negative(), n * u, 1, 172);
    ieee::pattern_value_increases(h, 0, x.magnitude() as nat);
    assert(n * (2 * p) == n * u);
    assert((-(n as int)) * u == -(n * u)) by (nonlinear_arith);
    if n == 0 {
        assert(0 * u == 0);
    }
}

/// Splitting a time into an index and a fraction keeps the time: both add up
/// to what they were made from, to one part in `2^24` of a sample, and the
/// fraction is at most half a sample.
pub proof fn splitting_keeps_the_time(at: int, offset: Single)
    requires
        single_laws::within(offset, 172),
        0 <= at + offset.round_to_i64_spec() <= usize::MAX,
    ensures
        ({
            let (index, fraction) = north_ref_common::effective_time_spec(at, offset);
            let u = close::unit();
            &&& fraction.finite()
            &&& -u <= 2 * fraction.value() <= u
            &&& 0x100_0000 * distance(
                (index - at) * u + fraction.value(),
                offset.value(),
            ) <= u
        }),
{
    let u = close::unit();
    rounding_is_whole(offset);
    let r = offset.round_spec();
    power2::lemma2_to64();
    power2::lemma_pow2_unfold(149);
    power2::lemma_pow2_pos(148);
    assert(r.neg_spec().value() == -r.value());
    single_laws::sum_is_close(offset, r.neg_spec(), 148);
    let f = offset.minus_spec(r);
    single_laws::within_values(f, 148);
}

/// The delay that is taken off a detection, in whole samples and the rest,
/// makes up the delay of the filter and the offset of the reported point: the
/// samples less the rest are the group delay plus the offset, up to rounding.
pub proof fn delay_makes_up_for_the_filter(group_delay: int, offset: Single)
    requires
        0 <= group_delay <= 0x1_0000,
        single_laws::within(offset, 165),
        group_delay * close::unit() + offset.value() >= 0,
    ensures
        ({
            let d = north_ref_common::delay_compensation_spec(group_delay, offset);
            let u = close::unit();
            let exact = group_delay * u + offset.value();
            let made = d.delay_samples * u - d.fractional_sample_offset.value();
            &&& 0x100_0000 * distance(made, exact) <= 0x4_0000 * u
            &&& -u <= 2 * d.fractional_sample_offset.value() <= u
        }),
{
    let u = close::unit();
    power2::lemma2_to64();
    power2::lemma_pow2_pos(single::UNIT as nat);
    power2::lemma_pow2_unfold(149);
    power2::lemma_pow2_pos(148);
    single_laws::count_is_exact(group_delay);
    let g = Single::from_integer_spec(group_delay);
    single_laws::count_within_power(group_delay, 16);
    single_laws::within_values(g, 165);
    single_laws::within_values(offset, 165);
    power2::lemma_pow2_adds(16, 149);
    power2::lemma_pow2_adds(17, 149);
    single_laws::sum_is_close(g, offset, 166);
    let total = g.plus_spec(offset);
    single_laws::within_values(total, 166);
    single_laws::within_more(total, 166, 172);
    let zero = constants::of(0);
    ieee::pattern_parts(single::HIDDEN as nat, 0, 0);
    single_laws::sum_is_at_least(g, offset, zero);
    rounding_is_whole(total);
    let r = total.round_spec();
    let n = total.round_to_i64_spec();
    assert(n >= 0) by (nonlinear_arith)
        requires
            -u <= 2 * (total.value() - n * u),
            -u <= 2 * (total.value() - n * u) <= u,
            total.value() >= 0,
            u > 0,
    ;
    single::rank_orders_values(r, zero);
    single::rank_orders_values(zero, r);
    let m = r.max_spec(zero);
    assert(m.value() == n * u) by {
        assert(n * u >= 0) by (nonlinear_arith)
            requires
                n >= 0,
                u > 0,
        ;
    }
    count_of_whole(m, n);
    let d = m.to_count_spec() as int;
    assert(d == n);
    single_laws::count_is_exact(n);
    let back = Single::from_integer_spec(n);
    assert(total.neg_spec().value() == -total.value());
    single_laws::sum_is_close(back, total.neg_spec(), 148);
    single_laws::within_values(back.minus_spec(total), 148);
}

/// The count of a whole number.
pub proof fn count_of_whole(x: Single, n: int)
    requires
        x.finite(),
        0 <= n <= 0x100_0000,
        x.value() == n * close::unit(),
    ensures
        x.to_count_spec() == n,
{
    let u = close::unit();
    power2::lemma_pow2_pos(single::UNIT as nat);
    vstd::arithmetic::div_mod::lemma_div_by_multiple(n, u);
    if x.negative() {
        ieee::pattern_value_increases(single::HIDDEN as nat, 0, x.magnitude() as nat);
        assert(x.value() <= 0);
        assert(n == 0) by (nonlinear_arith)
            requires
                n * u <= 0,
                n >= 0,
                u > 0,
        ;
    }
}

} // verus!
