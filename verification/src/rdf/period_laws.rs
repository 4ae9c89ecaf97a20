//! What nominal periods, bearings and their fields stand for.
use crate::angle_laws;
use crate::close;
use crate::config::NorthTickConfig;
use crate::constants;
use crate::ieee;
use crate::output::kn5r;
use crate::output::BearingOutput;
use crate::rdf::bearing;
use crate::rdf::loop_laws;
use crate::rdf::north_ref_dpll;
use crate::rdf::north_ref_simple;
use crate::rdf::steering_laws;
use crate::signal_processing::agc;
use crate::signal_processing::math;
use crate::single;
use crate::single::Single;
use crate::single_laws;
use vstd::arithmetic::power2;
use vstd::prelude::*;

verus! {

/// The period to expect, times the rotations a second, is the sample rate.
pub proof fn nominal_period_is_of_the_rotation(config: NorthTickConfig, sample_rate: Single)
    requires
        single_laws::between(sample_rate, 129, 189),
        single_laws::between(config.dpll.initial_frequency_hz, 129, 189),
    ensures
        close::close(
            north_ref_simple::nominal_period_of(config, sample_rate).value()
                * config.dpll.initial_frequency_hz.value(),
            sample_rate.value() * close::unit(),
            1,
        ),
{
    let hz = config.dpll.initial_frequency_hz;
    power2::lemma_pow2_strictly_increases(119, 129);
    loop_laws::beyond_resolution(hz);
    close::between_is_amount(hz, 129, 189);
    close::between_is_amount(sample_rate, 129, 189);
    close::quotient_between(sample_rate, hz, 129, 189, 129, 189);
    close::quotient_is_close(sample_rate, hz);
}

/// A configuration whose dead time is as long as a rotation at the top of the
/// band, or longer, is refused: times the frequency in Hz, the dead time in
/// milliseconds has to stay below a thousand, up to rounding.
pub proof fn dead_time_is_shorter_than_a_rotation(config: NorthTickConfig, sample_rate: Single)
    requires
        single_laws::between(config.dpll.frequency_max_hz, 129, 189),
        close::amount(config.min_interval_ms),
        1000000 * (config.min_interval_ms.value() * config.dpll.frequency_max_hz.value())
            >= 1000001000 * (close::unit() * close::unit()),
    ensures
        north_ref_dpll::dpll_fault(config, sample_rate) is Some,
{
    let hz = config.dpll.frequency_max_hz;
    let ms = config.min_interval_ms;
    let thousand = constants::of(agc::THOUSAND);
    let u = close::unit();
    power2::lemma_pow2_pos(single::UNIT as nat);
    loop_laws::thousand_in_units();
    close::between_is_amount(hz, 129, 189);
    close::between_is_amount(thousand, 158, 159);
    close::quotient_between(thousand, hz, 158, 159, 129, 189);
    close::quotient_is_close(thousand, hz);
    let p = north_ref_dpll::period_ms_spec(hz);
    close::between_is_amount(p, 118, 179);
    let (m, f, q) = (ms.value(), hz.value(), p.value());
    let e = (1000 * u) * u;
    let uu = u * u;
    assert(e == 1000 * uu) by (nonlinear_arith)
        requires
            e == (1000 * u) * u,
            uu == u * u,
    ;
    assert(1 * e == e) by (nonlinear_arith);
    assert(uu > 0) by (nonlinear_arith)
        requires
            uu == u * u,
            u > 0,
    ;
    assert(q <= m) by (nonlinear_arith)
        requires
            0x80_0000 * (q * f - e) <= e,
            e == 1000 * uu,
            1000000 * (m * f) >= 1000001000 * uu,
            f > 0,
            uu > 0,
    ;
    single::rank_orders_values(p, ms);
    single::rank_orders_values(ms, p);
}

/// The bearing of a phase is the phase in degrees, but for whole turns: there
/// is an angle that is close to the phase times the degrees in a radian, and
/// the bearing is where it is.
pub proof fn bearing_is_the_phase_in_degrees(phase: Single)
    requires
        single_laws::between(phase, 109, 159),
    ensures
        ({
            let b = bearing::bearing_of(phase).value();
            let u = close::unit();
            let full = 360 * u;
            &&& 0 <= b < full
            &&& exists|y: int| #[trigger] is_place(b, y, phase)
        }),
{
    let u = close::unit();
    let d = constants::of(math::DEGREES_PER_RADIAN);
    power2::lemma2_to64();
    power2::lemma_pow2_pos(single::UNIT as nat);
    power2::lemma_pow2_adds(5, 149);
    power2::lemma_pow2_adds(6, 149);
    close::degrees_in_units();
    close::amount_has_value(d);
    single_laws::within_values(d, 155);
    close::between_is_amount(phase, 109, 159);
    single_laws::product_between(phase, d, 109, 159, 154, 155);
    close::product_is_close(phase, d);
    let y = phase.times_spec(d);
    close::between_is_amount(y, 114, 165);
    angle_laws::turn_keeps_place(y);
    let (p, v, c) = (phase.value(), y.value(), d.value());
    let e = p * c;
    let pu = p * u;
    assert(5729578 * pu <= 100000 * e && 100000 * e <= 5729579 * pu) by (nonlinear_arith)
        requires
            e == p * c,
            pu == p * u,
            p >= 0,
            5729578 * u <= 100000 * c,
            100000 * c <= 5729579 * u,
    ;
    assert(1 * e == e) by (nonlinear_arith);
    let vu = v * u;
    assert(pu >= 0) by (nonlinear_arith)
        requires
            pu == p * u,
            p >= 0,
            u > 0,
    ;
    assert(5729577 * pu <= 100000 * vu && 100000 * vu <= 5729580 * pu);
    assert(5729577 * p <= 100000 * v && 100000 * v <= 5729580 * p) by (nonlinear_arith)
        requires
            pu == p * u,
            vu == v * u,
            u > 0,
            5729577 * pu <= 100000 * vu,
            100000 * vu <= 5729580 * pu,
    ;
    assert(is_place(bearing::bearing_of(phase).value(), v, phase));
}

/// Whether a bearing is where an angle is that is a phase in degrees.
pub open spec fn is_place(b: int, y: int, phase: Single) -> bool {
    let full = 360 * close::unit();
    &&& 5729577 * phase.value() <= 100000 * y
    &&& 100000 * y <= 5729580 * phase.value()
    &&& close::turns_apart(0x80_0000 * b, 0x80_0000 * y, 0x80_0000 * full, full)
}

/// The shortest way from one phase to another is the one less the other, but
/// for whole turns and a few roundings.
pub proof fn phase_step_keeps_place(phase1: Single, phase2: Single)
    requires
        single_laws::within(phase1, 152),
        single_laws::within(phase2, 152),
        ({
            let turn = constants::of(constants::TWO_PI).value();
            &&& -turn < phase1.value() - phase2.value() < turn
            &&& phase1.minus_spec(phase2).value() > -turn
            &&& phase1.minus_spec(phase2).value() < turn
        }),
    ensures
        ({
            let turn = constants::of(constants::TWO_PI).value();
            let d = math::phase_step(phase1, phase2);
            &&& d.finite()
            &&& close::turns_apart(
                0x80_0000 * d.value(),
                0x80_0000 * (phase1.value() - phase2.value()),
                0x80_0000 * turn,
                2 * turn,
            )
        }),
{
    let h = single::HIDDEN as nat;
    let inf = single::INFINITE as nat;
    let full = constants::of(constants::TWO_PI);
    let pi = constants::of(constants::PI);
    let turn = full.value();
    power2::lemma2_to64();
    close::pi_in_units();
    math::turn_is_twice_pi();
    loop_laws::turn_between();
    assert(phase2.neg_spec().value() == -phase2.value());
    single_laws::within_values(phase2, 152);
    single_laws::within_values(phase2.neg_spec(), 152);
    single_laws::sum_within(phase1, phase2.neg_spec(), 152);
    steering_laws::sum_is_off(phase1, phase2.neg_spec());
    let s = phase1.minus_spec(phase2);
    let n = crate::arithmetic::magnitude(s.value());
    vstd::arithmetic::div_mod::lemma_small_mod(n, turn as nat);
    ieee::nearest_of_held(h, inf, s.magnitude() as nat);
    ieee::pattern_value_increases(h, 0, s.magnitude() as nat);
    let r = s.rem_spec(full);
    assert(r == s);
    assert(pi.neg_spec().value() == -pi.value());
    assert(full.neg_spec().value() == -turn);
    single::rank_orders_values(pi, r);
    single::rank_orders_values(r, pi.neg_spec());
    let d = math::phase_step(phase1, phase2);
    let exact = phase1.value() - phase2.value();
    let p = 0x80_0000 * turn;
    single_laws::within_values(full, 152);
    single_laws::within_values(full.neg_spec(), 152);
    single_laws::within_values(s, 152);
    let k: int = if pi.lt_spec(r) {
        single_laws::sum_within(r, full.neg_spec(), 152);
        steering_laws::sum_is_off(r, full.neg_spec());
        -1
    } else if r.lt_spec(pi.neg_spec()) {
        single_laws::sum_within(r, full, 152);
        steering_laws::sum_is_off(r, full);
        1
    } else {
        0
    };
    assert((-1) * p == -p && 1 * p == p && 0 * p == 0);
    assert(close::by_turns(0x80_0000 * d.value(), 0x80_0000 * exact, p, 2 * turn, k));
}

/// The bearing in a sentence is in tenths of a degree, to the nearest one: ten
/// times the bearing lies within half a tenth of the field, or of a full turn
/// where the field starts over.
pub proof fn sentence_tells_tenths_of_degrees(o: BearingOutput)
    requires
        single_laws::between(o.bearing, 129, 158),
        o.bearing.value() < 360 * close::unit(),
    ensures
        ({
            let n = kn5r::angle_field(o) as int;
            let u = close::unit();
            let ten = 10 * o.bearing.value();
            let off = 0x80_0000 * u + 4 * ten;
            &&& 0 <= n < 3600
            &&& -off <= 0x100_0000 * (n * u - ten) <= off || -off <= 0x100_0000 * (3600 * u - ten)
                <= off && n == 0
        }),
{
    let u = close::unit();
    let h = single::HIDDEN as nat;
    let ten = constants::of(kn5r::TEN);
    power2::lemma2_to64();
    power2::lemma_pow2_pos(single::UNIT as nat);
    power2::lemma_pow2_strictly_increases(24, 149);
    ieee::pattern_parts(h, 129, 0xa0_0000);
    power2::lemma_pow2_adds(20, 129);
    power2::lemma_pow2_adds(3, 149);
    power2::lemma_pow2_adds(4, 149);
    power2::lemma_pow2_pos(129);
    assert(ten.value() == 0xa0_0000 * power2::pow2(129));
    assert(u == 0x10_0000 * power2::pow2(129));
    assert(ten.value() == 10 * u);
    single_laws::within_values(ten, 153);
    close::between_is_amount(o.bearing, 129, 158);
    close::between_is_amount(ten, 152, 153);
    single_laws::product_between(o.bearing, ten, 129, 158, 152, 153);
    close::product_is_close(o.bearing, ten);
    let x = o.bearing.times_spec(ten);
    close::between_is_amount(x, 132, 162);
    let (b, v) = (o.bearing.value(), x.value());
    assert(b * (10 * u) == (10 * b) * u) by (nonlinear_arith);
    close::close_without(v, 10 * b, 1, u);
    assert(1 * (10 * b) == 10 * b) by (nonlinear_arith);
    single_laws::within_more(x, 162, 172);
    angle_laws::rounding_is_whole(x);
    let k = x.round_to_i64_spec();
    assert(0 <= k <= 3600) by (nonlinear_arith)
        requires
            -u <= 2 * (v - k * u) <= u,
            0 <= v,
            0x80_0000 * v <= 0x80_0001 * (10 * b),
            b < 360 * u,
            u >= 0x100_0000,
    ;
    angle_laws::count_of_whole(x.round_spec(), k);
    assert(kn5r::angle_field(o) == k % 3600);
}

} // verus!
