//! Where the oscillator is trusted, held off or overruled.
use crate::close;
use crate::constants;
use crate::ieee;
use crate::rdf::north_ref_common::WatchState;
use crate::rdf::north_ref_simple;
use crate::rdf::rotation_loop;
use crate::rdf::rotation_loop::LoopState;
use crate::signal_processing::math;
use crate::single;
use crate::single::Single;
use crate::single_laws;
use vstd::arithmetic::power2;
use vstd::prelude::*;

verus! {

/// The loop is locked from 64 ticks on, while the phase error scatters by no
/// more than 0.35 radians: neither fewer ticks nor a wider scatter will do.
pub proof fn lock_takes_ticks_and_a_narrow_scatter(s: LoopState)
    ensures
        s.errors.count() < 64 ==> !s.locked(),
        match s.errors.std_dev() {
            Some(x) => x.finite() ==> {
                &&& s.errors.count() >= 64 && 1000000 * x.value() <= 349999 * close::unit()
                    ==> s.locked()
                &&& 1000000 * x.value() >= 350001 * close::unit() ==> !s.locked()
            },
            None => !s.locked(),
        },
{
    let h = single::HIDDEN as nat;
    let limit = constants::of(rotation_loop::MAX_LOCKED_PHASE_STD_RAD);
    power2::lemma2_to64();
    ieee::pattern_parts(h, 124, 0xb3_3333);
    power2::lemma_pow2_adds(25, 124);
    power2::lemma_pow2_pos(124);
    assert(limit.value() == 0xb3_3333 * power2::pow2(124));
    assert(close::unit() == 0x200_0000 * power2::pow2(124));
    if let Some(x) = s.errors.std_dev() {
        if x.finite() {
            single::rank_orders_values(x, limit);
            single::rank_orders_values(limit, x);
        }
    }
}

/// After seven detections in a row that were turned down, the eighth is taken,
/// whatever it says; one turned down before that leaves no tick.
pub proof fn eighth_dispute_is_given_in_to(
    s: LoopState,
    at: int,
    fraction: Single,
    delay_fraction: Single,
)
    requires
        !s.too_close(at),
    ensures
        s.rejections >= 7 ==> s.detected(at, fraction, delay_fraction).1 is Some,
        s.rejections < 7 && s.gated(s.phase_error(fraction)) ==> s.detected(
            at,
            fraction,
            delay_fraction,
        ).1 is None,
{
}

/// A detection that was turned down holds coasting off for two rotations, up
/// to rounding, and no longer.
pub proof fn dispute_holds_off_for_two_rotations(s: LoopState, until: int, behind: int)
    requires
        s.rejected == Some(until - behind),
        0 <= behind <= 0x100_0000,
        single_laws::between(rotation_loop::period_of(s.frequency), 129, 189),
    ensures
        ({
            let p = rotation_loop::period_of(s.frequency).value();
            let d = 0x80_0000 * (behind * close::unit());
            &&& d < 0x7f_ffff * (2 * p) ==> s.held_off(until)
            &&& d > 0x80_0001 * (2 * p) ==> !s.held_off(until)
        }),
{
    let u = close::unit();
    let two = constants::of(math::TWO);
    let p = rotation_loop::period_of(s.frequency);
    power2::lemma2_to64();
    power2::lemma_pow2_pos(single::UNIT as nat);
    power2::lemma_pow2_unfold(150);
    single_laws::power_pattern_value(single::HIDDEN as nat, 23, 150);
    single_laws::within_values(two, 150);
    assert(two.value() == 2 * u);
    close::between_is_amount(p, 129, 189);
    single_laws::product_between(p, two, 129, 189, 150, 150);
    close::product_is_close(p, two);
    let x = p.times_spec(two);
    let (xv, pv) = (x.value(), p.value());
    assert(pv * (2 * u) == (2 * pv) * u) by (nonlinear_arith);
    close::close_without(xv, 2 * pv, 1, u);
    assert(1 * (2 * pv) == 2 * pv) by (nonlinear_arith);
    single_laws::count_is_exact(behind);
    let n = Single::from_integer_spec(behind);
    single::rank_orders_values(n, x);
}

/// A predicted tick stays three quarters of a period, and as long as a
/// detection can be deferred, clear of the end of what is known.
pub proof fn predictions_stay_clear_of_detections(s: LoopState, until: int, period: Single)
    requires
        s.coast(until) is Some,
        period == s.coast(until)->0.period,
        single_laws::between(period, 149, 169),
    ensures
        ({
            let c = s.coast(until)->0;
            let u = close::unit();
            let clear = c.reserved - s.params.detector_deferral_samples;
            &&& c.until == until
            &&& 0x80_0000 * (4 * (clear * u)) <= 0x80_0001 * (3 * period.value()) + 0x100_0000
                * u
            &&& 0x80_0000 * (4 * (clear * u)) >= 0x7f_ffff * (3 * period.value()) - 0x100_0000
                * u
        }),
{
    let u = close::unit();
    let h = single::HIDDEN as nat;
    let q = constants::of(north_ref_simple::MIN_TICK_SPACING_FRACTION);
    power2::lemma2_to64();
    power2::lemma_pow2_pos(single::UNIT as nat);
    ieee::pattern_parts(h, 125, 0xc0_0000);
    power2::lemma_pow2_adds(24, 125);
    power2::lemma_pow2_pos(125);
    power2::lemma_pow2_unfold(149);
    assert(q.value() == 0xc0_0000 * power2::pow2(125));
    assert(4 * q.value() == 3 * u);
    single_laws::within_values(q, 149);
    close::between_is_amount(period, 149, 169);
    single_laws::product_between(period, q, 149, 169, 148, 149);
    close::product_is_close(period, q);
    let x = period.times_spec(q);
    close::between_is_amount(x, 148, 169);
    let (xv, pv) = (x.value(), period.value());
    let y = pv * q.value();
    close::close_times(xv * u, y, 1, 4);
    assert(4 * y == (3 * pv) * u) by (nonlinear_arith)
        requires
            y == pv * q.value(),
            4 * q.value() == 3 * u,
    ;
    assert(4 * (xv * u) == (4 * xv) * u) by (nonlinear_arith);
    close::close_without(4 * xv, 3 * pv, 1, u);
    assert(1 * (3 * pv) == 3 * pv) by (nonlinear_arith);
    single_laws::within_more(x, 169, 172);
    crate::angle_laws::rounding_is_whole(x);
    let k = x.round_to_i64_spec();
    assert(k >= 0) by (nonlinear_arith)
        requires
            2 * (xv - k * u) <= u,
            xv >= 0,
            u > 0,
    ;
    crate::angle_laws::count_of_whole(x.round_spec(), k);
    let clear = s.coast(until)->0.reserved - s.params.detector_deferral_samples;
    assert(clear == k);
    assert(-u <= 2 * (xv - k * u) <= u);
    let ku = clear * u;
    assert(ku == k * u);
}

/// A pulse is flagged as close to the threshold while it is below one and a
/// half times the threshold, up to rounding, and no longer.
pub proof fn close_pulses_are_flagged(w: WatchState, count: nat, peak: Single, threshold: Single)
    requires
        count > 0,
        single_laws::between(threshold, 109, 169),
        single_laws::between(peak, 109, 189),
    ensures
        ({
            let r = w.noted(count, peak, threshold).report;
            let p = 0x80_0000 * (2 * peak.value());
            let t = 3 * threshold.value();
            &&& p < 0x7f_ffff * t ==> r.close_peak == Some(peak)
            &&& p > 0x80_0001 * t ==> r.close_peak is None
        }),
{
    let u = close::unit();
    let h = single::HIDDEN as nat;
    let q = constants::of(crate::rdf::north_ref_common::CLOSE_MARGIN);
    power2::lemma2_to64();
    power2::lemma_pow2_pos(single::UNIT as nat);
    ieee::pattern_parts(h, 126, 0xc0_0000);
    power2::lemma_pow2_adds(23, 126);
    power2::lemma_pow2_pos(126);
    power2::lemma_pow2_unfold(150);
    assert(q.value() == 0xc0_0000 * power2::pow2(126));
    assert(2 * q.value() == 3 * u);
    single_laws::within_values(q, 150);
    close::between_is_amount(threshold, 109, 169);
    close::between_is_amount(peak, 109, 189);
    single_laws::product_between(threshold, q, 109, 169, 149, 150);
    close::product_is_close(threshold, q);
    let x = threshold.times_spec(q);
    let (xv, tv) = (x.value(), threshold.value());
    let y = tv * q.value();
    close::close_times(xv * u, y, 1, 2);
    assert(2 * y == (3 * tv) * u) by (nonlinear_arith)
        requires
            y == tv * q.value(),
            2 * q.value() == 3 * u,
    ;
    assert(2 * (xv * u) == (2 * xv) * u) by (nonlinear_arith);
    close::close_without(2 * xv, 3 * tv, 1, u);
    assert(1 * (3 * tv) == 3 * tv) by (nonlinear_arith);
    single::rank_orders_values(peak, x);
}

} // verus!
