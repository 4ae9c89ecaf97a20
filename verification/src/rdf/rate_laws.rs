//! What the rates, periods and budgets of the trackers stand for.
use crate::close;
use crate::constants;
use crate::ieee;
use crate::rdf::north_ref;
use crate::rdf::north_ref_dpll::{Heard, Progress};
use crate::rdf::north_ref_simple::{SimpleSettings, SimpleTiming};
use crate::rdf::rotation_loop;
use crate::rdf::rotation_loop::{Coast, LoopState};
use crate::signal_processing::north_agc;
use crate::single;
use crate::single::Single;
use crate::single_laws;
use vstd::arithmetic::power2;
use vstd::prelude::*;

verus! {

/// A rate and the period that it has make up one turn, wherever both are
/// positive numbers.
proof fn period_makes_a_turn(frequency: Single)
    ensures
        ({
            let p = rotation_loop::period_of(frequency);
            p.finite() && p.rank() > 0 && frequency.finite() ==> close::is_turn(frequency, p)
        }),
{
    let p = rotation_loop::period_of(frequency);
    if p.finite() && p.rank() > 0 && frequency.finite() {
        if frequency.rank() > 0 {
            close::turn_over(frequency);
        } else if frequency.magnitude() > 0 {
            let n = constants::of(constants::TWO_PI).value() * close::unit();
            ieee::nearest_exists(
                single::HIDDEN as nat,
                single::INFINITE as nat,
                crate::arithmetic::magnitude(constants::of(constants::TWO_PI).value())
                    * power2::pow2(single::UNIT as nat),
                crate::arithmetic::magnitude(frequency.value()),
            );
        }
    }
}

/// A tick of the simple tracker turns once in its period.
pub proof fn simple_tick_turns_once(timing: SimpleTiming, reported: int, fraction: Single)
    ensures
        north_ref::turns_once(timing.tick(reported, fraction)),
{
    if let Some(p) = timing.period {
        if p.finite() && p.rank() > 0 && timing.frequency().finite() {
            close::turn_over(p);
        }
    }
}

/// The ticks of the simple tracker turn once in their periods.
pub proof fn simple_ticks_turn_once(
    settings: SimpleSettings,
    timing: SimpleTiming,
    clock: int,
    tail: Seq<Single>,
    filtered: Seq<Single>,
    peaks: Seq<(int, Single)>,
    k: int,
)
    ensures
        north_ref::all_turn_once(settings.ticks_of(timing, clock, tail, filtered, peaks, k)),
    decreases k,
{
    if k > 0 {
        simple_ticks_turn_once(settings, timing, clock, tail, filtered, peaks, k - 1);
        let rel = peaks[k - 1].0;
        let before = settings.timing_after(timing, clock, tail, filtered, peaks, k - 1);
        let at = settings.position(clock, rel);
        let offset = settings.offset(tail, filtered, rel);
        if !before.too_close(at) {
            let (reported, fraction) = crate::rdf::north_ref_common::effective_time_spec(
                at,
                offset,
            );
            simple_tick_turns_once(before.with_tick(at, reported, fraction), reported, fraction);
        }
    }
}

/// A measured tick of the loop turns once in its period.
pub proof fn measured_tick_turns_once(s: LoopState, reported: int, fraction: Single)
    ensures
        north_ref::turns_once(s.measured_tick(reported, fraction)),
{
    period_makes_a_turn(s.frequency);
}

/// Predicted ticks turn once in their periods.
proof fn coast_ticks_turn_once(s: LoopState, c: Coast)
    requires
        c.period == rotation_loop::period_of(c.frequency),
    ensures
        north_ref::all_turn_once(s.coast_ticks(c)),
    decreases s.coast_room(),
{
    if s.coasts_on(c) {
        period_makes_a_turn(c.frequency);
        coast_ticks_turn_once(s.coast_step(c), c);
        let first = s.coast_step(c).coast_tick(c.period, c.frequency);
        let rest = s.coast_step(c).coast_ticks(c);
        assert(s.coast_ticks(c) == seq![first] + rest);
    }
}

/// Predicted ticks turn once in their periods.
pub proof fn predicted_ticks_turn_once(s: LoopState, until: int)
    ensures
        north_ref::all_turn_once(s.predicted(until)),
{
    if let Some(c) = s.coast(until) {
        coast_ticks_turn_once(s, c);
    }
}

/// The ticks of the loop turn once in their periods.
pub proof fn loop_ticks_turn_once(heard: Heard, start: Progress, k: int)
    requires
        north_ref::all_turn_once(start.ticks),
    ensures
        north_ref::all_turn_once(heard.after(start, k).ticks),
    decreases k,
{
    if k > 0 {
        loop_ticks_turn_once(heard, start, k - 1);
        reveal(Heard::step);
        let p = heard.after(start, k - 1);
        let at = heard.position(k - 1);
        let fraction = heard.fraction(k - 1);
        let delay = heard.settings.delay().fractional_sample_offset;
        let turned = p.turn.turned(heard.peaks[k - 1].0 - p.stands_at);
        predicted_ticks_turn_once(turned, at);
        let (next, tick) = turned.coasted_to(at).detected(at, fraction, delay);
        if let Some(t) = tick {
            assert(t == next.measured_tick(
                t.sample_index as int,
                t.fractional_sample_offset,
            ));
            measured_tick_turns_once(next, t.sample_index as int, t.fractional_sample_offset);
        }
    }
}

/// A locked loop that turns, and whose rate is uncertain by no more than half
/// a sample a rotation, may coast over a whole rotation, or for as long as it
/// is configured to: one missed pulse is always bridged.
pub proof fn budget_covers_a_rotation(s: LoopState, n: int)
    requires
        s.turning(),
        rotation_loop::period_of(s.frequency).finite(),
        constants::of(single::ONE_BITS).le_spec(rotation_loop::period_of(s.frequency)),
        !s.rate_spread().nan() && 2 * s.rate_spread().value() <= close::unit(),
        !s.systematic_drift().nan() && 2 * s.systematic_drift().value() <= close::unit(),
        s.rate_spread().finite(),
        s.systematic_drift().finite(),
        0 <= n,
        n * close::unit() <= rotation_loop::period_of(s.frequency).value(),
    ensures
        s.budget() >= n || s.budget() == s.params.max_coast_samples,
{
    let h = single::HIDDEN as nat;
    let inf = single::INFINITE as nat;
    let u = close::unit();
    let period = rotation_loop::period_of(s.frequency);
    let d = s.rate_spread().max_spec(s.systematic_drift());
    let half = constants::of(north_agc::HALF);
    let one = constants::of(single::ONE_BITS);
    single_laws::value_of_one();
    value_of_half();
    single::rank_orders_values(s.rate_spread(), s.systematic_drift());
    assert(2 * d.value() <= u);
    if !d.le_spec(constants::of(constants::EPSILON)) {
        assert(close::amount(d) && d.rank() > 0);
        close::amount_has_value(d);
        close::amount_has_value(half);
        epsilon_in_units();
        single::rank_orders_values(constants::of(constants::EPSILON), d);
        let rotations = half.over_spec(d);
        power2::lemma2_to64();
        single_laws::within_values(half, 148);
        single_laws::quotient_within(half, d, 148, 126);
        let v = d.value();
        let n1 = (half.value() * u) as nat;
        assert(half.value() * u >= u * v) by (nonlinear_arith)
            requires
                half.value() >= v,
                u > 0,
        ;
        assert(n1 == (half.value() as nat) * power2::pow2(single::UNIT as nat));
        assert(ieee::pattern_value(h, single::ONE_BITS as nat) == u);
        ieee::nearest_exists(h, inf, n1, v as nat);
        ieee::nearest_at_least(h, inf, n1, v as nat, single::ONE_BITS as nat);
        single::rank_orders_values(one, rotations);
        let w = rotations.value();
        let p = period.value();
        close::amount_has_value(rotations);
        close::amount_has_value(period);
        assert(w * p >= u * p && u * p == p * u) by (nonlinear_arith)
            requires
                w >= u,
                p >= 0,
        ;
        let n2 = (w as nat) * (p as nat);
        ieee::nearest_exists(h, inf, n2, u as nat);
        ieee::nearest_at_least(h, inf, n2, u as nat, period.magnitude() as nat);
        let x = rotations.times_spec(period);
        assert(x.magnitude() >= period.magnitude() && !x.negative() && !x.nan());
        if x.finite() {
            single::rank_orders_values(period, x);
            close::amount_has_value(x);
            vstd::arithmetic::div_mod::lemma_div_is_ordered(n * u, x.value(), u);
            vstd::arithmetic::div_mod::lemma_div_by_multiple(n, u);
        }
    }
}

/// The number of units in a half.
proof fn value_of_half()
    ensures
        2 * constants::of(north_agc::HALF).value() == close::unit(),
        close::amount(constants::of(north_agc::HALF)),
{
    let h = single::HIDDEN as nat;
    power2::lemma2_to64();
    power2::lemma_pow2_unfold(149);
    single_laws::power_pattern_value(h, 23, 148);
}

/// The distance from one to the next number.
proof fn epsilon_in_units()
    ensures
        constants::of(constants::EPSILON).value() == power2::pow2(126),
        0x80_0000 * constants::of(constants::EPSILON).value() == close::unit(),
{
    let h = single::HIDDEN as nat;
    power2::lemma2_to64();
    single_laws::power_pattern_value(h, 23, 126);
    power2::lemma_pow2_adds(23, 126);
}

/// The budget is the longest coast over which the uncertainty of the rate adds
/// up to half a sample: with an uncertainty of `d` samples a rotation of `p`
/// samples, `d * budget / p` is at most one half, and one sample more than a
/// budget short of the configured maximum would make it more, both up to
/// rounding.
pub proof fn budget_spends_half_a_sample(s: LoopState)
    requires
        s.turning(),
        constants::of(single::ONE_BITS).le_spec(rotation_loop::period_of(s.frequency)),
        single_laws::within(rotation_loop::period_of(s.frequency), 213),
        single_laws::within(s.rate_spread(), 213),
        single_laws::within(s.systematic_drift(), 213),
        0x80_0000 * s.rate_spread().value() > close::unit() || 0x80_0000
            * s.systematic_drift().value() > close::unit(),
    ensures
        ({
            let p = rotation_loop::period_of(s.frequency).value();
            let a = s.rate_spread().value();
            let b = s.systematic_drift().value();
            let d = if a < b {
                b
            } else {
                a
            };
            let n = s.budget() as int;
            &&& 0x80_0000 * (2 * n * d) <= (0x80_0000 + 3) * p
            &&& n < s.params.max_coast_samples ==> 0x80_0000 * (2 * (n + 1) * d) >= (0x80_0000
                - 3) * p
        }),
{
    let u = close::unit();
    let period = rotation_loop::period_of(s.frequency);
    let spread = s.rate_spread().max_spec(s.systematic_drift());
    let half = constants::of(north_agc::HALF);
    let one = constants::of(single::ONE_BITS);
    single_laws::value_of_one();
    value_of_half();
    epsilon_in_units();
    single::rank_orders_values(s.rate_spread(), s.systematic_drift());
    single::rank_orders_values(constants::of(constants::EPSILON), spread);
    let d = spread.value();
    assert(0x80_0000 * d > u);
    assert(d > power2::pow2(126));
    single::rank_orders_values(one, period);
    power2::lemma2_to64();
    power2::lemma2_to64_rest();
    single_laws::within_values(half, 148);
    power2::lemma_pow2_unfold(149);
    assert(single_laws::between(half, 148, 148));
    assert(single_laws::between(spread, 126, 213));
    assert(single_laws::between(period, 149, 213));
    close::quotient_between(half, spread, 148, 148, 126, 213);
    let rotations = half.over_spec(spread);
    assert(single_laws::between(rotations, 84, 171));
    single_laws::product_between(rotations, period, 84, 171, 149, 213);
    let x = rotations.times_spec(period);
    close::between_is_amount(rotations, 84, 171);
    close::between_is_amount(period, 149, 213);
    close::between_is_amount(spread, 126, 213);
    close::quotient_is_close(half, spread);
    close::product_is_close(rotations, period);
    let (w, p, v) = (rotations.value(), period.value(), x.value());
    close::amount_has_value(x);
    // v * u * d is close to half * u * p.
    close::close_times(v * u, w * p, 1, d);
    close::close_times(w * d, half.value() * u, 1, p);
    assert((w * p) * d == (w * d) * p) by (nonlinear_arith);
    close::close_chain((v * u) * d, (w * p) * d, (half.value() * u) * p, 1, 1);
    assert((v * u) * d == (v * d) * u && (half.value() * u) * p == (half.value() * p) * u)
        by (nonlinear_arith);
    close::close_without(v * d, half.value() * p, 3, u);
    let hp = half.value() * p;
    assert(2 * hp == u * p) by (nonlinear_arith)
        requires
            hp == half.value() * p,
            2 * half.value() == u,
    ;
    let count = v / u;
    vstd::arithmetic::div_mod::lemma_fundamental_div_mod(v, u);
    vstd::arithmetic::div_mod::lemma_mod_bound(v, u);
    let n = s.budget() as int;
    single_laws::within_values(x, 235);
    assert(x.to_count_spec() == if count > usize::MAX { usize::MAX as int } else { count });
    assert(n <= count);
    assert(n < s.params.max_coast_samples ==> n == count);
    budget_in_units(n, count, v, u, d, p, hp);
}

proof fn budget_in_units(n: int, count: int, v: int, u: int, d: int, p: int, hp: int)
    requires
        0 <= n <= count,
        u > 0,
        d > 0,
        p > 0,
        2 * hp == u * p,
        u * count <= v < u * count + u,
        close::close(v * d, hp, 3),
    ensures
        0x80_0000 * (2 * n * d) <= (0x80_0000 + 3) * p,
        n == count ==> 0x80_0000 * (2 * (n + 1) * d) >= (0x80_0000 - 3) * p,
{
    assert(u * n <= v) by (nonlinear_arith)
        requires
            n <= count,
            u * count <= v,
            u > 0,
    ;
    let nd = n * d;
    assert(nd * u <= v * d) by (nonlinear_arith)
        requires
            nd == n * d,
            u * n <= v,
            d > 0,
    {
        assert(nd * u == (u * n) * d) by (nonlinear_arith)
            requires
                nd == n * d,
        ;
    }
    assert(0x80_0000 * (2 * nd) <= (0x80_0000 + 3) * p) by (nonlinear_arith)
        requires
            0x80_0000 * (v * d - hp) <= 3 * hp,
            nd * u <= v * d,
            2 * hp == u * p,
            u > 0,
    ;
    assert(2 * n * d == 2 * nd) by (nonlinear_arith)
        requires
            nd == n * d,
    ;
    if n == count {
        let md = (n + 1) * d;
        assert(md * u >= v * d) by (nonlinear_arith)
            requires
                md == (n + 1) * d,
                u * n + u > v,
                d > 0,
        {
            assert(md * u == (u * n + u) * d) by (nonlinear_arith)
                requires
                    md == (n + 1) * d,
            ;
        }
        assert(0x80_0000 * (2 * md) >= (0x80_0000 - 3) * p) by (nonlinear_arith)
            requires
                0x80_0000 * (hp - v * d) <= 3 * hp,
                md * u >= v * d,
                2 * hp == u * p,
                u > 0,
        ;
        assert(2 * (n + 1) * d == 2 * md) by (nonlinear_arith)
            requires
                md == (n + 1) * d,
        ;
    }
}

} // verus!
