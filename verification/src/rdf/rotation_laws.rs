//! What holds of the oscillator all the time, and of every tick it yields.
use crate::constants;
use crate::double;
use crate::double::Double;
use crate::double_laws;
use crate::ieee;
use crate::rdf::coast_laws;
use crate::rdf::north_ref::NorthTick;
use crate::rdf::north_ref_common;
use crate::rdf::rolling_stats;
use crate::rdf::rotation_loop;
use crate::rdf::rotation_loop::{Coast, LoopParams, LoopState};
use crate::signal_processing::math;
use crate::signal_processing::north_agc;
use crate::single;
use crate::single::Single;
use crate::single_laws;
use vstd::arithmetic::power2;
use vstd::prelude::*;

verus! {

/// Whether a fraction lies within half a sample.
pub open spec fn in_half_sample(x: Single) -> bool {
    constants::of(north_agc::HALF).neg_spec().le_spec(x) && x.le_spec(
        constants::of(north_agc::HALF),
    )
}

/// Whether a tick is timed as every tick of the loop is: on the phase of
/// north, within half a sample of its index, with the period of its frequency.
pub open spec fn well_timed(t: NorthTick) -> bool {
    &&& t.phase == constants::of(0)
    &&& in_half_sample(t.fractional_sample_offset)
    &&& t.period == Some(rotation_loop::period_of(t.frequency))
}

/// Re-anchoring a time leaves a fraction within half a sample.
pub proof fn split_time_is_in_half_sample(at: int, offset: Single)
    ensures
        in_half_sample(north_ref_common::effective_time_spec(at, offset).1),
{
    if offset.finite() {
        single_laws::rounded_off(offset);
    }
}

/// How large a number the settings of a loop may be, as a power of two in
/// units of the smallest number: `2^30`.
pub const MODERATE: u32 = 179;

/// How large the sub-sample parts of a detection may be, in the same way:
/// `2^21` samples.
pub const FRACTION: u32 = 170;

impl LoopParams {
    /// Whether a loop with these settings keeps to numbers: the limits are in
    /// order, and no setting is beyond all measure.
    pub open spec fn in_order(self) -> bool {
        &&& self.min_omega.le_spec(self.max_omega)
        &&& single_laws::within(self.min_omega, MODERATE as nat)
        &&& single_laws::within(self.max_omega, MODERATE as nat)
        &&& single_laws::within(self.kp, MODERATE as nat)
        &&& self.ki.finite()
    }

    pub open spec fn in_limits(self, frequency: Single) -> bool {
        self.min_omega.le_spec(frequency) && frequency.le_spec(self.max_omega)
    }

    /// Whether a frequency is the running mean of rates that all keep to the
    /// limits.
    pub open spec fn averaged(self, frequency: Single) -> bool {
        exists|r: rolling_stats::Rolling|
            #[trigger] r.mean() == Some(frequency) && self.all_in_limits(r.window)
    }

    pub open spec fn all_in_limits(self, window: Seq<Single>) -> bool {
        forall|i: int| 0 <= i < window.len() ==> self.in_limits(#[trigger] window[i])
    }
}

impl LoopState {
    /// What every operation of the oscillator keeps: the settings are in
    /// order, the phase lies in a turn, and once a pulse has been taken the
    /// frequency keeps to its limits, as do the rates behind the average.
    pub open spec fn steady(self) -> bool {
        &&& self.params.in_order()
        &&& self.phase.finite()
        &&& 0 <= self.phase.rank() <= constants::of(constants::TWO_PI).rank()
        &&& single_laws::within(self.frequency, MODERATE as nat)
        &&& self.errors.window.len() > 0 ==> self.params.in_limits(self.frequency)
        &&& self.params.all_in_limits(self.rates.window)
        &&& self.last matches Some(last) ==> last >= 0 && coast_laws::is_sound(self.coast_time())
    }

    /// A phase that was brought into one turn lies in it.
    proof fn wrapped_phase(phase: Single)
        requires
            phase.finite(),
        ensures
            rotation_loop::wrap_phase_spec(phase).finite(),
            0 <= rotation_loop::wrap_phase_spec(phase).rank() <= constants::of(constants::TWO_PI).rank(),
    {
        single_laws::rem_euclid_in_range(phase, constants::of(constants::TWO_PI));
    }

    /// The oscillator is steady at the start, where its settings are.
    pub proof fn starts_steady(params: LoopParams, frequency: Single)
        requires
            params.in_order(),
            single_laws::within(frequency, MODERATE as nat),
        ensures
            Self::starting(params, frequency).steady(),
    {
    }

    /// The oscillator stays steady as it runs.
    pub proof fn turning_keeps_steady(self, samples: int)
        requires
            self.steady(),
            -u64::MAX <= samples <= u64::MAX,
        ensures
            self.turned(samples).steady(),
    {
        let n = Single::from_integer_spec(samples);
        single_laws::count_within(samples);
        single_laws::product_within(self.frequency, n, MODERATE as nat, 213);
        single_laws::sum_within(self.phase, self.frequency.times_spec(n), 243);
        Self::wrapped_phase(self.phase.plus_spec(self.frequency.times_spec(n)));
    }

    /// A phase error lies within half a turn either way.
    pub proof fn phase_error_is_in_half_turn(self, fraction: Single)
        requires
            self.steady(),
            single_laws::within(fraction, MODERATE as nat),
        ensures
            math::in_half_turn(self.phase_error(fraction)),
    {
        let pi = constants::of(constants::PI);
        let turn = constants::of(constants::TWO_PI);
        let step = self.frequency.times_spec(fraction);
        single_laws::product_within(self.frequency, fraction, MODERATE as nat, MODERATE as nat);
        single_laws::sum_within(self.phase, step, 209);
        Self::wrapped_phase(self.phase.plus_spec(step));
        let e = rotation_loop::wrap_phase_spec(self.phase.plus_spec(step)).neg_spec();
        single_laws::sum_within(e, pi, 209);
        let r = e.plus_spec(pi).rem_euclid_spec(turn);
        single_laws::rem_euclid_in_range(e.plus_spec(pi), turn);
        math::turn_is_twice_pi();
        single_laws::about_half(r, pi, turn);
    }

    /// What a detection yields is well timed and keeps to the limits, and the
    /// oscillator stays steady.
    pub proof fn detection_keeps_steady(self, at: int, fraction: Single, delay_fraction: Single)
        requires
            self.steady(),
            0 <= at <= usize::MAX,
            single_laws::within(fraction, FRACTION as nat),
            single_laws::within(delay_fraction, FRACTION as nat),
        ensures
            self.detected(at, fraction, delay_fraction).0.steady(),
            self.detected(at, fraction, delay_fraction).1 matches Some(t) ==> well_timed(t)
                && self.params.in_limits(t.frequency),
    {
        let error = self.phase_error(fraction);
        single_laws::within_more(fraction, FRACTION as nat, MODERATE as nat);
        self.phase_error_is_in_half_turn(fraction);
        let p = self.params;
        let s = self.accepting(self.gated(error));
        let noted = LoopState { errors: s.errors.updated(error), ..s };
        let pull = p.kp.times_spec(error);
        single_laws::product_within(p.kp, error, MODERATE as nat, 152);
        single_laws::sum_within(self.phase, pull, 182);
        Self::wrapped_phase(self.phase.plus_spec(pull));
        let change = p.ki.times_spec(error);
        single_laws::finite_product(p.ki, error);
        single_laws::finite_plus_number(self.frequency, change);
        let steered = noted.steered(error);
        assert(p.in_limits(steered.frequency));
        single_laws::between_within(
            steered.frequency,
            p.min_omega,
            p.max_omega,
            MODERATE as nat,
        );
        assert(p.all_in_limits(s.rates.window));
        assert(p.all_in_limits(s.rates.updated(steered.frequency).window));
        let correction = noted.correction(error);
        let offset = delay_fraction.plus_spec(fraction).plus_spec(correction);
        split_time_is_in_half_sample(at, offset);
        if offset.finite() {
            single_laws::sum_within(delay_fraction, fraction, FRACTION as nat);
            noted.correction_is_bounded(error);
            single_laws::within_more(correction, 148, FRACTION as nat + 1);
            single_laws::sum_within(
                delay_fraction.plus_spec(fraction),
                correction,
                FRACTION as nat + 1,
            );
        }
        coast_laws::split_time_is_sound(at, offset);
    }

    /// Coasting leaves everything but the last tick as it was.
    proof fn coasting_keeps_rotation(self, c: Coast)
        ensures
            ({
                let end = self.coast_end(c);
                end == LoopState { last: end.last, last_fraction: end.last_fraction, ..self }
            }),
        decreases self.coast_room(),
    {
        if self.coasts_on(c) {
            self.coast_step(c).coasting_keeps_rotation(c);
        }
    }

    /// What is predicted is well timed, at the frequency of the coast.
    proof fn predictions_are_well_timed(self, c: Coast)
        requires
            c.until < usize::MAX,
            c.period == rotation_loop::period_of(c.frequency),
            c.period.finite(),
            constants::of(single::ONE_BITS).le_spec(c.period),
            self.last is Some ==> coast_laws::is_sound(self.coast_time()),
        ensures
            forall|i: int|
                0 <= i < self.coast_ticks(c).len() ==> well_timed(
                    #[trigger] self.coast_ticks(c)[i],
                ) && self.coast_ticks(c)[i].frequency == c.frequency,
        decreases self.coast_room(),
    {
        if self.coasts_on(c) {
            let next = self.coast_step(c);
            let rest = next.coast_ticks(c);
            let first = next.coast_tick(c.period, c.frequency);
            coast_laws::predicted_time_is_sound(self, c);
            next.predictions_are_well_timed(c);
            assert(well_timed(first));
            assert(self.coast_ticks(c) == seq![first] + rest);
            assert forall|i: int| 0 <= i < self.coast_ticks(c).len() implies well_timed(
                #[trigger] self.coast_ticks(c)[i],
            ) && self.coast_ticks(c)[i].frequency == c.frequency by {
                if i > 0 {
                    assert(self.coast_ticks(c)[i] == rest[i - 1]);
                }
            }
        }
    }

    /// What is predicted is well timed, at a frequency within the limits or at
    /// the running mean of rates that are, and the oscillator stays steady.
    pub proof fn prediction_keeps_steady(self, until: int)
        requires
            self.steady(),
            until < usize::MAX,
        ensures
            self.coasted_to(until).steady(),
            self.coasted_to(until).params == self.params,
            forall|i: int|
                0 <= i < self.predicted(until).len() ==> well_timed(
                    #[trigger] self.predicted(until)[i],
                ) && (self.params.in_limits(self.predicted(until)[i].frequency)
                    || self.params.averaged(self.predicted(until)[i].frequency)),
    {
        if let Some(c) = self.coast(until) {
            self.coasting_keeps_rotation(c);
            self.predictions_are_well_timed(c);
            self.coast_last(c);
            if self.rates.mean() == Some(c.frequency) {
                assert(self.params.averaged(c.frequency));
            }
        }
    }

    proof fn coast_last(self, c: Coast)
        requires
            c.until < usize::MAX,
            c.period.finite(),
            constants::of(single::ONE_BITS).le_spec(c.period),
            self.last matches Some(last) ==> last >= 0 && coast_laws::is_sound(
                self.coast_time(),
            ),
        ensures
            self.coast_end(c).last matches Some(last) ==> last >= 0 && coast_laws::is_sound(
                self.coast_end(c).coast_time(),
            ),
        decreases self.coast_room(),
    {
        if self.coasts_on(c) {
            coast_laws::predicted_time_is_sound(self, c);
            self.coast_step(c).coast_last(c);
        }
    }

    /// The oscillator stays steady over lost samples.
    pub proof fn skipping_keeps_steady(self, samples: int)
        requires
            self.steady(),
            0 <= samples <= u64::MAX,
        ensures
            self.skipped(samples).steady(),
    {
        let h = double::HIDDEN as nat;
        let turn = Double { bits: constants::TWO_PI_DOUBLE };
        let f = Double::from_single_spec(self.frequency);
        let n = Double::from_count_spec(samples as nat);
        power2::lemma2_to64();
        power2::lemma2_to64_rest();
        double_laws::widening_is_exact(self.frequency);
        double_laws::count_is_moderate(samples as nat);
        double_laws::product_is_finite(f, n, 1202, 1138);
        single_laws::power_pattern_value(h, 52, 1077);
        let top = single_laws::power_pattern(h, 52, 1077);
        assert(top == 0x4020_0000_0000_0000);
        ieee::pattern_value_increases(h, turn.magnitude() as nat, top);
        ieee::pattern_value_increases(h, 0, turn.magnitude() as nat);
        double_laws::rem_euclid_is_bounded(f.times_spec(n), turn, 1077);
        let advance = f.times_spec(n).rem_euclid_spec(turn);
        double_laws::narrowing_stays_within(advance, 152);
        let step = advance.to_single_spec();
        single_laws::within_more(step, 152, MODERATE as nat);
        single_laws::sum_within(self.phase, step, MODERATE as nat);
        Self::wrapped_phase(self.phase.plus_spec(step));
    }
}

} // verus!
