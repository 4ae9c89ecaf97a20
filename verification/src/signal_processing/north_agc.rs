//! Slow automatic gain control for the north reference channel.
//!
//! This is peak-referenced rather than RMS-referenced: the pulse is a roughly
//! 1.2-sample event every 30, so the RMS of a clean pulse train is a fifth of
//! the pulse amplitude, and an RMS reference would also track the rotation
//! rate, because the duty cycle does.
//!
//! It follows the median of the recent pulse amplitudes, not their mean or
//! their maximum. Averaging every detected peak is a positive feedback loop
//! under noise, and a peak hold follows a noise spike riding on a pulse down.
//! The median follows neither end.
//!
//! It adapts on detected pulses once there are any. Before the first
//! detection the gain adapts to the buffer peak, but only when the buffer
//! looks like pulses by its crest factor, and a silent or noisy channel is
//! left alone.
use crate::constants;
use crate::signal_processing::math;
use crate::signal_processing::ordering;
use crate::single;
use crate::single::Single;
use vstd::prelude::*;

verus! {

/// Detected peaks kept for the median. Long enough that a run of noise
/// triggers cannot carry it, short enough to follow a real level change
/// within the time constant.
pub const ROBUST_WINDOW: usize = 64;

/// Fewest peaks that are worth a median.
pub const MEDIAN_MINIMUM: usize = 8;

/// Accepted pulses after which the gain stops moving.
///
/// The reference tick does not change once the hardware is running, so the
/// gain has one job -- to find the level at startup -- and every adaptation
/// after that is exposure without benefit.
pub const OBSERVATIONS_BEFORE_FREEZE: u64 = 512;

/// Peak over mean absolute value, above which a buffer is taken to hold
/// pulses rather than noise (10).
pub const PULSE_CREST_FACTOR: u32 = 0x4120_0000;

/// One half.
pub const HALF: u32 = 0x3f00_0000;

/// Slow peak-referenced gain for the north channel.
pub struct NorthPulseAgc {
    /// The filtered peak a pulse should produce once gain is right.
    target_peak: Single,
    gain: Single,
    min_gain: Single,
    max_gain: Single,
    /// Recent pulse amplitudes at the filter input, oldest first. The gain
    /// follows their median.
    recent: Vec<Single>,
    /// Weight given to a single gain step, from the time constant.
    alpha: Single,
    observations: u64,
    /// Level implied by the last undetected buffer that looked like pulses,
    /// awaiting confirmation by a second one; see observe_undetected.
    undetected_candidate: Option<Single>,
}

/// What the gain control holds.
pub ghost struct PulseAgcState {
    pub target_peak: Single,
    pub gain: Single,
    pub min_gain: Single,
    pub max_gain: Single,
    pub recent: Seq<Single>,
    pub alpha: Single,
    pub observations: nat,
    pub candidate: Option<Single>,
}

/// The level that a full enough window of peaks stands for: their median.
pub open spec fn median_level(recent: Seq<Single>) -> Option<Single> {
    if recent.len() < MEDIAN_MINIMUM {
        None
    } else {
        let v = ordering::sorted(recent)[recent.len() as int / 2];
        if constants::of(constants::EPSILON).lt_spec(v) {
            Some(v)
        } else {
            None
        }
    }
}

/// The largest magnitude in a buffer, passing over NaNs.
pub open spec fn peak_magnitude(s: Seq<Single>) -> Single
    decreases s.len(),
{
    if s.len() == 0 {
        constants::of(0)
    } else {
        peak_magnitude(s.drop_last()).max_spec(s.last().abs_spec())
    }
}

/// The mean magnitude of a buffer.
pub open spec fn mean_magnitude(s: Seq<Single>) -> Single {
    math::sum_of(s.map_values(|x: Single| x.abs_spec())).over_spec(
        Single::from_integer_spec(s.len() as int),
    )
}

impl PulseAgcState {
    pub open spec fn is_frozen(self) -> bool {
        self.observations >= OBSERVATIONS_BEFORE_FREEZE
    }

    /// What the gain is divided by where a level is referred back through it.
    pub open spec fn divisor(self) -> Single {
        self.gain.max_spec(constants::of(constants::EPSILON))
    }

    /// The gain that brings a level to the target.
    pub open spec fn wanted(self, level: Single) -> Single {
        self.target_peak.over_spec(level).clamp_spec(self.min_gain, self.max_gain)
    }

    /// Whether a detected peak is taken into account.
    pub open spec fn takes(self, filtered_peak: Single) -> bool {
        !self.is_frozen() && filtered_peak.finite() && constants::of(constants::EPSILON).lt_spec(
            filtered_peak,
        )
    }

    /// The window with one more peak: the newest ones, up to its length.
    pub open spec fn window_with(self, filtered_peak: Single) -> Seq<Single> {
        let input = filtered_peak.over_spec(self.divisor());
        if self.recent.len() == ROBUST_WINDOW {
            self.recent.skip(1).push(input)
        } else {
            self.recent.push(input)
        }
    }

    /// The state after a detected peak.
    pub open spec fn observed(self, filtered_peak: Single) -> PulseAgcState {
        if !self.takes(filtered_peak) {
            self
        } else {
            let recent = self.window_with(filtered_peak);
            match median_level(recent) {
                None => PulseAgcState { recent, ..self },
                Some(level) => {
                    let alpha = if self.observations == 0 {
                        constants::of(single::ONE_BITS)
                    } else {
                        self.alpha
                    };
                    PulseAgcState {
                        recent,
                        gain: constants::of(single::ONE_BITS).minus_spec(alpha).times_spec(
                            self.gain,
                        ).plus_spec(alpha.times_spec(self.wanted(level))).clamp_spec(
                            self.min_gain,
                            self.max_gain,
                        ),
                        observations: self.observations + 1,
                        ..self
                    }
                },
            }
        }
    }

    /// Whether an undetected buffer looks like pulses rather than noise.
    pub open spec fn looks_like_pulses(buffer: Seq<Single>) -> bool {
        let mean = mean_magnitude(buffer);
        &&& !mean.le_spec(constants::of(constants::EPSILON))
        &&& !peak_magnitude(buffer).over_spec(mean).lt_spec(constants::of(PULSE_CREST_FACTOR))
    }

    /// The level that an undetected buffer stands for.
    pub open spec fn undetected_level(self, buffer: Seq<Single>) -> Single {
        peak_magnitude(buffer).over_spec(self.divisor())
    }

    /// Whether a level agrees with the one awaiting confirmation, within a
    /// factor of two.
    pub open spec fn confirmed_by(self, level: Single) -> bool {
        match self.candidate {
            Some(prev) => level.le_spec(prev.times_spec(constants::of(math::TWO)))
                && prev.times_spec(constants::of(HALF)).le_spec(level),
            None => false,
        }
    }

    /// The state after a buffer without detections.
    pub open spec fn undetected(self, buffer: Seq<Single>) -> PulseAgcState {
        if self.observations > 0 || buffer.len() == 0 {
            self
        } else if !Self::looks_like_pulses(buffer) {
            PulseAgcState { candidate: None, ..self }
        } else {
            let level = self.undetected_level(buffer);
            PulseAgcState {
                gain: if self.confirmed_by(level) {
                    self.wanted(level)
                } else {
                    self.gain
                },
                candidate: Some(level),
                ..self
            }
        }
    }

    /// A frozen gain does not move, whatever is detected or not detected.
    pub proof fn frozen_gain_holds(self, filtered_peak: Single, buffer: Seq<Single>)
        requires
            self.is_frozen(),
        ensures
            self.observed(filtered_peak) == self,
            self.undetected(buffer) == self,
    {
    }

    /// The gain stays within its bounds, where it is a number.
    pub proof fn gain_stays_bounded(self, filtered_peak: Single, buffer: Seq<Single>)
        requires
            self.min_gain.le_spec(self.gain),
            self.gain.le_spec(self.max_gain),
        ensures
            ({
                let a = self.observed(filtered_peak);
                let b = self.undetected(buffer);
                &&& a.gain.nan() || a.min_gain.le_spec(a.gain) && a.gain.le_spec(a.max_gain)
                &&& b.gain.nan() || b.min_gain.le_spec(b.gain) && b.gain.le_spec(b.max_gain)
            }),
    {
    }

    /// One buffer that looks like pulses is not enough to move the gain: it
    /// takes a second one in a row.
    pub proof fn one_buffer_is_not_enough(self, buffer: Seq<Single>)
        requires
            self.candidate is None,
        ensures
            self.undetected(buffer).gain == self.gain,
    {
    }
}

impl View for NorthPulseAgc {
    type V = PulseAgcState;

    closed spec fn view(&self) -> PulseAgcState {
        PulseAgcState {
            target_peak: self.target_peak,
            gain: self.gain,
            min_gain: self.min_gain,
            max_gain: self.max_gain,
            recent: self.recent@,
            alpha: self.alpha,
            observations: self.observations as nat,
            candidate: self.undetected_candidate,
        }
    }
}

impl NorthPulseAgc {
    pub closed spec fn wf(&self) -> bool {
        self.recent.len() <= ROBUST_WINDOW && self.observations <= OBSERVATIONS_BEFORE_FREEZE
    }

    /// How many observations make up the time constant: one per pulse, so the
    /// per-observation weight that gives the requested settling time depends
    /// on how fast pulses arrive.
    pub fn observations_per_constant(
        time_constant_secs: Single,
        pulse_rate_hz: Single,
    ) -> (n: Single)
        ensures
            n == time_constant_secs.times_spec(pulse_rate_hz).max_spec(
                constants::of(single::ONE_BITS),
            ),
    {
        time_constant_secs.times(pulse_rate_hz).max(Single::one())
    }

    /// * `target_peak` - filtered peak amplitude to drive detections towards
    /// * `alpha` - weight of a single gain step: one minus the exponential of
    ///   minus one over `observations_per_constant`
    pub fn new(
        target_peak: Single,
        alpha: Single,
        min_gain: Single,
        max_gain: Single,
    ) -> (a: NorthPulseAgc)
        ensures
            a.wf(),
            a@ == (PulseAgcState {
                target_peak,
                gain: constants::of(single::ONE_BITS),
                min_gain,
                max_gain,
                recent: Seq::empty(),
                alpha,
                observations: 0,
                candidate: None,
            }),
    {
        NorthPulseAgc {
            target_peak,
            gain: Single::one(),
            min_gain,
            max_gain,
            recent: Vec::new(),
            alpha,
            observations: 0,
            undetected_candidate: None,
        }
    }

    /// Median of the recent pulse amplitudes, or None before there are enough
    /// to be worth a median.
    fn median_input_peak(&self) -> (level: Option<Single>)
        ensures
            level == median_level(self@.recent),
    {
        if self.recent.len() < MEDIAN_MINIMUM {
            return None;
        }
        let sorted: Vec<Single> = ordering::sort(self.recent.as_slice());
        let v: Single = sorted[sorted.len() / 2];
        if v.above(Single::from_bits(constants::EPSILON)) {
            Some(v)
        } else {
            None
        }
    }

    /// The gain to apply to the next buffer.
    pub fn gain(&self) -> (gain: Single)
        ensures
            gain == self@.gain,
    {
        self.gain
    }

    /// Whether the gain has had time to mean anything.
    pub fn settled(&self) -> (b: bool)
        ensures
            b == (self@.observations > 0),
    {
        self.observations > 0
    }

    /// Whether the gain has stopped moving.
    pub fn frozen(&self) -> (b: bool)
        ensures
            b == self@.is_frozen(),
    {
        self.observations >= OBSERVATIONS_BEFORE_FREEZE
    }

    /// Allow the gain to move again.
    ///
    /// The caller unfreezes on a long silence, which is the evidence that the
    /// gain it converged to has stopped working. The current gain is kept as
    /// the starting point, and the next observation is free to move it the
    /// whole way. The undetected-buffer candidate is deliberately kept:
    /// clearing it here would reset the two-buffer confirmation in
    /// observe_undetected before it could ever complete.
    pub fn unfreeze(&mut self)
        requires
            old(self).wf(),
        ensures
            final(self).wf(),
            final(self)@ == (PulseAgcState {
                observations: 0,
                recent: Seq::empty(),
                ..old(self)@
            }),
    {
        self.observations = 0;
        self.recent.clear();
    }

    /// Note a buffer that has produced no detections.
    ///
    /// Only useful before anything has ever been detected, and only acted on
    /// when the buffer looks like a pulse train rather than a noise floor.
    /// Once detections are arriving they are the better evidence and this does
    /// nothing.
    pub fn observe_undetected(&mut self, filtered: &[Single])
        requires
            old(self).wf(),
        ensures
            final(self).wf(),
            final(self)@ == old(self)@.undetected(filtered@),
    {
        if self.observations > 0 || filtered.len() == 0 {
            return;
        }
        let mut peak: Single = Single::zero();
        let mut magnitudes: Vec<Single> = Vec::new();
        let mut i: usize = 0;
        while i < filtered.len()
            invariant
                i <= filtered.len(),
                peak == peak_magnitude(filtered@.take(i as int)),
                magnitudes@ == filtered@.take(i as int).map_values(|x: Single| x.abs_spec()),
            decreases filtered.len() - i,
        {
            assert(filtered@.take(i + 1).drop_last() =~= filtered@.take(i as int));
            peak = peak.max(filtered[i].abs());
            magnitudes.push(filtered[i].abs());
            i = i + 1;
            assert(magnitudes@ =~= filtered@.take(i as int).map_values(
                |x: Single| x.abs_spec(),
            ));
        }
        assert(filtered@.take(i as int) =~= filtered@);
        let mean_abs: Single = math::sum(magnitudes.as_slice()).over(
            Single::from_count(filtered.len()),
        );
        if mean_abs.at_most(Single::from_bits(constants::EPSILON)) || peak.over(
            mean_abs,
        ).less_than(Single::from_bits(PULSE_CREST_FACTOR)) {
            self.undetected_candidate = None;
            return;
        }
        // Deliberately not counted as an observation: this is a guess at the
        // level from an undetected buffer, and the first real detection should
        // still be free to move the gain the whole way.
        let level: Single = peak.over(self.gain.max(Single::from_bits(constants::EPSILON)));
        // A single buffer is not enough: one noise impulse in an otherwise
        // quiet buffer has exactly the crest factor of a pulse. A pulse
        // train is periodic, so it shows the same level in consecutive
        // buffers; demand two in a row within a factor of two before the
        // gain moves.
        if let Some(prev) = self.undetected_candidate {
            if level.at_most(prev.times(Single::from_bits(math::TWO))) && level.at_least(
                prev.times(Single::from_bits(HALF)),
            ) {
                self.gain = self.target_peak.over(level).clamp(self.min_gain, self.max_gain);
            }
        }
        self.undetected_candidate = Some(level);
    }

    /// Note the filtered peak of a detected pulse.
    ///
    /// `filtered_peak` is measured after the current gain was applied, so it is
    /// referred back through the gain before entering the median window.
    pub fn observe(&mut self, filtered_peak: Single)
        requires
            old(self).wf(),
        ensures
            final(self).wf(),
            final(self)@ == old(self)@.observed(filtered_peak),
    {
        if self.frozen() || !filtered_peak.is_finite() || !filtered_peak.above(
            Single::from_bits(constants::EPSILON),
        ) {
            return;
        }
        // Referred back through the current gain, so what accumulates is a
        // property of the signal rather than of what the gain happened to be.
        let input_peak: Single = filtered_peak.over(
            self.gain.max(Single::from_bits(constants::EPSILON)),
        );
        if self.recent.len() == ROBUST_WINDOW {
            self.recent.remove(0);
            assert(self.recent@ =~= old(self).recent@.skip(1));
        }
        self.recent.push(input_peak);
        let level: Single = match self.median_input_peak() {
            Some(level) => level,
            None => {
                return;
            },
        };
        let wanted: Single = self.target_peak.over(level).clamp(self.min_gain, self.max_gain);
        // The first observation moves the gain most of the way, so a receiver
        // far from the expected level is usable within a rotation or two
        // rather than after the full time constant.
        let alpha: Single = if self.observations == 0 {
            Single::one()
        } else {
            self.alpha
        };
        self.gain = Single::one().minus(alpha).times(self.gain).plus(alpha.times(wanted)).clamp(
            self.min_gain,
            self.max_gain,
        );
        self.observations = self.observations + 1;
    }
}

} // verus!
