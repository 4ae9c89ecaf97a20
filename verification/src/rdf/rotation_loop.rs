//! The oscillator that follows the rotation.
use crate::constants;
use crate::double;
use crate::double::Double;
use crate::rdf::north_ref;
use crate::rdf::north_ref::NorthTick;
use crate::rdf::north_ref_common;
use crate::rdf::north_ref_simple;
use crate::rdf::rolling_stats;
use crate::rdf::rolling_stats::RollingWindowStats;
use crate::signal_processing::math;
use crate::signal_processing::north_agc;
use crate::single;
use crate::single::Single;
use crate::single_laws;
use vstd::prelude::*;

verus! {

/// Ticks before the oscillator corrects the time of a tick.
pub const MIN_PHASE_CORRECTION_SAMPLES: usize = 16;

/// Ticks of history before the oscillator is treated as locked well enough to
/// overrule a detection or to predict without one.
pub const MIN_LOCKED_SAMPLES: usize = 64;

/// Widest phase-error spread of a locked oscillator, in radians (0.35).
pub const MAX_LOCKED_PHASE_STD_RAD: u32 = 0x3eb3_3333;

/// Ceiling on the timing gate as a fraction of the rotation (0.25).
pub const MAX_TIMING_GATE_FRACTION: u32 = 0x3e80_0000;

/// Narrowest the timing gate may become, in samples (0.25). A floor keeps the
/// gate from collapsing onto a tracker that happens to be momentarily quiet.
pub const MIN_TIMING_GATE_SAMPLES: u32 = 0x3e80_0000;

/// Consecutive gate rejections that mean the tracker, not the signal, is
/// wrong. Rejected detections never reach the statistics the limit is built
/// from, so without this a tracker whose rotation estimate has gone stale
/// would reject every real pulse forever.
pub const MAX_CONSECUTIVE_REJECTIONS: usize = 8;

/// Ticks that the lock statistics look back on.
pub const LOCK_STATS_WINDOW_TICKS: usize = 128;

/// One hundred.
pub const HUNDRED: u32 = 0x42c8_0000;

/// How the phase and the frequency stability make up the lock quality.
#[derive(Debug, Clone, Copy, PartialEq, Eq, Structural)]
pub struct LockQualityWeights {
    pub phase_weight: Single,
    pub frequency_weight: Single,
}

/// What an oscillator is set up with.
#[derive(Debug, Clone, Copy, PartialEq, Eq, Structural)]
pub struct LoopParams {
    /// Proportional gain
    pub kp: Single,
    /// Integral gain
    pub ki: Single,
    /// Frequency limits (radians/sample)
    pub min_omega: Single,
    pub max_omega: Single,
    /// Width of the timing gate in standard deviations of the phase error
    pub gate_sigma: Single,
    /// Longest coast, in samples
    pub max_coast_samples: usize,
    /// How far back of the current position a detection can still surface,
    /// because the detector defers a crossing until its search window and
    /// trailing context have both been seen.
    pub detector_deferral_samples: usize,
    pub lock_quality_weights: LockQualityWeights,
}

/// The oscillator: a phase and a frequency, how well they have agreed with
/// the detections, and where the last ticks were.
pub struct RotationLoop {
    params: LoopParams,
    /// Current phase estimate (radians, 0-2π)
    phase: Single,
    /// Frequency estimate (radians/sample)
    frequency: Single,
    phase_error_stats: RollingWindowStats,
    freq_stats: RollingWindowStats,
    last_tick_sample: Option<usize>,
    /// Sub-sample part of the last emitted tick, so coasting advances by the
    /// true period instead of accumulating a rounding error every rotation.
    last_tick_fraction: Single,
    /// Where a pulse was last accepted, for coasting and lock state.
    last_measured_sample: Option<usize>,
    /// Where a detection was last rejected, so coasting can stand aside while
    /// detections are being disputed without standing aside forever.
    last_rejection_sample: Option<usize>,
    consecutive_rejections: usize,
}

/// What an oscillator holds.
pub ghost struct LoopState {
    pub params: LoopParams,
    pub phase: Single,
    pub frequency: Single,
    pub errors: rolling_stats::Rolling,
    pub rates: rolling_stats::Rolling,
    pub last: Option<int>,
    pub last_fraction: Single,
    pub measured: Option<int>,
    pub rejected: Option<int>,
    pub rejections: nat,
}

/// A phase brought into one turn.
pub open spec fn wrap_phase_spec(phase: Single) -> Single {
    phase.rem_euclid_spec(constants::of(constants::TWO_PI))
}

/// A phase error brought into half a turn either way.
pub open spec fn wrap_phase_error_spec(error: Single) -> Single {
    error.plus_spec(constants::of(constants::PI)).rem_euclid_spec(
        constants::of(constants::TWO_PI),
    ).minus_spec(constants::of(constants::PI))
}

/// The period of a frequency, in samples.
pub open spec fn period_of(frequency: Single) -> Single {
    constants::of(constants::TWO_PI).over_spec(frequency)
}

pub open spec fn as_position(at: Option<usize>) -> Option<int> {
    match at {
        Some(x) => Some(x as int),
        None => None,
    }
}

pub open spec fn or_zero(x: Option<Single>) -> Single {
    match x {
        Some(v) => v,
        None => constants::of(0),
    }
}

/// How a coast goes on: the averaged rotation, and how close to the end of the
/// known signal a predicted tick may come.
pub ghost struct Coast {
    pub frequency: Single,
    pub period: Single,
    pub reserved: nat,
    pub until: int,
}

impl LoopState {
    /// Whether the oscillator is tracking well enough to be trusted over the
    /// detector: to reject a detection that disagrees with it, or to predict
    /// a tick where no detection happened.
    ///
    /// A tick count alone is not evidence of that. It says only that pulses
    /// arrived, not that the loop followed them, so the phase error has to
    /// have settled too.
    pub open spec fn locked(self) -> bool {
        &&& self.errors.count() >= MIN_LOCKED_SAMPLES
        &&& match self.errors.std_dev() {
            Some(s) => s.finite() && s.le_spec(constants::of(MAX_LOCKED_PHASE_STD_RAD)),
            None => false,
        }
    }

    /// Whether there is a rotation to speak of.
    pub open spec fn turning(self) -> bool {
        !self.frequency.le_spec(constants::of(constants::FREQUENCY_EPSILON))
    }

    /// Samples since a pulse was last accepted at the given position.
    pub open spec fn coasted(self, at: int) -> Option<int> {
        match self.measured {
            Some(m) => Some(north_ref::behind(at, m)),
            None => None,
        }
    }

    /// Per-rotation timing discrepancy that the scatter of the frequency
    /// estimate stands for.
    pub open spec fn rate_spread(self) -> Single {
        match (self.rates.std_dev(), self.rates.mean()) {
            (Some(s), Some(m)) => if s.finite() && constants::of(
                constants::FREQUENCY_EPSILON,
            ).lt_spec(m) {
                s.over_spec(m).times_spec(period_of(self.frequency))
            } else {
                constants::of(single::INFINITY_BITS)
            },
            _ => constants::of(single::INFINITY_BITS),
        }
    }

    /// Per-rotation timing discrepancy that the mean phase error stands for:
    /// only the part of the mean that stands out from its own noise counts.
    pub open spec fn systematic_drift(self) -> Single {
        match (self.errors.mean(), self.errors.std_dev()) {
            (Some(mean), Some(std_dev)) => if mean.finite() && std_dev.finite() {
                let count = Single::from_integer_spec(
                    if self.errors.count() > 1 {
                        self.errors.count() as int
                    } else {
                        1
                    },
                );
                let noise_floor = constants::of(math::TWO).times_spec(std_dev).over_spec(
                    count.sqrt_spec(),
                );
                mean.abs_spec().minus_spec(noise_floor).max_spec(constants::of(0)).over_spec(
                    self.frequency,
                ).abs_spec()
            } else {
                constants::of(single::INFINITY_BITS)
            },
            _ => constants::of(single::INFINITY_BITS),
        }
    }

    /// How far the tracker may coast before its own rate uncertainty puts
    /// more than half a sample into a predicted tick: the tighter of what the
    /// scatter and what the mean phase error allow, within the configured
    /// maximum.
    pub open spec fn budget(self) -> nat {
        let period = period_of(self.frequency);
        let per_rotation = self.rate_spread().max_spec(self.systematic_drift());
        let rotations = constants::of(north_agc::HALF).over_spec(per_rotation);
        let most = self.params.max_coast_samples as nat;
        if !self.turning() || !period.finite() || !constants::of(single::ONE_BITS).le_spec(
            period,
        ) {
            0
        } else if per_rotation.le_spec(constants::of(constants::EPSILON)) {
            most
        } else if !rotations.finite() || rotations.le_spec(constants::of(0)) {
            0
        } else {
            let n = rotations.times_spec(period).to_count_spec();
            if n < most {
                n
            } else {
                most
            }
        }
    }

    /// Whether the rotation estimate is recent enough to predict from.
    pub open spec fn within_budget(self, at: int) -> bool {
        match self.coasted(at) {
            Some(c) => c <= self.budget(),
            None => false,
        }
    }

    /// Confidence in a tick predicted rather than measured, falling to zero at
    /// the end of the coasting budget.
    pub open spec fn quality_scale(self, at: int) -> Single {
        let one = constants::of(single::ONE_BITS);
        if self.budget() == 0 {
            constants::of(0)
        } else {
            let coasted = match self.coasted(at) {
                Some(c) => c,
                None => usize::MAX as int,
            };
            one.minus_spec(
                Single::from_integer_spec(coasted).over_spec(
                    Single::from_integer_spec(self.budget() as int),
                ).clamp_spec(constants::of(0), one),
            )
        }
    }

    /// Timing variance a predicted tick carries on top of the measured
    /// scatter, in radians squared of rotation phase: the fraction of the
    /// budget spent is the fraction of the error to expect.
    pub open spec fn drift_variance(self, at: int) -> Single {
        let spent = constants::of(single::ONE_BITS).minus_spec(self.quality_scale(at));
        let radians = constants::of(north_agc::HALF).times_spec(spent).times_spec(
            self.frequency,
        );
        radians.times_spec(radians)
    }

    /// How steady the phase and the frequency have been: weighted scores of
    /// both, from two ticks on.
    pub open spec fn lock_quality(self) -> Option<Single> {
        let zero = constants::of(0);
        let one = constants::of(single::ONE_BITS);
        match (self.errors.std_dev(), self.rates.mean(), self.rates.std_dev()) {
            (Some(phase_std), Some(freq_mean), Some(freq_std)) => {
                let phase_score = one.minus_spec(
                    phase_std.abs_spec().over_spec(constants::of(constants::PI)),
                ).clamp_spec(zero, one);
                let freq_cv = if constants::of(constants::FREQUENCY_EPSILON).lt_spec(
                    freq_mean.abs_spec(),
                ) {
                    freq_std.over_spec(freq_mean).abs_spec()
                } else {
                    one
                };
                let freq_score = one.minus_spec(
                    freq_cv.times_spec(constants::of(HUNDRED)),
                ).clamp_spec(zero, one);
                let w = self.params.lock_quality_weights;
                Some(
                    w.phase_weight.times_spec(phase_score).plus_spec(
                        w.frequency_weight.times_spec(freq_score),
                    ),
                )
            },
            _ => None,
        }
    }

    /// Widest disagreement between a detection and the tracked rotation that
    /// is still treated as the same pulse, in samples. Only a locked tracker
    /// has one: scaled to the phase error it is actually seeing, with a floor
    /// and a ceiling of a quarter rotation.
    pub open spec fn gate(self, period_estimate: Single) -> Option<Single> {
        match self.errors.std_dev() {
            Some(s) => if self.locked() && self.turning() && s.finite() {
                Some(
                    self.params.gate_sigma.times_spec(s).over_spec(self.frequency).max_spec(
                        constants::of(MIN_TIMING_GATE_SAMPLES),
                    ).min_spec(
                        period_estimate.times_spec(constants::of(MAX_TIMING_GATE_FRACTION)),
                    ),
                )
            } else {
                None
            },
            None => None,
        }
    }

    /// The rotation that a coast integrates: the averaged estimate, or the
    /// current one where there is none.
    pub open spec fn coast_frequency(self) -> Single {
        match self.rates.mean() {
            Some(f) => if f.finite() && constants::of(constants::FREQUENCY_EPSILON).lt_spec(f) {
                f
            } else {
                self.frequency
            },
            None => self.frequency,
        }
    }

    /// Whether a recent rejection holds coasting off.
    pub open spec fn held_off(self, until: int) -> bool {
        match self.rejected {
            Some(at) => Single::from_integer_spec(north_ref::behind(until, at)).lt_spec(
                period_of(self.frequency).times_spec(constants::of(math::TWO)),
            ),
            None => false,
        }
    }

    /// The coast up to a position, where there is one.
    pub open spec fn coast(self, until: int) -> Option<Coast> {
        let frequency = self.coast_frequency();
        let period = period_of(frequency);
        if !self.locked() || !self.turning() || self.held_off(until) || !period.finite()
            || period.lt_spec(constants::of(single::ONE_BITS)) {
            None
        } else {
            Some(
                Coast {
                    frequency,
                    period,
                    reserved: period.times_spec(
                        constants::of(north_ref_simple::MIN_TICK_SPACING_FRACTION),
                    ).round_spec().to_count_spec() + self.params.detector_deferral_samples
                        as nat,
                    until,
                },
            )
        }
    }

    /// Where the last tick lies, with its sub-sample part.
    pub open spec fn coast_time(self) -> Double {
        Double::from_count_spec(self.last->0 as nat).plus_spec(
            Double::from_single_spec(self.last_fraction),
        )
    }

    /// Where the next predicted tick lies, before it is rounded.
    pub open spec fn coast_position(self, period: Single) -> Double {
        self.coast_time().plus_spec(Double::from_single_spec(period))
    }

    pub open spec fn coast_next(self, period: Single) -> int {
        self.coast_position(period).round_count_spec() as int
    }

    /// Whether another tick is predicted: it lies far enough from the end, and
    /// within the budget. Where a period is lost in the rounding of the time a
    /// coast would stand still for ever, so it ends; `coast_laws` shows that
    /// no period is lost in the first `2^51` samples.
    pub open spec fn coasts_on(self, c: Coast) -> bool {
        &&& self.last is Some
        &&& self.coast_next(c.period) + c.reserved <= c.until
        &&& self.within_budget(self.coast_next(c.period))
        &&& self.coast_time().lt_spec(self.coast_step(c).coast_time())
    }

    /// How many times are left ahead of the last tick.
    pub open spec fn coast_room(self) -> nat {
        if self.coast_time().nan() {
            0
        } else {
            (double::INFINITE + 1 - self.coast_time().rank()) as nat
        }
    }

    /// The state after one predicted tick.
    pub open spec fn coast_step(self, c: Coast) -> LoopState {
        let next = self.coast_next(c.period);
        LoopState {
            last: Some(next),
            last_fraction: self.coast_position(c.period).minus_spec(
                Double::from_count_spec(next as nat),
            ).to_single_spec(),
            ..self
        }
    }

    /// A predicted tick at the last position.
    pub open spec fn coast_tick(self, period: Single, frequency: Single) -> NorthTick {
        let at = self.last->0;
        NorthTick {
            sample_index: at as usize,
            period: Some(period),
            lock_quality: match self.lock_quality() {
                Some(q) => Some(q.times_spec(self.quality_scale(at))),
                None => None,
            },
            phase_variance: match self.errors.variance() {
                Some(v) => Some(v.plus_spec(self.drift_variance(at))),
                None => None,
            },
            fractional_sample_offset: self.last_fraction,
            phase: constants::of(0),
            frequency,
        }
    }

    /// The state at the end of a coast.
    pub open spec fn coast_end(self, c: Coast) -> LoopState
        decreases self.coast_room(),
    {
        if self.coasts_on(c) {
            self.coast_step(c).coast_end(c)
        } else {
            self
        }
    }

    /// The ticks that a coast predicts.
    pub open spec fn coast_ticks(self, c: Coast) -> Seq<NorthTick>
        decreases self.coast_room(),
    {
        if self.coasts_on(c) {
            seq![self.coast_step(c).coast_tick(c.period, c.frequency)] + self.coast_step(
                c,
            ).coast_ticks(c)
        } else {
            Seq::empty()
        }
    }

    /// The state after coasting up to a position.
    pub open spec fn coasted_to(self, until: int) -> LoopState {
        match self.coast(until) {
            Some(c) => self.coast_end(c),
            None => self,
        }
    }

    /// The ticks predicted up to a position.
    pub open spec fn predicted(self, until: int) -> Seq<NorthTick> {
        match self.coast(until) {
            Some(c) => self.coast_ticks(c),
            None => Seq::empty(),
        }
    }

    /// The state after the oscillator has run for a number of samples, which
    /// may be negative.
    pub open spec fn turned(self, samples: int) -> LoopState {
        LoopState {
            phase: wrap_phase_spec(
                self.phase.plus_spec(
                    self.frequency.times_spec(Single::from_integer_spec(samples)),
                ),
            ),
            ..self
        }
    }

    /// Whether a position is too close to the last tick to be another one.
    pub open spec fn too_close(self, at: int) -> bool {
        match self.last {
            Some(last) => Single::from_integer_spec(north_ref::behind(at, last)).lt_spec(
                period_of(self.frequency).times_spec(
                    constants::of(north_ref_simple::MIN_TICK_SPACING_FRACTION),
                ),
            ),
            None => false,
        }
    }

    /// How far the oscillator is from north where a pulse arrived. It stands
    /// at the whole-sample peak, so the sub-sample part is added here.
    pub open spec fn phase_error(self, fraction: Single) -> Single {
        wrap_phase_error_spec(
            wrap_phase_spec(
                self.phase.plus_spec(self.frequency.times_spec(fraction)),
            ).neg_spec(),
        )
    }

    /// The part of a phase error that is not the oscillator's steady offset,
    /// in samples.
    pub open spec fn disagreement(self, error: Single) -> Single {
        error.minus_spec(or_zero(self.errors.mean())).over_spec(self.frequency)
    }

    /// Whether the limit turns a detection down.
    pub open spec fn gated(self, error: Single) -> bool {
        match self.gate(period_of(self.frequency)) {
            Some(g) => g.lt_spec(self.disagreement(error).abs_spec()),
            None => false,
        }
    }

    /// The state once a detection that disagrees has been counted.
    pub open spec fn counted(self, at: int) -> LoopState {
        LoopState {
            rejections: if self.rejections < usize::MAX {
                self.rejections + 1
            } else {
                self.rejections
            },
            rejected: Some(at),
            ..self
        }
    }

    /// Whether one more rejection is one too many: everything is being
    /// rejected, so the rotation estimate is what is wrong.
    pub open spec fn gives_in(self) -> bool {
        self.rejections + 1 >= MAX_CONSECUTIVE_REJECTIONS
    }

    /// The state ahead of an accepted detection: one too many rejections
    /// drops the history that the limit is built from.
    pub open spec fn accepting(self, gated: bool) -> LoopState {
        let s = if gated {
            LoopState {
                errors: rolling_stats::Rolling::empty(self.errors.max_len),
                rates: rolling_stats::Rolling::empty(self.rates.max_len),
                measured: None,
                ..self
            }
        } else {
            self
        };
        LoopState { rejections: 0, rejected: None, ..s }
    }

    /// The timing correction of a tick: what the phase error varies by from
    /// tick to tick, which is at most half a sample of quantization.
    pub open spec fn correction(self, error: Single) -> Single {
        let half = constants::of(north_agc::HALF);
        if self.errors.count() >= MIN_PHASE_CORRECTION_SAMPLES && constants::of(
            constants::FREQUENCY_EPSILON,
        ).lt_spec(self.frequency) {
            self.disagreement(error).clamp_spec(half.neg_spec(), half)
        } else {
            constants::of(0)
        }
    }

    /// The state after the proportional and the integral part of the control
    /// loop have acted on a phase error.
    pub open spec fn steered(self, error: Single) -> LoopState {
        let frequency = self.frequency.plus_spec(self.params.ki.times_spec(error)).clamp_spec(
            self.params.min_omega,
            self.params.max_omega,
        );
        LoopState {
            frequency,
            phase: wrap_phase_spec(self.phase.plus_spec(self.params.kp.times_spec(error))),
            rates: self.rates.updated(frequency),
            ..self
        }
    }

    /// A measured tick.
    pub open spec fn measured_tick(self, reported: int, fraction: Single) -> NorthTick {
        NorthTick {
            sample_index: reported as usize,
            period: Some(period_of(self.frequency)),
            lock_quality: self.lock_quality(),
            phase_variance: self.errors.variance(),
            fractional_sample_offset: fraction,
            phase: constants::of(0),
            frequency: self.frequency,
        }
    }

    /// What a detection does to a state that has coasted up to it: too close
    /// or disagreeing, it leaves no tick; else it steers the oscillator and
    /// yields one.
    pub open spec fn detected(self, at: int, fraction: Single, delay_fraction: Single) -> (
        LoopState,
        Option<NorthTick>,
    ) {
        let error = self.phase_error(fraction);
        if self.too_close(at) {
            (self, None)
        } else if self.gated(error) && !self.gives_in() {
            (self.counted(at), None)
        } else {
            let s = self.accepting(self.gated(error));
            let noted = LoopState { errors: s.errors.updated(error), ..s };
            let (reported, offset) = north_ref_common::effective_time_spec(
                at,
                delay_fraction.plus_spec(fraction).plus_spec(noted.correction(error)),
            );
            let steered = noted.steered(error);
            let next = LoopState {
                last: Some(at),
                measured: Some(at),
                last_fraction: offset.plus_spec(Single::from_integer_spec(reported - at)),
                ..steered
            };
            (next, Some(next.measured_tick(reported, offset)))
        }
    }

    /// Whether a detection is evidence about the pulse level: the limit
    /// believes it, and the oscillator is locked.
    pub open spec fn learns(self, at: int, fraction: Single) -> bool {
        let error = self.phase_error(fraction);
        !self.too_close(at) && !(self.gated(error) && !self.gives_in()) && self.accepting(
            self.gated(error),
        ).locked()
    }

    /// An oscillator with nothing seen yet.
    pub open spec fn starting(params: LoopParams, frequency: Single) -> LoopState {
        LoopState {
            params,
            phase: constants::of(0),
            frequency,
            errors: rolling_stats::Rolling::empty(LOCK_STATS_WINDOW_TICKS as nat),
            rates: rolling_stats::Rolling::empty(LOCK_STATS_WINDOW_TICKS as nat),
            last: None,
            last_fraction: constants::of(0),
            measured: None,
            rejected: None,
            rejections: 0,
        }
    }

    /// The state after lost samples: the rotation goes on, disputes and the
    /// spacing to the last tick are forgotten.
    pub open spec fn skipped(self, samples: int) -> LoopState {
        let advance = Double::from_single_spec(self.frequency).times_spec(
            Double::from_count_spec(samples as nat),
        ).rem_euclid_spec(Double { bits: constants::TWO_PI_DOUBLE });
        LoopState {
            phase: wrap_phase_spec(self.phase.plus_spec(advance.to_single_spec())),
            rejections: 0,
            rejected: None,
            last: None,
            ..self
        }
    }

    /// A last tick at a position, unless it is too close to the one before.
    pub open spec fn concluded(self, at: int, delay_fraction: Single) -> (
        LoopState,
        Option<NorthTick>,
    ) {
        if self.too_close(at) {
            (self, None)
        } else {
            let (reported, offset) = north_ref_common::effective_time_spec(at, delay_fraction);
            let next = LoopState { last: Some(at), ..self };
            (next, Some(next.measured_tick(reported, offset)))
        }
    }
}

/// The laws of the oscillator.
impl LoopState {
    /// A detection that the limit turns down never moves the oscillator nor
    /// reaches the statistics that the limit is built from.
    pub proof fn rejection_keeps_the_rotation(
        self,
        at: int,
        fraction: Single,
        delay_fraction: Single,
    )
        requires
            !self.too_close(at),
            self.gated(self.phase_error(fraction)),
            !self.gives_in(),
        ensures
            ({
                let (next, tick) = self.detected(at, fraction, delay_fraction);
                &&& tick is None
                &&& next.phase == self.phase
                &&& next.frequency == self.frequency
                &&& next.errors == self.errors
                &&& next.rates == self.rates
                &&& next.last == self.last
                &&& next.measured == self.measured
                &&& next.rejections == self.rejections + 1
                &&& next.rejected == Some(at)
                &&& !self.learns(at, fraction)
            }),
    {
    }

    /// A tracker cannot lock itself out: after enough rejections in a row the
    /// next detection that is not too close to the last tick is taken, and
    /// with it the dispute is over.
    pub proof fn disputes_end(self, at: int, fraction: Single, delay_fraction: Single)
        requires
            !self.too_close(at),
            self.rejections + 1 >= MAX_CONSECUTIVE_REJECTIONS,
        ensures
            ({
                let (next, tick) = self.detected(at, fraction, delay_fraction);
                &&& tick is Some
                &&& next.rejections == 0
                &&& next.rejected is None
                &&& next.last == Some(at)
                &&& next.measured == Some(at)
            }),
    {
    }

    /// Steering keeps the frequency within the configured limits.
    pub proof fn steering_stays_in_limits(self, error: Single)
        requires
            self.params.min_omega.le_spec(self.params.max_omega),
            !self.frequency.plus_spec(self.params.ki.times_spec(error)).nan(),
        ensures
            self.params.min_omega.le_spec(self.steered(error).frequency),
            self.steered(error).frequency.le_spec(self.params.max_omega),
    {
    }

    /// The timing correction of a tick is at most half a sample either way,
    /// where it is a number.
    pub proof fn correction_is_bounded(self, error: Single)
        ensures
            self.correction(error).nan() || {
                &&& constants::of(north_agc::HALF).neg_spec().le_spec(self.correction(error))
                &&& self.correction(error).le_spec(constants::of(north_agc::HALF))
            },
    {
    }

    /// The lock quality lies between zero and one where it is a number, as
    /// long as the weights add up to no more than one.
    pub proof fn lock_quality_is_in_range(self)
        requires
            ({
                let w = self.params.lock_quality_weights;
                &&& single_laws::in_unit_range(w.phase_weight)
                &&& single_laws::in_unit_range(w.frequency_weight)
                &&& single_laws::in_unit_range(w.phase_weight.plus_spec(w.frequency_weight))
            }),
        ensures
            self.lock_quality() matches Some(q) ==> q.nan() || single_laws::in_unit_range(q),
    {
        let zero = constants::of(0);
        let one = constants::of(single::ONE_BITS);
        match (self.errors.std_dev(), self.rates.mean(), self.rates.std_dev()) {
            (Some(phase_std), Some(freq_mean), Some(freq_std)) => {
                let w = self.params.lock_quality_weights;
                let spread = phase_std.abs_spec().over_spec(constants::of(constants::PI));
                let freq_cv = if constants::of(constants::FREQUENCY_EPSILON).lt_spec(
                    freq_mean.abs_spec(),
                ) {
                    freq_std.over_spec(freq_mean).abs_spec()
                } else {
                    one
                };
                let cost = freq_cv.times_spec(constants::of(HUNDRED));
                if !spread.nan() && !cost.nan() {
                    single_laws::rest_in_unit_range(spread);
                    single_laws::rest_in_unit_range(cost);
                    let p = one.minus_spec(spread).clamp_spec(zero, one);
                    let f = one.minus_spec(cost).clamp_spec(zero, one);
                    single_laws::times_unit(w.phase_weight, p);
                    single_laws::times_unit(w.frequency_weight, f);
                    let a = w.phase_weight.times_spec(p);
                    let b = w.frequency_weight.times_spec(f);
                    single_laws::plus_in_order(b, w.frequency_weight, a);
                    single_laws::plus_in_order(a, w.phase_weight, w.frequency_weight);
                    assert(a.plus_spec(w.frequency_weight) == w.frequency_weight.plus_spec(a));
                    assert(w.phase_weight.plus_spec(w.frequency_weight)
                        == w.frequency_weight.plus_spec(w.phase_weight));
                }
            },
            _ => {},
        }
    }

    /// The share of the quality that a predicted tick keeps lies between zero
    /// and one, does not rise the longer the tracker coasts, and is gone at
    /// the end of the budget.
    pub proof fn quality_fades(self, a: int, b: int)
        requires
            0 <= a <= b <= usize::MAX,
            self.measured matches Some(m) ==> m >= 0,
        ensures
            single_laws::in_unit_range(self.quality_scale(a)),
            single_laws::in_unit_range(self.quality_scale(b)),
            self.quality_scale(b).rank() <= self.quality_scale(a).rank(),
            (self.coasted(b) matches Some(c) ==> c >= self.budget()) ==> self.quality_scale(
                b,
            ).rank() == 0,
    {
        let zero = constants::of(0);
        let one = constants::of(single::ONE_BITS);
        let n = self.budget() as int;
        if n > 0 {
            let x = match self.coasted(a) {
                Some(c) => c,
                None => usize::MAX as int,
            };
            let y = match self.coasted(b) {
                Some(c) => c,
                None => usize::MAX as int,
            };
            let whole = Single::from_integer_spec(n);
            single_laws::counts_in_order(x, y);
            single_laws::counts_in_order(n, n);
            single_laws::over_in_order(
                Single::from_integer_spec(x),
                Single::from_integer_spec(y),
                whole,
            );
            let s = Single::from_integer_spec(x).over_spec(whole).clamp_spec(zero, one);
            let t = Single::from_integer_spec(y).over_spec(whole).clamp_spec(zero, one);
            single_laws::rest_in_unit_range(s);
            single_laws::rest_in_unit_range(t);
            single_laws::rest_in_order(s, t);
            if y >= n {
                single_laws::counts_in_order(n, y);
                single_laws::over_in_order(whole, Single::from_integer_spec(y), whole);
                single_laws::over_itself(whole);
            }
        }
    }

    /// A predicted tick claims no more quality than the lock it comes from.
    pub proof fn prediction_claims_no_more(self, period: Single, frequency: Single)
        requires
            self.last matches Some(at) && 0 <= at <= usize::MAX,
            self.measured matches Some(m) ==> m >= 0,
            self.lock_quality() matches Some(q) ==> single_laws::in_unit_range(q),
        ensures
            match (self.coast_tick(period, frequency).lock_quality, self.lock_quality()) {
                (Some(t), Some(q)) => single_laws::in_unit_range(t) && t.rank() <= q.rank(),
                (None, None) => true,
                _ => false,
            },
    {
        let at = self.last->0;
        self.quality_fades(at, at);
        if let Some(q) = self.lock_quality() {
            single_laws::times_unit(q, self.quality_scale(at));
        }
    }

    /// Without a lock nothing is predicted.
    pub proof fn nothing_predicted_without_lock(self, until: int)
        requires
            !self.locked(),
        ensures
            self.predicted(until) == Seq::<NorthTick>::empty(),
            self.coasted_to(until) == self,
    {
    }

    /// Predicted ticks follow each other and the last tick in time, stay clear
    /// of where a detection can still surface, and stay within the budget. The
    /// oscillator itself does not move.
    pub proof fn coast_is_bounded(self, c: Coast)
        ensures
            forall|i: int|
                #![trigger self.coast_ticks(c)[i]]
                0 <= i < self.coast_ticks(c).len() ==> {
                    let t = self.coast_ticks(c)[i];
                    &&& self.coast_time().lt_spec(time_of(t))
                    &&& t.sample_index + c.reserved <= c.until
                    &&& self.within_budget(t.sample_index as int)
                },
            forall|i: int, j: int|
                #![trigger self.coast_ticks(c)[i], self.coast_ticks(c)[j]]
                0 <= i < j < self.coast_ticks(c).len() ==> time_of(
                    self.coast_ticks(c)[i],
                ).lt_spec(time_of(self.coast_ticks(c)[j])),
            self.coast_end(c).phase == self.phase,
            self.coast_end(c).frequency == self.frequency,
            self.coast_end(c).errors == self.errors,
            self.coast_end(c).rates == self.rates,
            self.coast_end(c).measured == self.measured,
        decreases self.coast_room(),
    {
        if self.coasts_on(c) {
            let next = self.coast_step(c);
            let rest = next.coast_ticks(c);
            next.coast_is_bounded(c);
            let all = self.coast_ticks(c);
            let first = next.coast_tick(c.period, c.frequency);
            assert(all == seq![first] + rest);
            assert(first.sample_index == self.coast_next(c.period));
            assert(time_of(first) == next.coast_time());
            assert forall|i: int| #![trigger all[i]] 0 <= i < all.len() implies {
                &&& self.coast_time().lt_spec(time_of(all[i]))
                &&& all[i].sample_index + c.reserved <= c.until
                &&& self.within_budget(all[i].sample_index as int)
            } by {
                if i > 0 {
                    assert(all[i] == rest[i - 1]);
                    assert(next.within_budget(rest[i - 1].sample_index as int));
                }
            }
            assert forall|i: int, j: int| #![trigger all[i], all[j]] 0 <= i < j < all.len() implies
                time_of(all[i]).lt_spec(time_of(all[j])) by {
                assert(all[j] == rest[j - 1]);
                if i > 0 {
                    assert(all[i] == rest[i - 1]);
                }
            }
        }
    }
}

/// Where a tick lies, with its sub-sample part.
pub open spec fn time_of(t: NorthTick) -> Double {
    Double::from_count_spec(t.sample_index as nat).plus_spec(
        Double::from_single_spec(t.fractional_sample_offset),
    )
}

/// A phase brought into one turn.
fn wrap_phase(phase: Single) -> (r: Single)
    ensures
        r == wrap_phase_spec(phase),
{
    phase.rem_euclid(Single::from_bits(constants::TWO_PI))
}

/// A phase error brought into half a turn either way.
fn wrap_phase_error(phase_error: Single) -> (r: Single)
    ensures
        r == wrap_phase_error_spec(phase_error),
{
    phase_error.plus(Single::from_bits(constants::PI)).rem_euclid(
        Single::from_bits(constants::TWO_PI),
    ).minus(Single::from_bits(constants::PI))
}

impl View for RotationLoop {
    type V = LoopState;

    closed spec fn view(&self) -> LoopState {
        LoopState {
            params: self.params,
            phase: self.phase,
            frequency: self.frequency,
            errors: self.phase_error_stats@,
            rates: self.freq_stats@,
            last: as_position(self.last_tick_sample),
            last_fraction: self.last_tick_fraction,
            measured: as_position(self.last_measured_sample),
            rejected: as_position(self.last_rejection_sample),
            rejections: self.consecutive_rejections as nat,
        }
    }
}

impl RotationLoop {
    /// An oscillator at a frequency (radians/sample), with nothing seen yet.
    pub fn new(params: LoopParams, frequency: Single) -> (s: RotationLoop)
        ensures
            s@ == LoopState::starting(params, frequency),
    {
        RotationLoop {
            params,
            phase: Single::zero(),
            frequency,
            phase_error_stats: RollingWindowStats::new(LOCK_STATS_WINDOW_TICKS),
            freq_stats: RollingWindowStats::new(LOCK_STATS_WINDOW_TICKS),
            last_tick_sample: None,
            last_tick_fraction: Single::zero(),
            last_measured_sample: None,
            last_rejection_sample: None,
            consecutive_rejections: 0,
        }
    }

    /// Frequency estimate (radians/sample)
    pub fn frequency(&self) -> (f: Single)
        ensures
            f == self@.frequency,
    {
        self.frequency
    }

    /// Whether the oscillator is tracking well enough to be trusted over the
    /// detector.
    pub fn locked(&self) -> (b: bool)
        ensures
            b == self@.locked(),
    {
        if self.phase_error_stats.count() < MIN_LOCKED_SAMPLES {
            return false;
        }
        match self.phase_error_stats.std_dev() {
            Some(std_dev) => std_dev.is_finite() && std_dev.at_most(
                Single::from_bits(MAX_LOCKED_PHASE_STD_RAD),
            ),
            None => false,
        }
    }

    fn turning(&self) -> (b: bool)
        ensures
            b == self@.turning(),
    {
        !self.frequency.at_most(Single::from_bits(constants::FREQUENCY_EPSILON))
    }

    /// The rotation period in samples.
    pub fn period(&self) -> (p: Single)
        ensures
            p == period_of(self@.frequency),
    {
        Single::from_bits(constants::TWO_PI).over(self.frequency)
    }

    /// Samples since a pulse was last accepted at the given position.
    fn coasted_samples(&self, at: usize) -> (n: Option<usize>)
        ensures
            as_position(n) == self@.coasted(at as int),
    {
        match self.last_measured_sample {
            Some(measured) => Some(north_ref::samples_behind(at, measured)),
            None => None,
        }
    }

    fn rate_spread(&self) -> (r: Single)
        ensures
            r == self@.rate_spread(),
    {
        match (self.freq_stats.std_dev(), self.freq_stats.mean()) {
            (Some(s), Some(m)) => {
                if s.is_finite() && m.above(Single::from_bits(constants::FREQUENCY_EPSILON)) {
                    s.over(m).times(self.period())
                } else {
                    Single::from_bits(single::INFINITY_BITS)
                }
            },
            _ => Single::from_bits(single::INFINITY_BITS),
        }
    }

    fn systematic_drift(&self) -> (r: Single)
        ensures
            r == self@.systematic_drift(),
    {
        match (self.phase_error_stats.mean(), self.phase_error_stats.std_dev()) {
            (Some(mean), Some(std_dev)) => {
                if !mean.is_finite() || !std_dev.is_finite() {
                    return Single::from_bits(single::INFINITY_BITS);
                }
                let seen: usize = self.phase_error_stats.count();
                let count: Single = Single::from_count(if seen > 1 { seen } else { 1 });
                // Only the part of the mean that stands out from its own
                // noise counts. The mean of a zero-mean scatter over N ticks
                // is not zero but about sigma/sqrt(N), and charging that
                // against the budget would hold a long-settled tracker to the
                // same short prediction as a converging one.
                let noise_floor: Single = Single::from_bits(math::TWO).times(std_dev).over(
                    count.sqrt(),
                );
                mean.abs().minus(noise_floor).max(Single::zero()).over(self.frequency).abs()
            },
            _ => Single::from_bits(single::INFINITY_BITS),
        }
    }

    /// How far the tracker may coast before its own rate uncertainty puts
    /// more than half a sample into a predicted tick.
    ///
    /// The spread of the frequency estimate over the recent window stands in
    /// for that uncertainty. A tracker that has been following a steady
    /// rotation for a while has a tight spread and earns close to the
    /// configured maximum; one still settling has a loose spread and is held
    /// to a short prediction, or none.
    pub fn coast_budget_samples(&self) -> (n: usize)
        ensures
            n == self@.budget(),
    {
        if !self.turning() {
            return 0;
        }
        let period: Single = self.period();
        if !period.is_finite() || !period.at_least(Single::one()) {
            return 0;
        }
        // Per-rotation timing discrepancy, from two directions.
        //
        // The scatter of the frequency estimate says how repeatable the rate
        // is. On its own that is not enough: a loop still converging on the
        // true rate is steadily wrong with very little scatter, and would be
        // granted a long prediction it cannot deliver. The mean phase error
        // catches exactly that case, so the tighter of the two governs.
        let per_rotation: Single = self.rate_spread().max(self.systematic_drift());
        if per_rotation.at_most(Single::from_bits(constants::EPSILON)) {
            return self.params.max_coast_samples;
        }
        let rotations: Single = Single::from_bits(north_agc::HALF).over(per_rotation);
        if !rotations.is_finite() || rotations.at_most(Single::zero()) {
            return 0;
        }
        let n: usize = rotations.times(period).to_count();
        if n < self.params.max_coast_samples {
            n
        } else {
            self.params.max_coast_samples
        }
    }

    /// Whether the rotation estimate is recent enough to predict from.
    fn within_coast_budget(&self, at: usize) -> (b: bool)
        ensures
            b == self@.within_budget(at as int),
    {
        match self.coasted_samples(at) {
            Some(coasted) => coasted <= self.coast_budget_samples(),
            None => false,
        }
    }

    /// Confidence in a tick predicted rather than measured, falling to zero at
    /// the end of the coasting budget.
    pub fn coast_quality_scale(&self, at: usize) -> (r: Single)
        ensures
            r == self@.quality_scale(at as int),
    {
        let budget: usize = self.coast_budget_samples();
        if budget == 0 {
            return Single::zero();
        }
        let coasted: usize = match self.coasted_samples(at) {
            Some(c) => c,
            None => usize::MAX,
        };
        Single::one().minus(
            Single::from_count(coasted).over(Single::from_count(budget)).clamp(
                Single::zero(),
                Single::one(),
            ),
        )
    }

    /// Timing variance a predicted tick carries on top of the measured
    /// scatter, in radians squared of rotation phase.
    fn coast_drift_variance(&self, at: usize) -> (r: Single)
        ensures
            r == self@.drift_variance(at as int),
    {
        let spent: Single = Single::one().minus(self.coast_quality_scale(at));
        let drift_radians: Single = Single::from_bits(north_agc::HALF).times(spent).times(
            self.frequency,
        );
        drift_radians.times(drift_radians)
    }

    /// How steady the phase and the frequency have been, from 0 to 1.
    pub fn lock_quality(&self) -> (q: Option<Single>)
        ensures
            q == self@.lock_quality(),
    {
        match (
            self.phase_error_stats.std_dev(),
            self.freq_stats.mean(),
            self.freq_stats.std_dev(),
        ) {
            (Some(phase_std), Some(freq_mean), Some(freq_std)) => {
                // Phase error std dev in radians - lower is better
                let phase_score: Single = Single::one().minus(
                    phase_std.abs().over(Single::from_bits(constants::PI)),
                ).clamp(Single::zero(), Single::one());
                // Frequency stability - lower variance relative to mean is better
                let freq_cv: Single = if freq_mean.abs().above(
                    Single::from_bits(constants::FREQUENCY_EPSILON),
                ) {
                    freq_std.over(freq_mean).abs()
                } else {
                    Single::one()
                };
                let freq_score: Single = Single::one().minus(
                    freq_cv.times(Single::from_bits(HUNDRED)),
                ).clamp(Single::zero(), Single::one());
                let weights: LockQualityWeights = self.params.lock_quality_weights;
                Some(
                    weights.phase_weight.times(phase_score).plus(
                        weights.frequency_weight.times(freq_score),
                    ),
                )
            },
            _ => None,
        }
    }

    /// The scatter of the phase error.
    pub fn phase_error_variance(&self) -> (v: Option<Single>)
        ensures
            v == self@.errors.variance(),
    {
        self.phase_error_stats.variance()
    }

    /// Widest disagreement between a detection and the tracked rotation that
    /// is still treated as the same pulse, in samples.
    fn timing_gate_samples(&self, period_estimate: Single) -> (g: Option<Single>)
        ensures
            g == self@.gate(period_estimate),
    {
        if !self.locked() || !self.turning() {
            return None;
        }
        match self.phase_error_stats.std_dev() {
            Some(std_dev) => {
                if !std_dev.is_finite() {
                    return None;
                }
                let gate: Single = self.params.gate_sigma.times(std_dev).over(self.frequency).max(
                    Single::from_bits(MIN_TIMING_GATE_SAMPLES),
                );
                Some(
                    gate.min(
                        period_estimate.times(Single::from_bits(MAX_TIMING_GATE_FRACTION)),
                    ),
                )
            },
            None => None,
        }
    }

    /// Whether a recent rejection holds coasting off.
    ///
    /// Coasting covers rotations where no pulse arrived. A rejected detection
    /// is not that: a pulse did arrive and the tracker distrusted it.
    /// Predicting through a rejection closes a feedback loop, so the hold is
    /// on recency: while detections keep being rejected it keeps renewing,
    /// but a single disputed pulse at the start of a real dropout must not
    /// switch coasting off for the rest of it.
    fn held_off(&self, until_sample: usize) -> (b: bool)
        ensures
            b == self@.held_off(until_sample as int),
    {
        match self.last_rejection_sample {
            Some(rejected_at) => {
                let holdoff: Single = self.period().times(Single::from_bits(math::TWO));
                Single::from_count(
                    north_ref::samples_behind(until_sample, rejected_at),
                ).less_than(holdoff)
            },
            None => false,
        }
    }

    /// The rotation that a coast integrates.
    fn coast_frequency(&self) -> (f: Single)
        ensures
            f == self@.coast_frequency(),
    {
        // Coasting integrates the rotation rate over many rotations, so the
        // instantaneous estimate's tick-to-tick noise would accumulate into a
        // drift. The averaged estimate is what the loop actually knows.
        match self.freq_stats.mean() {
            Some(f) => {
                if f.is_finite() && f.above(Single::from_bits(constants::FREQUENCY_EPSILON)) {
                    f
                } else {
                    self.frequency
                }
            },
            None => self.frequency,
        }
    }

    /// A predicted tick at a position.
    fn predicted_tick(&self, at: usize, period: Single, frequency: Single) -> (tick: NorthTick)
        requires
            self@.last == Some(at as int),
        ensures
            tick == self@.coast_tick(period, frequency),
    {
        let lock_quality: Option<Single> = match self.lock_quality() {
            Some(q) => Some(q.times(self.coast_quality_scale(at))),
            None => None,
        };
        let phase_variance: Option<Single> = match self.phase_error_stats.variance() {
            Some(v) => Some(v.plus(self.coast_drift_variance(at))),
            None => None,
        };
        NorthTick {
            sample_index: at,
            period: Some(period),
            lock_quality,
            phase_variance,
            fractional_sample_offset: self.last_tick_fraction,
            phase: Single::zero(),
            frequency,
        }
    }

    /// Emit ticks from the tracked rotation for rotations that produced no
    /// usable detection, up to `until_sample`.
    pub fn coast_to(&mut self, until_sample: usize, ticks: &mut Vec<NorthTick>)
        ensures
            final(self)@ == old(self)@.coasted_to(until_sample as int),
            final(ticks)@ == old(ticks)@ + old(self)@.predicted(until_sample as int),
    {
        // Predicting requires a rotation estimate worth predicting from.
        if !self.locked() || !self.turning() || self.held_off(until_sample) {
            assert(ticks@ =~= old(ticks)@ + Seq::<NorthTick>::empty());
            return;
        }
        let frequency: Single = self.coast_frequency();
        let period: Single = Single::from_bits(constants::TWO_PI).over(frequency);
        if !period.is_finite() || period.less_than(Single::one()) {
            assert(ticks@ =~= old(ticks)@ + Seq::<NorthTick>::empty());
            return;
        }
        // A predicted tick must not land where a real pulse could still be
        // detected: it would take the detection's place and push the real one
        // inside the dead-time guard.
        //
        // "Could still be detected" reaches further back than the current
        // position, because the detector holds a crossing until its search
        // window and trailing context have been seen and then reports it at a
        // position already passed.
        let reserved: u128 = period.times(
            Single::from_bits(north_ref_simple::MIN_TICK_SPACING_FRACTION),
        ).round().to_count() as u128 + self.params.detector_deferral_samples as u128;
        let ghost c = Coast {
            frequency,
            period,
            reserved: reserved as nat,
            until: until_sample as int,
        };
        assert(old(self)@.coast(until_sample as int) == Some(c));
        assert(ticks@ + self@.coast_ticks(c) =~= old(ticks)@ + old(self)@.coast_ticks(c));
        loop
            invariant_except_break
                c.frequency == frequency,
                c.period == period,
                c.reserved == reserved,
                c.until == until_sample,
                reserved <= 2 * usize::MAX,
                self@.coast_end(c) == old(self)@.coast_end(c),
                ticks@ + self@.coast_ticks(c) == old(ticks)@ + old(self)@.coast_ticks(c),
            ensures
                !self@.coasts_on(c),
                self@.coast_end(c) == old(self)@.coast_end(c),
                ticks@ + self@.coast_ticks(c) == old(ticks)@ + old(self)@.coast_ticks(c),
            decreases self@.coast_room(),
        {
            let ghost before = self@;
            let last: usize = match self.last_tick_sample {
                Some(last) => last,
                None => {
                    break;
                },
            };
            // Advance a fractional epoch. Rounding the period on every
            // rotation instead would accumulate: a 624 us rotation is 29.952
            // samples at 48 kHz, so a rounded step drifts the better part of
            // a sample every twenty rotations.
            let time: Double = Double::from_count(last).plus(
                Double::from_single(self.last_tick_fraction),
            );
            let position: Double = time.plus(Double::from_single(period));
            let next: usize = position.round_count();
            if next as u128 + reserved > until_sample as u128 || !self.within_coast_budget(next) {
                break;
            }
            let fraction: Single = position.minus(Double::from_count(next)).to_single();
            // A period that is lost in the rounding would be predicted for
            // ever.
            if !time.less_than(Double::from_count(next).plus(Double::from_single(fraction))) {
                break;
            }
            self.last_tick_sample = Some(next);
            self.last_tick_fraction = fraction;
            assert(self@ == before.coast_step(c));
            let tick: NorthTick = self.predicted_tick(next, period, frequency);
            let ghost pushed = ticks@;
            ticks.push(tick);
            assert(ticks@ + self@.coast_ticks(c) =~= pushed + before.coast_ticks(c));
        }
        assert(self@.coast_ticks(c) =~= Seq::<NorthTick>::empty());
    }

    /// Let the oscillator run for a number of samples, which may be negative.
    pub fn turn(&mut self, samples: i128)
        requires
            -(u64::MAX as int) <= samples <= u64::MAX,
        ensures
            final(self)@ == old(self)@.turned(samples as int),
    {
        self.phase = wrap_phase(
            self.phase.plus(self.frequency.times(Single::from_index(samples))),
        );
    }

    /// Whether a position is too close to the last tick to be another one.
    pub fn too_close(&self, at: usize) -> (b: bool)
        ensures
            b == self@.too_close(at as int),
    {
        match self.last_tick_sample {
            Some(last) => {
                let min_spacing: Single = self.period().times(
                    Single::from_bits(north_ref_simple::MIN_TICK_SPACING_FRACTION),
                );
                Single::from_count(north_ref::samples_behind(at, last)).less_than(min_spacing)
            },
            None => false,
        }
    }

    fn disagreement(&self, phase_error: Single) -> (d: Single)
        ensures
            d == self@.disagreement(phase_error),
    {
        let systematic: Single = match self.phase_error_stats.mean() {
            Some(m) => m,
            None => Single::zero(),
        };
        phase_error.minus(systematic).over(self.frequency)
    }

    /// Whether a detection disagrees with the tracked rotation by more than
    /// the tracker's own timing spread. The limit stays inactive until there is
    /// enough history to know that spread, so the tracker can never lock
    /// itself out.
    fn gated(&self, phase_error: Single) -> (b: bool)
        ensures
            b == self@.gated(phase_error),
    {
        match self.timing_gate_samples(self.period()) {
            Some(gate) => self.disagreement(phase_error).abs().above(gate),
            None => false,
        }
    }

    /// How far the oscillator is from north where a pulse arrived.
    fn phase_error(&self, fraction: Single) -> (e: Single)
        ensures
            e == self@.phase_error(fraction),
    {
        // The oscillator was advanced to the whole-sample peak index, so
        // the estimator's sub-sample offset is added here rather than
        // accumulated into the oscillator, which continues on the sample
        // grid.
        let phase_at_pulse: Single = wrap_phase(
            self.phase.plus(self.frequency.times(fraction)),
        );
        wrap_phase_error(phase_at_pulse.negated())
    }

    /// The timing correction of a tick.
    ///
    /// Only the part of the phase error that varies tick to tick comes from
    /// quantizing the peak to a whole sample, and only that part should move
    /// the reported time. A persistent component means the oscillator is
    /// sitting at an offset from the pulses; applying it would put the loop's
    /// own lag into the bearing, so the running mean is removed first.
    fn timing_correction(&self, phase_error: Single) -> (t: Single)
        ensures
            t == self@.correction(phase_error),
    {
        if self.phase_error_stats.count() >= MIN_PHASE_CORRECTION_SAMPLES
            && self.frequency.above(Single::from_bits(constants::FREQUENCY_EPSILON)) {
            let half: Single = Single::from_bits(north_agc::HALF);
            self.disagreement(phase_error).clamp(half.negated(), half)
        } else {
            Single::zero()
        }
    }

    /// Update frequency and phase with the PI controller.
    fn steer(&mut self, phase_error: Single)
        ensures
            final(self)@ == old(self)@.steered(phase_error),
    {
        self.frequency = self.frequency.plus(self.params.ki.times(phase_error)).clamp(
            self.params.min_omega,
            self.params.max_omega,
        );
        self.phase = wrap_phase(self.phase.plus(self.params.kp.times(phase_error)));
        self.freq_stats.update(self.frequency);
    }

    fn tick(&self, reported_sample: usize, fractional_sample_offset: Single) -> (tick: NorthTick)
        ensures
            tick == self@.measured_tick(reported_sample as int, fractional_sample_offset),
    {
        NorthTick {
            sample_index: reported_sample,
            period: Some(self.period()),
            lock_quality: self.lock_quality(),
            phase_variance: self.phase_error_stats.variance(),
            fractional_sample_offset,
            // For bearing calculation, the tick itself defines north. Jitter
            // is represented by the sample index; using the absolute
            // oscillator phase here would introduce reference drift across
            // rotations.
            phase: Single::zero(),
            frequency: self.frequency,
        }
    }

    /// Forget what the limit is built from, if the detection is let in in spite
    /// of it, and with it the dispute.
    fn accept(&mut self, gated: bool)
        ensures
            final(self)@ == old(self)@.accepting(gated),
    {
        if gated {
            self.phase_error_stats.clear();
            self.freq_stats.clear();
            self.last_measured_sample = None;
        }
        self.consecutive_rejections = 0;
        self.last_rejection_sample = None;
    }

    /// Take a detection at a position, with the sub-sample part of where the
    /// pulse was and of the delay of the filter. Gives the tick, unless the
    /// detection is too close to the last one or the limit turns it down, and
    /// whether it is evidence about the pulse level: the limit believes it and
    /// the oscillator is locked.
    pub fn detect(&mut self, at: usize, fraction: Single, delay_fraction: Single) -> (r: (
        Option<NorthTick>,
        bool,
    ))
        ensures
            (final(self)@, r.0) == old(self)@.detected(at as int, fraction, delay_fraction),
            r.1 == old(self)@.learns(at as int, fraction),
    {
        if self.too_close(at) {
            return (None, false);
        }
        let phase_error: Single = self.phase_error(fraction);
        let gated: bool = self.gated(phase_error);
        if gated && self.consecutive_rejections < MAX_CONSECUTIVE_REJECTIONS - 1 {
            self.consecutive_rejections = self.consecutive_rejections + 1;
            self.last_rejection_sample = Some(at);
            return (None, false);
        }
        self.accept(gated);
        let learns: bool = self.locked();
        self.phase_error_stats.update(phase_error);
        let correction: Single = self.timing_correction(phase_error);
        // The detected peak index is quantized to whole samples; the
        // oscillator's estimate of the same event is not. Re-anchor the
        // reported index on the corrected time so the fraction stays
        // within half a sample and no sub-sample information is lost to
        // the split.
        let (reported_sample, fractional_sample_offset) = north_ref_common::split_effective_time(
            at,
            delay_fraction.plus(fraction).plus(correction),
        );
        self.steer(phase_error);
        // Dead time is a property of the detector, so it is measured against
        // the detected position rather than the corrected one. Feeding the
        // correction back here lets a large correction during acquisition push
        // the next valid tick inside the guard.
        self.last_tick_sample = Some(at);
        self.last_measured_sample = Some(at);
        // Differenced in integers: these are absolute sample counts.
        self.last_tick_fraction = fractional_sample_offset.plus(
            Single::from_index(reported_sample as i128 - at as i128),
        );
        (Some(self.tick(reported_sample, fractional_sample_offset)), learns)
    }

    /// Run over lost samples at the tracked frequency.
    pub fn advance(&mut self, samples: usize)
        ensures
            final(self)@ == old(self)@.skipped(samples as int),
    {
        // Advance in double precision and reduce before narrowing: a long gap
        // makes frequency * samples large enough that a single precision
        // product cannot resolve where in the rotation the oscillator lands.
        let advance: Double = Double::from_single(self.frequency).times(
            Double::from_count(samples),
        ).rem_euclid(Double::from_bits(constants::TWO_PI_DOUBLE));
        self.phase = wrap_phase(self.phase.plus(advance.to_single()));
        // A capture gap is time with no pulses, so it spends coasting budget
        // like any other dropout. Nothing was disputed across it, so a
        // rejection from before the gap must not hold coasting off after it.
        self.consecutive_rejections = 0;
        self.last_rejection_sample = None;
        // The next tick begins a fresh interval; the min-spacing guard must
        // not compare it against a pre-gap tick.
        self.last_tick_sample = None;
    }

    /// A last tick from the current rotation, without the PI update: nothing
    /// follows it. None where it is too close to the one before it.
    pub fn conclude(&mut self, at: usize, delay_fraction: Single) -> (tick: Option<NorthTick>)
        ensures
            (final(self)@, tick) == old(self)@.concluded(at as int, delay_fraction),
    {
        if self.too_close(at) {
            return None;
        }
        let (reported_sample, fractional_sample_offset) = north_ref_common::split_effective_time(
            at,
            delay_fraction,
        );
        self.last_tick_sample = Some(at);
        Some(self.tick(reported_sample, fractional_sample_offset))
    }
}

} // verus!
