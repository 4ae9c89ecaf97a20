//! North tracking by exponential smoothing of the rotation period.
use crate::config::{NorthPulseEstimator, NorthTickConfig};
use crate::constants;
use crate::double::Double;
use crate::rdf::north_ref;
use crate::rdf::north_ref::NorthTick;
use crate::rdf::north_ref_common;
use crate::rdf::north_ref_common::{
    ChannelReport, DelayCompensation, NorthTickFault, PeakTiming, QuietChannelWatch,
};
use crate::rdf::rate_laws;
use crate::signal_processing::agc;
use crate::signal_processing::fir_core;
use crate::signal_processing::fir_highpass::FirHighpass;
use crate::signal_processing::math;
use crate::signal_processing::peak_detector;
use crate::signal_processing::peak_detector::PeakDetector;
use crate::single;
use crate::single::Single;
use vstd::prelude::*;

verus! {

/// How fast the period estimate follows the intervals (0.1).
pub const PERIOD_SMOOTHING_FACTOR: u32 = 0x3dcc_cccd;

/// Closest that two ticks may be, as a fraction of the period (0.75).
pub const MIN_TICK_SPACING_FRACTION: u32 = 0x3f40_0000;

/// North tracking by exponential smoothing of the rotation period.
pub struct SimpleNorthTracker {
    gain: Single,
    highpass: FirHighpass,
    peak_detector: PeakDetector,
    pulse_reference_offset: Single,
    estimator: NorthPulseEstimator,
    centroid_half_width: usize,
    filter_tail_len: usize,
    nominal_period_samples: Single,
    last_tick_sample: Option<usize>,
    /// Sub-sample position of the last tick, so the period estimate is not
    /// requantized to whole samples on every rotation.
    last_tick_fraction: Single,
    samples_per_rotation: Option<Single>,
    /// Smoothed squared deviation of the measured interval from its own
    /// average, in samples squared. See `reference_phase_variance`.
    period_variance: Option<Single>,
    /// Intervals measured so far, so a variance is not reported off one.
    intervals_seen: usize,
    sample_counter: usize,
    sample_rate: Single,
    filter_buffer: Vec<Single>,
    // Filtered samples preceding filter_buffer, for estimator windows that
    // straddle a buffer boundary.
    filter_tail: Vec<Single>,
    quiet_watch: QuietChannelWatch,
}

/// The timing that a tracker has learnt.
pub ghost struct SimpleTiming {
    pub nominal_period: Single,
    pub last: Option<int>,
    pub last_fraction: Single,
    pub period: Option<Single>,
    pub variance: Option<Single>,
    pub intervals: nat,
}

/// An exponential average: the first value, then each new one mixed in.
pub open spec fn smoothed(previous: Option<Single>, value: Single) -> Single {
    let a = constants::of(PERIOD_SMOOTHING_FACTOR);
    match previous {
        Some(p) => constants::of(single::ONE_BITS).minus_spec(a).times_spec(p).plus_spec(
            a.times_spec(value),
        ),
        None => value,
    }
}

fn smooth(previous: Option<Single>, value: Single) -> (r: Single)
    ensures
        r == smoothed(previous, value),
{
    let a: Single = Single::from_bits(PERIOD_SMOOTHING_FACTOR);
    match previous {
        Some(p) => Single::one().minus(a).times(p).plus(a.times(value)),
        None => value,
    }
}

impl SimpleTiming {
    /// The least distance of a tick from the one before it.
    pub open spec fn min_spacing(self) -> Single {
        (match self.period {
            Some(p) => p,
            None => self.nominal_period,
        }).times_spec(constants::of(MIN_TICK_SPACING_FRACTION))
    }

    /// Whether a position is too close to the last tick to be another one.
    pub open spec fn too_close(self, at: int) -> bool {
        match self.last {
            Some(last) => Single::from_integer_spec(north_ref::behind(at, last)).lt_spec(
                self.min_spacing(),
            ),
            None => false,
        }
    }

    /// The interval from the last tick to one at `at` plus a fraction.
    pub open spec fn interval(self, at: int, fraction: Single) -> Single {
        Single::from_integer_spec(north_ref::behind(at, self.last->0)).plus_spec(
            fraction,
        ).minus_spec(self.last_fraction)
    }

    /// The timing after a tick at `at` that is reported at `reported` plus a
    /// fraction.
    pub open spec fn with_tick(self, at: int, reported: int, fraction: Single) -> SimpleTiming {
        let moved = SimpleTiming {
            last: Some(at),
            last_fraction: fraction.plus_spec(Single::from_integer_spec(reported - at)),
            ..self
        };
        if self.last is None {
            moved
        } else {
            let interval = self.interval(at, fraction);
            match self.period {
                None => SimpleTiming { period: Some(interval), ..moved },
                Some(mean) => {
                    let deviation = interval.minus_spec(mean);
                    SimpleTiming {
                        period: Some(smoothed(Some(mean), interval)),
                        variance: Some(
                            smoothed(self.variance, deviation.times_spec(deviation)),
                        ),
                        intervals: if self.intervals < usize::MAX {
                            self.intervals + 1
                        } else {
                            self.intervals
                        },
                        ..moved
                    }
                },
            }
        }
    }

    /// The timing scatter of a tick, in radians squared of rotation phase:
    /// half the scatter of the intervals, which is known from two of them on.
    pub open spec fn phase_variance(self) -> Option<Single> {
        match (self.variance, self.period) {
            (Some(v), Some(p)) => if self.intervals >= 2 && v.finite() && p.finite()
                && !p.le_spec(constants::of(constants::EPSILON)) {
                let radians = constants::of(constants::TWO_PI).over_spec(p);
                Some(
                    v.over_spec(constants::of(math::TWO)).times_spec(radians).times_spec(radians),
                )
            } else {
                None
            },
            _ => None,
        }
    }

    /// The rotation in radians per sample, zero while it is not known.
    pub open spec fn frequency(self) -> Single {
        match self.period {
            Some(p) => constants::of(constants::TWO_PI).over_spec(p),
            None => constants::of(0),
        }
    }

    /// The tick that is reported for a position once the timing is known.
    pub open spec fn tick(self, reported: int, fraction: Single) -> NorthTick {
        NorthTick {
            sample_index: reported as usize,
            period: self.period,
            lock_quality: None,
            phase_variance: self.phase_variance(),
            fractional_sample_offset: fraction,
            phase: constants::of(0),
            frequency: self.frequency(),
        }
    }

    /// What a peak at `at`, with the sub-sample part of its position, does to
    /// the timing, and the tick that it yields.
    pub open spec fn with_peak(self, at: int, offset: Single) -> (SimpleTiming, Option<NorthTick>) {
        if self.too_close(at) {
            (self, None)
        } else {
            let (reported, fraction) = north_ref_common::effective_time_spec(at, offset);
            let next = self.with_tick(at, reported, fraction);
            (next, Some(next.tick(reported, fraction)))
        }
    }
}

/// What a tracker was set up with.
pub ghost struct SimpleSettings {
    pub gain: Single,
    pub taps: Seq<Double>,
    pub reference_offset: Single,
    pub estimator: NorthPulseEstimator,
    pub half_width: nat,
    pub tail_len: nat,
    pub sample_rate: Single,
}

impl SimpleSettings {
    /// The delay between a pulse and the peak that is reported for it.
    pub open spec fn delay(self) -> DelayCompensation {
        north_ref_common::delay_compensation_spec(
            (self.taps.len() - 1) / 2,
            self.reference_offset,
        )
    }

    /// Where on the sample clock a peak belongs, once the delay is taken off.
    pub open spec fn position(self, clock: int, rel: int) -> int {
        north_ref::behind(
            north_ref::on_clock(clock, rel),
            self.delay().delay_samples as int,
        )
    }

    /// The sub-sample part of the position of a peak.
    pub open spec fn offset(self, tail: Seq<Single>, filtered: Seq<Single>, rel: int) -> Single {
        self.delay().fractional_sample_offset.plus_spec(
            north_ref_common::fraction_spec(
                tail,
                filtered,
                rel,
                self.estimator,
                self.half_width as int,
            ),
        )
    }

    /// The timing after the first `k` peaks of a buffer.
    pub open spec fn timing_after(
        self,
        timing: SimpleTiming,
        clock: int,
        tail: Seq<Single>,
        filtered: Seq<Single>,
        peaks: Seq<(int, Single)>,
        k: int,
    ) -> SimpleTiming
        decreases k,
    {
        if k <= 0 {
            timing
        } else {
            let rel = peaks[k - 1].0;
            self.timing_after(timing, clock, tail, filtered, peaks, k - 1).with_peak(
                self.position(clock, rel),
                self.offset(tail, filtered, rel),
            ).0
        }
    }

    /// The ticks that the first `k` peaks of a buffer yield.
    pub open spec fn ticks_of(
        self,
        timing: SimpleTiming,
        clock: int,
        tail: Seq<Single>,
        filtered: Seq<Single>,
        peaks: Seq<(int, Single)>,
        k: int,
    ) -> Seq<NorthTick>
        decreases k,
    {
        if k <= 0 {
            Seq::empty()
        } else {
            let rel = peaks[k - 1].0;
            let earlier = self.ticks_of(timing, clock, tail, filtered, peaks, k - 1);
            match self.timing_after(timing, clock, tail, filtered, peaks, k - 1).with_peak(
                self.position(clock, rel),
                self.offset(tail, filtered, rel),
            ).1 {
                Some(tick) => earlier.push(tick),
                None => earlier,
            }
        }
    }
}

/// What the settings of a tracker follow from.
pub open spec fn settings_of(
    config: NorthTickConfig,
    sample_rate: Single,
    gain: Single,
    highpass: FirHighpass,
) -> SimpleSettings {
    let timing = timing_of(config, sample_rate, gain, highpass);
    let half_width = half_width_of(config, sample_rate);
    SimpleSettings {
        gain,
        taps: highpass.coefficients(),
        reference_offset: timing.pulse_reference_offset,
        estimator: config.estimator,
        half_width,
        tail_len: saturated(2 * half_width + timing.peak_search_window_samples),
        sample_rate,
    }
}

pub open spec fn saturated(n: int) -> nat {
    if n <= usize::MAX {
        n as nat
    } else {
        usize::MAX as nat
    }
}

/// Half-width of the estimator window in samples.
pub open spec fn half_width_of(config: NorthTickConfig, sample_rate: Single) -> nat {
    north_ref_common::half_width_spec(
        config.estimator,
        sample_rate,
        sample_rate.over_spec(
            config.dpll.initial_frequency_hz.max_spec(constants::of(single::ONE_BITS)),
        ),
    )
}

/// The pulse height that meets the filter.
pub open spec fn amplitude_of(config: NorthTickConfig, gain: Single) -> Single {
    config.expected_pulse_amplitude.times_spec(gain).max_spec(constants::of(constants::EPSILON))
}

/// The detection threshold.
pub open spec fn threshold_of(
    config: NorthTickConfig,
    gain: Single,
    highpass: FirHighpass,
) -> Single {
    north_ref_common::detection_threshold_spec(
        config.threshold_fraction_spec(),
        amplitude_of(config, gain),
        highpass.peak_response_spec(),
    )
}

pub open spec fn timing_of(
    config: NorthTickConfig,
    sample_rate: Single,
    gain: Single,
    highpass: FirHighpass,
) -> PeakTiming {
    north_ref_common::peak_timing_spec(
        highpass,
        threshold_of(config, gain, highpass),
        amplitude_of(config, gain),
        config.estimator,
        half_width_of(config, sample_rate) as int,
    )
}

/// The dead time of the detector in samples.
pub open spec fn min_samples_of(config: NorthTickConfig, sample_rate: Single) -> nat {
    config.min_interval_ms.over_spec(constants::of(agc::THOUSAND)).times_spec(
        sample_rate,
    ).to_count_spec()
}

/// The period to expect before any has been measured.
pub open spec fn nominal_period_of(config: NorthTickConfig, sample_rate: Single) -> Single {
    if constants::of(constants::FREQUENCY_EPSILON).lt_spec(config.dpll.initial_frequency_hz) {
        sample_rate.over_spec(config.dpll.initial_frequency_hz)
    } else {
        Single::from_integer_spec(min_samples_of(config, sample_rate) as int)
    }
}

impl SimpleNorthTracker {
    pub closed spec fn wf(&self) -> bool {
        self.highpass.wf() && self.peak_detector.wf()
    }

    pub closed spec fn settings(&self) -> SimpleSettings {
        SimpleSettings {
            gain: self.gain,
            taps: self.highpass.coefficients(),
            reference_offset: self.pulse_reference_offset,
            estimator: self.estimator,
            half_width: self.centroid_half_width as nat,
            tail_len: self.filter_tail_len as nat,
            sample_rate: self.sample_rate,
        }
    }

    pub closed spec fn timing(&self) -> SimpleTiming {
        SimpleTiming {
            nominal_period: self.nominal_period_samples,
            last: match self.last_tick_sample {
                Some(last) => Some(last as int),
                None => None,
            },
            last_fraction: self.last_tick_fraction,
            period: self.samples_per_rotation,
            variance: self.period_variance,
            intervals: self.intervals_seen as nat,
        }
    }

    /// The sample clock: how many samples have gone by.
    pub closed spec fn clock(&self) -> int {
        self.sample_counter as int
    }

    pub closed spec fn detector(&self) -> peak_detector::PeakState {
        self.peak_detector@
    }

    /// What the filter still holds of the signal, the newest sample first.
    pub closed spec fn history(&self) -> Seq<Double> {
        self.highpass.history()
    }

    /// The filtered samples that precede the next buffer.
    pub closed spec fn tail(&self) -> Seq<Single> {
        self.filter_tail@
    }

    pub closed spec fn filtered(&self) -> Seq<Single> {
        self.filter_buffer@
    }

    pub closed spec fn watch(&self) -> north_ref_common::WatchState {
        self.quiet_watch@
    }

    /// A tracker that has just been set up for a configuration.
    pub open spec fn starts(
        self,
        config: NorthTickConfig,
        sample_rate: Single,
        gain: Single,
        highpass: FirHighpass,
    ) -> bool {
        &&& self.settings() == settings_of(config, sample_rate, gain, highpass)
        &&& self.timing() == (SimpleTiming {
            nominal_period: nominal_period_of(config, sample_rate),
            last: None,
            last_fraction: constants::of(0),
            period: None,
            variance: None,
            intervals: 0,
        })
        &&& self.clock() == 0
        &&& self.detector() == peak_detector::fresh(
            threshold_of(config, gain, highpass),
            min_samples_of(config, sample_rate),
            timing_of(
                config,
                sample_rate,
                gain,
                highpass,
            ).peak_search_window_samples as nat,
        ).with_context(half_width_of(config, sample_rate))
        &&& self.history() == highpass.history()
        &&& self.tail() == Seq::<Single>::empty()
        &&& self.filtered() == Seq::<Single>::empty()
        &&& self.watch() == north_ref_common::WatchState::starting(sample_rate)
    }

    /// What lost samples make of a tracker.
    pub open spec fn skipped_to(self, after: SimpleNorthTracker, samples: int) -> bool {
        &&& after.wf()
        &&& after.settings() == self.settings()
        &&& after.timing() == (SimpleTiming { last: None, ..self.timing() })
        &&& after.clock() == north_ref::on_clock(self.clock(), samples)
        &&& after.detector() == (peak_detector::PeakState {
            since: self.detector().min_interval,
            last: constants::of(0),
            above: false,
            pending: None,
            ..self.detector()
        })
        &&& after.history() == Seq::new(
            self.settings().taps.len(),
            |i: int| Double { bits: 0 },
        )
        &&& after.tail() == Seq::<Single>::empty()
        &&& after.filtered() == self.filtered()
        &&& after.watch() == self.watch()
    }

    /// What the end of the stream makes of a tracker.
    pub open spec fn finished_to(self, after: SimpleNorthTracker, ticks: Seq<NorthTick>) -> bool {
        &&& after.wf()
        &&& after.settings() == self.settings()
        &&& after.clock() == self.clock()
        &&& after.detector() == (peak_detector::PeakState {
            pending: None,
            ..self.detector()
        })
        &&& after.history() == self.history()
        &&& after.tail() == self.tail()
        &&& after.filtered() == self.filtered()
        &&& after.watch() == self.watch()
        &&& match self.detector().pending {
            None => ticks.len() == 0 && after.timing() == self.timing(),
            Some(p) => {
                let s = self.settings();
                let at = s.position(self.clock(), p.rel);
                if self.timing().too_close(at) {
                    ticks.len() == 0 && after.timing() == self.timing()
                } else {
                    let (reported, fraction) = north_ref_common::effective_time_spec(
                        at,
                        s.delay().fractional_sample_offset,
                    );
                    &&& ticks == seq![self.timing().tick(reported, fraction)]
                    &&& after.timing() == (SimpleTiming {
                        last: Some(at),
                        ..self.timing()
                    })
                }
            },
        }
    }

    /// What a buffer makes of a tracker, and the ticks in it.
    pub open spec fn heard_to(
        self,
        after: SimpleNorthTracker,
        buffer: Seq<Single>,
        ticks: Seq<NorthTick>,
    ) -> bool {
        &&& after.wf()
        &&& after.settings() == self.settings()
        &&& after.filtered() == fir_core::filtered(
            self.settings().taps,
            self.history(),
            north_ref_common::amplified(buffer, self.settings().gain),
        )
        &&& after.history() == fir_core::history_after(
            self.history(),
            north_ref_common::amplified(buffer, self.settings().gain),
            buffer.len() as int,
        )
        &&& after.detector() == self.detector().advanced(after.filtered())
        &&& ({
            let peaks = self.detector().peaks(after.filtered());
            &&& ticks == self.settings().ticks_of(
                self.timing(),
                self.clock(),
                self.tail(),
                after.filtered(),
                peaks,
                peaks.len() as int,
            )
            &&& after.timing() == self.settings().timing_after(
                self.timing(),
                self.clock(),
                self.tail(),
                after.filtered(),
                peaks,
                peaks.len() as int,
            )
            &&& after.watch() == self.watch().after_buffer(
                peaks,
                self.detector().threshold,
                buffer.len(),
            )
        })
        &&& after.tail() == north_ref_common::newest(
            self.tail() + after.filtered(),
            self.settings().tail_len as int,
        )
        &&& after.clock() == north_ref::on_clock(self.clock(), buffer.len() as int)
    }

    /// Create a tracker.
    ///
    /// # Arguments
    /// * `config` - North tick detection configuration
    /// * `sample_rate` - Audio sample rate in Hz
    /// * `gain` - the amplitude factor that `config.gain_db` stands for
    /// * `highpass` - the highpass that the configuration asks for
    pub fn new(
        config: &NorthTickConfig,
        sample_rate: Single,
        gain: Single,
        highpass: FirHighpass,
    ) -> (r: Result<SimpleNorthTracker, NorthTickFault>)
        requires
            highpass.wf(),
            highpass.coefficients().len() <= isize::MAX,
        ensures
            match r {
                Err(f) => north_ref_common::north_tick_fault(*config, sample_rate) == Some(f),
                Ok(t) => {
                    &&& north_ref_common::north_tick_fault(*config, sample_rate) is None
                    &&& t.wf()
                    &&& t.starts(*config, sample_rate, gain, highpass)
                },
            },
    {
        north_ref_common::validate_north_tick_config(config, sample_rate)?;

        let min_samples: usize = config.min_interval_ms.over(
            Single::from_bits(agc::THOUSAND),
        ).times(sample_rate).to_count();
        let effective_pulse_amplitude: Single = config.expected_pulse_amplitude.times(gain).max(
            Single::from_bits(constants::EPSILON),
        );
        let threshold: Single = north_ref_common::detection_threshold(
            config.resolved_threshold_fraction(),
            effective_pulse_amplitude,
            &highpass,
        );
        let centroid_half_width: usize = north_ref_common::centroid_half_width(
            config.estimator,
            sample_rate,
            sample_rate.over(config.dpll.initial_frequency_hz.max(Single::one())),
        );
        let peak_timing: PeakTiming = north_ref_common::derive_peak_timing(
            &highpass,
            threshold,
            effective_pulse_amplitude,
            config.estimator,
            centroid_half_width,
        );
        let nominal_period_samples: Single = if config.dpll.initial_frequency_hz.above(
            Single::from_bits(constants::FREQUENCY_EPSILON),
        ) {
            sample_rate.over(config.dpll.initial_frequency_hz)
        } else {
            Single::from_count(min_samples)
        };
        let mut detector: PeakDetector = PeakDetector::with_peak_search_window(
            threshold,
            min_samples,
            peak_timing.peak_search_window_samples,
        );
        // The estimator reads samples on both sides of the peak, and
        // the peak can land at the end of the search window, so the
        // detector must hold a crossing until that context exists.
        detector.set_trailing_context(centroid_half_width);
        // A peak whose search window straddled a buffer boundary is
        // reported at a negative index in the next buffer. That index
        // reaches back by the search window plus the trailing context the
        // detector waits for, and the estimator then reads a further
        // half-width before it.
        let tail_len: u128 = 2 * (centroid_half_width as u128)
            + peak_timing.peak_search_window_samples as u128;
        let filter_tail_len: usize = if tail_len <= usize::MAX as u128 {
            tail_len as usize
        } else {
            usize::MAX
        };
        Ok(
            SimpleNorthTracker {
                gain,
                highpass,
                peak_detector: detector,
                pulse_reference_offset: peak_timing.pulse_reference_offset,
                estimator: config.estimator,
                centroid_half_width,
                filter_tail_len,
                nominal_period_samples,
                last_tick_sample: None,
                last_tick_fraction: Single::zero(),
                samples_per_rotation: None,
                period_variance: None,
                intervals_seen: 0,
                sample_counter: 0,
                sample_rate,
                filter_buffer: Vec::new(),
                filter_tail: Vec::new(),
                quiet_watch: QuietChannelWatch::new(sample_rate),
            },
        )
    }

    /// This tracker's own timing scatter, in radians squared of rotation
    /// phase, or None before it has enough intervals to say.
    ///
    /// There is no oscillator here to compare a detection against, but the
    /// intervals between detections carry the same information: if each tick
    /// has timing variance v, the interval between two of them has variance
    /// 2v, so half the interval scatter is the per-tick scatter. Converting
    /// samples squared to radians squared is the square of one rotation's
    /// worth of phase per sample.
    fn reference_phase_variance(&self) -> (v: Option<Single>)
        ensures
            v == self.timing().phase_variance(),
    {
        // One interval is a number, not a spread.
        if self.intervals_seen < 2 {
            return None;
        }
        match (self.period_variance, self.samples_per_rotation) {
            (Some(interval_variance), Some(period)) => {
                if !interval_variance.is_finite() || !period.is_finite() || period.at_most(
                    Single::from_bits(constants::EPSILON),
                ) {
                    return None;
                }
                let radians_per_sample: Single = Single::from_bits(constants::TWO_PI).over(period);
                Some(
                    interval_variance.over(Single::from_bits(math::TWO)).times(
                        radians_per_sample,
                    ).times(radians_per_sample),
                )
            },
            _ => None,
        }
    }

    fn tick(&self, reported_sample: usize, fractional_sample_offset: Single) -> (tick: NorthTick)
        ensures
            tick == self.timing().tick(reported_sample as int, fractional_sample_offset),
    {
        let frequency: Single = match self.samples_per_rotation {
            Some(p) => Single::from_bits(constants::TWO_PI).over(p),
            None => Single::zero(),
        };
        NorthTick {
            sample_index: reported_sample,
            period: self.samples_per_rotation,
            lock_quality: None,
            phase_variance: self.reference_phase_variance(),
            fractional_sample_offset,
            // By definition, tick = north = 0 radians
            phase: Single::zero(),
            frequency,
        }
    }

    /// Whether a position is too close to the last tick to be another one.
    fn too_close(&self, compensated_sample: usize) -> (b: bool)
        ensures
            b == self.timing().too_close(compensated_sample as int),
    {
        match self.last_tick_sample {
            Some(last) => {
                let period_reference: Single = match self.samples_per_rotation {
                    Some(p) => p,
                    None => self.nominal_period_samples,
                };
                let min_spacing: Single = period_reference.times(
                    Single::from_bits(MIN_TICK_SPACING_FRACTION),
                );
                Single::from_count(
                    north_ref::samples_behind(compensated_sample, last),
                ).less_than(min_spacing)
            },
            None => false,
        }
    }

    /// Take a peak into the timing, and report a tick for it unless it is too
    /// close to the last one.
    fn take_peak(&mut self, compensated_sample: usize, offset: Single) -> (tick: Option<NorthTick>)
        ensures
            final(self).timing() == old(self).timing().with_peak(
                compensated_sample as int,
                offset,
            ).0,
            tick == old(self).timing().with_peak(compensated_sample as int, offset).1,
            final(self).wf() == old(self).wf(),
            final(self).settings() == old(self).settings(),
            final(self).clock() == old(self).clock(),
            final(self).detector() == old(self).detector(),
            final(self).history() == old(self).history(),
            final(self).tail() == old(self).tail(),
            final(self).filtered() == old(self).filtered(),
            final(self).watch() == old(self).watch(),
    {
        if self.too_close(compensated_sample) {
            return None;
        }
        let (reported_sample, fractional_sample_offset) = north_ref_common::split_effective_time(
            compensated_sample,
            offset,
        );
        // Update rotation period estimate with exponential averaging
        if let Some(last) = self.last_tick_sample {
            let period: Single = Single::from_count(
                north_ref::samples_behind(compensated_sample, last),
            ).plus(fractional_sample_offset).minus(self.last_tick_fraction);

            // How far this interval sits from the average, before the
            // average absorbs it. Smoothed the same way the period is,
            // which is all the statistic this tracker needs to say how
            // much its own timing scatters.
            if let Some(mean) = self.samples_per_rotation {
                let deviation: Single = period.minus(mean);
                self.period_variance = Some(
                    smooth(self.period_variance, deviation.times(deviation)),
                );
                if self.intervals_seen < usize::MAX {
                    self.intervals_seen = self.intervals_seen + 1;
                }
            }
            self.samples_per_rotation = Some(smooth(self.samples_per_rotation, period));
        }
        self.last_tick_sample = Some(compensated_sample);
        // Relative to compensated_sample, not to the reported index: when
        // the estimate reanchors onto a neighbouring sample the two differ
        // by one, and the next period measurement would inherit that. The
        // difference is taken in integers because these are absolute
        // sample counts.
        self.last_tick_fraction = fractional_sample_offset.plus(
            Single::from_index(reported_sample as i128 - compensated_sample as i128),
        );
        Some(self.tick(reported_sample, fractional_sample_offset))
    }

    /// Advance the sample clock over lost samples so tick indices after a
    /// capture gap stay on the real timeline.
    pub fn advance_samples(&mut self, samples: usize)
        requires
            old(self).wf(),
        ensures
            old(self).skipped_to(*final(self), samples as int),
    {
        self.sample_counter = north_ref::clock_after(self.sample_counter, samples);
        self.peak_detector.reset_continuity();
        self.filter_tail.clear();
        // The delay line holds pre-gap audio that no longer adjoins what
        // follows it.
        self.highpass.reset();
        // Don't measure the first post-gap interval across the gap: it would
        // fold the whole gap into the period EMA and yank the estimate.
        self.last_tick_sample = None;
    }

    /// Emit a final tick for a crossing whose search window was still
    /// pending at end-of-stream.
    pub fn finish(&mut self) -> (ticks: Vec<NorthTick>)
        requires
            old(self).wf(),
        ensures
            old(self).finished_to(*final(self), ticks@),
            north_ref::all_turn_once(ticks@),
    {
        let mut ticks: Vec<NorthTick> = Vec::new();
        let (rel, _) = match self.peak_detector.flush() {
            Some(peak) => peak,
            None => {
                return ticks;
            },
        };
        let delay: DelayCompensation = north_ref_common::derive_delay_compensation(
            &self.highpass,
            self.pulse_reference_offset,
        );
        let compensated_sample: usize = north_ref::samples_behind(
            north_ref::clock_position(self.sample_counter, rel),
            delay.delay_samples,
        );
        if self.too_close(compensated_sample) {
            return ticks;
        }
        let (reported_sample, fractional_sample_offset) = north_ref_common::split_effective_time(
            compensated_sample,
            delay.fractional_sample_offset,
        );
        proof {
            rate_laws::simple_tick_turns_once(
                self.timing(),
                reported_sample as int,
                fractional_sample_offset,
            );
        }
        ticks.push(self.tick(reported_sample, fractional_sample_offset));
        self.last_tick_sample = Some(compensated_sample);
        ticks
    }

    /// Detect the ticks in a buffer of the north channel.
    pub fn process_buffer(&mut self, buffer: &[Single]) -> (ticks: Vec<NorthTick>)
        requires
            old(self).wf(),
            buffer.len() <= isize::MAX,
        ensures
            old(self).heard_to(*final(self), buffer@, ticks@),
            north_ref::all_turn_once(ticks@),
    {
        let ghost settings = self.settings();
        let ghost timing = self.timing();
        let ghost clock = self.clock();
        let ghost tail = self.tail();
        self.filter_buffer = north_ref_common::preprocess_north_buffer(
            buffer,
            self.gain,
            &mut self.highpass,
        );
        let threshold: Single = self.peak_detector.threshold();
        let peaks: Vec<(isize, Single)> = self.peak_detector.find_all_peaks(
            self.filter_buffer.as_slice(),
        );
        let ghost filtered = self.filter_buffer@;
        let ghost list = peak_detector::peak_list(peaks@);
        assert(list == old(self).detector().peaks(filtered));

        self.quiet_watch.note_detections(
            peaks.len(),
            north_ref_common::strongest(peaks.as_slice()),
            threshold,
        );
        self.quiet_watch.advance(buffer.len());

        let delay: DelayCompensation = north_ref_common::derive_delay_compensation(
            &self.highpass,
            self.pulse_reference_offset,
        );
        let mut ticks: Vec<NorthTick> = Vec::new();
        let mut k: usize = 0;
        while k < peaks.len()
            invariant
                k <= peaks.len(),
                self.wf(),
                self.settings() == settings,
                self.clock() == clock,
                self.tail() == tail,
                self.filtered() == filtered,
                delay == settings.delay(),
                list == peak_detector::peak_list(peaks@),
                self.detector() == old(self).detector().advanced(filtered),
                self.history() == fir_core::history_after(
                    old(self).history(),
                    north_ref_common::amplified(buffer@, settings.gain),
                    buffer@.len() as int,
                ),
                self.watch() == old(self).watch().after_buffer(
                    list,
                    old(self).detector().threshold,
                    buffer@.len(),
                ),
                self.timing() == settings.timing_after(
                    timing,
                    clock,
                    tail,
                    filtered,
                    list,
                    k as int,
                ),
                ticks@ == settings.ticks_of(timing, clock, tail, filtered, list, k as int),
            decreases peaks.len() - k,
        {
            let peak_idx: isize = peaks[k].0;
            assert(list[k as int].0 == peak_idx);
            let estimator_fraction: Single = north_ref_common::estimate_fraction(
                self.filter_tail.as_slice(),
                self.filter_buffer.as_slice(),
                peak_idx,
                self.estimator,
                self.centroid_half_width,
            );
            // Compensate for FIR filter delay: the filtered output at peak_idx
            // corresponds to an input pulse that occurred earlier by the
            // configured delay compensation. peak_idx can be slightly
            // negative when its search window completed across a buffer
            // boundary.
            let compensated_sample: usize = north_ref::samples_behind(
                north_ref::clock_position(self.sample_counter, peak_idx),
                delay.delay_samples,
            );
            if let Some(tick) = self.take_peak(
                compensated_sample,
                delay.fractional_sample_offset.plus(estimator_fraction),
            ) {
                ticks.push(tick);
            }
            k = k + 1;
        }
        north_ref_common::retain_tail(
            &mut self.filter_tail,
            self.filter_buffer.as_slice(),
            self.filter_tail_len,
        );
        self.sample_counter = north_ref::clock_after(self.sample_counter, buffer.len());
        proof {
            rate_laws::simple_ticks_turn_once(
                settings,
                timing,
                clock,
                tail,
                filtered,
                list,
                list.len() as int,
            );
        }
        ticks
    }

    pub open spec fn rotation_frequency_spec(self) -> Option<Single> {
        match self.timing().period {
            Some(p) => Some(self.settings().sample_rate.over_spec(p)),
            None => None,
        }
    }

    /// The rotation in Hz, once a period has been measured.
    pub fn rotation_frequency(&self) -> (f: Option<Single>)
        ensures
            f == self.rotation_frequency_spec(),
    {
        match self.samples_per_rotation {
            Some(period) => Some(self.sample_rate.over(period)),
            None => None,
        }
    }

    /// This tracker has no loop that could lock.
    pub fn lock_quality(&self) -> (q: Option<Single>)
        ensures
            q is None,
    {
        None
    }

    /// Samples since a north pulse was last detected.
    pub fn samples_since_detection(&self) -> (n: usize)
        ensures
            n == self.watch().since,
    {
        self.quiet_watch.samples_since_detection()
    }

    /// This tracker has no loop whose phase could be off.
    pub fn phase_error_variance(&self) -> (v: Option<Single>)
        ensures
            v is None,
    {
        None
    }

    /// What there is to say of the channel after the last buffer.
    pub fn channel_report(&self) -> (r: ChannelReport)
        ensures
            r == self.watch().report,
    {
        self.quiet_watch.report()
    }

    /// The filtered buffer from the last call of `process_buffer`.
    pub fn filtered_buffer(&self) -> (b: &[Single])
        ensures
            b@ == self.filtered(),
    {
        self.filter_buffer.as_slice()
    }
}

/// Ticks that are reported a number of samples later.
pub open spec fn ticks_later(ticks: Seq<NorthTick>, by: int) -> Seq<NorthTick> {
    ticks.map_values(
        |t: NorthTick| NorthTick { sample_index: (t.sample_index + by) as usize, ..t },
    )
}

impl SimpleTiming {
    /// The timing with the last tick a number of samples later.
    pub open spec fn later(self, by: int) -> SimpleTiming {
        SimpleTiming {
            last: match self.last {
                Some(last) => Some(last + by),
                None => None,
            },
            ..self
        }
    }

    /// A peak that comes later, and after a later tick, yields a later tick.
    proof fn later_peak(self, at: int, offset: Single, by: int)
        requires
            0 <= at,
            0 <= by,
            at + by <= usize::MAX,
            0 <= at + offset.round_to_i64_spec(),
            at + offset.round_to_i64_spec() + by <= usize::MAX,
        ensures
            self.later(by).with_peak(at + by, offset).0 == self.with_peak(at, offset).0.later(by),
            self.later(by).with_peak(at + by, offset).1 == match self.with_peak(at, offset).1 {
                Some(t) => Some(
                    NorthTick { sample_index: (t.sample_index + by) as usize, ..t },
                ),
                None => None,
            },
    {
        let (reported, fraction) = north_ref_common::effective_time_spec(at, offset);
        assert(north_ref_common::effective_time_spec(at + by, offset) == (
            reported + by,
            fraction,
        ));
        assert(self.later(by).too_close(at + by) == self.too_close(at));
        if !self.too_close(at) {
            let next = self.with_tick(at, reported, fraction);
            assert(self.later(by).with_tick(at + by, reported + by, fraction) == next.later(by));
        }
    }
}

impl SimpleSettings {
    /// Whether the peaks of a buffer keep clear of both ends of the sample
    /// clock, also `by` samples later.
    pub open spec fn on_the_clock(
        self,
        clock: int,
        tail: Seq<Single>,
        filtered: Seq<Single>,
        peaks: Seq<(int, Single)>,
        by: int,
    ) -> bool {
        forall|i: int|
            #![trigger peaks[i]]
            0 <= i < peaks.len() ==> {
                let at = clock + peaks[i].0 - self.delay().delay_samples;
                let whole = self.offset(tail, filtered, peaks[i].0).round_to_i64_spec();
                &&& 0 <= at
                &&& at + self.delay().delay_samples + by <= usize::MAX
                &&& 0 <= at + whole
                &&& at + whole + by <= usize::MAX
            }
    }

    /// A later clock moves the ticks and nothing else.
    proof fn later_clock(
        self,
        timing: SimpleTiming,
        clock: int,
        tail: Seq<Single>,
        filtered: Seq<Single>,
        peaks: Seq<(int, Single)>,
        by: int,
        k: int,
    )
        requires
            0 <= k <= peaks.len(),
            0 <= by,
            self.on_the_clock(clock, tail, filtered, peaks, by),
        ensures
            self.timing_after(timing.later(by), clock + by, tail, filtered, peaks, k)
                == self.timing_after(timing, clock, tail, filtered, peaks, k).later(by),
            self.ticks_of(timing.later(by), clock + by, tail, filtered, peaks, k) == ticks_later(
                self.ticks_of(timing, clock, tail, filtered, peaks, k),
                by,
            ),
        decreases k,
    {
        if k <= 0 {
            assert(ticks_later(Seq::empty(), by) =~= Seq::empty());
        } else {
            self.later_clock(timing, clock, tail, filtered, peaks, by, k - 1);
            let rel = peaks[k - 1].0;
            let at = self.position(clock, rel);
            let before = self.timing_after(timing, clock, tail, filtered, peaks, k - 1);
            let ticks = self.ticks_of(timing, clock, tail, filtered, peaks, k - 1);
            let offset = self.offset(tail, filtered, rel);
            assert(self.position(clock + by, rel) == at + by);
            before.later_peak(at, offset, by);
            if let Some(t) = before.with_peak(at, offset).1 {
                assert(ticks_later(ticks.push(t), by) =~= ticks_later(ticks, by).push(
                    NorthTick { sample_index: (t.sample_index + by) as usize, ..t },
                ));
            }
        }
    }
}

impl SimpleNorthTracker {
    /// Whether no part of a signal is being followed: nothing in the filter,
    /// no search open, no tick to keep a distance from. So it is at the start,
    /// and after lost samples.
    pub open spec fn at_rest(self) -> bool {
        &&& self.timing().last is None
        &&& self.history() == Seq::new(self.settings().taps.len(), |i: int| Double { bits: 0 })
        &&& self.tail() == Seq::<Single>::empty()
        &&& self.detector() == (peak_detector::PeakState {
            since: self.detector().min_interval,
            last: constants::of(0),
            above: false,
            pending: None,
            ..self.detector()
        })
    }

    /// Lost samples move what follows on the sample clock and change nothing
    /// else: a tracker at rest that has skipped some reports the ticks of a
    /// buffer that many samples later, with the same period, fraction,
    /// frequency and scatter.
    pub proof fn skipping_moves_the_ticks(
        before: SimpleNorthTracker,
        skipped: SimpleNorthTracker,
        samples: nat,
        buffer: Seq<Single>,
        after: SimpleNorthTracker,
        ticks: Seq<NorthTick>,
        skipped_after: SimpleNorthTracker,
        skipped_ticks: Seq<NorthTick>,
    )
        requires
            before.at_rest(),
            before.skipped_to(skipped, samples as int),
            before.heard_to(after, buffer, ticks),
            skipped.heard_to(skipped_after, buffer, skipped_ticks),
            before.clock() >= 0,
            before.clock() + samples <= usize::MAX,
            before.settings().on_the_clock(
                before.clock(),
                before.tail(),
                after.filtered(),
                before.detector().peaks(after.filtered()),
                samples as int,
            ),
        ensures
            skipped_ticks == ticks_later(ticks, samples as int),
            skipped_after.timing() == after.timing().later(samples as int),
            skipped_after.filtered() == after.filtered(),
            skipped_after.detector() == after.detector(),
            skipped_after.history() == after.history(),
            skipped_after.tail() == after.tail(),
    {
        let peaks = before.detector().peaks(after.filtered());
        assert(before.timing().later(samples as int) == before.timing());
        before.settings().later_clock(
            before.timing(),
            before.clock(),
            before.tail(),
            after.filtered(),
            peaks,
            samples as int,
            peaks.len() as int,
        );
    }

    /// A tracker is at rest at the start, and after lost samples.
    pub proof fn rests_between_signals(
        start: SimpleNorthTracker,
        config: NorthTickConfig,
        sample_rate: Single,
        gain: Single,
        highpass: FirHighpass,
        before: SimpleNorthTracker,
        after: SimpleNorthTracker,
        samples: int,
    )
        requires
            start.starts(config, sample_rate, gain, highpass),
            highpass.history() == Seq::new(
                highpass.coefficients().len(),
                |i: int| Double { bits: 0 },
            ),
            before.skipped_to(after, samples),
        ensures
            start.at_rest(),
            after.at_rest(),
    {
    }
}

} // verus!
