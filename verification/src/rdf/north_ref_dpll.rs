//! North tracking by a digital phase-locked loop.
use crate::config::{NorthPulseEstimator, NorthTickConfig};
use crate::constants;
use crate::double::Double;
use crate::error;
use crate::error::Template;
use crate::rdf::north_ref;
use crate::rdf::north_ref::NorthTick;
use crate::rdf::north_ref_common;
use crate::rdf::north_ref_common::{
    ChannelReport, DelayCompensation, NorthTickFault, PeakTiming, QuietChannelWatch,
};
use crate::rdf::north_ref_simple;
use crate::rdf::rate_laws;
use crate::rdf::rotation_loop;
use crate::rdf::rotation_loop::{LockQualityWeights, LoopParams, RotationLoop};
use crate::signal_processing::agc;
use crate::signal_processing::fir_core;
use crate::signal_processing::fir_highpass::FirHighpass;
use crate::signal_processing::math;
use crate::signal_processing::north_agc;
use crate::signal_processing::north_agc::NorthPulseAgc;
use crate::signal_processing::peak_detector;
use crate::signal_processing::peak_detector::PeakDetector;
use crate::single;
use crate::single::Single;
use crate::text;
use vstd::prelude::*;

verus! {

/// A setting of the loop that has to be a positive number.
#[derive(Clone, Copy, Debug, PartialEq, Eq, Structural)]
pub enum DpllSetting {
    InitialFrequencyHz,
    NaturalFrequencyHz,
    FrequencyMinHz,
    FrequencyMaxHz,
}

impl DpllSetting {
    pub open spec fn name_spec(self) -> Seq<char> {
        match self {
            DpllSetting::InitialFrequencyHz => "initial_frequency_hz"@,
            DpllSetting::NaturalFrequencyHz => "natural_frequency_hz"@,
            DpllSetting::FrequencyMinHz => "frequency_min_hz"@,
            DpllSetting::FrequencyMaxHz => "frequency_max_hz"@,
        }
    }

    /// The name of the setting.
    pub fn name(self) -> (s: &'static str)
        ensures
            s@ == self.name_spec(),
    {
        match self {
            DpllSetting::InitialFrequencyHz => "initial_frequency_hz",
            DpllSetting::NaturalFrequencyHz => "natural_frequency_hz",
            DpllSetting::FrequencyMinHz => "frequency_min_hz",
            DpllSetting::FrequencyMaxHz => "frequency_max_hz",
        }
    }
}

/// What is wrong with the configuration of a loop.
#[derive(Clone, Copy, Debug, PartialEq, Eq, Structural)]
pub enum DpllFault {
    SampleRate { sample_rate: Single },
    North { fault: NorthTickFault },
    NotPositive { setting: DpllSetting, value: Single },
    DampingNegative { damping_ratio: Single },
    LimitsReversed { min_hz: Single, max_hz: Single },
    /// The detector dead time is not shorter than the period at the top of
    /// the band, so valid ticks there would silently be rejected and the
    /// tracker would see an aliased half-rate stream.
    DeadTime { min_interval_ms: Single, max_hz: Single },
}

/// The rotation period of a frequency in milliseconds.
pub open spec fn period_ms_spec(hz: Single) -> Single {
    constants::of(agc::THOUSAND).over_spec(hz)
}

impl DpllFault {
    /// The message of a fault.
    pub open spec fn layout(self) -> error::Layout {
        let epsilon = constants::of(constants::FREQUENCY_EPSILON);
        match self {
            DpllFault::SampleRate { sample_rate } => error::with_two(
                "north_tick sample_rate must be finite and > "@,
                epsilon,
                ", got "@,
                sample_rate,
                ""@,
            ),
            DpllFault::North { fault } => fault.layout(),
            DpllFault::NotPositive { setting, value } => error::with_two(
                "north_tick.dpll."@ + setting.name_spec() + " must be finite and > "@,
                epsilon,
                ", got "@,
                value,
                ""@,
            ),
            DpllFault::DampingNegative { damping_ratio } => error::with_one(
                "north_tick.dpll.damping_ratio must be finite and >= 0, got "@,
                damping_ratio,
                ""@,
            ),
            DpllFault::LimitsReversed { min_hz, max_hz } => error::with_two(
                "north_tick.dpll.frequency_min_hz ("@,
                min_hz,
                ") must be < north_tick.dpll.frequency_max_hz ("@,
                max_hz,
                ")"@,
            ),
            DpllFault::DeadTime { min_interval_ms, max_hz } => error::with_two(
                "north_tick.min_interval_ms ("@,
                min_interval_ms,
                " ms) must be shorter than the period at dpll.frequency_max_hz ("@,
                max_hz,
                " Hz = "@ + text::fixed_text(period_ms_spec(max_hz), 3)
                    + " ms); lower min_interval_ms or frequency_max_hz"@,
            ),
        }
    }

    /// The message of a fault.
    pub fn template(&self) -> (t: Template)
        ensures
            t@ == self.layout(),
    {
        let epsilon: Single = Single::from_bits(constants::FREQUENCY_EPSILON);
        match *self {
            DpllFault::SampleRate { sample_rate } => Template::with_two(
                "north_tick sample_rate must be finite and > ",
                epsilon,
                ", got ",
                sample_rate,
                "",
            ),
            DpllFault::North { fault } => fault.template(),
            DpllFault::NotPositive { setting, value } => {
                let mut s: String = text::owned("north_tick.dpll.");
                s.append(setting.name());
                s.append(" must be finite and > ");
                Template::with_two(s.as_str(), epsilon, ", got ", value, "")
            },
            DpllFault::DampingNegative { damping_ratio } => Template::with_one(
                "north_tick.dpll.damping_ratio must be finite and >= 0, got ",
                damping_ratio,
                "",
            ),
            DpllFault::LimitsReversed { min_hz, max_hz } => Template::with_two(
                "north_tick.dpll.frequency_min_hz (",
                min_hz,
                ") must be < north_tick.dpll.frequency_max_hz (",
                max_hz,
                ")",
            ),
            DpllFault::DeadTime { min_interval_ms, max_hz } => {
                let mut s: String = text::owned(" Hz = ");
                text::push_fixed(&mut s, Single::from_bits(agc::THOUSAND).over(max_hz), 3);
                s.append(" ms); lower min_interval_ms or frequency_max_hz");
                Template::with_two(
                    "north_tick.min_interval_ms (",
                    min_interval_ms,
                    " ms) must be shorter than the period at dpll.frequency_max_hz (",
                    max_hz,
                    s.as_str(),
                )
            },
        }
    }
}

/// Whether a number is finite and beyond the frequency resolution.
pub open spec fn positive_spec(x: Single) -> bool {
    x.finite() && !x.le_spec(constants::of(constants::FREQUENCY_EPSILON))
}

fn positive(x: Single) -> (b: bool)
    ensures
        b == positive_spec(x),
{
    x.is_finite() && !x.at_most(Single::from_bits(constants::FREQUENCY_EPSILON))
}

/// The first thing that is wrong with a configuration, in the order in which
/// its settings are looked at.
pub open spec fn dpll_fault(config: NorthTickConfig, sample_rate: Single) -> Option<DpllFault> {
    let d = config.dpll;
    if !positive_spec(sample_rate) {
        Some(DpllFault::SampleRate { sample_rate })
    } else if north_ref_common::north_tick_fault(config, sample_rate) is Some {
        Some(
            DpllFault::North { fault: north_ref_common::north_tick_fault(config, sample_rate)->0 },
        )
    } else if !positive_spec(d.initial_frequency_hz) {
        Some(
            DpllFault::NotPositive {
                setting: DpllSetting::InitialFrequencyHz,
                value: d.initial_frequency_hz,
            },
        )
    } else if !positive_spec(d.natural_frequency_hz) {
        Some(
            DpllFault::NotPositive {
                setting: DpllSetting::NaturalFrequencyHz,
                value: d.natural_frequency_hz,
            },
        )
    } else if !d.damping_ratio.finite() || d.damping_ratio.lt_spec(constants::of(0)) {
        Some(DpllFault::DampingNegative { damping_ratio: d.damping_ratio })
    } else if !positive_spec(d.frequency_min_hz) {
        Some(
            DpllFault::NotPositive {
                setting: DpllSetting::FrequencyMinHz,
                value: d.frequency_min_hz,
            },
        )
    } else if !positive_spec(d.frequency_max_hz) {
        Some(
            DpllFault::NotPositive {
                setting: DpllSetting::FrequencyMaxHz,
                value: d.frequency_max_hz,
            },
        )
    } else if d.frequency_max_hz.le_spec(d.frequency_min_hz) {
        Some(
            DpllFault::LimitsReversed { min_hz: d.frequency_min_hz, max_hz: d.frequency_max_hz },
        )
    } else if period_ms_spec(d.frequency_max_hz).le_spec(config.min_interval_ms) {
        Some(
            DpllFault::DeadTime {
                min_interval_ms: config.min_interval_ms,
                max_hz: d.frequency_max_hz,
            },
        )
    } else {
        None
    }
}

/// Refuse settings that no loop can work with.
///
/// The detector dead time must be shorter than the period at the top of the
/// band. It is compared in continuous time so the verdict is identical at
/// every sample rate (truncated sample counts flip near the boundary).
pub fn validate_dpll_config(config: &NorthTickConfig, sample_rate: Single) -> (r: Result<
    (),
    DpllFault,
>)
    ensures
        match r {
            Ok(()) => dpll_fault(*config, sample_rate) is None,
            Err(f) => dpll_fault(*config, sample_rate) == Some(f),
        },
{
    if !positive(sample_rate) {
        return Err(DpllFault::SampleRate { sample_rate });
    }
    match north_ref_common::validate_north_tick_config(config, sample_rate) {
        Ok(()) => {},
        Err(fault) => {
            return Err(DpllFault::North { fault });
        },
    }
    let initial_freq: Single = config.dpll.initial_frequency_hz;
    if !positive(initial_freq) {
        return Err(
            DpllFault::NotPositive {
                setting: DpllSetting::InitialFrequencyHz,
                value: initial_freq,
            },
        );
    }
    let natural_frequency_hz: Single = config.dpll.natural_frequency_hz;
    if !positive(natural_frequency_hz) {
        return Err(
            DpllFault::NotPositive {
                setting: DpllSetting::NaturalFrequencyHz,
                value: natural_frequency_hz,
            },
        );
    }
    let damping_ratio: Single = config.dpll.damping_ratio;
    if !damping_ratio.is_finite() || damping_ratio.less_than(Single::zero()) {
        return Err(DpllFault::DampingNegative { damping_ratio });
    }
    let min_hz: Single = config.dpll.frequency_min_hz;
    let max_hz: Single = config.dpll.frequency_max_hz;
    if !positive(min_hz) {
        return Err(
            DpllFault::NotPositive { setting: DpllSetting::FrequencyMinHz, value: min_hz },
        );
    }
    if !positive(max_hz) {
        return Err(
            DpllFault::NotPositive { setting: DpllSetting::FrequencyMaxHz, value: max_hz },
        );
    }
    if min_hz.at_least(max_hz) {
        return Err(DpllFault::LimitsReversed { min_hz, max_hz });
    }
    if config.min_interval_ms.at_least(Single::from_bits(agc::THOUSAND).over(max_hz)) {
        return Err(DpllFault::DeadTime { min_interval_ms: config.min_interval_ms, max_hz });
    }
    Ok(())
}

/// A frequency in Hz as radians per sample.
pub open spec fn omega_spec(hz: Single, sample_rate: Single) -> Single {
    constants::of(constants::TWO_PI).times_spec(hz).over_spec(sample_rate)
}

fn omega(hz: Single, sample_rate: Single) -> (w: Single)
    ensures
        w == omega_spec(hz, sample_rate),
{
    Single::from_bits(constants::TWO_PI).times(hz).over(sample_rate)
}

/// The pulse height that meets the filter. With the gain control running it is
/// driven to the expected amplitude rather than being whatever the receiver
/// delivers times a static gain.
pub open spec fn amplitude_of(config: NorthTickConfig, gain: Single) -> Single {
    (if config.agc.enabled {
        config.expected_pulse_amplitude
    } else {
        config.expected_pulse_amplitude.times_spec(gain)
    }).max_spec(constants::of(constants::EPSILON))
}

/// The detection threshold.
pub open spec fn threshold_of(
    config: NorthTickConfig,
    gain: Single,
    highpass: FirHighpass,
) -> Single {
    north_ref_common::detection_threshold_spec(
        config.threshold_fraction_spec(),
        amplitude_of(config, gain),
        highpass.peak_response_spec(),
    )
}

pub open spec fn timing_of(
    config: NorthTickConfig,
    sample_rate: Single,
    gain: Single,
    highpass: FirHighpass,
) -> PeakTiming {
    north_ref_common::peak_timing_spec(
        highpass,
        threshold_of(config, gain, highpass),
        amplitude_of(config, gain),
        config.estimator,
        north_ref_simple::half_width_of(config, sample_rate) as int,
    )
}

/// How far back of the current position a detection can still surface.
pub open spec fn deferral_of(
    config: NorthTickConfig,
    sample_rate: Single,
    gain: Single,
    highpass: FirHighpass,
) -> nat {
    north_ref_simple::saturated(
        north_ref_simple::half_width_of(config, sample_rate) + timing_of(
            config,
            sample_rate,
            gain,
            highpass,
        ).peak_search_window_samples,
    )
}

/// The gains and limits of a loop. It updates once per detected tick, not once
/// per sample, so the natural frequency is normalized to the tick rate and
/// the integral gain is scaled by the expected update interval in samples.
pub open spec fn params_of(
    config: NorthTickConfig,
    sample_rate: Single,
    deferral: nat,
    weights: LockQualityWeights,
) -> LoopParams {
    let tick_rate = config.dpll.initial_frequency_hz;
    let wn = omega_spec(config.dpll.natural_frequency_hz, tick_rate);
    let two = constants::of(math::TWO);
    let zero = constants::of(0);
    LoopParams {
        kp: two.times_spec(config.dpll.damping_ratio).times_spec(wn),
        ki: wn.times_spec(wn).over_spec(sample_rate.over_spec(tick_rate)),
        min_omega: omega_spec(config.dpll.frequency_min_hz, sample_rate),
        max_omega: omega_spec(config.dpll.frequency_max_hz, sample_rate),
        gate_sigma: config.gate_sigma.max_spec(zero),
        max_coast_samples: config.max_coast_ms.over_spec(
            constants::of(agc::THOUSAND),
        ).times_spec(sample_rate).max_spec(zero).to_count_spec() as usize,
        detector_deferral_samples: deferral as usize,
        lock_quality_weights: weights,
    }
}

/// What the settings of a tracker follow from.
pub open spec fn settings_of(
    config: NorthTickConfig,
    sample_rate: Single,
    gain: Single,
    highpass: FirHighpass,
) -> north_ref_simple::SimpleSettings {
    let timing = timing_of(config, sample_rate, gain, highpass);
    let half_width = north_ref_simple::half_width_of(config, sample_rate);
    north_ref_simple::SimpleSettings {
        gain,
        taps: highpass.coefficients(),
        reference_offset: timing.pulse_reference_offset,
        estimator: config.estimator,
        half_width,
        tail_len: north_ref_simple::saturated(
            2 * half_width + timing.peak_search_window_samples,
        ),
        sample_rate,
    }
}

/// The gain control that a tracker starts with.
pub open spec fn agc_of(
    config: NorthTickConfig,
    agc_alpha: Single,
    highpass: FirHighpass,
) -> Option<north_agc::PulseAgcState> {
    if config.agc.enabled {
        Some(
            north_agc::PulseAgcState {
                target_peak: config.expected_pulse_amplitude.times_spec(
                    highpass.peak_response_spec(),
                ),
                gain: constants::of(single::ONE_BITS),
                min_gain: config.agc.min_gain,
                max_gain: config.agc.max_gain,
                recent: Seq::empty(),
                alpha: agc_alpha,
                observations: 0,
                candidate: None,
            },
        )
    } else {
        None
    }
}

/// The gain on a buffer: the fixed one times that of the gain control.
pub open spec fn gain_with(gain: Single, control: Option<north_agc::PulseAgcState>) -> Single {
    gain.times_spec(
        match control {
            Some(a) => a.gain,
            None => constants::of(single::ONE_BITS),
        },
    )
}

/// The buffer that a tracker works on.
pub ghost struct Heard {
    pub settings: north_ref_simple::SimpleSettings,
    pub clock: int,
    pub tail: Seq<Single>,
    pub filtered: Seq<Single>,
    pub peaks: Seq<(int, Single)>,
}

/// How far a tracker has come in a buffer: the oscillator, the gain control,
/// the ticks so far, and the position that the oscillator stands at.
pub ghost struct Progress {
    pub turn: rotation_loop::LoopState,
    pub control: Option<north_agc::PulseAgcState>,
    pub ticks: Seq<NorthTick>,
    pub stands_at: int,
}

impl Heard {
    /// Where on the sample clock a peak belongs.
    pub open spec fn position(self, k: int) -> int {
        self.settings.position(self.clock, self.peaks[k].0)
    }

    /// The sub-sample part of where a pulse was.
    pub open spec fn fraction(self, k: int) -> Single {
        north_ref_common::fraction_spec(
            self.tail,
            self.filtered,
            self.peaks[k].0,
            self.settings.estimator,
            self.settings.half_width as int,
        )
    }

    /// One peak: the oscillator runs up to it, rotations without a detection
    /// are filled in, and the detection is taken.
    #[verifier::opaque]
    pub open spec fn step(self, p: Progress, k: int) -> Progress {
        let at = self.position(k);
        let fraction = self.fraction(k);
        let turned = p.turn.turned(self.peaks[k].0 - p.stands_at);
        let coasted = turned.coasted_to(at);
        let (next, tick) = coasted.detected(
            at,
            fraction,
            self.settings.delay().fractional_sample_offset,
        );
        let filled = p.ticks + turned.predicted(at);
        Progress {
            turn: next,
            control: match p.control {
                Some(a) => Some(
                    if coasted.learns(at, fraction) {
                        a.observed(self.peaks[k].1)
                    } else {
                        a
                    },
                ),
                None => None,
            },
            ticks: match tick {
                Some(t) => filled.push(t),
                None => filled,
            },
            stands_at: self.peaks[k].0,
        }
    }

    /// The progress after the first `k` peaks.
    pub open spec fn after(self, start: Progress, k: int) -> Progress
        decreases k,
    {
        if k <= 0 {
            start
        } else {
            self.step(self.after(start, k - 1), k - 1)
        }
    }

    /// The progress at the end of the buffer: the oscillator runs on to the
    /// end, and a dropout there is filled in as far as the delay reaches.
    pub open spec fn finished(self, start: Progress) -> Progress {
        let p = self.after(start, self.peaks.len() as int);
        let n = self.filtered.len() as int;
        let turned = if p.stands_at < n {
            p.turn.turned(n - p.stands_at)
        } else {
            p.turn
        };
        let delay = self.settings.delay().delay_samples as int;
        let end = north_ref::behind(
            north_ref::on_clock(self.clock, n),
            if delay > 1 {
                delay
            } else {
                1
            },
        );
        Progress {
            turn: turned.coasted_to(end),
            ticks: p.ticks + turned.predicted(end),
            stands_at: n,
            ..p
        }
    }
}

/// North tracking by a digital phase-locked loop.
pub struct DpllNorthTracker {
    gain: Single,
    /// Slow gain on top of `gain`, driving the detected pulse peak towards
    /// what the configuration says to expect. None when disabled.
    agc: Option<NorthPulseAgc>,
    highpass: FirHighpass,
    peak_detector: PeakDetector,
    pulse_reference_offset: Single,
    estimator: NorthPulseEstimator,
    centroid_half_width: usize,
    filter_tail_len: usize,
    oscillator: RotationLoop,
    sample_counter: usize,
    sample_rate: Single,
    filter_buffer: Vec<Single>,
    // Filtered samples preceding filter_buffer, for estimator windows that
    // straddle a buffer boundary.
    filter_tail: Vec<Single>,
    quiet_watch: QuietChannelWatch,
}

/// Sum of two counts, at most the largest `usize`.
fn capped_sum(a: u128, b: usize) -> (n: usize)
    requires
        a <= 2 * usize::MAX,
    ensures
        n == north_ref_simple::saturated(a + b),
{
    let sum: u128 = a + b as u128;
    if sum <= usize::MAX as u128 {
        sum as usize
    } else {
        usize::MAX
    }
}

fn loop_params(
    config: &NorthTickConfig,
    sample_rate: Single,
    deferral: usize,
    weights: LockQualityWeights,
) -> (p: LoopParams)
    ensures
        p == params_of(*config, sample_rate, deferral as nat, weights),
{
    let tick_rate: Single = config.dpll.initial_frequency_hz;
    let samples_per_tick: Single = sample_rate.over(tick_rate);
    let wn: Single = omega(config.dpll.natural_frequency_hz, tick_rate);
    let max_coast_samples: usize = config.max_coast_ms.over(
        Single::from_bits(agc::THOUSAND),
    ).times(sample_rate).max(Single::zero()).to_count();
    LoopParams {
        kp: Single::from_bits(math::TWO).times(config.dpll.damping_ratio).times(wn),
        ki: wn.times(wn).over(samples_per_tick),
        min_omega: omega(config.dpll.frequency_min_hz, sample_rate),
        max_omega: omega(config.dpll.frequency_max_hz, sample_rate),
        gate_sigma: config.gate_sigma.max(Single::zero()),
        max_coast_samples,
        detector_deferral_samples: deferral,
        lock_quality_weights: weights,
    }
}

impl DpllNorthTracker {
    pub closed spec fn wf(&self) -> bool {
        &&& self.highpass.wf()
        &&& self.peak_detector.wf()
        &&& self.agc matches Some(a) ==> a.wf()
    }

    pub closed spec fn settings(&self) -> north_ref_simple::SimpleSettings {
        north_ref_simple::SimpleSettings {
            gain: self.gain,
            taps: self.highpass.coefficients(),
            reference_offset: self.pulse_reference_offset,
            estimator: self.estimator,
            half_width: self.centroid_half_width as nat,
            tail_len: self.filter_tail_len as nat,
            sample_rate: self.sample_rate,
        }
    }

    pub closed spec fn turn(&self) -> rotation_loop::LoopState {
        self.oscillator@
    }

    pub closed spec fn control(&self) -> Option<north_agc::PulseAgcState> {
        match self.agc {
            Some(a) => Some(a@),
            None => None,
        }
    }

    /// The sample clock: how many samples have gone by.
    pub closed spec fn clock(&self) -> int {
        self.sample_counter as int
    }

    pub closed spec fn detector(&self) -> peak_detector::PeakState {
        self.peak_detector@
    }

    /// What the filter still holds of the signal, the newest sample first.
    pub closed spec fn history(&self) -> Seq<Double> {
        self.highpass.history()
    }

    /// The filtered samples that precede the next buffer.
    pub closed spec fn tail(&self) -> Seq<Single> {
        self.filter_tail@
    }

    pub closed spec fn filtered(&self) -> Seq<Single> {
        self.filter_buffer@
    }

    pub closed spec fn watch(&self) -> north_ref_common::WatchState {
        self.quiet_watch@
    }

    /// A tracker that has just been set up for a configuration.
    pub open spec fn starts(
        self,
        config: NorthTickConfig,
        sample_rate: Single,
        gain: Single,
        agc_alpha: Single,
        highpass: FirHighpass,
        weights: LockQualityWeights,
    ) -> bool {
        &&& self.settings() == settings_of(config, sample_rate, gain, highpass)
        &&& self.turn() == rotation_loop::LoopState::starting(
            params_of(
                config,
                sample_rate,
                deferral_of(config, sample_rate, gain, highpass),
                weights,
            ),
            omega_spec(config.dpll.initial_frequency_hz, sample_rate),
        )
        &&& self.control() == agc_of(config, agc_alpha, highpass)
        &&& self.clock() == 0
        &&& self.detector() == peak_detector::fresh(
            threshold_of(config, gain, highpass),
            north_ref_simple::min_samples_of(config, sample_rate),
            timing_of(
                config,
                sample_rate,
                gain,
                highpass,
            ).peak_search_window_samples as nat,
        ).with_context(north_ref_simple::half_width_of(config, sample_rate))
        &&& self.history() == highpass.history()
        &&& self.tail() == Seq::<Single>::empty()
        &&& self.filtered() == Seq::<Single>::empty()
        &&& self.watch() == north_ref_common::WatchState::starting(sample_rate)
    }

    /// What lost samples make of a tracker.
    pub open spec fn skipped_to(self, after: DpllNorthTracker, samples: int) -> bool {
        &&& after.wf()
        &&& after.settings() == self.settings()
        &&& after.turn() == self.turn().skipped(samples)
        &&& after.control() == self.control()
        &&& after.clock() == north_ref::on_clock(self.clock(), samples)
        &&& after.detector() == (peak_detector::PeakState {
            since: self.detector().min_interval,
            last: constants::of(0),
            above: false,
            pending: None,
            ..self.detector()
        })
        &&& after.history() == Seq::new(
            self.settings().taps.len(),
            |i: int| Double { bits: 0 },
        )
        &&& after.tail() == Seq::<Single>::empty()
        &&& after.filtered() == self.filtered()
        &&& after.watch() == self.watch()
    }

    /// What the end of the stream makes of a tracker.
    pub open spec fn finished_to(self, after: DpllNorthTracker, ticks: Seq<NorthTick>) -> bool {
        &&& after.wf()
        &&& after.settings() == self.settings()
        &&& after.control() == self.control()
        &&& after.clock() == self.clock()
        &&& after.detector() == (peak_detector::PeakState {
            pending: None,
            ..self.detector()
        })
        &&& after.history() == self.history()
        &&& after.tail() == self.tail()
        &&& after.filtered() == self.filtered()
        &&& after.watch() == self.watch()
        &&& match self.detector().pending {
            None => ticks.len() == 0 && after.turn() == self.turn(),
            Some(p) => {
                let s = self.settings();
                let (turn, tick) = self.turn().concluded(
                    s.position(self.clock(), p.rel),
                    s.delay().fractional_sample_offset,
                );
                &&& after.turn() == turn
                &&& ticks == match tick {
                    Some(t) => seq![t],
                    None => Seq::empty(),
                }
            },
        }
    }

    /// What a buffer makes of a tracker, and the ticks in it.
    pub open spec fn heard_to(
        self,
        after: DpllNorthTracker,
        buffer: Seq<Single>,
        ticks: Seq<NorthTick>,
    ) -> bool {
        &&& after.wf()
        &&& after.settings() == self.settings()
        &&& ({
            let gain = gain_with(self.settings().gain, self.control());
            let input = north_ref_common::amplified(buffer, gain);
            &&& after.filtered() == fir_core::filtered(
                self.settings().taps,
                self.history(),
                input,
            )
            &&& after.history() == fir_core::history_after(
                self.history(),
                input,
                buffer.len() as int,
            )
        })
        &&& after.detector() == self.detector().advanced(after.filtered())
        &&& ({
            let peaks = self.detector().peaks(after.filtered());
            let end = (Heard {
                settings: self.settings(),
                clock: self.clock(),
                tail: self.tail(),
                filtered: after.filtered(),
                peaks,
            }).finished(
                Progress {
                    turn: self.turn(),
                    control: match self.control() {
                        Some(a) => Some(
                            if peaks.len() == 0 {
                                a.undetected(after.filtered())
                            } else {
                                a
                            },
                        ),
                        None => None,
                    },
                    ticks: Seq::empty(),
                    stands_at: 0,
                },
            );
            &&& ticks == end.ticks
            &&& after.turn() == end.turn
            &&& after.control() == end.control
            &&& after.watch() == self.watch().after_buffer(
                peaks,
                self.detector().threshold,
                buffer.len(),
            )
        })
        &&& after.tail() == north_ref_common::newest(
            self.tail() + after.filtered(),
            self.settings().tail_len as int,
        )
        &&& after.clock() == north_ref::on_clock(self.clock(), buffer.len() as int)
    }

    /// Create a tracker.
    ///
    /// # Arguments
    /// * `config` - North tick detection configuration
    /// * `sample_rate` - Audio sample rate in Hz
    /// * `gain` - the amplitude factor that `config.gain_db` stands for
    /// * `agc_alpha` - the weight of a single step of the gain control, see
    ///   `NorthPulseAgc::new`
    /// * `highpass` - the highpass that the configuration asks for
    /// * `weights` - what makes up the lock quality
    pub fn new(
        config: &NorthTickConfig,
        sample_rate: Single,
        gain: Single,
        agc_alpha: Single,
        highpass: FirHighpass,
        weights: LockQualityWeights,
    ) -> (r: Result<DpllNorthTracker, DpllFault>)
        requires
            highpass.wf(),
            highpass.coefficients().len() <= isize::MAX,
        ensures
            match r {
                Err(f) => dpll_fault(*config, sample_rate) == Some(f),
                Ok(t) => {
                    &&& dpll_fault(*config, sample_rate) is None
                    &&& t.wf()
                    &&& t.starts(*config, sample_rate, gain, agc_alpha, highpass, weights)
                },
            },
    {
        validate_dpll_config(config, sample_rate)?;

        let min_samples: usize = config.min_interval_ms.over(
            Single::from_bits(agc::THOUSAND),
        ).times(sample_rate).to_count();
        let level: Single = if config.agc.enabled {
            config.expected_pulse_amplitude
        } else {
            config.expected_pulse_amplitude.times(gain)
        };
        let effective_pulse_amplitude: Single = level.max(Single::from_bits(constants::EPSILON));
        let threshold: Single = north_ref_common::detection_threshold(
            config.resolved_threshold_fraction(),
            effective_pulse_amplitude,
            &highpass,
        );
        let centroid_half_width: usize = north_ref_common::centroid_half_width(
            config.estimator,
            sample_rate,
            sample_rate.over(config.dpll.initial_frequency_hz.max(Single::one())),
        );
        let peak_timing: PeakTiming = north_ref_common::derive_peak_timing(
            &highpass,
            threshold,
            effective_pulse_amplitude,
            config.estimator,
            centroid_half_width,
        );
        let agc: Option<NorthPulseAgc> = if config.agc.enabled {
            Some(
                NorthPulseAgc::new(
                    config.expected_pulse_amplitude.times(highpass.peak_response()),
                    agc_alpha,
                    config.agc.min_gain,
                    config.agc.max_gain,
                ),
            )
        } else {
            None
        };
        let mut detector: PeakDetector = PeakDetector::with_peak_search_window(
            threshold,
            min_samples,
            peak_timing.peak_search_window_samples,
        );
        // The estimator reads samples on both sides of the peak, and
        // the peak can land at the end of the search window, so the
        // detector must hold a crossing until that context exists.
        detector.set_trailing_context(centroid_half_width);
        // A peak whose search window straddled a buffer boundary is
        // reported at a negative index in the next buffer. That index
        // reaches back by the search window plus the trailing context the
        // detector waits for, and the estimator then reads a further
        // half-width before it.
        let filter_tail_len: usize = capped_sum(
            2 * (centroid_half_width as u128),
            peak_timing.peak_search_window_samples,
        );
        let deferral: usize = capped_sum(
            centroid_half_width as u128,
            peak_timing.peak_search_window_samples,
        );
        let params: LoopParams = loop_params(config, sample_rate, deferral, weights);
        Ok(
            DpllNorthTracker {
                gain,
                agc,
                highpass,
                peak_detector: detector,
                pulse_reference_offset: peak_timing.pulse_reference_offset,
                estimator: config.estimator,
                centroid_half_width,
                filter_tail_len,
                oscillator: RotationLoop::new(
                    params,
                    omega(config.dpll.initial_frequency_hz, sample_rate),
                ),
                sample_counter: 0,
                sample_rate,
                filter_buffer: Vec::new(),
                filter_tail: Vec::new(),
                quiet_watch: QuietChannelWatch::new(sample_rate),
            },
        )
    }

    /// Coast over lost samples: the oscillator keeps rotating at its tracked
    /// frequency and the sample clock advances, so tick indices after a
    /// capture gap stay on the real timeline.
    pub fn advance_samples(&mut self, samples: usize)
        requires
            old(self).wf(),
        ensures
            old(self).skipped_to(*final(self), samples as int),
    {
        self.oscillator.advance(samples);
        self.sample_counter = north_ref::clock_after(self.sample_counter, samples);
        // The delay line holds pre-gap audio that no longer adjoins what
        // follows it.
        self.highpass.reset();
        self.peak_detector.reset_continuity();
        self.filter_tail.clear();
    }

    /// Emit a final tick for a crossing whose search window was still
    /// pending at end-of-stream. Uses the current locked frequency without
    /// running the PI update: nothing follows this tick.
    pub fn finish(&mut self) -> (ticks: Vec<NorthTick>)
        requires
            old(self).wf(),
        ensures
            old(self).finished_to(*final(self), ticks@),
            north_ref::all_turn_once(ticks@),
    {
        let mut ticks: Vec<NorthTick> = Vec::new();
        let (rel, _) = match self.peak_detector.flush() {
            Some(peak) => peak,
            None => {
                return ticks;
            },
        };
        let delay: DelayCompensation = north_ref_common::derive_delay_compensation(
            &self.highpass,
            self.pulse_reference_offset,
        );
        let compensated_sample: usize = north_ref::samples_behind(
            north_ref::clock_position(self.sample_counter, rel),
            delay.delay_samples,
        );
        if let Some(tick) = self.oscillator.conclude(
            compensated_sample,
            delay.fractional_sample_offset,
        ) {
            proof {
                rate_laws::measured_tick_turns_once(
                    self.oscillator@,
                    tick.sample_index as int,
                    tick.fractional_sample_offset,
                );
            }
            ticks.push(tick);
        }
        ticks
    }

    /// Adapt the gain to a detection that the oscillator believes.
    fn learn(&mut self, amplitude: Single)
        requires
            old(self).wf(),
        ensures
            final(self).wf(),
            final(self).control() == match old(self).control() {
                Some(a) => Some(a.observed(amplitude)),
                None => None,
            },
            final(self).settings() == old(self).settings(),
            final(self).turn() == old(self).turn(),
            final(self).clock() == old(self).clock(),
            final(self).detector() == old(self).detector(),
            final(self).history() == old(self).history(),
            final(self).tail() == old(self).tail(),
            final(self).filtered() == old(self).filtered(),
            final(self).watch() == old(self).watch(),
    {
        if let Some(agc) = &mut self.agc {
            agc.observe(amplitude);
        }
    }

    /// The fixed gain times that of the gain control.
    fn current_gain(&self) -> (g: Single)
        ensures
            g == gain_with(self.settings().gain, self.control()),
    {
        let adaptive: Single = match &self.agc {
            Some(agc) => agc.gain(),
            None => Single::one(),
        };
        self.gain.times(adaptive)
    }

    /// Take one peak of the current buffer: run the oscillator up to it from
    /// where it stands, fill in the rotations before it, and take it.
    fn take_peak(
        &mut self,
        peak_idx: isize,
        amplitude: Single,
        stands_at: isize,
        delay: DelayCompensation,
        ticks: &mut Vec<NorthTick>,
        Ghost(heard): Ghost<Heard>,
        Ghost(k): Ghost<int>,
    )
        requires
            old(self).wf(),
            heard.settings == old(self).settings(),
            heard.clock == old(self).clock(),
            heard.tail == old(self).tail(),
            heard.filtered == old(self).filtered(),
            heard.peaks[k] == (peak_idx as int, amplitude),
            delay == heard.settings.delay(),
        ensures
            final(self).wf(),
            ({
                let p = heard.step(
                    Progress {
                        turn: old(self).turn(),
                        control: old(self).control(),
                        ticks: old(ticks)@,
                        stands_at: stands_at as int,
                    },
                    k,
                );
                &&& final(self).turn() == p.turn
                &&& final(self).control() == p.control
                &&& final(ticks)@ == p.ticks
                &&& p.stands_at == peak_idx
            }),
            final(self).settings() == old(self).settings(),
            final(self).clock() == old(self).clock(),
            final(self).detector() == old(self).detector(),
            final(self).history() == old(self).history(),
            final(self).tail() == old(self).tail(),
            final(self).filtered() == old(self).filtered(),
            final(self).watch() == old(self).watch(),
    {
        proof {
            reveal(Heard::step);
        }
        self.oscillator.turn(peak_idx as i128 - stands_at as i128);
        let estimator_fraction: Single = north_ref_common::estimate_fraction(
            self.filter_tail.as_slice(),
            self.filter_buffer.as_slice(),
            peak_idx,
            self.estimator,
            self.centroid_half_width,
        );
        let compensated_sample: usize = north_ref::samples_behind(
            north_ref::clock_position(self.sample_counter, peak_idx),
            delay.delay_samples,
        );
        // Fill in rotations that produced no usable detection before
        // accounting for this one, so a dropout in the middle of a buffer
        // is coasted through rather than left as a gap.
        self.oscillator.coast_to(compensated_sample, ticks);
        let (tick, learns) = self.oscillator.detect(
            compensated_sample,
            estimator_fraction,
            delay.fractional_sample_offset,
        );
        // The limit believes this one, so it is evidence about the pulse
        // level, but only while the oscillator is locked.
        if learns {
            self.learn(amplitude);
        }
        if let Some(tick) = tick {
            ticks.push(tick);
        }
    }

    /// Filter a buffer and find its peaks.
    fn hear(&mut self, buffer: &[Single]) -> (peaks: Vec<(isize, Single)>)
        requires
            old(self).wf(),
            buffer.len() <= isize::MAX,
        ensures
            final(self).wf(),
            final(self).settings() == old(self).settings(),
            final(self).turn() == old(self).turn(),
            final(self).clock() == old(self).clock(),
            final(self).tail() == old(self).tail(),
            final(self).filtered().len() == buffer@.len(),
            ({
                let gain = gain_with(old(self).settings().gain, old(self).control());
                let input = north_ref_common::amplified(buffer@, gain);
                &&& final(self).filtered() == fir_core::filtered(
                    old(self).settings().taps,
                    old(self).history(),
                    input,
                )
                &&& final(self).history() == fir_core::history_after(
                    old(self).history(),
                    input,
                    buffer@.len() as int,
                )
            }),
            final(self).detector() == old(self).detector().advanced(final(self).filtered()),
            peak_detector::peak_list(peaks@) == old(self).detector().peaks(
                final(self).filtered(),
            ),
            final(self).control() == match old(self).control() {
                Some(a) => Some(
                    if peaks@.len() == 0 {
                        a.undetected(final(self).filtered())
                    } else {
                        a
                    },
                ),
                None => None,
            },
            final(self).watch() == old(self).watch().after_buffer(
                peak_detector::peak_list(peaks@),
                old(self).detector().threshold,
                buffer@.len(),
            ),
    {
        let gain: Single = self.current_gain();
        self.filter_buffer = north_ref_common::preprocess_north_buffer(
            buffer,
            gain,
            &mut self.highpass,
        );
        let threshold: Single = self.peak_detector.threshold();
        let peaks: Vec<(isize, Single)> = self.peak_detector.find_all_peaks(
            self.filter_buffer.as_slice(),
        );
        // Adapt only on detections. A peak tracker given a silent channel
        // raises gain until the noise floor crosses the threshold and then
        // detects its own noise. Before anything has been detected there is
        // nothing better to go on.
        if peaks.len() == 0 {
            if let Some(agc) = &mut self.agc {
                agc.observe_undetected(self.filter_buffer.as_slice());
            }
        }
        self.quiet_watch.note_detections(
            peaks.len(),
            north_ref_common::strongest(peaks.as_slice()),
            threshold,
        );
        self.quiet_watch.advance(buffer.len());
        peaks
    }

    /// Take the peaks of the current buffer, one after the other. Gives the
    /// position that the oscillator then stands at.
    fn take_peaks(
        &mut self,
        peaks: &Vec<(isize, Single)>,
        delay: DelayCompensation,
        ticks: &mut Vec<NorthTick>,
    ) -> (stands_at: isize)
        requires
            old(self).wf(),
            delay == old(self).settings().delay(),
        ensures
            final(self).wf(),
            ({
                let p = (Heard {
                    settings: old(self).settings(),
                    clock: old(self).clock(),
                    tail: old(self).tail(),
                    filtered: old(self).filtered(),
                    peaks: peak_detector::peak_list(peaks@),
                }).after(
                    Progress {
                        turn: old(self).turn(),
                        control: old(self).control(),
                        ticks: old(ticks)@,
                        stands_at: 0,
                    },
                    peaks@.len() as int,
                );
                &&& final(self).turn() == p.turn
                &&& final(self).control() == p.control
                &&& final(ticks)@ == p.ticks
                &&& stands_at == p.stands_at
            }),
            final(self).settings() == old(self).settings(),
            final(self).clock() == old(self).clock(),
            final(self).detector() == old(self).detector(),
            final(self).history() == old(self).history(),
            final(self).tail() == old(self).tail(),
            final(self).filtered() == old(self).filtered(),
            final(self).watch() == old(self).watch(),
    {
        let ghost heard = Heard {
            settings: self.settings(),
            clock: self.clock(),
            tail: self.tail(),
            filtered: self.filtered(),
            peaks: peak_detector::peak_list(peaks@),
        };
        let ghost start = Progress {
            turn: self.turn(),
            control: self.control(),
            ticks: ticks@,
            stands_at: 0,
        };
        // Peak indices are strictly increasing but a peak whose search
        // window completed in this buffer may sit at a small negative index
        // (in the previous buffer); the phase advance is then a rewind.
        let mut stands_at: isize = 0;
        let mut k: usize = 0;
        while k < peaks.len()
            invariant
                k <= peaks.len(),
                self.wf(),
                self.settings() == heard.settings,
                self.clock() == heard.clock,
                self.tail() == heard.tail,
                self.filtered() == heard.filtered,
                self.history() == old(self).history(),
                self.detector() == old(self).detector(),
                self.watch() == old(self).watch(),
                delay == heard.settings.delay(),
                heard.peaks == peak_detector::peak_list(peaks@),
                heard.after(start, k as int) == (Progress {
                    turn: self.turn(),
                    control: self.control(),
                    ticks: ticks@,
                    stands_at: stands_at as int,
                }),
            decreases peaks.len() - k,
        {
            let (peak_idx, amplitude) = peaks[k];
            assert(heard.peaks[k as int] == (peak_idx as int, amplitude));
            self.take_peak(
                peak_idx,
                amplitude,
                stands_at,
                delay,
                ticks,
                Ghost(heard),
                Ghost(k as int),
            );
            stands_at = peak_idx;
            k = k + 1;
        }
        stands_at
    }

    /// Detect the ticks in a buffer of the north channel.
    pub fn process_buffer(&mut self, buffer: &[Single]) -> (ticks: Vec<NorthTick>)
        requires
            old(self).wf(),
            buffer.len() <= isize::MAX,
        ensures
            old(self).heard_to(*final(self), buffer@, ticks@),
            north_ref::all_turn_once(ticks@),
    {
        let peaks: Vec<(isize, Single)> = self.hear(buffer);
        let delay: DelayCompensation = north_ref_common::derive_delay_compensation(
            &self.highpass,
            self.pulse_reference_offset,
        );
        let ghost heard = Heard {
            settings: self.settings(),
            clock: self.clock(),
            tail: self.tail(),
            filtered: self.filtered(),
            peaks: peak_detector::peak_list(peaks@),
        };
        let ghost start = Progress {
            turn: self.turn(),
            control: self.control(),
            ticks: Seq::empty(),
            stands_at: 0,
        };
        let mut ticks: Vec<NorthTick> = Vec::new();
        let stands_at: isize = self.take_peaks(&peaks, delay, &mut ticks);
        assert(heard.after(start, peaks.len() as int).turn == self.turn());
        // Advance phase for remaining samples after the last peak
        if (stands_at as i128) < buffer.len() as i128 {
            self.oscillator.turn(buffer.len() as i128 - stands_at as i128);
        }
        north_ref_common::retain_tail(
            &mut self.filter_tail,
            self.filter_buffer.as_slice(),
            self.filter_tail_len,
        );
        self.sample_counter = north_ref::clock_after(self.sample_counter, buffer.len());

        // Cover the tail of the buffer, where a dropout that started mid-way
        // through leaves rotations with no detection to trigger the fill.
        let reach: usize = if delay.delay_samples > 1 {
            delay.delay_samples
        } else {
            1
        };
        let buffer_end: usize = north_ref::samples_behind(self.sample_counter, reach);
        self.oscillator.coast_to(buffer_end, &mut ticks);
        assert(self.turn() == heard.finished(start).turn);
        assert(ticks@ == heard.finished(start).ticks);
        proof {
            let p = heard.after(start, heard.peaks.len() as int);
            let n = heard.filtered.len() as int;
            rate_laws::loop_ticks_turn_once(heard, start, heard.peaks.len() as int);
            rate_laws::predicted_ticks_turn_once(
                if p.stands_at < n {
                    p.turn.turned(n - p.stands_at)
                } else {
                    p.turn
                },
                buffer_end as int,
            );
        }
        ticks
    }

    pub open spec fn rotation_frequency_spec(self) -> Option<Single> {
        if constants::of(0).lt_spec(self.turn().frequency) {
            Some(
                self.turn().frequency.times_spec(self.settings().sample_rate).over_spec(
                    constants::of(constants::TWO_PI),
                ),
            )
        } else {
            None
        }
    }

    /// The rotation in Hz that the oscillator follows.
    pub fn rotation_frequency(&self) -> (f: Option<Single>)
        ensures
            f == self.rotation_frequency_spec(),
    {
        let frequency: Single = self.oscillator.frequency();
        if frequency.above(Single::zero()) {
            Some(frequency.times(self.sample_rate).over(Single::from_bits(constants::TWO_PI)))
        } else {
            None
        }
    }

    /// Samples since a north pulse was last detected.
    pub fn samples_since_detection(&self) -> (n: usize)
        ensures
            n == self.watch().since,
    {
        self.quiet_watch.samples_since_detection()
    }

    /// The scatter of the phase error of the loop.
    pub fn phase_error_variance(&self) -> (v: Option<Single>)
        ensures
            v == self.turn().errors.variance(),
    {
        self.oscillator.phase_error_variance()
    }

    /// How well the loop is locked, from 0 to 1.
    pub fn lock_quality(&self) -> (q: Option<Single>)
        ensures
            q == self.turn().lock_quality(),
    {
        self.oscillator.lock_quality()
    }

    /// What there is to say of the channel after the last buffer.
    pub fn channel_report(&self) -> (r: ChannelReport)
        ensures
            r == self.watch().report,
    {
        self.quiet_watch.report()
    }

    /// The filtered buffer from the last call of `process_buffer`.
    pub fn filtered_buffer(&self) -> (b: &[Single])
        ensures
            b@ == self.filtered(),
    {
        self.filter_buffer.as_slice()
    }
}

} // verus!
