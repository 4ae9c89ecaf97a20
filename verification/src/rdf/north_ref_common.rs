//! What both north trackers share: validation, pulse timing and delay.
use crate::config::{NorthPulseEstimator, NorthTickConfig};
use crate::constants;
use crate::double::Double;
use crate::error;
use crate::error::Template;
use crate::signal_processing::fir_core;
use crate::signal_processing::fir_highpass;
use crate::signal_processing::fir_highpass::FirHighpass;
use crate::signal_processing::math;
use crate::signal_processing::peak_detector;
use crate::single;
use crate::single::Single;
use crate::single_laws;
use crate::text;
use vstd::arithmetic::power2;
use vstd::prelude::*;

verus! {

/// Ceiling on the estimator window as a fraction of one rotation (0.2), so it
/// can never reach far enough to take in a neighbouring pulse.
pub const MAX_CENTROID_HALF_WIDTH_FRACTION: u32 = 0x3e4c_cccd;

/// Sixty.
pub const SIXTY: u32 = 0x4270_0000;

/// One millionth.
pub const MILLIONTH: u32 = 0x3586_37bd;

/// How close to the threshold a pulse may come before it is flagged (1.5).
pub const CLOSE_MARGIN: u32 = 0x3fc0_0000;

/// Fewest taps that make a highpass.
pub const MIN_HIGHPASS_TAPS: usize = 3;

/// A setting of the north channel that has to be a number.
#[derive(Clone, Copy, Debug, PartialEq, Eq, Structural)]
pub enum NorthSetting {
    GainDb,
    ExpectedPulseAmplitude,
    ThresholdFraction,
    FirHighpassLengthUs,
    HighpassCutoff,
    HighpassTransitionHz,
    MaxCoastMs,
    GateSigma,
}

impl NorthSetting {
    pub open spec fn name_spec(self) -> Seq<char> {
        match self {
            NorthSetting::GainDb => "gain_db"@,
            NorthSetting::ExpectedPulseAmplitude => "expected_pulse_amplitude"@,
            NorthSetting::ThresholdFraction => "threshold_fraction"@,
            NorthSetting::FirHighpassLengthUs => "fir_highpass_length_us"@,
            NorthSetting::HighpassCutoff => "highpass_cutoff"@,
            NorthSetting::HighpassTransitionHz => "highpass_transition_hz"@,
            NorthSetting::MaxCoastMs => "max_coast_ms"@,
            NorthSetting::GateSigma => "gate_sigma"@,
        }
    }

    /// The name of the setting.
    pub fn name(self) -> (s: &'static str)
        ensures
            s@ == self.name_spec(),
    {
        match self {
            NorthSetting::GainDb => "gain_db",
            NorthSetting::ExpectedPulseAmplitude => "expected_pulse_amplitude",
            NorthSetting::ThresholdFraction => "threshold_fraction",
            NorthSetting::FirHighpassLengthUs => "fir_highpass_length_us",
            NorthSetting::HighpassCutoff => "highpass_cutoff",
            NorthSetting::HighpassTransitionHz => "highpass_transition_hz",
            NorthSetting::MaxCoastMs => "max_coast_ms",
            NorthSetting::GateSigma => "gate_sigma",
        }
    }
}

/// What is wrong with a north channel configuration.
#[derive(Clone, Copy, Debug, PartialEq, Eq, Structural)]
pub enum NorthTickFault {
    NotFinite { setting: NorthSetting, value: Single },
    GainOutOfRange { gain_db: Single },
    AmplitudeOutOfRange { amplitude: Single },
    FractionOutOfRange { fraction: Single },
    TooFewTaps { length_us: Single, sample_rate: Single },
    TransitionNotPositive { transition_hz: Single },
    CutoffInTransition { cutoff: Single, transition_hz: Single },
    CutoffBeyondNyquist { cutoff: Single, nyquist: Single, sample_rate: Single },
    CoastNegative { max_coast_ms: Single },
    GateNegative { gate_sigma: Single },
}

impl NorthTickFault {
    /// Each message names the setting, what it was, and what would fix it: a
    /// tracker that silently detects nothing is far harder to diagnose from a
    /// bearing display than a refusal to start.
    pub open spec fn layout(self) -> error::Layout {
        match self {
            NorthTickFault::NotFinite { setting, value } => error::with_one(
                "north_tick."@ + setting.name_spec() + " must be a finite number, got "@,
                value,
                ""@,
            ),
            NorthTickFault::GainOutOfRange { gain_db } => error::with_one(
                "north_tick.gain_db is "@,
                gain_db,
                " dB, outside the supported -60 to 60; a gain this far              from unity usually means the wrong channel is being read"@,
            ),
            NorthTickFault::AmplitudeOutOfRange { amplitude } => error::with_one(
                "north_tick.expected_pulse_amplitude is "@,
                amplitude,
                ", must be within (0, 1]; it is the              pulse height in full-scale units after gain"@,
            ),
            NorthTickFault::FractionOutOfRange { fraction } => error::with_one(
                "north_tick.threshold_fraction is "@,
                fraction,
                ", must be within (0, 1); it is the fraction of the expected filtered pulse height a detection has to clear, and at 1 or above no pulse can ever cross it"@,
            ),
            NorthTickFault::TooFewTaps { length_us, sample_rate } => error::with_two(
                "north_tick.fir_highpass_length_us is "@,
                length_us,
                " us, which is fewer than 3 taps at a "@,
                sample_rate,
                " Hz sample rate; lengthen the filter"@,
            ),
            NorthTickFault::TransitionNotPositive { transition_hz } => error::with_one(
                "north_tick.highpass_transition_hz is "@,
                transition_hz,
                ", must be greater than 0"@,
            ),
            NorthTickFault::CutoffInTransition { cutoff, transition_hz } => error::with_two(
                "north_tick.highpass_cutoff ("@,
                cutoff,
                " Hz) must be above highpass_transition_hz ("@,
                transition_hz,
                " Hz),              or the stopband has no width"@,
            ),
            NorthTickFault::CutoffBeyondNyquist { cutoff, nyquist, sample_rate } => error::with_three(
                "north_tick.highpass_cutoff is "@,
                cutoff,
                " Hz, at or above the "@,
                nyquist,
                " Hz Nyquist frequency for              a "@,
                sample_rate,
                " Hz sample rate; nothing would pass"@,
            ),
            NorthTickFault::CoastNegative { max_coast_ms } => error::with_one(
                "north_tick.max_coast_ms is "@,
                max_coast_ms,
                ", must be 0 or greater; 0 disables coasting"@,
            ),
            NorthTickFault::GateNegative { gate_sigma } => error::with_one(
                "north_tick.gate_sigma is "@,
                gate_sigma,
                ", must be 0 or greater"@,
            ),
        }
    }

    /// The message that names the setting, what it was, and what would fix
    /// it.
    pub fn template(&self) -> (t: Template)
        ensures
            t@ == self.layout(),
    {
        match *self {
            NorthTickFault::NotFinite { setting, value } => {
                let mut s: String = text::owned("north_tick.");
                s.append(setting.name());
                s.append(" must be a finite number, got ");
                Template::with_one(s.as_str(), value, "")
            },
            NorthTickFault::GainOutOfRange { gain_db } => Template::with_one(
                "north_tick.gain_db is ",
                gain_db,
                " dB, outside the supported -60 to 60; a gain this far              from unity usually means the wrong channel is being read",
            ),
            NorthTickFault::AmplitudeOutOfRange { amplitude } => Template::with_one(
                "north_tick.expected_pulse_amplitude is ",
                amplitude,
                ", must be within (0, 1]; it is the              pulse height in full-scale units after gain",
            ),
            NorthTickFault::FractionOutOfRange { fraction } => Template::with_one(
                "north_tick.threshold_fraction is ",
                fraction,
                ", must be within (0, 1); it is the fraction of the expected filtered pulse height a detection has to clear, and at 1 or above no pulse can ever cross it",
            ),
            NorthTickFault::TooFewTaps { length_us, sample_rate } => Template::with_two(
                "north_tick.fir_highpass_length_us is ",
                length_us,
                " us, which is fewer than 3 taps at a ",
                sample_rate,
                " Hz sample rate; lengthen the filter",
            ),
            NorthTickFault::TransitionNotPositive { transition_hz } => Template::with_one(
                "north_tick.highpass_transition_hz is ",
                transition_hz,
                ", must be greater than 0",
            ),
            NorthTickFault::CutoffInTransition { cutoff, transition_hz } => Template::with_two(
                "north_tick.highpass_cutoff (",
                cutoff,
                " Hz) must be above highpass_transition_hz (",
                transition_hz,
                " Hz),              or the stopband has no width",
            ),
            NorthTickFault::CutoffBeyondNyquist { cutoff, nyquist, sample_rate } => Template::with_three(
                "north_tick.highpass_cutoff is ",
                cutoff,
                " Hz, at or above the ",
                nyquist,
                " Hz Nyquist frequency for              a ",
                sample_rate,
                " Hz sample rate; nothing would pass",
            ),
            NorthTickFault::CoastNegative { max_coast_ms } => Template::with_one(
                "north_tick.max_coast_ms is ",
                max_coast_ms,
                ", must be 0 or greater; 0 disables coasting",
            ),
            NorthTickFault::GateNegative { gate_sigma } => Template::with_one(
                "north_tick.gate_sigma is ",
                gate_sigma,
                ", must be 0 or greater",
            ),
        }
    }
}

/// The number of taps that the length of the highpass asks for: an odd one.
pub open spec fn highpass_taps_spec(config: NorthTickConfig, sample_rate: Single) -> nat {
    fir_highpass::odd_taps_spec(
        config.fir_highpass_length_us.times_spec(constants::of(MILLIONTH)).times_spec(
            sample_rate,
        ).round_spec().to_count_spec(),
    )
}

/// Tap count for the highpass, derived from its length in time.
///
/// Forced odd so the filter stays Type I linear phase, which is what makes
/// its group delay an exact half-integer number of samples and therefore
/// exactly compensable.
pub fn highpass_taps(config: &NorthTickConfig, sample_rate: Single) -> (taps: usize)
    ensures
        taps == highpass_taps_spec(*config, sample_rate),
{
    let taps: usize = config.fir_highpass_length_us.times(Single::from_bits(MILLIONTH)).times(
        sample_rate,
    ).round().to_count();
    fir_highpass::odd_taps(taps)
}

/// The first thing that is wrong with a configuration, in the order in which
/// its settings are looked at.
pub open spec fn north_tick_fault(config: NorthTickConfig, sample_rate: Single) -> Option<
    NorthTickFault,
> {
    let zero = constants::of(0);
    let one = constants::of(single::ONE_BITS);
    let sixty = constants::of(SIXTY);
    let fraction = config.threshold_fraction_spec();
    let nyquist = sample_rate.over_spec(constants::of(math::TWO));
    if !config.gain_db.finite() {
        Some(NorthTickFault::NotFinite { setting: NorthSetting::GainDb, value: config.gain_db })
    } else if config.gain_db.lt_spec(sixty.neg_spec()) || sixty.lt_spec(config.gain_db) {
        Some(NorthTickFault::GainOutOfRange { gain_db: config.gain_db })
    } else if !config.expected_pulse_amplitude.finite() {
        Some(
            NorthTickFault::NotFinite {
                setting: NorthSetting::ExpectedPulseAmplitude,
                value: config.expected_pulse_amplitude,
            },
        )
    } else if config.expected_pulse_amplitude.le_spec(zero) || one.lt_spec(
        config.expected_pulse_amplitude,
    ) {
        Some(NorthTickFault::AmplitudeOutOfRange { amplitude: config.expected_pulse_amplitude })
    } else if !fraction.finite() {
        Some(
            NorthTickFault::NotFinite {
                setting: NorthSetting::ThresholdFraction,
                value: fraction,
            },
        )
    } else if fraction.le_spec(zero) || one.le_spec(fraction) {
        Some(NorthTickFault::FractionOutOfRange { fraction })
    } else if !config.fir_highpass_length_us.finite() {
        Some(
            NorthTickFault::NotFinite {
                setting: NorthSetting::FirHighpassLengthUs,
                value: config.fir_highpass_length_us,
            },
        )
    } else if highpass_taps_spec(config, sample_rate) < MIN_HIGHPASS_TAPS {
        Some(
            NorthTickFault::TooFewTaps { length_us: config.fir_highpass_length_us, sample_rate },
        )
    } else if !config.highpass_cutoff.finite() {
        Some(
            NorthTickFault::NotFinite {
                setting: NorthSetting::HighpassCutoff,
                value: config.highpass_cutoff,
            },
        )
    } else if !config.highpass_transition_hz.finite() {
        Some(
            NorthTickFault::NotFinite {
                setting: NorthSetting::HighpassTransitionHz,
                value: config.highpass_transition_hz,
            },
        )
    } else if config.highpass_transition_hz.le_spec(zero) {
        Some(
            NorthTickFault::TransitionNotPositive {
                transition_hz: config.highpass_transition_hz,
            },
        )
    } else if config.highpass_cutoff.le_spec(config.highpass_transition_hz) {
        Some(
            NorthTickFault::CutoffInTransition {
                cutoff: config.highpass_cutoff,
                transition_hz: config.highpass_transition_hz,
            },
        )
    } else if nyquist.le_spec(config.highpass_cutoff) {
        Some(
            NorthTickFault::CutoffBeyondNyquist {
                cutoff: config.highpass_cutoff,
                nyquist,
                sample_rate,
            },
        )
    } else if !config.max_coast_ms.finite() {
        Some(
            NorthTickFault::NotFinite {
                setting: NorthSetting::MaxCoastMs,
                value: config.max_coast_ms,
            },
        )
    } else if config.max_coast_ms.lt_spec(zero) {
        Some(NorthTickFault::CoastNegative { max_coast_ms: config.max_coast_ms })
    } else if !config.gate_sigma.finite() {
        Some(
            NorthTickFault::NotFinite {
                setting: NorthSetting::GateSigma,
                value: config.gate_sigma,
            },
        )
    } else if config.gate_sigma.lt_spec(zero) {
        Some(NorthTickFault::GateNegative { gate_sigma: config.gate_sigma })
    } else {
        None
    }
}

fn finite(setting: NorthSetting, value: Single) -> (r: Result<(), NorthTickFault>)
    ensures
        r == if value.finite() {
            Ok::<(), NorthTickFault>(())
        } else {
            Err(NorthTickFault::NotFinite { setting, value })
        },
{
    if value.is_finite() {
        Ok(())
    } else {
        Err(NorthTickFault::NotFinite { setting, value })
    }
}

/// Validate the settings both trackers share.
pub fn validate_north_tick_config(config: &NorthTickConfig, sample_rate: Single) -> (r: Result<
    (),
    NorthTickFault,
>)
    ensures
        match r {
            Ok(()) => north_tick_fault(*config, sample_rate) is None,
            Err(f) => north_tick_fault(*config, sample_rate) == Some(f),
        },
{
    let zero: Single = Single::zero();
    let one: Single = Single::one();
    let sixty: Single = Single::from_bits(SIXTY);

    finite(NorthSetting::GainDb, config.gain_db)?;
    if config.gain_db.less_than(sixty.negated()) || config.gain_db.above(sixty) {
        return Err(NorthTickFault::GainOutOfRange { gain_db: config.gain_db });
    }
    finite(NorthSetting::ExpectedPulseAmplitude, config.expected_pulse_amplitude)?;
    if config.expected_pulse_amplitude.at_most(zero) || config.expected_pulse_amplitude.above(
        one,
    ) {
        return Err(
            NorthTickFault::AmplitudeOutOfRange { amplitude: config.expected_pulse_amplitude },
        );
    }
    // The threshold is a fraction of the pulse height the detector expects,
    // so the only way to misconfigure it is to ask for a fraction that is not
    // one.
    let fraction: Single = config.resolved_threshold_fraction();
    finite(NorthSetting::ThresholdFraction, fraction)?;
    if fraction.at_most(zero) || fraction.at_least(one) {
        return Err(NorthTickFault::FractionOutOfRange { fraction });
    }
    finite(NorthSetting::FirHighpassLengthUs, config.fir_highpass_length_us)?;
    if highpass_taps(config, sample_rate) < MIN_HIGHPASS_TAPS {
        return Err(
            NorthTickFault::TooFewTaps { length_us: config.fir_highpass_length_us, sample_rate },
        );
    }
    finite(NorthSetting::HighpassCutoff, config.highpass_cutoff)?;
    finite(NorthSetting::HighpassTransitionHz, config.highpass_transition_hz)?;
    if config.highpass_transition_hz.at_most(zero) {
        return Err(
            NorthTickFault::TransitionNotPositive {
                transition_hz: config.highpass_transition_hz,
            },
        );
    }
    let nyquist: Single = sample_rate.over(Single::from_bits(math::TWO));
    if config.highpass_cutoff.at_most(config.highpass_transition_hz) {
        return Err(
            NorthTickFault::CutoffInTransition {
                cutoff: config.highpass_cutoff,
                transition_hz: config.highpass_transition_hz,
            },
        );
    }
    if config.highpass_cutoff.at_least(nyquist) {
        return Err(
            NorthTickFault::CutoffBeyondNyquist {
                cutoff: config.highpass_cutoff,
                nyquist,
                sample_rate,
            },
        );
    }
    finite(NorthSetting::MaxCoastMs, config.max_coast_ms)?;
    if config.max_coast_ms.less_than(zero) {
        return Err(NorthTickFault::CoastNegative { max_coast_ms: config.max_coast_ms });
    }
    finite(NorthSetting::GateSigma, config.gate_sigma)?;
    if config.gate_sigma.less_than(zero) {
        return Err(NorthTickFault::GateNegative { gate_sigma: config.gate_sigma });
    }
    Ok(())
}

/// Watches the north channel for the failure that reports nothing: a level
/// too low to cross the detection threshold.
///
/// Below that point detection does not degrade, it stops -- there are no
/// ticks, so no bearings, and no metric that would show a problem. So a
/// channel that falls through the threshold is worth saying so out loud.
pub struct QuietChannelWatch {
    samples_since_detection: usize,
    warn_after_samples: usize,
    warned: bool,
    report: ChannelReport,
}

/// What there is to say of the north channel after a buffer.
#[derive(Clone, Copy, Debug, PartialEq, Eq, Structural)]
pub struct ChannelReport {
    /// Pulses are detected again, after this many seconds
    pub again_after: Option<Single>,
    /// Pulses are detected, but the strongest one is this close to the
    /// threshold
    pub close_peak: Option<Single>,
    /// No pulses have been detected for this many seconds
    pub quiet_for: Option<Single>,
    /// The threshold that all this is about
    pub threshold: Single,
}

impl ChannelReport {
    /// Nothing to say.
    pub open spec fn nothing(threshold: Single) -> ChannelReport {
        ChannelReport { again_after: None, close_peak: None, quiet_for: None, threshold }
    }
}

/// The strongest of the peaks of a buffer, or zero.
pub open spec fn strongest_spec(peaks: Seq<(int, Single)>) -> Single
    decreases peaks.len(),
{
    if peaks.len() == 0 {
        constants::of(0)
    } else {
        strongest_spec(peaks.drop_last()).max_spec(peaks.last().1)
    }
}

/// The strongest of the peaks of a buffer, or zero.
pub fn strongest(peaks: &[(isize, Single)]) -> (s: Single)
    ensures
        s == strongest_spec(peak_detector::peak_list(peaks@)),
{
    let mut s: Single = Single::zero();
    let mut i: usize = 0;
    let ghost list = peak_detector::peak_list(peaks@);
    while i < peaks.len()
        invariant
            i <= peaks.len(),
            list == peak_detector::peak_list(peaks@),
            s == strongest_spec(list.take(i as int)),
        decreases peaks.len() - i,
    {
        assert(list.take(i + 1).drop_last() =~= list.take(i as int));
        s = s.max(peaks[i].1);
        i = i + 1;
    }
    assert(list.take(i as int) =~= list);
    s
}

/// What a watch holds.
pub ghost struct WatchState {
    pub since: nat,
    pub warn_after: nat,
    pub warned: bool,
    pub report: ChannelReport,
}

impl WatchState {
    /// The time without a detection in seconds.
    pub open spec fn seconds(self) -> Single {
        Single::from_integer_spec(self.since as int).over_spec(
            Single::from_integer_spec(
                if self.warn_after > 1 {
                    self.warn_after as int
                } else {
                    1
                },
            ),
        )
    }

    /// After a buffer with `count` detections up to `peak`, ahead of counting
    /// its samples. The margin measured on real captures is a factor of two or
    /// more, so that anything under one and a half is close.
    pub open spec fn noted(self, count: nat, peak: Single, threshold: Single) -> WatchState {
        let nothing = ChannelReport::nothing(threshold);
        if count == 0 {
            WatchState { report: nothing, ..self }
        } else {
            WatchState {
                since: 0,
                warned: false,
                report: ChannelReport {
                    again_after: if self.warned {
                        Some(self.seconds())
                    } else {
                        None
                    },
                    close_peak: if constants::of(0).lt_spec(peak) && peak.lt_spec(
                        threshold.times_spec(constants::of(CLOSE_MARGIN)),
                    ) {
                        Some(peak)
                    } else {
                        None
                    },
                    ..nothing
                },
                ..self
            }
        }
    }

    /// After this many samples. The count stops at the largest `usize`. A
    /// channel that falls quiet is reported once.
    pub open spec fn advanced(self, samples: nat) -> WatchState {
        let since = if self.since + samples <= usize::MAX {
            self.since + samples
        } else {
            usize::MAX as nat
        };
        let later = WatchState { since, ..self };
        if !self.warned && since >= self.warn_after {
            WatchState {
                warned: true,
                report: ChannelReport { quiet_for: Some(later.seconds()), ..self.report },
                ..later
            }
        } else {
            later
        }
    }

    /// The state after a buffer.
    pub open spec fn after_buffer(
        self,
        peaks: Seq<(int, Single)>,
        threshold: Single,
        samples: nat,
    ) -> WatchState {
        self.noted(peaks.len(), strongest_spec(peaks), threshold).advanced(samples)
    }

    /// A watch at the start.
    pub open spec fn starting(sample_rate: Single) -> WatchState {
        WatchState {
            since: 0,
            warn_after: sample_rate.max_spec(constants::of(single::ONE_BITS)).to_count_spec(),
            warned: false,
            report: ChannelReport::nothing(constants::of(0)),
        }
    }

    /// A channel is reported quiet when it falls quiet, and not again before
    /// a pulse has been detected; then it is reported to be back.
    pub proof fn reports_alternate(
        self,
        peaks: Seq<(int, Single)>,
        threshold: Single,
        samples: nat,
    )
        ensures
            ({
                let after = self.after_buffer(peaks, threshold, samples);
                &&& self.warned && peaks.len() == 0 ==> after.warned
                    && after.report.quiet_for is None && after.report.again_after is None
                &&& self.warned && peaks.len() > 0 ==> after.report.again_after is Some
                &&& !self.warned ==> after.report.again_after is None && (
                after.report.quiet_for is Some <==> after.warned)
            }),
    {
    }

    /// A channel is reported quiet only after a full interval without a
    /// detection, and is no longer quiet once there is one.
    pub proof fn quiet_means_no_detection(
        self,
        count: nat,
        peak: Single,
        threshold: Single,
        samples: nat,
    )
        requires
            count > 0,
            samples < self.warn_after,
            self.warn_after <= usize::MAX,
        ensures
            !self.noted(count, peak, threshold).advanced(samples).warned,
    {
    }
}

impl View for QuietChannelWatch {
    type V = WatchState;

    closed spec fn view(&self) -> WatchState {
        WatchState {
            since: self.samples_since_detection as nat,
            warn_after: self.warn_after_samples as nat,
            warned: self.warned,
            report: self.report,
        }
    }
}

impl QuietChannelWatch {
    /// Roughly a second of rotations before complaining, so a dropout the
    /// tracker is coasting through does not trip it.
    pub fn new(sample_rate: Single) -> (w: QuietChannelWatch)
        ensures
            w@ == WatchState::starting(sample_rate),
    {
        QuietChannelWatch {
            samples_since_detection: 0,
            warn_after_samples: sample_rate.max(Single::one()).to_count(),
            warned: false,
            report: ChannelReport {
                again_after: None,
                close_peak: None,
                quiet_for: None,
                threshold: Single::zero(),
            },
        }
    }

    /// Whether the channel has been silent long enough to have complained
    /// about it.
    pub fn is_quiet(&self) -> (b: bool)
        ensures
            b == self@.warned,
    {
        self.warned
    }

    /// Samples since a pulse was last detected.
    pub fn samples_since_detection(&self) -> (n: usize)
        ensures
            n == self@.since,
    {
        self.samples_since_detection
    }

    /// What there is to say after the last buffer.
    pub fn report(&self) -> (r: ChannelReport)
        ensures
            r == self@.report,
    {
        self.report
    }

    fn seconds(&self) -> (s: Single)
        ensures
            s == self@.seconds(),
    {
        let second: usize = if self.warn_after_samples > 1 {
            self.warn_after_samples
        } else {
            1
        };
        Single::from_count(self.samples_since_detection).over(Single::from_count(second))
    }

    /// Note how many pulses a buffer held, and how strong the strongest was.
    pub fn note_detections(&mut self, count: usize, peak_amplitude: Single, threshold: Single)
        ensures
            final(self)@ == old(self)@.noted(count as nat, peak_amplitude, threshold),
    {
        self.report =
        ChannelReport { again_after: None, close_peak: None, quiet_for: None, threshold };
        if count == 0 {
            return;
        }
        if self.warned {
            self.report.again_after = Some(self.seconds());
        }
        self.samples_since_detection = 0;
        self.warned = false;
        // Detected, but only just: worth flagging before it disappears
        // entirely.
        if peak_amplitude.above(Single::zero()) && peak_amplitude.less_than(
            threshold.times(Single::from_bits(CLOSE_MARGIN)),
        ) {
            self.report.close_peak = Some(peak_amplitude);
        }
    }

    /// Note how many samples a buffer held.
    pub fn advance(&mut self, samples: usize)
        ensures
            final(self)@ == old(self)@.advanced(samples as nat),
    {
        self.samples_since_detection = if samples <= usize::MAX - self.samples_since_detection {
            self.samples_since_detection + samples
        } else {
            usize::MAX
        };
        if !self.warned && self.samples_since_detection >= self.warn_after_samples {
            self.report.quiet_for = Some(self.seconds());
            self.warned = true;
        }
    }
}

/// Half-width of the estimator window in samples, see `centroid_half_width`.
pub open spec fn half_width_spec(
    estimator: NorthPulseEstimator,
    sample_rate: Single,
    nominal_period_samples: Single,
) -> nat {
    if estimator.exponent() == 0 {
        0
    } else {
        let ceiling = nominal_period_samples.times_spec(
            constants::of(MAX_CENTROID_HALF_WIDTH_FRACTION),
        ).max_spec(constants::of(math::TWO)).to_count_spec();
        let samples = estimator.half_width_us().times_spec(constants::of(MILLIONTH)).times_spec(
            sample_rate,
        ).round_spec().to_count_spec();
        if samples < 1 {
            1
        } else if samples > ceiling {
            ceiling
        } else {
            samples
        }
    }
}

/// Half-width of the window the estimator takes its moment over, in samples.
///
/// Expressed in time by the estimator and converted here, so it means the
/// same thing at any sample rate, and bounded well inside one rotation so the
/// window can never reach a neighbouring pulse.
pub fn centroid_half_width(
    estimator: NorthPulseEstimator,
    sample_rate: Single,
    nominal_period_samples: Single,
) -> (n: usize)
    ensures
        n == half_width_spec(estimator, sample_rate, nominal_period_samples),
{
    if estimator.weight_exponent() == 0 {
        return 0;
    }
    let ceiling: usize = nominal_period_samples.times(
        Single::from_bits(MAX_CENTROID_HALF_WIDTH_FRACTION),
    ).max(Single::from_bits(math::TWO)).to_count();
    let samples: usize = estimator.window_half_width_us().times(
        Single::from_bits(MILLIONTH),
    ).times(sample_rate).round().to_count();
    if samples < 1 {
        1
    } else if samples > ceiling {
        ceiling
    } else {
        samples
    }
}

/// The sample at an index relative to the start of `buffer`; `tail` holds the
/// samples that precede it.
pub open spec fn sample_at_spec(
    tail: Seq<Single>,
    buffer: Seq<Single>,
    index: int,
) -> Option<Single> {
    if 0 <= index < buffer.len() {
        Some(buffer[index])
    } else if -(tail.len() as int) <= index < 0 {
        Some(tail[tail.len() + index])
    } else {
        None
    }
}

fn sample_at(tail: &[Single], buffer: &[Single], index: i128) -> (s: Option<Single>)
    ensures
        s == sample_at_spec(tail@, buffer@, index as int),
        s is Some ==> -(usize::MAX as int) <= index < usize::MAX,
{
    if index >= 0 {
        if index < buffer.len() as i128 {
            Some(buffer[index as usize])
        } else {
            None
        }
    } else if index >= -(tail.len() as i128) {
        Some(tail[(tail.len() as i128 + index) as usize])
    } else {
        None
    }
}

/// The weight of a sample in the moment that an estimator takes.
pub open spec fn weight_spec(estimator: NorthPulseEstimator, sample: Single) -> Double {
    let value = Double::from_single_spec(
        if estimator.exponent() % 2 == 1 {
            sample.max_spec(constants::of(0))
        } else {
            sample.abs_spec()
        },
    );
    if estimator.exponent() == 1 {
        value
    } else {
        value.times_spec(value)
    }
}

/// The first moment and the total of the weights of `k` samples from `low`
/// on.
pub open spec fn moment_spec(
    tail: Seq<Single>,
    buffer: Seq<Single>,
    estimator: NorthPulseEstimator,
    low: int,
    k: int,
) -> (Double, Double)
    decreases k,
{
    if k <= 0 {
        (Double { bits: 0 }, Double { bits: 0 })
    } else {
        let before = moment_spec(tail, buffer, estimator, low, k - 1);
        let index = low + k - 1;
        let weight = weight_spec(estimator, sample_at_spec(tail, buffer, index)->0);
        (
            before.0.plus_spec(weight.times_spec(Double::from_integer_spec(index))),
            before.1.plus_spec(weight),
        )
    }
}

/// Whether every sample of a window is there.
pub open spec fn window_filled(
    tail: Seq<Single>,
    buffer: Seq<Single>,
    low: int,
    high: int,
) -> bool {
    forall|i: int| low <= i <= high ==> (#[trigger] sample_at_spec(tail, buffer, i)) is Some
}

/// Sub-sample arrival time of a pulse relative to its peak, see
/// `estimate_fraction`.
pub open spec fn fraction_spec(
    tail: Seq<Single>,
    buffer: Seq<Single>,
    peak_index: int,
    estimator: NorthPulseEstimator,
    half_width: int,
) -> Single {
    if estimator.exponent() == 0 || !window_filled(
        tail,
        buffer,
        peak_index - half_width,
        peak_index + half_width,
    ) {
        constants::of(0)
    } else {
        let (weighted, total) = moment_spec(
            tail,
            buffer,
            estimator,
            peak_index - half_width,
            2 * half_width + 1,
        );
        if (Double { bits: 0 }).lt_spec(total) {
            weighted.over_spec(total).minus_spec(
                Double::from_integer_spec(peak_index),
            ).to_single_spec()
        } else {
            constants::of(0)
        }
    }
}

/// Sub-sample arrival time of a pulse, relative to `peak_index`.
///
/// `tail` holds the filtered samples immediately preceding `buffer`, so a
/// peak resolved across a buffer boundary -- which the detector reports at a
/// negative index -- still has a symmetric window. Indices are relative to
/// the start of `buffer`.
///
/// The window is expected to be fillable: the detector holds a crossing until
/// the samples after its peak exist, and the retained tail covers the samples
/// before. Where it is not, the estimate is zero.
pub fn estimate_fraction(
    tail: &[Single],
    buffer: &[Single],
    peak_index: isize,
    estimator: NorthPulseEstimator,
    half_width: usize,
) -> (fraction: Single)
    ensures
        fraction == fraction_spec(
            tail@,
            buffer@,
            peak_index as int,
            estimator,
            half_width as int,
        ),
{
    let exponent: i32 = estimator.weight_exponent();
    if exponent == 0 {
        return Single::zero();
    }
    let clip: bool = estimator.clips_negative();
    let half: i128 = half_width as i128;
    let low: i128 = peak_index as i128 - half;
    let high: i128 = peak_index as i128 + half;
    let mut weighted: Double = Double::zero();
    let mut total: Double = Double::zero();
    let mut index: i128 = low;
    while index <= high
        invariant
            exponent == estimator.exponent(),
            exponent == 1 || exponent == 2,
            clip == (exponent % 2 == 1),
            half == half_width,
            low == peak_index - half,
            high == peak_index + half,
            high < i128::MAX,
            low <= index <= high + 1,
            forall|i: int|
                low <= i < index ==> (#[trigger] sample_at_spec(tail@, buffer@, i)) is Some,
            (weighted, total) == moment_spec(
                tail@,
                buffer@,
                estimator,
                low as int,
                index - low,
            ),
        decreases high + 1 - index,
    {
        let sample: Single = match sample_at(tail, buffer, index) {
            Some(s) => s,
            None => {
                assert(sample_at_spec(tail@, buffer@, index as int) is None);
                return Single::zero();
            },
        };
        let value: Double = Double::from_single(
            if clip {
                sample.max(Single::zero())
            } else {
                sample.abs()
            },
        );
        let weight: Double = if exponent == 1 {
            value
        } else {
            value.times(value)
        };
        weighted = weighted.plus(weight.times(Double::from_index(index)));
        total = total.plus(weight);
        index = index + 1;
    }
    if Double::zero().less_than(total) {
        weighted.over(total).minus(Double::from_index(peak_index as i128)).to_single()
    } else {
        Single::zero()
    }
}

/// The newest `len` samples of a signal, or all of it where it is shorter.
pub open spec fn newest(s: Seq<Single>, len: int) -> Seq<Single> {
    if s.len() <= len {
        s
    } else {
        s.skip(s.len() - len)
    }
}

/// Retain the trailing filtered samples a later buffer needs to complete an
/// estimator window that straddles the boundary: of everything so far, the
/// newest `len` samples.
pub fn retain_tail(tail: &mut Vec<Single>, buffer: &[Single], len: usize)
    ensures
        final(tail)@ == newest(old(tail)@ + buffer@, len as int),
{
    let n: usize = buffer.len();
    let old_len: usize = tail.len();
    let ghost all = tail@ + buffer@;
    // How many of the old samples stay.
    let keep: usize = if n >= len {
        0
    } else if old_len < len - n {
        old_len
    } else {
        len - n
    };
    // How many of the new samples join.
    let join: usize = if n < len {
        n
    } else {
        len
    };
    let mut kept: Vec<Single> = Vec::new();
    let mut i: usize = 0;
    while i < keep
        invariant
            i <= keep <= old_len,
            old_len == tail.len(),
            tail@ == old(tail)@,
            kept@ == tail@.subrange(old_len - keep, old_len - keep + i),
        decreases keep - i,
    {
        kept.push(tail[old_len - keep + i]);
        i = i + 1;
        assert(kept@ =~= tail@.subrange(old_len - keep, old_len - keep + i));
    }
    let mut i: usize = 0;
    while i < join
        invariant
            i <= join <= n,
            n == buffer.len(),
            keep <= old_len,
            kept@ == old(tail)@.subrange(old_len - keep, old_len as int) + buffer@.subrange(
                n - join,
                n - join + i,
            ),
        decreases join - i,
    {
        kept.push(buffer[n - join + i]);
        i = i + 1;
        assert(kept@ =~= old(tail)@.subrange(old_len - keep, old_len as int) + buffer@.subrange(
            n - join,
            n - join + i,
        ));
    }
    assert(kept@ =~= newest(all, len as int));
    *tail = kept;
}

/// Keeping the newest samples buffer by buffer keeps the newest samples of
/// the whole signal.
pub proof fn newest_of_newest(a: Seq<Single>, b: Seq<Single>, len: int)
    requires
        len >= 0,
    ensures
        newest(newest(a, len) + b, len) == newest(a + b, len),
{
    assert(newest(newest(a, len) + b, len) =~= newest(a + b, len));
}

/// How much later than the pulse the detector reports it.
#[derive(Clone, Copy, Debug, PartialEq, Eq, Structural)]
pub struct DelayCompensation {
    pub delay_samples: usize,
    pub fractional_sample_offset: Single,
}

/// The threshold that a fraction of the expected pulse height stands for.
pub open spec fn detection_threshold_spec(
    threshold_fraction: Single,
    effective_pulse_amplitude: Single,
    peak_response: Single,
) -> Single {
    threshold_fraction.times_spec(effective_pulse_amplitude).times_spec(peak_response)
}

/// The margin of the threshold against the pulse that is expected is the
/// configured fraction whatever the gain is, but for two roundings: the
/// threshold is that fraction of the pulse height to one part in `2^23`, and a
/// trace more. The fraction, the height of the pulse and the response of the
/// filter lie between `2^-40` and `2^40`.
pub proof fn margin_is_the_fraction(
    threshold_fraction: Single,
    effective_pulse_amplitude: Single,
    peak_response: Single,
)
    requires
        single_laws::between(threshold_fraction, 109, 189),
        single_laws::between(effective_pulse_amplitude, 109, 189),
        single_laws::between(peak_response, 109, 189),
    ensures
        ({
            let h = single::HIDDEN as int;
            let u = power2::pow2(single::UNIT as nat) as int;
            let pulse = effective_pulse_amplitude.value() * peak_response.value();
            let threshold = detection_threshold_spec(
                threshold_fraction,
                effective_pulse_amplitude,
                peak_response,
            ).value() * u * u;
            let wanted = threshold_fraction.value() * pulse;
            &&& 4 * h * h * (threshold - wanted) <= (4 * h + 1) * threshold
            &&& 4 * h * h * (wanted - threshold) <= (4 * h + 1) * threshold
        }),
{
    power2::lemma_pow2_pos(109);
    single_laws::product_between(
        threshold_fraction,
        effective_pulse_amplitude,
        109,
        189,
        109,
        189,
    );
    single_laws::product_between(
        threshold_fraction.times_spec(effective_pulse_amplitude),
        peak_response,
        69,
        229,
        109,
        189,
    );
    single_laws::product_of_three_is_close(
        threshold_fraction,
        effective_pulse_amplitude,
        peak_response,
    );
    let (f, a, p) = (
        threshold_fraction.value(),
        effective_pulse_amplitude.value(),
        peak_response.value(),
    );
    assert(f * (a * p) == f * a * p) by (nonlinear_arith);
}

/// Absolute detection threshold, from the fraction the configuration carries.
///
/// The detector runs on the highpassed signal, where the pulse peaks at the
/// expected amplitude times the filter's peak response, so that product is
/// what the fraction is of. `effective_pulse_amplitude` is the expected
/// amplitude the tracker actually presents to the filter: the configured one
/// when the AGC is driving the level to it, and that times the static gain
/// when it is not.
pub fn detection_threshold(
    threshold_fraction: Single,
    effective_pulse_amplitude: Single,
    highpass: &FirHighpass,
) -> (threshold: Single)
    requires
        highpass.wf(),
    ensures
        threshold == detection_threshold_spec(
            threshold_fraction,
            effective_pulse_amplitude,
            highpass.peak_response_spec(),
        ),
{
    threshold_fraction.times(effective_pulse_amplitude).times(highpass.peak_response())
}

/// How the detector and the estimator see a pulse.
#[derive(Clone, Copy, Debug, PartialEq, Eq, Structural)]
pub struct PeakTiming {
    /// Offset from group delay to the point the estimator reports for an
    /// impulse arriving exactly on a sample.
    pub pulse_reference_offset: Single,
    pub peak_search_window_samples: usize,
}

/// The coefficients of a filter as the samples of its impulse response.
pub open spec fn impulse_response(taps: Seq<Double>) -> Seq<Single> {
    taps.map_values(|t: Double| t.to_single_spec())
}

/// See `derive_peak_timing`.
pub open spec fn peak_timing_spec(
    highpass: FirHighpass,
    threshold: Single,
    effective_pulse_amplitude: Single,
    estimator: NorthPulseEstimator,
    half_width: int,
) -> PeakTiming {
    let peak_offset = highpass.peak_offset_spec();
    let crossing = highpass.crossing_offset_spec(threshold, effective_pulse_amplitude);
    let search = peak_offset.minus_spec(crossing).max_spec(constants::of(0)).ceil_count_spec();
    PeakTiming {
        pulse_reference_offset: if estimator.exponent() == 0 {
            peak_offset
        } else {
            peak_offset.plus_spec(
                fraction_spec(
                    Seq::empty(),
                    impulse_response(highpass.coefficients()),
                    highpass.peak_index(),
                    estimator,
                    half_width,
                ),
            )
        },
        peak_search_window_samples: if search <= usize::MAX - 3 {
            (search + 3) as usize
        } else {
            usize::MAX
        },
    }
}

/// How far behind a threshold crossing the peak is to be searched for, and
/// which point of a pulse the tick time refers to.
///
/// Each estimator reports a different point on the same filtered pulse.
/// Referencing the delay compensation to that point keeps the emitted tick
/// time -- and any north-offset calibration against it -- unchanged when
/// the estimator changes.
pub fn derive_peak_timing(
    highpass: &FirHighpass,
    threshold: Single,
    effective_pulse_amplitude: Single,
    estimator: NorthPulseEstimator,
    centroid_half_width: usize,
) -> (timing: PeakTiming)
    requires
        highpass.wf(),
        highpass.coefficients().len() <= isize::MAX,
    ensures
        timing == peak_timing_spec(
            *highpass,
            threshold,
            effective_pulse_amplitude,
            estimator,
            centroid_half_width as int,
        ),
{
    let threshold_crossing_offset: Single = highpass.threshold_crossing_offset(
        threshold,
        effective_pulse_amplitude,
    );
    let peak_offset: Single = highpass.peak_offset();
    let search: usize = peak_offset.minus(threshold_crossing_offset).max(
        Single::zero(),
    ).ceil_count();
    let peak_search_window_samples: usize = if search <= usize::MAX - 3 {
        search + 3
    } else {
        usize::MAX
    };
    let pulse_reference_offset: Single = if estimator.weight_exponent() == 0 {
        peak_offset
    } else {
        let response: Vec<Single> = highpass.impulse_response();
        let none: Vec<Single> = Vec::new();
        let peak: usize = highpass.peak_tap();
        assert(none@ =~= Seq::empty());
        assert(response@ =~= impulse_response(highpass.coefficients()));
        peak_offset.plus(
            estimate_fraction(
                none.as_slice(),
                response.as_slice(),
                peak as isize,
                estimator,
                centroid_half_width,
            ),
        )
    };
    PeakTiming { pulse_reference_offset, peak_search_window_samples }
}

/// See `derive_delay_compensation`.
pub open spec fn delay_compensation_spec(
    group_delay: int,
    pulse_peak_offset: Single,
) -> DelayCompensation {
    let total = Single::from_integer_spec(group_delay).plus_spec(pulse_peak_offset);
    let delay = total.round_spec().max_spec(constants::of(0)).to_count_spec();
    DelayCompensation {
        delay_samples: delay as usize,
        fractional_sample_offset: Single::from_integer_spec(delay as int).minus_spec(total),
    }
}

/// The delay of the filter and of the reported point of the pulse, in whole
/// samples and the rest.
pub fn derive_delay_compensation(
    highpass: &FirHighpass,
    pulse_peak_offset: Single,
) -> (d: DelayCompensation)
    requires
        highpass.wf(),
    ensures
        d == delay_compensation_spec(highpass.group_delay(), pulse_peak_offset),
{
    let total_delay: Single = Single::from_count(highpass.group_delay_samples()).plus(
        pulse_peak_offset,
    );
    let delay_samples: usize = total_delay.round().max(Single::zero()).to_count();
    DelayCompensation {
        delay_samples,
        fractional_sample_offset: Single::from_count(delay_samples).minus(total_delay),
    }
}

/// See `split_effective_time`.
pub open spec fn effective_time_spec(base_sample: int, offset: Single) -> (int, Single) {
    if !offset.finite() {
        (base_sample, constants::of(0))
    } else {
        let index = base_sample + offset.round_to_i64_spec();
        (
            if index < 0 {
                0
            } else if index > usize::MAX {
                usize::MAX as int
            } else {
                index
            },
            offset.minus_spec(offset.round_spec()),
        )
    }
}

/// Re-anchor an effective tick time onto the nearest sample index.
///
/// Callers accumulate corrections against a whole-sample base; once the total
/// exceeds half a sample the nearest index is a different one. Splitting here
/// keeps the reported fraction inside half a sample, so consumers never have
/// to reason about an offset that points past a neighbouring sample.
pub fn split_effective_time(base_sample: usize, offset: Single) -> (r: (usize, Single))
    ensures
        r.0 == effective_time_spec(base_sample as int, offset).0,
        r.1 == effective_time_spec(base_sample as int, offset).1,
{
    if !offset.is_finite() {
        return (base_sample, Single::zero());
    }
    let whole: Single = offset.round();
    let index: i128 = base_sample as i128 + offset.round_to_i64() as i128;
    let index: usize = if index < 0 {
        0
    } else if index > usize::MAX as i128 {
        usize::MAX
    } else {
        index as usize
    };
    (index, offset.minus(whole))
}

/// A buffer with a gain applied to it.
pub open spec fn amplified(input: Seq<Single>, gain: Single) -> Seq<Single> {
    if gain.same_value(constants::of(single::ONE_BITS)) {
        input
    } else {
        input.map_values(|s: Single| s.times_spec(gain))
    }
}

/// The north channel as the detector sees it: amplified and highpassed.
pub fn preprocess_north_buffer(
    input: &[Single],
    gain: Single,
    highpass: &mut FirHighpass,
) -> (filtered: Vec<Single>)
    requires
        old(highpass).wf(),
    ensures
        final(highpass).wf(),
        final(highpass).coefficients() == old(highpass).coefficients(),
        final(highpass).history() == fir_core::history_after(
            old(highpass).history(),
            amplified(input@, gain),
            input@.len() as int,
        ),
        filtered@ == fir_core::filtered(
            old(highpass).coefficients(),
            old(highpass).history(),
            amplified(input@, gain),
        ),
{
    let unity: bool = gain.equals(Single::one());
    let mut buffer: Vec<Single> = Vec::new();
    let mut i: usize = 0;
    while i < input.len()
        invariant
            i <= input.len(),
            unity == gain.same_value(constants::of(single::ONE_BITS)),
            buffer.len() == i,
            forall|k: int|
                0 <= k < i ==> #[trigger] buffer@[k] == if unity {
                    input@[k]
                } else {
                    input@[k].times_spec(gain)
                },
        decreases input.len() - i,
    {
        buffer.push(
            if unity {
                input[i]
            } else {
                input[i].times(gain)
            },
        );
        i = i + 1;
    }
    assert(buffer@ =~= amplified(input@, gain));
    highpass.process_buffer(&mut buffer);
    buffer
}

} // verus!
