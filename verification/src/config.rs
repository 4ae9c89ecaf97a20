//! Configuration for the Rotary Club RDF system.
//!
//! ## Channel Assignment
//!
//! To change which audio channel is used for what, set the `doppler_channel`
//! and `north_tick_channel` fields of `AudioConfig`.
use crate::constants;
use crate::single::Single;
use crate::text;
use vstd::prelude::*;

verus! {

/// Rotation frequency specification
///
/// Can be specified as either a frequency in Hz or a period in microseconds.
/// Useful when the exact period is known but the frequency is a repeating decimal.
///
/// # Parsing formats
/// - `1602.564` - frequency in Hz (no suffix)
/// - `1602.564hz` or `1602.564Hz` - frequency in Hz (explicit)
/// - `624us` or `624μs` - period in microseconds
#[derive(Debug, Clone, Copy, PartialEq, Eq, Structural)]
pub struct RotationFrequency {
    hz: Single,
}

/// One million.
pub const MICROSECONDS_PER_SECOND: u32 = 0x4974_2400;

/// The default rotation period: 624 microseconds.
pub const DEFAULT_INTERVAL_US: u32 = 0x441c_0000;

/// What a rotation text gives: a period or a frequency.
#[derive(Debug, Clone, Copy, PartialEq, Eq, Structural)]
pub enum RotationUnit {
    Microseconds,
    Hertz,
}

/// The unit of a trimmed rotation text.
pub open spec fn rotation_unit(s: Seq<char>) -> RotationUnit {
    if text::ends_with(s, "us"@) || text::ends_with(s, "μs"@) {
        RotationUnit::Microseconds
    } else {
        RotationUnit::Hertz
    }
}

/// The number in a trimmed rotation text: what stands ahead of the unit,
/// which a frequency may leave out.
pub open spec fn rotation_number(s: Seq<char>) -> Seq<char> {
    if text::ends_with(s, "us"@) || text::ends_with(s, "μs"@) || text::ends_with(s, "hz"@)
        || text::ends_with(s, "Hz"@) || text::ends_with(s, "HZ"@) {
        text::trimmed(s.take(s.len() - 2))
    } else {
        text::trimmed(s)
    }
}

/// The rotation that a number stands for, or the reason why it stands for
/// none. `number` is what the text of the number reads as.
pub open spec fn rotation_of(s: Seq<char>, number: Option<Single>) -> Result<
    RotationFrequency,
    Seq<char>,
> {
    let zero = Single { bits: 0 };
    match (rotation_unit(s), number) {
        (RotationUnit::Microseconds, None) => Err("invalid interval: "@ + s),
        (RotationUnit::Hertz, None) => Err("invalid frequency: "@ + s),
        (RotationUnit::Microseconds, Some(x)) => if x.finite() && zero.lt_spec(x) {
            Ok(RotationFrequency::interval_spec(x))
        } else {
            Err("interval must be a positive, finite number"@)
        },
        (RotationUnit::Hertz, Some(x)) => if x.finite() && zero.lt_spec(x) {
            Ok(RotationFrequency::hz_spec(x))
        } else {
            Err("frequency must be a positive, finite number"@)
        },
    }
}

impl RotationFrequency {
    pub closed spec fn frequency(self) -> Single {
        self.hz
    }

    pub closed spec fn hz_spec(hz: Single) -> RotationFrequency {
        RotationFrequency { hz }
    }

    pub open spec fn interval_spec(us: Single) -> RotationFrequency {
        Self::hz_spec(constants::of(MICROSECONDS_PER_SECOND).over_spec(us))
    }

    /// A rotation has the frequency that it was made with.
    pub proof fn frequency_reads_back(hz: Single)
        ensures
            Self::hz_spec(hz).frequency() == hz,
    {
    }

    /// Create from frequency in Hz
    pub fn from_hz(hz: Single) -> (r: RotationFrequency)
        ensures
            r == Self::hz_spec(hz),
            r.frequency() == hz,
    {
        RotationFrequency { hz }
    }

    /// Create from period in microseconds
    pub fn from_interval_us(us: Single) -> (r: RotationFrequency)
        ensures
            r == Self::interval_spec(us),
            r.frequency() == constants::of(MICROSECONDS_PER_SECOND).over_spec(us),
    {
        RotationFrequency { hz: Single::from_bits(MICROSECONDS_PER_SECOND).over(us) }
    }

    /// Get frequency in Hz
    pub fn as_hz(&self) -> (hz: Single)
        ensures
            hz == self.frequency(),
    {
        self.hz
    }

    /// Get period in microseconds
    pub fn as_interval_us(&self) -> (us: Single)
        ensures
            us == constants::of(MICROSECONDS_PER_SECOND).over_spec(self.frequency()),
    {
        Single::from_bits(MICROSECONDS_PER_SECOND).over(self.hz)
    }

    /// The frequency in Hz with three decimals and its unit.
    pub fn display(&self) -> (s: String)
        ensures
            s@ == text::fixed_text(self.frequency(), 3) + "hz"@,
    {
        let mut s: String = String::new();
        text::push_fixed(&mut s, self.hz, 3);
        s.append("hz");
        assert(s@ =~= text::fixed_text(self.frequency(), 3) + "hz"@);
        s
    }

    /// Takes a rotation text apart: its unit, and the text of its number.
    pub fn split_text(s: &str) -> (r: (RotationUnit, String))
        ensures
            r.0 == rotation_unit(text::trimmed(s@)),
            r.1@ == rotation_number(text::trimmed(s@)),
    {
        let s: &str = text::trim(s);
        proof {
            reveal_strlit("us");
            reveal_strlit("μs");
            reveal_strlit("hz");
            reveal_strlit("Hz");
            reveal_strlit("HZ");
        }
        if let Some(number) = text::strip_suffix(s, "us") {
            return (RotationUnit::Microseconds, text::owned(text::trim(number)));
        }
        if let Some(number) = text::strip_suffix(s, "μs") {
            return (RotationUnit::Microseconds, text::owned(text::trim(number)));
        }
        if let Some(number) = text::strip_suffix(s, "hz") {
            return (RotationUnit::Hertz, text::owned(text::trim(number)));
        }
        if let Some(number) = text::strip_suffix(s, "Hz") {
            return (RotationUnit::Hertz, text::owned(text::trim(number)));
        }
        if let Some(number) = text::strip_suffix(s, "HZ") {
            return (RotationUnit::Hertz, text::owned(text::trim(number)));
        }
        (RotationUnit::Hertz, text::owned(text::trim(s)))
    }

    /// The rotation that a text stands for, given what the number in it (see
    /// `split_text`) reads as.
    pub fn from_text(s: &str, number: Option<Single>) -> (r: Result<RotationFrequency, String>)
        ensures
            match (r, rotation_of(text::trimmed(s@), number)) {
                (Ok(f), Ok(g)) => f == g,
                (Err(e), Err(m)) => e@ == m,
                _ => false,
            },
    {
        let (unit, _) = Self::split_text(s);
        let trimmed: &str = text::trim(s);
        match number {
            None => {
                let mut message: String = match unit {
                    RotationUnit::Microseconds => text::owned("invalid interval: "),
                    RotationUnit::Hertz => text::owned("invalid frequency: "),
                };
                message.append(trimmed);
                Err(message)
            },
            Some(x) => {
                let usable: bool = x.is_finite() && x.above(Single::zero());
                match unit {
                    RotationUnit::Microseconds => if usable {
                        Ok(Self::from_interval_us(x))
                    } else {
                        Err(text::owned("interval must be a positive, finite number"))
                    },
                    RotationUnit::Hertz => if usable {
                        Ok(Self::from_hz(x))
                    } else {
                        Err(text::owned("frequency must be a positive, finite number"))
                    },
                }
            },
        }
    }
}

impl Default for RotationFrequency {
    /// 624 μs period = 1602.5641025641... Hz
    fn default() -> (r: RotationFrequency)
        ensures
            r == RotationFrequency::interval_spec(constants::of(DEFAULT_INTERVAL_US)),
    {
        RotationFrequency::from_interval_us(Single::from_bits(DEFAULT_INTERVAL_US))
    }
}

/// Channel assignment for stereo input
///
/// Specifies which physical audio channel carries which signal type.
#[derive(Debug, Clone, Copy, PartialEq, Eq, Structural)]
pub enum ChannelRole {
    /// Left channel (index 0 in interleaved stereo)
    Left,
    /// Right channel (index 1 in interleaved stereo)
    Right,
}

/// Bearing calculation method
///
/// Both methods achieve sub-degree accuracy (<1°) on clean signals.
#[derive(Debug, Clone, Copy, PartialEq, Eq, Structural)]
pub enum BearingMethod {
    /// Zero-crossing detection with sub-sample interpolation (lower CPU)
    ZeroCrossing,
    /// I/Q correlation demodulation (more noise-robust)
    Correlation,
}

/// North reference tracking mode
#[derive(Debug, Clone, Copy, PartialEq, Eq, Structural)]
pub enum NorthTrackingMode {
    /// Simple exponential smoothing of rotation period
    Simple,
    /// Digital phase-locked loop (DPLL) for robust tracking
    Dpll,
}

/// Sub-sample estimator for the reference pulse arrival time
///
/// The two centroids are the same first moment differing only in how the
/// weight is spread across the pulse. Amplitude weighting gives the skirts
/// more say, which suits a narrow pulse whose neighbours carry the
/// interpolation; energy weighting concentrates on the peak, which suits a
/// wider pulse with skirts worth down-weighting.
#[derive(Debug, Clone, Copy, PartialEq, Eq, Structural)]
pub enum NorthPulseEstimator {
    /// Index of the largest filtered sample, quantized to whole samples
    HardLimiter,
    /// First moment weighted by sample value
    AmplitudeCentroid,
    /// First moment weighted by sample value squared
    EnergyCentroid,
}

impl NorthPulseEstimator {
    pub open spec fn exponent(self) -> int {
        match self {
            NorthPulseEstimator::HardLimiter => 0,
            NorthPulseEstimator::AmplitudeCentroid => 1,
            NorthPulseEstimator::EnergyCentroid => 2,
        }
    }

    /// Exponent the sample value is raised to when weighting the first
    /// moment. Zero marks an estimator that takes no moment at all.
    pub fn weight_exponent(self) -> (e: i32)
        ensures
            e == self.exponent(),
    {
        match self {
            NorthPulseEstimator::HardLimiter => 0,
            NorthPulseEstimator::AmplitudeCentroid => 1,
            NorthPulseEstimator::EnergyCentroid => 2,
        }
    }

    /// Whether the negative part of the filtered pulse is discarded before
    /// weighting: so for the odd moment, and not for the even one, which is
    /// what measures best for each.
    pub fn clips_negative(self) -> (b: bool)
        ensures
            b == (self.exponent() % 2 == 1),
    {
        self.weight_exponent() % 2 == 1
    }

    pub open spec fn half_width_us(self) -> Single {
        match self {
            NorthPulseEstimator::HardLimiter => constants::of(0),
            NorthPulseEstimator::AmplitudeCentroid => constants::of(0x4228_0000),
            NorthPulseEstimator::EnergyCentroid => constants::of(0x42aa_0000),
        }
    }

    /// Half-width of the window the moment is taken over, in microseconds.
    ///
    /// Wider suits a weighting that spreads across the pulse and narrower one
    /// that concentrates on the peak, so it belongs to the estimator rather
    /// than being one number for all of them: two samples for the amplitude
    /// centroid and four for the energy centroid, at 48 kHz.
    pub fn window_half_width_us(self) -> (us: Single)
        ensures
            us == self.half_width_us(),
    {
        match self {
            NorthPulseEstimator::HardLimiter => Single::zero(),
            NorthPulseEstimator::AmplitudeCentroid => Single::from_bits(0x4228_0000),
            NorthPulseEstimator::EnergyCentroid => Single::from_bits(0x42aa_0000),
        }
    }
}

/// Audio input configuration
///
/// Configures sample rate, buffer size, and channel assignment.
#[derive(Debug, Clone, Copy, PartialEq, Eq)]
pub struct AudioConfig {
    /// Audio sample rate in Hz (typically 48000)
    pub sample_rate: u32,
    /// Processing buffer size in samples
    pub buffer_size: usize,
    /// Number of audio channels (must be 2 for stereo)
    pub channels: u16,
    /// Which channel contains the FM radio audio (Doppler tone)
    pub doppler_channel: ChannelRole,
    /// Which channel contains the north tick reference
    pub north_tick_channel: ChannelRole,
}

impl AudioConfig {
    pub open spec fn defaults() -> AudioConfig {
        AudioConfig {
            sample_rate: 48000,
            buffer_size: 1024,
            channels: 2,
            doppler_channel: ChannelRole::Left,
            north_tick_channel: ChannelRole::Right,
        }
    }
}

impl Default for AudioConfig {
    fn default() -> (r: AudioConfig)
        ensures
            r == AudioConfig::defaults(),
    {
        AudioConfig {
            sample_rate: 48000,
            buffer_size: 1024,
            channels: 2,
            doppler_channel: ChannelRole::Left,
            north_tick_channel: ChannelRole::Right,
        }
    }
}

/// Doppler tone processing configuration
///
/// Controls how the Doppler-shifted carrier tone is extracted and processed
/// to determine bearing angles.
#[derive(Debug, Clone, Copy)]
pub struct DopplerConfig {
    /// Initial/nominal rotation frequency in Hz (actual frequency tracked by DPLL)
    pub expected_freq: Single,
    /// Bandpass filter lower cutoff in Hz
    pub bandpass_low: Single,
    /// Bandpass filter upper cutoff in Hz
    pub bandpass_high: Single,
    /// Number of FIR bandpass filter taps (must be odd)
    pub bandpass_taps: usize,
    /// Bandpass filter transition bandwidth in Hz
    pub bandpass_transition_hz: Single,
    /// Zero-crossing detection hysteresis to reject noise
    pub zero_cross_hysteresis: Single,
    /// Bearing calculation method to use
    pub method: BearingMethod,
    /// North tick timing adjustment in microseconds, applied after tracker
    /// delay compensation. Expressed in time rather than samples so a
    /// calibration made at one sample rate still means the same thing at
    /// another. Positive values shift the effective tick time later; negative
    /// values shift it earlier.
    pub north_tick_timing_adjustment_us: Single,
}

impl DopplerConfig {
    pub open spec fn defaults() -> DopplerConfig {
        DopplerConfig {
            expected_freq: RotationFrequency::interval_spec(constants::of(DEFAULT_INTERVAL_US)).frequency(),
            bandpass_low: constants::of(0x44a8_c000),
            bandpass_high: constants::of(0x44e7_4000),
            bandpass_taps: 127,
            bandpass_transition_hz: constants::of(0x42c8_0000),
            zero_cross_hysteresis: constants::of(0x3c23_d70a),
            method: BearingMethod::Correlation,
            north_tick_timing_adjustment_us: constants::of(0x0000_0000),
        }
    }
}

impl Default for DopplerConfig {
    fn default() -> (r: DopplerConfig)
        ensures
            r == DopplerConfig::defaults(),
    {
        DopplerConfig {
            expected_freq: RotationFrequency::default().as_hz(),
            bandpass_low: Single::from_bits(0x44a8_c000),
            bandpass_high: Single::from_bits(0x44e7_4000),
            bandpass_taps: 127,
            bandpass_transition_hz: Single::from_bits(0x42c8_0000),
            zero_cross_hysteresis: Single::from_bits(0x3c23_d70a),
            method: BearingMethod::Correlation,
            north_tick_timing_adjustment_us: Single::zero(),
        }
    }
}

/// Digital Phase-Locked Loop (DPLL) configuration
#[derive(Debug, Clone, Copy)]
pub struct DpllConfig {
    /// Initial rotation frequency estimate in Hz
    pub initial_frequency_hz: Single,
    /// DPLL natural frequency in Hz (bandwidth)
    pub natural_frequency_hz: Single,
    /// DPLL damping ratio (0.707 for critical damping)
    pub damping_ratio: Single,
    /// Minimum allowed rotation frequency in Hz
    pub frequency_min_hz: Single,
    /// Maximum allowed rotation frequency in Hz
    pub frequency_max_hz: Single,
}

impl DpllConfig {
    pub open spec fn defaults() -> DpllConfig {
        DpllConfig {
            initial_frequency_hz: RotationFrequency::interval_spec(constants::of(DEFAULT_INTERVAL_US)).frequency(),
            natural_frequency_hz: constants::of(0x4000_0000),
            damping_ratio: constants::of(0x3f34_fdf4),
            frequency_min_hz: constants::of(0x44af_0000),
            frequency_max_hz: constants::of(0x44ce_4000),
        }
    }
}

impl Default for DpllConfig {
    fn default() -> (r: DpllConfig)
        ensures
            r == DpllConfig::defaults(),
    {
        DpllConfig {
            initial_frequency_hz: RotationFrequency::default().as_hz(),
            natural_frequency_hz: Single::from_bits(0x4000_0000),
            damping_ratio: Single::from_bits(0x3f34_fdf4),
            frequency_min_hz: Single::from_bits(0x44af_0000),
            frequency_max_hz: Single::from_bits(0x44ce_4000),
        }
    }
}

/// Slow automatic gain control for the north reference channel.
///
/// On by default. Leaving it off is the assumption that the receiver delivers
/// roughly `expected_pulse_amplitude`.
#[derive(Debug, Clone, Copy)]
pub struct NorthAgcConfig {
    /// Whether to adapt the north channel gain at all. Applies to DPLL mode
    /// only; the simple tracker keeps its fixed gain.
    pub enabled: bool,
    /// How long the gain takes to settle, in seconds.
    pub time_constant_secs: Single,
    /// Bounds on the adaptive gain, before `gain_db` is applied.
    pub min_gain: Single,
    pub max_gain: Single,
}

impl NorthAgcConfig {
    pub open spec fn defaults() -> NorthAgcConfig {
        NorthAgcConfig {
            enabled: true,
            time_constant_secs: constants::of(0x4000_0000),
            min_gain: constants::of(0x3dcc_cccd),
            max_gain: constants::of(0x4120_0000),
        }
    }
}

impl Default for NorthAgcConfig {
    fn default() -> (r: NorthAgcConfig)
        ensures
            r == NorthAgcConfig::defaults(),
    {
        NorthAgcConfig {
            enabled: true,
            time_constant_secs: Single::from_bits(0x4000_0000),
            min_gain: Single::from_bits(0x3dcc_cccd),
            max_gain: Single::from_bits(0x4120_0000),
        }
    }
}

/// Detection threshold for a tracker whose gain control holds the pulse at the
/// expected height, as a fraction of that height (0.323).
pub const THRESHOLD_FRACTION_GAIN_CONTROLLED: u32 = 0x3ea5_6042;

/// Detection threshold for a tracker that takes the level it is given
/// (0.19361).
pub const THRESHOLD_FRACTION_UNAIDED: u32 = 0x3e46_41b3;

/// North reference pulse detection configuration
///
/// Controls detection of the north timing reference pulses used to
/// establish bearing zero reference.
#[derive(Debug, Clone, Copy)]
pub struct NorthTickConfig {
    /// Tracking mode (DPLL recommended)
    pub mode: NorthTrackingMode,
    /// Slow gain control for this channel, on by default.
    pub agc: NorthAgcConfig,
    /// Sub-sample estimator for the pulse arrival time
    pub estimator: NorthPulseEstimator,
    /// Input gain in dB (0.0 = unity, applied before filtering)
    pub gain_db: Single,
    /// Highpass filter cutoff in Hz to isolate pulse transients.
    pub highpass_cutoff: Single,
    /// Length of the FIR highpass in microseconds. Expressed in time rather
    /// than taps so the same configuration produces the same filter at any
    /// sample rate; the tap count is derived from this and forced odd to keep
    /// linear phase.
    pub fir_highpass_length_us: Single,
    /// Highpass filter transition bandwidth in Hz
    pub highpass_transition_hz: Single,
    /// Peak detection threshold, as a fraction of the pulse height the
    /// detector expects to see. `None` takes the default for the tracker in
    /// use, see `resolved_threshold_fraction`.
    pub threshold_fraction: Option<Single>,
    /// Expected pulse amplitude in the north channel, before `gain_db`.
    pub expected_pulse_amplitude: Single,
    /// Minimum interval between pulses in milliseconds. Must be shorter
    /// than the period at dpll.frequency_max_hz (0.6 ms supports up to
    /// ~1666 Hz).
    pub min_interval_ms: Single,
    /// How long to keep emitting ticks from the tracked rotation after
    /// pulses stop arriving, in milliseconds. Past this the tracker declares
    /// loss of lock and reacquires.
    pub max_coast_ms: Single,
    /// Width of the detection-timing gate, in standard deviations of the
    /// tracked phase error. Only applied once the tracker is locked.
    pub gate_sigma: Single,
    /// DPLL configuration (only used when mode is Dpll)
    pub dpll: DpllConfig,
}

impl NorthTickConfig {
    pub open spec fn defaults() -> NorthTickConfig {
        NorthTickConfig {
            mode: NorthTrackingMode::Dpll,
            agc: NorthAgcConfig::defaults(),
            estimator: NorthPulseEstimator::EnergyCentroid,
            gain_db: constants::of(0x0000_0000),
            highpass_cutoff: constants::of(0x447a_0000),
            fir_highpass_length_us: constants::of(0x44a4_1000),
            highpass_transition_hz: constants::of(0x43fa_0000),
            threshold_fraction: None,
            expected_pulse_amplitude: constants::of(0x3f4c_cccd),
            min_interval_ms: constants::of(0x3f19_999a),
            max_coast_ms: constants::of(0x447a_0000),
            gate_sigma: constants::of(0x4040_0000),
            dpll: DpllConfig::defaults(),
        }
    }
}

impl Default for NorthTickConfig {
    fn default() -> (r: NorthTickConfig)
        ensures
            r == NorthTickConfig::defaults(),
    {
        NorthTickConfig {
            mode: NorthTrackingMode::Dpll,
            agc: NorthAgcConfig::default(),
            estimator: NorthPulseEstimator::EnergyCentroid,
            gain_db: Single::zero(),
            highpass_cutoff: Single::from_bits(0x447a_0000),
            fir_highpass_length_us: Single::from_bits(0x44a4_1000),
            highpass_transition_hz: Single::from_bits(0x43fa_0000),
            threshold_fraction: None,
            expected_pulse_amplitude: Single::from_bits(0x3f4c_cccd),
            min_interval_ms: Single::from_bits(0x3f19_999a),
            max_coast_ms: Single::from_bits(0x447a_0000),
            gate_sigma: Single::from_bits(0x4040_0000),
            dpll: DpllConfig::default(),
        }
    }
}

/// Signal strength separating hiss from signal (0.05).
pub const MIN_SIGNAL_STRENGTH: u32 = 0x3d4c_cccd;

/// How a bearing's estimated uncertainty becomes a confidence score.
#[derive(Debug, Clone, Copy)]
pub struct ConfidenceConfig {
    /// Bearing uncertainty, in degrees, at which confidence reads one half.
    pub half_confidence_deg: Single,
    /// Signal strength at or above which the bearing is reported as having a
    /// signal behind it. `None` resolves to `MIN_SIGNAL_STRENGTH`.
    pub min_signal_strength: Option<Single>,
}

impl ConfidenceConfig {
    pub open spec fn defaults() -> ConfidenceConfig {
        ConfidenceConfig {
            half_confidence_deg: constants::of(0x40c0_0000),
            min_signal_strength: None,
        }
    }
}

impl Default for ConfidenceConfig {
    fn default() -> (r: ConfidenceConfig)
        ensures
            r == ConfidenceConfig::defaults(),
    {
        ConfidenceConfig {
            half_confidence_deg: Single::from_bits(0x40c0_0000),
            min_signal_strength: None,
        }
    }
}

/// Bearing output configuration
#[derive(Debug, Clone, Copy)]
pub struct BearingConfig {
    /// Moving average window size for smoothing
    pub smoothing_window: usize,
    /// Bearing output rate in Hz
    pub output_rate_hz: Single,
    /// North reference offset for calibration (degrees added to all bearings)
    pub north_offset_degrees: Single,
    /// Timeout in seconds before warning about missing north tick (live capture only)
    pub north_tick_warning_timeout_secs: Single,
    /// How the estimated bearing uncertainty becomes a confidence score
    pub confidence: ConfidenceConfig,
}

impl BearingConfig {
    pub open spec fn defaults() -> BearingConfig {
        BearingConfig {
            smoothing_window: 5,
            output_rate_hz: constants::of(0x41a0_0000),
            north_offset_degrees: constants::of(0x0000_0000),
            north_tick_warning_timeout_secs: constants::of(0x4000_0000),
            confidence: ConfidenceConfig::defaults(),
        }
    }
}

impl Default for BearingConfig {
    fn default() -> (r: BearingConfig)
        ensures
            r == BearingConfig::defaults(),
    {
        BearingConfig {
            smoothing_window: 5,
            output_rate_hz: Single::from_bits(0x41a0_0000),
            north_offset_degrees: Single::zero(),
            north_tick_warning_timeout_secs: Single::from_bits(0x4000_0000),
            confidence: ConfidenceConfig::default(),
        }
    }
}

/// Automatic gain control configuration
///
/// Normalizes signal amplitude variations for consistent processing.
#[derive(Debug, Clone, Copy)]
pub struct AgcConfig {
    /// Target RMS signal level (0-1 range)
    pub target_rms: Single,
    /// Attack time constant in milliseconds (how fast gain decreases for loud signals)
    pub attack_time_ms: Single,
    /// Release time constant in milliseconds (how fast gain recovers for quiet signals)
    pub release_time_ms: Single,
    /// Measurement window for RMS calculation in milliseconds
    pub measurement_window_ms: Single,
    /// Minimum gain (prevents excessive attenuation, 0.1 = -20dB)
    pub min_gain: Single,
    /// Maximum gain (prevents excessive amplification, 5.0 = +14 dB)
    pub max_gain: Single,
}

impl AgcConfig {
    pub open spec fn defaults() -> AgcConfig {
        AgcConfig {
            target_rms: constants::of(0x3e99_999a),
            attack_time_ms: constants::of(0x4120_0000),
            release_time_ms: constants::of(0x42c8_0000),
            measurement_window_ms: constants::of(0x4120_0000),
            min_gain: constants::of(0x3dcc_cccd),
            max_gain: constants::of(0x40a0_0000),
        }
    }
}

impl Default for AgcConfig {
    fn default() -> (r: AgcConfig)
        ensures
            r == AgcConfig::defaults(),
    {
        AgcConfig {
            target_rms: Single::from_bits(0x3e99_999a),
            attack_time_ms: Single::from_bits(0x4120_0000),
            release_time_ms: Single::from_bits(0x42c8_0000),
            measurement_window_ms: Single::from_bits(0x4120_0000),
            min_gain: Single::from_bits(0x3dcc_cccd),
            max_gain: Single::from_bits(0x40a0_0000),
        }
    }
}

/// System-wide RDF configuration
///
/// Contains all configuration parameters for the pseudo-Doppler radio direction
/// finding system. Use `RdfConfig::default()` for sensible defaults.
#[derive(Debug, Clone, Copy)]
pub struct RdfConfig {
    /// Audio input configuration
    pub audio: AudioConfig,
    /// Doppler tone processing configuration
    pub doppler: DopplerConfig,
    /// North reference pulse detection configuration
    pub north_tick: NorthTickConfig,
    /// Bearing output configuration
    pub bearing: BearingConfig,
    /// Automatic gain control configuration
    pub agc: AgcConfig,
}

impl RdfConfig {
    pub open spec fn defaults() -> RdfConfig {
        RdfConfig {
            audio: AudioConfig::defaults(),
            doppler: DopplerConfig::defaults(),
            north_tick: NorthTickConfig::defaults(),
            bearing: BearingConfig::defaults(),
            agc: AgcConfig::defaults(),
        }
    }
}

impl Default for RdfConfig {
    fn default() -> (r: RdfConfig)
        ensures
            r == RdfConfig::defaults(),
    {
        RdfConfig {
            audio: AudioConfig::default(),
            doppler: DopplerConfig::default(),
            north_tick: NorthTickConfig::default(),
            bearing: BearingConfig::default(),
            agc: AgcConfig::default(),
        }
    }
}

impl ConfidenceConfig {
    pub open spec fn min_signal_strength_spec(self) -> Single {
        match self.min_signal_strength {
            Some(x) => x,
            None => constants::of(MIN_SIGNAL_STRENGTH),
        }
    }

    /// The signal strength separating hiss from signal.
    ///
    /// One default floor serves both methods, though they do not report the
    /// same quantity; setting the field explicitly overrides it.
    pub fn resolved_min_signal_strength(&self) -> (s: Single)
        ensures
            s == self.min_signal_strength_spec(),
    {
        match self.min_signal_strength {
            Some(x) => x,
            None => Single::from_bits(MIN_SIGNAL_STRENGTH),
        }
    }
}

impl NorthTickConfig {
    pub open spec fn threshold_fraction_spec(self) -> Single {
        match self.threshold_fraction {
            Some(x) => x,
            None => if self.mode == NorthTrackingMode::Dpll && self.agc.enabled {
                constants::of(THRESHOLD_FRACTION_GAIN_CONTROLLED)
            } else {
                constants::of(THRESHOLD_FRACTION_UNAIDED)
            },
        }
    }

    /// The detection threshold this configuration actually uses.
    ///
    /// Where gain control holds the pulse at the expected height the level
    /// margin is supplied by the AGC, so the threshold can be set high enough
    /// to reject noise triggers outright. So the default follows the AGC
    /// rather than the tracking mode as such: a DPLL with its AGC disabled is
    /// in the same position as the simple tracker and gets the same
    /// conservative value.
    pub fn resolved_threshold_fraction(&self) -> (s: Single)
        ensures
            s == self.threshold_fraction_spec(),
    {
        match self.threshold_fraction {
            Some(x) => x,
            None => {
                let dpll: bool = match self.mode {
                    NorthTrackingMode::Dpll => true,
                    NorthTrackingMode::Simple => false,
                };
                if dpll && self.agc.enabled {
                    Single::from_bits(THRESHOLD_FRACTION_GAIN_CONTROLLED)
                } else {
                    Single::from_bits(THRESHOLD_FRACTION_UNAIDED)
                }
            },
        }
    }
}

impl RdfConfig {
    /// How much faster than the nominal rotor a rotation is.
    pub open spec fn rotation_scale(rotation: RotationFrequency) -> Single {
        rotation.frequency().over_spec(
            RotationFrequency::interval_spec(constants::of(DEFAULT_INTERVAL_US)).frequency(),
        )
    }

    /// The configuration with every rotation-coupled parameter taken from the
    /// defaults, scaled to a rotation.
    pub open spec fn retuned(self, rotation: RotationFrequency) -> RdfConfig {
        let hz = rotation.frequency();
        let scale = Self::rotation_scale(rotation);
        let d = Self::defaults();
        RdfConfig {
            doppler: DopplerConfig {
                expected_freq: hz,
                bandpass_low: d.doppler.bandpass_low.times_spec(scale),
                bandpass_high: d.doppler.bandpass_high.times_spec(scale),
                ..self.doppler
            },
            north_tick: NorthTickConfig {
                min_interval_ms: d.north_tick.min_interval_ms.over_spec(scale),
                dpll: DpllConfig {
                    initial_frequency_hz: hz,
                    frequency_min_hz: d.north_tick.dpll.frequency_min_hz.times_spec(scale),
                    frequency_max_hz: d.north_tick.dpll.frequency_max_hz.times_spec(scale),
                    ..self.north_tick.dpll
                },
                ..self.north_tick
            },
            ..self
        }
    }

    /// Retune every rotation-coupled parameter to the given rotation.
    ///
    /// The defaults (DPLL tracking band, Doppler bandpass, detector dead
    /// time) are all sized for the nominal rotor. Scaling everything
    /// proportionally preserves the validated ratios at any rotation rate.
    ///
    /// The coupled parameters are scaled from the *default* config rather
    /// than their current values, so the result depends only on `rotation`
    /// and repeated calls do not compound.
    pub fn apply_rotation(&mut self, rotation: RotationFrequency)
        ensures
            *final(self) == old(self).retuned(rotation),
    {
        let hz: Single = rotation.as_hz();
        let scale: Single = hz.over(RotationFrequency::default().as_hz());
        let defaults: RdfConfig = RdfConfig::default();

        self.doppler.expected_freq = hz;
        self.north_tick.dpll.initial_frequency_hz = hz;
        self.north_tick.dpll.frequency_min_hz =
        defaults.north_tick.dpll.frequency_min_hz.times(scale);
        self.north_tick.dpll.frequency_max_hz =
        defaults.north_tick.dpll.frequency_max_hz.times(scale);
        self.doppler.bandpass_low = defaults.doppler.bandpass_low.times(scale);
        self.doppler.bandpass_high = defaults.doppler.bandpass_high.times(scale);
        // Dead time scales with the rotation period so the
        // min_interval-vs-frequency_max validation holds at any rate.
        self.north_tick.min_interval_ms = defaults.north_tick.min_interval_ms.over(scale);
    }

    /// Retuning depends on the rotation alone: a second one leaves nothing of
    /// the first.
    pub proof fn retuning_does_not_compound(
        self,
        first: RotationFrequency,
        second: RotationFrequency,
    )
        ensures
            self.retuned(first).retuned(second) == self.retuned(second),
    {
    }
}

impl AudioConfig {
    pub open spec fn pick(role: ChannelRole, frame: (Single, Single)) -> Single {
        match role {
            ChannelRole::Left => frame.0,
            ChannelRole::Right => frame.1,
        }
    }

    /// One channel of a stereo signal.
    pub open spec fn channel(role: ChannelRole, frames: Seq<(Single, Single)>) -> Seq<Single> {
        frames.map_values(|f: (Single, Single)| Self::pick(role, f))
    }

    /// Extract doppler and north tick channels from stereo samples
    /// Returns (doppler_samples, north_tick_samples)
    pub fn split_channels(&self, stereo_samples: &[(Single, Single)]) -> (r: (
        Vec<Single>,
        Vec<Single>,
    ))
        ensures
            r.0@ == Self::channel(self.doppler_channel, stereo_samples@),
            r.1@ == Self::channel(self.north_tick_channel, stereo_samples@),
    {
        let mut doppler: Vec<Single> = Vec::new();
        let mut north_tick: Vec<Single> = Vec::new();
        let mut i: usize = 0;
        while i < stereo_samples.len()
            invariant
                i <= stereo_samples.len(),
                doppler@ == Self::channel(self.doppler_channel, stereo_samples@.take(i as int)),
                north_tick@ == Self::channel(
                    self.north_tick_channel,
                    stereo_samples@.take(i as int),
                ),
            decreases stereo_samples.len() - i,
        {
            let (left, right) = stereo_samples[i];
            doppler.push(
                match self.doppler_channel {
                    ChannelRole::Left => left,
                    ChannelRole::Right => right,
                },
            );
            north_tick.push(
                match self.north_tick_channel {
                    ChannelRole::Left => left,
                    ChannelRole::Right => right,
                },
            );
            assert(stereo_samples@.take(i + 1) =~= stereo_samples@.take(i as int).push(
                stereo_samples@[i as int],
            ));
            i = i + 1;
            assert(doppler@ =~= Self::channel(
                self.doppler_channel,
                stereo_samples@.take(i as int),
            ));
            assert(north_tick@ =~= Self::channel(
                self.north_tick_channel,
                stereo_samples@.take(i as int),
            ));
        }
        assert(stereo_samples@.take(i as int) =~= stereo_samples@);
        (doppler, north_tick)
    }
}

} // verus!
