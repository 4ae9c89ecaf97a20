//! Settings that the tools change by name.
use crate::config::{
    AudioConfig, BearingConfig, BearingMethod, DopplerConfig, DpllConfig, NorthAgcConfig,
    NorthPulseEstimator, NorthTickConfig, NorthTrackingMode, RdfConfig,
};
use crate::fields;
use crate::single::Single;
use crate::text;
use vstd::prelude::*;

verus! {

/// A setting with a name.
#[derive(Debug, Clone, Copy, PartialEq, Eq, Structural)]
pub enum Key {
    SampleRate,
    BufferSize,
    SmoothingWindow,
    Method,
    TimingAdjustment,
    BandpassTaps,
    Mode,
    Estimator,
    AgcEnabled,
    Gain,
    HighpassCutoff,
    HighpassTransition,
    HighpassLength,
    Threshold,
    PulseAmplitude,
    MinInterval,
    MaxCoast,
    GateSigma,
    InitialFrequency,
    NaturalFrequency,
    DampingRatio,
}

/// What a setting is set to.
#[derive(Debug, Clone, Copy, PartialEq, Eq, Structural)]
pub enum Value {
    Number(Single),
    Count(usize),
    Flag(bool),
    Method(BearingMethod),
    Mode(NorthTrackingMode),
    Estimator(NorthPulseEstimator),
}

/// What kind of value a setting takes.
#[derive(Debug, Clone, Copy, PartialEq, Eq, Structural)]
pub enum Kind {
    Number,
    Count,
    Flag,
    Method,
    Mode,
    Estimator,
}

impl Key {
    pub open spec fn name_spec(self) -> Seq<char> {
        match self {
            Key::SampleRate => "audio.sample_rate"@,
            Key::BufferSize => "audio.buffer_size"@,
            Key::SmoothingWindow => "bearing.smoothing_window"@,
            Key::Method => "doppler.method"@,
            Key::TimingAdjustment => "doppler.north_tick_timing_adjustment_us"@,
            Key::BandpassTaps => "doppler.bandpass_taps"@,
            Key::Mode => "north_tick.mode"@,
            Key::Estimator => "north_tick.estimator"@,
            Key::AgcEnabled => "north_tick.agc.enabled"@,
            Key::Gain => "north_tick.gain_db"@,
            Key::HighpassCutoff => "north_tick.highpass_cutoff"@,
            Key::HighpassTransition => "north_tick.highpass_transition_hz"@,
            Key::HighpassLength => "north_tick.fir_highpass_length_us"@,
            Key::Threshold => "north_tick.threshold"@,
            Key::PulseAmplitude => "north_tick.expected_pulse_amplitude"@,
            Key::MinInterval => "north_tick.min_interval_ms"@,
            Key::MaxCoast => "north_tick.max_coast_ms"@,
            Key::GateSigma => "north_tick.gate_sigma"@,
            Key::InitialFrequency => "north_tick.dpll.initial_frequency_hz"@,
            Key::NaturalFrequency => "north_tick.dpll.natural_frequency_hz"@,
            Key::DampingRatio => "north_tick.dpll.damping_ratio"@,
        }
    }

    /// The dotted name of a setting.
    pub fn name(self) -> (s: &'static str)
        ensures
            s@ == self.name_spec(),
    {
        match self {
            Key::SampleRate => "audio.sample_rate",
            Key::BufferSize => "audio.buffer_size",
            Key::SmoothingWindow => "bearing.smoothing_window",
            Key::Method => "doppler.method",
            Key::TimingAdjustment => "doppler.north_tick_timing_adjustment_us",
            Key::BandpassTaps => "doppler.bandpass_taps",
            Key::Mode => "north_tick.mode",
            Key::Estimator => "north_tick.estimator",
            Key::AgcEnabled => "north_tick.agc.enabled",
            Key::Gain => "north_tick.gain_db",
            Key::HighpassCutoff => "north_tick.highpass_cutoff",
            Key::HighpassTransition => "north_tick.highpass_transition_hz",
            Key::HighpassLength => "north_tick.fir_highpass_length_us",
            Key::Threshold => "north_tick.threshold",
            Key::PulseAmplitude => "north_tick.expected_pulse_amplitude",
            Key::MinInterval => "north_tick.min_interval_ms",
            Key::MaxCoast => "north_tick.max_coast_ms",
            Key::GateSigma => "north_tick.gate_sigma",
            Key::InitialFrequency => "north_tick.dpll.initial_frequency_hz",
            Key::NaturalFrequency => "north_tick.dpll.natural_frequency_hz",
            Key::DampingRatio => "north_tick.dpll.damping_ratio",
        }
    }

    /// The setting of a name.
    pub open spec fn named(s: Seq<char>) -> Option<Key> {
        if s == "audio.sample_rate"@ {
            Some(Key::SampleRate)
        } else if s == "audio.buffer_size"@ {
            Some(Key::BufferSize)
        } else if s == "bearing.smoothing_window"@ {
            Some(Key::SmoothingWindow)
        } else if s == "doppler.method"@ {
            Some(Key::Method)
        } else if s == "doppler.north_tick_timing_adjustment_us"@ {
            Some(Key::TimingAdjustment)
        } else if s == "doppler.bandpass_taps"@ {
            Some(Key::BandpassTaps)
        } else if s == "north_tick.mode"@ {
            Some(Key::Mode)
        } else if s == "north_tick.estimator"@ {
            Some(Key::Estimator)
        } else if s == "north_tick.agc.enabled"@ {
            Some(Key::AgcEnabled)
        } else if s == "north_tick.gain_db"@ {
            Some(Key::Gain)
        } else if s == "north_tick.highpass_cutoff"@ {
            Some(Key::HighpassCutoff)
        } else if s == "north_tick.highpass_transition_hz"@ {
            Some(Key::HighpassTransition)
        } else if s == "north_tick.fir_highpass_length_us"@ {
            Some(Key::HighpassLength)
        } else if s == "north_tick.threshold"@ {
            Some(Key::Threshold)
        } else if s == "north_tick.expected_pulse_amplitude"@ {
            Some(Key::PulseAmplitude)
        } else if s == "north_tick.min_interval_ms"@ {
            Some(Key::MinInterval)
        } else if s == "north_tick.max_coast_ms"@ {
            Some(Key::MaxCoast)
        } else if s == "north_tick.gate_sigma"@ {
            Some(Key::GateSigma)
        } else if s == "north_tick.dpll.initial_frequency_hz"@ {
            Some(Key::InitialFrequency)
        } else if s == "north_tick.dpll.natural_frequency_hz"@ {
            Some(Key::NaturalFrequency)
        } else if s == "north_tick.dpll.damping_ratio"@ {
            Some(Key::DampingRatio)
        } else {
            None
        }
    }

    /// A name is that of its setting, and a text that names none is no name.
    pub proof fn names_settings(s: Seq<char>)
        ensures
            match Self::named(s) {
                Some(key) => key.name_spec() == s,
                None => forall|key: Key| #[trigger] key.name_spec() != s,
            },
    {
    }

    /// The setting of a name.
    pub fn of_name(name: &str) -> (k: Option<Key>)
        ensures
            k == Self::named(name@),
    {
        if text::same(name, "audio.sample_rate") {
            return Some(Key::SampleRate);
        }
        if text::same(name, "audio.buffer_size") {
            return Some(Key::BufferSize);
        }
        if text::same(name, "bearing.smoothing_window") {
            return Some(Key::SmoothingWindow);
        }
        if text::same(name, "doppler.method") {
            return Some(Key::Method);
        }
        if text::same(name, "doppler.north_tick_timing_adjustment_us") {
            return Some(Key::TimingAdjustment);
        }
        if text::same(name, "doppler.bandpass_taps") {
            return Some(Key::BandpassTaps);
        }
        if text::same(name, "north_tick.mode") {
            return Some(Key::Mode);
        }
        if text::same(name, "north_tick.estimator") {
            return Some(Key::Estimator);
        }
        if text::same(name, "north_tick.agc.enabled") {
            return Some(Key::AgcEnabled);
        }
        if text::same(name, "north_tick.gain_db") {
            return Some(Key::Gain);
        }
        if text::same(name, "north_tick.highpass_cutoff") {
            return Some(Key::HighpassCutoff);
        }
        if text::same(name, "north_tick.highpass_transition_hz") {
            return Some(Key::HighpassTransition);
        }
        if text::same(name, "north_tick.fir_highpass_length_us") {
            return Some(Key::HighpassLength);
        }
        if text::same(name, "north_tick.threshold") {
            return Some(Key::Threshold);
        }
        if text::same(name, "north_tick.expected_pulse_amplitude") {
            return Some(Key::PulseAmplitude);
        }
        if text::same(name, "north_tick.min_interval_ms") {
            return Some(Key::MinInterval);
        }
        if text::same(name, "north_tick.max_coast_ms") {
            return Some(Key::MaxCoast);
        }
        if text::same(name, "north_tick.gate_sigma") {
            return Some(Key::GateSigma);
        }
        if text::same(name, "north_tick.dpll.initial_frequency_hz") {
            return Some(Key::InitialFrequency);
        }
        if text::same(name, "north_tick.dpll.natural_frequency_hz") {
            return Some(Key::NaturalFrequency);
        }
        if text::same(name, "north_tick.dpll.damping_ratio") {
            return Some(Key::DampingRatio);
        }
        None
    }

    pub open spec fn kind_spec(self) -> Kind {
        match self {
            Key::SampleRate | Key::BufferSize | Key::SmoothingWindow | Key::BandpassTaps => Kind::Count,
            Key::AgcEnabled => Kind::Flag,
            Key::Method => Kind::Method,
            Key::Mode => Kind::Mode,
            Key::Estimator => Kind::Estimator,
            _ => Kind::Number,
        }
    }

    /// The kind of value that a setting takes.
    pub fn kind(self) -> (k: Kind)
        ensures
            k == self.kind_spec(),
    {
        match self {
            Key::SampleRate | Key::BufferSize | Key::SmoothingWindow | Key::BandpassTaps => Kind::Count,
            Key::AgcEnabled => Kind::Flag,
            Key::Method => Kind::Method,
            Key::Mode => Kind::Mode,
            Key::Estimator => Kind::Estimator,
            _ => Kind::Number,
        }
    }

    /// A configuration with a setting changed. A value of another kind changes
    /// nothing.
    pub open spec fn put_spec(self, config: RdfConfig, value: Value) -> RdfConfig {
        match (self, value) {
            (Key::SampleRate, Value::Count(n)) => RdfConfig { audio: AudioConfig { sample_rate: low_word(n), ..config.audio }, ..config },
            (Key::BufferSize, Value::Count(n)) => RdfConfig { audio: AudioConfig { buffer_size: n, ..config.audio }, ..config },
            (Key::SmoothingWindow, Value::Count(n)) => RdfConfig { bearing: BearingConfig { smoothing_window: n, ..config.bearing }, ..config },
            (Key::Method, Value::Method(m)) => RdfConfig { doppler: DopplerConfig { method: m, ..config.doppler }, ..config },
            (Key::TimingAdjustment, Value::Number(x)) => RdfConfig { doppler: DopplerConfig { north_tick_timing_adjustment_us: x, ..config.doppler }, ..config },
            (Key::BandpassTaps, Value::Count(n)) => RdfConfig { doppler: DopplerConfig { bandpass_taps: n, ..config.doppler }, ..config },
            (Key::Mode, Value::Mode(m)) => RdfConfig { north_tick: NorthTickConfig { mode: m, ..config.north_tick }, ..config },
            (Key::Estimator, Value::Estimator(e)) => RdfConfig { north_tick: NorthTickConfig { estimator: e, ..config.north_tick }, ..config },
            (Key::AgcEnabled, Value::Flag(b)) => RdfConfig { north_tick: NorthTickConfig { agc: NorthAgcConfig { enabled: b, ..config.north_tick.agc }, ..config.north_tick }, ..config },
            (Key::Gain, Value::Number(x)) => RdfConfig { north_tick: NorthTickConfig { gain_db: x, ..config.north_tick }, ..config },
            (Key::HighpassCutoff, Value::Number(x)) => RdfConfig { north_tick: NorthTickConfig { highpass_cutoff: x, ..config.north_tick }, ..config },
            (Key::HighpassTransition, Value::Number(x)) => RdfConfig { north_tick: NorthTickConfig { highpass_transition_hz: x, ..config.north_tick }, ..config },
            (Key::HighpassLength, Value::Number(x)) => RdfConfig { north_tick: NorthTickConfig { fir_highpass_length_us: x, ..config.north_tick }, ..config },
            (Key::Threshold, Value::Number(x)) => RdfConfig { north_tick: NorthTickConfig { threshold_fraction: Some(x), ..config.north_tick }, ..config },
            (Key::PulseAmplitude, Value::Number(x)) => RdfConfig { north_tick: NorthTickConfig { expected_pulse_amplitude: x, ..config.north_tick }, ..config },
            (Key::MinInterval, Value::Number(x)) => RdfConfig { north_tick: NorthTickConfig { min_interval_ms: x, ..config.north_tick }, ..config },
            (Key::MaxCoast, Value::Number(x)) => RdfConfig { north_tick: NorthTickConfig { max_coast_ms: x, ..config.north_tick }, ..config },
            (Key::GateSigma, Value::Number(x)) => RdfConfig { north_tick: NorthTickConfig { gate_sigma: x, ..config.north_tick }, ..config },
            (Key::InitialFrequency, Value::Number(x)) => RdfConfig { north_tick: NorthTickConfig { dpll: DpllConfig { initial_frequency_hz: x, ..config.north_tick.dpll }, ..config.north_tick }, ..config },
            (Key::NaturalFrequency, Value::Number(x)) => RdfConfig { north_tick: NorthTickConfig { dpll: DpllConfig { natural_frequency_hz: x, ..config.north_tick.dpll }, ..config.north_tick }, ..config },
            (Key::DampingRatio, Value::Number(x)) => RdfConfig { north_tick: NorthTickConfig { dpll: DpllConfig { damping_ratio: x, ..config.north_tick.dpll }, ..config.north_tick }, ..config },
            _ => config,
        }
    }

    /// Change a setting.
    pub fn put(self, config: &mut RdfConfig, value: Value)
        ensures
            *final(config) == self.put_spec(*old(config), value),
    {
        match (self, value) {
            (Key::SampleRate, Value::Count(n)) => { config.audio.sample_rate = word_of(n); },
            (Key::BufferSize, Value::Count(n)) => { config.audio.buffer_size = n; },
            (Key::SmoothingWindow, Value::Count(n)) => { config.bearing.smoothing_window = n; },
            (Key::Method, Value::Method(m)) => { config.doppler.method = m; },
            (Key::TimingAdjustment, Value::Number(x)) => { config.doppler.north_tick_timing_adjustment_us = x; },
            (Key::BandpassTaps, Value::Count(n)) => { config.doppler.bandpass_taps = n; },
            (Key::Mode, Value::Mode(m)) => { config.north_tick.mode = m; },
            (Key::Estimator, Value::Estimator(e)) => { config.north_tick.estimator = e; },
            (Key::AgcEnabled, Value::Flag(b)) => { config.north_tick.agc.enabled = b; },
            (Key::Gain, Value::Number(x)) => { config.north_tick.gain_db = x; },
            (Key::HighpassCutoff, Value::Number(x)) => { config.north_tick.highpass_cutoff = x; },
            (Key::HighpassTransition, Value::Number(x)) => { config.north_tick.highpass_transition_hz = x; },
            (Key::HighpassLength, Value::Number(x)) => { config.north_tick.fir_highpass_length_us = x; },
            (Key::Threshold, Value::Number(x)) => { config.north_tick.threshold_fraction = Some(x); },
            (Key::PulseAmplitude, Value::Number(x)) => { config.north_tick.expected_pulse_amplitude = x; },
            (Key::MinInterval, Value::Number(x)) => { config.north_tick.min_interval_ms = x; },
            (Key::MaxCoast, Value::Number(x)) => { config.north_tick.max_coast_ms = x; },
            (Key::GateSigma, Value::Number(x)) => { config.north_tick.gate_sigma = x; },
            (Key::InitialFrequency, Value::Number(x)) => { config.north_tick.dpll.initial_frequency_hz = x; },
            (Key::NaturalFrequency, Value::Number(x)) => { config.north_tick.dpll.natural_frequency_hz = x; },
            (Key::DampingRatio, Value::Number(x)) => { config.north_tick.dpll.damping_ratio = x; },
            _ => {},
        }
    }
}

/// The low 32 bits of a count.
pub open spec fn low_word(n: usize) -> u32 {
    (n as int % 0x1_0000_0000) as u32
}

fn word_of(n: usize) -> (w: u32)
    ensures
        w == low_word(n),
{
    (n as u64 % 0x1_0000_0000) as u32
}

/// A character with upper case letters taken as lower case ones.
pub open spec fn folded(c: char) -> nat {
    if 'A' <= c <= 'Z' {
        c as nat + 32
    } else {
        c as nat
    }
}

fn fold(c: char) -> (n: u32)
    ensures
        n == folded(c),
{
    if c >= 'A' && c <= 'Z' {
        c as u32 + 32
    } else {
        c as u32
    }
}

/// Whether two texts are the same but for the case of their letters.
pub open spec fn same_letters(a: Seq<char>, b: Seq<char>) -> bool {
    &&& a.len() == b.len()
    &&& forall|i: int| 0 <= i < a.len() ==> folded(#[trigger] a[i]) == folded(b[i])
}

/// Whether two texts are the same but for the case of their letters.
pub fn matches_name(a: &str, b: &str) -> (r: bool)
    ensures
        r == same_letters(a@, b@),
{
    let n: usize = a.unicode_len();
    if n != b.unicode_len() {
        return false;
    }
    let mut i: usize = 0;
    while i < n
        invariant
            i <= n,
            n == a@.len(),
            n == b@.len(),
            forall|j: int| 0 <= j < i ==> folded(#[trigger] a@[j]) == folded(b@[j]),
        decreases n - i,
    {
        if fold(a.get_char(i)) != fold(b.get_char(i)) {
            assert(folded(a@[i as int]) != folded(b@[i as int]));
            return false;
        }
        i = i + 1;
    }
    true
}

/// The method that a text names.
pub open spec fn method_of(s: Seq<char>) -> Option<BearingMethod> {
    if same_letters(s, "correlation"@) {
        Some(BearingMethod::Correlation)
    } else if same_letters(s, "zero-crossing"@) {
        Some(BearingMethod::ZeroCrossing)
    } else {
        None
    }
}

/// The tracking mode that a text names.
pub open spec fn mode_of(s: Seq<char>) -> Option<NorthTrackingMode> {
    if same_letters(s, "simple"@) {
        Some(NorthTrackingMode::Simple)
    } else if same_letters(s, "dpll"@) {
        Some(NorthTrackingMode::Dpll)
    } else {
        None
    }
}

/// The estimator that a text names.
pub open spec fn estimator_of(s: Seq<char>) -> Option<NorthPulseEstimator> {
    if same_letters(s, "hard-limiter"@) {
        Some(NorthPulseEstimator::HardLimiter)
    } else if same_letters(s, "amplitude-centroid"@) {
        Some(NorthPulseEstimator::AmplitudeCentroid)
    } else if same_letters(s, "energy-centroid"@) {
        Some(NorthPulseEstimator::EnergyCentroid)
    } else {
        None
    }
}

/// The flag that a text stands for.
pub open spec fn flag_of(s: Seq<char>) -> Option<bool> {
    if s == "true"@ {
        Some(true)
    } else if s == "false"@ {
        Some(false)
    } else {
        None
    }
}

/// The value that a text stands for, where it stands for one.
///
/// `number` is what the text reads as, where it reads as a number.
pub open spec fn value_spec(kind: Kind, s: Seq<char>, number: Option<Single>) -> Option<Value> {
    match kind {
        Kind::Number => match number {
            Some(x) => Some(Value::Number(x)),
            None => None,
        },
        Kind::Count => match fields::count_spec(s) {
            Some(n) => Some(Value::Count(n)),
            None => None,
        },
        Kind::Flag => match flag_of(s) {
            Some(b) => Some(Value::Flag(b)),
            None => None,
        },
        Kind::Method => match method_of(s) {
            Some(m) => Some(Value::Method(m)),
            None => None,
        },
        Kind::Mode => match mode_of(s) {
            Some(m) => Some(Value::Mode(m)),
            None => None,
        },
        Kind::Estimator => match estimator_of(s) {
            Some(e) => Some(Value::Estimator(e)),
            None => None,
        },
    }
}

/// Read a value of a kind.
pub fn read_value(kind: Kind, s: &str, number: Option<Single>) -> (v: Option<Value>)
    ensures
        v == value_spec(kind, s@, number),
{
    match kind {
        Kind::Number => match number {
            Some(x) => Some(Value::Number(x)),
            None => None,
        },
        Kind::Count => match fields::parse_count(s) {
            Some(n) => Some(Value::Count(n)),
            None => None,
        },
        Kind::Flag => {
            if text::same(s, "true") {
                Some(Value::Flag(true))
            } else if text::same(s, "false") {
                Some(Value::Flag(false))
            } else {
                None
            }
        },
        Kind::Method => {
            if matches_name(s, "correlation") {
                Some(Value::Method(BearingMethod::Correlation))
            } else if matches_name(s, "zero-crossing") {
                Some(Value::Method(BearingMethod::ZeroCrossing))
            } else {
                None
            }
        },
        Kind::Mode => {
            if matches_name(s, "simple") {
                Some(Value::Mode(NorthTrackingMode::Simple))
            } else if matches_name(s, "dpll") {
                Some(Value::Mode(NorthTrackingMode::Dpll))
            } else {
                None
            }
        },
        Kind::Estimator => {
            if matches_name(s, "hard-limiter") {
                Some(Value::Estimator(NorthPulseEstimator::HardLimiter))
            } else if matches_name(s, "amplitude-centroid") {
                Some(Value::Estimator(NorthPulseEstimator::AmplitudeCentroid))
            } else if matches_name(s, "energy-centroid") {
                Some(Value::Estimator(NorthPulseEstimator::EnergyCentroid))
            } else {
                None
            }
        },
    }
}

/// Why a value is refused.
pub open spec fn refusal_spec(kind: Kind, key: Seq<char>, value: Seq<char>) -> Seq<char> {
    match kind {
        Kind::Number => key + " takes a number, got "@ + value,
        Kind::Count => key + " takes a whole number, got "@ + value,
        Kind::Flag => key + " takes true or false, got "@ + value,
        _ => key + ": "@ + value + " is not one of its values"@,
    }
}

/// Why a value is refused.
pub fn refusal(kind: Kind, key: &str, value: &str) -> (m: String)
    ensures
        m@ == refusal_spec(kind, key@, value@),
{
    let mut m: String = text::owned(key);
    match kind {
        Kind::Number => m.append(" takes a number, got "),
        Kind::Count => m.append(" takes a whole number, got "),
        Kind::Flag => m.append(" takes true or false, got "),
        _ => m.append(": "),
    }
    m.append(value);
    match kind {
        Kind::Number | Kind::Count | Kind::Flag => {},
        _ => m.append(" is not one of its values"),
    }
    m
}

/// Set a setting from a text. A text that stands for no value of its kind is
/// refused and changes nothing.
pub fn set(config: &mut RdfConfig, key: Key, value: &str, number: Option<Single>) -> (r: Result<
    (),
    String,
>)
    ensures
        match (value_spec(key.kind_spec(), value@, number), r) {
            (Some(v), Ok(())) => *final(config) == key.put_spec(*old(config), v),
            (None, Err(m)) => {
                &&& *final(config) == *old(config)
                &&& m@ == refusal_spec(key.kind_spec(), key.name_spec(), value@)
            },
            _ => false,
        },
{
    match read_value(key.kind(), value, number) {
        Some(v) => {
            key.put(config, v);
            Ok(())
        },
        None => Err(refusal(key.kind(), key.name(), value)),
    }
}

/// Setting a setting twice leaves nothing of the first value.
pub proof fn last_value_wins(key: Key, config: RdfConfig, first: Value, second: Value)
    requires
        value_kind(first) == key.kind_spec(),
        value_kind(second) == key.kind_spec(),
    ensures
        key.put_spec(key.put_spec(config, first), second) == key.put_spec(config, second),
{
}

/// What a setting is set to; one that is set to nothing reads as `otherwise`.
pub open spec fn setting(key: Key, config: RdfConfig, otherwise: Single) -> Value {
    match key {
        Key::SampleRate => Value::Count(config.audio.sample_rate as usize),
        Key::BufferSize => Value::Count(config.audio.buffer_size),
        Key::SmoothingWindow => Value::Count(config.bearing.smoothing_window),
        Key::Method => Value::Method(config.doppler.method),
        Key::TimingAdjustment => Value::Number(config.doppler.north_tick_timing_adjustment_us),
        Key::BandpassTaps => Value::Count(config.doppler.bandpass_taps),
        Key::Mode => Value::Mode(config.north_tick.mode),
        Key::Estimator => Value::Estimator(config.north_tick.estimator),
        Key::AgcEnabled => Value::Flag(config.north_tick.agc.enabled),
        Key::Gain => Value::Number(config.north_tick.gain_db),
        Key::HighpassCutoff => Value::Number(config.north_tick.highpass_cutoff),
        Key::HighpassTransition => Value::Number(config.north_tick.highpass_transition_hz),
        Key::HighpassLength => Value::Number(config.north_tick.fir_highpass_length_us),
        Key::Threshold => Value::Number(
            match config.north_tick.threshold_fraction {
                Some(x) => x,
                None => otherwise,
            },
        ),
        Key::PulseAmplitude => Value::Number(config.north_tick.expected_pulse_amplitude),
        Key::MinInterval => Value::Number(config.north_tick.min_interval_ms),
        Key::MaxCoast => Value::Number(config.north_tick.max_coast_ms),
        Key::GateSigma => Value::Number(config.north_tick.gate_sigma),
        Key::InitialFrequency => Value::Number(config.north_tick.dpll.initial_frequency_hz),
        Key::NaturalFrequency => Value::Number(config.north_tick.dpll.natural_frequency_hz),
        Key::DampingRatio => Value::Number(config.north_tick.dpll.damping_ratio),
    }
}

/// Settings do not touch one another: setting one leaves every other one as it
/// is.
pub proof fn other_settings_stay(
    a: Key,
    b: Key,
    config: RdfConfig,
    value: Value,
    otherwise: Single,
)
    requires
        a != b,
    ensures
        setting(b, a.put_spec(config, value), otherwise) == setting(b, config, otherwise),
{
}

/// The kind of a value.
pub open spec fn value_kind(v: Value) -> Kind {
    match v {
        Value::Number(_) => Kind::Number,
        Value::Count(_) => Kind::Count,
        Value::Flag(_) => Kind::Flag,
        Value::Method(_) => Kind::Method,
        Value::Mode(_) => Kind::Mode,
        Value::Estimator(_) => Kind::Estimator,
    }
}

} // verus!
