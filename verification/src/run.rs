//! The decisions of a run: what is written out, when, and what is warned of.
use crate::config::{
    BearingMethod, ChannelRole, NorthPulseEstimator, NorthTrackingMode, RdfConfig,
    RotationFrequency,
};
use crate::double::Double;
use crate::output::BearingOutput;
use crate::processing::TickResult;
use crate::rdf::bearing::BearingMeasurement;
use crate::signal_processing::math;
use crate::single::Single;
use vstd::prelude::*;

verus! {

/// Output throttling in signal time (sample frames), not wall clock: on live
/// capture the two agree, and on file input a wall clock would let a
/// faster-than-real-time decode emit every rotation's tick regardless of the
/// configured rate.
pub struct OutputThrottle {
    interval_frames: Double,
    next_output_frame: Double,
}

/// The frames from one line to the next at an output rate.
pub open spec fn interval_spec(sample_rate: u32, output_rate_hz: Single) -> Double {
    Double::from_count_spec(sample_rate as nat).over_spec(
        Double::from_single_spec(output_rate_hz),
    )
}

impl OutputThrottle {
    pub closed spec fn interval(&self) -> Double {
        self.interval_frames
    }

    pub closed spec fn next(&self) -> Double {
        self.next_output_frame
    }

    /// Whether a tick at a position may be written out. A forced one always
    /// may: it is the last of the stream.
    pub open spec fn is_due(&self, sample_index: nat, force: bool) -> bool {
        force || !Double::from_count_spec(sample_index).lt_spec(self.next())
    }

    pub fn new(sample_rate: u32, output_rate_hz: Single) -> (t: OutputThrottle)
        ensures
            t.interval() == interval_spec(sample_rate, output_rate_hz),
            t.next() == (Double { bits: 0 }),
    {
        OutputThrottle {
            interval_frames: Double::from_count(sample_rate as usize).over(
                Double::from_single(output_rate_hz),
            ),
            next_output_frame: Double::zero(),
        }
    }

    /// Whether a tick at a position may be written out.
    pub fn due(&self, sample_index: usize, force: bool) -> (b: bool)
        ensures
            b == self.is_due(sample_index as nat, force),
    {
        force || !Double::from_count(sample_index).less_than(self.next_output_frame)
    }

    /// Note that a tick has been written out: the next one is due an interval
    /// later.
    pub fn note(&mut self, sample_index: usize)
        ensures
            final(self).interval() == old(self).interval(),
            final(self).next() == Double::from_count_spec(sample_index as nat).plus_spec(
                old(self).interval(),
            ),
    {
        self.next_output_frame = Double::from_count(sample_index).plus(self.interval_frames);
    }

    /// After a tick has been written out, no tick within an interval of it is,
    /// unless it is forced.
    pub proof fn lines_keep_their_distance(before: &Self, after: &Self, written: nat, at: nat)
        requires
            after.next() == Double::from_count_spec(written).plus_spec(before.interval()),
            Double::from_count_spec(at).lt_spec(
                Double::from_count_spec(written).plus_spec(before.interval()),
            ),
        ensures
            !after.is_due(at, false),
            after.is_due(at, true),
    {
    }
}

/// A bearing with the north reference offset added, within a turn.
pub open spec fn adjusted_spec(bearing: Single, offset: Single) -> Single {
    math::turn_spec(bearing.plus_spec(offset))
}

/// A bearing with the north reference offset added, within a turn.
pub fn adjusted_bearing(bearing: Single, north_offset_degrees: Single) -> (b: Single)
    ensures
        b == adjusted_spec(bearing, north_offset_degrees),
{
    math::one_turn(bearing.plus(north_offset_degrees))
}

/// A bearing that is written out is in [0, 360), whatever the offset is, as
/// long as the two add up to a number.
pub proof fn adjusted_is_in_range(bearing: Single, offset: Single)
    requires
        bearing.plus_spec(offset).finite(),
    ensures
        math::in_turn(adjusted_spec(bearing, offset)),
{
    math::turn_is_in_range(bearing.plus_spec(offset));
}

/// What is written out for a bearing.
pub open spec fn output_of(
    result: TickResult,
    b: BearingMeasurement,
    offset: Single,
    phase_error_variance: Option<Single>,
) -> BearingOutput {
    BearingOutput {
        bearing: adjusted_spec(b.bearing_degrees, offset),
        raw: adjusted_spec(b.raw_bearing, offset),
        confidence: b.confidence,
        snr_db: b.metrics.snr_db,
        bearing_uncertainty_deg: b.metrics.bearing_uncertainty_deg,
        signal_strength: b.metrics.signal_strength,
        signal_present: b.signal_present,
        tone_peak: b.metrics.tone_peak,
        resultant_length: b.metrics.resultant_length,
        lock_quality: result.north_tick.lock_quality,
        phase_error_variance,
    }
}

/// What comes of a tick.
#[derive(Debug, Clone, Copy)]
pub struct TickOutput {
    /// The bearing for the statistics of a run, where the tick has one
    pub for_stats: Option<Single>,
    /// What to write out, where the tick is due
    pub line: Option<BearingOutput>,
}

/// What comes of a tick: every bearing counts for the statistics of a file,
/// and one that is due is written out.
pub fn emit_tick(
    result: &TickResult,
    phase_error_variance: Option<Single>,
    north_offset_degrees: Single,
    is_file_input: bool,
    force: bool,
    throttle: &mut OutputThrottle,
) -> (r: TickOutput)
    ensures
        match result.bearing {
            None => r.for_stats is None && r.line is None && *final(throttle) == *old(throttle),
            Some(b) => {
                let index = result.north_tick.sample_index as nat;
                &&& r.for_stats == if is_file_input {
                    Some(adjusted_spec(b.bearing_degrees, north_offset_degrees))
                } else {
                    None
                }
                &&& if old(throttle).is_due(index, force) {
                    &&& r.line == Some(
                        output_of(*result, b, north_offset_degrees, phase_error_variance),
                    )
                    &&& final(throttle).interval() == old(throttle).interval()
                    &&& final(throttle).next() == Double::from_count_spec(index).plus_spec(
                        old(throttle).interval(),
                    )
                } else {
                    r.line is None && *final(throttle) == *old(throttle)
                }
            },
        },
{
    let bearing: BearingMeasurement = match result.bearing {
        Some(b) => b,
        None => {
            return TickOutput { for_stats: None, line: None };
        },
    };
    let adjusted: Single = adjusted_bearing(bearing.bearing_degrees, north_offset_degrees);
    // Only for file input, where the summary is printed at the end. Fed
    // before the throttle so the summary covers every tick, not just the
    // emitted lines.
    let for_stats: Option<Single> = if is_file_input {
        Some(adjusted)
    } else {
        None
    };
    if !throttle.due(result.north_tick.sample_index, force) {
        return TickOutput { for_stats, line: None };
    }
    let output: BearingOutput = BearingOutput {
        bearing: adjusted,
        raw: adjusted_bearing(bearing.raw_bearing, north_offset_degrees),
        confidence: bearing.confidence,
        snr_db: bearing.metrics.snr_db,
        bearing_uncertainty_deg: bearing.metrics.bearing_uncertainty_deg,
        signal_strength: bearing.metrics.signal_strength,
        signal_present: bearing.signal_present,
        tone_peak: bearing.metrics.tone_peak,
        resultant_length: bearing.metrics.resultant_length,
        lock_quality: result.north_tick.lock_quality,
        phase_error_variance,
    };
    throttle.note(result.north_tick.sample_index);
    TickOutput { for_stats, line: Some(output) }
}

/// A warning that north ticks are missing.
#[derive(Debug, Clone, Copy, PartialEq, Eq)]
pub struct MissingNorth {
    /// Whether no tick has been seen at all yet
    pub waiting: bool,
    /// How long there has been none, in seconds of signal
    pub silent_secs: Single,
}

/// North-tick staleness tracking in signal time (sample frames), so it also
/// works for faster-than-real-time file input.
pub struct NorthStaleness {
    sample_rate: u32,
    interval_frames: u64,
    frames_processed: u64,
    last_tick_frame: u64,
    next_warning_frame: u64,
}

/// What the tracking holds.
pub ghost struct Staleness {
    pub sample_rate: int,
    pub interval: int,
    pub processed: int,
    pub last_tick: int,
    pub next_warning: int,
}

/// A frame count, at most the largest `u64`.
pub open spec fn frame_sum(a: int, b: int) -> int {
    if a + b <= u64::MAX {
        a + b
    } else {
        u64::MAX as int
    }
}

impl Staleness {
    /// Whether a buffer brings a warning: there are no ticks in it, and the
    /// time is up.
    pub open spec fn warns(self, frames: int, any_ticks: bool) -> bool {
        !any_ticks && frame_sum(self.processed, frames) >= self.next_warning
    }

    /// The tracking after a buffer. A tick starts the waiting anew, and so
    /// does a warning.
    pub open spec fn after(self, frames: int, any_ticks: bool) -> Staleness {
        let processed = frame_sum(self.processed, frames);
        Staleness {
            processed,
            last_tick: if any_ticks {
                processed
            } else {
                self.last_tick
            },
            next_warning: if any_ticks || self.warns(frames, any_ticks) {
                frame_sum(processed, self.interval)
            } else {
                self.next_warning
            },
            ..self
        }
    }

    /// A buffer with a tick is never warned of, and after a warning as after a
    /// tick the next one is an interval away.
    pub proof fn warnings_keep_their_distance(
        self,
        frames: int,
        any_ticks: bool,
        more: int,
        later_ticks: bool,
    )
        requires
            any_ticks || self.warns(frames, any_ticks),
            0 <= more < self.interval,
            frame_sum(self.processed, frames) + self.interval <= u64::MAX,
        ensures
            !self.after(frames, any_ticks).warns(more, later_ticks),
    {
    }
}

/// The frames in a timeout.
pub open spec fn timeout_frames(timeout_secs: Single, sample_rate: u32) -> int {
    timeout_secs.times_spec(Single::from_integer_spec(sample_rate as int)).to_count_spec() as int
}

/// The seconds that frames without a tick take.
pub open spec fn silence_spec(frames: int, sample_rate: int) -> Single {
    Single::from_integer_spec(frames).over_spec(Single::from_integer_spec(sample_rate))
}

impl View for NorthStaleness {
    type V = Staleness;

    closed spec fn view(&self) -> Staleness {
        Staleness {
            sample_rate: self.sample_rate as int,
            interval: self.interval_frames as int,
            processed: self.frames_processed as int,
            last_tick: self.last_tick_frame as int,
            next_warning: self.next_warning_frame as int,
        }
    }
}

fn frames_after(a: u64, b: u64) -> (r: u64)
    ensures
        r == frame_sum(a as int, b as int),
{
    if b <= u64::MAX - a {
        a + b
    } else {
        u64::MAX
    }
}

impl NorthStaleness {
    /// Ticks lie no further than the frames that have gone by.
    pub closed spec fn wf(&self) -> bool {
        self.last_tick_frame <= self.frames_processed
    }

    pub fn new(timeout_secs: Single, sample_rate: u32) -> (s: NorthStaleness)
        ensures
            s.wf(),
            s@ == (Staleness {
                sample_rate: sample_rate as int,
                interval: timeout_frames(timeout_secs, sample_rate),
                processed: 0,
                last_tick: 0,
                next_warning: timeout_frames(timeout_secs, sample_rate),
            }),
    {
        let interval: u64 = timeout_secs.times(
            Single::from_count(sample_rate as usize),
        ).to_count() as u64;
        NorthStaleness {
            sample_rate,
            interval_frames: interval,
            frames_processed: 0,
            last_tick_frame: 0,
            next_warning_frame: interval,
        }
    }

    /// Note a buffer of interleaved stereo samples, and whether it held ticks.
    /// Warns on a missing north reference, both before first acquisition and
    /// when the reference disappears mid-run.
    pub fn note(
        &mut self,
        samples: usize,
        any_ticks: bool,
        seen_before: bool,
    ) -> (warning: Option<MissingNorth>)
        requires
            old(self).wf(),
        ensures
            final(self).wf(),
            final(self)@ == old(self)@.after(samples as int / 2, any_ticks),
            warning == if old(self)@.warns(samples as int / 2, any_ticks) {
                Some(
                    MissingNorth {
                        waiting: !seen_before,
                        silent_secs: silence_spec(
                            final(self)@.processed - old(self)@.last_tick,
                            old(self)@.sample_rate,
                        ),
                    },
                )
            } else {
                None
            },
    {
        self.frames_processed = frames_after(self.frames_processed, (samples / 2) as u64);
        if any_ticks {
            self.last_tick_frame = self.frames_processed;
            self.next_warning_frame = frames_after(self.frames_processed, self.interval_frames);
            return None;
        }
        if self.frames_processed < self.next_warning_frame {
            return None;
        }
        let silent: i128 = (self.frames_processed - self.last_tick_frame) as i128;
        let silent_secs: Single = Single::from_index(silent).over(
            Single::from_count(self.sample_rate as usize),
        );
        self.next_warning_frame = frames_after(self.frames_processed, self.interval_frames);
        Some(MissingNorth { waiting: !seen_before, silent_secs })
    }
}

/// What the arguments of a run set.
#[derive(Debug, Clone, Copy)]
pub struct RunSettings {
    pub method: BearingMethod,
    pub north_mode: NorthTrackingMode,
    pub north_estimator: NorthPulseEstimator,
    pub rotation: Option<RotationFrequency>,
    pub swap_channels: bool,
    pub output_rate: Single,
    pub north_offset: Single,
    pub north_tick_gain: Single,
}

/// A configuration with the settings of a run.
pub open spec fn with_settings(config: RdfConfig, s: RunSettings) -> RdfConfig {
    let set = RdfConfig {
        doppler: crate::config::DopplerConfig { method: s.method, ..config.doppler },
        north_tick: crate::config::NorthTickConfig {
            mode: s.north_mode,
            estimator: s.north_estimator,
            ..config.north_tick
        },
        bearing: crate::config::BearingConfig {
            output_rate_hz: s.output_rate,
            north_offset_degrees: s.north_offset,
            ..config.bearing
        },
        ..config
    };
    let tuned = match s.rotation {
        Some(r) => set.retuned(r),
        None => set,
    };
    RdfConfig {
        north_tick: crate::config::NorthTickConfig {
            gain_db: s.north_tick_gain,
            ..tuned.north_tick
        },
        audio: if s.swap_channels {
            crate::config::AudioConfig {
                doppler_channel: ChannelRole::Right,
                north_tick_channel: ChannelRole::Left,
                ..tuned.audio
            }
        } else {
            tuned.audio
        },
        ..tuned
    }
}

/// Apply the settings of a run to a configuration.
pub fn apply_settings(config: &mut RdfConfig, s: &RunSettings)
    ensures
        *final(config) == with_settings(*old(config), *s),
{
    config.doppler.method = s.method;
    config.north_tick.mode = s.north_mode;
    config.north_tick.estimator = s.north_estimator;
    config.bearing.output_rate_hz = s.output_rate;
    config.bearing.north_offset_degrees = s.north_offset;
    if let Some(rotation) = s.rotation {
        config.apply_rotation(rotation);
    }
    config.north_tick.gain_db = s.north_tick_gain;
    if s.swap_channels {
        config.audio.doppler_channel = ChannelRole::Right;
        config.audio.north_tick_channel = ChannelRole::Left;
    }
}

} // verus!
