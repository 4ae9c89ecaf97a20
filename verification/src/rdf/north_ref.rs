//! North reference ticks.
use crate::close;
use crate::config::{NorthTickConfig, NorthTrackingMode};
use crate::error;
use crate::error::Template;
use crate::rdf::north_ref_common;
use crate::rdf::north_ref_common::{ChannelReport, NorthTickFault};
use crate::rdf::north_ref_dpll;
use crate::rdf::north_ref_dpll::{DpllFault, DpllNorthTracker};
use crate::rdf::north_ref_simple::SimpleNorthTracker;
use crate::rdf::rotation_loop::LockQualityWeights;
use crate::signal_processing::fir_highpass::FirHighpass;
use crate::single::Single;
use vstd::prelude::*;

verus! {

/// North reference tick event
///
/// Represents a detected north timing pulse with its sample position and
/// estimated rotation period. Includes optional sub-sample timing correction
/// and DPLL phase/frequency state for reference signal generation.
#[derive(Debug, Clone, Copy)]
pub struct NorthTick {
    /// Global sample index where the tick was detected
    pub sample_index: usize,
    /// Estimated rotation period in samples (None if not yet established)
    pub period: Option<Single>,
    /// DPLL lock quality (0-1, higher is better lock)
    pub lock_quality: Option<Single>,
    /// Variance of this reference's own timing, in radians squared of
    /// rotation phase, or None if the tracker cannot estimate it.
    ///
    /// A bearing is measured against this tick, so whatever the tick's timing
    /// scatters by, the bearing scatters by too.
    pub phase_variance: Option<Single>,
    /// Fractional timing offset (samples) relative to `sample_index`.
    /// Positive means the effective tick time is after `sample_index`.
    pub fractional_sample_offset: Single,
    /// Reference phase offset at the effective tick time (radians, 0 = north).
    pub phase: Single,
    /// DPLL frequency estimate (radians/sample)
    pub frequency: Single,
}

/// Whether the rate and the period of a tick are those of one rotation: over
/// one period the reference advances by one full turn of 2 pi, to seven
/// digits. A tick without a period has no rate.
pub open spec fn turns_once(t: NorthTick) -> bool {
    match t.period {
        Some(p) => p.finite() && p.rank() > 0 && t.frequency.finite() ==> close::is_turn(
            t.frequency,
            p,
        ),
        None => t.frequency.rank() == 0,
    }
}

/// Whether each tick turns once in its period.
pub open spec fn all_turn_once(ticks: Seq<NorthTick>) -> bool {
    forall|i: int| 0 <= i < ticks.len() ==> turns_once(#[trigger] ticks[i])
}

/// Where a position relative to the sample clock lies on it. The clock does
/// not go below zero, nor beyond the largest `usize`.
pub open spec fn on_clock(clock: int, rel: int) -> int {
    if clock + rel < 0 {
        0
    } else if clock + rel > usize::MAX {
        usize::MAX as int
    } else {
        clock + rel
    }
}

/// Where a position relative to the sample clock lies on it.
pub fn clock_position(clock: usize, rel: isize) -> (at: usize)
    ensures
        at == on_clock(clock as int, rel as int),
{
    let at: i128 = clock as i128 + rel as i128;
    if at < 0 {
        0
    } else if at > usize::MAX as i128 {
        usize::MAX
    } else {
        at as usize
    }
}

/// `a - b`, or zero where that would be negative.
pub open spec fn behind(a: int, b: int) -> int {
    if a > b {
        a - b
    } else {
        0
    }
}

/// `a - b`, or zero where that would be negative.
pub fn samples_behind(a: usize, b: usize) -> (d: usize)
    ensures
        d == behind(a as int, b as int),
{
    if a > b {
        a - b
    } else {
        0
    }
}

/// The sample clock after this many samples. It stops at the largest `usize`.
pub fn clock_after(clock: usize, samples: usize) -> (at: usize)
    ensures
        at == on_clock(clock as int, samples as int),
{
    if samples <= usize::MAX - clock {
        clock + samples
    } else {
        usize::MAX
    }
}

/// Why a tracker cannot be made.
#[derive(Clone, Copy, Debug, PartialEq, Eq, Structural)]
pub enum TrackerFault {
    Simple(NorthTickFault),
    Dpll(DpllFault),
}

impl TrackerFault {
    /// The message of a fault.
    pub open spec fn layout(self) -> error::Layout {
        match self {
            TrackerFault::Simple(fault) => fault.layout(),
            TrackerFault::Dpll(fault) => fault.layout(),
        }
    }

    /// The message of a fault.
    pub fn template(&self) -> (t: Template)
        ensures
            t@ == self.layout(),
    {
        match *self {
            TrackerFault::Simple(fault) => fault.template(),
            TrackerFault::Dpll(fault) => fault.template(),
        }
    }
}

/// Why a tracker cannot be made from a configuration.
pub open spec fn tracker_fault(config: NorthTickConfig, sample_rate: Single) -> Option<
    TrackerFault,
> {
    match config.mode {
        NorthTrackingMode::Simple => match north_ref_common::north_tick_fault(
            config,
            sample_rate,
        ) {
            Some(fault) => Some(TrackerFault::Simple(fault)),
            None => None,
        },
        NorthTrackingMode::Dpll => match north_ref_dpll::dpll_fault(config, sample_rate) {
            Some(fault) => Some(TrackerFault::Dpll(fault)),
            None => None,
        },
    }
}

/// Refuse settings that the tracker in use cannot work with.
pub fn validate_tracker_config(config: &NorthTickConfig, sample_rate: Single) -> (r: Result<
    (),
    TrackerFault,
>)
    ensures
        match r {
            Ok(()) => tracker_fault(*config, sample_rate) is None,
            Err(f) => tracker_fault(*config, sample_rate) == Some(f),
        },
{
    match config.mode {
        NorthTrackingMode::Simple => match north_ref_common::validate_north_tick_config(
            config,
            sample_rate,
        ) {
            Ok(()) => Ok(()),
            Err(fault) => Err(TrackerFault::Simple(fault)),
        },
        NorthTrackingMode::Dpll => match north_ref_dpll::validate_dpll_config(
            config,
            sample_rate,
        ) {
            Ok(()) => Ok(()),
            Err(fault) => Err(TrackerFault::Dpll(fault)),
        },
    }
}

/// North reference tracker
///
/// Detects and tracks north timing reference pulses from the antenna array.
/// Provides rotation frequency estimates for bearing calculations.
pub enum NorthReferenceTracker {
    Simple(Box<SimpleNorthTracker>),
    Dpll(Box<DpllNorthTracker>),
}

impl NorthReferenceTracker {
    pub open spec fn wf(&self) -> bool {
        match self {
            NorthReferenceTracker::Simple(t) => t.wf(),
            NorthReferenceTracker::Dpll(t) => t.wf(),
        }
    }

    /// What lost samples make of a tracker.
    pub open spec fn skipped_to(self, after: NorthReferenceTracker, samples: int) -> bool {
        match (self, after) {
            (NorthReferenceTracker::Simple(a), NorthReferenceTracker::Simple(b)) => {
                a.skipped_to(*b, samples)
            },
            (NorthReferenceTracker::Dpll(a), NorthReferenceTracker::Dpll(b)) => {
                a.skipped_to(*b, samples)
            },
            _ => false,
        }
    }

    /// What the end of the stream makes of a tracker.
    pub open spec fn finished_to(
        self,
        after: NorthReferenceTracker,
        ticks: Seq<NorthTick>,
    ) -> bool {
        match (self, after) {
            (NorthReferenceTracker::Simple(a), NorthReferenceTracker::Simple(b)) => {
                a.finished_to(*b, ticks)
            },
            (NorthReferenceTracker::Dpll(a), NorthReferenceTracker::Dpll(b)) => {
                a.finished_to(*b, ticks)
            },
            _ => false,
        }
    }

    /// What a buffer makes of a tracker, and the ticks in it.
    pub open spec fn heard_to(
        self,
        after: NorthReferenceTracker,
        buffer: Seq<Single>,
        ticks: Seq<NorthTick>,
    ) -> bool {
        match (self, after) {
            (NorthReferenceTracker::Simple(a), NorthReferenceTracker::Simple(b)) => {
                a.heard_to(*b, buffer, ticks)
            },
            (NorthReferenceTracker::Dpll(a), NorthReferenceTracker::Dpll(b)) => {
                a.heard_to(*b, buffer, ticks)
            },
            _ => false,
        }
    }

    /// A tracker that has just been set up for a configuration.
    pub open spec fn starts(
        self,
        config: NorthTickConfig,
        sample_rate: Single,
        gain: Single,
        agc_alpha: Single,
        highpass: FirHighpass,
        weights: LockQualityWeights,
    ) -> bool {
        match self {
            NorthReferenceTracker::Simple(t) => config.mode == NorthTrackingMode::Simple
                && t.starts(config, sample_rate, gain, highpass),
            NorthReferenceTracker::Dpll(t) => config.mode == NorthTrackingMode::Dpll
                && t.starts(config, sample_rate, gain, agc_alpha, highpass, weights),
        }
    }

    /// Create a new north reference tracker
    ///
    /// # Arguments
    /// * `config` - North tick detection configuration
    /// * `sample_rate` - Audio sample rate in Hz
    /// * `gain` - the amplitude factor that `config.gain_db` stands for
    /// * `agc_alpha` - the weight of a single step of the gain control
    /// * `highpass` - the highpass that the configuration asks for
    /// * `weights` - what makes up the lock quality
    pub fn new(
        config: &NorthTickConfig,
        sample_rate: Single,
        gain: Single,
        agc_alpha: Single,
        highpass: FirHighpass,
        weights: LockQualityWeights,
    ) -> (r: Result<NorthReferenceTracker, TrackerFault>)
        requires
            highpass.wf(),
            highpass.coefficients().len() <= isize::MAX,
        ensures
            match r {
                Err(f) => tracker_fault(*config, sample_rate) == Some(f),
                Ok(t) => {
                    &&& tracker_fault(*config, sample_rate) is None
                    &&& t.wf()
                    &&& t.starts(*config, sample_rate, gain, agc_alpha, highpass, weights)
                },
            },
    {
        match config.mode {
            NorthTrackingMode::Simple => match SimpleNorthTracker::new(
                config,
                sample_rate,
                gain,
                highpass,
            ) {
                Ok(t) => Ok(NorthReferenceTracker::Simple(Box::new(t))),
                Err(fault) => Err(TrackerFault::Simple(fault)),
            },
            NorthTrackingMode::Dpll => match DpllNorthTracker::new(
                config,
                sample_rate,
                gain,
                agc_alpha,
                highpass,
                weights,
            ) {
                Ok(t) => Ok(NorthReferenceTracker::Dpll(Box::new(t))),
                Err(fault) => Err(TrackerFault::Dpll(fault)),
            },
        }
    }

    /// Detect the ticks in a buffer of the north channel.
    pub fn process_buffer(&mut self, buffer: &[Single]) -> (ticks: Vec<NorthTick>)
        requires
            old(self).wf(),
            buffer.len() <= isize::MAX,
        ensures
            final(self).wf(),
            old(self).heard_to(*final(self), buffer@, ticks@),
            all_turn_once(ticks@),
    {
        match self {
            NorthReferenceTracker::Simple(tracker) => tracker.process_buffer(buffer),
            NorthReferenceTracker::Dpll(tracker) => tracker.process_buffer(buffer),
        }
    }

    /// Advance the tracker's sample clock over samples that were lost
    /// (e.g. capture chunks dropped under overload) without processing
    /// audio, so subsequent tick indices stay on the real timeline.
    pub fn advance_samples(&mut self, samples: usize)
        requires
            old(self).wf(),
        ensures
            final(self).wf(),
            old(self).skipped_to(*final(self), samples as int),
    {
        match self {
            NorthReferenceTracker::Simple(tracker) => tracker.advance_samples(samples),
            NorthReferenceTracker::Dpll(tracker) => tracker.advance_samples(samples),
        }
    }

    /// Emit any tick still pending at end-of-stream (a crossing whose
    /// peak-search window had not completed when the last buffer ended).
    pub fn finish(&mut self) -> (ticks: Vec<NorthTick>)
        requires
            old(self).wf(),
        ensures
            final(self).wf(),
            old(self).finished_to(*final(self), ticks@),
            all_turn_once(ticks@),
    {
        match self {
            NorthReferenceTracker::Simple(tracker) => tracker.finish(),
            NorthReferenceTracker::Dpll(tracker) => tracker.finish(),
        }
    }

    pub open spec fn rotation_frequency_spec(self) -> Option<Single> {
        match self {
            NorthReferenceTracker::Simple(t) => t.rotation_frequency_spec(),
            NorthReferenceTracker::Dpll(t) => t.rotation_frequency_spec(),
        }
    }

    /// The rotation in Hz, where it is known.
    pub fn rotation_frequency(&self) -> (f: Option<Single>)
        ensures
            f == self.rotation_frequency_spec(),
    {
        match self {
            NorthReferenceTracker::Simple(tracker) => tracker.rotation_frequency(),
            NorthReferenceTracker::Dpll(tracker) => tracker.rotation_frequency(),
        }
    }

    pub open spec fn lock_quality_spec(self) -> Option<Single> {
        match self {
            NorthReferenceTracker::Simple(_) => None,
            NorthReferenceTracker::Dpll(t) => t.turn().lock_quality(),
        }
    }

    /// How well the loop is locked, from 0 to 1, where there is a loop.
    pub fn lock_quality(&self) -> (q: Option<Single>)
        ensures
            q == self.lock_quality_spec(),
    {
        match self {
            NorthReferenceTracker::Simple(tracker) => tracker.lock_quality(),
            NorthReferenceTracker::Dpll(tracker) => tracker.lock_quality(),
        }
    }

    pub open spec fn watch(self) -> north_ref_common::WatchState {
        match self {
            NorthReferenceTracker::Simple(t) => t.watch(),
            NorthReferenceTracker::Dpll(t) => t.watch(),
        }
    }

    /// Samples since a north pulse was last detected.
    ///
    /// Grows without bound while the channel is silent, which is the one
    /// failure that reports nothing on its own: below the detection
    /// threshold there are no ticks, so no bearings, and no metric that
    /// would show a problem.
    pub fn samples_since_detection(&self) -> (n: usize)
        ensures
            n == self.watch().since,
    {
        match self {
            NorthReferenceTracker::Simple(tracker) => tracker.samples_since_detection(),
            NorthReferenceTracker::Dpll(tracker) => tracker.samples_since_detection(),
        }
    }

    /// What there is to say of the channel after the last buffer.
    pub fn channel_report(&self) -> (r: ChannelReport)
        ensures
            r == self.watch().report,
    {
        match self {
            NorthReferenceTracker::Simple(tracker) => tracker.channel_report(),
            NorthReferenceTracker::Dpll(tracker) => tracker.channel_report(),
        }
    }

    pub open spec fn phase_error_variance_spec(self) -> Option<Single> {
        match self {
            NorthReferenceTracker::Simple(_) => None,
            NorthReferenceTracker::Dpll(t) => t.turn().errors.variance(),
        }
    }

    /// The scatter of the phase error, where there is a loop.
    pub fn phase_error_variance(&self) -> (v: Option<Single>)
        ensures
            v == self.phase_error_variance_spec(),
    {
        match self {
            NorthReferenceTracker::Simple(tracker) => tracker.phase_error_variance(),
            NorthReferenceTracker::Dpll(tracker) => tracker.phase_error_variance(),
        }
    }

    pub open spec fn filtered(self) -> Seq<Single> {
        match self {
            NorthReferenceTracker::Simple(t) => t.filtered(),
            NorthReferenceTracker::Dpll(t) => t.filtered(),
        }
    }

    /// The filtered buffer (after highpass) from the last call of
    /// `process_buffer`.
    pub fn filtered_buffer(&self) -> (b: &[Single])
        ensures
            b@ == self.filtered(),
    {
        match self {
            NorthReferenceTracker::Simple(tracker) => tracker.filtered_buffer(),
            NorthReferenceTracker::Dpll(tracker) => tracker.filtered_buffer(),
        }
    }
}

} // verus!
