//! Edge detectors that report sample indices.
//!
//! These are the plain counterparts of the detectors that interpolate
//! crossings and search for local maxima.
use crate::signal_processing::peak_detector;
use crate::single::Single;
use vstd::prelude::*;

verus! {

/// Zero-crossing detector with hysteresis
///
/// Detects rising-edge zero crossings (negative to positive transitions) in
/// an audio signal with configurable hysteresis to reject noise.
///
/// The detector only triggers when the signal transitions from below
/// `-hysteresis` to above `+hysteresis` from one sample to the next,
/// providing noise immunity for noisy signals near zero.
pub struct ZeroCrossingDetector {
    last_sample: Single,
    hysteresis: Single,
}

/// The positions at which a test on each sample and the one before it holds.
pub open spec fn edges(
    before: Single,
    buffer: Seq<Single>,
    is_edge: spec_fn(Single, Single) -> bool,
    k: int,
) -> Seq<int>
    decreases k,
{
    if k <= 0 {
        Seq::empty()
    } else {
        let earlier = edges(before, buffer, is_edge, k - 1);
        let previous = if k == 1 {
            before
        } else {
            buffer[k - 2]
        };
        if is_edge(previous, buffer[k - 1]) {
            earlier.push(k - 1)
        } else {
            earlier
        }
    }
}

impl ZeroCrossingDetector {
    pub closed spec fn last(&self) -> Single {
        self.last_sample
    }

    pub closed spec fn threshold(&self) -> Single {
        self.hysteresis
    }

    /// Whether a step from one sample to the next is a crossing.
    pub open spec fn crosses(&self, previous: Single, sample: Single) -> bool {
        previous.lt_spec(self.threshold().neg_spec()) && self.threshold().lt_spec(sample)
    }

    /// Create a new zero-crossing detector
    ///
    /// # Arguments
    /// * `hysteresis` - Hysteresis threshold (typically 0.01-0.1)
    pub fn new(hysteresis: Single) -> (d: ZeroCrossingDetector)
        ensures
            d.last().bits == 0,
            d.threshold() == hysteresis,
    {
        ZeroCrossingDetector { last_sample: Single::zero(), hysteresis }
    }

    /// Detect a zero crossing in the next sample
    ///
    /// Returns `true` if a rising-edge crossing is detected (transition from
    /// negative to positive). The crossing must exceed the hysteresis threshold
    /// on both sides to trigger.
    ///
    /// # Arguments
    /// * `sample` - The next audio sample to process
    pub fn detect_crossing(&mut self, sample: Single) -> (crossing: bool)
        ensures
            crossing == old(self).crosses(old(self).last(), sample),
            final(self).last() == sample,
            final(self).threshold() == old(self).threshold(),
    {
        let crossing: bool = self.last_sample.less_than(self.hysteresis.negated()) && sample.above(
            self.hysteresis,
        );
        self.last_sample = sample;
        crossing
    }

    /// Find all zero crossings in a buffer
    ///
    /// Returns a vector of sample indices where rising-edge crossings occur.
    ///
    /// # Arguments
    /// * `buffer` - Audio samples to process
    pub fn find_all_crossings(&mut self, buffer: &[Single]) -> (crossings: Vec<usize>)
        ensures
            crossings@.map_values(|c: usize| c as int) == edges(
                old(self).last(),
                buffer@,
                |p: Single, s: Single| old(self).crosses(p, s),
                buffer.len() as int,
            ),
            final(self).last() == if buffer.len() > 0 {
                buffer@.last()
            } else {
                old(self).last()
            },
            final(self).threshold() == old(self).threshold(),
    {
        let mut crossings: Vec<usize> = Vec::new();
        let ghost test = |p: Single, s: Single| old(self).crosses(p, s);
        let mut i: usize = 0;
        while i < buffer.len()
            invariant
                i <= buffer.len(),
                self.threshold() == old(self).threshold(),
                self.last() == if i > 0 {
                    buffer@[i - 1]
                } else {
                    old(self).last()
                },
                test == (|p: Single, s: Single| old(self).crosses(p, s)),
                crossings@.map_values(|c: usize| c as int) == edges(
                    old(self).last(),
                    buffer@,
                    test,
                    i as int,
                ),
            decreases buffer.len() - i,
        {
            let ghost found = crossings@;
            if self.detect_crossing(buffer[i]) {
                crossings.push(i);
                assert(crossings@.map_values(|c: usize| c as int) =~= found.map_values(
                    |c: usize| c as int,
                ).push(i as int));
            }
            i = i + 1;
        }
        crossings
    }

    /// Reset detector state
    pub fn reset(&mut self)
        ensures
            final(self).last().bits == 0,
            final(self).threshold() == old(self).threshold(),
    {
        self.last_sample = Single::zero();
    }
}

/// Peak detector for north tick pulse detection
///
/// Detects peaks (rising-edge threshold crossings) in a signal with
/// configurable threshold and minimum spacing between peaks.
///
/// The detector triggers when the signal rises above the threshold and
/// enforces a minimum interval between detections to reject spurious
/// triggers from noise or ringing.
pub struct PeakDetector {
    threshold: Single,
    min_samples_between_peaks: usize,
    samples_since_peak: usize,
    last_sample: Single,
    above_threshold: bool,
}

/// The settings and the state of a detector. The search window plays no part
/// here.
impl View for PeakDetector {
    type V = peak_detector::PeakState;

    closed spec fn view(&self) -> peak_detector::PeakState {
        peak_detector::PeakState {
            threshold: self.threshold,
            min_interval: self.min_samples_between_peaks as nat,
            window: 0,
            context: 0,
            since: self.samples_since_peak as nat,
            last: self.last_sample,
            above: self.above_threshold,
            pending: None,
        }
    }
}

/// A detector that has seen no sample.
pub open spec fn fresh(threshold: Single, min_interval: nat) -> peak_detector::PeakState {
    peak_detector::PeakState {
        threshold,
        min_interval,
        window: 0,
        context: 0,
        since: min_interval,
        last: Single { bits: 0 },
        above: false,
        pending: None,
    }
}

impl PeakDetector {
    /// Create a new peak detector
    ///
    /// # Arguments
    /// * `threshold` - Amplitude threshold for peak detection (0-1 range)
    /// * `min_interval_samples` - Minimum samples between detected peaks
    pub fn new(threshold: Single, min_interval_samples: usize) -> (d: PeakDetector)
        ensures
            d@ == fresh(threshold, min_interval_samples as nat),
    {
        PeakDetector {
            threshold,
            min_samples_between_peaks: min_interval_samples,
            // Allow immediate first peak
            samples_since_peak: min_interval_samples,
            last_sample: Single::zero(),
            above_threshold: false,
        }
    }

    /// Detect a peak in the next sample
    ///
    /// Returns `true` if a rising-edge threshold crossing is detected and
    /// sufficient time has elapsed since the last peak.
    ///
    /// # Arguments
    /// * `sample` - The next audio sample to process
    pub fn detect_peak(&mut self, sample: Single) -> (fired: bool)
        ensures
            fired == old(self)@.fires(sample),
            final(self)@ == old(self)@.step(sample),
    {
        if self.samples_since_peak < usize::MAX {
            self.samples_since_peak = self.samples_since_peak + 1;
        }
        // Detect rising edge crossing threshold
        let crossed_threshold: bool = !self.above_threshold && self.last_sample.at_most(
            self.threshold,
        ) && sample.above(self.threshold) && self.samples_since_peak
            >= self.min_samples_between_peaks;

        // Track whether we're above threshold
        self.above_threshold = sample.above(self.threshold);
        self.last_sample = sample;

        if crossed_threshold {
            self.samples_since_peak = 0;
        }
        crossed_threshold
    }

    /// Find all peaks in a buffer
    ///
    /// Returns a vector of sample indices where peaks are detected.
    ///
    /// # Arguments
    /// * `buffer` - Audio samples to process
    pub fn find_all_peaks(&mut self, buffer: &[Single]) -> (peaks: Vec<usize>)
        ensures
            peaks@.map_values(|p: usize| p as int) == old(self)@.crossings(
                buffer@,
                buffer.len() as int,
            ),
            final(self)@ == old(self)@.after(buffer@, buffer.len() as int),
    {
        let mut peaks: Vec<usize> = Vec::new();
        let mut i: usize = 0;
        while i < buffer.len()
            invariant
                i <= buffer.len(),
                self@ == old(self)@.after(buffer@, i as int),
                peaks@.map_values(|p: usize| p as int) == old(self)@.crossings(buffer@, i as int),
            decreases buffer.len() - i,
        {
            let ghost found = peaks@;
            if self.detect_peak(buffer[i]) {
                peaks.push(i);
                assert(peaks@.map_values(|p: usize| p as int) =~= found.map_values(
                    |p: usize| p as int,
                ).push(i as int));
            }
            i = i + 1;
        }
        peaks
    }

    /// Reset detector state
    pub fn reset(&mut self)
        ensures
            final(self)@ == fresh(old(self)@.threshold, old(self)@.min_interval),
    {
        self.samples_since_peak = self.min_samples_between_peaks;
        self.last_sample = Single::zero();
        self.above_threshold = false;
    }
}

} // verus!
