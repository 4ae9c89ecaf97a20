//! FIR highpass filter with linear phase response.
use crate::double::Double;
use crate::error;
use crate::error::Template;
use crate::signal_processing::fir_core;
use crate::signal_processing::fir_core::FirFilterCore;
use crate::single::Single;
use vstd::prelude::*;

verus! {

/// Lowest edge that a stopband may end at, as a fraction of the sample rate
/// (0.001).
pub const LOWEST_EDGE: u64 = 0x3f50_624d_d2f1_a9fc;

/// Highest edge that a passband may start at (0.499).
pub const HIGHEST_EDGE: u64 = 0x3fdf_ef9d_b22d_0e56;

/// The number of taps that a linear-phase filter gets: an odd one.
pub open spec fn odd_taps_spec(num_taps: nat) -> nat {
    if num_taps % 2 == 0 {
        num_taps + 1
    } else {
        num_taps
    }
}

/// The number of taps that a linear-phase filter gets: an odd one.
pub fn odd_taps(num_taps: usize) -> (n: usize)
    ensures
        n == odd_taps_spec(num_taps as nat),
{
    if num_taps % 2 == 0 {
        num_taps + 1
    } else {
        num_taps
    }
}

/// A frequency as a fraction of the sample rate.
pub open spec fn normalized_spec(hz: Single, sample_rate: Single) -> Double {
    Double::from_single_spec(hz.over_spec(sample_rate))
}

/// A frequency as a fraction of the sample rate.
pub fn normalized(hz: Single, sample_rate: Single) -> (x: Double)
    ensures
        x == normalized_spec(hz, sample_rate),
{
    Double::from_single(hz.over(sample_rate))
}

/// Where the stopband of a highpass ends and its passband starts, as
/// fractions of the sample rate.
pub open spec fn highpass_edges(
    cutoff_hz: Single,
    sample_rate: Single,
    transition_hz: Single,
) -> (Double, Double) {
    let cutoff = normalized_spec(cutoff_hz, sample_rate);
    let transition = normalized_spec(transition_hz, sample_rate);
    (
        cutoff.minus_spec(transition).max_spec(Double { bits: LOWEST_EDGE }),
        cutoff.min_spec(Double { bits: HIGHEST_EDGE }.minus_spec(transition)),
    )
}

/// FIR highpass filter with linear phase response
///
/// Linear phase ensures predictable group delay for accurate north tick
/// timing. The coefficients come from the Parks-McClellan algorithm, run on
/// the band edges that `design_edges` gives.
pub struct FirHighpass {
    core: FirFilterCore,
}

/// The first position at which a sequence exceeds a level, or its length.
pub open spec fn first_above(s: Seq<Double>, level: Double) -> int
    decreases s.len(),
{
    if s.len() == 0 {
        0
    } else if level.lt_spec(s[0]) {
        0
    } else {
        1 + first_above(s.skip(1), level)
    }
}

/// The position of the largest coefficient, the first one of several.
pub open spec fn largest_tap(s: Seq<Double>, k: int) -> int
    decreases k,
{
    if k <= 1 {
        0
    } else {
        let m = largest_tap(s, k - 1);
        if s[m].lt_spec(s[k - 1]) {
            k - 1
        } else {
            m
        }
    }
}

impl FirHighpass {
    pub closed spec fn wf(&self) -> bool {
        self.core.wf()
    }

    pub closed spec fn coefficients(&self) -> Seq<Double> {
        self.core.coefficients()
    }

    /// The samples in the delay line, the newest first.
    pub closed spec fn history(&self) -> Seq<Double> {
        self.core.history()
    }

    /// The band edges to design a highpass for, where its bands leave room
    /// for one another.
    ///
    /// # Arguments
    /// * `cutoff_hz` - Cutoff frequency in Hz
    /// * `sample_rate` - Audio sample rate in Hz
    /// * `transition_hz` - Width of the transition below the cutoff in Hz
    pub fn design_edges(cutoff_hz: Single, sample_rate: Single, transition_hz: Single) -> (r: Result<
        (Double, Double),
        Template,
    >)
        ensures
            ({
                let edges = highpass_edges(cutoff_hz, sample_rate, transition_hz);
                match r {
                    Ok(e) => e == edges && !edges.1.le_spec(edges.0),
                    Err(t) => edges.1.le_spec(edges.0) && t@ == error::with_three(
                        "Invalid filter frequencies: cutoff="@,
                        cutoff_hz,
                        ", sample_rate="@,
                        sample_rate,
                        ", transition="@,
                        transition_hz,
                        ""@,
                    ),
                }
            }),
    {
        let cutoff: Double = normalized(cutoff_hz, sample_rate);
        let transition: Double = normalized(transition_hz, sample_rate);
        let stop_end: Double = cutoff.minus(transition).max(Double::from_bits(LOWEST_EDGE));
        let pass_start: Double = cutoff.min(Double::from_bits(HIGHEST_EDGE).minus(transition));
        if pass_start.at_most(stop_end) {
            return Err(
                Template::with_three(
                    "Invalid filter frequencies: cutoff=",
                    cutoff_hz,
                    ", sample_rate=",
                    sample_rate,
                    ", transition=",
                    transition_hz,
                    "",
                ),
            );
        }
        Ok((stop_end, pass_start))
    }

    /// A filter with the given coefficients.
    pub fn from_taps(taps: Vec<Double>) -> (f: FirHighpass)
        requires
            taps.len() > 0,
        ensures
            f.wf(),
            f.coefficients() == taps@,
            f.history() == Seq::new(taps@.len(), |i: int| Double { bits: 0 }),
    {
        FirHighpass { core: FirFilterCore::new(taps) }
    }

    /// Process a single audio sample through the filter
    pub fn process(&mut self, sample: Single) -> (output: Single)
        requires
            old(self).wf(),
        ensures
            final(self).wf(),
            final(self).coefficients() == old(self).coefficients(),
            final(self).history() == fir_core::shifted_in(old(self).history(), sample),
            output == fir_core::convolution(
                old(self).coefficients(),
                final(self).history(),
                old(self).coefficients().len() as int,
            ).to_single_spec(),
    {
        self.core.process(sample)
    }

    /// Process an entire buffer of audio samples in-place
    pub fn process_buffer(&mut self, buffer: &mut Vec<Single>)
        requires
            old(self).wf(),
        ensures
            final(self).wf(),
            final(self).coefficients() == old(self).coefficients(),
            final(self).history() == fir_core::history_after(
                old(self).history(),
                old(buffer)@,
                old(buffer)@.len() as int,
            ),
            final(buffer)@ == fir_core::filtered(
                old(self).coefficients(),
                old(self).history(),
                old(buffer)@,
            ),
    {
        self.core.process_buffer(buffer)
    }

    /// Forget every sample that has gone through the filter.
    pub fn reset(&mut self)
        requires
            old(self).wf(),
        ensures
            final(self).wf(),
            final(self).coefficients() == old(self).coefficients(),
            final(self).history() == Seq::new(
                old(self).coefficients().len(),
                |i: int| Double { bits: 0 },
            ),
    {
        self.core.reset()
    }

    /// Get the number of taps (filter length)
    pub fn num_taps(&self) -> (n: usize)
        ensures
            n == self.coefficients().len(),
    {
        self.core.num_taps()
    }

    /// Get the group delay in samples (half the filter length for linear phase)
    pub fn group_delay_samples(&self) -> (n: usize)
        requires
            self.wf(),
        ensures
            n == (self.coefficients().len() - 1) / 2,
    {
        self.core.group_delay_samples()
    }

    pub open spec fn group_delay(&self) -> int {
        (self.coefficients().len() - 1) / 2
    }

    /// See `threshold_crossing_offset`.
    pub open spec fn crossing_offset_spec(
        &self,
        threshold: Single,
        pulse_amplitude: Single,
    ) -> Single {
        let level = Double::from_single_spec(threshold.over_spec(pulse_amplitude));
        let i = first_above(self.coefficients(), level);
        if i < self.coefficients().len() {
            Single::from_integer_spec(i).minus_spec(Single::from_integer_spec(self.group_delay()))
        } else {
            Single { bits: 0 }
        }
    }

    /// Where the largest coefficient stands.
    pub open spec fn peak_index(&self) -> int {
        largest_tap(self.coefficients(), self.coefficients().len() as int)
    }

    pub open spec fn peak_response_spec(&self) -> Single {
        self.coefficients()[self.peak_index()].to_single_spec()
    }

    pub open spec fn peak_offset_spec(&self) -> Single {
        Single::from_integer_spec(self.peak_index()).minus_spec(
            Single::from_integer_spec(self.group_delay()),
        )
    }

    /// Compute the threshold crossing offset for pulse detection
    ///
    /// When a pulse of given amplitude passes through this filter, the peak detector
    /// triggers when the filtered output first exceeds the threshold. This method
    /// returns the offset from group_delay to the first integer sample above threshold.
    ///
    /// Returns the offset in samples, 0 where the threshold is never exceeded.
    pub fn threshold_crossing_offset(&self, threshold: Single, pulse_amplitude: Single) -> (
        offset: Single)
        requires
            self.wf(),
        ensures
            offset == self.crossing_offset_spec(threshold, pulse_amplitude),
    {
        let scaled_threshold: Double = Double::from_single(threshold.over(pulse_amplitude));
        let group_delay: usize = self.core.group_delay_samples();
        let taps: &[Double] = self.core.taps();
        let mut i: usize = 0;
        assert(taps@.skip(0) =~= taps@);
        while i < taps.len()
            invariant
                i <= taps.len(),
                taps@ == self.coefficients(),
                group_delay == self.group_delay(),
                scaled_threshold == Double::from_single_spec(
                    threshold.over_spec(pulse_amplitude),
                ),
                first_above(taps@, scaled_threshold) == i + first_above(
                    taps@.skip(i as int),
                    scaled_threshold,
                ),
            decreases taps.len() - i,
        {
            if scaled_threshold.less_than(taps[i]) {
                return Single::from_count(i).minus(Single::from_count(group_delay));
            }
            assert(taps@.skip(i as int).skip(1) =~= taps@.skip(i + 1));
            i = i + 1;
        }
        Single::zero()
    }

    /// The largest coefficient: the height at which a pulse of height one
    /// comes out of the filter.
    pub fn peak_response(&self) -> (peak: Single)
        requires
            self.wf(),
        ensures
            peak == self.peak_response_spec(),
    {
        let m: usize = self.peak_tap();
        self.core.taps()[m].to_single()
    }

    /// Where the largest coefficient lies, relative to the group delay.
    pub fn peak_offset(&self) -> (offset: Single)
        requires
            self.wf(),
        ensures
            offset == self.peak_offset_spec(),
    {
        Single::from_count(self.peak_tap()).minus(
            Single::from_count(self.group_delay_samples()),
        )
    }

    /// The coefficients as the samples of the impulse response.
    pub fn impulse_response(&self) -> (r: Vec<Single>)
        requires
            self.wf(),
        ensures
            r@ == self.coefficients().map_values(|t: Double| t.to_single_spec()),
    {
        let taps: &[Double] = self.core.taps();
        let mut r: Vec<Single> = Vec::new();
        let mut i: usize = 0;
        while i < taps.len()
            invariant
                i <= taps.len(),
                r.len() == i,
                forall|k: int| 0 <= k < i ==> #[trigger] r@[k] == taps@[k].to_single_spec(),
            decreases taps.len() - i,
        {
            r.push(taps[i].to_single());
            i = i + 1;
        }
        assert(r@ =~= self.coefficients().map_values(|t: Double| t.to_single_spec()));
        r
    }

    /// Where the largest coefficient stands.
    pub fn peak_tap(&self) -> (m: usize)
        requires
            self.wf(),
        ensures
            m == self.peak_index(),
            m < self.coefficients().len(),
    {
        let taps: &[Double] = self.core.taps();
        let mut m: usize = 0;
        let mut k: usize = 1;
        while k < taps.len()
            invariant
                taps@ == self.coefficients(),
                taps.len() > 0,
                0 < k <= taps.len(),
                m < k,
                m == largest_tap(taps@, k as int),
            decreases taps.len() - k,
        {
            if taps[m].less_than(taps[k]) {
                m = k;
            }
            k = k + 1;
        }
        m
    }
}

} // verus!
