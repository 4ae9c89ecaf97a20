//! The bearing calculators behind one name.
use crate::rdf::bearing::{BearingMeasurement, ConfidenceMetrics};
use crate::rdf::bearing_calculator_base;
use crate::rdf::bearing_correlation::CorrelationBearingCalculator;
use crate::rdf::bearing_zero_crossing;
use crate::rdf::bearing_zero_crossing::ZeroCrossingBearingCalculator;
use crate::single::Single;
use vstd::prelude::*;

verus! {

/// A bearing calculator of either method.
///
/// `preprocess` once per audio buffer, then any number of ticks, then
/// `advance_buffer`.
pub enum BearingCalculator {
    ZeroCrossing(Box<ZeroCrossingBearingCalculator>),
    Correlation(Box<CorrelationBearingCalculator>),
}

impl BearingCalculator {
    pub open spec fn wf(&self) -> bool {
        match self {
            BearingCalculator::ZeroCrossing(c) => c.wf(),
            BearingCalculator::Correlation(c) => c.wf(),
        }
    }

    pub open spec fn base(&self) -> bearing_calculator_base::BaseState {
        match self {
            BearingCalculator::ZeroCrossing(c) => c.base(),
            BearingCalculator::Correlation(c) => c.base(),
        }
    }

    pub open spec fn buffered(&self) -> nat {
        match self {
            BearingCalculator::ZeroCrossing(c) => c.buffered(),
            BearingCalculator::Correlation(c) => c.buffered(),
        }
    }

    /// Whether two calculators go by the same method, with the same crossings
    /// where they go by crossings.
    pub open spec fn same_crossings(&self, other: &BearingCalculator) -> bool {
        match (self, other) {
            (BearingCalculator::ZeroCrossing(a), BearingCalculator::ZeroCrossing(b)) => {
                a.detector() == b.detector() && a.crossings() == b.crossings()
            },
            (BearingCalculator::Correlation(_), BearingCalculator::Correlation(_)) => true,
            _ => false,
        }
    }

    /// What a buffer makes of a calculator.
    pub open spec fn prepared_to(&self, after: &BearingCalculator, buffer: Seq<Single>) -> bool {
        &&& after.wf()
        &&& after.base() == self.base().prepared(buffer)
        &&& after.buffered() == buffer.len()
        &&& match (self, after) {
            (BearingCalculator::ZeroCrossing(a), BearingCalculator::ZeroCrossing(b)) => {
                let work = after.base().work;
                &&& b.detector() == a.detector().advanced(work)
                &&& b.crossings() == bearing_zero_crossing::positions(
                    a.detector().crossings(work, work.len() as int),
                )
            },
            (BearingCalculator::Correlation(_), BearingCalculator::Correlation(_)) => true,
            _ => false,
        }
    }

    /// What samples that go by make of a calculator.
    pub open spec fn moved_to(&self, after: &BearingCalculator, samples: int) -> bool {
        &&& after.wf()
        &&& after.base() == self.base().moved(samples)
        &&& after.buffered() == self.buffered()
        &&& self.same_crossings(after)
    }

    /// Preprocess the doppler buffer (AGC + bandpass filter).
    pub fn preprocess(&mut self, doppler_buffer: &[Single])
        requires
            old(self).wf(),
            doppler_buffer.len() <= isize::MAX,
        ensures
            old(self).prepared_to(final(self), doppler_buffer@),
    {
        match self {
            BearingCalculator::ZeroCrossing(c) => c.preprocess(doppler_buffer),
            BearingCalculator::Correlation(c) => c.preprocess(doppler_buffer),
        }
    }

    /// Take the cosine and the sine of a raw bearing into the smoothing; the
    /// angle of the averages that come back is the smoothed bearing.
    pub fn smooth_bearing(&mut self, cos: Single, sin: Single) -> (averages: (Single, Single))
        requires
            old(self).wf(),
        ensures
            final(self).wf(),
            final(self).base() == old(self).base().smoothed(cos, sin),
            final(self).buffered() == old(self).buffered(),
            old(self).same_crossings(final(self)),
            averages == (
                final(self).base().cosines.mean(),
                final(self).base().sines.mean(),
            ),
    {
        match self {
            BearingCalculator::ZeroCrossing(c) => c.smooth_bearing(cos, sin),
            BearingCalculator::Correlation(c) => c.smooth_bearing(cos, sin),
        }
    }

    /// The measurement that a bearing and its metrics make.
    pub fn measurement(
        &self,
        bearing_degrees: Single,
        raw_bearing: Single,
        metrics: ConfidenceMetrics,
    ) -> (m: BearingMeasurement)
        ensures
            m == bearing_calculator_base::measurement_spec(
                self.base().confidence,
                bearing_degrees,
                raw_bearing,
                metrics,
            ),
    {
        match self {
            BearingCalculator::ZeroCrossing(c) => c.measurement(
                bearing_degrees,
                raw_bearing,
                metrics,
            ),
            BearingCalculator::Correlation(c) => c.measurement(
                bearing_degrees,
                raw_bearing,
                metrics,
            ),
        }
    }

    /// Advance the sample clock over lost samples (no audio processed).
    pub fn advance_samples(&mut self, samples: usize)
        requires
            old(self).wf(),
        ensures
            old(self).moved_to(final(self), samples as int),
    {
        match self {
            BearingCalculator::ZeroCrossing(c) => c.advance_samples(samples),
            BearingCalculator::Correlation(c) => c.advance_samples(samples),
        }
    }

    /// Advance the sample counter after processing all ticks for a buffer.
    pub fn advance_buffer(&mut self)
        requires
            old(self).wf(),
        ensures
            old(self).moved_to(final(self), old(self).buffered() as int),
    {
        match self {
            BearingCalculator::ZeroCrossing(c) => c.advance_buffer(),
            BearingCalculator::Correlation(c) => c.advance_buffer(),
        }
    }

    /// The filtered buffer (after AGC + bandpass) from the last call of
    /// `preprocess`.
    pub fn filtered_buffer(&self) -> (b: &[Single])
        ensures
            b@ == self.base().work,
    {
        match self {
            BearingCalculator::ZeroCrossing(c) => c.filtered_buffer(),
            BearingCalculator::Correlation(c) => c.filtered_buffer(),
        }
    }
}

} // verus!
