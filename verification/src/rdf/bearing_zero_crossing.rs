//! Bearings from the zero crossings of the Doppler tone.
//!
//! The calculator hands out the phases to take cosines and sines of, and the
//! vectors to take angles of; the library does the rest.
use crate::constants;
use crate::rdf::bearing;
use crate::rdf::bearing::{BearingMeasurement, ConfidenceMetrics};
use crate::rdf::bearing_calculator_base;
use crate::rdf::bearing_calculator_base::BearingCalculatorBase;
use crate::rdf::bearing_correlation;
use crate::rdf::north_ref::NorthTick;
use crate::signal_processing::math;
use crate::signal_processing::zero_crossing_detector;
use crate::signal_processing::zero_crossing_detector::{Crossing, ZeroCrossingDetector};
use crate::single;
use crate::single::Single;
use vstd::prelude::*;

verus! {

/// Zero-crossing based bearing calculator
///
/// Calculates bearing by detecting zero-crossings in the filtered Doppler tone
/// and measuring phase offset relative to north tick pulses.
///
/// This method achieves sub-degree accuracy (<1°) with sub-sample interpolation,
/// similar to correlation-based detection but with lower CPU usage and less
/// noise robustness.
pub struct ZeroCrossingBearingCalculator {
    base: BearingCalculatorBase,
    zero_detector: ZeroCrossingDetector,
    preprocessed_len: usize,
    crossings: Vec<Single>,
}

/// The positions of crossings.
pub open spec fn positions(
    crossings: Seq<zero_crossing_detector::CrossingAt>,
) -> Seq<Single> {
    crossings.map_values(|c: zero_crossing_detector::CrossingAt| c.position())
}

/// Whether a tick has a rotation that crossings can be placed in.
pub open spec fn usable(tick: NorthTick) -> bool {
    tick.period matches Some(p) && p.finite() && !p.le_spec(constants::of(0))
        && tick.phase.finite()
}

/// The angle of a crossing in the rotation.
pub open spec fn crossing_angle(
    base: bearing_calculator_base::BaseState,
    tick: NorthTick,
    crossing: Single,
) -> Single {
    base.since_tick(tick, crossing).over_spec(tick.period->0).times_spec(
        constants::of(math::TWO),
    ).times_spec(constants::of(constants::PI))
}

/// The phase variance of one look at a tone with a power ratio.
pub open spec fn look_variance(snr: Single) -> Single {
    constants::of(single::ONE_BITS).over_spec(snr)
}

/// Crossing density against the density the rotation tone implies, scored by
/// how close it is in either direction.
pub open spec fn density_spec(len: nat, crossings: nat, period: Single) -> Single {
    let zero = constants::of(0);
    let one = constants::of(single::ONE_BITS);
    let expected = Single::from_integer_spec(len as int).over_spec(period);
    let ratio = Single::from_integer_spec(crossings as int).over_spec(expected);
    if zero.lt_spec(expected) && zero.lt_spec(ratio) {
        ratio.min_spec(one.over_spec(ratio)).clamp_spec(zero, one)
    } else {
        zero
    }
}

/// The crossing density reads between zero and one, whatever was counted.
pub proof fn density_is_in_range(len: nat, crossings: nat, period: Single)
    ensures
        constants::of(0).le_spec(density_spec(len, crossings, period)),
        density_spec(len, crossings, period).le_spec(constants::of(single::ONE_BITS)),
{
}

/// Crossing density against the density the rotation tone implies.
///
/// Scored by how close it is in either direction: broadband noise crosses zero
/// far more often than the tone, so an excess says as much as a lack.
fn crossing_density(len: usize, crossings: usize, period: Single) -> (r: Single)
    ensures
        r == density_spec(len as nat, crossings as nat, period),
{
    let expected_crossings: Single = Single::from_count(len).over(period);
    if expected_crossings.above(Single::zero()) {
        let ratio: Single = Single::from_count(crossings).over(expected_crossings);
        if ratio.above(Single::zero()) {
            return ratio.min(Single::one().over(ratio)).clamp(Single::zero(), Single::one());
        }
    }
    Single::zero()
}

impl ZeroCrossingBearingCalculator {
    pub closed spec fn wf(&self) -> bool {
        self.base.wf()
    }

    pub closed spec fn base(&self) -> bearing_calculator_base::BaseState {
        self.base@
    }

    pub closed spec fn buffered(&self) -> nat {
        self.preprocessed_len as nat
    }

    pub closed spec fn detector(&self) -> zero_crossing_detector::CrossingState {
        self.zero_detector@
    }

    /// The crossings of the last buffer.
    pub closed spec fn crossings(&self) -> Seq<Single> {
        self.crossings@
    }

    /// Create a new zero-crossing bearing calculator
    ///
    /// # Arguments
    /// * `base` - the shared signal processing
    /// * `hysteresis` - zero-crossing hysteresis of the Doppler configuration
    pub fn new(
        base: BearingCalculatorBase,
        hysteresis: Single,
    ) -> (c: ZeroCrossingBearingCalculator)
        requires
            base.wf(),
        ensures
            c.wf(),
            c.base() == base@,
            c.buffered() == 0,
            c.detector() == (zero_crossing_detector::CrossingState {
                hysteresis,
                armed: false,
                prev: None,
                pending: None,
            }),
            c.crossings() == Seq::<Single>::empty(),
    {
        ZeroCrossingBearingCalculator {
            base,
            zero_detector: ZeroCrossingDetector::new(hysteresis),
            preprocessed_len: 0,
            crossings: Vec::new(),
        }
    }

    /// Preprocess the doppler buffer (AGC + bandpass filter) and find its zero
    /// crossings, once per audio buffer before its ticks.
    pub fn preprocess(&mut self, doppler_buffer: &[Single])
        requires
            old(self).wf(),
            doppler_buffer.len() <= isize::MAX,
        ensures
            final(self).wf(),
            final(self).base() == old(self).base().prepared(doppler_buffer@),
            final(self).buffered() == doppler_buffer@.len(),
            ({
                let work = final(self).base().work;
                &&& final(self).detector() == old(self).detector().advanced(work)
                &&& final(self).crossings() == positions(
                    old(self).detector().crossings(work, work.len() as int),
                )
            }),
    {
        self.base.preprocess(doppler_buffer);
        self.preprocessed_len = doppler_buffer.len();
        let ghost work = self.base@.work;
        let found: Vec<Crossing> = self.zero_detector.find_all_crossings(self.base.work_buffer());
        let ghost list = zero_crossing_detector::crossing_list(found@);
        let mut crossings: Vec<Single> = Vec::new();
        let mut i: usize = 0;
        while i < found.len()
            invariant
                i <= found.len(),
                list == zero_crossing_detector::crossing_list(found@),
                crossings@ == positions(list).take(i as int),
            decreases found.len() - i,
        {
            assert(list[i as int] == found@[i as int]@);
            crossings.push(found[i].position());
            i = i + 1;
            assert(crossings@ =~= positions(list).take(i as int));
        }
        assert(crossings@ =~= positions(list));
        self.crossings = crossings;
    }

    /// The angle of each crossing in the rotation. Taken as vectors and added
    /// up, their angle is the bearing phase. None where there are no crossings
    /// or no rotation to place them in.
    pub fn crossing_angles(&self, north_tick: &NorthTick) -> (angles: Option<Vec<Single>>)
        requires
            self.wf(),
        ensures
            match angles {
                Some(a) => {
                    &&& self.crossings().len() > 0
                    &&& usable(*north_tick)
                    &&& a@ == Seq::new(
                        self.crossings().len(),
                        |i: int| crossing_angle(self.base(), *north_tick, self.crossings()[i]),
                    )
                },
                None => self.crossings().len() == 0 || !usable(*north_tick),
            },
    {
        if self.crossings.len() == 0 {
            return None;
        }
        let samples_per_rotation: Single = match north_tick.period {
            Some(p) => p,
            None => {
                return None;
            },
        };
        if !samples_per_rotation.is_finite() || samples_per_rotation.at_most(Single::zero())
            || !north_tick.phase.is_finite() {
            return None;
        }
        let mut angles: Vec<Single> = Vec::new();
        let mut i: usize = 0;
        while i < self.crossings.len()
            invariant
                i <= self.crossings.len(),
                self.wf(),
                north_tick.period == Some(samples_per_rotation),
                angles@ == Seq::new(
                    i as nat,
                    |j: int| crossing_angle(self.base(), *north_tick, self.crossings()[j]),
                ),
            decreases self.crossings.len() - i,
        {
            let samples_since_tick: Single = self.base.samples_since_tick(
                north_tick,
                self.crossings[i],
            );
            let phase_fraction: Single = samples_since_tick.over(samples_per_rotation);
            angles.push(
                phase_fraction.times(Single::from_bits(math::TWO)).times(
                    Single::from_bits(constants::PI),
                ),
            );
            i = i + 1;
            assert(angles@ =~= Seq::new(
                i as nat,
                |j: int| crossing_angle(self.base(), *north_tick, self.crossings()[j]),
            ));
        }
        Some(angles)
    }

    /// The phases whose sines are an ideal Doppler tone at a bearing phase.
    /// None where the tick has no rotation.
    pub fn ideal_phases(&self, north_tick: &NorthTick, avg_phase: Single) -> (phases: Option<
        Vec<Single>,
    >)
        requires
            self.wf(),
        ensures
            match phases {
                Some(p) => {
                    &&& constants::of(0).lt_spec(north_tick.frequency)
                    &&& p@ == Seq::new(
                        self.base().work.len(),
                        |i: int|
                            bearing_correlation::reference_phase(
                                self.base(),
                                *north_tick,
                                i,
                            ).minus_spec(avg_phase),
                    )
                },
                None => !constants::of(0).lt_spec(north_tick.frequency),
            },
    {
        let omega: Single = north_tick.frequency;
        if !omega.above(Single::zero()) {
            return None;
        }
        let n: usize = self.base.work_buffer().len();
        let mut phases: Vec<Single> = Vec::new();
        let mut idx: usize = 0;
        while idx < n
            invariant
                idx <= n,
                self.wf(),
                omega == north_tick.frequency,
                phases@ == Seq::new(
                    idx as nat,
                    |i: int|
                        bearing_correlation::reference_phase(
                            self.base(),
                            *north_tick,
                            i,
                        ).minus_spec(avg_phase),
                ),
            decreases n - idx,
        {
            let samples_since_tick: Single = self.base.samples_since_tick(
                north_tick,
                Single::from_count(idx),
            );
            let phase: Single = north_tick.phase.plus(samples_since_tick.times(omega));
            phases.push(phase.minus(avg_phase));
            idx = idx + 1;
            assert(phases@ =~= Seq::new(
                idx as nat,
                |i: int|
                    bearing_correlation::reference_phase(
                        self.base(),
                        *north_tick,
                        i,
                    ).minus_spec(avg_phase),
            ));
        }
        Some(phases)
    }

    /// The power ratio of the tone to the noise it sits in, by projection onto
    /// an ideal Doppler tone.
    ///
    /// The projection is A/2 for a signal A*sin(wt - p), since a squared sine
    /// averages to 1/2; twice its square is the power of the tone.
    pub fn tone_snr(&self, ideal: &[Single]) -> (snr: Single)
        requires
            self.wf(),
            ideal.len() == self.base().work.len(),
        ensures
            ({
                let work = self.base().work;
                let len = work.len() as int;
                let n = Single::from_integer_spec(len);
                snr == bearing_correlation::snr_spec(
                    bearing_correlation::dot_spec(work, ideal@, 0, len).over_spec(n),
                    bearing_correlation::dot_spec(work, work, 0, len).over_spec(n),
                )
            }),
    {
        let work: &[Single] = self.base.work_buffer();
        let len: usize = work.len();
        let n: Single = Single::from_count(len);
        let projection: Single = bearing_correlation::dot(work, ideal, 0, len).over(n);
        let signal_power: Single = bearing_correlation::dot(work, work, 0, len).over(n);
        bearing_correlation::power_ratio(projection, signal_power)
    }

    /// Calculate the confidence metrics of a buffer. The phase variance of a
    /// look is the inverse of the power ratio.
    ///
    /// # Arguments
    /// * `snr` - the tone's power ratio, one where it is not known
    /// * `snr_db` - that ratio in dB
    /// * `resultant_length` - the mean resultant length it stands for
    pub fn metrics(
        &self,
        north_tick: &NorthTick,
        snr: Single,
        snr_db: Single,
        resultant_length: Single,
    ) -> (m: ConfidenceMetrics)
        requires
            self.wf(),
        ensures
            m == match north_tick.period {
                Some(period) => if self.crossings().len() == 0 {
                    ConfidenceMetrics::defaults()
                } else {
                    ConfidenceMetrics {
                        tone_peak: bearing_correlation::peak_spec(self.base().work),
                        resultant_length,
                        snr_db,
                        signal_strength: density_spec(
                            self.base().work.len(),
                            self.crossings().len(),
                            period,
                        ),
                        bearing_uncertainty_deg: bearing::uncertainty_spec(
                            Some(look_variance(snr)),
                            self.base().independent_looks(),
                            north_tick.phase_variance,
                        ),
                    }
                },
                None => ConfidenceMetrics::defaults(),
            },
    {
        let samples_per_rotation: Single = match north_tick.period {
            Some(p) => p,
            None => {
                return ConfidenceMetrics::default();
            },
        };
        if self.crossings.len() == 0 {
            return ConfidenceMetrics::default();
        }
        ConfidenceMetrics {
            tone_peak: bearing_correlation::peak(self.base.work_buffer()),
            resultant_length,
            snr_db,
            signal_strength: crossing_density(
                self.base.work_buffer().len(),
                self.crossings.len(),
                samples_per_rotation,
            ),
            bearing_uncertainty_deg: bearing::bearing_uncertainty_deg(
                Some(Single::one().over(snr)),
                self.base.independent_looks(),
                north_tick,
            ),
        }
    }

    /// Take the cosine and the sine of a raw bearing into the smoothing; the
    /// angle of the averages that come back is the smoothed bearing.
    pub fn smooth_bearing(&mut self, cos: Single, sin: Single) -> (averages: (Single, Single))
        requires
            old(self).wf(),
        ensures
            final(self).wf(),
            final(self).base() == old(self).base().smoothed(cos, sin),
            final(self).buffered() == old(self).buffered(),
            final(self).detector() == old(self).detector(),
            final(self).crossings() == old(self).crossings(),
            averages == (
                final(self).base().cosines.mean(),
                final(self).base().sines.mean(),
            ),
    {
        self.base.smooth_bearing(cos, sin)
    }

    /// The measurement that a bearing and its metrics make.
    pub fn measurement(
        &self,
        bearing_degrees: Single,
        raw_bearing: Single,
        metrics: ConfidenceMetrics,
    ) -> (m: BearingMeasurement)
        ensures
            m == bearing_calculator_base::measurement_spec(
                self.base().confidence,
                bearing_degrees,
                raw_bearing,
                metrics,
            ),
    {
        self.base.measurement(bearing_degrees, raw_bearing, metrics)
    }

    /// Advance the sample clock over lost samples (no audio processed).
    pub fn advance_samples(&mut self, samples: usize)
        requires
            old(self).wf(),
        ensures
            final(self).wf(),
            final(self).base() == old(self).base().moved(samples as int),
            final(self).buffered() == old(self).buffered(),
            final(self).detector() == old(self).detector(),
            final(self).crossings() == old(self).crossings(),
    {
        self.base.advance_counter(samples);
    }

    /// Advance the sample counter after all ticks of a buffer.
    pub fn advance_buffer(&mut self)
        requires
            old(self).wf(),
        ensures
            final(self).wf(),
            final(self).base() == old(self).base().moved(old(self).buffered() as int),
            final(self).buffered() == old(self).buffered(),
            final(self).detector() == old(self).detector(),
            final(self).crossings() == old(self).crossings(),
    {
        self.base.advance_counter(self.preprocessed_len);
    }

    /// The filtered buffer (after AGC + bandpass) from the last call of
    /// `preprocess`.
    pub fn filtered_buffer(&self) -> (b: &[Single])
        ensures
            b@ == self.base().work,
    {
        self.base.work_buffer()
    }
}

} // verus!
