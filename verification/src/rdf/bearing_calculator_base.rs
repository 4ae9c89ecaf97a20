//! What the bearing calculators share.
use crate::config::{ConfidenceConfig, DopplerConfig};
use crate::constants;
use crate::double::Double;
use crate::error;
use crate::error::Template;
use crate::rdf::bearing;
use crate::rdf::bearing::{BearingMeasurement, ConfidenceFault, ConfidenceMetrics};
use crate::rdf::north_ref;
use crate::rdf::north_ref::NorthTick;
use crate::rdf::north_ref_common;
use crate::signal_processing::agc;
use crate::signal_processing::agc::AutomaticGainControl;
use crate::signal_processing::fir_bandpass::FirBandpass;
use crate::signal_processing::fir_core;
use crate::signal_processing::math;
use crate::signal_processing::moving_average;
use crate::signal_processing::moving_average::MovingAverage;
use crate::single;
use crate::single::Single;
use vstd::prelude::*;

verus! {

/// Largest lag correlation that the looks are deflated by (0.95).
pub const MAX_LAG_CORRELATION: u64 = 0x3fee_6666_6666_6666;

/// Double precision machine epsilon.
pub const DOUBLE_EPSILON: u64 = 0x3cb0_0000_0000_0000;

/// Why a calculator cannot be made.
#[derive(Clone, Copy, Debug, PartialEq, Eq, Structural)]
pub enum BearingFault {
    NoSmoothing,
    Confidence { fault: ConfidenceFault },
}

impl BearingFault {
    /// The message of a fault.
    pub open spec fn layout(self) -> error::Layout {
        match self {
            BearingFault::NoSmoothing => error::plain(
                "bearing smoothing_window must be at least 1"@,
            ),
            BearingFault::Confidence { fault } => fault.layout(),
        }
    }

    /// The message of a fault.
    pub fn template(&self) -> (t: Template)
        ensures
            t@ == self.layout(),
    {
        match *self {
            BearingFault::NoSmoothing => Template::plain(
                "bearing smoothing_window must be at least 1",
            ),
            BearingFault::Confidence { fault } => fault.template(),
        }
    }
}

/// Why a calculator with these settings cannot be made.
pub open spec fn bearing_fault(confidence: ConfidenceConfig, smoothing: usize) -> Option<
    BearingFault,
> {
    if smoothing == 0 {
        Some(BearingFault::NoSmoothing)
    } else {
        match bearing::confidence_fault(confidence) {
            Some(fault) => Some(BearingFault::Confidence { fault }),
            None => None,
        }
    }
}

/// Samples over which in-band noise decorrelates, at least one.
pub open spec fn decorrelation_spec(sample_rate: Single, noise_bandwidth_hz: Single) -> Single {
    sample_rate.over_spec(
        constants::of(math::TWO).times_spec(
            noise_bandwidth_hz.max_spec(constants::of(constants::EPSILON)),
        ),
    ).max_spec(constants::of(single::ONE_BITS))
}

/// A timing adjustment in microseconds as samples.
pub open spec fn adjustment_spec(adjustment_us: Single, sample_rate: Single) -> Single {
    adjustment_us.times_spec(constants::of(north_ref_common::MILLIONTH)).times_spec(sample_rate)
}

/// Shared signal processing components for bearing calculators
///
/// Contains the common AGC, bandpass filter, smoother, and work buffer
/// used by all bearing calculator implementations.
pub struct BearingCalculatorBase {
    agc: AutomaticGainControl,
    bandpass: FirBandpass,
    filter_group_delay: usize,
    /// Samples over which in-band noise decorrelates, which is the sample rate
    /// over twice the filter's noise-equivalent bandwidth.
    noise_correlation_samples: Single,
    /// The configured trim, converted from microseconds to samples once.
    north_tick_timing_adjustment: Single,
    confidence: ConfidenceConfig,
    sample_counter: usize,
    buffer_start_sample: usize,
    bearing_smoother_cos: MovingAverage,
    bearing_smoother_sin: MovingAverage,
    work_buffer: Vec<Single>,
}

/// What the base of a calculator holds.
pub ghost struct BaseState {
    pub gain: agc::AgcState,
    pub taps: Seq<Double>,
    pub history: Seq<Double>,
    pub correlation_samples: Single,
    pub adjustment: Single,
    pub confidence: ConfidenceConfig,
    pub clock: int,
    pub start: int,
    pub cosines: moving_average::Slots,
    pub sines: moving_average::Slots,
    pub work: Seq<Single>,
}

impl BaseState {
    /// How many independent looks at the bearing the last buffer holds.
    pub open spec fn independent_looks(self) -> Single {
        Single::from_integer_spec(self.work.len() as int).over_spec(
            self.correlation_samples,
        ).max_spec(constants::of(single::ONE_BITS))
    }

    /// The lag at which the correlation of the residual is looked at.
    pub open spec fn look_lag(self) -> nat {
        self.correlation_samples.round_spec().max_spec(
            constants::of(single::ONE_BITS),
        ).to_count_spec()
    }

    /// The sum of the products of the first `k` samples with those `lag`
    /// later.
    pub open spec fn lag_sum(self, lag: int, k: int) -> Double
        decreases k,
    {
        if k <= 0 {
            Double { bits: 0 }
        } else {
            self.lag_sum(lag, k - 1).plus_spec(
                Double::from_single_spec(self.work[k - 1].times_spec(self.work[k - 1 + lag])),
            )
        }
    }

    /// The lag correlation of what is left once the tone is taken out, where
    /// anything is left.
    pub open spec fn residual_correlation(self, tone_power: Single, tone_cos: Single) -> Option<
        Single,
    > {
        let lag = self.look_lag() as int;
        let n = self.work.len() as int;
        let m = Double::from_count_spec((n - lag) as nat);
        let power = Double::from_single_spec(tone_power);
        let r_work = self.lag_sum(lag, n - lag).over_spec(m);
        let p_work = self.lag_sum(0, n - lag).over_spec(m);
        let r_tone = power.times_spec(Double::from_single_spec(tone_cos));
        let p_resid = p_work.minus_spec(power);
        if p_resid.le_spec(Double { bits: DOUBLE_EPSILON }) {
            None
        } else {
            Some(
                clamped(
                    r_work.minus_spec(r_tone).over_spec(p_resid),
                    Double { bits: 0 },
                    Double { bits: MAX_LAG_CORRELATION },
                ).to_single_spec(),
            )
        }
    }

    /// Independent looks, deflated by the residual's measured correlation.
    pub open spec fn effective_looks(self, tone_power: Single, tone_cos: Single) -> Single {
        let looks = self.independent_looks();
        let one = constants::of(single::ONE_BITS);
        if self.work.len() < 8 * self.look_lag() {
            looks
        } else {
            match self.residual_correlation(tone_power, tone_cos) {
                Some(rho) => looks.times_spec(one.minus_spec(rho)).over_spec(
                    one.plus_spec(rho),
                ).max_spec(one),
                None => looks,
            }
        }
    }

    /// Samples elapsed since a north tick at a position in the buffer.
    pub open spec fn since_tick(self, tick: NorthTick, index: Single) -> Single {
        Single::from_integer_spec(self.start - tick.sample_index).plus_spec(index).minus_spec(
            Single::from_integer_spec((self.taps.len() - 1) / 2),
        ).plus_spec(self.adjustment).minus_spec(tick.fractional_sample_offset)
    }

    /// The state once a buffer has been prepared: gain control and bandpass.
    pub open spec fn prepared(self, input: Seq<Single>) -> BaseState {
        let levelled = Seq::new(
            input.len(),
            |i: int| input[i].times_spec(self.gain.after(input, i + 1).gain),
        );
        BaseState {
            gain: self.gain.after(input, input.len() as int),
            history: fir_core::history_after(self.history, levelled, input.len() as int),
            start: self.clock,
            work: fir_core::filtered(self.taps, self.history, levelled),
            ..self
        }
    }

    /// The state once a bearing has been taken into the smoothing.
    pub open spec fn smoothed(self, cos: Single, sin: Single) -> BaseState {
        BaseState { cosines: self.cosines.added(cos), sines: self.sines.added(sin), ..self }
    }

    /// The state once samples have gone by.
    pub open spec fn moved(self, samples: int) -> BaseState {
        BaseState { clock: north_ref::on_clock(self.clock, samples), ..self }
    }
}

/// The nearest number in a range; a NaN stays.
pub open spec fn clamped(x: Double, low: Double, high: Double) -> Double {
    if x.lt_spec(low) {
        low
    } else if high.lt_spec(x) {
        high
    } else {
        x
    }
}

fn clamp(x: Double, low: Double, high: Double) -> (r: Double)
    ensures
        r == clamped(x, low, high),
{
    if x.less_than(low) {
        low
    } else if high.less_than(x) {
        high
    } else {
        x
    }
}

impl View for BearingCalculatorBase {
    type V = BaseState;

    closed spec fn view(&self) -> BaseState {
        BaseState {
            gain: self.agc@,
            taps: self.bandpass.coefficients(),
            history: self.bandpass.history(),
            correlation_samples: self.noise_correlation_samples,
            adjustment: self.north_tick_timing_adjustment,
            confidence: self.confidence,
            clock: self.sample_counter as int,
            start: self.buffer_start_sample as int,
            cosines: self.bearing_smoother_cos@,
            sines: self.bearing_smoother_sin@,
            work: self.work_buffer@,
        }
    }
}

impl BearingCalculatorBase {
    pub closed spec fn wf(&self) -> bool {
        &&& self.agc.wf()
        &&& self.bandpass.wf()
        &&& self.filter_group_delay == (self.bandpass.coefficients().len() - 1) / 2
        &&& self.bearing_smoother_cos@.valid()
        &&& self.bearing_smoother_sin@.valid()
    }

    /// Create a new bearing calculator base with shared components
    ///
    /// # Arguments
    /// * `doppler_config` - Doppler processing configuration
    /// * `agc` - the gain control ahead of the filter
    /// * `bandpass` - the filter that the configuration asks for
    /// * `noise_bandwidth_hz` - the noise-equivalent bandwidth of that filter
    /// * `confidence` - how uncertainty becomes confidence
    /// * `sample_rate` - Audio sample rate in Hz
    /// * `smoothing` - Moving average window size
    pub fn new(
        doppler_config: &DopplerConfig,
        agc: AutomaticGainControl,
        bandpass: FirBandpass,
        noise_bandwidth_hz: Single,
        confidence: ConfidenceConfig,
        sample_rate: Single,
        smoothing: usize,
    ) -> (r: Result<BearingCalculatorBase, BearingFault>)
        requires
            agc.wf(),
            bandpass.wf(),
        ensures
            match r {
                Err(f) => bearing_fault(confidence, smoothing) == Some(f),
                Ok(b) => {
                    &&& bearing_fault(confidence, smoothing) is None
                    &&& b.wf()
                    &&& b@.gain == agc@
                    &&& b@.taps == bandpass.coefficients()
                    &&& b@.history == bandpass.history()
                    &&& b@.correlation_samples == decorrelation_spec(
                        sample_rate,
                        noise_bandwidth_hz,
                    )
                    &&& b@.adjustment == adjustment_spec(
                        doppler_config.north_tick_timing_adjustment_us,
                        sample_rate,
                    )
                    &&& b@.confidence == confidence
                    &&& b@.clock == 0
                    &&& b@.start == 0
                    &&& b@.cosines.is_empty(smoothing as nat)
                    &&& b@.sines.is_empty(smoothing as nat)
                    &&& b@.work == Seq::<Single>::empty()
                },
            },
    {
        if smoothing == 0 {
            return Err(BearingFault::NoSmoothing);
        }
        match bearing::validate_confidence_config(&confidence) {
            Ok(()) => {},
            Err(fault) => {
                return Err(BearingFault::Confidence { fault });
            },
        }
        let filter_group_delay: usize = bandpass.group_delay_samples();
        // Decorrelation from the filter as built, not as requested. A real
        // bandpass passes +-f, a two-sided band of width 2B, so white noise
        // decorrelates over fs/2B.
        let neb_hz: Single = noise_bandwidth_hz.max(Single::from_bits(constants::EPSILON));
        let noise_correlation_samples: Single = sample_rate.over(
            Single::from_bits(math::TWO).times(neb_hz),
        ).max(Single::one());
        Ok(
            BearingCalculatorBase {
                agc,
                bandpass,
                filter_group_delay,
                noise_correlation_samples,
                north_tick_timing_adjustment: doppler_config.north_tick_timing_adjustment_us.times(
                    Single::from_bits(north_ref_common::MILLIONTH),
                ).times(sample_rate),
                confidence,
                sample_counter: 0,
                buffer_start_sample: 0,
                bearing_smoother_cos: MovingAverage::new(smoothing),
                bearing_smoother_sin: MovingAverage::new(smoothing),
                work_buffer: Vec::new(),
            },
        )
    }

    /// How many independent looks at the bearing the last buffer holds.
    ///
    /// Not the number of rotations in it. What limits independence is how fast
    /// the interference decorrelates, and the doppler bandpass makes that
    /// slow: a 500 Hz passband at 48 kHz decorrelates over about 96 samples,
    /// so a 512-sample buffer holds five independent looks rather than the
    /// seventeen rotations it contains.
    pub fn independent_looks(&self) -> (looks: Single)
        ensures
            looks == self@.independent_looks(),
    {
        Single::from_count(self.work_buffer.len()).over(self.noise_correlation_samples).max(
            Single::one(),
        )
    }

    /// The lag at which the correlation of the residual is looked at.
    pub fn look_lag(&self) -> (lag: usize)
        ensures
            lag == self@.look_lag(),
    {
        self.noise_correlation_samples.round().max(Single::one()).to_count()
    }

    /// Independent looks, deflated by the residual's measured correlation.
    ///
    /// The plain count assumes the in-band interference is white across the
    /// filter's bandwidth, which synthetic noise is and recorded audio is
    /// not. The correction is measured per buffer: the work buffer's
    /// autocorrelation at the decorrelation lag, with the tone's own
    /// contribution removed, is the residual's lag correlation, and an AR(1)
    /// at that lag scales the count by (1 - rho) / (1 + rho). White residual:
    /// rho near zero, count unchanged.
    ///
    /// # Arguments
    /// * `tone_power` - the power of the tone
    /// * `tone_cos` - the cosine of its phase advance over `look_lag` samples
    pub fn effective_looks(&self, tone_power: Single, tone_cos: Single) -> (effective: Single)
        ensures
            effective == self@.effective_looks(tone_power, tone_cos),
    {
        let looks: Single = self.independent_looks();
        let lag: usize = self.look_lag();
        let n: usize = self.work_buffer.len();
        if (n as u128) < 8 * (lag as u128) {
            return looks;
        }
        let mut r_work: Double = Double::zero();
        let mut p_work: Double = Double::zero();
        let mut i: usize = 0;
        while i < n - lag
            invariant
                lag <= n,
                n == self.work_buffer.len(),
                i <= n - lag,
                r_work == self@.lag_sum(lag as int, i as int),
                p_work == self@.lag_sum(0, i as int),
            decreases n - lag - i,
        {
            let sample: Single = self.work_buffer[i];
            r_work = r_work.plus(Double::from_single(sample.times(self.work_buffer[i + lag])));
            p_work = p_work.plus(Double::from_single(sample.times(sample)));
            i = i + 1;
        }
        let m: Double = Double::from_count(n - lag);
        let power: Double = Double::from_single(tone_power);
        let r_work: Double = r_work.over(m);
        let p_work: Double = p_work.over(m);
        let r_tone: Double = power.times(Double::from_single(tone_cos));
        let p_resid: Double = p_work.minus(power);
        if p_resid.at_most(Double::from_bits(DOUBLE_EPSILON)) {
            return looks;
        }
        let rho: Single = clamp(
            r_work.minus(r_tone).over(p_resid),
            Double::zero(),
            Double::from_bits(MAX_LAG_CORRELATION),
        ).to_single();
        looks.times(Single::one().minus(rho)).over(Single::one().plus(rho)).max(Single::one())
    }

    /// How uncertainty becomes confidence.
    pub fn confidence(&self) -> (c: ConfidenceConfig)
        ensures
            c == self@.confidence,
    {
        self.confidence
    }

    /// Preprocess the input buffer: copy to work buffer, apply AGC and bandpass filter.
    /// Also records the buffer start position for multi-tick processing.
    pub fn preprocess(&mut self, input: &[Single])
        requires
            old(self).wf(),
        ensures
            final(self).wf(),
            final(self)@ == old(self)@.prepared(input@),
    {
        self.buffer_start_sample = self.sample_counter;
        let mut work: Vec<Single> = math::copy_of(input);
        self.agc.process_buffer(&mut work);
        self.bandpass.process_buffer(&mut work);
        self.work_buffer = work;
    }

    /// Calculate the offset from a north tick to the start of the current
    /// buffer: negative if the tick is within the buffer.
    pub fn offset_from_north_tick(&self, north_tick: &NorthTick) -> (offset: i128)
        ensures
            offset == self@.start - north_tick.sample_index,
    {
        self.buffer_start_sample as i128 - north_tick.sample_index as i128
    }

    /// Calculate samples elapsed since north tick for a buffer sample index.
    ///
    /// `sample_index_in_buffer` can be fractional (for interpolated indices).
    /// This includes FIR group-delay compensation, configured timing trim, and
    /// tracker-provided fractional tick offset.
    pub fn samples_since_tick(
        &self,
        north_tick: &NorthTick,
        sample_index_in_buffer: Single,
    ) -> (n: Single)
        requires
            self.wf(),
        ensures
            n == self@.since_tick(*north_tick, sample_index_in_buffer),
    {
        Single::from_index(self.offset_from_north_tick(north_tick)).plus(sample_index_in_buffer).minus(
            Single::from_count(self.filter_group_delay),
        ).plus(self.north_tick_timing_adjustment).minus(north_tick.fractional_sample_offset)
    }

    /// Take the cosine and the sine of a raw bearing into the circular
    /// smoothing. The angle of the averages that come back is the smoothed
    /// bearing: averaging vectors handles the 0°/360° wraparound.
    pub fn smooth_bearing(&mut self, cos: Single, sin: Single) -> (averages: (Single, Single))
        requires
            old(self).wf(),
        ensures
            final(self).wf(),
            final(self)@ == old(self)@.smoothed(cos, sin),
            averages == (final(self)@.cosines.mean(), final(self)@.sines.mean()),
    {
        let avg_cos: Single = self.bearing_smoother_cos.add(cos);
        let avg_sin: Single = self.bearing_smoother_sin.add(sin);
        (avg_cos, avg_sin)
    }

    /// Advance the sample counter by the given amount
    pub fn advance_counter(&mut self, samples: usize)
        requires
            old(self).wf(),
        ensures
            final(self).wf(),
            final(self)@ == old(self)@.moved(samples as int),
    {
        self.sample_counter = north_ref::clock_after(self.sample_counter, samples);
    }

    /// The filtered buffer (after AGC + bandpass) from the last call of
    /// `preprocess`.
    pub fn work_buffer(&self) -> (b: &[Single])
        ensures
            b@ == self@.work,
    {
        self.work_buffer.as_slice()
    }

    /// The measurement that a bearing and its metrics make.
    pub fn measurement(
        &self,
        bearing_degrees: Single,
        raw_bearing: Single,
        metrics: ConfidenceMetrics,
    ) -> (m: BearingMeasurement)
        ensures
            m == measurement_spec(self@.confidence, bearing_degrees, raw_bearing, metrics),
    {
        let floor: Single = self.confidence.resolved_min_signal_strength();
        BearingMeasurement {
            bearing_degrees,
            raw_bearing,
            confidence: metrics.score(&self.confidence),
            signal_present: metrics.signal_strength.at_least(floor),
            metrics,
        }
    }
}

/// The measurement that a bearing and its metrics make: the confidence follows
/// from the uncertainty, and the signal strength says whether there is a
/// signal behind it.
pub open spec fn measurement_spec(
    confidence: ConfidenceConfig,
    bearing_degrees: Single,
    raw_bearing: Single,
    metrics: ConfidenceMetrics,
) -> BearingMeasurement {
    BearingMeasurement {
        bearing_degrees,
        raw_bearing,
        confidence: ConfidenceMetrics::score_spec(metrics.bearing_uncertainty_deg, confidence),
        signal_present: confidence.min_signal_strength_spec().le_spec(metrics.signal_strength),
        metrics,
    }
}

} // verus!
