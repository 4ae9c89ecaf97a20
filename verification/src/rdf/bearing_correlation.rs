//! Bearings from the correlation with the rotation.
//!
//! The calculator hands out the phases to take cosines and sines of, and the
//! vectors to take angles of; the library does the rest.
use crate::constants;
use crate::rdf::bearing;
use crate::rdf::bearing::{BearingMeasurement, ConfidenceMetrics};
use crate::rdf::bearing_calculator_base;
use crate::rdf::bearing_calculator_base::BearingCalculatorBase;
use crate::rdf::north_ref::NorthTick;
use crate::signal_processing::math;
use crate::single;
use crate::single::Single;
use vstd::prelude::*;

verus! {

/// Fewest windows the spread estimate will use. Two is the least that has
/// a spread at all; it is reached only when the buffer is shorter than two
/// rotations.
pub const MIN_COHERENCE_WINDOWS: usize = 2;

/// Most windows it will use, which caps the per-tick work on long buffers.
pub const MAX_COHERENCE_WINDOWS: usize = 64;

/// Least signal power that counts as a signal (0.01).
pub const MIN_SIGNAL_STRENGTH_POWER: u32 = 0x3c23_d70a;

/// Below this normalized correlation magnitude (1e-6) there is no Doppler tone
/// to measure: a dead channel would report a confident 0 degrees. Samples are
/// normalized to +/-1.0, so real noise floors sit orders of magnitude above
/// this.
pub const MIN_CORRELATION_MAGNITUDE: u32 = 0x3586_37bd;

/// The sum of the products of two sequences over a range.
pub open spec fn dot_spec(a: Seq<Single>, b: Seq<Single>, from: int, to: int) -> Single
    decreases to - from,
{
    if to <= from {
        constants::of(0)
    } else {
        dot_spec(a, b, from, to - 1).plus_spec(a[to - 1].times_spec(b[to - 1]))
    }
}

/// The sum of the products of two slices over a range.
pub fn dot(a: &[Single], b: &[Single], from: usize, to: usize) -> (r: Single)
    requires
        from <= to <= a.len(),
        to <= b.len(),
    ensures
        r == dot_spec(a@, b@, from as int, to as int),
{
    let mut total: Single = Single::zero();
    let mut i: usize = from;
    while i < to
        invariant
            from <= i <= to <= a.len(),
            to <= b.len(),
            total == dot_spec(a@, b@, from as int, i as int),
        decreases to - i,
    {
        total = total.plus(a[i].times(b[i]));
        i = i + 1;
    }
    total
}

/// The largest positive sample.
pub open spec fn peak_spec(samples: Seq<Single>) -> Single
    decreases samples.len(),
{
    if samples.len() == 0 {
        constants::of(0)
    } else {
        peak_spec(samples.drop_last()).max_spec(samples.last())
    }
}

/// The largest positive sample, zero where there is none.
pub fn peak(samples: &[Single]) -> (p: Single)
    ensures
        p == peak_spec(samples@),
{
    let mut p: Single = Single::zero();
    let mut i: usize = 0;
    while i < samples.len()
        invariant
            i <= samples.len(),
            p == peak_spec(samples@.take(i as int)),
        decreases samples.len() - i,
    {
        assert(samples@.take(i + 1).drop_last() =~= samples@.take(i as int));
        p = p.max(samples[i]);
        i = i + 1;
    }
    assert(samples@.take(i as int) =~= samples@);
    p
}

/// The part of a signal's power that a projection accounts for: twice its
/// square, within the power of the signal.
pub open spec fn correlated_spec(projection: Single, signal_power: Single) -> Single {
    constants::of(math::TWO).times_spec(projection).times_spec(projection).max_spec(
        constants::of(0),
    ).min_spec(signal_power)
}

/// The part of a signal's power that a projection accounts for.
pub fn correlated_power(projection: Single, signal_power: Single) -> (p: Single)
    ensures
        p == correlated_spec(projection, signal_power),
{
    Single::from_bits(math::TWO).times(projection).times(projection).max(Single::zero()).min(
        signal_power,
    )
}

/// The power ratio of the correlated part of a signal to the rest of it.
pub open spec fn snr_spec(projection: Single, signal_power: Single) -> Single {
    let correlated = correlated_spec(projection, signal_power);
    correlated.over_spec(
        signal_power.minus_spec(correlated).max_spec(
            constants::of(constants::MIN_POWER_THRESHOLD),
        ),
    )
}

/// The power ratio of the correlated part of a signal to the rest of it.
pub fn power_ratio(projection: Single, signal_power: Single) -> (r: Single)
    ensures
        r == snr_spec(projection, signal_power),
{
    let correlated: Single = correlated_power(projection, signal_power);
    let noise_power: Single = signal_power.minus(correlated).max(
        Single::from_bits(constants::MIN_POWER_THRESHOLD),
    );
    correlated.over(noise_power)
}

/// What the correlation of a buffer with the rotation came to.
#[derive(Debug, Clone, Copy, PartialEq, Eq)]
pub struct Correlation {
    /// In-phase component
    pub i: Single,
    /// Quadrature component
    pub q: Single,
    pub signal_power: Single,
    pub magnitude: Single,
}

/// The phase of the rotation at a sample of the buffer.
pub open spec fn reference_phase(
    base: bearing_calculator_base::BaseState,
    tick: NorthTick,
    idx: int,
) -> Single {
    tick.phase.plus_spec(
        base.since_tick(tick, Single::from_integer_spec(idx)).times_spec(tick.frequency),
    )
}

/// Whether a tick has a rotation that a buffer can be correlated with.
pub open spec fn usable(tick: NorthTick) -> bool {
    tick.frequency.finite() && !tick.frequency.le_spec(constants::of(0)) && tick.phase.finite()
}

/// The correlation of a buffer with carriers.
pub open spec fn correlation_of(work: Seq<Single>, cos: Seq<Single>, sin: Seq<Single>) -> Correlation {
    let len = work.len() as int;
    let n = Single::from_integer_spec(len);
    let i = dot_spec(work, cos, 0, len).over_spec(n);
    let q = dot_spec(work, sin, 0, len).over_spec(n);
    Correlation {
        i,
        q,
        signal_power: dot_spec(work, work, 0, len).over_spec(n),
        magnitude: i.times_spec(i).plus_spec(q.times_spec(q)).sqrt_spec(),
    }
}

/// Whether there is enough of a signal to say anything about it.
pub open spec fn measurable(n: nat, c: Correlation) -> bool {
    &&& n >= MIN_COHERENCE_WINDOWS
    &&& c.signal_power.finite()
    &&& c.magnitude.finite()
    &&& !c.signal_power.lt_spec(constants::of(constants::MIN_POWER_THRESHOLD))
}

/// The samples that a rotation takes.
pub open spec fn rotation_samples(tick: NorthTick) -> Single {
    let from_frequency = constants::of(constants::TWO_PI).over_spec(
        tick.frequency.max_spec(constants::of(constants::EPSILON)),
    );
    match tick.period {
        Some(p) => if p.finite() && constants::of(single::ONE_BITS).le_spec(p) {
            p
        } else {
            from_frequency
        },
        None => from_frequency,
    }
}

/// How many windows a buffer is cut into: one per rotation, within bounds.
pub open spec fn window_count_spec(n: nat, tick: NorthTick) -> int {
    let count = Single::from_integer_spec(n as int).over_spec(
        rotation_samples(tick),
    ).to_count_spec() as int;
    if count < MIN_COHERENCE_WINDOWS {
        MIN_COHERENCE_WINDOWS as int
    } else if count > MAX_COHERENCE_WINDOWS {
        MAX_COHERENCE_WINDOWS as int
    } else {
        count
    }
}

/// The vector of a window: its angle is the bearing phase in it.
pub open spec fn window_vector(
    work: Seq<Single>,
    cos: Seq<Single>,
    sin: Seq<Single>,
    size: int,
    w: int,
) -> (Single, Single) {
    (
        dot_spec(work, cos, w * size, w * size + size).neg_spec(),
        dot_spec(work, sin, w * size, w * size + size),
    )
}

/// The sum of the squared distances of phases from their mean.
pub open spec fn squared_distances(phases: Seq<Single>, mean: Single) -> Seq<Single> {
    Seq::new(
        phases.len(),
        |i: int|
            bearing::wrapped_diff(phases[i], mean).times_spec(
                bearing::wrapped_diff(phases[i], mean),
            ),
    )
}

/// The variance of phases about their mean.
pub open spec fn phase_variance_spec(phases: Seq<Single>, mean: Single) -> Single {
    math::sum_of(squared_distances(phases, mean)).over_spec(
        Single::from_integer_spec(phases.len() as int),
    )
}

/// The variance of phases about their mean, on the circle.
pub fn phase_variance(phases: &[Single], mean: Single) -> (v: Single)
    ensures
        v == phase_variance_spec(phases@, mean),
{
    let mut squares: Vec<Single> = Vec::new();
    let mut i: usize = 0;
    while i < phases.len()
        invariant
            i <= phases.len(),
            squares@ == squared_distances(phases@, mean).take(i as int),
        decreases phases.len() - i,
    {
        let wrapped: Single = bearing::wrap_phase_diff(phases[i], mean);
        squares.push(wrapped.times(wrapped));
        i = i + 1;
        assert(squares@ =~= squared_distances(phases@, mean).take(i as int));
    }
    assert(squares@ =~= squared_distances(phases@, mean));
    math::sum(squares.as_slice()).over(Single::from_count(phases.len()))
}

/// The share of a signal's amplitude that correlated, where there is a signal.
pub open spec fn strength_spec(c: Correlation) -> Single {
    if constants::of(MIN_SIGNAL_STRENGTH_POWER).lt_spec(c.signal_power) {
        correlated_spec(c.magnitude, c.signal_power).over_spec(
            c.signal_power,
        ).sqrt_spec().clamp_spec(constants::of(0), constants::of(single::ONE_BITS))
    } else {
        constants::of(0)
    }
}

/// The strength of a signal lies between zero and one, as long as the share
/// that correlated is a number.
pub proof fn strength_is_in_range(c: Correlation)
    requires
        !correlated_spec(c.magnitude, c.signal_power).over_spec(
            c.signal_power,
        ).sqrt_spec().nan(),
    ensures
        constants::of(0).le_spec(strength_spec(c)),
        strength_spec(c).le_spec(constants::of(single::ONE_BITS)),
{
}

/// Correlation-based bearing calculator using I/Q demodulation
///
/// Calculates bearing by correlating the filtered Doppler tone with sin/cos
/// reference signals at the rotation frequency. Uses the phase and frequency
/// of the north tick for accurate reference generation.
///
/// This method achieves sub-degree accuracy (<1°) and is more robust to noise
/// than zero-crossing detection, at the cost of slightly higher CPU usage.
pub struct CorrelationBearingCalculator {
    base: BearingCalculatorBase,
    preprocessed_len: usize,
}

impl CorrelationBearingCalculator {
    pub closed spec fn wf(&self) -> bool {
        self.base.wf()
    }

    pub closed spec fn base(&self) -> bearing_calculator_base::BaseState {
        self.base@
    }

    pub closed spec fn buffered(&self) -> nat {
        self.preprocessed_len as nat
    }

    /// Create a new correlation-based bearing calculator
    pub fn new(base: BearingCalculatorBase) -> (c: CorrelationBearingCalculator)
        requires
            base.wf(),
        ensures
            c.wf(),
            c.base() == base@,
            c.buffered() == 0,
    {
        CorrelationBearingCalculator { base, preprocessed_len: 0 }
    }

    /// Preprocess the doppler buffer (AGC + bandpass filter), once per audio
    /// buffer before its ticks.
    pub fn preprocess(&mut self, doppler_buffer: &[Single])
        requires
            old(self).wf(),
        ensures
            final(self).wf(),
            final(self).base() == old(self).base().prepared(doppler_buffer@),
            final(self).buffered() == doppler_buffer@.len(),
    {
        self.base.preprocess(doppler_buffer);
        self.preprocessed_len = doppler_buffer.len();
    }

    /// The phase of the rotation at each sample of the buffer. None where
    /// there is nothing to correlate, or nothing to correlate with.
    pub fn reference_phases(&self, north_tick: &NorthTick) -> (phases: Option<Vec<Single>>)
        requires
            self.wf(),
        ensures
            match phases {
                Some(p) => {
                    &&& self.base().work.len() > 0
                    &&& usable(*north_tick)
                    &&& p@ == Seq::new(
                        self.base().work.len(),
                        |i: int| reference_phase(self.base(), *north_tick, i),
                    )
                },
                None => self.base().work.len() == 0 || !usable(*north_tick),
            },
    {
        let n: usize = self.base.work_buffer().len();
        if n == 0 {
            return None;
        }
        // The tracked frequency is used directly
        let omega: Single = north_tick.frequency;
        if !omega.is_finite() || omega.at_most(Single::zero()) || !north_tick.phase.is_finite() {
            return None;
        }
        let mut phases: Vec<Single> = Vec::new();
        let mut idx: usize = 0;
        while idx < n
            invariant
                idx <= n,
                self.wf(),
                omega == north_tick.frequency,
                phases@ == Seq::new(
                    idx as nat,
                    |i: int| reference_phase(self.base(), *north_tick, i),
                ),
            decreases n - idx,
        {
            let samples_since_tick: Single = self.base.samples_since_tick(
                north_tick,
                Single::from_count(idx),
            );
            // Start at the tick's phase, advance by omega per sample
            phases.push(north_tick.phase.plus(samples_since_tick.times(omega)));
            idx = idx + 1;
            assert(phases@ =~= Seq::new(
                idx as nat,
                |i: int| reference_phase(self.base(), *north_tick, i),
            ));
        }
        Some(phases)
    }

    /// I/Q demodulation: correlate the buffer with the cosines and the sines of
    /// its reference phases.
    ///
    /// No measurable Doppler tone (e.g. muted or disconnected channel) gives
    /// None rather than a confident 0 degrees, and keeps the smoothing window
    /// uncontaminated.
    pub fn correlate(&self, cos: &[Single], sin: &[Single]) -> (c: Option<Correlation>)
        requires
            self.wf(),
            cos.len() == self.base().work.len(),
            sin.len() == self.base().work.len(),
        ensures
            ({
                let all = correlation_of(self.base().work, cos@, sin@);
                c == if all.magnitude.lt_spec(constants::of(MIN_CORRELATION_MAGNITUDE)) {
                    None
                } else {
                    Some(all)
                }
            }),
    {
        let work: &[Single] = self.base.work_buffer();
        let len: usize = work.len();
        let n: Single = Single::from_count(len);
        // Normalize by buffer length
        let i: Single = dot(work, cos, 0, len).over(n);
        let q: Single = dot(work, sin, 0, len).over(n);
        let signal_power: Single = dot(work, work, 0, len).over(n);
        let magnitude: Single = i.times(i).plus(q.times(q)).sqrt();
        if magnitude.less_than(Single::from_bits(MIN_CORRELATION_MAGNITUDE)) {
            return None;
        }
        Some(Correlation { i, q, signal_power, magnitude })
    }

    fn measurable(&self, c: &Correlation) -> (b: bool)
        requires
            self.wf(),
        ensures
            b == measurable(self.base().work.len(), *c),
    {
        self.base.work_buffer().len() >= MIN_COHERENCE_WINDOWS && c.signal_power.is_finite()
            && c.magnitude.is_finite() && !c.signal_power.less_than(
            Single::from_bits(constants::MIN_POWER_THRESHOLD),
        )
    }

    fn window_count(&self, north_tick: &NorthTick) -> (count: usize)
        requires
            self.wf(),
        ensures
            count == window_count_spec(self.base().work.len(), *north_tick),
    {
        let from_frequency: Single = Single::from_bits(constants::TWO_PI).over(
            north_tick.frequency.max(Single::from_bits(constants::EPSILON)),
        );
        let samples_per_rotation: Single = match north_tick.period {
            Some(p) => {
                if p.is_finite() && p.at_least(Single::one()) {
                    p
                } else {
                    from_frequency
                }
            },
            None => from_frequency,
        };
        let count: usize = Single::from_count(self.base.work_buffer().len()).over(
            samples_per_rotation,
        ).to_count();
        if count < MIN_COHERENCE_WINDOWS {
            MIN_COHERENCE_WINDOWS
        } else if count > MAX_COHERENCE_WINDOWS {
            MAX_COHERENCE_WINDOWS
        } else {
            count
        }
    }

    /// The vectors of the windows of a buffer: the angle of each is the
    /// bearing phase in it.
    ///
    /// One window per rotation, so the spread being measured is the spread of
    /// separate bearing estimates. A window of several rotations would average
    /// away most of the noise the figure exists to detect.
    ///
    /// None where the signal cannot be measured, or a window would be empty.
    pub fn window_vectors(
        &self,
        north_tick: &NorthTick,
        c: &Correlation,
        cos: &[Single],
        sin: &[Single],
    ) -> (vectors: Option<Vec<(Single, Single)>>)
        requires
            self.wf(),
            cos.len() == self.base().work.len(),
            sin.len() == self.base().work.len(),
        ensures
            ({
                let n = self.base().work.len();
                let count = window_count_spec(n, *north_tick);
                let size = n as int / count;
                match vectors {
                    Some(v) => {
                        &&& measurable(n, *c)
                        &&& size > 0
                        &&& v@ == Seq::new(
                            count as nat,
                            |w: int| window_vector(self.base().work, cos@, sin@, size, w),
                        )
                    },
                    None => !measurable(n, *c) || size == 0,
                }
            }),
    {
        if !self.measurable(c) {
            return None;
        }
        let work: &[Single] = self.base.work_buffer();
        let n: usize = work.len();
        let count: usize = self.window_count(north_tick);
        let size: usize = n / count;
        if size == 0 {
            return None;
        }
        let mut vectors: Vec<(Single, Single)> = Vec::new();
        let mut w: usize = 0;
        assert(count * size <= n) by (nonlinear_arith)
            requires
                size == n / count,
                count > 0,
        ;
        while w < count
            invariant
                w <= count,
                count * size <= n,
                n == work.len(),
                work@ == self.base().work,
                cos.len() == n,
                sin.len() == n,
                vectors@ == Seq::new(
                    w as nat,
                    |w: int| window_vector(self.base().work, cos@, sin@, size as int, w),
                ),
            decreases count - w,
        {
            assert(w * size + size <= n && 0 <= w * size) by (nonlinear_arith)
                requires
                    w < count,
                    count * size <= n,
                    w >= 0,
                    size >= 0,
            ;
            let start: usize = w * size;
            let end: usize = start + size;
            let i_win: Single = dot(work, cos, start, end);
            let q_win: Single = dot(work, sin, start, end);
            vectors.push((i_win.negated(), q_win));
            w = w + 1;
            assert(vectors@ =~= Seq::new(
                w as nat,
                |w: int| window_vector(self.base().work, cos@, sin@, size as int, w),
            ));
        }
        Some(vectors)
    }

    /// The power ratio of the tone to the noise it sits in.
    ///
    /// For a clean sine, I^2 + Q^2 = A^2 / 4 while the signal power is
    /// A^2 / 2, so twice the former is the power of the correlated signal.
    pub fn tone_snr(&self, c: &Correlation) -> (snr: Single)
        ensures
            snr == snr_spec(c.magnitude, c.signal_power),
    {
        power_ratio(c.magnitude, c.signal_power)
    }

    /// Calculate the confidence metrics of a correlation.
    ///
    /// # Arguments
    /// * `snr_db` - the tone's power ratio in dB
    /// * `resultant_length` - the mean resultant length it stands for
    /// * `phases` - the angles of the window vectors
    /// * `mean_phase` - the mean direction of those angles
    pub fn metrics(
        &self,
        north_tick: &NorthTick,
        c: &Correlation,
        snr_db: Single,
        resultant_length: Single,
        phases: &[Single],
        mean_phase: Single,
    ) -> (m: ConfidenceMetrics)
        requires
            self.wf(),
        ensures
            ({
                let n = self.base().work.len();
                m == if !measurable(n, *c) || n as int / window_count_spec(n, *north_tick)
                    == 0 {
                    ConfidenceMetrics::defaults()
                } else {
                    ConfidenceMetrics {
                        tone_peak: peak_spec(self.base().work),
                        resultant_length,
                        snr_db,
                        signal_strength: strength_spec(*c),
                        bearing_uncertainty_deg: bearing::uncertainty_spec(
                            Some(phase_variance_spec(phases@, mean_phase)),
                            self.base().independent_looks(),
                            north_tick.phase_variance,
                        ),
                    }
                }
            }),
    {
        let n: usize = self.base.work_buffer().len();
        if !self.measurable(c) || n / self.window_count(north_tick) == 0 {
            return ConfidenceMetrics::default();
        }
        let signal_strength: Single = if c.signal_power.above(
            Single::from_bits(MIN_SIGNAL_STRENGTH_POWER),
        ) {
            correlated_power(c.magnitude, c.signal_power).over(c.signal_power).sqrt().clamp(
                Single::zero(),
                Single::one(),
            )
        } else {
            Single::zero()
        };
        ConfidenceMetrics {
            tone_peak: peak(self.base.work_buffer()),
            resultant_length,
            snr_db,
            signal_strength,
            bearing_uncertainty_deg: bearing::bearing_uncertainty_deg(
                Some(phase_variance(phases, mean_phase)),
                self.base.independent_looks(),
                north_tick,
            ),
        }
    }

    /// The bearing of a correlation, from the angle of its (i, q) vector.
    ///
    /// The signal is A * sin(wt - p) where p is the bearing. Correlating with
    /// sin(wt) and cos(wt) gives I = -A * sin(p) and Q = A * cos(p), so the
    /// bearing is the negated angle.
    pub fn raw_bearing(&self, angle: Single) -> (raw: Single)
        ensures
            raw == bearing::bearing_of(
                angle.neg_spec().rem_euclid_spec(constants::of(constants::TWO_PI)),
            ),
    {
        let normalized_phase: Single = angle.negated().rem_euclid(
            Single::from_bits(constants::TWO_PI),
        );
        bearing::phase_to_bearing(normalized_phase)
    }

    /// Take the cosine and the sine of a raw bearing into the smoothing; the
    /// angle of the averages that come back is the smoothed bearing.
    pub fn smooth_bearing(&mut self, cos: Single, sin: Single) -> (averages: (Single, Single))
        requires
            old(self).wf(),
        ensures
            final(self).wf(),
            final(self).base() == old(self).base().smoothed(cos, sin),
            final(self).buffered() == old(self).buffered(),
            averages == (
                final(self).base().cosines.mean(),
                final(self).base().sines.mean(),
            ),
    {
        self.base.smooth_bearing(cos, sin)
    }

    /// The measurement that a bearing and its metrics make.
    pub fn measurement(
        &self,
        bearing_degrees: Single,
        raw_bearing: Single,
        metrics: ConfidenceMetrics,
    ) -> (m: BearingMeasurement)
        ensures
            m == bearing_calculator_base::measurement_spec(
                self.base().confidence,
                bearing_degrees,
                raw_bearing,
                metrics,
            ),
    {
        self.base.measurement(bearing_degrees, raw_bearing, metrics)
    }

    /// Advance the sample clock over lost samples (no audio processed).
    pub fn advance_samples(&mut self, samples: usize)
        requires
            old(self).wf(),
        ensures
            final(self).wf(),
            final(self).base() == old(self).base().moved(samples as int),
            final(self).buffered() == old(self).buffered(),
    {
        self.base.advance_counter(samples);
    }

    /// Advance the sample counter after all ticks of a buffer.
    pub fn advance_buffer(&mut self)
        requires
            old(self).wf(),
        ensures
            final(self).wf(),
            final(self).base() == old(self).base().moved(old(self).buffered() as int),
            final(self).buffered() == old(self).buffered(),
    {
        self.base.advance_counter(self.preprocessed_len);
    }

    /// The filtered buffer (after AGC + bandpass) from the last call of
    /// `preprocess`.
    pub fn filtered_buffer(&self) -> (b: &[Single])
        ensures
            b@ == self.base().work,
    {
        self.base.work_buffer()
    }
}

} // verus!
