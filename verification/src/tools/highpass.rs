//! How accurately a highpass lets north pulses be timed.
//!
//! For each filter setting the pulses are detected, each pulse epoch is
//! estimated, a constant rotation rate is fitted, and the residual is what is
//! reported. Residuals are scored against a straight line, so a constant delay
//! (filter group delay included) is absorbed by the fit.
use crate::constants;
use crate::double::Double;
use crate::signal_processing::ordering;
use crate::signal_processing::peak_detector;
use crate::signal_processing::peak_detector::PeakDetector;
use crate::single::Single;
use crate::tools::statistics;
use vstd::prelude::*;

verus! {

/// Samples around a peak that have to lie in the signal.
pub const MARGIN: usize = 8;

/// Samples on either side of a peak that its centroid is taken over.
pub const CENTROID_HALF_WIDTH: usize = 3;

/// Epochs that there have to be for a rate to be fitted.
pub const MIN_EPOCHS: usize = 16;

/// How often the cycle numbers are derived anew.
pub const REFITS: usize = 6;

/// What is kept of the residuals (0.99).
pub const KEPT: u64 = 0x3fef_ae14_7ae1_47ae;

/// Degrees in a turn, in double precision.
pub const TURN_DOUBLE: u64 = 0x4076_8000_0000_0000;

/// Milliseconds in a second.
pub const MILLISECONDS: u32 = 0x447a_0000;

/// The largest magnitude of the first `k` samples.
pub open spec fn loudest_spec(signal: Seq<Single>, k: int) -> Single
    decreases k,
{
    if k <= 0 {
        constants::of(0)
    } else {
        loudest_spec(signal, k - 1).max_spec(signal[k - 1].abs_spec())
    }
}

/// The largest magnitude in a signal.
pub fn loudest(signal: &[Single]) -> (p: Single)
    ensures
        p == loudest_spec(signal@, signal@.len() as int),
{
    let mut p: Single = Single::zero();
    let mut i: usize = 0;
    while i < signal.len()
        invariant
            i <= signal.len(),
            p == loudest_spec(signal@, i as int),
        decreases signal.len() - i,
    {
        p = p.max(signal[i].abs());
        i = i + 1;
    }
    p
}

/// Whether there is enough of a signal around a peak.
pub open spec fn well_inside(index: int, len: nat) -> bool {
    MARGIN <= index && index + MARGIN < len
}

/// The peaks that are well inside a signal.
pub open spec fn inner_peaks(peaks: Seq<(int, Single)>, len: nat) -> Seq<usize>
    decreases peaks.len(),
{
    if peaks.len() == 0 {
        Seq::empty()
    } else {
        let front = inner_peaks(peaks.drop_last(), len);
        if well_inside(peaks.last().0, len) {
            front.push(peaks.last().0 as usize)
        } else {
            front
        }
    }
}

/// The peaks of a signal after each threshold crossing that have enough of the
/// signal around them.
pub fn detect_peaks(
    signal: &[Single],
    threshold: Single,
    min_interval: usize,
) -> (r: Vec<usize>)
    requires
        signal.len() <= isize::MAX,
    ensures
        r@ == inner_peaks(
            peak_detector::fresh(threshold, min_interval as nat, MARGIN as nat).peaks(signal@),
            signal@.len(),
        ),
        forall|i: int| 0 <= i < r@.len() ==> well_inside((#[trigger] r@[i]) as int, signal@.len()),
{
    let mut detector: PeakDetector = PeakDetector::with_peak_search_window(
        threshold,
        min_interval,
        MARGIN,
    );
    let found: Vec<(isize, Single)> = detector.find_all_peaks(signal);
    let mut r: Vec<usize> = Vec::new();
    let mut i: usize = 0;
    let ghost list = peak_detector::peak_list(found@);
    assert(list.take(0) =~= Seq::<(int, Single)>::empty());
    while i < found.len()
        invariant
            i <= found.len(),
            signal.len() <= isize::MAX,
            list == peak_detector::peak_list(found@),
            r@ == inner_peaks(list.take(i as int), signal@.len()),
            forall|i: int|
                0 <= i < r@.len() ==> well_inside((#[trigger] r@[i]) as int, signal@.len()),
        decreases found.len() - i,
    {
        assert(list.take(i + 1).drop_last() =~= list.take(i as int));
        assert(list[i as int].0 == found@[i as int].0);
        let index: isize = found[i].0;
        if index >= MARGIN as isize {
            let p: usize = index as usize;
            if signal.len() >= MARGIN && p < signal.len() - MARGIN {
                r.push(p);
            }
        }
        i = i + 1;
    }
    assert(list.take(i as int) =~= list);
    r
}

/// The weight of a sample: the square of its positive part.
pub open spec fn weight_spec(sample: Single) -> Double {
    let v = Double::from_single_spec(sample.max_spec(constants::of(0)));
    v.times_spec(v)
}

/// The weights of the samples from `low` on, and the weighted positions, added
/// up.
pub open spec fn moments(signal: Seq<Single>, low: int, end: int) -> (Double, Double)
    decreases end - low,
{
    if end <= low {
        (Double { bits: 0 }, Double { bits: 0 })
    } else {
        let (weighted, total) = moments(signal, low, end - 1);
        let w = weight_spec(signal[end - 1]);
        (
            weighted.plus_spec(w.times_spec(Double::from_count_spec((end - 1) as nat))),
            total.plus_spec(w),
        )
    }
}

pub open spec fn centroid_spec(signal: Seq<Single>, peak: int, half_width: int) -> Double {
    let low = if peak >= half_width {
        peak - half_width
    } else {
        0
    };
    let high = if peak + half_width < signal.len() - 1 {
        peak + half_width
    } else {
        signal.len() - 1
    };
    let (weighted, total) = moments(signal, low, high + 1);
    if (Double { bits: 0 }).lt_spec(total) {
        weighted.over_spec(total).minus_spec(Double::from_count_spec(peak as nat))
    } else {
        Double { bits: 0 }
    }
}

/// Energy centroid of the positive part of the signal around a peak, as a
/// distance from it.
pub fn centroid_offset(signal: &[Single], peak: usize, half_width: usize) -> (c: Double)
    requires
        peak < signal.len(),
        peak + half_width <= usize::MAX,
    ensures
        c == centroid_spec(signal@, peak as int, half_width as int),
{
    let low: usize = if peak >= half_width {
        peak - half_width
    } else {
        0
    };
    let high: usize = if peak + half_width < signal.len() - 1 {
        peak + half_width
    } else {
        signal.len() - 1
    };
    let mut weighted: Double = Double::zero();
    let mut total: Double = Double::zero();
    let mut i: usize = low;
    while i <= high
        invariant
            low <= i <= high + 1,
            high < signal.len(),
            (weighted, total) == moments(signal@, low as int, i as int),
        decreases high + 1 - i,
    {
        let v: Double = Double::from_single(signal[i].max(Single::zero()));
        let w: Double = v.times(v);
        weighted = weighted.plus(w.times(Double::from_count(i)));
        total = total.plus(w);
        i = i + 1;
    }
    if total.above(Double::zero()) {
        weighted.over(total).minus(Double::from_count(peak))
    } else {
        Double::zero()
    }
}

/// The cycle numbers of epochs under a fit.
pub open spec fn cycles_spec(epochs: Seq<Double>, period: Double, offset: Double) -> Seq<Double> {
    epochs.map_values(
        |e: Double| e.minus_spec(offset).over_spec(period).round_spec(),
    )
}

/// The covariance of cycles and epochs and the variance of cycles, over the
/// first `k`, without their divisors.
pub open spec fn covariance_spec(
    cycles: Seq<Double>,
    epochs: Seq<Double>,
    mean_cycle: Double,
    mean_epoch: Double,
    k: int,
) -> (Double, Double)
    decreases k,
{
    if k <= 0 {
        (Double { bits: 0 }, Double { bits: 0 })
    } else {
        let (covariance, variance) = covariance_spec(
            cycles,
            epochs,
            mean_cycle,
            mean_epoch,
            k - 1,
        );
        let c = cycles[k - 1].minus_spec(mean_cycle);
        (
            covariance.plus_spec(c.times_spec(epochs[k - 1].minus_spec(mean_epoch))),
            variance.plus_spec(c.times_spec(c)),
        )
    }
}

/// A straight line through epochs, and the cycle numbers it was put through.
pub ghost struct Line {
    pub period: Double,
    pub offset: Double,
    pub cycles: Seq<Double>,
}

/// A line put through epochs once more, with the cycle numbers that the last
/// one gives.
pub open spec fn refit_spec(epochs: Seq<Double>, line: Line) -> Option<Line> {
    let cycles = cycles_spec(epochs, line.period, line.offset);
    let n = Double::from_count_spec(epochs.len());
    let mean_cycle = statistics::sum_spec(cycles, cycles.len() as int).over_spec(n);
    let mean_epoch = statistics::sum_spec(epochs, epochs.len() as int).over_spec(n);
    let (covariance, variance) = covariance_spec(
        cycles,
        epochs,
        mean_cycle,
        mean_epoch,
        epochs.len() as int,
    );
    let period = covariance.over_spec(variance);
    if variance.le_spec(Double { bits: 0 }) || !period.finite() || period.le_spec(
        Double { bits: 0 },
    ) {
        None
    } else {
        Some(
            Line {
                period,
                offset: mean_epoch.minus_spec(period.times_spec(mean_cycle)),
                cycles,
            },
        )
    }
}

/// The line after `k` fits.
pub open spec fn line_spec(epochs: Seq<Double>, nominal_period: Double, k: int) -> Option<Line>
    decreases k,
{
    if k <= 0 {
        Some(Line { period: nominal_period, offset: epochs[0], cycles: Seq::empty() })
    } else {
        match line_spec(epochs, nominal_period, k - 1) {
            Some(line) => refit_spec(epochs, line),
            None => None,
        }
    }
}

/// What is left of epochs beside a line.
pub open spec fn residuals_spec(epochs: Seq<Double>, line: Line) -> Seq<Double> {
    Seq::new(
        epochs.len(),
        |i: int|
            epochs[i].minus_spec(line.period.times_spec(line.cycles[i]).plus_spec(line.offset)),
    )
}

/// A fitted rate and its residuals.
pub open spec fn fit_spec(epochs: Seq<Double>, nominal_period: Double) -> Option<
    (Double, Seq<Double>),
> {
    if epochs.len() < MIN_EPOCHS {
        None
    } else {
        match line_spec(epochs, nominal_period, REFITS as int) {
            Some(line) => Some((line.period, residuals_spec(epochs, line))),
            None => None,
        }
    }
}

fn cycle_numbers(epochs: &[Double], period: Double, offset: Double) -> (r: Vec<Double>)
    ensures
        r@ == cycles_spec(epochs@, period, offset),
{
    let mut r: Vec<Double> = Vec::new();
    let ghost all = cycles_spec(epochs@, period, offset);
    let mut i: usize = 0;
    while i < epochs.len()
        invariant
            i <= epochs.len(),
            all == cycles_spec(epochs@, period, offset),
            r@ == all.take(i as int),
        decreases epochs.len() - i,
    {
        r.push(epochs[i].minus(offset).over(period).round());
        i = i + 1;
        assert(r@ =~= all.take(i as int));
    }
    assert(r@ =~= all);
    r
}

/// No line comes of one that failed.
proof fn failure_stays(epochs: Seq<Double>, nominal_period: Double, k: int, n: int)
    requires
        0 <= k <= n,
        line_spec(epochs, nominal_period, k) is None,
    ensures
        line_spec(epochs, nominal_period, n) is None,
    decreases n - k,
{
    if k < n {
        failure_stays(epochs, nominal_period, k + 1, n);
    }
}

/// Fit `epoch = period * cycle + offset` with the cycle indices re-derived
/// from the running fit, so missed pulses do not shift the numbering.
pub fn fit_rate(epochs: &[Double], nominal_period: Double) -> (r: Option<(Double, Vec<Double>)>)
    ensures
        match (r, fit_spec(epochs@, nominal_period)) {
            (Some((period, residuals)), Some((p, s))) => period == p && residuals@ == s,
            (None, None) => true,
            _ => false,
        },
{
    if epochs.len() < MIN_EPOCHS {
        return None;
    }
    let mut period: Double = nominal_period;
    let mut offset: Double = epochs[0];
    let mut cycles: Vec<Double> = Vec::new();
    let n: Double = Double::from_count(epochs.len());
    let mut k: usize = 0;
    while k < REFITS
        invariant
            k <= REFITS,
            MIN_EPOCHS <= epochs.len(),
            n == Double::from_count_spec(epochs@.len()),
            line_spec(epochs@, nominal_period, k as int) == Some(
                Line { period, offset, cycles: cycles@ },
            ),
            k > 0 ==> cycles@.len() == epochs@.len(),
        decreases REFITS - k,
    {
        let numbers: Vec<Double> = cycle_numbers(epochs, period, offset);
        let mean_cycle: Double = statistics::sum(numbers.as_slice()).over(n);
        let mean_epoch: Double = statistics::sum(epochs).over(n);
        let mut covariance: Double = Double::zero();
        let mut variance: Double = Double::zero();
        let mut i: usize = 0;
        while i < epochs.len()
            invariant
                i <= epochs.len(),
                numbers.len() == epochs.len(),
                (covariance, variance) == covariance_spec(
                    numbers@,
                    epochs@,
                    mean_cycle,
                    mean_epoch,
                    i as int,
                ),
            decreases epochs.len() - i,
        {
            let c: Double = numbers[i].minus(mean_cycle);
            covariance = covariance.plus(c.times(epochs[i].minus(mean_epoch)));
            variance = variance.plus(c.times(c));
            i = i + 1;
        }
        let fitted: Double = covariance.over(variance);
        if variance.at_most(Double::zero()) || !fitted.is_finite() || fitted.at_most(
            Double::zero(),
        ) {
            proof {
                failure_stays(epochs@, nominal_period, k + 1, REFITS as int);
            }
            return None;
        }
        period = fitted;
        offset = mean_epoch.minus(period.times(mean_cycle));
        cycles = numbers;
        k = k + 1;
    }
    let ghost line = Line { period, offset, cycles: cycles@ };
    let mut residuals: Vec<Double> = Vec::new();
    let mut i: usize = 0;
    while i < epochs.len()
        invariant
            i <= epochs.len(),
            cycles@.len() == epochs@.len(),
            line == (Line { period, offset, cycles: cycles@ }),
            residuals@ == residuals_spec(epochs@, line).take(i as int),
        decreases epochs.len() - i,
    {
        residuals.push(epochs[i].minus(period.times(cycles[i]).plus(offset)));
        i = i + 1;
        assert(residuals@ =~= residuals_spec(epochs@, line).take(i as int));
    }
    assert(residuals@ =~= residuals_spec(epochs@, line));
    Some((period, residuals))
}

/// Timing residual statistics for one estimator, in samples.
#[derive(Debug, Clone, Copy, PartialEq, Eq)]
pub struct Residuals {
    pub rms: Double,
    pub p95_abs: Double,
    pub period: Double,
}

/// Magnitudes.
pub open spec fn magnitudes(values: Seq<Double>, from: Double) -> Seq<Double> {
    values.map_values(|v: Double| v.minus_spec(from).abs_spec())
}

/// The magnitudes of numbers.
pub open spec fn sizes(values: Seq<Double>) -> Seq<Double> {
    values.map_values(|v: Double| v.abs_spec())
}

/// A place among `len` sorted numbers.
pub open spec fn place_at(len: nat, position: Double) -> nat {
    if position.to_count_spec() < len {
        position.to_count_spec()
    } else {
        (len - 1) as nat
    }
}

/// The numbers whose magnitude does not exceed a limit.
pub open spec fn within(values: Seq<Double>, limit: Double) -> Seq<Double>
    decreases values.len(),
{
    if values.len() == 0 {
        Seq::empty()
    } else {
        let front = within(values.drop_last(), limit);
        if values.last().abs_spec().le_spec(limit) {
            front.push(values.last())
        } else {
            front
        }
    }
}

/// The residuals that are scored: a handful of mis-detections should not
/// dominate the comparison.
pub open spec fn kept_spec(residuals: Seq<Double>) -> Seq<Double> {
    let cut = place_at(
        residuals.len(),
        Double::from_count_spec(residuals.len()).times_spec(Double { bits: KEPT }),
    );
    within(residuals, ordering::sorted(sizes(residuals))[cut as int])
}

pub open spec fn summary_spec(epochs: Seq<Double>, nominal_period: Double) -> Option<Residuals> {
    match fit_spec(epochs, nominal_period) {
        None => None,
        Some((period, residuals)) => {
            let kept = kept_spec(residuals);
            if kept.len() < MIN_EPOCHS {
                None
            } else {
                let mean = statistics::mean_spec(kept);
                let place = place_at(
                    kept.len(),
                    Double::from_count_spec((kept.len() - 1) as nat).times_spec(
                        Double { bits: statistics::P95 },
                    ),
                );
                Some(
                    Residuals {
                        rms: statistics::scatter_spec(kept, mean),
                        p95_abs: ordering::sorted(magnitudes(kept, mean))[place as int],
                        period,
                    },
                )
            }
        },
    }
}

fn place(len: usize, position: Double) -> (p: usize)
    requires
        len > 0,
    ensures
        p == place_at(len as nat, position),
        p < len,
{
    let p: usize = position.to_count();
    if p < len {
        p
    } else {
        len - 1
    }
}

fn sizes_of(values: &[Double]) -> (r: Vec<Double>)
    ensures
        r@ == sizes(values@),
{
    let mut r: Vec<Double> = Vec::new();
    let mut i: usize = 0;
    while i < values.len()
        invariant
            i <= values.len(),
            r@ == sizes(values@).take(i as int),
        decreases values.len() - i,
    {
        r.push(values[i].abs());
        i = i + 1;
        assert(r@ =~= sizes(values@).take(i as int));
    }
    assert(r@ =~= sizes(values@));
    r
}

fn magnitudes_of(values: &[Double], from: Double) -> (r: Vec<Double>)
    ensures
        r@ == magnitudes(values@, from),
{
    let mut r: Vec<Double> = Vec::new();
    let mut i: usize = 0;
    while i < values.len()
        invariant
            i <= values.len(),
            r@ == magnitudes(values@, from).take(i as int),
        decreases values.len() - i,
    {
        r.push(values[i].minus(from).abs());
        i = i + 1;
        assert(r@ =~= magnitudes(values@, from).take(i as int));
    }
    assert(r@ =~= magnitudes(values@, from));
    r
}

fn kept_of(values: &[Double], limit: Double) -> (r: Vec<Double>)
    ensures
        r@ == within(values@, limit),
{
    let mut r: Vec<Double> = Vec::new();
    let mut i: usize = 0;
    assert(values@.take(0) =~= Seq::<Double>::empty());
    while i < values.len()
        invariant
            i <= values.len(),
            r@ == within(values@.take(i as int), limit),
        decreases values.len() - i,
    {
        assert(values@.take(i + 1).drop_last() =~= values@.take(i as int));
        if values[i].abs().at_most(limit) {
            r.push(values[i]);
        }
        i = i + 1;
    }
    assert(values@.take(i as int) =~= values@);
    r
}

/// The residual statistics of epochs, where a rate fits them.
pub fn summarize(epochs: &[Double], nominal_period: Double) -> (r: Option<Residuals>)
    ensures
        r == summary_spec(epochs@, nominal_period),
{
    let (period, residuals) = match fit_rate(epochs, nominal_period) {
        Some(f) => f,
        None => {
            return None;
        },
    };
    let magnitude: Vec<Double> = sizes_of(residuals.as_slice());
    let sorted: Vec<Double> = ordering::sort(magnitude.as_slice());
    let n: usize = residuals.len();
    let cut: usize = place(n, Double::from_count(n).times(Double::from_bits(KEPT)));
    let kept: Vec<Double> = kept_of(residuals.as_slice(), sorted[cut]);
    if kept.len() < MIN_EPOCHS {
        return None;
    }
    let mean: Double = statistics::mean(kept.as_slice());
    let rms: Double = statistics::scatter(kept.as_slice(), mean);
    let absolute: Vec<Double> = magnitudes_of(kept.as_slice(), mean);
    let ordered: Vec<Double> = ordering::sort(absolute.as_slice());
    let at: usize = place(
        kept.len(),
        Double::from_count(kept.len() - 1).times(Double::from_bits(statistics::P95)),
    );
    Some(Residuals { rms, p95_abs: ordered[at], period })
}

impl Residuals {
    /// The scatter in degrees of a rotation.
    pub fn rms_degrees(&self) -> (d: Double)
        ensures
            d == self.rms.over_spec(self.period).times_spec(Double { bits: TURN_DOUBLE }),
    {
        self.rms.over(self.period).times(Double::from_bits(TURN_DOUBLE))
    }

    /// What nineteen of twenty do not exceed, in degrees of a rotation.
    pub fn p95_degrees(&self) -> (d: Double)
        ensures
            d == self.p95_abs.over_spec(self.period).times_spec(Double { bits: TURN_DOUBLE }),
    {
        self.p95_abs.over(self.period).times(Double::from_bits(TURN_DOUBLE))
    }
}

/// The filter lengths that are tried at a cutoff: without a filter there is no
/// length to try.
pub fn tap_counts(cutoff: Single, taps: &[usize]) -> (r: Vec<usize>)
    ensures
        r@ == if cutoff.le_spec(constants::of(0)) {
            seq![0usize]
        } else {
            taps@
        },
{
    let mut r: Vec<usize> = Vec::new();
    if cutoff.at_most(Single::zero()) {
        r.push(0);
        return r;
    }
    let mut i: usize = 0;
    while i < taps.len()
        invariant
            i <= taps.len(),
            r@ == taps@.take(i as int),
        decreases taps.len() - i,
    {
        r.push(taps[i]);
        i = i + 1;
        assert(r@ =~= taps@.take(i as int));
    }
    assert(r@ =~= taps@);
    r
}

/// What a recording promises, before any filter.
#[derive(Debug, Clone, Copy, PartialEq, Eq)]
pub struct Expected {
    /// Samples in a rotation
    pub nominal_period: Double,
    /// Samples between detections
    pub min_interval: usize,
    /// Pulses in the recording
    pub pulses: usize,
}

/// What a recording promises.
pub fn expected(
    samples: usize,
    sample_rate: Single,
    rotation_hz: Single,
    min_interval_ms: Single,
) -> (e: Expected)
    ensures
        e.nominal_period == Double::from_single_spec(sample_rate.over_spec(rotation_hz)),
        e.min_interval == min_interval_ms.over_spec(constants::of(MILLISECONDS)).times_spec(
            sample_rate,
        ).to_count_spec(),
        e.pulses == Double::from_count_spec(samples as nat).over_spec(
            e.nominal_period,
        ).round_spec().to_count_spec(),
{
    let nominal_period: Double = Double::from_single(sample_rate.over(rotation_hz));
    Expected {
        nominal_period,
        min_interval: min_interval_ms.over(Single::from_bits(MILLISECONDS)).times(
            sample_rate,
        ).to_count(),
        pulses: Double::from_count(samples).over(nominal_period).round().to_count(),
    }
}

/// How well a filter setting does.
#[derive(Debug, Clone, Copy, PartialEq, Eq)]
pub struct Score {
    pub detected: usize,
    pub rate_hz: Double,
    pub hard_limiter: Option<Residuals>,
    pub centroid: Option<Residuals>,
}

/// The epochs of peaks: their positions.
pub open spec fn limiter_epochs(peaks: Seq<usize>) -> Seq<Double> {
    peaks.map_values(|p: usize| Double::from_count_spec(p as nat))
}

/// The epochs of peaks: their centroids.
pub open spec fn centroid_epochs(signal: Seq<Single>, peaks: Seq<usize>) -> Seq<Double> {
    peaks.map_values(
        |p: usize|
            Double::from_count_spec(p as nat).plus_spec(
                centroid_spec(signal, p as int, CENTROID_HALF_WIDTH as int),
            ),
    )
}

/// The rate that is reported: that of the centroids, or of the positions, or
/// none.
pub open spec fn rate_spec(
    sample_rate: Single,
    centroid: Option<Residuals>,
    hard_limiter: Option<Residuals>,
) -> Double {
    match (centroid, hard_limiter) {
        (Some(r), _) => Double::from_single_spec(sample_rate).over_spec(r.period),
        (None, Some(r)) => Double::from_single_spec(sample_rate).over_spec(r.period),
        (None, None) => Double { bits: 0 },
    }
}

/// Score the peaks of a filtered signal.
pub fn score(
    filtered: &[Single],
    peaks: &[usize],
    sample_rate: Single,
    nominal_period: Double,
) -> (s: Score)
    requires
        forall|i: int|
            0 <= i < peaks@.len() ==> well_inside((#[trigger] peaks@[i]) as int, filtered@.len()),
    ensures
        s.detected == peaks@.len(),
        s.hard_limiter == summary_spec(limiter_epochs(peaks@), nominal_period),
        s.centroid == summary_spec(centroid_epochs(filtered@, peaks@), nominal_period),
        s.rate_hz == rate_spec(sample_rate, s.centroid, s.hard_limiter),
{
    let mut positions: Vec<Double> = Vec::new();
    let mut centroids: Vec<Double> = Vec::new();
    let n: usize = filtered.len();
    let mut i: usize = 0;
    while i < peaks.len()
        invariant
            i <= peaks.len(),
            n == filtered@.len(),
            forall|i: int|
                0 <= i < peaks@.len() ==> well_inside(
                    (#[trigger] peaks@[i]) as int,
                    filtered@.len(),
                ),
            positions@ == limiter_epochs(peaks@).take(i as int),
            centroids@ == centroid_epochs(filtered@, peaks@).take(i as int),
        decreases peaks.len() - i,
    {
        let p: usize = peaks[i];
        assert(well_inside(peaks@[i as int] as int, filtered@.len()));
        positions.push(Double::from_count(p));
        centroids.push(
            Double::from_count(p).plus(centroid_offset(filtered, p, CENTROID_HALF_WIDTH)),
        );
        i = i + 1;
        assert(positions@ =~= limiter_epochs(peaks@).take(i as int));
        assert(centroids@ =~= centroid_epochs(filtered@, peaks@).take(i as int));
    }
    assert(positions@ =~= limiter_epochs(peaks@));
    assert(centroids@ =~= centroid_epochs(filtered@, peaks@));
    let hard_limiter: Option<Residuals> = summarize(positions.as_slice(), nominal_period);
    let centroid: Option<Residuals> = summarize(centroids.as_slice(), nominal_period);
    let rate_hz: Double = match (centroid, hard_limiter) {
        (Some(r), _) => Double::from_single(sample_rate).over(r.period),
        (None, Some(r)) => Double::from_single(sample_rate).over(r.period),
        (None, None) => Double::zero(),
    };
    Score { detected: peaks.len(), rate_hz, hard_limiter, centroid }
}

} // verus!
