//! Measuring how far bearings are off.
use crate::constants;
use crate::processing::TickResult;
use crate::rdf::bearing;
use crate::signal_processing::math;
use crate::single::Single;
use crate::stats;
use vstd::prelude::*;

verus! {

/// Bearings that are skipped while a run settles.
pub const WARMUP: usize = 3;

/// Bearings that there have to be for any to be skipped.
pub const ENOUGH: usize = 5;

/// How far a bearing is off, the short way round.
pub open spec fn angle_error_spec(measured: Single, expected: Single) -> Single {
    let e = measured.minus_spec(expected);
    if constants::of(stats::HALF_TURN).lt_spec(e) {
        e.minus_spec(constants::of(math::FULL_TURN))
    } else if e.lt_spec(constants::of(stats::HALF_TURN).neg_spec()) {
        e.plus_spec(constants::of(math::FULL_TURN))
    } else {
        e
    }
}

/// How far a bearing is off, the short way round.
pub fn angle_error(measured: Single, expected: Single) -> (e: Single)
    ensures
        e == angle_error_spec(measured, expected),
{
    let e: Single = measured.minus(expected);
    let half: Single = Single::from_bits(stats::HALF_TURN);
    let turn: Single = Single::from_bits(math::FULL_TURN);
    if e.above(half) {
        e.minus(turn)
    } else if e.less_than(half.negated()) {
        e.plus(turn)
    } else {
        e
    }
}

/// The bearings among results, in order.
pub open spec fn bearings_of(results: Seq<TickResult>) -> Seq<Single>
    decreases results.len(),
{
    if results.len() == 0 {
        Seq::empty()
    } else {
        let front = bearings_of(results.drop_last());
        match results.last().bearing {
            Some(b) => front.push(b.bearing_degrees),
            None => front,
        }
    }
}

/// The bearings that count: all of them, or those after the warm-up where
/// there are enough.
pub open spec fn settled_bearings_spec(results: Seq<TickResult>) -> Seq<Single> {
    let all = bearings_of(results);
    if all.len() > ENOUGH {
        all.skip(WARMUP as int)
    } else {
        all
    }
}

/// The bearings that count in a run.
pub fn settled_bearings(results: &[TickResult]) -> (r: Vec<Single>)
    ensures
        r@ == settled_bearings_spec(results@),
{
    let mut all: Vec<Single> = Vec::new();
    let mut i: usize = 0;
    while i < results.len()
        invariant
            i <= results.len(),
            all@ == bearings_of(results@.take(i as int)),
        decreases results.len() - i,
    {
        assert(results@.take(i + 1).drop_last() =~= results@.take(i as int));
        if let Some(b) = results[i].bearing {
            all.push(b.bearing_degrees);
        }
        i = i + 1;
    }
    assert(results@.take(i as int) =~= results@);
    if all.len() <= ENOUGH {
        return all;
    }
    let mut rest: Vec<Single> = Vec::new();
    let mut k: usize = WARMUP;
    while k < all.len()
        invariant
            WARMUP <= k <= all.len(),
            rest@ == all@.subrange(WARMUP as int, k as int),
        decreases all.len() - k,
    {
        rest.push(all[k]);
        k = k + 1;
        assert(rest@ =~= all@.subrange(WARMUP as int, k as int));
    }
    assert(rest@ =~= all@.skip(WARMUP as int));
    rest
}

/// What the two bearing methods read of a signal.
#[derive(Clone, Copy, Debug, PartialEq, Eq, Structural)]
pub struct BearingMeasurement {
    pub zc_bearing: Option<Single>,
    pub corr_bearing: Option<Single>,
}

/// The largest errors of the two bearing methods.
#[derive(Clone, Copy, Debug, PartialEq, Eq, Structural)]
pub struct ErrorStats {
    pub zc_max_error: Single,
    pub corr_max_error: Single,
}

/// A largest error once one more bearing has been read, or not.
pub open spec fn widened(worst: Single, reading: Option<Single>, bearing: Single) -> Single {
    match reading {
        Some(r) => worst.max_spec(angle_error_spec(r, bearing).abs_spec()),
        None => worst,
    }
}

fn widen(worst: Single, reading: Option<Single>, bearing: Single) -> (w: Single)
    ensures
        w == widened(worst, reading, bearing),
{
    match reading {
        Some(r) => worst.max(angle_error(r, bearing).abs()),
        None => worst,
    }
}

/// The largest errors over the first `k` measurements, zero where a method
/// read nothing.
pub open spec fn error_stats(
    measurements: Seq<BearingMeasurement>,
    test_bearings: Seq<Single>,
    k: int,
) -> ErrorStats
    decreases k,
{
    if k <= 0 {
        ErrorStats { zc_max_error: constants::of(0), corr_max_error: constants::of(0) }
    } else {
        let s = error_stats(measurements, test_bearings, k - 1);
        let m = measurements[k - 1];
        ErrorStats {
            zc_max_error: widened(s.zc_max_error, m.zc_bearing, test_bearings[k - 1]),
            corr_max_error: widened(s.corr_max_error, m.corr_bearing, test_bearings[k - 1]),
        }
    }
}

/// How far the two methods are off at worst, where a signal from each bearing
/// has been measured.
pub fn measure_error_across_bearings(
    measurements: &[BearingMeasurement],
    test_bearings: &[Single],
) -> (s: ErrorStats)
    requires
        measurements.len() == test_bearings.len(),
    ensures
        s == error_stats(measurements@, test_bearings@, measurements@.len() as int),
{
    let mut s: ErrorStats = ErrorStats {
        zc_max_error: Single::zero(),
        corr_max_error: Single::zero(),
    };
    let mut i: usize = 0;
    while i < measurements.len()
        invariant
            i <= measurements.len(),
            measurements.len() == test_bearings.len(),
            s == error_stats(measurements@, test_bearings@, i as int),
        decreases measurements.len() - i,
    {
        let m: BearingMeasurement = measurements[i];
        s =
        ErrorStats {
            zc_max_error: widen(s.zc_max_error, m.zc_bearing, test_bearings[i]),
            corr_max_error: widen(s.corr_max_error, m.corr_bearing, test_bearings[i]),
        };
        i = i + 1;
    }
    s
}

/// Every `step`-th sample from a position on.
pub open spec fn strided(samples: Seq<Single>, step: int, first: int) -> Seq<Single> {
    Seq::new(stride_count(samples.len(), step, first), |i: int| samples[first + i * step])
}

/// How many samples lie a whole number of steps after a position.
pub open spec fn stride_count(len: nat, step: int, first: int) -> nat {
    if first < len {
        ((len - first - 1) / step + 1) as nat
    } else {
        0
    }
}

/// One channel of interleaved samples.
pub fn deinterleave(samples: &[Single], channels: usize, channel: usize) -> (r: Vec<Single>)
    requires
        channels >= 1,
    ensures
        r@ == strided(samples@, channels as int, channel as int),
{
    let mut r: Vec<Single> = Vec::new();
    if channel >= samples.len() {
        assert(r@ =~= strided(samples@, channels as int, channel as int));
        return r;
    }
    let steps: usize = (samples.len() - channel - 1) / channels;
    let mut k: usize = 0;
    let mut at: usize = channel;
    proof {
        step_within(samples@.len(), channels as int, channel as int, 0);
    }
    while k < steps
        invariant
            k <= steps,
            channels >= 1,
            channel < samples.len(),
            steps + 1 == stride_count(samples@.len(), channels as int, channel as int),
            at == channel + k * channels,
            at < samples.len(),
            r@ == strided(samples@, channels as int, channel as int).take(k as int),
        decreases steps - k,
    {
        r.push(samples[at]);
        proof {
            step_within(samples@.len(), channels as int, channel as int, k + 1);
            assert((k + 1) * channels == k * channels + channels) by (nonlinear_arith);
            assert(r@ =~= strided(samples@, channels as int, channel as int).take(k + 1));
        }
        at = at + channels;
        k = k + 1;
    }
    r.push(samples[at]);
    assert(r@ =~= strided(samples@, channels as int, channel as int));
    r
}

/// A step that counts lies within the samples.
proof fn step_within(len: nat, step: int, first: int, k: int)
    requires
        step >= 1,
        0 <= first < len,
        0 <= k < stride_count(len, step, first),
    ensures
        0 <= first + k * step < len,
{
    let n = len - first - 1;
    vstd::arithmetic::div_mod::lemma_fundamental_div_mod(n, step);
    vstd::arithmetic::div_mod::lemma_mod_bound(n, step);
    assert(0 <= k * step <= n) by (nonlinear_arith)
        requires
            n == step * (n / step) + n % step,
            0 <= n % step,
            0 <= k <= n / step,
            step >= 1,
    ;
}

/// Two channels put together, as far as both reach.
pub open spec fn interleaved(left: Seq<Single>, right: Seq<Single>) -> Seq<Single> {
    Seq::new(
        2 * (if left.len() < right.len() { left.len() } else { right.len() }),
        |i: int|
            if i % 2 == 0 {
                left[i / 2]
            } else {
                right[i / 2]
            },
    )
}

/// Put two channels together, as far as both reach.
pub fn interleave(left: &[Single], right: &[Single]) -> (r: Vec<Single>)
    ensures
        r@ == interleaved(left@, right@),
{
    let n: usize = if left.len() < right.len() {
        left.len()
    } else {
        right.len()
    };
    let mut r: Vec<Single> = Vec::new();
    let ghost all = interleaved(left@, right@);
    let mut i: usize = 0;
    while i < n
        invariant
            i <= n,
            n <= left.len(),
            n <= right.len(),
            all.len() == 2 * n,
            all == interleaved(left@, right@),
            r@ == all.take(2 * i),
        decreases n - i,
    {
        r.push(left[i]);
        r.push(right[i]);
        assert((2 * i) / 2 == i && (2 * i + 1) / 2 == i && (2 * i) % 2 == 0 && (2 * i + 1) % 2
            == 1);
        i = i + 1;
        assert(r@ =~= all.take(2 * i));
    }
    assert(r@ =~= all);
    r
}

/// Angles in radians.
pub open spec fn radians_spec(angles: Seq<Single>) -> Seq<Single> {
    angles.map_values(|a: Single| stats::radians_of(a))
}

/// Angles in radians, to take cosines and sines of.
pub fn radians(angles: &[Single]) -> (r: Vec<Single>)
    ensures
        r@ == radians_spec(angles@),
{
    let mut r: Vec<Single> = Vec::new();
    let mut i: usize = 0;
    while i < angles.len()
        invariant
            i <= angles.len(),
            r@ == radians_spec(angles@).take(i as int),
        decreases angles.len() - i,
    {
        r.push(stats::to_radians(angles[i]));
        i = i + 1;
        assert(r@ =~= radians_spec(angles@).take(i as int));
    }
    assert(r@ =~= radians_spec(angles@));
    r
}

/// The sums of cosines and sines, none where there are no angles.
pub fn circular_sum(vectors: &[(Single, Single)]) -> (s: Option<(Single, Single)>)
    ensures
        s == if vectors@.len() == 0 {
            None
        } else {
            Some(bearing::vector_sum_spec(vectors@))
        },
{
    if vectors.len() == 0 {
        None
    } else {
        Some(bearing::vector_sum(vectors))
    }
}

/// The circular mean in degrees, from the angle of the sums in radians.
pub fn circular_mean_degrees(angle: Single) -> (mean: Single)
    ensures
        mean == bearing::bearing_of(angle),
{
    bearing::phase_to_bearing(angle)
}

} // verus!
