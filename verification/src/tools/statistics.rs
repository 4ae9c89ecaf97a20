//! Statistics of error series.
use crate::double;
use crate::double::Double;
use crate::processing::TickResult;
use crate::signal_processing::math;
use crate::signal_processing::ordering;
use crate::single::Single;
use vstd::prelude::*;

verus! {

/// A fifth (0.2).
pub const FIFTH: u64 = 0x3fc9_9999_9999_999a;

/// Ninety-five hundredths (0.95).
pub const P95: u64 = 0x3fee_6666_6666_6666;

/// One.
pub const ONE: u64 = 0x3ff0_0000_0000_0000;

/// The sum of nothing: sums start at the zero that changes no number.
pub const EMPTY_SUM: u64 = 0x8000_0000_0000_0000;

/// Samples within which a tick counts as that of an epoch (3).
pub const MATCH_SAMPLES: u64 = 0x4008_0000_0000_0000;

/// One and a half turns in degrees (540).
pub const TURN_AND_HALF: u32 = 0x4407_0000;

/// Half a turn in degrees (180).
pub const HALF_TURN: u32 = 0x4334_0000;

/// The sum of the first `k` numbers.
pub open spec fn sum_spec(values: Seq<Double>, k: int) -> Double
    decreases k,
{
    if k <= 0 {
        Double { bits: EMPTY_SUM }
    } else {
        sum_spec(values, k - 1).plus_spec(values[k - 1])
    }
}

/// The sum of numbers, from the front.
pub fn sum(values: &[Double]) -> (s: Double)
    ensures
        s == sum_spec(values@, values@.len() as int),
{
    let mut s: Double = Double::from_bits(EMPTY_SUM);
    let mut i: usize = 0;
    while i < values.len()
        invariant
            i <= values.len(),
            s == sum_spec(values@, i as int),
        decreases values.len() - i,
    {
        s = s.plus(values[i]);
        i = i + 1;
    }
    s
}

/// The mean of numbers; none where there are none.
pub open spec fn mean_spec(values: Seq<Double>) -> Double {
    if values.len() == 0 {
        Double::not_a_number()
    } else {
        sum_spec(values, values.len() as int).over_spec(Double::from_count_spec(values.len()))
    }
}

/// The mean of numbers, not a number where there are none.
pub fn mean(values: &[Double]) -> (m: Double)
    ensures
        m == mean_spec(values@),
{
    if values.len() == 0 {
        return Double::from_bits(double::NAN_BITS);
    }
    sum(values).over(Double::from_count(values.len()))
}

/// The place of a percentile among sorted numbers.
pub open spec fn percentile_place(len: nat, p: Double) -> nat {
    let at = Double::from_count_spec((len - 1) as nat).times_spec(p).round_spec().to_count_spec();
    if at < len {
        at
    } else {
        (len - 1) as nat
    }
}

/// The number that a fraction of the numbers do not exceed.
pub open spec fn percentile_spec(values: Seq<Double>, p: Double) -> Double {
    if values.len() == 0 {
        Double::not_a_number()
    } else {
        ordering::sorted(values)[percentile_place(values.len(), p) as int]
    }
}

/// The number that a fraction of the numbers do not exceed, by the nearest
/// rank. The fraction lies between zero and one; beyond that it counts as one.
pub fn percentile(values: &[Double], p: Double) -> (x: Double)
    ensures
        x == percentile_spec(values@, p),
{
    if values.len() == 0 {
        return Double::from_bits(double::NAN_BITS);
    }
    let sorted: Vec<Double> = ordering::sort(values);
    let at: usize = Double::from_count(values.len() - 1).times(p).round().to_count();
    if at < values.len() {
        sorted[at]
    } else {
        sorted[values.len() - 1]
    }
}

/// Where the tail of a run starts.
pub open spec fn tail_start(len: nat, fraction: Double) -> nat {
    let at = Double::from_count_spec(len).times_spec(
        (Double { bits: ONE }).minus_spec(fraction),
    ).to_count_spec();
    if len == 0 {
        0
    } else if at < len {
        at
    } else {
        (len - 1) as nat
    }
}

/// The tail of a run.
pub open spec fn tail_spec(values: Seq<Double>, fraction: Double) -> Seq<Double> {
    values.skip(tail_start(values.len(), fraction) as int)
}

/// The tail of a run, so that a loop still acquiring is not reported as error.
/// It holds at least one number where there are any.
pub fn tail(values: &[Double], fraction: Double) -> (r: Vec<Double>)
    ensures
        r@ == tail_spec(values@, fraction),
        values@.len() > 0 ==> r@.len() > 0,
{
    let mut r: Vec<Double> = Vec::new();
    if values.len() == 0 {
        assert(r@ =~= tail_spec(values@, fraction));
        return r;
    }
    let at: usize = Double::from_count(values.len()).times(
        Double::from_bits(ONE).minus(fraction),
    ).to_count();
    let start: usize = if at < values.len() {
        at
    } else {
        values.len() - 1
    };
    let mut i: usize = start;
    while i < values.len()
        invariant
            start <= i <= values.len(),
            r@ == values@.subrange(start as int, i as int),
        decreases values.len() - i,
    {
        r.push(values[i]);
        i = i + 1;
        assert(r@ =~= values@.subrange(start as int, i as int));
    }
    assert(r@ =~= tail_spec(values@, fraction));
    r
}

/// The squares of the distances from a number, added up.
pub open spec fn squares_spec(values: Seq<Double>, from: Double, k: int) -> Double
    decreases k,
{
    if k <= 0 {
        Double { bits: EMPTY_SUM }
    } else {
        let d = values[k - 1].minus_spec(from);
        squares_spec(values, from, k - 1).plus_spec(d.times_spec(d))
    }
}

/// The standard deviation about a number; none where there are no numbers.
pub open spec fn scatter_spec(values: Seq<Double>, from: Double) -> Double {
    if values.len() == 0 {
        Double::not_a_number()
    } else {
        squares_spec(values, from, values.len() as int).over_spec(
            Double::from_count_spec(values.len()),
        ).sqrt_spec()
    }
}

/// The standard deviation about a number.
pub fn scatter(values: &[Double], from: Double) -> (s: Double)
    ensures
        s == scatter_spec(values@, from),
{
    if values.len() == 0 {
        return Double::from_bits(double::NAN_BITS);
    }
    let mut total: Double = Double::from_bits(EMPTY_SUM);
    let mut i: usize = 0;
    while i < values.len()
        invariant
            i <= values.len(),
            total == squares_spec(values@, from, i as int),
        decreases values.len() - i,
    {
        let d: Double = values[i].minus(from);
        total = total.plus(d.times(d));
        i = i + 1;
    }
    total.over(Double::from_count(values.len())).sqrt()
}

/// The time of a tick in samples.
pub open spec fn tick_time_spec(result: TickResult) -> Double {
    Double::from_count_spec(result.north_tick.sample_index as nat).plus_spec(
        Double::from_single_spec(result.north_tick.fractional_sample_offset),
    )
}

/// The time of a tick in samples.
pub fn tick_time(result: &TickResult) -> (t: Double)
    ensures
        t == tick_time_spec(*result),
{
    Double::from_count(result.north_tick.sample_index).plus(
        Double::from_single(result.north_tick.fractional_sample_offset),
    )
}

/// How far a bearing is off, in half a turn either way.
pub open spec fn signed_error_spec(bearing: Single, truth: Single) -> Double {
    Double::from_single_spec(
        bearing.minus_spec(truth).plus_spec(Single { bits: TURN_AND_HALF }).rem_euclid_spec(
            Single { bits: math::FULL_TURN },
        ).minus_spec(Single { bits: HALF_TURN }),
    )
}

/// How far a bearing is off, in half a turn either way.
pub fn signed_error(bearing: Single, truth: Single) -> (e: Double)
    ensures
        e == signed_error_spec(bearing, truth),
{
    Double::from_single(
        bearing.minus(truth).plus(Single::from_bits(TURN_AND_HALF)).rem_euclid(
            Single::from_bits(math::FULL_TURN),
        ).minus(Single::from_bits(HALF_TURN)),
    )
}

/// The mean of single-precision numbers, zero where there are none.
pub open spec fn single_mean_spec(data: Seq<Single>) -> Single {
    if data.len() == 0 {
        Single { bits: 0 }
    } else {
        math::sum_of(data).over_spec(Single::from_integer_spec(data.len() as int))
    }
}

/// The mean of single-precision numbers, zero where there are none.
pub fn single_mean(data: &[Single]) -> (m: Single)
    ensures
        m == single_mean_spec(data@),
{
    if data.len() == 0 {
        return Single::zero();
    }
    math::sum(data).over(Single::from_count(data.len()))
}

/// The squares of the distances from a mean.
pub open spec fn single_squares(data: Seq<Single>, m: Single) -> Seq<Single> {
    data.map_values(|x: Single| x.minus_spec(m).times_spec(x.minus_spec(m)))
}

/// The standard deviation of a sample, zero below two numbers.
pub open spec fn std_dev_spec(data: Seq<Single>) -> Single {
    if data.len() < 2 {
        Single { bits: 0 }
    } else {
        math::sum_of(single_squares(data, single_mean_spec(data))).over_spec(
            Single::from_integer_spec(data.len() - 1),
        ).sqrt_spec()
    }
}

/// The standard deviation of a sample, zero below two numbers.
pub fn std_dev(data: &[Single]) -> (s: Single)
    ensures
        s == std_dev_spec(data@),
{
    if data.len() < 2 {
        return Single::zero();
    }
    let m: Single = single_mean(data);
    let mut squares: Vec<Single> = Vec::new();
    let ghost all = single_squares(data@, m);
    let mut i: usize = 0;
    while i < data.len()
        invariant
            i <= data.len(),
            all == single_squares(data@, m),
            squares@ == all.take(i as int),
        decreases data.len() - i,
    {
        let d: Single = data[i].minus(m);
        squares.push(d.times(d));
        i = i + 1;
        assert(squares@ =~= all.take(i as int));
    }
    assert(squares@ =~= all);
    math::sum(squares.as_slice()).over(Single::from_count(data.len() - 1)).sqrt()
}

} // verus!
