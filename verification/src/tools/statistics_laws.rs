//! What the statistics of errors stand for.
use crate::angle_laws;
use crate::close;
use crate::constants;
use crate::double_laws;
use crate::ieee;
use crate::rdf::bearing_laws;
use crate::rdf::looks_laws;
use crate::rdf::measure_laws;
use crate::rdf::rolling_laws;
use crate::rdf::steering_laws;
use crate::signal_processing::math;
use crate::single;
use crate::single::Single;
use crate::single_laws;
use crate::stats;
use crate::tools::statistics;
use vstd::arithmetic::power2;
use vstd::prelude::*;

verus! {

/// How far a bearing is off is the bearing less the true one, but for whole
/// turns and a few roundings, and no more than half a turn either way.
pub proof fn signed_error_keeps_place(bearing: Single, truth: Single)
    requires
        stats::in_turn_or_full(bearing),
        stats::in_turn_or_full(truth),
    ensures
        exists|e: int| #[trigger]
            is_error(statistics::signed_error_spec(bearing, truth).value(), bearing, truth, e),
{
    let u = close::unit();
    let full = constants::of(math::FULL_TURN);
    let half = constants::of(statistics::HALF_TURN);
    let shift = constants::of(statistics::TURN_AND_HALF);
    let f = full.value();
    angle_laws::degrees_of_turn();
    power2::lemma2_to64();
    power2::lemma_pow2_adds(10, 149);
    assert(truth.neg_spec().value() == -truth.value());
    assert(half.neg_spec().value() == -half.value());
    single_laws::sum_is_close(bearing, truth.neg_spec(), 159);
    steering_laws::sum_is_off(bearing, truth.neg_spec());
    let d = bearing.minus_spec(truth);
    single_laws::sum_is_close(d, shift, 159);
    steering_laws::sum_is_off(d, shift);
    let s = d.plus_spec(shift);
    close::remainder_keeps_place(s, full);
    let r = s.rem_euclid_spec(full);
    single_laws::sum_is_close(r, half.neg_spec(), 159);
    steering_laws::sum_is_off(r, half.neg_spec());
    let e = r.minus_spec(half);
    single_laws::sum_is_at_least(r, half.neg_spec(), half.neg_spec());
    single_laws::sum_is_at_most(r, half.neg_spec(), half);
    double_laws::widening_is_exact(e);
    let k = choose|k: int| #[trigger]
        close::by_turns(0x80_0000 * r.value(), 0x80_0000 * s.value(), 0x80_0000 * f, f, k);
    let p = 0x80_0000 * f;
    assert((k + 1) * p == k * p + p) by (nonlinear_arith);
    assert(close::by_turns(
        0x80_0000 * e.value(),
        0x80_0000 * (bearing.value() - truth.value()),
        p,
        6 * f,
        k + 1,
    ));
    assert(is_error(
        statistics::signed_error_spec(bearing, truth).value(),
        bearing,
        truth,
        e.value(),
    ));
}

/// Whether an error, in units of either precision, is that of a bearing.
pub open spec fn is_error(wide: int, bearing: Single, truth: Single, e: int) -> bool {
    let full = 360 * close::unit();
    &&& wide == e * rolling_laws::widening()
    &&& -full <= 2 * e <= full
    &&& close::turns_apart(
        0x80_0000 * e,
        0x80_0000 * (bearing.value() - truth.value()),
        0x80_0000 * full,
        6 * full,
    )
}

/// The mean of amounts, times their number, is their sum, up to two roundings
/// for each of them and two more.
pub proof fn mean_shares_the_total(data: Seq<Single>)
    requires
        1 <= data.len() <= 0x1_0000,
        forall|i: int|
            0 <= i < data.len() ==> close::amount(#[trigger] data[i]) && single_laws::within(
                data[i],
                229,
            ),
        measure_laws::total(data) >= power2::pow2(99),
    ensures
        ({
            let n = data.len() as int;
            let m = statistics::single_mean_spec(data).value();
            close::close(m * n, measure_laws::total(data), 2 * n + 2)
        }),
{
    let u = close::unit();
    let n = data.len() as int;
    measure_laws::sums_add_up(data);
    let sum = math::sum_of(data);
    let t = measure_laws::total(data);
    power2::lemma2_to64();
    power2::lemma_pow2_pos(single::UNIT as nat);
    power2::lemma_pow2_pos(99);
    sum_over_count(sum, t, n, n);
}

/// A sum that is close to a total, over a count.
proof fn sum_over_count(sum: Single, t: int, n: int, count: int)
    requires
        1 <= n <= 0x1_0000,
        1 <= count <= 0x1_0000,
        sum.finite(),
        t >= power2::pow2(99),
        t <= n * power2::pow2(229),
        close::close(sum.value(), t, 2 * n),
    ensures
        ({
            let q = sum.over_spec(Single::from_integer_spec(count));
            &&& single_laws::between(q, 74, 247)
            &&& close::close(q.value() * count, t, 2 * n + 2)
        }),
{
    let u = close::unit();
    power2::lemma2_to64();
    power2::lemma_pow2_pos(single::UNIT as nat);
    power2::lemma_pow2_pos(99);
    power2::lemma_pow2_unfold(99);
    power2::lemma_pow2_adds(18, 229);
    let p = power2::pow2(229) as int;
    assert(n * p <= 0x1_0000 * p) by (nonlinear_arith)
        requires
            n <= 0x1_0000,
            p >= 0,
    ;
    let s = sum.value();
    assert(s <= 2 * t && 2 * s >= t) by (nonlinear_arith)
        requires
            0x80_0000 * (s - t) <= (2 * n) * t,
            0x80_0000 * (t - s) <= (2 * n) * t,
            n <= 0x1_0000,
            t >= 0,
    ;
    if sum.negative() {
        ieee::pattern_value_increases(single::HIDDEN as nat, 0, sum.magnitude() as nat);
    }
    single_laws::within_values(sum, 247);
    assert(single_laws::between(sum, 98, 247));
    close::between_is_amount(sum, 98, 247);
    bearing_laws::count_between(count);
    let c = Single::from_integer_spec(count);
    close::between_is_amount(c, 149, 173);
    close::quotient_between(sum, c, 98, 247, 149, 173);
    close::quotient_is_close(sum, c);
    let q = sum.over_spec(c).value();
    assert(q * (count * u) == (q * count) * u) by (nonlinear_arith);
    close::close_without(q * count, s, 1, u);
    close::close_chain(q * count, s, t, 1, 2 * n);
}

/// The standard deviation of a sample is the root of the sum of the squares of
/// the deviations over one less than their number: its square times that is
/// the sum, up to a few roundings for each of them.
pub proof fn deviation_is_of_a_sample(data: Seq<Single>)
    requires
        2 <= data.len() <= 0x1000,
        ({
            let squares = statistics::single_squares(data, statistics::single_mean_spec(data));
            &&& forall|i: int|
                0 <= i < squares.len() ==> close::amount(#[trigger] squares[i])
                    && single_laws::within(squares[i], 229)
            &&& measure_laws::total(squares) >= power2::pow2(99)
        }),
    ensures
        ({
            let n = data.len() as int;
            let s = statistics::std_dev_spec(data).value();
            let squares = statistics::single_squares(data, statistics::single_mean_spec(data));
            close::close(
                (s * s) * (n - 1),
                measure_laws::total(squares) * close::unit(),
                2 * n + 5,
            )
        }),
{
    let u = close::unit();
    let n = data.len() as int;
    let squares = statistics::single_squares(data, statistics::single_mean_spec(data));
    power2::lemma_pow2_pos(single::UNIT as nat);
    assert(squares.len() == n);
    measure_laws::sums_add_up(squares);
    let sum = math::sum_of(squares);
    let t = measure_laws::total(squares);
    sum_over_count(sum, t, n, n - 1);
    let q = sum.over_spec(Single::from_integer_spec(n - 1));
    close::between_is_amount(q, 74, 247);
    close::root_is_close(q);
    let (s, v) = (q.sqrt_spec().value(), q.value());
    close::close_times(s * s, v * u, 2, n - 1);
    close::close_times(v * (n - 1), t, 2 * n + 2, u);
    assert((v * u) * (n - 1) == (v * (n - 1)) * u) by (nonlinear_arith);
    close::close_chain((s * s) * (n - 1), (v * (n - 1)) * u, t * u, 2, 2 * n + 2);
}

/// The squares of deviations from a mean are those of the differences.
pub proof fn squares_are_of_the_deviations(data: Seq<Single>, mean: Single, i: int)
    requires
        0 <= i < data.len(),
        data[i].minus_spec(mean).finite(),
        single_laws::between(data[i].minus_spec(mean).abs_spec(), 109, 159),
    ensures
        ({
            let d = data[i].minus_spec(mean).value();
            let s = statistics::single_squares(data, mean)[i];
            &&& close::amount(s)
            &&& close::close(s.value() * close::unit(), d * d, 1)
        }),
{
    looks_laws::square_is_close(data[i].minus_spec(mean));
}

} // verus!
