//! What a filter makes of an impulse, and where a line crosses zero.
use crate::arithmetic;
use crate::close;
use crate::constants;
use crate::double;
use crate::double::Double;
use crate::ieee;
use crate::rdf::steering_laws::distance;
use crate::signal_processing::fir_core;
use crate::signal_processing::zero_crossing_detector::CrossingAt;
use crate::single;
use crate::single::Single;
use crate::single_laws;
use vstd::arithmetic::power2;
use vstd::prelude::*;

verus! {

/// An impulse: one, and then zeros.
pub open spec fn impulse(len: nat) -> Seq<Single> {
    Seq::new(
        len,
        |i: int|
            if i == 0 {
                constants::of(single::ONE_BITS)
            } else {
                constants::of(0)
            },
    )
}

/// A delay line with nothing in it.
pub open spec fn silence(len: nat) -> Seq<Double> {
    Seq::new(len, |i: int| Double { bits: 0 })
}

/// A sum with nothing is the other term.
proof fn plus_nothing(a: Double, b: Double)
    requires
        a.finite(),
        b.finite(),
        a.value() == 0 || b.value() == 0,
    ensures
        a.plus_spec(b).finite(),
        a.plus_spec(b).value() == a.value() + b.value(),
{
    let h = double::HIDDEN as nat;
    let inf = double::INFINITE as nat;
    ieee::pattern_parts(h, 0, 0);
    ieee::pattern_value_increases(h, 0, a.magnitude() as nat);
    ieee::pattern_value_increases(h, 0, b.magnitude() as nat);
    ieee::nearest_of_held(h, inf, a.magnitude() as nat);
    ieee::nearest_of_held(h, inf, b.magnitude() as nat);
    ieee::nearest_of_held(h, inf, 0);
}

/// A product with zero is zero, and one with one is the other factor.
proof fn times_zero_or_one(t: Double)
    requires
        t.finite(),
    ensures
        ({
            let zero = t.times_spec(Double::from_single_spec(constants::of(0)));
            let same = t.times_spec(Double::from_single_spec(constants::of(single::ONE_BITS)));
            let none = t.times_spec(Double { bits: 0 });
            &&& zero.finite() && zero.value() == 0
            &&& none.finite() && none.value() == 0
            &&& same.finite() && same.value() == t.value()
        }),
{
    let h = double::HIDDEN as nat;
    let inf = double::INFINITE as nat;
    let u = power2::pow2(double::UNIT as nat);
    let one = Double::from_single_spec(constants::of(single::ONE_BITS));
    let zero = Double::from_single_spec(constants::of(0));
    power2::lemma_pow2_pos(double::UNIT as nat);
    power2::lemma_pow2_adds(single::UNIT as nat, double::WIDENING as nat);
    single_laws::value_of_one();
    crate::double_laws::widening_is_exact(constants::of(single::ONE_BITS));
    crate::double_laws::widening_is_exact(constants::of(0));
    ieee::pattern_parts(single::HIDDEN as nat, 0, 0);
    ieee::pattern_parts(h, 0, 0);
    assert(one.value() == u);
    let g = power2::pow2(double::WIDENING as nat);
    assert(zero.value() == 0) by {
        assert(0 * g == 0) by (nonlinear_arith);
    }
    let m = arithmetic::magnitude(t.value());
    ieee::pattern_value_increases(h, 0, t.magnitude() as nat);
    ieee::pattern_value_increases(h, 0, one.magnitude() as nat);
    assert(!one.negative()) by {
        if one.negative() {
            assert(one.value() <= 0);
        }
    }
    assert(m * 0 == 0 && 0 * u == 0);
    ieee::nearest_of_value(h, inf, 0, u, 0);
    ieee::nearest_of_value(h, inf, m * u, u, t.magnitude() as nat);
    assert(m == ieee::pattern_value(h, t.magnitude() as nat));
}

/// Where an impulse is in the delay line.
proof fn impulse_in_history(len: nat, n: nat, k: int)
    requires
        0 < len,
        0 <= k < n,
    ensures
        ({
            let line = fir_core::history_after(silence(len), impulse(n), k + 1);
            &&& line.len() == len
            &&& forall|j: int|
                0 <= j < len ==> #[trigger] line[j] == if j == k {
                    Double::from_single_spec(constants::of(single::ONE_BITS))
                } else if j < k {
                    Double::from_single_spec(constants::of(0))
                } else {
                    Double { bits: 0 }
                }
        }),
    decreases k,
{
    if k > 0 {
        impulse_in_history(len, n, k - 1);
    } else {
        assert(fir_core::history_after(silence(len), impulse(n), 0) == silence(len));
    }
    let before = fir_core::history_after(silence(len), impulse(n), k);
    let line = fir_core::history_after(silence(len), impulse(n), k + 1);
    assert(line == fir_core::shifted_in(before, impulse(n)[k]));
    assert forall|j: int| 0 <= j < len implies #[trigger] line[j] == if j == k {
        Double::from_single_spec(constants::of(single::ONE_BITS))
    } else if j < k {
        Double::from_single_spec(constants::of(0))
    } else {
        Double { bits: 0 }
    } by {
        if j > 0 {
            assert(line[j] == before[j - 1]);
        }
    }
}

/// The convolution with an impulse picks one tap.
proof fn convolution_picks_a_tap(taps: Seq<Double>, line: Seq<Double>, k: int, j: int)
    requires
        taps.len() == line.len(),
        0 <= k < taps.len(),
        0 <= j <= taps.len(),
        forall|i: int| 0 <= i < taps.len() ==> (#[trigger] taps[i]).finite(),
        forall|i: int|
            0 <= i < taps.len() ==> #[trigger] line[i] == if i == k {
                Double::from_single_spec(constants::of(single::ONE_BITS))
            } else if i < k {
                Double::from_single_spec(constants::of(0))
            } else {
                Double { bits: 0 }
            },
    ensures
        fir_core::convolution(taps, line, j).finite(),
        fir_core::convolution(taps, line, j).value() == if j > k {
            taps[k].value()
        } else {
            0
        },
    decreases j,
{
    ieee::pattern_parts(double::HIDDEN as nat, 0, 0);
    if j > 0 {
        convolution_picks_a_tap(taps, line, k, j - 1);
        assert(line[j - 1] == line[j - 1]);
        times_zero_or_one(taps[j - 1]);
        let before = fir_core::convolution(taps, line, j - 1);
        plus_nothing(before, taps[j - 1].times_spec(line[j - 1]));
    }
}

/// A filter answers an impulse with its coefficients, one after the other: a
/// sample is weighed by the first one when it arrives, and by the next one
/// with each sample after it.
pub proof fn impulse_brings_out_the_taps(taps: Seq<Double>, n: nat, k: int)
    requires
        0 <= k < n,
        taps.len() > 0,
        forall|i: int| 0 <= i < taps.len() ==> (#[trigger] taps[i]).finite(),
        k < taps.len(),
    ensures
        ({
            let out = fir_core::filtered(taps, silence(taps.len()), impulse(n));
            &&& out.len() == n
            &&& out[k].magnitude() == taps[k].to_single_spec().magnitude()
            &&& taps[k].value() != 0 ==> out[k] == taps[k].to_single_spec()
        }),
{
    let h = double::HIDDEN as nat;
    impulse_in_history(taps.len(), n, k);
    let line = fir_core::history_after(silence(taps.len()), impulse(n), k + 1);
    convolution_picks_a_tap(taps, line, k, taps.len() as int);
    let c = fir_core::convolution(taps, line, taps.len() as int);
    ieee::nearest_exists(
        single::HIDDEN as nat,
        single::INFINITE as nat,
        arithmetic::magnitude(c.value()),
        power2::pow2(double::WIDENING as nat),
    );
    ieee::pattern_value_increases(h, 0, c.magnitude() as nat);
    ieee::pattern_value_increases(h, 0, taps[k].magnitude() as nat);
    assert(arithmetic::magnitude(c.value()) == arithmetic::magnitude(taps[k].value()));
}

/// A crossing lies where the straight line between its two samples meets zero:
/// the way back from the second sample, times the rise of the line, is the
/// height of that sample, up to rounding.
pub proof fn crossing_lies_on_the_line(c: CrossingAt, prev: Single, sample: Single, r: nat)
    requires
        c.span == Some((prev, sample)),
        prev.finite(),
        prev.value() <= 0,
        single_laws::between(sample, 119, 159),
        single_laws::within(prev, 159),
        149 <= r <= 173,
        0 <= c.index <= power2::pow2((r - 149) as nat),
        c.index <= 0x100_0000,
    ensures
        ({
            let u = close::unit();
            let back = c.index * u - c.position().value();
            let rise = sample.value() - prev.value();
            c.position().finite() && 0x80_0000 * distance(back * rise, sample.value() * u) <= 8
                * (sample.value() * u) + power2::pow2(r) * rise
        }),
{
    let u = close::unit();
    let at = Single::from_integer_spec(c.index);
    power2::lemma2_to64();
    power2::lemma_pow2_pos(single::UNIT as nat);
    close::between_is_amount(sample, 119, 159);
    single_laws::count_is_exact(c.index);
    assert(prev.neg_spec().value() == -prev.value());
    single_laws::within_values(prev, 159);
    single_laws::within_values(sample, 159);
    single_laws::within_values(prev.neg_spec(), 159);
    single_laws::sum_within(sample, prev.neg_spec(), 159);
    close::difference_is_close(sample, prev);
    single_laws::sum_is_at_least(sample, prev.neg_spec(), sample);
    let rise = sample.minus_spec(prev);
    let exact = sample.value() - prev.value();
    assert(single_laws::between(rise, 119, 160));
    close::between_is_amount(rise, 119, 160);
    assert(rise.abs_spec() == rise);
    crate::rdf::loop_laws::beyond_resolution(rise);
    close::quotient_between(sample, rise, 119, 159, 119, 160);
    let f = sample.over_spec(rise);
    close::between_is_amount(f, 108, 189);
    close::quotient_is_close(sample, rise);
    // The way back is no more than one sample.
    let one = constants::of(single::ONE_BITS);
    single_laws::value_of_one();
    single_laws::over_itself(rise);
    single::rank_orders_values(sample, rise);
    single_laws::over_in_order(sample, rise, rise);
    single::rank_orders_values(f, one);
    assert(f.value() <= u);
    assert(f.neg_spec().value() == -f.value());
    let p = power2::pow2(r) as int;
    power2::lemma_pow2_adds((r - 149) as nat, 149);
    assert(c.index * u <= p && 0 <= c.index * u) by (nonlinear_arith)
        requires
            0 <= c.index <= power2::pow2((r - 149) as nat),
            p == power2::pow2((r - 149) as nat) * u,
            u > 0,
    ;
    assert(u <= p) by {
        power2::lemma_pow2_pos((r - 149) as nat);
        assert(u <= p) by (nonlinear_arith)
            requires
                p == power2::pow2((r - 149) as nat) * u,
                power2::pow2((r - 149) as nat) >= 1,
                u > 0,
        ;
    }
    single_laws::sum_is_close(at, f.neg_spec(), r);
    assert(c.position() == at.minus_spec(f));
    crossing_in_units(
        c.index * u - c.position().value(),
        f.value(),
        rise.value(),
        exact,
        sample.value() * u,
        p,
    );
}

proof fn crossing_in_units(back: int, f: int, rise: int, exact: int, height: int, p: int)
    requires
        f >= 0,
        rise >= 0,
        exact >= 0,
        height >= 0,
        p >= 0,
        close::close(f * rise, height, 1),
        close::close(rise, exact, 1),
        0x100_0000 * (back - f) <= p,
        0x100_0000 * (f - back) <= p,
    ensures
        0x80_0000 * distance(back * exact, height) <= 8 * height + p * exact,
{
    close::close_back(rise, exact, 1);
    close::close_times(exact, rise, 2, f);
    assert(exact * f == f * exact && rise * f == f * rise) by (nonlinear_arith);
    close::close_chain(f * exact, f * rise, height, 2, 1);
    let d = back - f;
    assert(-(p * exact) <= 0x100_0000 * (d * exact) <= p * exact) by (nonlinear_arith)
        requires
            -p <= 0x100_0000 * d <= p,
            exact >= 0,
    ;
    let (be, fe) = (back * exact, f * exact);
    assert(d * exact == be - fe) by (nonlinear_arith)
        requires
            d == back - f,
            be == back * exact,
            fe == f * exact,
    ;
    assert(p * exact >= 0) by (nonlinear_arith)
        requires
            p >= 0,
            exact >= 0,
    ;
}

} // verus!
