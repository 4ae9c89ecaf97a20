//! What is shown and written out of a measurement.
use crate::close;
use crate::constants;
use crate::display::playback;
use crate::double;
use crate::double::Double;
use crate::double_laws;
use crate::double_laws::apart;
use crate::processing::TickResult;
use crate::rdf::bearing::BearingMeasurement;
use crate::rdf::bearing_correlation;
use crate::rdf::bearing_laws;
use crate::rdf::bearing_zero_crossing;
use crate::rdf::loop_laws;
use crate::rdf::north_ref::NorthTick;
use crate::rdf::rolling_laws;
use crate::run;
use crate::simulation::measure;
use crate::single;
use crate::single::Single;
use crate::single_laws;
use vstd::arithmetic::power2;
use vstd::prelude::*;

verus! {

/// What is written out of a measurement is what was measured: both bearings
/// are turned by the same offset, and every other figure is passed on.
pub proof fn written_figures_are_the_measured_ones(
    result: TickResult,
    b: BearingMeasurement,
    other: BearingMeasurement,
    offset: Single,
    variance: Option<Single>,
)
    ensures
        ({
            let o = run::output_of(result, b, offset, variance);
            let swapped = run::output_of(result, other, offset, variance);
            &&& o.confidence == b.confidence
            &&& o.signal_present == b.signal_present
            &&& o.snr_db == b.metrics.snr_db
            &&& o.signal_strength == b.metrics.signal_strength
            &&& o.tone_peak == b.metrics.tone_peak
            &&& o.resultant_length == b.metrics.resultant_length
            &&& o.bearing_uncertainty_deg == b.metrics.bearing_uncertainty_deg
            &&& o.lock_quality == result.north_tick.lock_quality
            &&& o.phase_error_variance == variance
            &&& other.bearing_degrees == b.raw_bearing ==> swapped.bearing == o.raw
            &&& other.raw_bearing == b.bearing_degrees ==> swapped.raw == o.bearing
        }),
{
}

/// A bearing is shown as it is written: turned by the offset of north.
pub proof fn shown_as_written(
    result: TickResult,
    b: BearingMeasurement,
    offset: Single,
    variance: Option<Single>,
)
    ensures
        playback::turned(b.bearing_degrees, offset) == run::output_of(
            result,
            b,
            offset,
            variance,
        ).bearing,
        playback::turned(b.raw_bearing, offset) == run::output_of(result, b, offset, variance).raw,
{
}

/// A missing reference is warned of after the configured seconds: the frames
/// are the seconds times the sample rate, up to one frame and rounding.
pub proof fn timeout_is_in_seconds(timeout_secs: Single, sample_rate: u32)
    requires
        single_laws::between(timeout_secs, 129, 169),
        1 <= sample_rate <= 0x100_0000,
    ensures
        ({
            let n = run::timeout_frames(timeout_secs, sample_rate);
            let exact = timeout_secs.value() * sample_rate;
            let u = close::unit();
            &&& 0x80_0000 * (n * u) <= 0x80_0001 * exact
            &&& n < usize::MAX ==> 0x80_0000 * ((n + 1) * u) >= 0x7f_ffff * exact
        }),
{
    let u = close::unit();
    let rate = Single::from_integer_spec(sample_rate as int);
    power2::lemma_pow2_pos(single::UNIT as nat);
    bearing_laws::count_between(sample_rate as int);
    close::between_is_amount(rate, 149, 173);
    close::between_is_amount(timeout_secs, 129, 169);
    single_laws::product_between(timeout_secs, rate, 129, 169, 149, 173);
    let x = timeout_secs.times_spec(rate);
    close::between_is_amount(x, 129, 193);
    close::product_is_close(timeout_secs, rate);
    loop_laws::whole_part_of(x);
    let (t, r) = (timeout_secs.value(), sample_rate as int);
    assert(t * (r * u) == (t * r) * u) by (nonlinear_arith);
    close::close_without(x.value(), t * r, 1, u);
    let e = t * r;
    assert(1 * e == e) by (nonlinear_arith);
}

/// The silence that a warning tells of is in seconds: times the sample rate it
/// is the frames without a tick.
pub proof fn silence_is_told_in_seconds(frames: int, sample_rate: int)
    requires
        1 <= frames <= 0x100_0000,
        1 <= sample_rate <= 0x100_0000,
    ensures
        close::close(
            run::silence_spec(frames, sample_rate).value() * sample_rate,
            frames * close::unit(),
            1,
        ),
{
    crate::time_laws::share_of_counts(frames, sample_rate);
}

/// Lines are as far apart as the output rate says: the frames between two of
/// them, times the rate, are the frames in a second.
pub proof fn lines_come_at_the_output_rate(sample_rate: u32, output_rate_hz: Single)
    requires
        1 <= sample_rate,
        single_laws::between(output_rate_hz, 119, 179),
    ensures
        ({
            let i = run::interval_spec(sample_rate, output_rate_hz).value();
            let rate = output_rate_hz.value() * rolling_laws::widening();
            let exact = (sample_rate * rolling_laws::double_unit()) * rolling_laws::double_unit();
            0x80_0000 * apart(i * rate, exact) <= 2 * exact
        }),
{
    let g = rolling_laws::widening();
    let u = rolling_laws::double_unit();
    let a = Double::from_count_spec(sample_rate as nat);
    let b = Double::from_single_spec(output_rate_hz);
    power2::lemma2_to64();
    power2::lemma_pow2_pos(double::UNIT as nat);
    power2::lemma_pow2_pos(double::WIDENING as nat);
    close::between_is_amount(output_rate_hz, 119, 179);
    single_laws::within_values(output_rate_hz, 179);
    double_laws::count_is_exact(sample_rate as nat);
    double_laws::widening_is_exact(output_rate_hz);
    let (n, y) = (sample_rate as int, output_rate_hz.value());
    let rate = y * g;
    // The rate is between 2^1044 and 2^1104 units.
    power2::lemma_pow2_adds(119, double::WIDENING as nat);
    power2::lemma_pow2_adds(179, double::WIDENING as nat);
    assert(power2::pow2(1044) <= rate <= power2::pow2(1104)) by (nonlinear_arith)
        requires
            rate == y * g,
            power2::pow2(119) <= y <= power2::pow2(179),
            power2::pow2(1044) == power2::pow2(119) * g,
            power2::pow2(1104) == power2::pow2(179) * g,
            g > 0,
    ;
    power2::lemma_pow2_adds(1136, 1044);
    power2::lemma_pow2_adds(32, 1074);
    power2::lemma_pow2_adds(1106, 1074);
    power2::lemma_pow2_pos(1044);
    power2::lemma_pow2_pos(1136);
    let nu = n * u;
    assert(nu <= power2::pow2(1106)) by (nonlinear_arith)
        requires
            nu == n * u,
            n <= 0x1_0000_0000,
            power2::pow2(1106) == 0x1_0000_0000 * u,
            u > 0,
    ;
    assert(nu * u <= power2::pow2(1136) * rate) by (nonlinear_arith)
        requires
            0 <= nu <= power2::pow2(1106),
            power2::pow2(1106) * u == power2::pow2(1136) * power2::pow2(1044),
            power2::pow2(1044) <= rate,
            power2::pow2(1136) > 0,
            u > 0,
    ;
    double_laws::quotient_is_close(a, b, 1136);
    let q = a.over_spec(b).value();
    let w = rate * crate::arithmetic::magnitude(q);
    let exact = nu * u;
    // One unit of the quotient is next to nothing.
    power2::lemma_pow2_adds(1074, 1074);
    power2::lemma_pow2_adds(1104, 1044);
    power2::lemma_pow2_strictly_increases(1104, 2148);
    assert(u <= nu) by (nonlinear_arith)
        requires
            nu == n * u,
            n >= 1,
            u > 0,
    ;
    assert(u * u <= exact) by (nonlinear_arith)
        requires
            exact == nu * u,
            u <= nu,
            u > 0,
    ;
    power2::lemma_pow2_adds(30, 1074);
    power2::lemma_pow2_strictly_increases(60, 1074);
    assert(power2::pow2(60) == 0x1000_0000_0000_0000) by {
        power2::lemma2_to64_rest();
    }
    assert(0x4000_0000 * rate <= exact) by (nonlinear_arith)
        requires
            rate <= 0x4000_0000 * u,
            u >= 0x1000_0000_0000_0000,
            u * u <= exact,
            rate >= 0,
    {
        assert(0x4000_0000 * rate <= 0x1000_0000_0000_0000 * u);
        assert(0x1000_0000_0000_0000 * u <= u * u) by (nonlinear_arith)
            requires
                u >= 0x1000_0000_0000_0000,
        ;
    }
    assert(rate * q == q * rate) by (nonlinear_arith);
    assert(w == rate * q || w == -(rate * q)) by (nonlinear_arith)
        requires
            w == rate * crate::arithmetic::magnitude(q),
            crate::arithmetic::magnitude(q) == q || crate::arithmetic::magnitude(q) == -q,
    ;
    assert(w >= 0) by (nonlinear_arith)
        requires
            w == rate * crate::arithmetic::magnitude(q),
            rate >= 0,
    ;
}

/// The stronger the tone against the noise, the less a look at it scatters:
/// the variance of a look, times the power ratio, is one.
pub proof fn looks_scatter_by_the_inverse_ratio(snr: Single)
    requires
        single_laws::between(snr, 99, 199),
    ensures
        close::close(
            bearing_zero_crossing::look_variance(snr).value() * snr.value(),
            close::unit() * close::unit(),
            1,
        ),
{
    let one = constants::of(single::ONE_BITS);
    single_laws::value_of_one();
    power2::lemma_pow2_pos(single::UNIT as nat);
    single_laws::within_values(one, 149);
    close::between_is_amount(snr, 99, 199);
    close::quotient_between(one, snr, 149, 149, 99, 199);
    close::quotient_is_close(one, snr);
}

/// A buffer is cut into one window for each rotation in it, but no fewer than
/// two and no more than 64.
pub proof fn one_window_for_a_rotation(n: int, tick: NorthTick, period: Single)
    requires
        1 <= n <= 0x100_0000,
        tick.period == Some(period),
        single_laws::between(period, 149, 173),
    ensures
        ({
            let w = bearing_correlation::window_count_spec(n as nat, tick);
            let u = close::unit();
            let p = period.value();
            &&& 2 <= w <= 64
            &&& w > 2 ==> 0x80_0000 * (w * p) <= 0x80_0001 * (n * u)
            &&& w < 64 ==> 0x80_0000 * ((w + 1) * p) >= 0x7f_ffff * (n * u)
        }),
{
    let u = close::unit();
    let one = constants::of(single::ONE_BITS);
    power2::lemma2_to64();
    power2::lemma_pow2_pos(single::UNIT as nat);
    single_laws::value_of_one();
    bearing_laws::count_between(n);
    let len = Single::from_integer_spec(n);
    close::between_is_amount(len, 149, 173);
    close::between_is_amount(period, 149, 173);
    single::rank_orders_values(one, period);
    single::rank_orders_values(period, one);
    assert(bearing_correlation::rotation_samples(tick) == period);
    close::quotient_between(len, period, 149, 173, 149, 173);
    close::quotient_is_close(len, period);
    let q = len.over_spec(period);
    close::between_is_amount(q, 125, 173);
    loop_laws::whole_part_of(q);
    single_laws::counts_are_within(q, 24);
    let c = q.to_count_spec() as int;
    let (qv, p) = (q.value(), period.value());
    let e = (n * u) * u;
    assert(1 * e == e) by (nonlinear_arith);
    let nu = n * u;
    let w = bearing_correlation::window_count_spec(n as nat, tick);
    let qp = qv * p;
    if w > 2 {
        assert(w <= c);
        assert(w * u <= qv) by (nonlinear_arith)
            requires
                w <= c,
                c * u <= qv,
                u > 0,
        ;
        assert((w * p) * u <= qp) by (nonlinear_arith)
            requires
                w * u <= qv,
                qp == qv * p,
                p >= 0,
        ;
        assert(0x80_0000 * (w * p) <= 0x80_0001 * nu) by (nonlinear_arith)
            requires
                (w * p) * u <= qp,
                0x80_0000 * (qp - e) <= e,
                e == nu * u,
                u > 0,
        ;
    }
    if w < 64 {
        assert(w >= c);
        assert((w + 1) * u >= qv) by (nonlinear_arith)
            requires
                w >= c,
                (c + 1) * u >= qv,
                u > 0,
        ;
        assert(((w + 1) * p) * u >= qp) by (nonlinear_arith)
            requires
                (w + 1) * u >= qv,
                qp == qv * p,
                p >= 0,
        ;
        assert(0x80_0000 * ((w + 1) * p) >= 0x7f_ffff * nu) by (nonlinear_arith)
            requires
                ((w + 1) * p) * u >= qp,
                0x80_0000 * (e - qp) <= e,
                e == nu * u,
                u > 0,
        ;
    }
}

/// Two channels that are put together come apart again.
pub proof fn channels_come_apart_again(left: Seq<Single>, right: Seq<Single>)
    requires
        left.len() == right.len(),
    ensures
        measure::strided(measure::interleaved(left, right), 2, 0) == left,
        measure::strided(measure::interleaved(left, right), 2, 1) == right,
{
    let all = measure::interleaved(left, right);
    assert(all.len() == 2 * left.len());
    let a = measure::strided(all, 2, 0);
    let b = measure::strided(all, 2, 1);
    assert(a.len() == left.len());
    assert(b.len() == right.len());
    assert forall|i: int| 0 <= i < left.len() implies a[i] == left[i] && b[i] == right[i] by {
        assert((0 + i * 2) % 2 == 0 && (0 + i * 2) / 2 == i);
        assert((1 + i * 2) % 2 == 1 && (1 + i * 2) / 2 == i);
    }
    assert(a =~= left);
    assert(b =~= right);
}

} // verus!
