//! What a silent start means to the tracker of the period.
use crate::arithmetic;
use crate::constants;
use crate::double;
use crate::double::Double;
use crate::ieee;
use crate::rdf::centroid;
use crate::rdf::north_ref::NorthTick;
use crate::rdf::north_ref_common;
use crate::rdf::north_ref_simple;
use crate::rdf::north_ref_simple::SimpleNorthTracker;
use crate::rdf::rotation_laws;
use crate::signal_processing::fir_core;
use crate::signal_processing::peak_detector;
use crate::signal_processing::peak_detector::PeakState;
use crate::signal_processing::window_max;
use crate::single;
use crate::single::Single;
use crate::single_laws;
use vstd::arithmetic::power2;
use vstd::prelude::*;

verus! {

/// Whether the first `z` samples are zero.
pub open spec fn starts_silent(samples: Seq<Single>, z: int) -> bool {
    z <= samples.len() && forall|i: int|
        0 <= i < z ==> (#[trigger] samples[i]).magnitude() == 0
}

pub open spec fn all_finite(taps: Seq<Double>) -> bool {
    forall|i: int| 0 <= i < taps.len() ==> (#[trigger] taps[i]).finite()
}

proof fn product_with_zero(a: Double, b: Double)
    requires
        a.finite(),
        b.magnitude() == 0,
    ensures
        a.times_spec(b).magnitude() == 0,
{
    let h = double::HIDDEN as nat;
    let inf = double::INFINITE as nat;
    let d = power2::pow2(double::UNIT as nat);
    power2::lemma_pow2_pos(double::UNIT as nat);
    assert(arithmetic::magnitude(a.value()) * 0 == 0) by (nonlinear_arith);
    assert(0 * d == 0);
    ieee::nearest_of_value(h, inf, 0, d, 0);
}

proof fn sum_of_zeros(a: Double, b: Double)
    requires
        a.magnitude() == 0,
        b.magnitude() == 0,
    ensures
        a.plus_spec(b).magnitude() == 0,
{
    ieee::nearest_of_held(double::HIDDEN as nat, double::INFINITE as nat, 0);
}

/// Silence in the delay line gives silence.
proof fn silent_convolution(taps: Seq<Double>, newest: Seq<Double>, k: int)
    requires
        0 <= k <= taps.len(),
        newest.len() == taps.len(),
        all_finite(taps),
        forall|i: int| 0 <= i < newest.len() ==> (#[trigger] newest[i]).magnitude() == 0,
    ensures
        fir_core::convolution(taps, newest, k).magnitude() == 0,
    decreases k,
{
    if k > 0 {
        silent_convolution(taps, newest, k - 1);
        assert(newest[k - 1].magnitude() == 0);
        product_with_zero(taps[k - 1], newest[k - 1]);
        sum_of_zeros(
            fir_core::convolution(taps, newest, k - 1),
            taps[k - 1].times_spec(newest[k - 1]),
        );
    }
}

/// A filter that holds nothing passes silence on.
proof fn silence_passes(taps: Seq<Double>, start: Seq<Double>, input: Seq<Single>, z: int)
    requires
        taps.len() > 0,
        start.len() == taps.len(),
        all_finite(taps),
        forall|i: int| 0 <= i < start.len() ==> (#[trigger] start[i]).magnitude() == 0,
        starts_silent(input, z),
    ensures
        starts_silent(fir_core::filtered(taps, start, input), z),
{
    let out = fir_core::filtered(taps, start, input);
    let hs = single::HIDDEN as nat;
    power2::lemma_pow2_pos(double::WIDENING as nat);
    assert forall|i: int| 0 <= i < z implies (#[trigger] out[i]).magnitude() == 0 by {
        fir_core::history_forgets(start, input, i + 1);
        let newest = fir_core::history_after(start, input, i + 1);
        assert forall|j: int| 0 <= j < newest.len() implies (#[trigger] newest[j]).magnitude()
            == 0 by {
            if j < i + 1 {
                assert(input[i - j].magnitude() == 0);
                zero_widens(input[i - j]);
            }
        }
        silent_convolution(taps, newest, taps.len() as int);
        assert(0 * power2::pow2(double::WIDENING as nat) == 0);
        ieee::nearest_of_value(
            hs,
            single::INFINITE as nat,
            0,
            power2::pow2(double::WIDENING as nat),
            0,
        );
    }
}

proof fn zero_widens(x: Single)
    requires
        x.magnitude() == 0,
    ensures
        Double::from_single_spec(x).magnitude() == 0,
{
    let g = power2::pow2(double::WIDENING as nat);
    assert(0 * g == 0);
    ieee::nearest_of_held(double::HIDDEN as nat, double::INFINITE as nat, 0);
}

/// A gain leaves silence silent.
proof fn amplified_silence(input: Seq<Single>, gain: Single, z: int)
    requires
        gain.finite(),
        starts_silent(input, z),
    ensures
        starts_silent(north_ref_common::amplified(input, gain), z),
{
    let out = north_ref_common::amplified(input, gain);
    let h = single::HIDDEN as nat;
    let d = power2::pow2(single::UNIT as nat);
    power2::lemma_pow2_pos(single::UNIT as nat);
    assert forall|i: int| 0 <= i < z implies (#[trigger] out[i]).magnitude() == 0 by {
        assert(input[i].magnitude() == 0);
        let m = arithmetic::magnitude(gain.value());
        assert(0 * m == 0);
        assert(0 * d == 0);
        ieee::nearest_of_value(h, single::INFINITE as nat, 0, d, 0);
    }
}

/// Nothing fires in silence.
proof fn no_crossing_in_silence(s: PeakState, buffer: Seq<Single>, z: int, k: int)
    requires
        starts_silent(buffer, z),
        0 <= k <= buffer.len(),
        !s.threshold.lt_spec(constants::of(0)),
        !s.threshold.nan(),
    ensures
        s.after(buffer, k).threshold == s.threshold,
        forall|i: int|
            0 <= i < s.crossings(buffer, k).len() ==> z <= #[trigger] s.crossings(buffer, k)[i],
    decreases k,
{
    if k > 0 {
        no_crossing_in_silence(s, buffer, z, k - 1);
        let earlier = s.crossings(buffer, k - 1);
        let all = s.crossings(buffer, k);
        let sample = buffer[k - 1];
        if k - 1 < z {
            assert(sample.magnitude() == 0 && sample.rank() == 0);
            assert(!s.threshold.lt_spec(sample));
            assert(all == earlier);
        } else {
            assert forall|i: int| 0 <= i < all.len() implies z <= #[trigger] all[i] by {
                if i < earlier.len() {
                    assert(all[i] == earlier[i]);
                }
            }
        }
    }
}

/// A detector at rest reports no peak in the silence that a buffer starts
/// with.
proof fn no_peak_in_silence(s: PeakState, buffer: Seq<Single>, z: int)
    requires
        starts_silent(buffer, z),
        peak_detector::without_nan(buffer),
        s.pending is None,
        s.window > 0,
        !s.threshold.lt_spec(constants::of(0)),
        !s.threshold.nan(),
    ensures
        forall|i: int|
            0 <= i < s.peaks(buffer).len() ==> z <= (#[trigger] s.peaks(buffer)[i]).0
                < buffer.len(),
{
    let n = buffer.len() as int;
    let c = s.crossings(buffer, n);
    let all = s.peaks(buffer);
    no_crossing_in_silence(s, buffer, z, n);
    s.crossings_in_range(buffer, n);
    assert(s.completed(buffer).len() == 0);
    assert forall|i: int| 0 <= i < all.len() implies z <= (#[trigger] all[i]).0 < n by {
        let start = s.settled(buffer)[i];
        assert(start == c[i]);
        s.search_finds_first_max(buffer, start);
        window_max::first_max_is_first_max(
            buffer,
            start,
            if start + s.window <= n {
                start + s.window
            } else {
                n
            },
        );
    }
}

/// How far an offset can move a tick.
proof fn offset_is_small(delay: Single, fraction: Single, half_width: int)
    requires
        rotation_laws::in_half_sample(delay),
        fraction.finite(),
        0 <= half_width <= 0x10_0000,
        centroid::size(fraction.value()) <= 2 * half_width * power2::pow2(single::UNIT as nat),
    ensures
        -(2 * half_width + 3) <= delay.plus_spec(fraction).round_to_i64_spec() <= 2 * half_width
            + 3,
{
    let u = power2::pow2(single::UNIT as nat) as int;
    let h = half_width;
    let half = constants::of(0x3f00_0000);
    power2::lemma2_to64();
    power2::lemma_pow2_pos(single::UNIT as nat);
    power2::lemma_pow2_unfold(single::UNIT as nat);
    single_laws::power_pattern_value(single::HIDDEN as nat, 23, 148);
    assert(single_laws::power_pattern(single::HIDDEN as nat, 23, 148) == 0x3f00_0000);
    assert(half.neg_spec().value() == -half.value());
    assert(delay.finite());
    single::rank_orders_values(delay, half);
    single::rank_orders_values(half.neg_spec(), delay);
    let w = 2 * h * u;
    power2::lemma_pow2_adds(22, single::UNIT as nat);
    assert(0 <= w <= 0x20_0000 * u) by (nonlinear_arith)
        requires
            w == 2 * h * u,
            0 <= h <= 0x10_0000,
            u > 0,
    ;
    single_laws::sum_is_close(delay, fraction, 171);
    let s = delay.plus_spec(fraction);
    single_laws::count_is_exact(2 * h + 1);
    single_laws::count_is_exact(-(2 * h + 1));
    let top = Single::from_integer_spec(2 * h + 1);
    let bottom = Single::from_integer_spec(-(2 * h + 1));
    assert((2 * h + 1) * u == w + u) by (nonlinear_arith)
        requires
            w == 2 * h * u,
    ;
    assert((-(2 * h + 1)) * u == -(w + u)) by (nonlinear_arith)
        requires
            w == 2 * h * u,
    ;
    single_laws::sum_is_at_most(delay, fraction, top);
    single_laws::sum_is_at_least(delay, fraction, bottom);
    let m = arithmetic::magnitude(s.value());
    let p = power2::pow2((single::UNIT - 1) as nat);
    power2::lemma_pow2_pos((single::UNIT - 1) as nat);
    single_laws::nearest_integer_is_near(m, p);
    let k = s.nearest_integer();
    assert(k <= 2 * h + 2) by (nonlinear_arith)
        requires
            k * (2 * p) <= m + p,
            m <= (2 * h + 1) * u,
            u == 2 * p,
            p > 0,
    ;
}

impl SimpleNorthTracker {
    /// A tracker at rest that skips samples reports the ticks of a buffer that
    /// many samples later, and nothing else changes, where the buffer starts
    /// with enough silence for the delay of the filter and the window of the
    /// estimator.
    pub proof fn skipping_before_silence_moves_the_ticks(
        before: SimpleNorthTracker,
        skipped: SimpleNorthTracker,
        samples: nat,
        buffer: Seq<Single>,
        silence: int,
        after: SimpleNorthTracker,
        ticks: Seq<NorthTick>,
        skipped_after: SimpleNorthTracker,
        skipped_ticks: Seq<NorthTick>,
    )
        requires
            before.at_rest(),
            before.skipped_to(skipped, samples as int),
            before.heard_to(after, buffer, ticks),
            skipped.heard_to(skipped_after, buffer, skipped_ticks),
            starts_silent(buffer, silence),
            before.settings().delay().delay_samples + 2 * before.settings().half_width + 3
                <= silence,
            before.settings().taps.len() > 0,
            all_finite(before.settings().taps),
            before.settings().gain.finite(),
            rotation_laws::in_half_sample(before.settings().delay().fractional_sample_offset),
            before.settings().estimator.exponent() == 0 || before.settings().half_width >= 1,
            before.settings().half_width <= 0x10_0000,
            before.detector().window > 0,
            !before.detector().threshold.nan(),
            !before.detector().threshold.lt_spec(constants::of(0)),
            forall|i: int|
                0 <= i < after.filtered().len() ==> (#[trigger] after.filtered()[i]).finite(),
            before.clock() >= 0,
            buffer.len() <= 0x40_0000_0000,
            before.clock() + samples + buffer.len() + 2 * before.settings().half_width + 3
                <= usize::MAX,
        ensures
            skipped_ticks == north_ref_simple::ticks_later(ticks, samples as int),
            skipped_after.timing() == after.timing().later(samples as int),
            skipped_after.filtered() == after.filtered(),
    {
        let s = before.settings();
        let filtered = after.filtered();
        let peaks = before.detector().peaks(filtered);
        let input = north_ref_common::amplified(buffer, s.gain);
        amplified_silence(buffer, s.gain, silence);
        silence_passes(s.taps, before.history(), input, silence);
        no_peak_in_silence(before.detector(), filtered, silence);
        assert forall|i: int| #![trigger peaks[i]] 0 <= i < peaks.len() implies {
            let at = before.clock() + peaks[i].0 - s.delay().delay_samples;
            let whole = s.offset(before.tail(), filtered, peaks[i].0).round_to_i64_spec();
            &&& 0 <= at
            &&& at + s.delay().delay_samples + samples <= usize::MAX
            &&& 0 <= at + whole
            &&& at + whole + samples <= usize::MAX
        } by {
            estimate_is_small(before, filtered, peaks[i].0);
            let f = north_ref_common::fraction_spec(
                before.tail(),
                filtered,
                peaks[i].0,
                s.estimator,
                s.half_width as int,
            );
            offset_is_small(s.delay().fractional_sample_offset, f, s.half_width as int);
        }
        Self::skipping_moves_the_ticks(
            before,
            skipped,
            samples,
            buffer,
            after,
            ticks,
            skipped_after,
            skipped_ticks,
        );
    }
}

/// The estimate of a tracker at rest is at most twice its half width.
proof fn estimate_is_small(t: SimpleNorthTracker, filtered: Seq<Single>, peak_index: int)
    requires
        t.at_rest(),
        t.settings().estimator.exponent() == 0 || t.settings().half_width >= 1,
        t.settings().half_width <= 0x10_0000,
        0 <= peak_index < filtered.len(),
        filtered.len() <= 0x40_0000_0000,
        forall|i: int| 0 <= i < filtered.len() ==> (#[trigger] filtered[i]).finite(),
    ensures
        ({
            let s = t.settings();
            let f = north_ref_common::fraction_spec(
                t.tail(),
                filtered,
                peak_index,
                s.estimator,
                s.half_width as int,
            );
            &&& f.finite()
            &&& centroid::size(f.value()) <= 2 * (s.half_width as int) * power2::pow2(
                single::UNIT as nat,
            )
        }),
{
    let s = t.settings();
    let h = s.half_width as int;
    let u = power2::pow2(single::UNIT as nat) as int;
    let f = north_ref_common::fraction_spec(t.tail(), filtered, peak_index, s.estimator, h);
    centroid::fraction_is_within_half_width(t.tail(), filtered, s.estimator, peak_index, h);
    power2::lemma_pow2_pos(single::UNIT as nat);
    let w = h * u;
    assert(w >= 0) by (nonlinear_arith)
        requires
            w == h * u,
            h >= 0,
            u > 0,
    ;
    assert(2 * h * u == 2 * w) by (nonlinear_arith)
        requires
            w == h * u,
    ;
    if f != constants::of(0) {
        let reach = centroid::reach_of(peak_index, h);
        let k = 0x4000_0000_0000 + reach + 0x100_0000;
        assert(k * w <= 0x8000_0000_0000 * w) by (nonlinear_arith)
            requires
                k <= 0x8000_0000_0000,
                w >= 0,
        ;
    }
}

} // verus!
