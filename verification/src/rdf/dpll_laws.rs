//! What holds of every tick of the phase-locked tracker.
use crate::arithmetic;
use crate::config::{NorthPulseEstimator, NorthTickConfig};
use crate::constants;
use crate::double::Double;
use crate::rdf::centroid;
use crate::rdf::north_ref;
use crate::rdf::north_ref::NorthTick;
use crate::rdf::north_ref_common;
use crate::rdf::north_ref_dpll;
use crate::rdf::north_ref_dpll::{DpllNorthTracker, Heard, Progress};
use crate::rdf::north_ref_simple;
use crate::rdf::north_ref_simple::SimpleSettings;
use crate::rdf::rotation_laws;
use crate::rdf::rotation_loop::{LockQualityWeights, LoopParams};
use crate::signal_processing::fir_highpass;
use crate::signal_processing::fir_highpass::FirHighpass;
use crate::signal_processing::math;
use crate::single;
use crate::single::Single;
use crate::single_laws;
use vstd::arithmetic::{div_mod, power2};
use vstd::prelude::*;

verus! {

impl Heard {
    /// Whether the peaks of a buffer can be told in numbers: they keep clear
    /// of the end of the sample clock, and the estimator has a fraction for
    /// each that is not beyond all measure.
    pub open spec fn in_numbers(self) -> bool {
        &&& 0 <= self.clock
        &&& self.clock + self.filtered.len() < usize::MAX
        &&& single_laws::within(
            self.settings.delay().fractional_sample_offset,
            rotation_laws::FRACTION as nat,
        )
        &&& forall|k: int|
            #![trigger self.peaks[k]]
            0 <= k < self.peaks.len() ==> {
                &&& -isize::MAX <= self.peaks[k].0 < self.filtered.len()
                &&& single_laws::within(self.fraction(k), rotation_laws::FRACTION as nat)
            }
    }
}

/// The widest half width of an estimator window that is reckoned with.
pub const WIDEST: u64 = 0x10_0000;

/// The furthest that a detector looks back, that is reckoned with.
pub const LONGEST: u64 = 0x40_0000_0000;

/// Whether the settings of a tracker tell the time of a pulse in numbers.
pub open spec fn settings_in_order(s: SimpleSettings) -> bool {
    &&& single_laws::within(
        s.delay().fractional_sample_offset,
        rotation_laws::FRACTION as nat,
    )
    &&& s.estimator.exponent() == 0 || s.half_width >= 1
    &&& s.half_width <= WIDEST
}

/// Whether the samples that an estimator may look at are numbers.
pub open spec fn in_numbers(tail: Seq<Single>, filtered: Seq<Single>) -> bool {
    forall|i: int|
        #![trigger north_ref_common::sample_at_spec(tail, filtered, i)]
        north_ref_common::sample_at_spec(tail, filtered, i) matches Some(s) ==> s.finite()
}

impl Heard {
    /// The peaks of a buffer can be told in numbers where its samples are
    /// numbers, and it lies within reach of the estimator.
    proof fn numbers_give_numbers(self)
        requires
            0 <= self.clock,
            self.clock + self.filtered.len() < usize::MAX,
            settings_in_order(self.settings),
            self.filtered.len() <= LONGEST,
            forall|i: int|
                #![trigger self.peaks[i]]
                0 <= i < self.peaks.len() ==> -LONGEST <= self.peaks[i].0 && -isize::MAX
                    <= self.peaks[i].0 < self.filtered.len(),
            in_numbers(self.tail, self.filtered),
        ensures
            self.in_numbers(),
    {
        assert forall|k: int| #![trigger self.peaks[k]] 0 <= k < self.peaks.len() implies {
            &&& -isize::MAX <= self.peaks[k].0 < self.filtered.len()
            &&& single_laws::within(self.fraction(k), rotation_laws::FRACTION as nat)
        } by {
            estimate_is_moderate(
                self.tail,
                self.filtered,
                self.settings.estimator,
                self.peaks[k].0,
                self.settings.half_width as int,
            );
        }
    }
}

/// An estimate is no larger than twice the widest half width.
proof fn estimate_is_moderate(
    tail: Seq<Single>,
    buffer: Seq<Single>,
    estimator: NorthPulseEstimator,
    peak_index: int,
    half_width: int,
)
    requires
        estimator.exponent() == 0 || half_width >= 1,
        0 <= half_width <= WIDEST,
        -LONGEST <= peak_index <= LONGEST,
        in_numbers(tail, buffer),
    ensures
        single_laws::within(
            north_ref_common::fraction_spec(tail, buffer, peak_index, estimator, half_width),
            rotation_laws::FRACTION as nat,
        ),
{
    let r = north_ref_common::fraction_spec(tail, buffer, peak_index, estimator, half_width);
    let u = power2::pow2(single::UNIT as nat) as int;
    centroid::fraction_is_within_half_width(tail, buffer, estimator, peak_index, half_width);
    power2::lemma2_to64();
    power2::lemma_pow2_adds(21, single::UNIT as nat);
    single_laws::within_values(r, rotation_laws::FRACTION as nat);
    if r != constants::of(0) {
        let reach = centroid::reach_of(peak_index, half_width);
        let w = half_width * u;
        assert(0 <= w <= 0x10_0000 * u) by (nonlinear_arith)
            requires
                w == half_width * u,
                0 <= half_width <= 0x10_0000,
                u >= 0,
        ;
        let f = 0x4000_0000_0000 + reach + 0x100_0000;
        assert(f * w <= 0x8000_0000_0000 * w) by (nonlinear_arith)
            requires
                f <= 0x8000_0000_0000,
                w >= 0,
        ;
    }
}

/// Whether a tick keeps to the limits of a loop: well timed, at a frequency
/// within the limits or, where it was predicted, at the running mean of rates
/// that are.
pub open spec fn keeps_to(t: NorthTick, params: LoopParams) -> bool {
    rotation_laws::well_timed(t) && (params.in_limits(t.frequency) || params.averaged(
        t.frequency,
    ))
}

pub open spec fn all_keep_to(ticks: Seq<NorthTick>, params: LoopParams) -> bool {
    forall|i: int| 0 <= i < ticks.len() ==> keeps_to(#[trigger] ticks[i], params)
}

impl Progress {
    /// What holds of a tracker all through a buffer.
    pub open spec fn on_track(self, params: LoopParams) -> bool {
        &&& self.turn.steady()
        &&& self.turn.params == params
        &&& all_keep_to(self.ticks, params)
        &&& -isize::MAX <= self.stands_at <= isize::MAX
    }
}

impl Heard {
    proof fn step_stays_on_track(self, p: Progress, k: int)
        requires
            self.in_numbers(),
            0 <= k < self.peaks.len(),
            self.filtered.len() <= isize::MAX,
            p.on_track(p.turn.params),
        ensures
            self.step(p, k).on_track(p.turn.params),
    {
        reveal(Heard::step);
        let params = p.turn.params;
        let rel = self.peaks[k].0;
        let at = self.position(k);
        let turned = p.turn.turned(rel - p.stands_at);
        p.turn.turning_keeps_steady(rel - p.stands_at);
        turned.prediction_keeps_steady(at);
        let coasted = turned.coasted_to(at);
        let delay = self.settings.delay().fractional_sample_offset;
        coasted.detection_keeps_steady(at, self.fraction(k), delay);
        assert(coasted.detected(at, self.fraction(k), delay).0.params == params);
        assert(all_keep_to(self.step(p, k).ticks, params));
    }

    proof fn progress_stays_on_track(self, start: Progress, k: int)
        requires
            self.in_numbers(),
            0 <= k <= self.peaks.len(),
            self.filtered.len() <= isize::MAX,
            start.on_track(start.turn.params),
        ensures
            self.after(start, k).on_track(start.turn.params),
        decreases k,
    {
        if k > 0 {
            self.progress_stays_on_track(start, k - 1);
            self.step_stays_on_track(self.after(start, k - 1), k - 1);
        }
    }

    proof fn buffer_stays_on_track(self, start: Progress)
        requires
            self.in_numbers(),
            self.filtered.len() <= isize::MAX,
            start.on_track(start.turn.params),
        ensures
            self.finished(start).on_track(start.turn.params),
    {
        let p = self.after(start, self.peaks.len() as int);
        let n = self.filtered.len() as int;
        self.progress_stays_on_track(start, self.peaks.len() as int);
        let turned = if p.stands_at < n {
            p.turn.turning_keeps_steady(n - p.stands_at);
            p.turn.turned(n - p.stands_at)
        } else {
            p.turn
        };
        let delay = self.settings.delay().delay_samples as int;
        let end = north_ref::behind(
            north_ref::on_clock(self.clock, n),
            if delay > 1 {
                delay
            } else {
                1
            },
        );
        turned.prediction_keeps_steady(end);
        assert(all_keep_to(self.finished(start).ticks, start.turn.params));
    }
}

impl DpllNorthTracker {
    /// Whether a tracker follows the rotation in numbers, which it does from
    /// the start.
    pub open spec fn on_track(self) -> bool {
        &&& self.turn().steady()
        &&& settings_in_order(self.settings())
        &&& self.detector().window > 0
        &&& self.detector().reach() <= LONGEST
        &&& self.detector().reach() <= isize::MAX
        &&& self.detector().open_search_is_in_reach()
    }

    /// The limits of a configuration that is accepted are in order.
    pub proof fn limits_are_in_order(config: NorthTickConfig, sample_rate: Single)
        requires
            north_ref_dpll::dpll_fault(config, sample_rate) is None,
            constants::of(constants::TWO_PI).times_spec(config.dpll.frequency_max_hz).finite(),
            north_ref_dpll::omega_spec(config.dpll.frequency_max_hz, sample_rate).finite(),
        ensures
            north_ref_dpll::omega_spec(config.dpll.frequency_min_hz, sample_rate).le_spec(
                north_ref_dpll::omega_spec(config.dpll.frequency_max_hz, sample_rate),
            ),
    {
        let d = config.dpll;
        let turn = constants::of(constants::TWO_PI);
        single_laws::times_in_order(d.frequency_min_hz, d.frequency_max_hz, turn);
        let a = arithmetic::magnitude(turn.value());
        let b = arithmetic::magnitude(d.frequency_min_hz.value());
        let c = arithmetic::magnitude(d.frequency_max_hz.value());
        assert(a * b == b * a) by (nonlinear_arith);
        assert(a * c == c * a) by (nonlinear_arith);
        single_laws::over_in_order(
            turn.times_spec(d.frequency_min_hz),
            turn.times_spec(d.frequency_max_hz),
            sample_rate,
        );
    }

    /// A tracker that was made for ordinary settings is on track.
    pub proof fn starts_on_track(
        self,
        config: NorthTickConfig,
        sample_rate: Single,
        gain: Single,
        agc_alpha: Single,
        highpass: FirHighpass,
        weights: LockQualityWeights,
    )
        requires
            north_ref_dpll::dpll_fault(config, sample_rate) is None,
            ordinary(config, sample_rate, highpass),
            self.starts(config, sample_rate, gain, agc_alpha, highpass, weights),
        ensures
            self.on_track(),
    {
        let half_width = north_ref_simple::half_width_of(config, sample_rate);
        ordinary_loop(config, sample_rate, highpass);
        half_width_is_moderate(config, sample_rate);
        timing_is_moderate(
            highpass,
            north_ref_dpll::threshold_of(config, gain, highpass),
            north_ref_dpll::amplitude_of(config, gain),
            config.estimator,
            half_width as int,
        );
        let timing = north_ref_dpll::timing_of(config, sample_rate, gain, highpass);
        delay_is_moderate(highpass.group_delay(), timing.pulse_reference_offset);
        assert(self.detector().reach() <= 0x11_0000);
    }

    /// A tracker stays on track over lost samples.
    pub proof fn skipping_keeps_on_track(self, after: DpllNorthTracker, samples: int)
        requires
            self.on_track(),
            self.skipped_to(after, samples),
            0 <= samples <= u64::MAX,
        ensures
            after.on_track(),
    {
        self.turn().skipping_keeps_steady(samples);
    }

    /// Every tick of a buffer stands on the phase of north, within half a
    /// sample of its index, with the period of its frequency; the frequency
    /// is within the configured limits or, where the tick was predicted, the
    /// running mean of rates that are. The tracker stays on track, so that
    /// this holds of buffer after buffer.
    pub proof fn ticks_keep_to_the_limits(
        self,
        after: DpllNorthTracker,
        buffer: Seq<Single>,
        ticks: Seq<NorthTick>,
    )
        requires
            self.on_track(),
            self.heard_to(after, buffer, ticks),
            buffer.len() <= LONGEST,
            buffer.len() <= isize::MAX,
            self.clock() >= 0,
            self.clock() + buffer.len() < usize::MAX,
            in_numbers(self.tail(), after.filtered()),
        ensures
            all_keep_to(ticks, self.turn().params),
            after.on_track(),
            after.turn().params == self.turn().params,
    {
        let filtered = after.filtered();
        let peaks = self.detector().peaks(filtered);
        let heard = Heard {
            settings: self.settings(),
            clock: self.clock(),
            tail: self.tail(),
            filtered,
            peaks,
        };
        assert(filtered.len() == buffer.len());
        assert forall|i: int| 0 <= i < filtered.len() implies !(#[trigger] filtered[i]).nan() by {
            assert(north_ref_common::sample_at_spec(self.tail(), filtered, i) == Some(
                filtered[i],
            ));
        }
        self.detector().peaks_are_in_reach(filtered);
        self.detector().reach_is_kept(filtered);
        heard.numbers_give_numbers();
        heard.buffer_stays_on_track(
            Progress {
                turn: self.turn(),
                control: match self.control() {
                    Some(a) => Some(
                        if peaks.len() == 0 {
                            a.undetected(filtered)
                        } else {
                            a
                        },
                    ),
                    None => None,
                },
                ticks: Seq::empty(),
                stands_at: 0,
            },
        );
    }
}

/// Settings of a receiver: a sample rate of one to sixteen million, a rotation
/// of one to a million turns a second, and a filter of no more than 65536
/// coefficients that are numbers.
pub open spec fn ordinary(
    config: NorthTickConfig,
    sample_rate: Single,
    highpass: FirHighpass,
) -> bool {
    let one = constants::of(single::ONE_BITS);
    let d = config.dpll;
    let response = north_ref_common::impulse_response(highpass.coefficients());
    &&& one.le_spec(sample_rate) && single_laws::within(sample_rate, 173)
    &&& one.le_spec(d.initial_frequency_hz) && single_laws::within(d.initial_frequency_hz, 169)
    &&& single_laws::within(d.natural_frequency_hz, 169)
    &&& single_laws::within(d.frequency_min_hz, 169)
    &&& single_laws::within(d.frequency_max_hz, 169)
    &&& single_laws::within(d.damping_ratio, 153)
    &&& 1 <= highpass.coefficients().len() <= 0x1_0000
    &&& forall|i: int| 0 <= i < response.len() ==> (#[trigger] response[i]).finite()
}

/// A frequency of at most a million turns, at a rate of at least one a second,
/// is of moderate size in radians.
proof fn omega_is_moderate(hz: Single, rate: Single)
    requires
        single_laws::within(hz, 169),
        constants::of(single::ONE_BITS).le_spec(rate),
        rate.finite(),
    ensures
        constants::of(constants::TWO_PI).times_spec(hz).finite(),
        single_laws::within(north_ref_dpll::omega_spec(hz, rate), 172),
{
    single_laws::product_within(constants::of(constants::TWO_PI), hz, 152, 169);
    single_laws::value_of_one();
    single::rank_orders_values(constants::of(single::ONE_BITS), rate);
    single_laws::quotient_within(
        constants::of(constants::TWO_PI).times_spec(hz),
        rate,
        172,
        149,
    );
}

/// The loop of an ordinary tracker has its settings in order, and starts at a
/// moderate frequency.
proof fn ordinary_loop(config: NorthTickConfig, sample_rate: Single, highpass: FirHighpass)
    requires
        north_ref_dpll::dpll_fault(config, sample_rate) is None,
        ordinary(config, sample_rate, highpass),
    ensures
        forall|deferral: nat, weights: LockQualityWeights|
            #![trigger north_ref_dpll::params_of(config, sample_rate, deferral, weights)]
            north_ref_dpll::params_of(config, sample_rate, deferral, weights).in_order(),
        single_laws::within(
            north_ref_dpll::omega_spec(config.dpll.initial_frequency_hz, sample_rate),
            rotation_laws::MODERATE as nat,
        ),
{
    let d = config.dpll;
    let tick_rate = d.initial_frequency_hz;
    let wn = north_ref_dpll::omega_spec(d.natural_frequency_hz, tick_rate);
    let two = constants::of(math::TWO);
    omega_is_moderate(d.natural_frequency_hz, tick_rate);
    omega_is_moderate(d.initial_frequency_hz, sample_rate);
    omega_is_moderate(d.frequency_min_hz, sample_rate);
    omega_is_moderate(d.frequency_max_hz, sample_rate);
    DpllNorthTracker::limits_are_in_order(config, sample_rate);
    let low = north_ref_dpll::omega_spec(d.frequency_min_hz, sample_rate);
    let high = north_ref_dpll::omega_spec(d.frequency_max_hz, sample_rate);
    let first = north_ref_dpll::omega_spec(d.initial_frequency_hz, sample_rate);
    single_laws::within_more(low, 172, rotation_laws::MODERATE as nat);
    single_laws::within_more(high, 172, rotation_laws::MODERATE as nat);
    single_laws::within_more(first, 172, rotation_laws::MODERATE as nat);
    single_laws::product_within(two, d.damping_ratio, 150, 153);
    single_laws::product_within(two.times_spec(d.damping_ratio), wn, 154, 172);
    let kp = two.times_spec(d.damping_ratio).times_spec(wn);
    single_laws::within_more(kp, 177, rotation_laws::MODERATE as nat);
    // The integral gain, over the samples between two ticks.
    single_laws::product_within(wn, wn, 172, 172);
    single_laws::value_of_one();
    single::rank_orders_values(constants::of(single::ONE_BITS), sample_rate);
    single::rank_orders_values(constants::of(single::ONE_BITS), tick_rate);
    single_laws::quotient_within(sample_rate, tick_rate, 173, 149);
    single_laws::quotient_at_least(sample_rate, tick_rate, 149, 169);
    single_laws::quotient_within(
        wn.times_spec(wn),
        sample_rate.over_spec(tick_rate),
        195,
        129,
    );
}

/// The half width of an estimator window is at least one and at most the
/// widest.
proof fn half_width_is_moderate(config: NorthTickConfig, sample_rate: Single)
    requires
        single_laws::within(sample_rate, 173),
    ensures
        config.estimator.exponent() == 0 || north_ref_simple::half_width_of(config, sample_rate)
            >= 1,
        north_ref_simple::half_width_of(config, sample_rate) <= 0x1_0000,
{
    if config.estimator.exponent() != 0 {
        let us = config.estimator.half_width_us();
        let million = constants::of(north_ref_common::MILLIONTH);
        power2::lemma2_to64();
        single_laws::product_within(us, million, 159, 130);
        single_laws::product_within(us.times_spec(million), sample_rate, 140, 173);
        let x = us.times_spec(million).times_spec(sample_rate);
        single_laws::round_within(x, 164);
        single_laws::counts_are_within(x.round_spec(), 16);
        let period = sample_rate.over_spec(
            config.dpll.initial_frequency_hz.max_spec(constants::of(single::ONE_BITS)),
        );
        two_counts(
            period.times_spec(
                constants::of(north_ref_common::MAX_CENTROID_HALF_WIDTH_FRACTION),
            ),
        );
    }
}

/// What is at least two counts at least two.
proof fn two_counts(x: Single)
    ensures
        x.max_spec(constants::of(math::TWO)).to_count_spec() >= 2,
{
    let two = constants::of(math::TWO);
    let y = x.max_spec(two);
    let h = single::HIDDEN as nat;
    let u = power2::pow2(single::UNIT as nat) as int;
    power2::lemma2_to64();
    power2::lemma_pow2_pos(single::UNIT as nat);
    power2::lemma_pow2_unfold(150);
    single_laws::power_pattern_value(h, 23, 150);
    assert(single_laws::power_pattern(h, 23, 150) == math::TWO);
    if y.finite() {
        single::rank_orders_values(two, y);
        div_mod::lemma_div_is_ordered(2 * u, y.value(), u);
        div_mod::lemma_div_by_multiple(2, u);
    }
}

proof fn largest_tap_is_a_tap(s: Seq<Double>, k: int)
    requires
        1 <= k <= s.len(),
    ensures
        0 <= fir_highpass::largest_tap(s, k) < k,
    decreases k,
{
    if k > 1 {
        largest_tap_is_a_tap(s, k - 1);
    }
}

proof fn first_above_is_in_range(s: Seq<Double>, level: Double)
    ensures
        0 <= fir_highpass::first_above(s, level) <= s.len(),
    decreases s.len(),
{
    if s.len() > 0 {
        first_above_is_in_range(s.skip(1), level);
    }
}

/// The timing that a filter of moderate length gives is moderate.
proof fn timing_is_moderate(
    highpass: FirHighpass,
    threshold: Single,
    amplitude: Single,
    estimator: NorthPulseEstimator,
    half_width: int,
)
    requires
        1 <= highpass.coefficients().len() <= 0x1_0000,
        ({
            let response = north_ref_common::impulse_response(highpass.coefficients());
            forall|i: int| 0 <= i < response.len() ==> (#[trigger] response[i]).finite()
        }),
        estimator.exponent() == 0 || half_width >= 1,
        0 <= half_width <= 0x1_0000,
    ensures
        ({
            let t = north_ref_common::peak_timing_spec(
                highpass,
                threshold,
                amplitude,
                estimator,
                half_width,
            );
            &&& single_laws::within(t.pulse_reference_offset, 167)
            &&& 1 <= t.peak_search_window_samples <= 0x10_0000
        }),
{
    let taps = highpass.coefficients();
    let response = north_ref_common::impulse_response(taps);
    let level = Double::from_single_spec(threshold.over_spec(amplitude));
    power2::lemma2_to64();
    largest_tap_is_a_tap(taps, taps.len() as int);
    first_above_is_in_range(taps, level);
    let peak = Single::from_integer_spec(highpass.peak_index());
    let group = Single::from_integer_spec(highpass.group_delay());
    single_laws::count_within_power(highpass.peak_index(), 16);
    single_laws::count_within_power(highpass.group_delay(), 16);
    single_laws::sum_within(peak, group.neg_spec(), 165);
    let peak_offset = highpass.peak_offset_spec();
    let crossing = highpass.crossing_offset_spec(threshold, amplitude);
    let i = fir_highpass::first_above(taps, level);
    single_laws::count_within_power(i, 16);
    single_laws::sum_within(Single::from_integer_spec(i), group.neg_spec(), 165);
    single_laws::within_more(constants::of(0), 23, 166);
    assert(single_laws::within(crossing, 166));
    single_laws::sum_within(peak_offset, crossing.neg_spec(), 166);
    let gap = peak_offset.minus_spec(crossing);
    let search = gap.max_spec(constants::of(0));
    single_laws::within_more(constants::of(0), 23, 167);
    single_laws::counts_are_within(search, 18);
    if estimator.exponent() == 0 {
        single_laws::within_more(peak_offset, 166, 167);
    } else {
        let f = north_ref_common::fraction_spec(
            Seq::empty(),
            response,
            highpass.peak_index(),
            estimator,
            half_width,
        );
        assert(in_numbers(Seq::empty(), response));
        short_estimate(response, estimator, highpass.peak_index(), half_width);
        single_laws::within_more(f, 165, 166);
        single_laws::sum_within(peak_offset, f, 166);
    }
}

/// An estimate near the start of a buffer lies within its half width.
proof fn short_estimate(
    response: Seq<Single>,
    estimator: NorthPulseEstimator,
    peak_index: int,
    half_width: int,
)
    requires
        1 <= half_width <= 0x1_0000,
        0 <= peak_index <= 0x1_0000,
        in_numbers(Seq::empty(), response),
    ensures
        single_laws::within(
            north_ref_common::fraction_spec(
                Seq::empty(),
                response,
                peak_index,
                estimator,
                half_width,
            ),
            165,
        ),
{
    let r = north_ref_common::fraction_spec(
        Seq::empty(),
        response,
        peak_index,
        estimator,
        half_width,
    );
    let u = power2::pow2(single::UNIT as nat) as int;
    centroid::fraction_is_within_half_width(
        Seq::empty(),
        response,
        estimator,
        peak_index,
        half_width,
    );
    power2::lemma2_to64();
    power2::lemma_pow2_adds(16, single::UNIT as nat);
    single_laws::within_values(r, 165);
    assert(half_width * u <= 0x1_0000 * u) by (nonlinear_arith)
        requires
            half_width <= 0x1_0000,
            u >= 0,
    ;
}

/// The delay of a filter of moderate length can be told in samples.
proof fn delay_is_moderate(group_delay: int, offset: Single)
    requires
        0 <= group_delay <= 0x1_0000,
        single_laws::within(offset, 167),
    ensures
        single_laws::within(
            north_ref_common::delay_compensation_spec(
                group_delay,
                offset,
            ).fractional_sample_offset,
            rotation_laws::FRACTION as nat,
        ),
{
    let group = Single::from_integer_spec(group_delay);
    power2::lemma2_to64();
    single_laws::count_within_power(group_delay, 16);
    single_laws::within_more(group, 165, 167);
    single_laws::sum_within(group, offset, 167);
    let total = group.plus_spec(offset);
    single_laws::round_within(total, 168);
    single_laws::within_more(constants::of(0), 23, 169);
    let rounded = total.round_spec().max_spec(constants::of(0));
    single_laws::counts_are_within(rounded, 20);
    let delay = rounded.to_count_spec();
    single_laws::count_within_power(delay as int, 20);
    single_laws::within_more(total.neg_spec(), 168, 169);
    single_laws::sum_within(Single::from_integer_spec(delay as int), total.neg_spec(), 169);
}

} // verus!
