//! What the gain controls, averages and offsets stand for.
use crate::close;
use crate::config::AgcConfig;
use crate::constants;
use crate::ieee;
use crate::rdf::bearing_laws;
use crate::rdf::loop_laws;
use crate::rdf::measure_laws;
use crate::rdf::steering_laws;
use crate::rdf::steering_laws::distance;
use crate::signal_processing::agc;
use crate::signal_processing::agc::{AgcState, AutomaticGainControl};
use crate::signal_processing::dc_removal;
use crate::signal_processing::math;
use crate::signal_processing::moving_average::Slots;
use crate::signal_processing::north_agc::PulseAgcState;
use crate::single;
use crate::single::Single;
use crate::single_laws;
use vstd::arithmetic::power2;
use vstd::prelude::*;

verus! {

/// A mix of two amounts by a share lies where it should: `share` parts of the
/// one and the rest of the other, up to a few roundings.
pub proof fn mix_is_weighted(share: Single, a: Single, b: Single)
    requires
        single_laws::between(share, 119, 149),
        share.value() <= close::unit() - power2::pow2(129),
        single_laws::between(a, 99, 189),
        single_laws::between(b, 99, 189),
    ensures
        ({
            let one = constants::of(single::ONE_BITS);
            let x = share.times_spec(a).plus_spec(one.minus_spec(share).times_spec(b));
            let y = one.minus_spec(share).times_spec(b).plus_spec(share.times_spec(a));
            let u = close::unit();
            let exact = share.value() * a.value() + (u - share.value()) * b.value();
            &&& close::amount(x)
            &&& x == y
            &&& close::close(x.value() * u, exact, 5)
        }),
{
    let u = close::unit();
    let one = constants::of(single::ONE_BITS);
    let rest = one.minus_spec(share);
    power2::lemma_pow2_pos(single::UNIT as nat);
    power2::lemma_pow2_pos(129);
    single_laws::value_of_one();
    close::between_is_amount(share, 119, 149);
    close::between_is_amount(a, 99, 189);
    close::between_is_amount(b, 99, 189);
    single::rank_orders_values(share, one);
    single_laws::rest_in_unit_range(share);
    single_laws::rank_within_one(rest);
    close::difference_is_close(one, share);
    let e = u - share.value();
    assert(1 * e == e) by (nonlinear_arith);
    power2::lemma_pow2_unfold(129);
    assert(single_laws::between(rest, 128, 149));
    close::between_is_amount(rest, 128, 149);
    single_laws::product_between(share, a, 119, 149, 99, 189);
    single_laws::product_between(rest, b, 128, 149, 99, 189);
    let p = share.times_spec(a);
    let q = rest.times_spec(b);
    close::between_is_amount(p, 69, 189);
    close::between_is_amount(q, 78, 189);
    close::product_is_close(share, a);
    close::product_is_close(rest, b);
    single_laws::sum_within(p, q, 189);
    single_laws::plus_in_order(q, q, p);
    close::sum_is_close(p, q);
    bearing_laws::plus_commutes(p, q);
    let x = p.plus_spec(q).value();
    let (sa, rb) = (share.value() * a.value(), rest.value() * b.value());
    let eb = e * b.value();
    close::close_times(rest.value(), e, 1, b.value());
    close::close_chain(q.value() * u, rb, eb, 1, 1);
    close::close_by_more(p.value() * u, sa, 1, 3);
    close::close_sums(p.value() * u, sa, q.value() * u, eb, 3);
    close::close_times(x, p.value() + q.value(), 1, u);
    assert((p.value() + q.value()) * u == p.value() * u + q.value() * u) by (nonlinear_arith);
    close::close_chain(x * u, (p.value() + q.value()) * u, sa + eb, 1, 3);
}

/// The gain control brings a signal to its target: the gain that it heads for,
/// times the level, is the target level. It goes there by the attack share
/// where the signal is too loud, and by the release share where it is not, and
/// stops at the ends of its range.
pub proof fn gain_heads_for_the_target(s: AgcState, rms: Single)
    requires
        single_laws::between(s.target_rms, 129, 159),
        single_laws::between(rms, 132, 159),
        single_laws::between(s.gain, 119, 179),
        single_laws::between(s.attack, 119, 149),
        s.attack.value() <= close::unit() - power2::pow2(129),
        single_laws::between(s.release, 119, 149),
        s.release.value() <= close::unit() - power2::pow2(129),
        s.min_gain.finite(),
        s.max_gain.finite(),
        s.min_gain.le_spec(s.max_gain),
    ensures
        ({
            let u = close::unit();
            let x = s.adjusted(rms);
            let wanted = s.target_rms.over_spec(rms);
            let level = s.gain.value() * rms.value();
            let target = s.target_rms.value() * u;
            let share = if wanted.lt_spec(s.gain) {
                s.attack.value()
            } else {
                s.release.value()
            };
            let exact = share * s.gain.value() + (u - share) * wanted.value();
            &&& close::close(wanted.value() * rms.value(), target, 1)
            &&& 0x80_0000 * level >= 0x80_0004 * target ==> wanted.lt_spec(s.gain)
            &&& 0x80_0000 * level <= 0x7f_fffc * target ==> !wanted.lt_spec(s.gain)
            &&& s.min_gain.le_spec(x) && x.le_spec(s.max_gain)
            &&& s.min_gain.value() < x.value() < s.max_gain.value() ==> close::close(
                x.value() * u,
                exact,
                5,
            )
        }),
{
    let u = close::unit();
    power2::lemma_pow2_pos(single::UNIT as nat);
    close::between_is_amount(s.target_rms, 129, 159);
    close::between_is_amount(rms, 132, 159);
    close::between_is_amount(s.gain, 119, 179);
    close::quotient_between(s.target_rms, rms, 129, 159, 132, 159);
    let wanted = s.target_rms.over_spec(rms);
    close::between_is_amount(wanted, 119, 176);
    close::quotient_is_close(s.target_rms, rms);
    single::rank_orders_values(wanted, s.gain);
    let (w, g, r, t) = (wanted.value(), s.gain.value(), rms.value(), s.target_rms.value() * u);
    assert(1 * t == t) by (nonlinear_arith);
    if 0x80_0000 * (g * r) >= 0x80_0004 * t {
        assert(t > 0) by (nonlinear_arith)
            requires
                t == s.target_rms.value() * u,
                s.target_rms.value() > 0,
                u > 0,
        ;
        assert(w < g) by (nonlinear_arith)
            requires
                0x80_0000 * (w * r - t) <= t,
                0x80_0000 * (g * r) >= 0x80_0004 * t,
                t > 0,
                r > 0,
        ;
    }
    if 0x80_0000 * (g * r) <= 0x7f_fffc * t {
        assert(w >= g) by (nonlinear_arith)
            requires
                0x80_0000 * (t - w * r) <= t,
                0x80_0000 * (g * r) <= 0x7f_fffc * t,
                t >= 0,
                r > 0,
        ;
    }
    rms_is_not_silent(rms);
    let share = if wanted.lt_spec(s.gain) {
        s.attack
    } else {
        s.release
    };
    power2::lemma_pow2_strictly_increases(99, 119);
    single_laws::within_more(s.gain, 179, 189);
    single_laws::within_more(wanted, 176, 189);
    mix_is_weighted(share, s.gain, wanted);
    let mixed = share.times_spec(s.gain).plus_spec(
        constants::of(single::ONE_BITS).minus_spec(share).times_spec(wanted),
    );
    single::rank_orders_values(s.min_gain, mixed);
    single::rank_orders_values(mixed, s.min_gain);
    single::rank_orders_values(s.max_gain, mixed);
    single::rank_orders_values(s.min_gain, s.max_gain);
}

/// A level from `2^-17` on is no silence.
proof fn rms_is_not_silent(x: Single)
    requires
        x.finite(),
        x.value() >= power2::pow2(132),
    ensures
        constants::of(constants::MIN_RMS_THRESHOLD).lt_spec(x),
{
    let h = single::HIDDEN as nat;
    power2::lemma2_to64();
    ieee::pattern_parts(h, 106, 0x86_37bd);
    power2::lemma_pow2_adds(26, 106);
    power2::lemma_pow2_pos(106);
    let e = constants::of(constants::MIN_RMS_THRESHOLD);
    assert(e.value() == 0x86_37bd * power2::pow2(106));
    single::rank_orders_values(e, x);
}

/// The level of a window is the root of the mean of its energy: its square
/// times the window is the energy, up to a few roundings. A sample adds its
/// square to the energy.
pub proof fn level_is_the_root_of_the_mean(s: AgcState, sample: Single)
    requires
        single_laws::between(s.energy_with(sample), 89, 189),
        1 <= s.window <= 0x100_0000,
    ensures
        ({
            let r = s.rms_with(sample).value();
            let e = s.energy_with(sample).value() * close::unit();
            close::close((r * r) * s.window, e, 4)
        }),
{
    let u = close::unit();
    let n = s.window as int;
    let e = s.energy_with(sample);
    let count = Single::from_integer_spec(n);
    power2::lemma_pow2_pos(single::UNIT as nat);
    bearing_laws::count_between(n);
    close::between_is_amount(e, 89, 189);
    close::between_is_amount(count, 149, 173);
    close::quotient_between(e, count, 89, 189, 149, 173);
    let x = e.over_spec(count);
    close::between_is_amount(x, 65, 189);
    close::quotient_is_close(e, count);
    close::root_is_close(x);
    let r = x.sqrt_spec().value();
    let xv = x.value();
    assert(xv * (n * u) == (xv * n) * u) by (nonlinear_arith);
    close::close_without(xv * n, e.value(), 1, u);
    close::close_times(r * r, xv * u, 2, n);
    close::close_times(xv * n, e.value(), 1, u);
    assert((xv * u) * n == (xv * n) * u) by (nonlinear_arith);
    close::close_chain((r * r) * n, (xv * n) * u, e.value() * u, 2, 1);
}

/// A sample adds its square to the energy of the window, up to a few
/// roundings.
pub proof fn energy_grows_by_the_square(s: AgcState, sample: Single)
    requires
        close::amount(s.energy),
        steering_laws::well_rounded(sample, sample),
        s.energy_with(sample).finite(),
    ensures
        ({
            let u = close::unit();
            let square = sample.value() * sample.value();
            let before = s.energy.value() * u;
            0x80_0000 * distance(s.energy_with(sample).value() * u, before + square) <= before
                + 3 * square
        }),
{
    let u = close::unit();
    let g = sample.times_spec(sample);
    power2::lemma_pow2_pos(single::UNIT as nat);
    steering_laws::product_is_off(sample, sample);
    steering_laws::sum_is_off(s.energy, g);
    close::amount_has_value(s.energy);
    let square = sample.value() * sample.value();
    assert(square >= 0) by (nonlinear_arith)
        requires
            square == sample.value() * sample.value(),
    ;
    let (x, a, b) = (s.energy_with(sample).value(), s.energy.value(), g.value());
    let (xu, au, bu) = (x * u, a * u, b * u);
    let d = x - (a + b);
    let m = distance(a + b, 0);
    assert(-(m * u) <= 0x80_0000 * (d * u) <= m * u) by (nonlinear_arith)
        requires
            -m <= 0x80_0000 * d <= m,
            u > 0,
    ;
    assert(d * u == xu - au - bu) by (nonlinear_arith)
        requires
            d == x - (a + b),
            xu == x * u,
            au == a * u,
            bu == b * u,
    ;
    assert(au >= 0) by (nonlinear_arith)
        requires
            au == a * u,
            a >= 0,
            u > 0,
    ;
    assert(m * u <= au + distance(bu, 0)) by (nonlinear_arith)
        requires
            m == a + b || m == -(a + b),
            au == a * u,
            bu == b * u,
            au >= 0,
            distance(bu, 0) >= bu,
            distance(bu, 0) >= -bu,
    ;
}

/// The measurement window is as long as the configuration says, in whole
/// samples.
pub proof fn window_is_as_configured(config: AgcConfig, sample_rate: Single)
    requires
        single_laws::between(config.measurement_window_ms, 119, 179),
        single_laws::between(sample_rate, 139, 179),
    ensures
        ({
            let n = AutomaticGainControl::window_samples(config, sample_rate) as int;
            let exact = config.measurement_window_ms.value() * sample_rate.value();
            let u = close::unit() * close::unit();
            &&& 0x80_0000 * (1000 * (n * u)) <= 0x80_0004 * exact
            &&& n < usize::MAX ==> 0x80_0000 * (1000 * ((n + 1) * u)) >= 0x7f_fffc * exact
        }),
{
    let u = close::unit();
    let ms = config.measurement_window_ms;
    let thousand = constants::of(agc::THOUSAND);
    power2::lemma_pow2_pos(single::UNIT as nat);
    loop_laws::thousand_in_units();
    close::between_is_amount(ms, 119, 179);
    close::between_is_amount(sample_rate, 139, 179);
    close::between_is_amount(thousand, 158, 159);
    single_laws::product_between(sample_rate, ms, 139, 179, 119, 179);
    let x = sample_rate.times_spec(ms);
    close::between_is_amount(x, 109, 209);
    close::quotient_between(x, thousand, 109, 209, 158, 159);
    let q = x.over_spec(thousand);
    close::between_is_amount(q, 99, 200);
    close::product_is_close(sample_rate, ms);
    close::quotient_is_close(x, thousand);
    let (qv, xv) = (q.value(), x.value());
    let exact = ms.value() * sample_rate.value();
    assert(sample_rate.value() * ms.value() == exact) by (nonlinear_arith)
        requires
            exact == ms.value() * sample_rate.value(),
    ;
    assert(qv * (1000 * u) == 1000 * (qv * u)) by (nonlinear_arith);
    close::close_chain(1000 * (qv * u), xv * u, exact, 1, 1);
    loop_laws::whole_part_of(q);
    loop_laws::samples_in_units(q.to_count_spec() as int, qv, u, exact);
}

/// A pulse level that the gain control is to bring to its target: the gain
/// that it wants, times the level, is the target, within its range.
pub proof fn wanted_gain_reaches_the_target(s: PulseAgcState, level: Single)
    requires
        single_laws::between(s.target_peak, 119, 169),
        single_laws::between(level, 119, 169),
        s.min_gain.finite(),
        s.max_gain.finite(),
        s.min_gain.le_spec(s.max_gain),
    ensures
        ({
            let w = s.wanted(level);
            let target = s.target_peak.value() * close::unit();
            let reached = w.value() * level.value();
            &&& s.min_gain.le_spec(w) && w.le_spec(s.max_gain)
            &&& w.value() < s.max_gain.value() ==> 0x80_0000 * reached >= 0x7f_ffff * target
            &&& w.value() > s.min_gain.value() ==> 0x80_0000 * reached <= 0x80_0001 * target
        }),
{
    let u = close::unit();
    power2::lemma_pow2_pos(single::UNIT as nat);
    close::between_is_amount(s.target_peak, 119, 169);
    close::between_is_amount(level, 119, 169);
    close::quotient_between(s.target_peak, level, 119, 169, 119, 169);
    let x = s.target_peak.over_spec(level);
    close::between_is_amount(x, 99, 199);
    close::quotient_is_close(s.target_peak, level);
    let t = s.target_peak.value() * u;
    assert(1 * t == t) by (nonlinear_arith);
    let w = s.wanted(level);
    single::rank_orders_values(x, s.min_gain);
    single::rank_orders_values(s.max_gain, x);
    single::rank_orders_values(s.min_gain, s.max_gain);
    let (wv, xv, l) = (w.value(), x.value(), level.value());
    if wv >= xv {
        assert(wv * l >= xv * l) by (nonlinear_arith)
            requires
                wv >= xv,
                l > 0,
        ;
    }
    if wv <= xv {
        assert(wv * l <= xv * l) by (nonlinear_arith)
            requires
                wv <= xv,
                l > 0,
        ;
    }
}

/// A detected peak is referred back through the gain that it was seen with:
/// what goes into the window, times that gain, is the peak.
pub proof fn peaks_are_referred_back(s: PulseAgcState, filtered_peak: Single)
    requires
        single_laws::between(filtered_peak, 109, 179),
        single_laws::between(s.gain, 127, 179),
    ensures
        s.window_with(filtered_peak).len() > 0,
        close::close(
            s.window_with(filtered_peak).last().value() * s.gain.value(),
            filtered_peak.value() * close::unit(),
            1,
        ),
{
    let h = single::HIDDEN as nat;
    power2::lemma2_to64();
    close::between_is_amount(filtered_peak, 109, 179);
    close::between_is_amount(s.gain, 127, 179);
    single_laws::power_pattern_value(h, 23, 126);
    power2::lemma_pow2_unfold(127);
    power2::lemma_pow2_pos(126);
    single::rank_orders_values(s.gain, constants::of(constants::EPSILON));
    assert(s.divisor() == s.gain);
    close::quotient_between(filtered_peak, s.gain, 109, 179, 127, 179);
    close::quotient_is_close(filtered_peak, s.gain);
}

/// The estimate of a constant offset moves towards each sample by a share of
/// the way: it becomes the estimate plus the share of the difference, up to a
/// few roundings; and the sample is passed on less the new estimate.
pub proof fn offset_follows_the_samples(
    start: Single,
    alpha: Single,
    samples: Seq<Single>,
    k: int,
)
    requires
        0 <= k < samples.len(),
        dc_removal::offset_after(start, alpha, samples, k).finite(),
        samples[k].finite(),
        samples[k].minus_spec(dc_removal::offset_after(start, alpha, samples, k)).finite(),
        steering_laws::well_rounded(
            alpha,
            samples[k].minus_spec(dc_removal::offset_after(start, alpha, samples, k)),
        ),
        dc_removal::offset_after(start, alpha, samples, k + 1).finite(),
    ensures
        ({
            let u = close::unit();
            let before = dc_removal::offset_after(start, alpha, samples, k).value();
            let after = dc_removal::offset_after(start, alpha, samples, k + 1).value();
            let way = samples[k].minus_spec(
                dc_removal::offset_after(start, alpha, samples, k),
            ).value();
            let step = alpha.value() * way;
            &&& 0x80_0000 * distance(way, samples[k].value() - before) <= distance(
                samples[k].value(),
                before,
            )
            &&& 0x80_0000 * distance(after * u, before * u + step) <= distance(before * u, 0)
                + 4 * distance(step, 0)
        }),
{
    let u = close::unit();
    let before = dc_removal::offset_after(start, alpha, samples, k);
    let way = samples[k].minus_spec(before);
    let g = alpha.times_spec(way);
    let after = dc_removal::offset_after(start, alpha, samples, k + 1);
    power2::lemma_pow2_pos(single::UNIT as nat);
    assert(before.neg_spec().value() == -before.value());
    steering_laws::sum_is_off(samples[k], before.neg_spec());
    steering_laws::product_is_off(alpha, way);
    assert(after == before.plus_spec(g));
    steering_laws::sum_is_off(before, g);
    let step = alpha.value() * way.value();
    let (x, a, b) = (after.value(), before.value(), g.value());
    let (xu, au, bu) = (x * u, a * u, b * u);
    let d = x - (a + b);
    let m = distance(a + b, 0);
    assert(-(m * u) <= 0x80_0000 * (d * u) <= m * u) by (nonlinear_arith)
        requires
            -m <= 0x80_0000 * d <= m,
            u > 0,
    ;
    assert(d * u == xu - au - bu) by (nonlinear_arith)
        requires
            d == x - (a + b),
            xu == x * u,
            au == a * u,
            bu == b * u,
    ;
    assert(m * u <= distance(au, 0) + distance(bu, 0)) by (nonlinear_arith)
        requires
            m == a + b || m == -(a + b),
            au == a * u,
            bu == b * u,
            distance(au, 0) >= au,
            distance(au, 0) >= -au,
            distance(bu, 0) >= bu,
            distance(bu, 0) >= -bu,
    ;
}

/// A buffer without its offset: what is passed on of a sample is the sample
/// less the estimate once it has been taken in, up to one rounding.
pub proof fn offset_is_taken_off(start: Single, alpha: Single, samples: Seq<Single>, k: int)
    requires
        0 <= k < samples.len(),
        samples[k].finite(),
        dc_removal::offset_after(start, alpha, samples, k + 1).finite(),
        dc_removal::removed(start, alpha, samples)[k].finite(),
    ensures
        ({
            let estimate = dc_removal::offset_after(start, alpha, samples, k + 1).value();
            let rest = samples[k].value() - estimate;
            0x80_0000 * distance(
                dc_removal::removed(start, alpha, samples)[k].value(),
                rest,
            ) <= distance(rest, 0)
        }),
{
    let estimate = dc_removal::offset_after(start, alpha, samples, k + 1);
    assert(estimate.neg_spec().value() == -estimate.value());
    steering_laws::sum_is_off(samples[k], estimate.neg_spec());
}

/// The sum of a sequence of numbers of either sign, all within `2^r` units, is
/// off by no more than one rounding of the largest sum for each of them.
pub proof fn signed_sums_add_up(s: Seq<Single>, r: nat)
    requires
        s.len() <= 0x1_0000,
        23 <= r <= 229,
        forall|i: int| 0 <= i < s.len() ==> single_laws::within(#[trigger] s[i], r),
    ensures
        math::sum_of(s).finite(),
        0x100_0000 * distance(math::sum_of(s).value(), measure_laws::total(s)) <= s.len()
            * power2::pow2(r + 17),
        distance(measure_laws::total(s), 0) <= s.len() * power2::pow2(r),
    decreases s.len(),
{
    let p = power2::pow2(r) as int;
    let q = power2::pow2(r + 17) as int;
    power2::lemma2_to64();
    power2::lemma_pow2_pos(r);
    power2::lemma_pow2_adds(17, r);
    assert(q == 0x2_0000 * p);
    if s.len() == 0 {
        ieee::pattern_parts(single::HIDDEN as nat, 0, 0);
        assert(0 * p == 0 && 0 * q == 0);
    } else {
        let front = s.drop_last();
        let n = s.len() as int;
        assert forall|i: int| 0 <= i < front.len() implies single_laws::within(
            #[trigger] front[i],
            r,
        ) by {
            assert(front[i] == s[i]);
        }
        signed_sums_add_up(front, r);
        let a = math::sum_of(front);
        let b = s.last();
        assert(b == s[n - 1]);
        single_laws::within_values(b, r);
        assert(n * p == (n - 1) * p + p && n * q == (n - 1) * q + q) by (nonlinear_arith);
        assert((n - 1) * p <= 0xffff * p && (n - 1) * q <= 0xffff * q) by (nonlinear_arith)
            requires
                n - 1 <= 0xffff,
                p > 0,
                q > 0,
        ;
        single_laws::sum_is_close(a, b, r + 17);
    }
}

/// The smoothed value is the mean of what the window holds: times the number
/// of values it is their sum, up to rounding. Values are within `2^r` units,
/// and there are no more than 65536 of them.
pub proof fn average_is_the_mean(slots: Slots, r: nat, count: int)
    requires
        slots.valid(),
        slots.values.len() <= 0x1_0000,
        25 <= r <= 229,
        forall|i: int|
            0 <= i < slots.values.len() ==> single_laws::within(#[trigger] slots.values[i], r),
        count == if slots.full {
            slots.values.len() as int
        } else {
            slots.next
        },
        count > 0,
    ensures
        slots.window().len() == count,
        ({
            let n = slots.values.len() as int;
            0x100_0000 * distance(
                slots.mean().value() * count,
                measure_laws::total(slots.values),
            ) <= 2 * (n * power2::pow2(r + 17)) + 0x200_0000 * count
        }),
{
    let h = single::HIDDEN as nat;
    let inf = single::INFINITE as nat;
    let u = close::unit();
    let n = slots.values.len() as int;
    let p = power2::pow2(r) as int;
    let q = power2::pow2(r + 17) as int;
    power2::lemma2_to64();
    power2::lemma_pow2_pos(single::UNIT as nat);
    power2::lemma_pow2_pos(r);
    power2::lemma_pow2_adds(17, r);
    signed_sums_add_up(slots.values, r);
    bearing_laws::count_between(count);
    let sum = math::sum_of(slots.values);
    let c = Single::from_integer_spec(count);
    close::between_is_amount(c, 149, 173);
    assert(n * p <= 0x1_0000 * p && n * q <= 0x1_0000 * q && n * q >= 0) by (nonlinear_arith)
        requires
            0 <= n <= 0x1_0000,
            p > 0,
            q > 0,
    ;
    single_laws::within_values(sum, r + 17);
    single_laws::quotient_within(sum, c, r + 17, 149);
    let m = sum.over_spec(c);
    assert(m == slots.mean());
    let a = crate::arithmetic::magnitude(sum.value());
    let top = a * power2::pow2(single::UNIT as nat);
    ieee::nearest_exists(h, inf, top, c.value() as nat);
    ieee::nearest_ratio_is_close(h, inf, top, c.value() as nat);
    let v = ieee::pattern_value(h, ieee::nearest(h, inf, top, c.value() as nat)) as int;
    assert(2 * h == 0x100_0000);
    let w = c.value();
    assert(m.value() == if sum.negative() {
        -v
    } else {
        v
    });
    mean_in_units(v, count, u, a as int, w);
    assert((-v) * count == -(v * count)) by (nonlinear_arith);
    single_laws::within_values(m, r + 17);
    mean_no_larger(v, count, a as int);
    let (np, nq) = (n * p, n * q);
    assert(nq == 0x2_0000 * np) by (nonlinear_arith)
        requires
            nq == n * q,
            np == n * p,
            q == 0x2_0000 * p,
    ;
    assert(a <= 2 * np);
    assert(v * count <= nq + 2 * count);
}

proof fn mean_in_units(v: int, count: int, u: int, a: int, w: int)
    requires
        u > 0,
        count > 0,
        w == count * u,
        0x100_0000 * (w * v - a * u) <= w * v + 0x100_0000 * w,
        0x100_0000 * (a * u - w * v) <= w * v + 0x100_0000 * w,
    ensures
        0x100_0000 * (v * count - a) <= v * count + 0x100_0000 * count,
        0x100_0000 * (a - v * count) <= v * count + 0x100_0000 * count,
{
    let vc = v * count;
    assert(w * v == vc * u) by (nonlinear_arith)
        requires
            w == count * u,
            vc == v * count,
    ;
    assert(0x100_0000 * (vc - a) <= vc + 0x100_0000 * count) by (nonlinear_arith)
        requires
            0x100_0000 * (vc * u - a * u) <= vc * u + 0x100_0000 * (count * u),
            u > 0,
    ;
    assert(0x100_0000 * (a - vc) <= vc + 0x100_0000 * count) by (nonlinear_arith)
        requires
            0x100_0000 * (a * u - vc * u) <= vc * u + 0x100_0000 * (count * u),
            u > 0,
    ;
}

proof fn mean_no_larger(v: int, count: int, a: int)
    requires
        a >= 0,
        count >= 0,
        0x100_0000 * (v * count - a) <= v * count + 0x100_0000 * count,
    ensures
        v * count <= 2 * a + 2 * count,
{
}

/// The share by which an offset is followed is that of its cutoff frequency:
/// times the sample rate it is 2 pi times the cutoff, to six digits, as long
/// as it stays below one.
pub proof fn share_follows_the_cutoff(sample_rate: Single, cutoff_hz: Single)
    requires
        single_laws::between(sample_rate, 139, 179),
        single_laws::between(cutoff_hz, 109, 169),
    ensures
        ({
            let a = dc_removal::share_spec(sample_rate, cutoff_hz);
            let u = close::unit();
            let turns = cutoff_hz.value() * u;
            let made = 1000000 * (a.value() * sample_rate.value());
            &&& 0 < a.value() <= u
            &&& made <= 6283189 * turns
            &&& a.value() < u ==> made >= 6283182 * turns
        }),
{
    let one = constants::of(single::ONE_BITS);
    let w = crate::rdf::north_ref_dpll::omega_spec(cutoff_hz, sample_rate);
    single_laws::value_of_one();
    power2::lemma_pow2_pos(single::UNIT as nat);
    loop_laws::omega_is_the_rate(cutoff_hz, sample_rate, 109, 169, 139, 179);
    close::between_is_amount(w, 81, 182);
    close::between_is_amount(sample_rate, 139, 179);
    single::rank_orders_values(one, w);
    single::rank_orders_values(w, one);
    let a = dc_removal::share_spec(sample_rate, cutoff_hz);
    let (av, wv, r) = (a.value(), w.value(), sample_rate.value());
    assert(av * r <= wv * r) by (nonlinear_arith)
        requires
            av <= wv,
            r > 0,
    ;
}

/// A gain forgets over its time constant: the exponent of a smoothing
/// coefficient is negative, and times the time constant it is the window.
pub proof fn gain_forgets_over_its_time_constant(time_constant_ms: Single, window_ms: Single)
    requires
        single_laws::between(time_constant_ms, 119, 179),
        single_laws::between(window_ms, 119, 179),
    ensures
        ({
            let x = agc::exponent_spec(time_constant_ms, window_ms);
            &&& x.finite()
            &&& x.value() < 0
            &&& close::close(
                -x.value() * time_constant_ms.value(),
                window_ms.value() * close::unit(),
                1,
            )
        }),
{
    close::between_is_amount(time_constant_ms, 119, 179);
    close::between_is_amount(window_ms, 119, 179);
    close::quotient_between(window_ms, time_constant_ms, 119, 179, 119, 179);
    close::quotient_is_close(window_ms, time_constant_ms);
    let q = window_ms.over_spec(time_constant_ms);
    close::between_is_amount(q, 89, 209);
    bearing_laws::negated_quotient(window_ms, time_constant_ms);
    assert(q.neg_spec().value() == -q.value());
}

} // verus!
