//! What a coast does with time.
use crate::arithmetic;
use crate::constants;
use crate::double;
use crate::double::Double;
use crate::double_laws;
use crate::ieee;
use crate::rdf::north_ref_common;
use crate::rdf::rotation_laws;
use crate::rdf::rotation_loop::{Coast, LoopState};
use crate::single;
use crate::single::Single;
use crate::single_laws;
use vstd::arithmetic::power2;
use vstd::prelude::*;

verus! {

/// Up to where on the sample clock a period is never lost: `2^51` samples.
pub const FARTHEST: u64 = 0x8_0000_0000_0000;

/// How far the last tick may lie from its index, as a power of two in units of
/// the smallest single-precision number: `2^16` samples.
pub const NEAR: u32 = 165;

/// Whether a coast starts from a tick that is near its index, on the part of
/// the sample clock where no period is lost, with a period of at least one
/// sample.
pub open spec fn starts_well(s: LoopState, c: Coast) -> bool {
    &&& s.last matches Some(last) && 0 <= last <= FARTHEST
    &&& single_laws::within(s.last_fraction, NEAR as nat)
    &&& c.period.finite()
    &&& constants::of(single::ONE_BITS).le_spec(c.period)
    &&& s.coast_next(c.period) <= FARTHEST
    &&& s.coast_next(c.period) < usize::MAX
}

/// The arithmetic of one step: `t` is the rounded sum of an index and a
/// fraction, `p` lies a period `r` behind it, `d` is what is left of `p` over
/// the next index, `f` is `d` as a fraction, and `next_t` the rounded sum of
/// both.
proof fn step_advances(
    u: int,
    g: int,
    a: int,
    b: int,
    t: int,
    r: int,
    p: int,
    c: int,
    d: int,
    f: int,
    next_t: int,
)
    requires
        g > 0,
        u >= 0x4000_0000 * g,
        0 <= a <= FARTHEST * u,
        -(0x1_0000 * u) <= b <= 0x1_0000 * u,
        r >= u,
        0 <= c <= FARTHEST * u,
        double_laws::PRECISION * double_laws::apart(t, a + b) <= double_laws::apart(t, 0),
        double_laws::PRECISION * double_laws::apart(p, t + r) <= double_laws::apart(p, 0),
        p >= 0 ==> -u <= 2 * (p - c) <= u,
        p < 0 ==> c == 0,
        double_laws::PRECISION * double_laws::apart(d, p - c) <= double_laws::apart(d, 0),
        0x100_0000 * double_laws::apart(f, d) <= 2 * double_laws::apart(d, 0) + 0x200_0000 * g,
        double_laws::PRECISION * double_laws::apart(next_t, c + f) <= double_laws::apart(
            next_t,
            0,
        ),
    ensures
        t < next_t,
        -(0x1_0002 * u) <= d <= u,
{
    assert(t >= -(0x1_0001 * u));
    assert(p >= -(0x1_0001 * u));
    assert(p <= FARTHEST * u + u);
    assert(0x10_0000_0000_0000 * double_laws::apart(p, t + r) <= 0x4_0000_0000_0001 * u);
    assert(16 * (p - t) >= 11 * u);
    assert(-(0x1_0002 * u) <= d <= u);
    assert(16 * double_laws::apart(d, p - c) <= u);
    assert(16 * double_laws::apart(f, d) <= u);
    assert(16 * double_laws::apart(next_t, c + f) <= 5 * u);
}

/// What a position leaves of its index is of moderate size.
proof fn position_is_counted(position: Double)
    requires
        position.finite(),
        position.round_count_spec() <= FARTHEST,
        position.round_count_spec() < usize::MAX,
    ensures
        ({
            let u = power2::pow2(double::UNIT as nat);
            let p = position.value();
            let c = position.round_count_spec() * u;
            &&& 0 <= c <= FARTHEST * u
            &&& p >= 0 ==> -u <= 2 * (p - c) <= u
            &&& p < 0 ==> c == 0
        }),
{
    let u = power2::pow2(double::UNIT as nat);
    let n = position.round_count_spec();
    power2::lemma_pow2_unfold(double::UNIT as nat);
    power2::lemma_pow2_pos(double::UNIT as nat);
    assert(0 <= n * u <= FARTHEST * u) by (nonlinear_arith)
        requires
            0 <= n <= FARTHEST,
            u > 0,
    ;
    if position.value() >= 0 {
        double::counted_off(position);
    } else {
        assert(position.negative()) by {
            if !position.negative() {
                assert(position.value() >= 0);
            }
        }
        assert(0 * u == 0);
    }
}

/// The last tick and the period in units of the smallest number.
proof fn start_in_units(s: LoopState, c: Coast)
    requires
        starts_well(s, c),
    ensures
        ({
            let u = power2::pow2(double::UNIT as nat);
            let g = power2::pow2(double::WIDENING as nat);
            let a = Double::from_count_spec(s.last->0 as nat);
            let b = Double::from_single_spec(s.last_fraction);
            let r = Double::from_single_spec(c.period);
            &&& g > 0
            &&& u >= 0x4000_0000 * g
            &&& double_laws::within(a, 1202)
            &&& double_laws::within(b, 1202)
            &&& double_laws::within(r, 1202)
            &&& 0 <= a.value() <= FARTHEST * u
            &&& -(0x1_0000 * u) <= b.value() <= 0x1_0000 * u
            &&& r.value() >= u
        }),
{
    let u = power2::pow2(double::UNIT as nat) as int;
    let g = power2::pow2(double::WIDENING as nat) as int;
    let us = power2::pow2(single::UNIT as nat) as int;
    power2::lemma2_to64();
    power2::lemma2_to64_rest();
    power2::lemma_pow2_pos(double::WIDENING as nat);
    power2::lemma_pow2_pos(double::UNIT as nat);
    power2::lemma_pow2_adds(single::UNIT as nat, double::WIDENING as nat);
    power2::lemma_pow2_strictly_increases(30, single::UNIT as nat);
    assert(u >= 0x4000_0000 * g) by (nonlinear_arith)
        requires
            u == us * g,
            us >= 0x4000_0000,
            g > 0,
    ;
    let last = s.last->0;
    double_laws::count_is_exact(last as nat);
    double_laws::widening_is_exact(s.last_fraction);
    double_laws::widening_is_exact(c.period);
    power2::lemma_pow2_strictly_increases(1127, 1202);
    single_laws::within_values(s.last_fraction, NEAR as nat);
    power2::lemma_pow2_adds(16, single::UNIT as nat);
    let x = s.last_fraction.value();
    assert(-(0x1_0000 * u) <= x * g <= 0x1_0000 * u) by (nonlinear_arith)
        requires
            -(0x1_0000 * us) <= x <= 0x1_0000 * us,
            u == us * g,
            g > 0,
    ;
    assert(0 <= last * u <= FARTHEST * u) by (nonlinear_arith)
        requires
            0 <= last <= FARTHEST,
            u > 0,
    ;
    single_laws::value_of_one();
    single::rank_orders_values(constants::of(single::ONE_BITS), c.period);
    let y = c.period.value();
    assert(y * g >= u) by (nonlinear_arith)
        requires
            y >= us,
            u == us * g,
            g > 0,
    ;
}

/// A predicted tick lies ahead of the one before it, so that a coast goes on
/// wherever the end and the budget leave room for another tick, and every
/// coast comes to an end.
pub proof fn no_period_is_lost(s: LoopState, c: Coast)
    requires
        starts_well(s, c),
    ensures
        s.coast_time().lt_spec(s.coast_step(c).coast_time()),
        s.coasts_on(c) <==> {
            &&& s.coast_next(c.period) + c.reserved <= c.until
            &&& s.within_budget(s.coast_next(c.period))
        },
{
    let u = power2::pow2(double::UNIT as nat) as int;
    let g = power2::pow2(double::WIDENING as nat) as int;
    let a = Double::from_count_spec(s.last->0 as nat);
    let b = Double::from_single_spec(s.last_fraction);
    let r = Double::from_single_spec(c.period);
    start_in_units(s, c);
    double_laws::sum_is_close(a, b, 1202);
    power2::lemma_pow2_strictly_increases(1202, 1203);
    double_laws::sum_is_close(s.coast_time(), r, 1203);
    let position = s.coast_position(c.period);
    position_is_counted(position);
    let next = s.coast_next(c.period) as nat;
    let count = Double::from_count_spec(next);
    double_laws::count_is_exact(next);
    assert(count.neg_spec().value() == -count.value());
    power2::lemma_pow2_strictly_increases(1127, 1204);
    double_laws::sum_is_close(position, count.neg_spec(), 1204);
    let offset = position.minus_spec(count);
    offset_is_moderate(position.value(), count.value(), offset.value(), u, s, c);
    double_laws::narrowing_is_close(offset);
    let fraction = offset.to_single_spec();
    let wide = Double::from_single_spec(fraction);
    double_laws::widening_is_exact(fraction);
    power2::lemma_pow2_strictly_increases(1127, 1202);
    double_laws::sum_is_close(count, wide, 1202);
    let time = count.plus_spec(wide);
    assert(s.coast_step(c).coast_time() == time);
    step_advances(
        u,
        g,
        a.value(),
        b.value(),
        s.coast_time().value(),
        r.value(),
        position.value(),
        count.value(),
        offset.value(),
        wide.value(),
        time.value(),
    );
    double_laws::rank_orders_values(s.coast_time(), time);
}

/// How far one predicted tick lies from the one before it, in units.
pub proof fn coast_step_in_units(s: LoopState, c: Coast)
    requires
        starts_well(s, c),
        s.last->0 <= 0x100_0000_0000,
        s.coast_next(c.period) <= 0x100_0000_0000,
        single_laws::within(s.last_fraction, 149),
    ensures
        ({
            let u = power2::pow2(double::UNIT as nat);
            let period = c.period.value() * power2::pow2(double::WIDENING as nat);
            let off = s.coast_step(c).coast_time().value() - s.coast_time().value() - period;
            -u <= 0x400 * off <= u
        }),
{
    let u = power2::pow2(double::UNIT as nat) as int;
    let g = power2::pow2(double::WIDENING as nat) as int;
    let us = power2::pow2(single::UNIT as nat) as int;
    let a = Double::from_count_spec(s.last->0 as nat);
    let b = Double::from_single_spec(s.last_fraction);
    let r = Double::from_single_spec(c.period);
    start_in_units(s, c);
    power2::lemma_pow2_adds(single::UNIT as nat, double::WIDENING as nat);
    power2::lemma_pow2_pos(double::UNIT as nat);
    double_laws::count_is_exact(s.last->0 as nat);
    double_laws::widening_is_exact(s.last_fraction);
    double_laws::widening_is_exact(c.period);
    single_laws::within_values(s.last_fraction, 149);
    let x = s.last_fraction.value();
    assert(-u <= x * g <= u) by (nonlinear_arith)
        requires
            -us <= x <= us,
            u == us * g,
            g > 0,
    ;
    let last = s.last->0;
    assert(last * u <= 0x100_0000_0000 * u) by (nonlinear_arith)
        requires
            last <= 0x100_0000_0000,
            u > 0,
    ;
    double_laws::sum_is_close(a, b, 1202);
    power2::lemma_pow2_strictly_increases(1202, 1203);
    double_laws::sum_is_close(s.coast_time(), r, 1203);
    let position = s.coast_position(c.period);
    position_is_counted(position);
    let next = s.coast_next(c.period) as nat;
    let count = Double::from_count_spec(next);
    double_laws::count_is_exact(next);
    assert(next * u <= 0x100_0000_0000 * u) by (nonlinear_arith)
        requires
            next <= 0x100_0000_0000,
            u > 0,
    ;
    assert(count.neg_spec().value() == -count.value());
    power2::lemma_pow2_strictly_increases(1127, 1204);
    double_laws::sum_is_close(position, count.neg_spec(), 1204);
    let offset = position.minus_spec(count);
    offset_is_moderate(position.value(), count.value(), offset.value(), u, s, c);
    double_laws::narrowing_is_close(offset);
    let fraction = offset.to_single_spec();
    let wide = Double::from_single_spec(fraction);
    double_laws::widening_is_exact(fraction);
    power2::lemma_pow2_strictly_increases(1127, 1202);
    double_laws::sum_is_close(count, wide, 1202);
    let time = count.plus_spec(wide);
    assert(s.coast_step(c).coast_time() == time);
    step_by_the_period(
        u,
        g,
        a.value(),
        b.value(),
        s.coast_time().value(),
        r.value(),
        position.value(),
        count.value(),
        offset.value(),
        wide.value(),
        time.value(),
    );
}

proof fn step_by_the_period(
    u: int,
    g: int,
    a: int,
    b: int,
    t: int,
    r: int,
    p: int,
    c: int,
    d: int,
    f: int,
    next_t: int,
)
    requires
        g > 0,
        u >= 0x4000_0000 * g,
        0 <= a <= 0x100_0000_0000 * u,
        -u <= b <= u,
        r >= u,
        0 <= c <= 0x100_0000_0000 * u,
        double_laws::PRECISION * double_laws::apart(t, a + b) <= double_laws::apart(t, 0),
        double_laws::PRECISION * double_laws::apart(p, t + r) <= double_laws::apart(p, 0),
        p >= 0 ==> -u <= 2 * (p - c) <= u,
        p < 0 ==> c == 0,
        double_laws::PRECISION * double_laws::apart(d, p - c) <= double_laws::apart(d, 0),
        0x100_0000 * double_laws::apart(f, d) <= 2 * double_laws::apart(d, 0) + 0x200_0000 * g,
        double_laws::PRECISION * double_laws::apart(next_t, c + f) <= double_laws::apart(
            next_t,
            0,
        ),
    ensures
        -u <= 0x400 * (next_t - t - r) <= u,
{
    assert(-(2 * u) <= t <= 0x100_0000_0002 * u);
    assert(-u <= p <= 0x100_0000_0001 * u);
    assert(0x1000 * double_laws::apart(p, t + r) <= u);
    assert(-(2 * u) <= d <= 2 * u);
    assert(0x1_0000 * double_laws::apart(d, p - c) <= u);
    assert(0x1_0000 * double_laws::apart(f, d) <= u);
    assert(0x1000 * double_laws::apart(next_t, c + f) <= u);
}

/// What a position leaves of its index can be told in single precision.
proof fn offset_is_moderate(p: int, c: int, d: int, u: int, s: LoopState, k: Coast)
    requires
        starts_well(s, k),
        u == power2::pow2(double::UNIT as nat),
        p == s.coast_position(k.period).value(),
        p >= 0 ==> -u <= 2 * (p - c) <= u,
        p < 0 ==> c == 0,
        double_laws::PRECISION * double_laws::apart(d, p - c) <= double_laws::apart(d, 0),
    ensures
        arithmetic::magnitude(d) <= power2::pow2(1190),
{
    let a = Double::from_count_spec(s.last->0 as nat);
    let b = Double::from_single_spec(s.last_fraction);
    let r = Double::from_single_spec(k.period);
    start_in_units(s, k);
    double_laws::sum_is_close(a, b, 1202);
    power2::lemma_pow2_strictly_increases(1202, 1203);
    double_laws::sum_is_close(s.coast_time(), r, 1203);
    power2::lemma2_to64();
    power2::lemma_pow2_adds(17, double::UNIT as nat);
    power2::lemma_pow2_strictly_increases(1091, 1190);
    let t = s.coast_time().value();
    assert(t >= -(0x1_0001 * u));
    assert(p >= -(0x1_0001 * u));
    assert(-(0x1_0002 * u) <= d <= u);
}

/// Minus one, in double precision.
pub const MINUS_ONE: u64 = 0xbff0_0000_0000_0000;

/// Whether the time of a tick is a number, not more than a sample before the
/// start of the clock.
pub open spec fn is_sound(time: Double) -> bool {
    time.finite() && time.value() >= -power2::pow2(double::UNIT as nat)
}

proof fn value_of_minus_one()
    ensures
        (Double { bits: MINUS_ONE }).finite(),
        (Double { bits: MINUS_ONE }).value() == -power2::pow2(double::UNIT as nat),
{
    let h = double::HIDDEN as nat;
    power2::lemma2_to64();
    power2::lemma2_to64_rest();
    single_laws::power_pattern_value(h, 52, double::UNIT as nat);
    assert(single_laws::power_pattern(h, 52, double::UNIT as nat) == 0x3ff0_0000_0000_0000);
}

/// A predicted tick lies within half a sample of its index, and its time is
/// sound if that of the tick before it is.
pub proof fn predicted_time_is_sound(s: LoopState, c: Coast)
    requires
        s.coasts_on(c),
        c.until < usize::MAX,
        c.period.finite(),
        constants::of(single::ONE_BITS).le_spec(c.period),
        is_sound(s.coast_time()),
    ensures
        is_sound(s.coast_step(c).coast_time()),
        s.coast_step(c).last_fraction.finite(),
        s.coast_step(c).last_fraction.magnitude() <= 0x3f00_0000,
        s.coast_step(c).last matches Some(next) && next >= 0,
{
    let u = power2::pow2(double::UNIT as nat) as int;
    let g = power2::pow2(double::WIDENING as nat) as int;
    let us = power2::pow2(single::UNIT as nat) as int;
    let zero = Double { bits: 0 };
    let r = Double::from_single_spec(c.period);
    power2::lemma2_to64();
    power2::lemma_pow2_pos(double::WIDENING as nat);
    power2::lemma_pow2_adds(single::UNIT as nat, double::WIDENING as nat);
    double_laws::widening_is_exact(c.period);
    single_laws::value_of_one();
    single::rank_orders_values(constants::of(single::ONE_BITS), c.period);
    let y = c.period.value();
    assert(y * g >= u) by (nonlinear_arith)
        requires
            y >= us,
            u == us * g,
            g > 0,
    ;
    let position = s.coast_position(c.period);
    finite_sum_is_a_number(s.coast_time(), r);
    assert(position.finite());
    zero_has_no_value();
    double_laws::sum_is_at_least(s.coast_time(), r, zero);
    double::counted_off(position);
    let next = s.coast_next(c.period) as nat;
    let count = Double::from_count_spec(next);
    let fraction = s.coast_step(c).last_fraction;
    double_laws::count_is_moderate(next);
    double_laws::widening_is_exact(fraction);
    half_in_units(fraction);
    power2::lemma_pow2_strictly_increases(1138, 1202);
    let wide = Double::from_single_spec(fraction);
    double_laws::sum_is_close(count, wide, 1202);
    let f = fraction.value();
    assert(f * g >= -u) by (nonlinear_arith)
        requires
            f >= -us,
            u == us * g,
            g > 0,
    ;
    value_of_minus_one();
    double_laws::sum_is_at_least(count, wide, Double { bits: MINUS_ONE });
}

proof fn zero_has_no_value()
    ensures
        (Double { bits: 0 }).finite(),
        (Double { bits: 0 }).value() == 0,
{
}

proof fn finite_sum_is_a_number(a: Double, b: Double)
    requires
        a.finite(),
        b.finite(),
    ensures
        !a.plus_spec(b).nan(),
{
    ieee::nearest_exists(
        double::HIDDEN as nat,
        double::INFINITE as nat,
        arithmetic::magnitude(a.value() + b.value()),
        1,
    );
}

/// A fraction within half a sample is within half a sample in units too.
proof fn half_in_units(fraction: Single)
    requires
        fraction.finite(),
        fraction.magnitude() <= 0x3f00_0000,
    ensures
        -power2::pow2(single::UNIT as nat) <= 2 * fraction.value() <= power2::pow2(
            single::UNIT as nat,
        ),
{
    let h = single::HIDDEN as nat;
    power2::lemma2_to64();
    power2::lemma_pow2_unfold(single::UNIT as nat);
    single_laws::power_pattern_value(h, 23, 148);
    assert(single_laws::power_pattern(h, 23, 148) == 0x3f00_0000);
    ieee::pattern_value_increases(h, fraction.magnitude() as nat, 0x3f00_0000);
    ieee::pattern_value_increases(h, 0, fraction.magnitude() as nat);
}

/// The time of a detection that was re-anchored is sound.
pub proof fn split_time_is_sound(at: int, offset: Single)
    requires
        0 <= at <= usize::MAX,
        offset.finite() ==> single_laws::within(offset, 172),
    ensures
        ({
            let (reported, rest) = north_ref_common::effective_time_spec(at, offset);
            is_sound(
                Double::from_count_spec(at as nat).plus_spec(
                    Double::from_single_spec(
                        rest.plus_spec(Single::from_integer_spec(reported - at)),
                    ),
                ),
            )
        }),
{
    let us = power2::pow2(single::UNIT as nat) as int;
    let u = power2::pow2(double::UNIT as nat) as int;
    let g = power2::pow2(double::WIDENING as nat) as int;
    let (reported, rest) = north_ref_common::effective_time_spec(at, offset);
    let n = reported - at;
    power2::lemma2_to64();
    power2::lemma_pow2_pos(double::WIDENING as nat);
    power2::lemma_pow2_pos(single::UNIT as nat);
    power2::lemma_pow2_adds(single::UNIT as nat, double::WIDENING as nat);
    rotation_laws::split_time_is_in_half_sample(at, offset);
    half_in_units(rest);
    shift_is_small(at, offset);
    single_laws::count_is_exact(n);
    single_laws::count_is_exact(n - 1);
    let whole = Single::from_integer_spec(n);
    let below = Single::from_integer_spec(n - 1);
    assert((n - 1) * us == n * us - us) by (nonlinear_arith);
    assert(-(0x80_0010 * us) <= n * us <= 0x80_0010 * us) by (nonlinear_arith)
        requires
            -0x80_0010 <= n <= 0x80_0010,
            us > 0,
    ;
    power2::lemma_pow2_adds(24, single::UNIT as nat);
    single_laws::sum_is_close(rest, whole, 173);
    single_laws::sum_is_at_least(rest, whole, below);
    let fraction = rest.plus_spec(whole);
    double_laws::widening_is_exact(fraction);
    double_laws::count_is_moderate(at as nat);
    let count = Double::from_count_spec(at as nat);
    let wide = Double::from_single_spec(fraction);
    power2::lemma_pow2_strictly_increases(1138, 1202);
    double_laws::sum_is_close(count, wide, 1202);
    let f = fraction.value();
    assert(f * g >= (n - 1) * u) by (nonlinear_arith)
        requires
            f >= (n - 1) * us,
            u == us * g,
            g > 0,
    {
        assert(f * g >= ((n - 1) * us) * g) by (nonlinear_arith)
            requires
                f >= (n - 1) * us,
                g > 0,
        ;
        assert(((n - 1) * us) * g == (n - 1) * (us * g)) by (nonlinear_arith);
    }
    assert(u > 0) by (nonlinear_arith)
        requires
            u == us * g,
            us > 0,
            g > 0,
    ;
    if at <= 0x20_0000_0000_0000 {
        double_laws::count_is_exact(at as nat);
        assert(at * u + (n - 1) * u >= -u) by (nonlinear_arith)
            requires
                n >= -at,
                u > 0,
        ;
    } else {
        assert((n - 1) * u >= -(0x100_0000 * u)) by (nonlinear_arith)
            requires
                n - 1 >= -0x100_0000,
                u > 0,
        ;
    }
    value_of_minus_one();
    double_laws::sum_is_at_least(count, wide, Double { bits: MINUS_ONE });
}

/// Re-anchoring moves a time by no more than its offset.
proof fn shift_is_small(at: int, offset: Single)
    requires
        0 <= at <= usize::MAX,
        offset.finite() ==> single_laws::within(offset, 172),
    ensures
        ({
            let n = north_ref_common::effective_time_spec(at, offset).0 - at;
            &&& -0x80_0001 <= n <= 0x80_0001
            &&& n >= -at
        }),
{
    if offset.finite() {
        let p = power2::pow2((single::UNIT - 1) as nat);
        let m = arithmetic::magnitude(offset.value());
        power2::lemma_pow2_pos((single::UNIT - 1) as nat);
        single_laws::within_values(offset, 172);
        power2::lemma2_to64();
        power2::lemma_pow2_adds(24, (single::UNIT - 1) as nat);
        single_laws::nearest_integer_is_near(m, p);
        let k = offset.nearest_integer();
        assert(k <= 0x80_0001) by (nonlinear_arith)
            requires
                k * (2 * p) <= m + p,
                m <= 0x100_0000 * p,
                p > 0,
        ;
    }
}

} // verus!
