//! Phase and bearing arithmetic.
use crate::constants;
use crate::ieee;
use crate::single;
use crate::single::Single;
use crate::single_laws;
use vstd::arithmetic::power2;
use vstd::prelude::*;

verus! {

/// Degrees per radian.
pub const DEGREES_PER_RADIAN: u32 = 0x4265_2ee1;

/// A full turn in degrees.
pub const FULL_TURN: u32 = 0x43b4_0000;

/// Two.
pub const TWO: u32 = 0x4000_0000;

/// Calculate instantaneous phase from a zero-crossing sample index
///
/// Converts a sample position within a rotation period to a phase angle.
///
/// # Arguments
/// * `crossing_sample` - Sample index of the zero-crossing
/// * `samples_per_rotation` - Number of samples in one complete rotation
///
/// # Returns
/// Phase angle in radians (0 to 2π)
pub fn phase_from_crossing(crossing_sample: usize, samples_per_rotation: Single) -> (phase: Single)
    ensures
        phase == Single::from_integer_spec(crossing_sample as int).over_spec(
            samples_per_rotation,
        ).times_spec(constants::of(TWO)).times_spec(constants::of(constants::PI)).rem_spec(
            constants::of(constants::TWO_PI),
        ),
{
    let turns: Single = Single::from_count(crossing_sample).over(samples_per_rotation);
    let phase_radians: Single = turns.times(Single::from_bits(TWO)).times(
        Single::from_bits(constants::PI),
    );
    phase_radians.rem(Single::from_bits(constants::TWO_PI))
}

/// A phase from a crossing lies between zero and a turn, as long as the
/// position can be told in radians.
pub proof fn crossing_phase_is_in_turn(turns: Single)
    requires
        single_laws::nonnegative(
            turns.times_spec(constants::of(TWO)).times_spec(constants::of(constants::PI)),
        ),
        turns.times_spec(constants::of(TWO)).times_spec(constants::of(constants::PI)).finite(),
    ensures
        ({
            let phase = turns.times_spec(constants::of(TWO)).times_spec(
                constants::of(constants::PI),
            ).rem_spec(constants::of(constants::TWO_PI));
            constants::of(0).le_spec(phase) && phase.le_spec(constants::of(constants::TWO_PI))
        }),
{
    let x = turns.times_spec(constants::of(TWO)).times_spec(constants::of(constants::PI));
    single_laws::rem_in_range(x, constants::of(constants::TWO_PI));
}

/// An angle in degrees brought into one turn: what is so little below zero
/// that it rounds to a full turn is at zero.
pub open spec fn turn_spec(degrees: Single) -> Single {
    let r = degrees.rem_euclid_spec(constants::of(FULL_TURN));
    if constants::of(FULL_TURN).le_spec(r) {
        constants::of(0)
    } else {
        r
    }
}

/// Whether an angle in degrees lies in one turn, the full turn left out.
pub open spec fn in_turn(degrees: Single) -> bool {
    constants::of(0).le_spec(degrees) && degrees.lt_spec(constants::of(FULL_TURN))
}

/// An angle brought into one turn lies in it.
pub proof fn turn_is_in_range(degrees: Single)
    requires
        degrees.finite(),
    ensures
        in_turn(turn_spec(degrees)),
{
    single_laws::rem_euclid_in_range(degrees, constants::of(FULL_TURN));
}

/// An angle in degrees brought into one turn, [0, 360).
pub fn one_turn(degrees: Single) -> (r: Single)
    ensures
        r == turn_spec(degrees),
        degrees.finite() ==> in_turn(r),
{
    proof {
        if degrees.finite() {
            turn_is_in_range(degrees);
        }
    }
    let full: Single = Single::from_bits(FULL_TURN);
    let r: Single = degrees.rem_euclid(full);
    if r.at_least(full) {
        Single::zero()
    } else {
        r
    }
}

/// The bearing of a phase angle.
pub open spec fn bearing_of(phase_radians: Single) -> Single {
    turn_spec(phase_radians.times_spec(constants::of(DEGREES_PER_RADIAN)))
}

/// Convert phase angle to bearing in degrees
///
/// Converts a phase angle in radians to a bearing angle in degrees,
/// normalized to the range 0-360°.
pub fn phase_to_bearing(phase_radians: Single) -> (bearing: Single)
    ensures
        bearing == bearing_of(phase_radians),
        phase_radians.times_spec(constants::of(DEGREES_PER_RADIAN)).finite() ==> in_turn(
            bearing,
        ),
{
    one_turn(phase_radians.times(Single::from_bits(DEGREES_PER_RADIAN)))
}

/// The shortest way from one phase to another: their difference, without the
/// turns in it.
pub open spec fn phase_step(phase1: Single, phase2: Single) -> Single {
    let pi = constants::of(constants::PI);
    let turn = constants::of(constants::TWO_PI);
    let diff = phase1.minus_spec(phase2).rem_spec(turn);
    if pi.lt_spec(diff) {
        diff.minus_spec(turn)
    } else if diff.lt_spec(pi.neg_spec()) {
        diff.plus_spec(turn)
    } else {
        diff
    }
}

/// Whether a phase lies within half a turn either way.
pub open spec fn in_half_turn(phase: Single) -> bool {
    constants::of(constants::PI).neg_spec().le_spec(phase) && phase.le_spec(
        constants::of(constants::PI),
    )
}

/// A full turn is twice half a turn.
pub proof fn turn_is_twice_pi()
    ensures
        constants::of(constants::TWO_PI).value() == 2 * constants::of(constants::PI).value(),
        constants::of(constants::PI).value() > 0,
{
    let h = single::HIDDEN as nat;
    let k = (constants::PI as nat % h + h) as nat;
    assert(constants::PI as nat / h == 128 && constants::TWO_PI as nat / h == 129);
    assert(constants::PI as nat % h == constants::TWO_PI as nat % h);
    power2::lemma_pow2_unfold(128);
    power2::lemma_pow2_pos(127);
    let p = power2::pow2(127);
    assert(k * (2 * p) == 2 * (k * p)) by (nonlinear_arith);
    assert(k * p > 0) by (nonlinear_arith)
        requires
            k > 0,
            p > 0,
    ;
}

/// A phase beyond half a turn, with a turn taken off, stays above the lower
/// end of half a turn.
pub proof fn past_half_turn(phase: Single)
    requires
        constants::of(constants::PI).lt_spec(phase),
        phase.le_spec(constants::of(constants::TWO_PI)),
    ensures
        in_half_turn(phase.minus_spec(constants::of(constants::TWO_PI))),
        constants::of(constants::PI).neg_spec().lt_spec(
            phase.minus_spec(constants::of(constants::TWO_PI)),
        ),
{
    let h = single::HIDDEN as nat;
    let inf = single::INFINITE as nat;
    let pi = constants::of(constants::PI);
    let turn = constants::of(constants::TWO_PI);
    turn_is_twice_pi();
    single_laws::past_half(phase, pi, turn);
    let b = constants::PI as nat;
    let k = (b % h + h) as nat;
    ieee::pattern_parts(h, 127, k);
    ieee::pattern_parts(h, 127, (k - 1) as nat);
    ieee::pattern_parts(h, 127, k + 1);
    assert(b == 127 * h + k);
    let p = power2::pow2(127);
    assert((k - 1) * p + (k + 1) * p == 2 * (k * p)) by (nonlinear_arith);
    ieee::pattern_value_increases(h, b + 1, phase.magnitude() as nat);
    single::rank_orders_values(phase, turn);
    assert(turn.neg_spec().value() == -turn.value());
    let n = (turn.value() - phase.value()) as nat;
    ieee::nearest_exists(h, inf, n, 1);
    ieee::nearest_at_most(h, inf, n, 1, (b - 1) as nat);
}

/// The shortest way from one phase to another is at most half a turn, as long
/// as the two phases have a difference.
pub proof fn step_is_in_half_turn(phase1: Single, phase2: Single)
    requires
        phase1.minus_spec(phase2).finite(),
    ensures
        in_half_turn(phase_step(phase1, phase2)),
{
    let pi = constants::of(constants::PI);
    let turn = constants::of(constants::TWO_PI);
    let diff = phase1.minus_spec(phase2).rem_spec(turn);
    turn_is_twice_pi();
    single_laws::rem_in_range(phase1.minus_spec(phase2), turn);
    if pi.lt_spec(diff) {
        single_laws::past_half(diff, pi, turn);
    } else if diff.lt_spec(pi.neg_spec()) {
        single_laws::past_half(diff.neg_spec(), pi, turn);
        assert(diff.neg_spec().neg_spec() == diff);
        assert(diff.value() + turn.value() == turn.value() + diff.value());
        assert(diff.plus_spec(turn) == turn.minus_spec(diff.neg_spec()));
    }
}

/// Calculate the difference between two phase angles with wrap-around
///
/// Computes the shortest angular difference between two phase angles,
/// handling wrap-around at 2π boundaries.
///
/// # Returns
/// Phase difference in radians, wrapped to [-π, π]
pub fn phase_difference(phase1: Single, phase2: Single) -> (difference: Single)
    ensures
        difference == phase_step(phase1, phase2),
        phase1.minus_spec(phase2).finite() ==> in_half_turn(difference),
{
    proof {
        if phase1.minus_spec(phase2).finite() {
            step_is_in_half_turn(phase1, phase2);
        }
    }
    let pi: Single = Single::from_bits(constants::PI);
    let turn: Single = Single::from_bits(constants::TWO_PI);
    let diff: Single = phase1.minus(phase2).rem(turn);
    if diff.above(pi) {
        diff.minus(turn)
    } else if diff.less_than(pi.negated()) {
        diff.plus(turn)
    } else {
        diff
    }
}

/// The sum of a sequence, added up from the front. The empty sum is the
/// negative zero, which leaves every number it is added to as it is.
pub open spec fn sum_of(s: Seq<Single>) -> Single
    decreases s.len(),
{
    if s.len() == 0 {
        constants::of(0x8000_0000)
    } else {
        sum_of(s.drop_last()).plus_spec(s.last())
    }
}

/// The sum of a slice, added up from the front.
pub fn sum(values: &[Single]) -> (total: Single)
    ensures
        total == sum_of(values@),
{
    let mut total: Single = Single::from_bits(0x8000_0000);
    let mut i: usize = 0;
    while i < values.len()
        invariant
            i <= values.len(),
            total == sum_of(values@.take(i as int)),
        decreases values.len() - i,
    {
        assert(values@.take(i + 1).drop_last() =~= values@.take(i as int));
        total = total.plus(values[i]);
        i = i + 1;
    }
    assert(values@.take(i as int) =~= values@);
    total
}

/// A copy of a slice.
pub fn copy_of(values: &[Single]) -> (copy: Vec<Single>)
    ensures
        copy@ == values@,
{
    let mut copy: Vec<Single> = Vec::new();
    let mut i: usize = 0;
    while i < values.len()
        invariant
            i <= values.len(),
            copy@ == values@.take(i as int),
        decreases values.len() - i,
    {
        copy.push(values[i]);
        i = i + 1;
        assert(copy@ =~= values@.take(i as int));
    }
    assert(values@.take(i as int) =~= values@);
    copy
}

} // verus!
