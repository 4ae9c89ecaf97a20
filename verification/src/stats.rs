//! Wrap-safe statistics for circular quantities (bearing angles in degrees).
//!
//! Arithmetic statistics break at the 0/360 boundary: readings of 359 and 1
//! degrees average to 180 with an enormous spread. `CircularStats` takes the
//! circular mean from sine/cosine sums, dispersion from the resultant length,
//! and extremes as wrapped deviations about the mean.
use crate::constants;
use crate::rdf::bearing;
use crate::signal_processing::math;
use crate::single;
use crate::single::Single;
use crate::single_laws;
use vstd::arithmetic::power2;
use vstd::prelude::*;

verus! {

/// Half a turn in degrees.
pub const HALF_TURN: u32 = 0x4334_0000;

/// Accumulates bearing angles in degrees and reports wrap-safe statistics.
pub struct CircularStats {
    angles_deg: Vec<Single>,
}

/// What there is to say of a set of angles.
#[derive(Debug, Clone, Copy, PartialEq, Eq)]
pub struct CircularSummary {
    pub count: usize,
    /// Circular mean, in [0, 360).
    pub mean: Single,
    /// Circular standard deviation in degrees (sqrt(-2 ln R)).
    pub std_dev: Single,
    /// Mean plus the most negative wrapped deviation, in [0, 360).
    pub min: Single,
    /// Mean plus the most positive wrapped deviation, in [0, 360).
    pub max: Single,
    /// Spread between the extreme deviations, in degrees.
    pub range: Single,
}

/// An angle in radians.
pub open spec fn radians_of(degrees: Single) -> Single {
    degrees.times_spec(constants::of(bearing::RADIANS_PER_DEGREE))
}

/// An angle in radians.
pub fn to_radians(degrees: Single) -> (r: Single)
    ensures
        r == radians_of(degrees),
{
    degrees.times(Single::from_bits(bearing::RADIANS_PER_DEGREE))
}

/// An angle brought into half a turn either way.
pub open spec fn wrapped_degrees(d: Single) -> Single {
    d.plus_spec(constants::of(HALF_TURN)).rem_euclid_spec(
        constants::of(math::FULL_TURN),
    ).minus_spec(constants::of(HALF_TURN))
}

fn wrap_degrees(d: Single) -> (r: Single)
    ensures
        r == wrapped_degrees(d),
{
    d.plus(Single::from_bits(HALF_TURN)).rem_euclid(Single::from_bits(math::FULL_TURN)).minus(
        Single::from_bits(HALF_TURN),
    )
}

/// The least and the greatest deviation of angles from a mean.
pub open spec fn extremes(angles: Seq<Single>, mean: Single) -> (Single, Single)
    decreases angles.len(),
{
    if angles.len() == 0 {
        (
            constants::of(single::INFINITY_BITS),
            constants::of(single::INFINITY_BITS).neg_spec(),
        )
    } else {
        let (low, high) = extremes(angles.drop_last(), mean);
        let d = wrapped_degrees(angles.last().minus_spec(mean));
        (low.min_spec(d), high.max_spec(d))
    }
}

/// The mean resultant length of angles whose components add up to these: 1 for
/// identical angles, 0 for uniform spread.
pub open spec fn resultant_spec(sum_cos: Single, sum_sin: Single, count: nat) -> Single {
    sum_cos.times_spec(sum_cos).plus_spec(
        sum_sin.times_spec(sum_sin),
    ).sqrt_spec().over_spec(Single::from_integer_spec(count as int))
}

/// The circular standard deviation of a resultant length, given its natural
/// logarithm.
pub open spec fn deviation_spec(resultant: Single, log_resultant: Single) -> Single {
    if constants::of(single::ONE_BITS).le_spec(resultant) {
        constants::of(0)
    } else if resultant.le_spec(constants::of(constants::EPSILON)) {
        constants::of(single::INFINITY_BITS)
    } else {
        constants::of(math::TWO).neg_spec().times_spec(log_resultant).sqrt_spec().times_spec(
            constants::of(math::DEGREES_PER_RADIAN),
        )
    }
}

/// What there is to say of angles about a mean.
pub open spec fn summary_of(
    angles: Seq<Single>,
    mean: Single,
    std_dev: Single,
) -> CircularSummary {
    let (low, high) = extremes(angles, mean);
    CircularSummary {
        count: angles.len() as usize,
        mean,
        std_dev,
        min: math::turn_spec(mean.plus_spec(low)),
        max: math::turn_spec(mean.plus_spec(high)),
        range: high.minus_spec(low),
    }
}

impl View for CircularStats {
    type V = Seq<Single>;

    closed spec fn view(&self) -> Seq<Single> {
        self.angles_deg@
    }
}

impl CircularStats {
    pub fn new() -> (s: CircularStats)
        ensures
            s@ == Seq::<Single>::empty(),
    {
        CircularStats { angles_deg: Vec::new() }
    }

    /// Take an angle in.
    pub fn update(&mut self, degrees: Single)
        ensures
            final(self)@ == old(self)@.push(degrees),
    {
        self.angles_deg.push(degrees);
    }

    pub fn count(&self) -> (n: usize)
        ensures
            n == self@.len(),
    {
        self.angles_deg.len()
    }

    /// The angles in radians, to take cosines and sines of.
    pub fn radians(&self) -> (r: Vec<Single>)
        ensures
            r@ == self@.map_values(|a: Single| radians_of(a)),
    {
        let mut r: Vec<Single> = Vec::new();
        let ghost all = self@.map_values(|a: Single| radians_of(a));
        let mut i: usize = 0;
        while i < self.angles_deg.len()
            invariant
                i <= self.angles_deg.len(),
                all == self@.map_values(|a: Single| radians_of(a)),
                r@ == all.take(i as int),
            decreases self.angles_deg.len() - i,
        {
            r.push(to_radians(self.angles_deg[i]));
            i = i + 1;
            assert(r@ =~= all.take(i as int));
        }
        assert(r@ =~= all);
        r
    }

    /// The mean resultant length, from the sums of the cosines and the sines.
    pub fn resultant(&self, sum_cos: Single, sum_sin: Single) -> (r: Single)
        ensures
            r == resultant_spec(sum_cos, sum_sin, self@.len()),
    {
        sum_cos.times(sum_cos).plus(sum_sin.times(sum_sin)).sqrt().over(
            Single::from_count(self.angles_deg.len()),
        )
    }

    /// What there is to say of the angles. None where there are none.
    ///
    /// # Arguments
    /// * `sum_cos`, `sum_sin` - the sums of the cosines and the sines
    /// * `mean_angle` - the angle of that vector in radians
    /// * `log_resultant` - the natural logarithm of the resultant length
    pub fn summary(
        &self,
        sum_cos: Single,
        sum_sin: Single,
        mean_angle: Single,
        log_resultant: Single,
    ) -> (s: Option<CircularSummary>)
        ensures
            s == if self@.len() == 0 {
                None
            } else {
                Some(
                    summary_of(
                        self@,
                        bearing::bearing_of(mean_angle),
                        deviation_spec(
                            resultant_spec(sum_cos, sum_sin, self@.len()),
                            log_resultant,
                        ),
                    ),
                )
            },
    {
        if self.angles_deg.len() == 0 {
            return None;
        }
        let mean: Single = bearing::phase_to_bearing(mean_angle);
        let resultant: Single = self.resultant(sum_cos, sum_sin);
        let std_dev: Single = if resultant.at_least(Single::one()) {
            Single::zero()
        } else if resultant.at_most(Single::from_bits(constants::EPSILON)) {
            Single::from_bits(single::INFINITY_BITS)
        } else {
            Single::from_bits(math::TWO).negated().times(log_resultant).sqrt().times(
                Single::from_bits(math::DEGREES_PER_RADIAN),
            )
        };
        let mut min_dev: Single = Single::from_bits(single::INFINITY_BITS);
        let mut max_dev: Single = Single::from_bits(single::INFINITY_BITS).negated();
        let mut i: usize = 0;
        while i < self.angles_deg.len()
            invariant
                i <= self.angles_deg.len(),
                (min_dev, max_dev) == extremes(self@.take(i as int), mean),
            decreases self.angles_deg.len() - i,
        {
            assert(self@.take(i + 1).drop_last() =~= self@.take(i as int));
            let d: Single = wrap_degrees(self.angles_deg[i].minus(mean));
            min_dev = min_dev.min(d);
            max_dev = max_dev.max(d);
            i = i + 1;
        }
        assert(self@.take(i as int) =~= self@);
        Some(
            CircularSummary {
                count: self.angles_deg.len(),
                mean,
                std_dev,
                min: math::one_turn(mean.plus(min_dev)),
                max: math::one_turn(mean.plus(max_dev)),
                range: max_dev.minus(min_dev),
            },
        )
    }
}

/// Whether an angle is within half a turn of zero.
pub open spec fn in_half_turn(d: Single) -> bool {
    d.finite() && -constants::of(HALF_TURN).rank() <= d.rank() <= constants::of(HALF_TURN).rank()
}

/// Whether an angle is a number from zero to a full turn.
pub open spec fn in_turn_or_full(d: Single) -> bool {
    d.finite() && 0 <= d.value() <= constants::of(math::FULL_TURN).value()
}

/// How large an angle may be, as a power of two in units of the smallest
/// number: `2^30` degrees.
pub const MODERATE: u32 = 179;

/// A full turn is twice half a turn.
proof fn turn_is_two_halves()
    ensures
        constants::of(math::FULL_TURN).value() == 2 * constants::of(HALF_TURN).value(),
        constants::of(HALF_TURN).value() > 0,
{
    let h = single::HIDDEN as nat;
    let k = 0xb4_0000nat;
    assert(HALF_TURN as nat / h == 134 && HALF_TURN as nat % h == 0x34_0000);
    assert(math::FULL_TURN as nat / h == 135 && math::FULL_TURN as nat % h == 0x34_0000);
    let p = power2::pow2(133);
    power2::lemma_pow2_unfold(134);
    power2::lemma_pow2_pos(133);
    assert(k * (2 * p) == 2 * (k * p)) by (nonlinear_arith);
    assert(k * p > 0) by (nonlinear_arith)
        requires
            k > 0,
            p > 0,
    ;
}

/// A wrapped deviation is within half a turn.
proof fn wrapped_is_in_half_turn(angle: Single, mean: Single)
    requires
        single_laws::within(angle, MODERATE as nat),
        math::in_turn(mean),
    ensures
        in_half_turn(wrapped_degrees(angle.minus_spec(mean))),
{
    let half = constants::of(HALF_TURN);
    let full = constants::of(math::FULL_TURN);
    single_laws::sum_within(angle, mean.neg_spec(), MODERATE as nat);
    let d = angle.minus_spec(mean);
    single_laws::sum_within(d, half, MODERATE as nat + 1);
    single_laws::rem_euclid_in_range(d.plus_spec(half), full);
    turn_is_two_halves();
    single_laws::about_half(d.plus_spec(half).rem_euclid_spec(full), half, full);
}

proof fn extremes_are_in_half_turn(angles: Seq<Single>, mean: Single)
    requires
        angles.len() > 0,
        forall|i: int|
            0 <= i < angles.len() ==> single_laws::within(#[trigger] angles[i], MODERATE as nat),
        math::in_turn(mean),
    ensures
        in_half_turn(extremes(angles, mean).0),
        in_half_turn(extremes(angles, mean).1),
        extremes(angles, mean).0.rank() <= extremes(angles, mean).1.rank(),
    decreases angles.len(),
{
    let front = angles.drop_last();
    assert(angles.last() == angles[angles.len() - 1]);
    wrapped_is_in_half_turn(angles.last(), mean);
    if front.len() > 0 {
        assert forall|i: int| 0 <= i < front.len() implies single_laws::within(
            #[trigger] front[i],
            MODERATE as nat,
        ) by {
            assert(front[i] == angles[i]);
        }
        extremes_are_in_half_turn(front, mean);
    }
    let d = wrapped_degrees(angles.last().minus_spec(mean));
    let (low, high) = extremes(front, mean);
    assert(in_half_turn(d) && !d.nan());
    assert(extremes(angles, mean) == (low.min_spec(d), high.max_spec(d)));
    if front.len() == 0 {
        assert(low.min_spec(d) == d && high.max_spec(d) == d);
    } else {
        assert(in_half_turn(low) && in_half_turn(high));
        assert(in_half_turn(low.min_spec(d)) && in_half_turn(high.max_spec(d)));
    }
}

/// The mean and the extremes of angles are in [0, 360), and the extremes are
/// in order.
pub proof fn summary_is_in_range(angles: Seq<Single>, mean_angle: Single, std_dev: Single)
    requires
        angles.len() > 0,
        forall|i: int|
            0 <= i < angles.len() ==> single_laws::within(#[trigger] angles[i], MODERATE as nat),
        mean_angle.times_spec(constants::of(math::DEGREES_PER_RADIAN)).finite(),
    ensures
        ({
            let s = summary_of(angles, bearing::bearing_of(mean_angle), std_dev);
            &&& math::in_turn(s.mean)
            &&& math::in_turn(s.min)
            &&& math::in_turn(s.max)
            &&& constants::of(0).le_spec(s.range)
        }),
{
    bearing::bearing_is_in_range(mean_angle);
    let mean = bearing::bearing_of(mean_angle);
    extremes_are_in_half_turn(angles, mean);
    let (low, high) = extremes(angles, mean);
    single_laws::sum_within(mean, low, MODERATE as nat);
    single_laws::sum_within(mean, high, MODERATE as nat);
    math::turn_is_in_range(mean.plus_spec(low));
    math::turn_is_in_range(mean.plus_spec(high));
    single_laws::difference_in_order(low, high);
}

} // verus!
