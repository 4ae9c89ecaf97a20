//! Bearings, their uncertainty and the confidence in them.
use crate::config::ConfidenceConfig;
use crate::constants;
use crate::error;
use crate::error::Template;
use crate::ieee;
use crate::rdf::north_ref::NorthTick;
use crate::signal_processing::math;
use crate::signal_processing::north_agc;
use crate::single;
use crate::single::Single;
use crate::single_laws;
use vstd::arithmetic::power2;
use vstd::prelude::*;

verus! {

/// Radians per degree.
pub const RADIANS_PER_DEGREE: u32 = 0x3c8e_fa35;

/// The components of a list of phases, added up from the front.
pub open spec fn vector_sum_spec(vectors: Seq<(Single, Single)>) -> (Single, Single)
    decreases vectors.len(),
{
    if vectors.len() == 0 {
        (constants::of(0), constants::of(0))
    } else {
        let (x, y) = vector_sum_spec(vectors.drop_last());
        (x.plus_spec(vectors.last().0), y.plus_spec(vectors.last().1))
    }
}

/// Add up phases taken as vectors, so that the wrap at the turn does not pull
/// their mean towards zero: the angle of the sum is their mean direction.
pub fn vector_sum(vectors: &[(Single, Single)]) -> (s: (Single, Single))
    ensures
        s == vector_sum_spec(vectors@),
{
    let mut x: Single = Single::zero();
    let mut y: Single = Single::zero();
    let mut i: usize = 0;
    while i < vectors.len()
        invariant
            i <= vectors.len(),
            (x, y) == vector_sum_spec(vectors@.take(i as int)),
        decreases vectors.len() - i,
    {
        assert(vectors@.take(i + 1).drop_last() =~= vectors@.take(i as int));
        x = x.plus(vectors[i].0);
        y = y.plus(vectors[i].1);
        i = i + 1;
    }
    assert(vectors@.take(i as int) =~= vectors@);
    (x, y)
}

/// Signed difference between two phases, within half a turn either way.
pub open spec fn wrapped_diff(phase: Single, reference: Single) -> Single {
    let diff = phase.minus_spec(reference).rem_euclid_spec(constants::of(constants::TWO_PI));
    if constants::of(constants::PI).lt_spec(diff) {
        diff.minus_spec(constants::of(constants::TWO_PI))
    } else {
        diff
    }
}

/// Signed difference between two phases, in (-PI, PI].
pub fn wrap_phase_diff(phase: Single, reference: Single) -> (d: Single)
    ensures
        d == wrapped_diff(phase, reference),
{
    let diff: Single = phase.minus(reference).rem_euclid(Single::from_bits(constants::TWO_PI));
    if diff.above(Single::from_bits(constants::PI)) {
        diff.minus(Single::from_bits(constants::TWO_PI))
    } else {
        diff
    }
}

/// The difference of two phases lies in (-PI, PI], as long as they have one.
pub proof fn diff_is_in_half_turn(phase: Single, reference: Single)
    requires
        phase.minus_spec(reference).finite(),
    ensures
        math::in_half_turn(wrapped_diff(phase, reference)),
        constants::of(constants::PI).neg_spec().lt_spec(wrapped_diff(phase, reference)),
{
    let turn = constants::of(constants::TWO_PI);
    let diff = phase.minus_spec(reference).rem_euclid_spec(turn);
    single_laws::rem_euclid_in_range(phase.minus_spec(reference), turn);
    if constants::of(constants::PI).lt_spec(diff) {
        math::past_half_turn(diff);
    }
}

/// The bearing of a phase angle, in degrees.
pub open spec fn bearing_of(phase_radians: Single) -> Single {
    math::turn_spec(phase_radians.times_spec(constants::of(math::DEGREES_PER_RADIAN)))
}

/// Convert phase angle to bearing in degrees
///
/// Converts a phase angle in radians to a bearing angle in degrees,
/// normalized to the range 0-360°.
pub fn phase_to_bearing(phase_radians: Single) -> (bearing: Single)
    ensures
        bearing == bearing_of(phase_radians),
        phase_radians.times_spec(constants::of(math::DEGREES_PER_RADIAN)).finite()
            ==> math::in_turn(bearing),
{
    math::one_turn(phase_radians.times(Single::from_bits(math::DEGREES_PER_RADIAN)))
}

/// A bearing is in [0, 360), whatever the phase is, as long as it can be told
/// in degrees.
pub proof fn bearing_is_in_range(phase_radians: Single)
    requires
        phase_radians.times_spec(constants::of(math::DEGREES_PER_RADIAN)).finite(),
    ensures
        math::in_turn(bearing_of(phase_radians)),
{
    math::turn_is_in_range(
        phase_radians.times_spec(constants::of(math::DEGREES_PER_RADIAN)),
    );
}

/// What is wrong with a confidence configuration.
#[derive(Clone, Copy, Debug, PartialEq, Eq, Structural)]
pub enum ConfidenceFault {
    HalfConfidence { half_confidence_deg: Single },
    MinSignalStrength { min_signal_strength: Single },
}

impl ConfidenceFault {
    /// The message of a fault.
    pub open spec fn layout(self) -> error::Layout {
        match self {
            ConfidenceFault::HalfConfidence { half_confidence_deg } => error::with_one(
                "bearing.confidence.half_confidence_deg is "@,
                half_confidence_deg,
                ", must be a finite number greater than 0; it is the uncertainty at which confidence reads one half"@,
            ),
            ConfidenceFault::MinSignalStrength { min_signal_strength } => error::with_one(
                "bearing.confidence.min_signal_strength is "@,
                min_signal_strength,
                ", must be a finite number within [0, 1]; it is the fraction of expected signal below which no bearing is reported"@,
            ),
        }
    }

    /// The message of a fault.
    pub fn template(&self) -> (t: Template)
        ensures
            t@ == self.layout(),
    {
        match *self {
            ConfidenceFault::HalfConfidence { half_confidence_deg } => Template::with_one(
                "bearing.confidence.half_confidence_deg is ",
                half_confidence_deg,
                ", must be a finite number greater than 0; it is the uncertainty at which confidence reads one half",
            ),
            ConfidenceFault::MinSignalStrength { min_signal_strength } => Template::with_one(
                "bearing.confidence.min_signal_strength is ",
                min_signal_strength,
                ", must be a finite number within [0, 1]; it is the fraction of expected signal below which no bearing is reported",
            ),
        }
    }
}

/// The first thing that is wrong with a confidence configuration.
pub open spec fn confidence_fault(config: ConfidenceConfig) -> Option<ConfidenceFault> {
    let zero = constants::of(0);
    if !config.half_confidence_deg.finite() || config.half_confidence_deg.le_spec(zero) {
        Some(
            ConfidenceFault::HalfConfidence { half_confidence_deg: config.half_confidence_deg },
        )
    } else {
        match config.min_signal_strength {
            Some(s) => if !s.finite() || !(zero.le_spec(s) && s.le_spec(
                constants::of(single::ONE_BITS),
            )) {
                Some(ConfidenceFault::MinSignalStrength { min_signal_strength: s })
            } else {
                None
            },
            None => None,
        }
    }
}

/// Reject a confidence configuration that cannot produce a meaningful score.
///
/// Every one of these fails silently rather than loudly. A NaN half point
/// slips past a comparison, because no comparison with NaN is ever true, and
/// yields a NaN confidence. A zero or negative half point scores every bearing
/// zero, so a perfect fix reads as worthless. A NaN signal strength floor
/// disables the verdict, and one above 1.0 closes it permanently.
pub fn validate_confidence_config(config: &ConfidenceConfig) -> (r: Result<(), ConfidenceFault>)
    ensures
        match r {
            Ok(()) => confidence_fault(*config) is None,
            Err(f) => confidence_fault(*config) == Some(f),
        },
{
    let half_confidence_deg: Single = config.half_confidence_deg;
    if !half_confidence_deg.is_finite() || half_confidence_deg.at_most(Single::zero()) {
        return Err(ConfidenceFault::HalfConfidence { half_confidence_deg });
    }
    if let Some(min_signal_strength) = config.min_signal_strength {
        if !min_signal_strength.is_finite() || !min_signal_strength.at_least(Single::zero())
            || !min_signal_strength.at_most(Single::one()) {
            return Err(ConfidenceFault::MinSignalStrength { min_signal_strength });
        }
    }
    Ok(())
}

/// Whether a variance is one: a finite number that is not negative.
pub open spec fn is_variance(v: Single) -> bool {
    v.finite() && constants::of(0).le_spec(v)
}

/// The uncertainty that a spread and a reference stand for.
pub open spec fn uncertainty_spec(
    spread: Option<Single>,
    looks: Single,
    reference: Option<Single>,
) -> Option<Single> {
    match (spread, reference) {
        (Some(s), Some(r)) => if is_variance(s) && is_variance(r) {
            Some(
                s.over_spec(looks).plus_spec(r).sqrt_spec().times_spec(
                    constants::of(math::DEGREES_PER_RADIAN),
                ),
            )
        } else {
            None
        },
        _ => None,
    }
}

/// One-sigma bearing uncertainty, in degrees, from the phase variance of a
/// single look at the Doppler tone, the number of independent looks that were
/// averaged, and the reference they were measured against.
///
/// Two terms in quadrature. Averaging divides the variance of the looks by
/// their number. The reference contributes whole: an error in the tick
/// displaces every look equally.
///
/// Both terms must be known. An unknown one is not a zero one, and treating
/// it as zero is how a confidence score comes to claim certainty it has no
/// basis for. `ConfidenceMetrics::score` maps the resulting None to zero
/// confidence.
pub fn bearing_uncertainty_deg(
    spread: Option<Single>,
    looks: Single,
    north_tick: &NorthTick,
) -> (u: Option<Single>)
    ensures
        u == uncertainty_spec(spread, looks, north_tick.phase_variance),
{
    match (spread, north_tick.phase_variance) {
        (Some(s), Some(r)) => {
            if s.is_finite() && s.at_least(Single::zero()) && r.is_finite() && r.at_least(
                Single::zero(),
            ) {
                Some(
                    s.over(looks).plus(r).sqrt().times(
                        Single::from_bits(math::DEGREES_PER_RADIAN),
                    ),
                )
            } else {
                None
            }
        },
        _ => None,
    }
}

/// Detailed confidence metrics for bearing measurements
#[derive(Debug, Clone, Copy, PartialEq, Eq)]
pub struct ConfidenceMetrics {
    /// Largest positive sample of the filtered Doppler signal, in full-scale
    /// units
    pub tone_peak: Single,
    /// Mean resultant length of the Doppler phase, 0 to 1
    pub resultant_length: Single,
    /// Signal-to-noise ratio in dB
    pub snr_db: Single,
    /// Normalized signal power (0-1)
    pub signal_strength: Single,
    /// Estimated one-sigma uncertainty of this bearing, in degrees, or None
    /// where it cannot be estimated.
    ///
    /// This is precision, not accuracy, and cannot be otherwise: it is built
    /// from how much the estimates disagree, so a displacement they all share
    /// is invisible to it. A mistimed north tick is exactly such a
    /// displacement, which is why the reference contributes its own term
    /// rather than being inferred from the scatter.
    pub bearing_uncertainty_deg: Option<Single>,
}

impl ConfidenceMetrics {
    /// Nothing known.
    pub open spec fn defaults() -> ConfidenceMetrics {
        ConfidenceMetrics {
            tone_peak: constants::of(0),
            resultant_length: constants::of(0),
            snr_db: constants::of(0),
            signal_strength: constants::of(0),
            bearing_uncertainty_deg: None,
        }
    }

    /// The confidence that an uncertainty stands for.
    pub open spec fn score_spec(uncertainty: Option<Single>, config: ConfidenceConfig) -> Single {
        let zero = constants::of(0);
        let one = constants::of(single::ONE_BITS);
        match uncertainty {
            Some(sigma) => if !is_variance(sigma) || config.half_confidence_deg.le_spec(
                constants::of(constants::EPSILON),
            ) {
                zero
            } else {
                let ratio = sigma.over_spec(config.half_confidence_deg);
                one.over_spec(one.plus_spec(ratio.times_spec(ratio)))
            },
            None => zero,
        }
    }

    /// Confidence in this bearing, from 0 to 1.
    ///
    /// A ratio rather than a subtraction, so the score keeps resolution over
    /// the whole range the uncertainty covers instead of bottoming out. At
    /// the configured half-confidence uncertainty it reads 0.5; at twice that
    /// 0.2, at ten times it 0.01.
    ///
    /// An unknown uncertainty scores zero. It is not a claim of a bad
    /// bearing, it is the absence of a claim, and treating that as confident
    /// is how a confidence score becomes dangerous.
    pub fn score(&self, config: &ConfidenceConfig) -> (score: Single)
        ensures
            score == ConfidenceMetrics::score_spec(self.bearing_uncertainty_deg, *config),
    {
        let sigma: Single = match self.bearing_uncertainty_deg {
            Some(sigma) => sigma,
            None => {
                return Single::zero();
            },
        };
        if !sigma.is_finite() || !sigma.at_least(Single::zero())
            || config.half_confidence_deg.at_most(Single::from_bits(constants::EPSILON)) {
            return Single::zero();
        }
        let ratio: Single = sigma.over(config.half_confidence_deg);
        Single::one().over(Single::one().plus(ratio.times(ratio)))
    }
}

/// The square of the ratio that a score is made of.
spec fn ratio_square(sigma: Single, half: Single) -> Single {
    sigma.over_spec(half).times_spec(sigma.over_spec(half))
}

/// A negative zero scores as zero does.
proof fn ratio_square_of_zero(half: Single)
    requires
        single_laws::nonnegative(half),
        half.finite(),
        half.rank() > 0,
    ensures
        ratio_square(constants::of(single::SIGN_BIT), half) == ratio_square(
            constants::of(0),
            half,
        ),
{
    let h = single::HIDDEN as nat;
    let inf = single::INFINITE as nat;
    let u = power2::pow2(single::UNIT as nat);
    power2::lemma_pow2_pos(single::UNIT as nat);
    ieee::pattern_value_increases(h, 0, half.magnitude() as nat);
    let z = half.value() as nat;
    assert(0 * u == 0 && 0 * z == 0 && 0nat * 0nat == 0);
    ieee::nearest_of_value(h, inf, 0, z, 0);
    assert(constants::of(single::SIGN_BIT).over_spec(half) == constants::of(single::SIGN_BIT));
    assert(constants::of(0).over_spec(half) == constants::of(0));
}

/// The laws of the score.
impl ConfidenceMetrics {
    proof fn score_of_ratio(sigma: Single, config: ConfidenceConfig)
        requires
            confidence_fault(config) is None,
            !config.half_confidence_deg.le_spec(constants::of(constants::EPSILON)),
            is_variance(sigma),
        ensures
            ({
                let one = constants::of(single::ONE_BITS);
                let positive = if sigma.negative() {
                    constants::of(0)
                } else {
                    sigma
                };
                &&& single_laws::nonnegative(positive)
                &&& positive.finite()
                &&& positive.rank() == sigma.rank()
                &&& Self::score_spec(Some(sigma), config) == one.over_spec(
                    one.plus_spec(ratio_square(positive, config.half_confidence_deg)),
                )
            }),
    {
        if sigma.negative() {
            assert(sigma == constants::of(single::SIGN_BIT));
            ratio_square_of_zero(config.half_confidence_deg);
        }
    }

    /// Confidence lies between zero and one, and it does not rise as the
    /// uncertainty grows.
    pub proof fn score_falls_with_uncertainty(a: Single, b: Single, config: ConfidenceConfig)
        requires
            confidence_fault(config) is None,
            is_variance(a),
            is_variance(b),
            a.le_spec(b),
        ensures
            Self::score_spec(Some(b), config).le_spec(Self::score_spec(Some(a), config)),
            constants::of(0).le_spec(Self::score_spec(Some(a), config)),
            Self::score_spec(Some(a), config).le_spec(constants::of(single::ONE_BITS)),
    {
        let half = config.half_confidence_deg;
        let one = constants::of(single::ONE_BITS);
        if !half.le_spec(constants::of(constants::EPSILON)) {
            Self::score_of_ratio(a, config);
            Self::score_of_ratio(b, config);
            let x = if a.negative() {
                constants::of(0)
            } else {
                a
            };
            let y = if b.negative() {
                constants::of(0)
            } else {
                b
            };
            single_laws::over_in_order(x, y, half);
            let r = x.over_spec(half);
            let s = y.over_spec(half);
            single_laws::square_in_order(r, s);
            single_laws::plus_in_order(r.times_spec(r), s.times_spec(s), one);
            single_laws::one_over_in_order(
                one.plus_spec(r.times_spec(r)),
                one.plus_spec(s.times_spec(s)),
            );
        }
    }

    /// At the configured uncertainty the confidence reads one half.
    pub proof fn score_at_half_point(config: ConfidenceConfig)
        requires
            confidence_fault(config) is None,
            !config.half_confidence_deg.le_spec(constants::of(constants::EPSILON)),
        ensures
            Self::score_spec(Some(config.half_confidence_deg), config) == constants::of(
                north_agc::HALF,
            ),
    {
        let h = single::HIDDEN as nat;
        let inf = single::INFINITE as nat;
        let one = constants::of(single::ONE_BITS);
        let u = power2::pow2(single::UNIT as nat);
        single_laws::over_itself(config.half_confidence_deg);
        single_laws::one_times(one);
        single_laws::value_of_one();
        power2::lemma2_to64();
        power2::lemma2_to64_rest();
        power2::lemma_pow2_adds(23, 127);
        power2::lemma_pow2_adds(23, 125);
        power2::lemma_pow2_unfold(149);
        power2::lemma_pow2_unfold(150);
        assert(0x4000_0000nat / 0x80_0000nat == 128 && 0x4000_0000nat % 0x80_0000nat == 0);
        assert(0x3f00_0000nat / 0x80_0000nat == 126 && 0x3f00_0000nat % 0x80_0000nat == 0);
        assert(ieee::pattern_value(h, 0x4000_0000) == 2 * u);
        ieee::nearest_of_value(h, inf, 2 * u, 1, 0x4000_0000);
        assert(one.plus_spec(one) == constants::of(math::TWO));
        let v = power2::pow2(148);
        assert(ieee::pattern_value(h, 0x3f00_0000) == v);
        assert(u * u == v * (2 * u)) by (nonlinear_arith)
            requires
                u == 2 * v,
        ;
        ieee::nearest_of_value(h, inf, u * u, 2 * u, 0x3f00_0000);
    }
}

impl Default for ConfidenceMetrics {
    fn default() -> (r: ConfidenceMetrics)
        ensures
            r == ConfidenceMetrics::defaults(),
    {
        ConfidenceMetrics {
            tone_peak: Single::zero(),
            resultant_length: Single::zero(),
            snr_db: Single::zero(),
            signal_strength: Single::zero(),
            bearing_uncertainty_deg: None,
        }
    }
}

/// Bearing measurement result
///
/// Contains a bearing angle measurement with smoothing and confidence metrics.
#[derive(Debug, Clone, Copy, PartialEq, Eq)]
pub struct BearingMeasurement {
    /// Smoothed bearing angle in degrees (0-360)
    pub bearing_degrees: Single,
    /// Raw (unsmoothed) bearing angle in degrees (0-360)
    pub raw_bearing: Single,
    /// Combined confidence metric (0-1 range, higher is better)
    pub confidence: Single,
    /// Whether there is a signal behind the bearing
    pub signal_present: bool,
    /// Detailed confidence metrics breakdown
    pub metrics: ConfidenceMetrics,
}

} // verus!
