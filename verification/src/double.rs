//! IEEE-754 double-precision values, held as their bit patterns.
//!
//! Used where single precision would lose what is being accumulated: long
//! sums, and positions on the sample clock.
use crate::arithmetic;
use crate::ieee;
use crate::single;
use crate::single::Single;
use crate::single_laws;
use vstd::arithmetic::{div_mod, power2};
use vstd::prelude::*;

verus! {

/// Bit pattern of positive infinity; a larger magnitude is a NaN.
pub const INFINITE: u64 = 0x7ff0_0000_0000_0000;

/// The sign bit.
pub const SIGN_BIT: u64 = 0x8000_0000_0000_0000;

/// Bit pattern of the NaN that arithmetic yields.
pub const NAN_BITS: u64 = 0x7ff8_0000_0000_0000;

/// Weight of the hidden bit.
pub const HIDDEN: u64 = 0x10_0000_0000_0000;

/// One is `2^UNIT` times the smallest subnormal.
pub const UNIT: u32 = 1074;

/// How many doublings lie between the smallest subnormals of the two formats.
pub const WIDENING: u32 = 925;

/// How far apart the exponents of a normal number lie in the two formats.
pub const SHIFTED: u32 = 896;

/// A normal number of single precision has the same significand, with more
/// zeros behind it, and a larger exponent.
proof fn normal_widens(m: nat, j: nat)
    requires
        single::HIDDEN <= m < 2 * single::HIDDEN,
        j <= 254,
    ensures
        ieee::nearest(
            HIDDEN as nat,
            INFINITE as nat,
            m * power2::pow2(j) * power2::pow2(WIDENING as nat),
            1,
        ) == (j + SHIFTED) * HIDDEN + m * 0x2000_0000,
{
    let b = ((j + SHIFTED) * HIDDEN + m * 0x2000_0000) as nat;
    assert((j + SHIFTED) * HIDDEN >= 0) by (nonlinear_arith);
    assert(b <= INFINITE) by (nonlinear_arith)
        requires
            b == (j + SHIFTED) * HIDDEN + m * 0x2000_0000,
            0 <= j <= 254,
            m < 2 * single::HIDDEN,
    ;
    ieee::pattern_parts(HIDDEN as nat, j + SHIFTED as nat, m * 0x2000_0000);
    power2::lemma2_to64();
    power2::lemma_pow2_adds(j, SHIFTED as nat);
    power2::lemma_pow2_adds(29, SHIFTED as nat);
    let (p, w) = (power2::pow2(j), power2::pow2(SHIFTED as nat));
    assert((m * 0x2000_0000) * (p * w) == (m * p) * (0x2000_0000 * w)) by (nonlinear_arith);
    ieee::nearest_of_held(HIDDEN as nat, INFINITE as nat, b);
}

/// A double-precision value. Two of them are equal when their bit patterns
/// are.
#[derive(Clone, Copy, Debug, PartialEq, Eq, Structural)]
pub struct Double {
    pub bits: u64,
}

impl Double {
    /// The value without its sign, as a bit pattern.
    pub open spec fn magnitude(self) -> int {
        if self.bits >= SIGN_BIT {
            self.bits - SIGN_BIT
        } else {
            self.bits as int
        }
    }

    pub open spec fn negative(self) -> bool {
        self.bits >= SIGN_BIT
    }

    pub open spec fn nan(self) -> bool {
        self.magnitude() > INFINITE
    }

    pub open spec fn finite(self) -> bool {
        self.magnitude() < INFINITE
    }

    pub open spec fn infinite(self) -> bool {
        self.magnitude() == INFINITE
    }

    /// The position on the number line; the two zeros share rank 0.
    pub open spec fn rank(self) -> int {
        if self.negative() {
            -self.magnitude()
        } else {
            self.magnitude()
        }
    }

    /// `self < other`; false when either is NaN.
    pub open spec fn lt_spec(self, other: Double) -> bool {
        !self.nan() && !other.nan() && self.rank() < other.rank()
    }

    /// The value of a finite number, in units of the smallest subnormal.
    pub open spec fn value(self) -> int {
        arithmetic::signed(HIDDEN, self.negative(), self.magnitude() as u64)
    }

    pub open spec fn of_parts(negative: bool, pattern: nat) -> Double {
        if negative {
            Double { bits: (pattern + SIGN_BIT) as u64 }
        } else {
            Double { bits: pattern as u64 }
        }
    }

    /// The number nearest to `n / d` units, with a sign.
    pub open spec fn rounded(negative: bool, n: nat, d: nat) -> Double {
        Self::of_parts(negative, ieee::nearest(HIDDEN as nat, INFINITE as nat, n, d))
    }

    pub open spec fn not_a_number() -> Double {
        Double { bits: NAN_BITS }
    }

    pub open spec fn neg_spec(self) -> Double {
        if self.negative() {
            Double { bits: (self.bits - SIGN_BIT) as u64 }
        } else {
            Double { bits: (self.bits + SIGN_BIT) as u64 }
        }
    }

    pub open spec fn abs_spec(self) -> Double {
        Double { bits: self.magnitude() as u64 }
    }

    pub open spec fn plus_spec(self, other: Double) -> Double {
        if self.nan() || other.nan() {
            Self::not_a_number()
        } else if self.infinite() {
            if other.infinite() && self.negative() != other.negative() {
                Self::not_a_number()
            } else {
                self
            }
        } else if other.infinite() {
            other
        } else {
            let s = self.value() + other.value();
            Self::rounded(
                if s == 0 {
                    self.negative() && other.negative()
                } else {
                    s < 0
                },
                arithmetic::magnitude(s),
                1,
            )
        }
    }

    pub open spec fn minus_spec(self, other: Double) -> Double {
        self.plus_spec(other.neg_spec())
    }

    pub open spec fn times_spec(self, other: Double) -> Double {
        let negative = self.negative() != other.negative();
        if self.nan() || other.nan() {
            Self::not_a_number()
        } else if self.infinite() || other.infinite() {
            if self.magnitude() == 0 || other.magnitude() == 0 {
                Self::not_a_number()
            } else {
                Self::of_parts(negative, INFINITE as nat)
            }
        } else {
            Self::rounded(
                negative,
                arithmetic::magnitude(self.value()) * arithmetic::magnitude(other.value()),
                power2::pow2(UNIT as nat),
            )
        }
    }

    pub open spec fn over_spec(self, other: Double) -> Double {
        let negative = self.negative() != other.negative();
        if self.nan() || other.nan() {
            Self::not_a_number()
        } else if self.infinite() {
            if other.infinite() {
                Self::not_a_number()
            } else {
                Self::of_parts(negative, INFINITE as nat)
            }
        } else if other.infinite() {
            Self::of_parts(negative, 0)
        } else if other.magnitude() == 0 {
            if self.magnitude() == 0 {
                Self::not_a_number()
            } else {
                Self::of_parts(negative, INFINITE as nat)
            }
        } else {
            Self::rounded(
                negative,
                arithmetic::magnitude(self.value()) * power2::pow2(UNIT as nat),
                arithmetic::magnitude(other.value()),
            )
        }
    }

    /// The remainder of a division, with the sign of the dividend.
    pub open spec fn rem_spec(self, other: Double) -> Double {
        if self.nan() || other.nan() || self.infinite() || other.magnitude() == 0 {
            Self::not_a_number()
        } else if other.infinite() {
            self
        } else {
            Self::rounded(
                self.negative(),
                arithmetic::magnitude(self.value()) % arithmetic::magnitude(other.value()),
                1,
            )
        }
    }

    /// The remainder that is not negative.
    pub open spec fn rem_euclid_spec(self, other: Double) -> Double {
        let r = self.rem_spec(other);
        if r.lt_spec(Double { bits: 0 }) {
            r.plus_spec(other.abs_spec())
        } else {
            r
        }
    }

    /// A single-precision number, which every double can hold.
    pub open spec fn from_single_spec(x: Single) -> Double {
        if x.nan() {
            Self::not_a_number()
        } else if x.infinite() {
            Self::of_parts(x.negative(), INFINITE as nat)
        } else {
            Self::rounded(
                x.negative(),
                arithmetic::magnitude(x.value()) * power2::pow2(WIDENING as nat),
                1,
            )
        }
    }

    /// The nearest single-precision number.
    pub open spec fn to_single_spec(self) -> Single {
        if self.nan() {
            Single::not_a_number()
        } else if self.infinite() {
            Single::of_parts(self.negative(), single::INFINITE as nat)
        } else {
            Single::rounded(
                self.negative(),
                arithmetic::magnitude(self.value()),
                power2::pow2(WIDENING as nat),
            )
        }
    }

    /// A count, rounded to the nearest number.
    pub open spec fn from_count_spec(n: nat) -> Double {
        Self::from_integer_spec(n as int)
    }

    /// The integer nearest to the magnitude of a finite number, halves away
    /// from zero.
    pub open spec fn nearest_integer(self) -> nat {
        (arithmetic::magnitude(self.value()) / power2::pow2((UNIT - 1) as nat) + 1) / 2
    }

    /// The nearest integer as a count: zero for NaNs and below zero, the
    /// largest count above it.
    pub open spec fn round_count_spec(self) -> nat {
        if self.nan() || self.negative() {
            0
        } else if self.infinite() || self.nearest_integer() > usize::MAX {
            usize::MAX as nat
        } else {
            self.nearest_integer()
        }
    }

    pub fn from_bits(bits: u64) -> (value: Double)
        ensures
            value.bits == bits,
    {
        Double { bits }
    }

    pub fn to_bits(self) -> (bits: u64)
        ensures
            bits == self.bits,
    {
        self.bits
    }

    /// Positive zero.
    pub fn zero() -> (value: Double)
        ensures
            value.bits == 0,
    {
        Double { bits: 0 }
    }

    fn magnitude_bits(self) -> (m: u64)
        ensures
            m == self.magnitude(),
    {
        if self.bits >= SIGN_BIT {
            self.bits - SIGN_BIT
        } else {
            self.bits
        }
    }

    pub fn is_nan(self) -> (b: bool)
        ensures
            b == self.nan(),
    {
        self.magnitude_bits() > INFINITE
    }

    pub fn is_finite(self) -> (b: bool)
        ensures
            b == self.finite(),
    {
        self.magnitude_bits() < INFINITE
    }

    pub fn is_infinite(self) -> (b: bool)
        ensures
            b == self.infinite(),
    {
        self.magnitude_bits() == INFINITE
    }

    pub fn is_negative(self) -> (b: bool)
        ensures
            b == self.negative(),
    {
        self.bits >= SIGN_BIT
    }

    /// Whether `self < other`.
    pub fn less_than(self, other: Double) -> (b: bool)
        ensures
            b == self.lt_spec(other),
    {
        let x: i128 = if self.is_negative() {
            -(self.magnitude_bits() as i128)
        } else {
            self.magnitude_bits() as i128
        };
        let y: i128 = if other.is_negative() {
            -(other.magnitude_bits() as i128)
        } else {
            other.magnitude_bits() as i128
        };
        !self.is_nan() && !other.is_nan() && x < y
    }

    /// The value with its sign flipped.
    pub fn negated(self) -> (r: Double)
        ensures
            r == self.neg_spec(),
    {
        if self.bits >= SIGN_BIT {
            Double { bits: self.bits - SIGN_BIT }
        } else {
            Double { bits: self.bits + SIGN_BIT }
        }
    }

    /// The value without its sign.
    pub fn abs(self) -> (r: Double)
        ensures
            r == self.abs_spec(),
    {
        Double { bits: self.magnitude_bits() }
    }

    fn assembled(negative: bool, pattern: u64) -> (r: Double)
        requires
            pattern <= INFINITE,
        ensures
            r == Self::of_parts(negative, pattern as nat),
    {
        if negative {
            Double { bits: pattern + SIGN_BIT }
        } else {
            Double { bits: pattern }
        }
    }

    /// `self + other`.
    pub fn plus(self, other: Double) -> (r: Double)
        ensures
            r == self.plus_spec(other),
    {
        if self.is_nan() || other.is_nan() {
            return Double { bits: NAN_BITS };
        }
        if self.is_infinite() {
            if other.is_infinite() && self.is_negative() != other.is_negative() {
                return Double { bits: NAN_BITS };
            }
            return self;
        }
        if other.is_infinite() {
            return other;
        }
        let (negative, pattern) = arithmetic::sum(
            HIDDEN,
            INFINITE,
            self.is_negative(),
            self.magnitude_bits(),
            other.is_negative(),
            other.magnitude_bits(),
        );
        Self::assembled(negative, pattern)
    }

    /// `self - other`.
    pub fn minus(self, other: Double) -> (r: Double)
        ensures
            r == self.minus_spec(other),
    {
        self.plus(other.negated())
    }

    /// `self * other`.
    pub fn times(self, other: Double) -> (r: Double)
        ensures
            r == self.times_spec(other),
    {
        let negative: bool = self.is_negative() != other.is_negative();
        if self.is_nan() || other.is_nan() {
            return Double { bits: NAN_BITS };
        }
        let a: u64 = self.magnitude_bits();
        let b: u64 = other.magnitude_bits();
        if self.is_infinite() || other.is_infinite() {
            if a == 0 || b == 0 {
                return Double { bits: NAN_BITS };
            }
            return Self::assembled(negative, INFINITE);
        }
        Self::assembled(negative, arithmetic::product(HIDDEN, INFINITE, UNIT, a, b))
    }

    /// `self / other`.
    pub fn over(self, other: Double) -> (r: Double)
        ensures
            r == self.over_spec(other),
    {
        let negative: bool = self.is_negative() != other.is_negative();
        if self.is_nan() || other.is_nan() {
            return Double { bits: NAN_BITS };
        }
        let a: u64 = self.magnitude_bits();
        let b: u64 = other.magnitude_bits();
        if self.is_infinite() {
            if other.is_infinite() {
                return Double { bits: NAN_BITS };
            }
            return Self::assembled(negative, INFINITE);
        }
        if other.is_infinite() {
            return Self::assembled(negative, 0);
        }
        if b == 0 {
            if a == 0 {
                return Double { bits: NAN_BITS };
            }
            return Self::assembled(negative, INFINITE);
        }
        Self::assembled(negative, arithmetic::quotient(HIDDEN, INFINITE, UNIT, a, b))
    }

    /// The remainder of a division, with the sign of the dividend.
    pub fn rem(self, other: Double) -> (r: Double)
        ensures
            r == self.rem_spec(other),
    {
        let a: u64 = self.magnitude_bits();
        let b: u64 = other.magnitude_bits();
        if self.is_nan() || other.is_nan() || self.is_infinite() || b == 0 {
            return Double { bits: NAN_BITS };
        }
        if other.is_infinite() {
            return self;
        }
        let r: u64 = arithmetic::remainder(HIDDEN, a, b);
        proof {
            ieee::nearest_of_held(HIDDEN as nat, INFINITE as nat, r as nat);
        }
        Self::assembled(self.is_negative(), r)
    }

    /// The remainder that is not negative.
    pub fn rem_euclid(self, other: Double) -> (r: Double)
        ensures
            r == self.rem_euclid_spec(other),
    {
        let r: Double = self.rem(other);
        if r.less_than(Double::zero()) {
            r.plus(other.abs())
        } else {
            r
        }
    }

    /// A single-precision number, which every double can hold.
    pub fn from_single(x: Single) -> (r: Double)
        ensures
            r == Self::from_single_spec(x),
    {
        if x.is_nan() {
            return Double { bits: NAN_BITS };
        }
        if x.is_infinite() {
            return Self::assembled(x.is_negative(), INFINITE);
        }
        let (m, j) = arithmetic::unpack(single::HIDDEN, x.abs().to_bits() as u64);
        if m >= single::HIDDEN {
            // A normal number keeps its significand.
            proof {
                assert(0 <= (j + SHIFTED) * HIDDEN <= (254 + SHIFTED) * HIDDEN)
                    by (nonlinear_arith)
                    requires
                        0 <= j <= 254,
                ;
                normal_widens(m as nat, j as nat);
            }
            let b: u64 = (j as u64 + SHIFTED as u64) * HIDDEN + m * 0x2000_0000;
            return Self::assembled(x.is_negative(), b);
        }
        let e: i32 = j as i32 + WIDENING as i32;
        let b: u64 = ieee::round_pattern(HIDDEN, INFINITE, m as u128, e, false);
        proof {
            let v = arithmetic::magnitude(x.value());
            let w = power2::pow2(WIDENING as nat);
            let pj = power2::pow2(j as nat);
            power2::lemma_pow2_adds(j as nat, WIDENING as nat);
            power2::lemma2_to64();
            assert(1 * (m as nat) * (pj * w) == (v * w) * 1) by (nonlinear_arith)
                requires
                    v == m * pj,
            ;
            ieee::scaled_nearest_to_ratio(
                HIDDEN as nat,
                INFINITE as nat,
                m as nat,
                e as int,
                false,
                b as nat,
                v * w,
                1,
            );
        }
        Self::assembled(x.is_negative(), b)
    }

    /// The nearest single-precision number.
    pub fn to_single(self) -> (r: Single)
        ensures
            r == self.to_single_spec(),
    {
        if self.is_nan() {
            return Single::from_bits(single::NAN_BITS);
        }
        let pattern: u64 = if self.is_infinite() {
            single::INFINITE
        } else {
            let (m, j) = arithmetic::unpack(HIDDEN, self.magnitude_bits());
            let e: i32 = j as i32 - WIDENING as i32;
            let b: u64 = ieee::round_pattern(
                single::HIDDEN,
                single::INFINITE,
                m as u128,
                e,
                false,
            );
            proof {
                let v = arithmetic::magnitude(self.value());
                let d = power2::pow2(WIDENING as nat);
                let pj = power2::pow2(j as nat);
                let f = power2::pow2(ieee::up(e as int));
                let g = power2::pow2(ieee::up(-(e as int)));
                power2::lemma_pow2_pos(WIDENING as nat);
                power2::lemma_pow2_adds(WIDENING as nat, ieee::up(e as int));
                power2::lemma_pow2_adds(j as nat, ieee::up(-(e as int)));
                assert(d * (m as nat) * f == v * g) by (nonlinear_arith)
                    requires
                        v == m * pj,
                        pj * g == d * f,
                ;
                ieee::scaled_nearest_to_ratio(
                    single::HIDDEN as nat,
                    single::INFINITE as nat,
                    m as nat,
                    e as int,
                    false,
                    b as nat,
                    v,
                    d,
                );
            }
            b
        };
        let r: Single = Single::from_bits(pattern as u32);
        if self.is_negative() {
            r.negated()
        } else {
            r
        }
    }

    /// A count, rounded to the nearest number.
    pub fn from_count(n: usize) -> (r: Double)
        ensures
            r == Self::from_count_spec(n as nat),
    {
        Self::assembled(false, arithmetic::from_integer(HIDDEN, INFINITE, UNIT, n as u64))
    }

    /// The nearest integer as a count.
    pub fn round_count(self) -> (n: usize)
        ensures
            n == self.round_count_spec(),
    {
        if self.is_nan() || self.is_negative() {
            return 0;
        }
        if self.is_infinite() {
            return usize::MAX;
        }
        let (halves, _) = arithmetic::integer_part(HIDDEN, self.magnitude_bits(), UNIT - 1);
        let n: u128 = (halves + 1) / 2;
        if n > usize::MAX as u128 {
            usize::MAX
        } else {
            n as usize
        }
    }
}

impl Double {
    /// `self <= other`; false when either is NaN.
    pub open spec fn le_spec(self, other: Double) -> bool {
        !self.nan() && !other.nan() && self.rank() <= other.rank()
    }

    /// The larger of two numbers; a NaN gives way to the other one.
    pub open spec fn max_spec(self, other: Double) -> Double {
        if self.nan() || self.lt_spec(other) {
            other
        } else {
            self
        }
    }

    /// The smaller of two numbers; a NaN gives way to the other one.
    pub open spec fn min_spec(self, other: Double) -> Double {
        if self.nan() || other.lt_spec(self) {
            other
        } else {
            self
        }
    }

    /// An integer, rounded to the nearest number.
    pub open spec fn from_integer_spec(n: int) -> Double {
        Self::rounded(n < 0, arithmetic::magnitude(n) * power2::pow2(UNIT as nat), 1)
    }

    /// Whether `self <= other`.
    pub fn at_most(self, other: Double) -> (b: bool)
        ensures
            b == self.le_spec(other),
    {
        !self.is_nan() && !other.is_nan() && !other.less_than(self)
    }

    /// The larger of two numbers.
    pub fn max(self, other: Double) -> (r: Double)
        ensures
            r == self.max_spec(other),
    {
        if self.is_nan() || self.less_than(other) {
            other
        } else {
            self
        }
    }

    /// The smaller of two numbers.
    pub fn min(self, other: Double) -> (r: Double)
        ensures
            r == self.min_spec(other),
    {
        if self.is_nan() || other.less_than(self) {
            other
        } else {
            self
        }
    }

    /// An index, rounded to the nearest number.
    pub fn from_index(n: i128) -> (r: Double)
        requires
            -(u64::MAX as int) <= n <= u64::MAX,
        ensures
            r == Self::from_integer_spec(n as int),
    {
        if n < 0 {
            let m: u64 = (-n) as u64;
            Self::assembled(true, arithmetic::from_integer(HIDDEN, INFINITE, UNIT, m))
        } else {
            Self::assembled(false, arithmetic::from_integer(HIDDEN, INFINITE, UNIT, n as u64))
        }
    }
}

/// The pattern of `2^53`: from there on every number is an integer.
pub const WHOLE_BITS: u64 = 0x4340_0000_0000_0000;

impl Double {
    /// The position in the total order that also places the zeros and NaNs:
    /// every pattern with the sign bit set lies below every one without it.
    pub open spec fn total_rank(self) -> int {
        if self.bits >= SIGN_BIT {
            -self.magnitude() - 1
        } else {
            self.magnitude()
        }
    }

    /// Whether `self` precedes `other` in the total order.
    pub fn total_less_than(self, other: Double) -> (b: bool)
        ensures
            b == (self.total_rank() < other.total_rank()),
    {
        let a: i128 = if self.bits >= SIGN_BIT {
            -(self.magnitude_bits() as i128) - 1
        } else {
            self.magnitude_bits() as i128
        };
        let b: i128 = if other.bits >= SIGN_BIT {
            -(other.magnitude_bits() as i128) - 1
        } else {
            other.magnitude_bits() as i128
        };
        a < b
    }

    /// `self > other`; false when either is NaN.
    pub fn above(self, other: Double) -> (b: bool)
        ensures
            b == other.lt_spec(self),
    {
        other.less_than(self)
    }

    /// `self >= other`; false when either is NaN.
    pub fn at_least(self, other: Double) -> (b: bool)
        ensures
            b == other.le_spec(self),
    {
        other.at_most(self)
    }

    /// Rounding to an integer, halves away from zero.
    pub open spec fn round_spec(self) -> Double {
        if !self.finite() || self.magnitude() >= WHOLE_BITS {
            self
        } else {
            Self::rounded(
                self.negative(),
                self.nearest_integer() * power2::pow2(UNIT as nat),
                1,
            )
        }
    }

    /// Below `2^53` the number of halves is small.
    proof fn below_whole(self)
        requires
            self.magnitude() < WHOLE_BITS,
        ensures
            arithmetic::magnitude(self.value()) / power2::pow2((UNIT - 1) as nat)
                <= 0x40_0000_0000_0000,
    {
        let h = HIDDEN as nat;
        let v = arithmetic::magnitude(self.value());
        ieee::pattern_value_increases(h, self.magnitude() as nat, WHOLE_BITS as nat);
        // WHOLE_BITS is exponent 1075, significand one hidden bit.
        ieee::pattern_parts(h, 1075, h);
        power2::lemma2_to64();
        let d = power2::pow2(1073);
        power2::lemma_pow2_adds(2, 1073);
        power2::lemma_pow2_pos(1073);
        assert(v <= 0x40_0000_0000_0000 * d) by (nonlinear_arith)
            requires
                v <= h * (4 * d),
                h == 0x10_0000_0000_0000,
        ;
        div_mod::lemma_div_is_ordered(
            v as int,
            (0x40_0000_0000_0000 * d) as int,
            d as int,
        );
        div_mod::lemma_div_by_multiple(0x40_0000_0000_0000, d as int);
    }

    /// Rounding to an integer, halves away from zero.
    pub fn round(self) -> (r: Double)
        ensures
            r == self.round_spec(),
    {
        let a: u64 = self.magnitude_bits();
        if a >= WHOLE_BITS {
            return self;
        }
        let (halves, _) = arithmetic::integer_part(HIDDEN, a, UNIT - 1);
        proof {
            self.below_whole();
        }
        let n: u128 = (halves + 1) / 2;
        Self::assembled(
            self.is_negative(),
            arithmetic::from_integer(HIDDEN, INFINITE, UNIT, n as u64),
        )
    }

    /// The integer part of the magnitude of a finite number.
    pub open spec fn whole_part(self) -> nat {
        arithmetic::magnitude(self.value()) / power2::pow2(UNIT as nat)
    }

    /// The integer part as a count: zero for NaNs and below zero, the largest
    /// count above it.
    pub open spec fn to_count_spec(self) -> nat {
        if self.nan() || self.negative() {
            0
        } else if self.infinite() || self.whole_part() > usize::MAX {
            usize::MAX as nat
        } else {
            self.whole_part()
        }
    }

    /// The integer part as a count.
    pub fn to_count(self) -> (n: usize)
        ensures
            n == self.to_count_spec(),
    {
        if self.is_nan() || self.is_negative() {
            return 0;
        }
        if self.is_infinite() {
            return usize::MAX;
        }
        let (whole, _) = arithmetic::integer_part(HIDDEN, self.magnitude_bits(), UNIT);
        if whole > usize::MAX as u128 {
            usize::MAX
        } else {
            whole as usize
        }
    }

    pub open spec fn sqrt_spec(self) -> Double {
        if self.nan() {
            Self::not_a_number()
        } else if self.magnitude() == 0 {
            self
        } else if self.negative() {
            Self::not_a_number()
        } else if self.infinite() {
            self
        } else {
            Self::of_parts(
                false,
                arithmetic::nearest_root(
                    HIDDEN as nat,
                    INFINITE as nat,
                    arithmetic::magnitude(self.value()) * power2::pow2(UNIT as nat),
                ),
            )
        }
    }

    /// The square root.
    pub fn sqrt(self) -> (r: Double)
        ensures
            r == self.sqrt_spec(),
    {
        if self.is_nan() {
            return Double { bits: NAN_BITS };
        }
        let a: u64 = self.magnitude_bits();
        if a == 0 {
            return self;
        }
        if self.is_negative() {
            return Double { bits: NAN_BITS };
        }
        if self.is_infinite() {
            return self;
        }
        Self::assembled(false, arithmetic::square_root(HIDDEN, INFINITE, UNIT, a))
    }
}

/// What rounding a position to a count takes off it is at most one half.
pub proof fn counted_off(x: Double)
    requires
        x.finite(),
        x.value() >= 0,
        x.round_count_spec() < usize::MAX,
    ensures
        Double::from_count_spec(x.round_count_spec()).finite(),
        Double::from_count_spec(x.round_count_spec()).value() == x.round_count_spec()
            * power2::pow2(UNIT as nat),
        -power2::pow2((UNIT - 1) as nat) <= x.value() - x.round_count_spec() * power2::pow2(
            UNIT as nat,
        ) <= power2::pow2((UNIT - 1) as nat),
        x.minus_spec(Double::from_count_spec(x.round_count_spec())).to_single_spec().finite(),
        x.minus_spec(
            Double::from_count_spec(x.round_count_spec()),
        ).to_single_spec().magnitude() <= 0x3f00_0000,
{
    let h = HIDDEN as nat;
    let inf = INFINITE as nat;
    let p = power2::pow2((UNIT - 1) as nat);
    let u = power2::pow2(UNIT as nat);
    let v = x.value() as nat;
    let n = x.round_count_spec();
    let c = Double::from_count_spec(n);
    power2::lemma2_to64();
    power2::lemma2_to64_rest();
    power2::lemma_pow2_unfold(UNIT as nat);
    power2::lemma_pow2_pos((UNIT - 1) as nat);
    ieee::pattern_value_increases(h, 0, x.magnitude() as nat);
    single_laws::nearest_integer_is_near(v, p);
    let (j, k) = ieee::pattern_split(h, x.magnitude() as nat);
    ieee::pattern_parts(h, j, k);
    if x.negative() {
        assert(v == 0 && x.magnitude() == 0);
        assert(0nat / p == 0) by {
            div_mod::lemma_div_basics_1(p as int);
        }
        assert(0 * (2 * p) == 0);
    }
    if j >= UNIT {
        let g = power2::pow2((j - UNIT) as nat);
        power2::lemma_pow2_adds((j - UNIT) as nat, UNIT as nat);
        let w = k * g;
        assert(v == p * (2 * w)) by (nonlinear_arith)
            requires
                v == k * (g * u),
                u == 2 * p,
                w == k * g,
        ;
        assert(p * (2 * w) == (2 * w) * p) by (nonlinear_arith);
        div_mod::lemma_fundamental_div_mod_converse(v as int, p as int, (2 * w) as int, 0);
        assert(n == w);
        assert(n * u == v) by (nonlinear_arith)
            requires
                v == p * (2 * n),
                u == 2 * p,
        ;
        ieee::nearest_of_held(h, inf, x.magnitude() as nat);
        assert(c == x);
    } else {
        let q = power2::pow2((UNIT - 1) as nat);
        if j < UNIT - 1 {
            power2::lemma_pow2_strictly_increases(j, (UNIT - 1) as nat);
        }
        assert(v < (2 * h) * q) by (nonlinear_arith)
            requires
                v == k * power2::pow2(j),
                k < 2 * h,
                power2::pow2(j) <= q,
                q > 0,
        ;
        assert(n <= 2 * h) by (nonlinear_arith)
            requires
                n * (2 * p) <= v + p,
                v < (2 * h) * p,
                p > 0,
                h > 0,
        ;
        assert(0 < n ==> n * power2::pow2(52) >= h) by (nonlinear_arith)
            requires
                power2::pow2(52) == h,
        ;
        single_laws::whole_number_is_held(h, inf, n, UNIT as nat, 52);
        assert(c.magnitude() < inf) by {
            if c.magnitude() == inf {
                single_laws::power_pattern_value(h, 52, 1128);
                ieee::pattern_value_increases(h, single_laws::power_pattern(h, 52, 1128), inf);
                power2::lemma_pow2_adds(54, UNIT as nat);
                assert(n * u < power2::pow2(54) * u) by (nonlinear_arith)
                    requires
                        n < power2::pow2(54),
                        u > 0,
                ;
            }
        }
    }
    assert(c.value() == n * u);
    assert(c.neg_spec().value() == -c.value());
    assert(n * (2 * p) == n * u);
    let s = v - n * u;
    let d = x.minus_spec(c);
    let m = arithmetic::magnitude(s);
    single_laws::power_pattern_value(h, 52, (UNIT - 1) as nat);
    let top = single_laws::power_pattern(h, 52, (UNIT - 1) as nat);
    ieee::nearest_exists(h, inf, m, 1);
    ieee::nearest_at_most(h, inf, m, 1, top);
    assert(d.finite() && d.magnitude() <= top);
    ieee::pattern_value_increases(h, d.magnitude() as nat, top);
    ieee::pattern_value_increases(h, 0, d.magnitude() as nat);
    power2::lemma_pow2_adds(148, WIDENING as nat);
    power2::lemma_pow2_pos(WIDENING as nat);
    single_laws::rounded_within(
        d.negative(),
        arithmetic::magnitude(d.value()),
        power2::pow2(WIDENING as nat),
        148,
    );
}

} // verus!
