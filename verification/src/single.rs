//! IEEE-754 single-precision values, held as their bit patterns.
//!
//! Comparing, selecting and moving values is exact on the bit pattern. The
//! arithmetic rounds to nearest, ties to even, in software, so results do not
//! depend on the machine. NaNs that arise here all have the same pattern.
use crate::arithmetic;
use crate::ieee;
use vstd::arithmetic::power2;
use vstd::prelude::*;

verus! {

/// Bit pattern of positive infinity; a larger magnitude is a NaN.
pub const INFINITY_BITS: u32 = 0x7f80_0000;

/// The sign bit.
pub const SIGN_BIT: u32 = 0x8000_0000;

/// Bit pattern of one.
pub const ONE_BITS: u32 = 0x3f80_0000;

/// Bit pattern of the NaN that arithmetic yields.
pub const NAN_BITS: u32 = 0x7fc0_0000;

/// Weight of the hidden bit.
pub const HIDDEN: u64 = 0x80_0000;

/// `INFINITY_BITS` as a pattern.
pub const INFINITE: u64 = 0x7f80_0000;

/// One is `2^UNIT` times the smallest subnormal.
pub const UNIT: u32 = 149;

/// Bit pattern of `2^24`: from there on every number is an integer.
pub const WHOLE_BITS: u32 = 0x4b80_0000;

/// A single-precision value. Two of them are equal when their bit patterns
/// are: `equals` is the numeric comparison.
#[derive(Clone, Copy, Debug, PartialEq, Eq, Structural)]
pub struct Single {
    pub bits: u32,
}

impl Single {
    /// The value without its sign, as a bit pattern.
    pub open spec fn magnitude(self) -> int {
        if self.bits >= SIGN_BIT {
            self.bits - SIGN_BIT
        } else {
            self.bits as int
        }
    }

    pub open spec fn nan(self) -> bool {
        self.magnitude() > INFINITY_BITS
    }

    pub open spec fn finite(self) -> bool {
        self.magnitude() < INFINITY_BITS
    }

    /// The position of the value on the number line: of two values that are
    /// not NaN the one with the smaller rank is the smaller one, and the two
    /// zeros share rank 0.
    pub open spec fn rank(self) -> int {
        if self.bits >= SIGN_BIT {
            -self.magnitude()
        } else {
            self.magnitude()
        }
    }

    /// The position in the total order that also places the zeros and NaNs:
    /// every pattern with the sign bit set lies below every one without it.
    pub open spec fn total_rank(self) -> int {
        if self.bits >= SIGN_BIT {
            -self.magnitude() - 1
        } else {
            self.magnitude()
        }
    }

    /// `self < other`; false when either is NaN.
    pub open spec fn lt_spec(self, other: Single) -> bool {
        !self.nan() && !other.nan() && self.rank() < other.rank()
    }

    /// `self <= other`; false when either is NaN.
    pub open spec fn le_spec(self, other: Single) -> bool {
        !self.nan() && !other.nan() && self.rank() <= other.rank()
    }

    /// `self == other`, numerically: the zeros are equal, a NaN is equal to
    /// nothing.
    pub open spec fn same_value(self, other: Single) -> bool {
        !self.nan() && !other.nan() && self.rank() == other.rank()
    }

    pub open spec fn abs_spec(self) -> Single {
        Single { bits: self.magnitude() as u32 }
    }

    pub open spec fn neg_spec(self) -> Single {
        if self.bits >= SIGN_BIT {
            Single { bits: (self.bits - SIGN_BIT) as u32 }
        } else {
            Single { bits: (self.bits + SIGN_BIT) as u32 }
        }
    }

    pub open spec fn negative(self) -> bool {
        self.bits >= SIGN_BIT
    }

    pub open spec fn infinite(self) -> bool {
        self.magnitude() == INFINITY_BITS
    }

    /// The value of a finite number, in units of the smallest subnormal.
    pub open spec fn value(self) -> int {
        arithmetic::signed(HIDDEN, self.negative(), self.magnitude() as u64)
    }

    /// The number with a sign and a magnitude pattern.
    pub open spec fn of_parts(negative: bool, pattern: nat) -> Single {
        if negative {
            Single { bits: (pattern + SIGN_BIT) as u32 }
        } else {
            Single { bits: pattern as u32 }
        }
    }

    /// The number nearest to `n / d` units, with a sign.
    pub open spec fn rounded(negative: bool, n: nat, d: nat) -> Single {
        Self::of_parts(negative, ieee::nearest(HIDDEN as nat, INFINITE as nat, n, d))
    }

    pub open spec fn not_a_number() -> Single {
        Single { bits: NAN_BITS }
    }

    pub open spec fn plus_spec(self, other: Single) -> Single {
        if self.nan() || other.nan() {
            Self::not_a_number()
        } else if self.infinite() {
            if other.infinite() && self.negative() != other.negative() {
                Self::not_a_number()
            } else {
                self
            }
        } else if other.infinite() {
            other
        } else {
            let s = self.value() + other.value();
            Self::rounded(
                if s == 0 {
                    self.negative() && other.negative()
                } else {
                    s < 0
                },
                arithmetic::magnitude(s),
                1,
            )
        }
    }

    pub open spec fn minus_spec(self, other: Single) -> Single {
        self.plus_spec(other.neg_spec())
    }

    pub open spec fn times_spec(self, other: Single) -> Single {
        let negative = self.negative() != other.negative();
        if self.nan() || other.nan() {
            Self::not_a_number()
        } else if self.infinite() || other.infinite() {
            if self.magnitude() == 0 || other.magnitude() == 0 {
                Self::not_a_number()
            } else {
                Self::of_parts(negative, INFINITE as nat)
            }
        } else {
            Self::rounded(
                negative,
                arithmetic::magnitude(self.value()) * arithmetic::magnitude(other.value()),
                power2::pow2(UNIT as nat),
            )
        }
    }

    pub open spec fn over_spec(self, other: Single) -> Single {
        let negative = self.negative() != other.negative();
        if self.nan() || other.nan() {
            Self::not_a_number()
        } else if self.infinite() {
            if other.infinite() {
                Self::not_a_number()
            } else {
                Self::of_parts(negative, INFINITE as nat)
            }
        } else if other.infinite() {
            Self::of_parts(negative, 0)
        } else if other.magnitude() == 0 {
            if self.magnitude() == 0 {
                Self::not_a_number()
            } else {
                Self::of_parts(negative, INFINITE as nat)
            }
        } else {
            Self::rounded(
                negative,
                arithmetic::magnitude(self.value()) * power2::pow2(UNIT as nat),
                arithmetic::magnitude(other.value()),
            )
        }
    }

    pub open spec fn sqrt_spec(self) -> Single {
        if self.nan() {
            Self::not_a_number()
        } else if self.magnitude() == 0 {
            self
        } else if self.negative() {
            Self::not_a_number()
        } else if self.infinite() {
            self
        } else {
            Self::of_parts(
                false,
                arithmetic::nearest_root(
                    HIDDEN as nat,
                    INFINITE as nat,
                    arithmetic::magnitude(self.value()) * power2::pow2(UNIT as nat),
                ),
            )
        }
    }

    pub fn from_bits(bits: u32) -> (value: Single)
        ensures
            value.bits == bits,
    {
        Single { bits }
    }

    pub fn to_bits(self) -> (bits: u32)
        ensures
            bits == self.bits,
    {
        self.bits
    }

    /// Positive zero.
    pub fn zero() -> (value: Single)
        ensures
            value.bits == 0,
    {
        Single { bits: 0 }
    }

    /// One.
    pub fn one() -> (value: Single)
        ensures
            value.bits == ONE_BITS,
    {
        Single { bits: ONE_BITS }
    }

    fn magnitude_bits(self) -> (m: u32)
        ensures
            m == self.magnitude(),
    {
        if self.bits >= SIGN_BIT {
            self.bits - SIGN_BIT
        } else {
            self.bits
        }
    }

    fn rank_of(self) -> (r: i64)
        ensures
            r == self.rank(),
    {
        let m: u32 = self.magnitude_bits();
        if self.bits >= SIGN_BIT {
            -(m as i64)
        } else {
            m as i64
        }
    }

    pub fn is_nan(self) -> (b: bool)
        ensures
            b == self.nan(),
    {
        self.magnitude_bits() > INFINITY_BITS
    }

    pub fn is_finite(self) -> (b: bool)
        ensures
            b == self.finite(),
    {
        self.magnitude_bits() < INFINITY_BITS
    }

    /// Whether `self < other`.
    pub fn less_than(self, other: Single) -> (b: bool)
        ensures
            b == self.lt_spec(other),
    {
        !self.is_nan() && !other.is_nan() && self.rank_of() < other.rank_of()
    }

    /// Whether `self <= other`.
    pub fn at_most(self, other: Single) -> (b: bool)
        ensures
            b == self.le_spec(other),
    {
        !self.is_nan() && !other.is_nan() && self.rank_of() <= other.rank_of()
    }

    /// Whether `self > other`.
    pub fn above(self, other: Single) -> (b: bool)
        ensures
            b == other.lt_spec(self),
    {
        other.less_than(self)
    }

    /// Whether `self >= other`.
    pub fn at_least(self, other: Single) -> (b: bool)
        ensures
            b == other.le_spec(self),
    {
        other.at_most(self)
    }

    /// Whether `self == other`, numerically.
    pub fn equals(self, other: Single) -> (b: bool)
        ensures
            b == self.same_value(other),
    {
        !self.is_nan() && !other.is_nan() && self.rank_of() == other.rank_of()
    }

    /// Whether `self` precedes `other` in the total order.
    pub fn total_less_than(self, other: Single) -> (b: bool)
        ensures
            b == (self.total_rank() < other.total_rank()),
    {
        let a: i64 = if self.bits >= SIGN_BIT {
            -(self.magnitude_bits() as i64) - 1
        } else {
            self.magnitude_bits() as i64
        };
        let b: i64 = if other.bits >= SIGN_BIT {
            -(other.magnitude_bits() as i64) - 1
        } else {
            other.magnitude_bits() as i64
        };
        a < b
    }

    /// The value without its sign.
    pub fn abs(self) -> (r: Single)
        ensures
            r == self.abs_spec(),
    {
        Single { bits: self.magnitude_bits() }
    }

    /// The value with its sign flipped.
    pub fn negated(self) -> (r: Single)
        ensures
            r == self.neg_spec(),
    {
        if self.bits >= SIGN_BIT {
            Single { bits: self.bits - SIGN_BIT }
        } else {
            Single { bits: self.bits + SIGN_BIT }
        }
    }
}

/// Of two finite numbers the one with the larger value has the higher rank.
pub proof fn rank_orders_values(a: Single, b: Single)
    requires
        a.finite(),
        b.finite(),
    ensures
        a.value() < b.value() <==> a.rank() < b.rank(),
        a.value() == b.value() <==> a.rank() == b.rank(),
{
    let h = HIDDEN as nat;
    let x = a.magnitude() as nat;
    let y = b.magnitude() as nat;
    if x <= y {
        ieee::pattern_value_increases(h, x, y);
    }
    if y <= x {
        ieee::pattern_value_increases(h, y, x);
    }
    ieee::pattern_value_increases(h, 0, x);
    ieee::pattern_value_increases(h, 0, y);
}

impl Single {
    fn assembled(negative: bool, pattern: u64) -> (r: Single)
        requires
            pattern <= INFINITE,
        ensures
            r == Self::of_parts(negative, pattern as nat),
    {
        if negative {
            Single { bits: pattern as u32 + SIGN_BIT }
        } else {
            Single { bits: pattern as u32 }
        }
    }

    pub fn is_infinite(self) -> (b: bool)
        ensures
            b == self.infinite(),
    {
        self.magnitude_bits() == INFINITY_BITS
    }

    pub fn is_negative(self) -> (b: bool)
        ensures
            b == self.negative(),
    {
        self.bits >= SIGN_BIT
    }

    /// `self + other`.
    pub fn plus(self, other: Single) -> (r: Single)
        ensures
            r == self.plus_spec(other),
    {
        if self.is_nan() || other.is_nan() {
            return Single { bits: NAN_BITS };
        }
        if self.is_infinite() {
            if other.is_infinite() && self.is_negative() != other.is_negative() {
                return Single { bits: NAN_BITS };
            }
            return self;
        }
        if other.is_infinite() {
            return other;
        }
        let (negative, pattern) = arithmetic::sum(
            HIDDEN,
            INFINITE,
            self.is_negative(),
            self.magnitude_bits() as u64,
            other.is_negative(),
            other.magnitude_bits() as u64,
        );
        Self::assembled(negative, pattern)
    }

    /// `self - other`.
    pub fn minus(self, other: Single) -> (r: Single)
        ensures
            r == self.minus_spec(other),
    {
        self.plus(other.negated())
    }

    /// `self * other`.
    pub fn times(self, other: Single) -> (r: Single)
        ensures
            r == self.times_spec(other),
    {
        let negative: bool = self.is_negative() != other.is_negative();
        if self.is_nan() || other.is_nan() {
            return Single { bits: NAN_BITS };
        }
        let a: u64 = self.magnitude_bits() as u64;
        let b: u64 = other.magnitude_bits() as u64;
        if self.is_infinite() || other.is_infinite() {
            if a == 0 || b == 0 {
                return Single { bits: NAN_BITS };
            }
            return Self::assembled(negative, INFINITE);
        }
        Self::assembled(negative, arithmetic::product(HIDDEN, INFINITE, UNIT, a, b))
    }

    /// `self / other`.
    pub fn over(self, other: Single) -> (r: Single)
        ensures
            r == self.over_spec(other),
    {
        let negative: bool = self.is_negative() != other.is_negative();
        if self.is_nan() || other.is_nan() {
            return Single { bits: NAN_BITS };
        }
        let a: u64 = self.magnitude_bits() as u64;
        let b: u64 = other.magnitude_bits() as u64;
        if self.is_infinite() {
            if other.is_infinite() {
                return Single { bits: NAN_BITS };
            }
            return Self::assembled(negative, INFINITE);
        }
        if other.is_infinite() {
            return Self::assembled(negative, 0);
        }
        if b == 0 {
            if a == 0 {
                return Single { bits: NAN_BITS };
            }
            return Self::assembled(negative, INFINITE);
        }
        Self::assembled(negative, arithmetic::quotient(HIDDEN, INFINITE, UNIT, a, b))
    }

    /// The square root.
    pub fn sqrt(self) -> (r: Single)
        ensures
            r == self.sqrt_spec(),
    {
        if self.is_nan() {
            return Single { bits: NAN_BITS };
        }
        let a: u64 = self.magnitude_bits() as u64;
        if a == 0 {
            return self;
        }
        if self.is_negative() {
            return Single { bits: NAN_BITS };
        }
        if self.is_infinite() {
            return self;
        }
        Self::assembled(false, arithmetic::square_root(HIDDEN, INFINITE, UNIT, a))
    }
}

impl Single {
    /// An integer, rounded to the nearest number.
    pub open spec fn from_integer_spec(n: int) -> Single {
        Self::rounded(n < 0, arithmetic::magnitude(n) * power2::pow2(UNIT as nat), 1)
    }

    /// The integer nearest to the magnitude of a finite number, halves away
    /// from zero.
    pub open spec fn nearest_integer(self) -> nat {
        (arithmetic::magnitude(self.value()) / power2::pow2((UNIT - 1) as nat) + 1) / 2
    }

    /// The integer part of the magnitude of a finite number.
    pub open spec fn whole_part(self) -> nat {
        arithmetic::magnitude(self.value()) / power2::pow2(UNIT as nat)
    }

    pub open spec fn has_fraction(self) -> bool {
        arithmetic::magnitude(self.value()) % power2::pow2(UNIT as nat) != 0
    }

    /// Rounding to an integer, halves away from zero.
    pub open spec fn round_spec(self) -> Single {
        if !self.finite() || self.magnitude() >= WHOLE_BITS {
            self
        } else {
            Self::rounded(
                self.negative(),
                self.nearest_integer() * power2::pow2(UNIT as nat),
                1,
            )
        }
    }

    /// Rounding up to an integer.
    pub open spec fn ceil_spec(self) -> Single {
        if !self.finite() || self.magnitude() >= WHOLE_BITS {
            self
        } else {
            let up: nat = if self.has_fraction() && !self.negative() {
                1
            } else {
                0
            };
            Self::rounded(
                self.negative(),
                (self.whole_part() + up) * power2::pow2(UNIT as nat),
                1,
            )
        }
    }

    /// The integer part as a count: zero for NaNs and below zero, the largest
    /// count above it.
    pub open spec fn to_count_spec(self) -> nat {
        if self.nan() || self.negative() {
            0
        } else if self.infinite() || self.whole_part() > usize::MAX {
            usize::MAX as nat
        } else {
            self.whole_part()
        }
    }

    /// The next integer as a count, with the same limits.
    pub open spec fn ceil_count_spec(self) -> nat {
        let up = self.whole_part() + if self.has_fraction() {
            1nat
        } else {
            0
        };
        if self.nan() || self.negative() {
            0
        } else if self.infinite() || up > usize::MAX {
            usize::MAX as nat
        } else {
            up
        }
    }

    /// The nearest integer, halves away from zero, within the range of `i64`;
    /// zero for NaNs.
    pub open spec fn round_to_i64_spec(self) -> int {
        if self.nan() {
            0
        } else if self.negative() {
            if self.infinite() || self.nearest_integer() > -(i64::MIN as int) {
                i64::MIN as int
            } else {
                -(self.nearest_integer() as int)
            }
        } else if self.infinite() || self.nearest_integer() > i64::MAX {
            i64::MAX as int
        } else {
            self.nearest_integer() as int
        }
    }

    /// The remainder of a division, with the sign of the dividend.
    pub open spec fn rem_spec(self, other: Single) -> Single {
        if self.nan() || other.nan() || self.infinite() || other.magnitude() == 0 {
            Self::not_a_number()
        } else if other.infinite() {
            self
        } else {
            Self::rounded(
                self.negative(),
                arithmetic::magnitude(self.value()) % arithmetic::magnitude(other.value()),
                1,
            )
        }
    }

    /// The remainder that is not negative.
    pub open spec fn rem_euclid_spec(self, other: Single) -> Single {
        let r = self.rem_spec(other);
        if r.lt_spec(Single { bits: 0 }) {
            r.plus_spec(other.abs_spec())
        } else {
            r
        }
    }

    /// The larger of two numbers; a NaN gives way to the other one.
    pub open spec fn max_spec(self, other: Single) -> Single {
        if self.nan() || self.lt_spec(other) {
            other
        } else {
            self
        }
    }

    /// The smaller of two numbers; a NaN gives way to the other one.
    pub open spec fn min_spec(self, other: Single) -> Single {
        if self.nan() || other.lt_spec(self) {
            other
        } else {
            self
        }
    }

    /// The nearest number in `[low, high]`; a NaN stays.
    pub open spec fn clamp_spec(self, low: Single, high: Single) -> Single {
        if self.lt_spec(low) {
            low
        } else if high.lt_spec(self) {
            high
        } else {
            self
        }
    }

    /// A count, rounded to the nearest number.
    pub fn from_count(n: usize) -> (r: Single)
        ensures
            r == Self::from_integer_spec(n as int),
    {
        Self::assembled(false, arithmetic::from_integer(HIDDEN, INFINITE, UNIT, n as u64))
    }

    /// A distance between sample positions, rounded to the nearest number.
    pub fn from_index(n: i128) -> (r: Single)
        requires
            -(u64::MAX as int) <= n <= u64::MAX,
        ensures
            r == Self::from_integer_spec(n as int),
    {
        if n < 0 {
            Self::assembled(
                true,
                arithmetic::from_integer(HIDDEN, INFINITE, UNIT, (-n) as u64),
            )
        } else {
            Self::assembled(false, arithmetic::from_integer(HIDDEN, INFINITE, UNIT, n as u64))
        }
    }

    /// Rounding to an integer, halves away from zero.
    pub fn round(self) -> (r: Single)
        ensures
            r == self.round_spec(),
    {
        let a: u32 = self.magnitude_bits();
        if a >= WHOLE_BITS {
            return self;
        }
        let (halves, _) = arithmetic::integer_part(HIDDEN, a as u64, UNIT - 1);
        proof {
            self.below_whole();
        }
        let n: u128 = (halves + 1) / 2;
        Self::assembled(
            self.is_negative(),
            arithmetic::from_integer(HIDDEN, INFINITE, UNIT, n as u64),
        )
    }

    /// Rounding up to an integer.
    pub fn ceil(self) -> (r: Single)
        ensures
            r == self.ceil_spec(),
    {
        let a: u32 = self.magnitude_bits();
        if a >= WHOLE_BITS {
            return self;
        }
        let (n, fraction) = arithmetic::integer_part(HIDDEN, a as u64, UNIT);
        proof {
            self.below_whole();
            power2::lemma_pow2_pos((UNIT - 1) as nat);
            power2::lemma_pow2_strictly_increases((UNIT - 1) as nat, UNIT as nat);
            vstd::arithmetic::div_mod::lemma_div_is_ordered_by_denominator(
                arithmetic::magnitude(self.value()) as int,
                power2::pow2((UNIT - 1) as nat) as int,
                power2::pow2(UNIT as nat) as int,
            );
        }
        let up: u128 = if fraction && !self.is_negative() {
            n + 1
        } else {
            n
        };
        Self::assembled(
            self.is_negative(),
            arithmetic::from_integer(HIDDEN, INFINITE, UNIT, up as u64),
        )
    }

    /// Below `2^24` the number of halves is small.
    proof fn below_whole(self)
        requires
            self.magnitude() < WHOLE_BITS,
        ensures
            arithmetic::magnitude(self.value()) / power2::pow2((UNIT - 1) as nat) <= 0x200_0000,
    {
        let h = HIDDEN as nat;
        let v = arithmetic::magnitude(self.value());
        ieee::pattern_value_increases(h, self.magnitude() as nat, WHOLE_BITS as nat);
        // WHOLE_BITS is exponent 150, significand one hidden bit.
        ieee::pattern_parts(h, 150, h);
        power2::lemma2_to64();
        let d = power2::pow2(148);
        power2::lemma_pow2_adds(2, 148);
        power2::lemma_pow2_pos(148);
        assert(v <= 0x200_0000 * d) by (nonlinear_arith)
            requires
                v <= h * (4 * d),
                h == 0x80_0000,
        ;
        vstd::arithmetic::div_mod::lemma_div_is_ordered(v as int, (0x200_0000 * d) as int, d as int);
        vstd::arithmetic::div_mod::lemma_div_by_multiple(0x200_0000, d as int);
    }

    /// The integer part as a count.
    pub fn to_count(self) -> (n: usize)
        ensures
            n == self.to_count_spec(),
    {
        if self.is_nan() || self.is_negative() {
            return 0;
        }
        if self.is_infinite() {
            return usize::MAX;
        }
        let (n, _) = arithmetic::integer_part(HIDDEN, self.magnitude_bits() as u64, UNIT);
        if n > usize::MAX as u128 {
            usize::MAX
        } else {
            n as usize
        }
    }

    /// The next integer as a count.
    pub fn ceil_count(self) -> (n: usize)
        ensures
            n == self.ceil_count_spec(),
    {
        if self.is_nan() || self.is_negative() {
            return 0;
        }
        if self.is_infinite() {
            return usize::MAX;
        }
        let (n, fraction) = arithmetic::integer_part(
            HIDDEN,
            self.magnitude_bits() as u64,
            UNIT,
        );
        let up: u128 = if fraction {
            n + 1
        } else {
            n
        };
        if up > usize::MAX as u128 {
            usize::MAX
        } else {
            up as usize
        }
    }

    /// The nearest integer within the range of `i64`.
    pub fn round_to_i64(self) -> (n: i64)
        ensures
            n == self.round_to_i64_spec(),
    {
        if self.is_nan() {
            return 0;
        }
        if self.is_infinite() {
            return if self.is_negative() {
                i64::MIN
            } else {
                i64::MAX
            };
        }
        let (halves, _) = arithmetic::integer_part(
            HIDDEN,
            self.magnitude_bits() as u64,
            UNIT - 1,
        );
        let m: u128 = (halves + 1) / 2;
        if self.is_negative() {
            if m > 0x8000_0000_0000_0000 {
                i64::MIN
            } else {
                (-(m as i128)) as i64
            }
        } else if m > 0x7fff_ffff_ffff_ffff {
            i64::MAX
        } else {
            m as i64
        }
    }

    /// The remainder of a division, with the sign of the dividend.
    pub fn rem(self, other: Single) -> (r: Single)
        ensures
            r == self.rem_spec(other),
    {
        let a: u64 = self.magnitude_bits() as u64;
        let b: u64 = other.magnitude_bits() as u64;
        if self.is_nan() || other.is_nan() || self.is_infinite() || b == 0 {
            return Single { bits: NAN_BITS };
        }
        if other.is_infinite() {
            return self;
        }
        let r: u64 = arithmetic::remainder(HIDDEN, a, b);
        proof {
            ieee::nearest_of_held(HIDDEN as nat, INFINITE as nat, r as nat);
        }
        Self::assembled(self.is_negative(), r)
    }

    /// The remainder that is not negative.
    pub fn rem_euclid(self, other: Single) -> (r: Single)
        ensures
            r == self.rem_euclid_spec(other),
    {
        let r: Single = self.rem(other);
        if r.less_than(Single::zero()) {
            r.plus(other.abs())
        } else {
            r
        }
    }

    /// The larger of two numbers.
    pub fn max(self, other: Single) -> (r: Single)
        ensures
            r == self.max_spec(other),
    {
        if self.is_nan() || self.less_than(other) {
            other
        } else {
            self
        }
    }

    /// The smaller of two numbers.
    pub fn min(self, other: Single) -> (r: Single)
        ensures
            r == self.min_spec(other),
    {
        if self.is_nan() || other.less_than(self) {
            other
        } else {
            self
        }
    }

    /// The nearest number in `[low, high]`.
    pub fn clamp(self, low: Single, high: Single) -> (r: Single)
        ensures
            r == self.clamp_spec(low, high),
    {
        if self.less_than(low) {
            low
        } else if high.less_than(self) {
            high
        } else {
            self
        }
    }
}

} // verus!
