//! How far double-precision arithmetic is off.
use crate::arithmetic;
use crate::double;
use crate::double::Double;
use crate::ieee;
use crate::single;
use crate::single::Single;
use crate::single_laws;
use vstd::arithmetic::power2;
use vstd::prelude::*;

verus! {

/// The distance of two numbers.
pub open spec fn apart(a: int, b: int) -> int {
    if a < b {
        b - a
    } else {
        a - b
    }
}

/// One unit in the last place, as a share: a number is off by no more than
/// one part in this many.
pub const PRECISION: u64 = 0x20_0000_0000_0000;

/// A number whose value is no further from zero than `2^r` units of the
/// smallest number.
pub open spec fn within(x: Double, r: nat) -> bool {
    x.finite() && arithmetic::magnitude(x.value()) <= power2::pow2(r)
}

/// The number nearest to a ratio of moderate size is finite, and its value is
/// that of the nearest pattern.
pub proof fn rounded_value(negative: bool, n: nat, d: nat, r: nat)
    requires
        d > 0,
        52 <= r < 2097,
        n <= power2::pow2(r) * d,
    ensures
        ({
            let x = Double::rounded(negative, n, d);
            let b = ieee::nearest(double::HIDDEN as nat, double::INFINITE as nat, n, d);
            &&& b < double::INFINITE
            &&& within(x, r)
            &&& x.value() == if negative {
                -ieee::pattern_value(double::HIDDEN as nat, b)
            } else {
                ieee::pattern_value(double::HIDDEN as nat, b) as int
            }
        }),
{
    let h = double::HIDDEN as nat;
    let inf = double::INFINITE as nat;
    power2::lemma2_to64();
    power2::lemma2_to64_rest();
    single_laws::power_pattern_value(h, 52, r);
    let top = single_laws::power_pattern(h, 52, r);
    ieee::nearest_exists(h, inf, n, d);
    ieee::nearest_at_most(h, inf, n, d, top);
    ieee::pattern_value_increases(h, ieee::nearest(h, inf, n, d), top);
}

/// A sum is off by no more than a share of it.
pub proof fn sum_is_close(a: Double, b: Double, r: nat)
    requires
        within(a, r),
        within(b, r),
        52 <= r < 2096,
    ensures
        within(a.plus_spec(b), r + 1),
        PRECISION * apart(a.plus_spec(b).value(), a.value() + b.value())
            <= arithmetic::magnitude(a.plus_spec(b).value()),
{
    let h = double::HIDDEN as nat;
    let inf = double::INFINITE as nat;
    let s = a.value() + b.value();
    let n = arithmetic::magnitude(s);
    let negative = if s == 0 {
        a.negative() && b.negative()
    } else {
        s < 0
    };
    power2::lemma_pow2_unfold(r + 1);
    rounded_value(negative, n, 1, r + 1);
    ieee::nearest_integer_is_close(h, inf, n);
    let v = ieee::pattern_value(h, ieee::nearest(h, inf, n, 1));
    if s == 0 {
        ieee::nearest_of_held(h, inf, 0);
    }
    assert(apart(a.plus_spec(b).value(), s) == apart(v as int, n as int));
}

/// What is off by a share in one unit is so in another.
proof fn unscaled(h: int, u: int, v: int, w: int)
    requires
        2 * h * (u * v - w * u) <= u * v,
        2 * h * (w * u - u * v) <= u * v,
        u > 0,
    ensures
        2 * h * (v - w) <= v,
        2 * h * (w - v) <= v,
{
    let e = 2 * h * (v - w);
    let f = 2 * h * (w - v);
    let k = 2 * h;
    assert(k * (u * v - w * u) == u * (k * (v - w))) by (nonlinear_arith);
    assert(k * (w * u - u * v) == u * (k * (w - v))) by (nonlinear_arith);
    assert(e <= v) by (nonlinear_arith)
        requires
            u * e <= u * v,
            u > 0,
    ;
    assert(f <= v) by (nonlinear_arith)
        requires
            u * f <= u * v,
            u > 0,
    ;
}

/// A product with an integer is off by no more than a share of it.
pub proof fn product_is_close(a: Double, b: Double, i: int, r: nat)
    requires
        within(a, r),
        b.finite(),
        b.value() == i * power2::pow2(double::UNIT as nat),
        -0x100_0000_0000 <= i <= 0x100_0000_0000,
        a.value() == 0 || arithmetic::magnitude(a.value()) >= double::HIDDEN,
        52 <= r < 2040,
    ensures
        within(a.times_spec(b), r + 40),
        PRECISION * apart(a.times_spec(b).value(), a.value() * i) <= arithmetic::magnitude(
            a.times_spec(b).value(),
        ),
{
    let h = double::HIDDEN as nat;
    let inf = double::INFINITE as nat;
    let u = power2::pow2(double::UNIT as nat);
    power2::lemma_pow2_pos(double::UNIT as nat);
    power2::lemma2_to64();
    power2::lemma2_to64_rest();
    power2::lemma_pow2_adds(r, 40);
    let x = arithmetic::magnitude(a.value());
    let m = arithmetic::magnitude(i);
    let y = arithmetic::magnitude(b.value());
    assert(y == m * u && (b.value() < 0 <==> i < 0) && (b.value() == 0 <==> i == 0))
        by (nonlinear_arith)
        requires
            b.value() == i * u,
            u > 0,
            y == if b.value() < 0 {
                -b.value()
            } else {
                b.value()
            },
            m == if i < 0 {
                -i
            } else {
                i
            },
    ;
    assert(x * y == (x * m) * u) by (nonlinear_arith)
        requires
            y == m * u,
    ;
    assert(x * m <= power2::pow2(r) * 0x100_0000_0000) by (nonlinear_arith)
        requires
            0 <= x <= power2::pow2(r),
            0 <= m <= 0x100_0000_0000,
    ;
    assert((x * m) * u <= power2::pow2(r + 40) * u) by (nonlinear_arith)
        requires
            x * m <= power2::pow2(r + 40),
            u > 0,
    ;
    let negative = a.negative() != b.negative();
    rounded_value(negative, x * y, u, r + 40);
    let v = ieee::pattern_value(h, ieee::nearest(h, inf, x * y, u));
    let p = a.times_spec(b).value();
    if x == 0 || m == 0 {
        assert(x * m == 0) by (nonlinear_arith)
            requires
                x == 0 || m == 0,
        ;
        assert(0 * u == 0);
        ieee::nearest_of_value(h, inf, x * y, u, 0);
        assert(a.value() * i == 0) by (nonlinear_arith)
            requires
                x == 0 || m == 0,
                x == 0 ==> a.value() == 0,
                m == 0 ==> i == 0,
        ;
    } else {
        ieee::pattern_parts(h, 0, h);
        assert(0 * h == 0);
        assert(x * m >= h) by (nonlinear_arith)
            requires
                x >= h,
                m >= 1,
        ;
        assert((x * m) * u >= h * u) by (nonlinear_arith)
            requires
                x * m >= h,
                u > 0,
        ;
        ieee::nearest_at_least(h, inf, x * y, u, h);
        ieee::nearest_is_close(h, inf, x * y, u);
        let w = x * m;
        unscaled(h as int, u as int, v as int, w as int);
        assert(a.value() * i == if negative {
            -(w as int)
        } else {
            w as int
        }) by (nonlinear_arith)
            requires
                w == x * m,
                x == if a.value() < 0 {
                    -a.value()
                } else {
                    a.value()
                },
                m == if i < 0 {
                    -i
                } else {
                    i
                },
                negative == ((a.value() < 0) != (i < 0)),
        ;
        assert(apart(p, a.value() * i) == apart(v as int, w as int));
    }
}

/// A quotient of moderate size is off by no more than a share of it, or the
/// least step of the format.
pub proof fn quotient_is_close(a: Double, b: Double, r: nat)
    requires
        a.finite(),
        b.finite(),
        b.value() > 0,
        52 <= r < 2097,
        arithmetic::magnitude(a.value()) * power2::pow2(double::UNIT as nat) <= power2::pow2(r)
            * b.value(),
    ensures
        ({
            let q = a.over_spec(b).value();
            let u = power2::pow2(double::UNIT as nat) as int;
            &&& within(a.over_spec(b), r)
            &&& PRECISION * apart(b.value() * q, a.value() * u) <= b.value()
                * arithmetic::magnitude(q) + PRECISION * b.value()
        }),
{
    let h = double::HIDDEN as nat;
    let inf = double::INFINITE as nat;
    let u = power2::pow2(double::UNIT as nat);
    let x = arithmetic::magnitude(a.value());
    let d = b.value() as nat;
    let negative = a.negative() != b.negative();
    assert(!b.negative());
    ieee::pattern_value_increases(h, 0, b.magnitude() as nat);
    rounded_value(negative, x * u, d, r);
    ieee::nearest_ratio_is_close(h, inf, x * u, d);
    let v = ieee::pattern_value(h, ieee::nearest(h, inf, x * u, d)) as int;
    let q = a.over_spec(b).value();
    if negative {
        assert(d * (-v) == -(d * v)) by (nonlinear_arith);
        assert(a.value() * u == -(x * u)) by (nonlinear_arith)
            requires
                a.value() == -x,
        ;
    } else {
        assert(a.value() * u == x * u) by (nonlinear_arith)
            requires
                a.value() == x,
        ;
    }
    assert(apart(d * q, a.value() * u) == apart(d * v, (x * u) as int));
}

/// Of two finite numbers the one with the larger value has the higher rank.
pub proof fn rank_orders_values(a: Double, b: Double)
    requires
        a.finite(),
        b.finite(),
    ensures
        a.value() < b.value() <==> a.rank() < b.rank(),
        a.value() == b.value() <==> a.rank() == b.rank(),
{
    let h = double::HIDDEN as nat;
    let x = a.magnitude() as nat;
    let y = b.magnitude() as nat;
    if x <= y {
        ieee::pattern_value_increases(h, x, y);
    }
    if y <= x {
        ieee::pattern_value_increases(h, y, x);
    }
    ieee::pattern_value_increases(h, 0, x);
    ieee::pattern_value_increases(h, 0, y);
}

/// A single-precision number keeps its value.
pub proof fn widening_is_exact(x: Single)
    requires
        x.finite(),
    ensures
        Double::from_single_spec(x).finite(),
        Double::from_single_spec(x).value() == x.value() * power2::pow2(double::WIDENING as nat),
        within(Double::from_single_spec(x), 1202),
{
    let h = double::HIDDEN as nat;
    let inf = double::INFINITE as nat;
    let hs = single::HIDDEN as nat;
    let g = power2::pow2(double::WIDENING as nat);
    let v = arithmetic::magnitude(x.value());
    power2::lemma2_to64();
    power2::lemma2_to64_rest();
    power2::lemma_pow2_pos(double::WIDENING as nat);
    let (j, k) = ieee::pattern_split(hs, x.magnitude() as nat);
    ieee::pattern_parts(hs, j, k);
    assert(j <= 254) by {
        if j >= 255 {
            assert(j * hs >= 255 * hs) by (nonlinear_arith)
                requires
                    j >= 255,
                    hs >= 0,
            ;
        }
    }
    power2::lemma_pow2_adds(j, double::WIDENING as nat);
    let unit = j + double::WIDENING as nat;
    assert(v * g == k * (power2::pow2(j) * g)) by (nonlinear_arith)
        requires
            v == k * power2::pow2(j),
    ;
    assert(0 < k ==> k * power2::pow2(52) >= h) by (nonlinear_arith)
        requires
            power2::pow2(52) == h,
    ;
    single_laws::whole_number_is_held(h, inf, k, unit, 52);
    single_laws::power_pattern_value(hs, 23, 277);
    ieee::pattern_value_increases(
        hs,
        x.magnitude() as nat,
        single_laws::power_pattern(hs, 23, 277),
    );
    power2::lemma_pow2_adds(277, double::WIDENING as nat);
    assert(v * g <= power2::pow2(277) * g) by (nonlinear_arith)
        requires
            v <= power2::pow2(277),
    ;
    rounded_value(x.negative(), v * g, 1, 1202);
    if x.negative() {
        assert(x.value() * g == -(v * g)) by (nonlinear_arith)
            requires
                x.value() == -v,
        ;
    }
}

/// A count that the significand has room for is held exactly.
pub proof fn count_is_exact(n: nat)
    requires
        n <= 0x20_0000_0000_0000,
    ensures
        Double::from_count_spec(n).finite(),
        Double::from_count_spec(n).value() == n * power2::pow2(double::UNIT as nat),
        within(Double::from_count_spec(n), 1127),
{
    let h = double::HIDDEN as nat;
    let inf = double::INFINITE as nat;
    let u = power2::pow2(double::UNIT as nat);
    power2::lemma2_to64();
    power2::lemma2_to64_rest();
    power2::lemma_pow2_adds(53, double::UNIT as nat);
    assert(0 < n ==> n * power2::pow2(52) >= h) by (nonlinear_arith)
        requires
            power2::pow2(52) == h,
    ;
    single_laws::whole_number_is_held(h, inf, n, double::UNIT as nat, 52);
    assert(n * u <= power2::pow2(53) * u) by (nonlinear_arith)
        requires
            n <= power2::pow2(53),
            u >= 0,
    ;
    rounded_value(false, n * u, 1, 1127);
}

/// Rounding to single precision is off by no more than one part in `2^24`, or
/// the least step of that format.
pub proof fn narrowing_is_close(d: Double)
    requires
        within(d, 1190),
    ensures
        d.to_single_spec().finite(),
        0xff_ffff * apart(
            d.to_single_spec().value() * power2::pow2(double::WIDENING as nat),
            d.value(),
        ) <= arithmetic::magnitude(d.value()) + 0x100_0000 * power2::pow2(
            double::WIDENING as nat,
        ),
{
    let h = single::HIDDEN as nat;
    let inf = single::INFINITE as nat;
    let g = power2::pow2(double::WIDENING as nat);
    let n = arithmetic::magnitude(d.value());
    power2::lemma_pow2_pos(double::WIDENING as nat);
    power2::lemma_pow2_adds(265, double::WIDENING as nat);
    single_laws::rounded_within(d.negative(), n, g, 265);
    ieee::nearest_exists(h, inf, n, g);
    let x = ieee::nearest(h, inf, n, g);
    let r = d.to_single_spec();
    assert(r == Single::of_parts(d.negative(), x));
    assert(r.magnitude() == x);
    ieee::nearest_ratio_is_close(h, inf, n, g);
    let y = ieee::pattern_value(h, x);
    let gy = g * y;
    assert(0x100_0000 * g == 2 * h * g) by (nonlinear_arith)
        requires
            h == 0x80_0000,
    ;
    assert(2 * h * (gy - n) == 0x100_0000 * (gy - n) && 2 * h * (n - gy) == 0x100_0000 * (n - gy))
        by (nonlinear_arith)
        requires
            h == 0x80_0000,
    ;
    if d.negative() {
        assert((-y) * g == -gy) by (nonlinear_arith)
            requires
                gy == g * y,
        ;
    } else {
        assert(y * g == gy) by (nonlinear_arith)
            requires
                gy == g * y,
        ;
    }
    assert(apart(r.value() * g, d.value()) == apart(gy as int, n as int));
}

/// A sum that is at least a number of the format rounds to no less.
pub proof fn sum_is_at_least(a: Double, b: Double, x: Double)
    requires
        a.finite(),
        b.finite(),
        x.finite(),
        a.value() + b.value() >= x.value(),
        a.plus_spec(b).finite(),
    ensures
        a.plus_spec(b).value() >= x.value(),
{
    let h = double::HIDDEN as nat;
    let inf = double::INFINITE as nat;
    let s = a.value() + b.value();
    let n = arithmetic::magnitude(s);
    ieee::nearest_exists(h, inf, n, 1);
    let k = ieee::nearest(h, inf, n, 1);
    let m = x.magnitude() as nat;
    ieee::pattern_value_increases(h, 0, m);
    ieee::pattern_value_increases(h, 0, k);
    if s >= 0 && x.value() > 0 {
        ieee::nearest_at_least(h, inf, n, 1, m);
        ieee::pattern_value_increases(h, m, k);
    } else if s < 0 {
        ieee::nearest_at_most(h, inf, n, 1, m);
        ieee::pattern_value_increases(h, k, m);
    } else if s == 0 {
        ieee::nearest_of_held(h, inf, 0);
    }
}

/// Any count is held to the nearest number.
pub proof fn count_is_moderate(n: nat)
    requires
        n <= u64::MAX,
    ensures
        within(Double::from_count_spec(n), 1138),
        Double::from_count_spec(n).value() >= 0,
        n >= 0x20_0000_0000_0000 ==> Double::from_count_spec(n).value() >= 0x20_0000_0000_0000
            * power2::pow2(double::UNIT as nat),
{
    let h = double::HIDDEN as nat;
    let inf = double::INFINITE as nat;
    let u = power2::pow2(double::UNIT as nat);
    power2::lemma2_to64();
    power2::lemma2_to64_rest();
    power2::lemma_pow2_adds(64, double::UNIT as nat);
    power2::lemma_pow2_adds(53, double::UNIT as nat);
    assert(n * u <= power2::pow2(64) * u) by (nonlinear_arith)
        requires
            n <= power2::pow2(64),
            u >= 0,
    ;
    rounded_value(false, n * u, 1, 1138);
    if n >= 0x20_0000_0000_0000 {
        assert(n * u >= power2::pow2(53) * u) by (nonlinear_arith)
            requires
                n >= power2::pow2(53),
                u >= 0,
        ;
        single_laws::power_pattern_value(h, 52, 1127);
        let b = single_laws::power_pattern(h, 52, 1127);
        ieee::nearest_at_least(h, inf, n * u, 1, b);
        ieee::pattern_value_increases(h, b, ieee::nearest(h, inf, n * u, 1));
    }
}

/// The remainder that is not negative is no larger than the modulus.
pub proof fn rem_euclid_is_bounded(x: Double, m: Double, r: nat)
    requires
        x.finite(),
        m.finite(),
        m.value() > 0,
        m.value() <= power2::pow2(r),
        52 <= r < 2096,
    ensures
        within(x.rem_euclid_spec(m), r),
{
    let h = double::HIDDEN as nat;
    let inf = double::INFINITE as nat;
    let zero = Double { bits: 0 };
    let v = m.value() as nat;
    ieee::pattern_value_increases(h, 0, m.magnitude() as nat);
    let n = arithmetic::magnitude(x.value()) % v;
    assert(!m.negative());
    ieee::nearest_exists(h, inf, n, 1);
    ieee::nearest_at_most(h, inf, n, 1, m.magnitude() as nat);
    let b = ieee::nearest(h, inf, n, 1);
    ieee::pattern_value_increases(h, b, m.magnitude() as nat);
    ieee::pattern_value_increases(h, 0, b);
    let rem = x.rem_spec(m);
    assert(rem == Double::of_parts(x.negative(), b));
    assert(rem.finite() && rem.magnitude() == b);
    if rem.lt_spec(zero) {
        rank_orders_values(rem, zero);
        assert(m.abs_spec() == m);
        let s = (rem.value() + m.value()) as nat;
        ieee::nearest_exists(h, inf, s, 1);
        ieee::nearest_at_most(h, inf, s, 1, m.magnitude() as nat);
        ieee::pattern_value_increases(h, ieee::nearest(h, inf, s, 1), m.magnitude() as nat);
        ieee::pattern_value_increases(h, 0, ieee::nearest(h, inf, s, 1));
    }
}

/// A product of two numbers of moderate size is finite.
pub proof fn product_is_finite(a: Double, b: Double, r: nat, s: nat)
    requires
        within(a, r),
        within(b, s),
        1126 <= r + s < 3170,
    ensures
        a.times_spec(b).finite(),
{
    let x = arithmetic::magnitude(a.value());
    let y = arithmetic::magnitude(b.value());
    let t = (r + s - 1074) as nat;
    power2::lemma_pow2_adds(r, s);
    power2::lemma_pow2_adds(t, 1074);
    power2::lemma_pow2_pos(1074);
    assert(x * y <= power2::pow2(r) * power2::pow2(s)) by (nonlinear_arith)
        requires
            0 <= x <= power2::pow2(r),
            0 <= y <= power2::pow2(s),
    ;
    rounded_value(a.negative() != b.negative(), x * y, power2::pow2(double::UNIT as nat), t);
}

/// A number of moderate size stays within its power of two in single
/// precision.
pub proof fn narrowing_stays_within(d: Double, r: nat)
    requires
        within(d, r + double::WIDENING as nat),
        23 <= r < 277,
    ensures
        single_laws::within(d.to_single_spec(), r),
{
    power2::lemma_pow2_adds(r, double::WIDENING as nat);
    power2::lemma_pow2_pos(double::WIDENING as nat);
    single_laws::rounded_within(
        d.negative(),
        arithmetic::magnitude(d.value()),
        power2::pow2(double::WIDENING as nat),
        r,
    );
}

} // verus!
