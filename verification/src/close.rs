//! How close rounded results lie to what they stand for.
//!
//! Values are in units of the smallest number, so a product of two of them is
//! in units squared; both sides of a comparison are brought to the same power.
use crate::arithmetic;
use crate::constants;
use crate::ieee;
use crate::signal_processing::math;
use crate::single;
use crate::single::Single;
use crate::single_laws;
use vstd::arithmetic::power2;
use vstd::prelude::*;

verus! {

/// Whether two amounts differ by no more than `k` roundings: one rounding is
/// off by at most one part in `2^23`.
pub open spec fn close(x: int, y: int, k: int) -> bool {
    0 <= y && 0x80_0000 * (x - y) <= k * y && 0x80_0000 * (y - x) <= k * y
}

/// The number of units in one.
pub open spec fn unit() -> int {
    power2::pow2(single::UNIT as nat) as int
}

/// What differs by some roundings differs by no more than a larger number.
pub proof fn close_by_more(x: int, y: int, k: int, l: int)
    requires
        close(x, y, k),
        k <= l,
    ensures
        close(x, y, l),
{
    assert(k * y <= l * y) by (nonlinear_arith)
        requires
            k <= l,
            0 <= y,
    ;
}

/// Amounts that are close are not negative.
pub proof fn close_is_nonnegative(x: int, y: int, k: int)
    requires
        close(x, y, k),
        k <= 0x80_0000,
    ensures
        x >= 0,
{
    assert(k * y <= 0x80_0000 * y) by (nonlinear_arith)
        requires
            k <= 0x80_0000,
            0 <= y,
    ;
}

/// An amount close to a positive one is positive.
pub proof fn close_is_positive(x: int, y: int, k: int)
    requires
        close(x, y, k),
        k < 0x80_0000,
        y > 0,
    ensures
        x > 0,
{
    assert(k * y < 0x80_0000 * y) by (nonlinear_arith)
        requires
            k < 0x80_0000,
            0 < y,
    ;
}

/// Multiples of what is close are close.
pub proof fn close_times(x: int, y: int, k: int, c: int)
    requires
        close(x, y, k),
        c >= 0,
    ensures
        close(x * c, y * c, k),
        close(c * x, c * y, k),
{
    assert(y * c >= 0) by (nonlinear_arith)
        requires
            y >= 0,
            c >= 0,
    ;
    let e = 0x80_0000 * (x - y);
    let f = 0x80_0000 * (y - x);
    let g = k * y;
    assert(0x80_0000 * (x * c - y * c) == e * c) by (nonlinear_arith)
        requires
            e == 0x80_0000 * (x - y),
    ;
    assert(0x80_0000 * (y * c - x * c) == f * c) by (nonlinear_arith)
        requires
            f == 0x80_0000 * (y - x),
    ;
    assert(k * (y * c) == g * c) by (nonlinear_arith)
        requires
            g == k * y,
    ;
    assert(e * c <= g * c && f * c <= g * c) by (nonlinear_arith)
        requires
            e <= g,
            f <= g,
            c >= 0,
    ;
    assert(x * c == c * x && y * c == c * y) by (nonlinear_arith);
}

/// What is close once it is multiplied is close.
pub proof fn close_without(x: int, y: int, k: int, c: int)
    requires
        close(x * c, y * c, k),
        c > 0,
    ensures
        close(x, y, k),
{
    assert(y >= 0) by (nonlinear_arith)
        requires
            y * c >= 0,
            c > 0,
    ;
    let e = 0x80_0000 * (x - y);
    let f = 0x80_0000 * (y - x);
    let g = k * y;
    assert(0x80_0000 * (x * c - y * c) == e * c) by (nonlinear_arith)
        requires
            e == 0x80_0000 * (x - y),
    ;
    assert(0x80_0000 * (y * c - x * c) == f * c) by (nonlinear_arith)
        requires
            f == 0x80_0000 * (y - x),
    ;
    assert(k * (y * c) == g * c) by (nonlinear_arith)
        requires
            g == k * y,
    ;
    assert(e <= g && f <= g) by (nonlinear_arith)
        requires
            e * c <= g * c,
            f * c <= g * c,
            c > 0,
    ;
}

/// What is close to something close is close.
pub proof fn close_chain(x: int, y: int, z: int, a: int, b: int)
    requires
        close(x, y, a),
        close(y, z, b),
        0 <= a,
        0 <= b,
        a * b <= 0x80_0000,
    ensures
        close(x, z, a + b + 1),
{
    // a * y <= a * z + a * b * z / 0x80_0000.
    let p = 0x80_0000int;
    assert(p * (a * y) <= p * (a * z) + p * z) by {
        assert(a * (p * (y - z)) <= a * (b * z)) by (nonlinear_arith)
            requires
                p * (y - z) <= b * z,
                a >= 0,
        ;
        assert(a * (b * z) == (a * b) * z) by (nonlinear_arith);
        assert((a * b) * z <= p * z) by (nonlinear_arith)
            requires
                a * b <= p,
                z >= 0,
        ;
        assert(p * (a * y) - p * (a * z) == a * (p * (y - z))) by (nonlinear_arith);
    }
    assert(a * y <= a * z + z);
    assert((a + b + 1) * z == a * z + b * z + z) by (nonlinear_arith);
    assert(p * (x - z) == p * (x - y) + p * (y - z));
    assert(p * (z - x) == p * (z - y) + p * (y - x));
}

/// Closeness goes both ways.
pub proof fn close_back(x: int, y: int, a: int)
    requires
        close(x, y, a),
        0 <= a,
        a * a + a <= 0x80_0000,
    ensures
        close(y, x, a + 1),
{
    let p = 0x80_0000int;
    assert(a <= p) by (nonlinear_arith)
        requires
            a * a + a <= p,
            a >= 0,
    ;
    close_is_nonnegative(x, y, a);
    // p * a * y <= p * (a + 1) * x follows from a * p * (y - x) <= a * a * y.
    assert(p * (a * y) <= p * ((a + 1) * x)) by {
        // (a + 1) * p * (y - x) <= (a + 1) * a * y <= p * y.
        assert((a + 1) * (p * (y - x)) <= (a + 1) * (a * y)) by (nonlinear_arith)
            requires
                p * (y - x) <= a * y,
                a >= 0,
        ;
        assert((a + 1) * (a * y) == (a * a + a) * y) by (nonlinear_arith);
        assert((a * a + a) * y <= p * y) by (nonlinear_arith)
            requires
                a * a + a <= p,
                y >= 0,
        ;
        assert((a + 1) * (p * (y - x)) == p * ((a + 1) * y) - p * ((a + 1) * x))
            by (nonlinear_arith);
        assert((a + 1) * y == a * y + y) by (nonlinear_arith);
    }
    assert(a * y <= (a + 1) * x);
}

/// Products of what is close are close.
pub proof fn close_products(x: int, y: int, a: int, v: int, w: int, b: int)
    requires
        close(x, y, a),
        close(v, w, b),
        0 <= a,
        0 <= b <= 0x80_0000,
        a * b <= 0x80_0000,
    ensures
        close(x * v, y * w, a + b + 1),
{
    close_is_nonnegative(v, w, b);
    close_times(x, y, a, v);
    close_times(v, w, b, y);
    close_chain(x * v, y * v, y * w, a, b);
}

/// Sums of what is close are close.
pub proof fn close_sums(x: int, y: int, v: int, w: int, a: int)
    requires
        close(x, y, a),
        close(v, w, a),
    ensures
        close(x + v, y + w, a),
{
    assert(a * (y + w) == a * y + a * w) by (nonlinear_arith);
}

/// A finite number that is not negative.
pub open spec fn amount(x: Single) -> bool {
    single_laws::nonnegative(x) && x.finite()
}

/// Amounts have values from zero on, and only zero has none.
pub proof fn amount_has_value(x: Single)
    requires
        amount(x),
    ensures
        x.value() >= 0,
        x.value() == 0 <==> x.rank() == 0,
        x.value() == ieee::pattern_value(single::HIDDEN as nat, x.magnitude() as nat),
        arithmetic::magnitude(x.value()) == x.value(),
{
    ieee::pattern_value_increases(single::HIDDEN as nat, 0, x.magnitude() as nat);
}

/// A rounded ratio times the divisor is close to the dividend.
proof fn rounded_is_close(n: nat, d: nat)
    requires
        d > 0,
        single_laws::normal(Single::rounded(false, n, d)),
    ensures
        close(Single::rounded(false, n, d).value() * d, n as int, 1),
{
    let h = single::HIDDEN as nat;
    let inf = single::INFINITE as nat;
    ieee::nearest_exists(h, inf, n, d);
    let r = Single::rounded(false, n, d);
    amount_has_value(r);
    let b = ieee::nearest(h, inf, n, d);
    assert(r.magnitude() == b);
    ieee::nearest_is_close(h, inf, n, d);
    let v = r.value();
    assert(d * v == v * d) by (nonlinear_arith);
    assert(2 * h == 0x100_0000);
    rounding_to_parts(v * d, n as int);
}

/// One part in `2^24` of the rounded amount is within one part in `2^23` of
/// the exact one.
proof fn rounding_to_parts(x: int, n: int)
    requires
        0 <= n,
        0x100_0000 * (x - n) <= x,
        0x100_0000 * (n - x) <= x,
    ensures
        close(x, n, 1),
{
    assert(0x80_0000 * (x - n) <= n);
    assert(0x80_0000 * (n - x) <= n);
    assert(1 * n == n) by (nonlinear_arith);
}

/// A product is close to the product of the values.
pub proof fn product_is_close(a: Single, b: Single)
    requires
        amount(a),
        amount(b),
        single_laws::normal(a.times_spec(b)),
    ensures
        close(a.times_spec(b).value() * unit(), a.value() * b.value(), 1),
{
    amount_has_value(a);
    amount_has_value(b);
    power2::lemma_pow2_pos(single::UNIT as nat);
    let n = (a.value() as nat) * (b.value() as nat);
    rounded_is_close(n, power2::pow2(single::UNIT as nat));
}

/// A quotient times the divisor is close to the dividend.
pub proof fn quotient_is_close(a: Single, b: Single)
    requires
        amount(a),
        amount(b),
        b.rank() > 0,
        single_laws::normal(a.over_spec(b)),
    ensures
        close(a.over_spec(b).value() * b.value(), a.value() * unit(), 1),
{
    amount_has_value(a);
    amount_has_value(b);
    let n = (a.value() as nat) * power2::pow2(single::UNIT as nat);
    rounded_is_close(n, b.value() as nat);
}

/// A sum is close to the sum of the values.
pub proof fn sum_is_close(a: Single, b: Single)
    requires
        a.finite(),
        b.finite(),
        a.value() + b.value() >= 0,
        a.plus_spec(b).finite(),
    ensures
        close(a.plus_spec(b).value(), a.value() + b.value(), 1),
{
    let h = single::HIDDEN as nat;
    let inf = single::INFINITE as nat;
    let s = a.value() + b.value();
    let n = arithmetic::magnitude(s);
    ieee::nearest_exists(h, inf, n, 1);
    let k = ieee::nearest(h, inf, n, 1);
    ieee::nearest_integer_is_close(h, inf, n);
    if s == 0 {
        ieee::nearest_of_held(h, inf, 0);
    }
    assert(a.plus_spec(b).magnitude() == k);
    assert(2 * h == 0x100_0000);
    rounding_to_parts(a.plus_spec(b).value(), s);
}

/// A difference of numbers in order is close to that of the values.
pub proof fn difference_is_close(a: Single, b: Single)
    requires
        a.finite(),
        b.finite(),
        a.value() >= b.value(),
        a.minus_spec(b).finite(),
    ensures
        close(a.minus_spec(b).value(), a.value() - b.value(), 1),
{
    assert(b.neg_spec().value() == -b.value());
    sum_is_close(a, b.neg_spec());
}

proof fn root_exists_from(h: nat, inf: nat, n: nat, b: nat) -> (r: nat)
    requires
        b <= inf,
        b > 0 ==> {
            let x = ieee::pattern_value(h, (b - 1) as nat) + ieee::pattern_value(h, b);
            x * x < 4 * n || (x * x == 4 * n && b % 2 == 0)
        },
    ensures
        arithmetic::is_nearest_root(h, inf, n, r),
    decreases inf - b,
{
    if arithmetic::is_nearest_root(h, inf, n, b) {
        b
    } else {
        root_exists_from(h, inf, n, b + 1)
    }
}

/// Every number has a nearest root.
proof fn root_exists(h: nat, inf: nat, n: nat)
    ensures
        arithmetic::is_nearest_root(h, inf, n, arithmetic::nearest_root(h, inf, n)),
{
    let r = root_exists_from(h, inf, n, 0);
}

/// Roots keep the order of numbers.
proof fn root_patterns_in_order(h: nat, inf: nat, n: nat, m: nat)
    requires
        h > 0,
        n <= m,
    ensures
        arithmetic::nearest_root(h, inf, n) <= arithmetic::nearest_root(h, inf, m),
{
    root_exists(h, inf, n);
    root_exists(h, inf, m);
    let a = arithmetic::nearest_root(h, inf, n);
    let b = arithmetic::nearest_root(h, inf, m);
    if b < a {
        ieee::pattern_value_increases(h, b, (a - 1) as nat);
        ieee::pattern_value_increases(h, b + 1, a);
        let x = ieee::pattern_value(h, (a - 1) as nat) + ieee::pattern_value(h, a);
        let y = ieee::pattern_value(h, b) + ieee::pattern_value(h, b + 1);
        assert(y * y <= x * x) by (nonlinear_arith)
            requires
                0 <= y <= x,
        ;
        if b + 1 < a {
            ieee::pattern_value_increases(h, b, (a - 1) as nat);
            assert(y * y < x * x) by (nonlinear_arith)
                requires
                    0 <= y < x,
            ;
        }
    }
}

/// The pattern of the root of a finite number that is not zero lies between
/// the smallest normal one and infinity.
proof fn root_is_normal(a: Single)
    requires
        amount(a),
        a.rank() > 0,
    ensures
        ({
            let n = (a.value() * unit()) as nat;
            let h = single::HIDDEN as nat;
            let inf = single::INFINITE as nat;
            let b = arithmetic::nearest_root(h, inf, n);
            &&& h <= b < inf
            &&& arithmetic::is_nearest_root(h, inf, n, b)
            &&& a.sqrt_spec() == Single::of_parts(false, b)
            &&& a.value() * unit() > 0
        }),
{
    let h = single::HIDDEN as nat;
    let inf = single::INFINITE as nat;
    let u = unit();
    amount_has_value(a);
    power2::lemma2_to64();
    power2::lemma_pow2_pos(single::UNIT as nat);
    let v = a.value();
    assert(v * u >= u && v * u > 0) by (nonlinear_arith)
        requires
            v >= 1,
            u > 0,
    ;
    let n = (v * u) as nat;
    root_exists(h, inf, n);
    let b = arithmetic::nearest_root(h, inf, n);
    power2::lemma2_to64_rest();
    power2::lemma_pow2_adds(48, 101);
    power2::lemma_pow2_pos(101);
    if b < h {
        ieee::pattern_value_increases(h, b + 1, h);
        ieee::pattern_value_increases(h, b, h);
        ieee::pattern_parts(h, 0, h);
        let x = ieee::pattern_value(h, b) + ieee::pattern_value(h, b + 1);
        assert(x * x <= 0x100_0000 * 0x100_0000) by (nonlinear_arith)
            requires
                0 <= x <= 0x100_0000,
        ;
        assert(4 * n <= 0x1_0000_0000_0000);
        assert(u >= 0x1_0000_0000_0000) by (nonlinear_arith)
            requires
                u == 0x1_0000_0000_0000 * power2::pow2(101),
                power2::pow2(101) >= 1,
        ;
        assert(false);
    }
    if b == inf {
        let p = power2::pow2(253) as int;
        ieee::pattern_parts(h, 253, 2 * h);
        single_laws::power_pattern_value(h, 23, 277);
        assert(ieee::pattern_value(h, inf) == power2::pow2(277));
        ieee::pattern_value_increases(h, a.magnitude() as nat, inf);
        assert(v < power2::pow2(277));
        power2::lemma_pow2_adds(277, 149);
        power2::lemma_pow2_adds(277, 277);
        power2::lemma_pow2_adds(426, 128);
        power2::lemma_pow2_pos(426);
        power2::lemma_pow2_adds(3, 125);
        power2::lemma_pow2_pos(125);
        let w = power2::pow2(277) as int;
        let x = ieee::pattern_value(h, (b - 1) as nat) + ieee::pattern_value(h, b);
        assert(x * x >= w * w) by (nonlinear_arith)
            requires
                x >= w >= 0,
        ;
        assert(v * u <= w * u) by (nonlinear_arith)
            requires
                v <= w,
                u > 0,
        ;
        let k = power2::pow2(426) as int;
        let l = power2::pow2(128) as int;
        assert(w * w == k * l);
        assert(k * l >= 8 * k) by (nonlinear_arith)
            requires
                l >= 8,
                k > 0,
        ;
        assert(false);
    }
}

/// The square of a root is close to the number.
pub proof fn root_is_close(a: Single)
    requires
        amount(a),
        a.rank() > 0,
    ensures
        single_laws::normal(a.sqrt_spec()),
        close(a.sqrt_spec().value() * a.sqrt_spec().value(), a.value() * unit(), 2),
{
    let h = single::HIDDEN as nat;
    let inf = single::INFINITE as nat;
    root_is_normal(a);
    let n = a.value() * unit();
    let b = arithmetic::nearest_root(h, inf, n as nat);
    let r = a.sqrt_spec();
    assert(r.magnitude() == b);
    let v = r.value();
    let below = ieee::pattern_value(h, (b - 1) as nat) as int;
    let above = ieee::pattern_value(h, b + 1) as int;
    ieee::step_is_small(h, b);
    ieee::pattern_value_increases(h, (b - 1) as nat, b);
    let x = below + v;
    let y = v + above;
    assert(x * x <= 4 * n && 4 * n <= y * y);
    root_of_parts(v, x, y, n);
}

proof fn root_of_parts(v: int, x: int, y: int, n: int)
    requires
        0 <= v,
        0 <= x,
        0 <= n,
        0xff_ffff * v <= 0x80_0000 * x,
        0x80_0000 * y <= 0x100_0001 * v,
        x * x <= 4 * n,
        4 * n <= y * y,
        v <= y,
    ensures
        close(v * v, n, 2),
{
    let s = v * v;
    assert(0xff_ffff * 0xff_ffff * s <= 0x80_0000 * 0x80_0000 * (x * x)) by (nonlinear_arith)
        requires
            s == v * v,
            0 <= 0xff_ffff * v <= 0x80_0000 * x,
    {
        let p = 0xff_ffff * v;
        let q = 0x80_0000 * x;
        assert(p * p <= q * q) by (nonlinear_arith)
            requires
                0 <= p <= q,
        ;
        assert(p * p == 0xff_ffff * 0xff_ffff * s) by (nonlinear_arith)
            requires
                p == 0xff_ffff * v,
                s == v * v,
        ;
        assert(q * q == 0x80_0000 * 0x80_0000 * (x * x)) by (nonlinear_arith)
            requires
                q == 0x80_0000 * x,
        ;
    }
    assert(0x80_0000 * 0x80_0000 * (y * y) <= 0x100_0001 * 0x100_0001 * s) by (nonlinear_arith)
        requires
            s == v * v,
            0 <= 0x80_0000 * y <= 0x100_0001 * v,
    {
        let p = 0x80_0000 * y;
        let q = 0x100_0001 * v;
        assert(p * p <= q * q) by (nonlinear_arith)
            requires
                0 <= p <= q,
        ;
        assert(p * p == 0x80_0000 * 0x80_0000 * (y * y)) by (nonlinear_arith)
            requires
                p == 0x80_0000 * y,
        ;
        assert(q * q == 0x100_0001 * 0x100_0001 * s) by (nonlinear_arith)
            requires
                q == 0x100_0001 * v,
                s == v * v,
        ;
    }
    let xx = x * x;
    let yy = y * y;
    assert(0xff_fffe_0000_01 * s <= 0x4000_0000_0000 * xx) by (nonlinear_arith)
        requires
            0xff_ffff * 0xff_ffff * s <= 0x80_0000 * 0x80_0000 * xx,
    ;
    assert(0x4000_0000_0000 * yy <= 0x1_0000_0200_0001 * s) by (nonlinear_arith)
        requires
            0x80_0000 * 0x80_0000 * yy <= 0x100_0001 * 0x100_0001 * s,
    ;
    assert(0x80_0000 * (s - n) <= 2 * n);
    assert(0x80_0000 * (n - s) <= 2 * n);
}

/// Roots keep the order of numbers that are not negative.
pub proof fn roots_in_order(a: Single, b: Single)
    requires
        single_laws::nonnegative(a),
        single_laws::nonnegative(b),
        a.rank() <= b.rank(),
    ensures
        single_laws::nonnegative(a.sqrt_spec()),
        single_laws::nonnegative(b.sqrt_spec()),
        a.sqrt_spec().rank() <= b.sqrt_spec().rank(),
        a.finite() ==> a.sqrt_spec().finite(),
{
    if a.finite() && a.rank() > 0 {
        root_is_normal(a);
        if b.finite() {
            root_is_normal(b);
            amount_has_value(a);
            amount_has_value(b);
            single::rank_orders_values(a, b);
            let u = unit();
            let x = a.value();
            let y = b.value();
            assert(x * u <= y * u) by (nonlinear_arith)
                requires
                    x <= y,
                    u >= 0,
            ;
            root_patterns_in_order(
                single::HIDDEN as nat,
                single::INFINITE as nat,
                (a.value() * u) as nat,
                (b.value() * u) as nat,
            );
        }
    } else if a.finite() && b.finite() && b.rank() > 0 {
        root_is_normal(b);
    }
}

/// Pi and two pi, to seven digits.
pub proof fn pi_in_units()
    ensures
        3141592 * unit() <= 1000000 * constants::of(constants::PI).value(),
        1000000 * constants::of(constants::PI).value() <= 3141593 * unit(),
        6283185 * unit() <= 1000000 * constants::of(constants::TWO_PI).value(),
        1000000 * constants::of(constants::TWO_PI).value() <= 6283186 * unit(),
        amount(constants::of(constants::PI)),
        amount(constants::of(constants::TWO_PI)),
{
    let h = single::HIDDEN as nat;
    power2::lemma2_to64();
    ieee::pattern_parts(h, 127, 0xc9_0fdb);
    ieee::pattern_parts(h, 128, 0xc9_0fdb);
    power2::lemma_pow2_adds(22, 127);
    power2::lemma_pow2_adds(21, 128);
    power2::lemma_pow2_pos(127);
    power2::lemma_pow2_pos(128);
    assert(constants::of(constants::PI).value() == 0xc9_0fdb * power2::pow2(127));
    assert(unit() == 0x40_0000 * power2::pow2(127));
}

/// The degrees in a radian, to six digits.
pub proof fn degrees_in_units()
    ensures
        572957 * unit() <= 10000 * constants::of(math::DEGREES_PER_RADIAN).value(),
        10000 * constants::of(math::DEGREES_PER_RADIAN).value() <= 572958 * unit(),
        5729578 * unit() <= 100000 * constants::of(math::DEGREES_PER_RADIAN).value(),
        100000 * constants::of(math::DEGREES_PER_RADIAN).value() <= 5729579 * unit(),
        amount(constants::of(math::DEGREES_PER_RADIAN)),
{
    let h = single::HIDDEN as nat;
    power2::lemma2_to64();
    ieee::pattern_parts(h, 131, 0xe5_2ee1);
    power2::lemma_pow2_adds(18, 131);
    power2::lemma_pow2_pos(131);
}

/// Whether a rate in radians and a period make up one turn.
pub open spec fn is_turn(frequency: Single, period: Single) -> bool {
    let turn = frequency.value() * period.value();
    &&& 6283184 * (unit() * unit()) <= 1000000 * turn
    &&& 1000000 * turn <= 6283187 * (unit() * unit())
}

/// A turn divided by a positive number, times that number, is a turn.
pub proof fn turn_over(x: Single)
    requires
        amount(x),
        x.rank() > 0,
        constants::of(constants::TWO_PI).over_spec(x).finite(),
    ensures
        single_laws::normal(constants::of(constants::TWO_PI).over_spec(x)),
        is_turn(constants::of(constants::TWO_PI).over_spec(x), x),
        is_turn(x, constants::of(constants::TWO_PI).over_spec(x)),
        close(
            constants::of(constants::TWO_PI).over_spec(x).value() * x.value(),
            constants::of(constants::TWO_PI).value() * unit(),
            1,
        ),
{
    let h = single::HIDDEN as nat;
    let inf = single::INFINITE as nat;
    let turn = constants::of(constants::TWO_PI);
    let u = unit();
    let q = turn.over_spec(x);
    pi_in_units();
    amount_has_value(x);
    amount_has_value(turn);
    power2::lemma2_to64();
    power2::lemma_pow2_pos(single::UNIT as nat);
    ieee::pattern_parts(h, 128, 0xc9_0fdb);
    ieee::pattern_parts(h, 0, h);
    single_laws::power_pattern_value(h, 23, 277);
    ieee::pattern_value_increases(h, x.magnitude() as nat, inf);
    let v = x.value();
    let p = power2::pow2(128) as int;
    power2::lemma_pow2_adds(128, 149);
    assert(turn.value() * u >= h * v) by (nonlinear_arith)
        requires
            turn.value() == 0xc9_0fdb * p,
            v <= p * u,
            p * u >= 0,
            h == 0x80_0000,
    {
        assert(turn.value() * u == 0xc9_0fdb * (p * u)) by (nonlinear_arith)
            requires
                turn.value() == 0xc9_0fdb * p,
        ;
    }
    let n = (turn.value() * u) as nat;
    ieee::nearest_exists(h, inf, n, v as nat);
    ieee::nearest_at_least(h, inf, n, v as nat, h);
    quotient_is_close(turn, x);
    let t = turn.value();
    let c = q.value() * v;
    assert(c == v * q.value()) by (nonlinear_arith)
        requires
            c == q.value() * v,
    ;
    let w = u * u;
    assert(6283185 * w <= 1000000 * (t * u) && 1000000 * (t * u) <= 6283186 * w)
        by (nonlinear_arith)
        requires
            w == u * u,
            u >= 0,
            6283185 * u <= 1000000 * t,
            1000000 * t <= 6283186 * u,
    ;
    assert(w >= 0) by (nonlinear_arith)
        requires
            w == u * u,
    ;
    assert(1 * (t * u) == t * u) by (nonlinear_arith);
}

/// A number between two powers of two is an amount, held to full precision.
pub proof fn between_is_amount(x: Single, r: nat, s: nat)
    requires
        single_laws::between(x, r, s),
        23 <= r,
    ensures
        amount(x),
        single_laws::normal(x),
        x.rank() > 0,
        x.value() > 0,
{
    let h = single::HIDDEN as nat;
    power2::lemma2_to64();
    power2::lemma_pow2_pos(r);
    if r > 23 {
        power2::lemma_pow2_strictly_increases(23, r);
    }
    ieee::pattern_value_increases(h, 0, x.magnitude() as nat);
    ieee::pattern_parts(h, 0, h);
    if x.magnitude() < h {
        ieee::pattern_value_increases(h, x.magnitude() as nat, h);
    }
}

/// A quotient of numbers between powers of two is between what those leave.
pub proof fn quotient_between(a: Single, b: Single, r: nat, s: nat, t: nat, v: nat)
    requires
        single_laws::between(a, r, s),
        single_laws::between(b, t, v),
        23 <= s < 277,
        23 <= v < 277,
        23 <= t,
        v + 23 <= r + 149 < v + 277,
        t <= s + 126,
        s + 149 - t < 277,
    ensures
        single_laws::between(a.over_spec(b), (r + 149 - v) as nat, (s + 149 - t) as nat),
        single_laws::normal(a.over_spec(b)),
{
    single_laws::quotient_within(a, b, s, t);
    power2::lemma_pow2_pos(t);
    single_laws::quotient_at_least(a, b, r, v);
    between_is_amount(a.over_spec(b), (r + 149 - v) as nat, (s + 149 - t) as nat);
}

/// The root of a number between powers of two is finite, positive and held to
/// full precision; brought to degrees, its square is the number in degrees
/// squared, to six digits.
pub proof fn degrees_of_root(x: Single)
    requires
        single_laws::between(x, 49, 249),
    ensures
        ({
            let y = x.sqrt_spec().times_spec(constants::of(math::DEGREES_PER_RADIAN));
            &&& single_laws::normal(y)
            &&& 328280 * (x.value() * unit()) <= 100 * (y.value() * y.value())
            &&& 100 * (y.value() * y.value()) <= 328281 * (x.value() * unit())
        }),
{
    let d = constants::of(math::DEGREES_PER_RADIAN);
    let u = unit();
    let r = x.sqrt_spec();
    let y = r.times_spec(d);
    between_is_amount(x, 49, 249);
    root_is_close(x);
    degrees_in_units();
    power2::lemma_pow2_pos(single::UNIT as nat);
    let (vx, vr, vd) = (x.value(), r.value(), d.value());
    amount_has_value(r);
    amount_has_value(d);
    root_bounds(x);
    power2::lemma2_to64();
    power2::lemma_pow2_adds(18, 131);
    power2::lemma_pow2_adds(5, 149);
    power2::lemma_pow2_adds(6, 149);
    single_laws::within_values(d, 155);
    single_laws::product_between(r, d, 98, 200, 154, 155);
    product_is_close(r, d);
    let vy = y.value();
    // (vy * u)^2 is close to (vr * vd)^2, which is close to vx * u * vd * vd.
    close_products(vy * u, vr * vd, 1, vy * u, vr * vd, 1);
    let rr = vr * vr;
    let dd = vd * vd;
    close_times(rr, vx * u, 2, dd);
    assert((vr * vd) * (vr * vd) == rr * dd) by (nonlinear_arith)
        requires
            rr == vr * vr,
            dd == vd * vd,
    ;
    close_chain((vy * u) * (vy * u), rr * dd, (vx * u) * dd, 3, 2);
    let yy = vy * vy;
    let uu = u * u;
    assert((vy * u) * (vy * u) == yy * uu) by (nonlinear_arith)
        requires
            yy == vy * vy,
            uu == u * u,
    ;
    let xu = vx * u;
    assert(xu >= 0) by (nonlinear_arith)
        requires
            xu == vx * u,
            vx >= 0,
            u >= 0,
    ;
    assert(uu > 0) by (nonlinear_arith)
        requires
            uu == u * u,
            u > 0,
    ;
    // dd in units squared.
    assert(3282806 * uu <= 1000 * dd && 1000 * dd <= 3282807 * uu) by {
        assert(u == 0x4_0000 * power2::pow2(131));
        ieee::pattern_parts(single::HIDDEN as nat, 131, 0xe5_2ee1);
        let p = power2::pow2(131) as int;
        let pp = p * p;
        assert(dd == 0xe5_2ee1 * 0xe5_2ee1 * pp) by (nonlinear_arith)
            requires
                dd == vd * vd,
                vd == 0xe5_2ee1 * p,
                pp == p * p,
        ;
        assert(uu == 0x4_0000 * 0x4_0000 * pp) by (nonlinear_arith)
            requires
                uu == u * u,
                u == 0x4_0000 * p,
                pp == p * p,
        ;
        assert(pp >= 0) by (nonlinear_arith)
            requires
                pp == p * p,
        ;
        assert(3282806 * (0x4_0000 * 0x4_0000 * pp) <= 1000 * (0xe5_2ee1 * 0xe5_2ee1 * pp)
            && 1000 * (0xe5_2ee1 * 0xe5_2ee1 * pp) <= 3282807 * (0x4_0000 * 0x4_0000 * pp))
            by (nonlinear_arith)
            requires
                pp >= 0,
        ;
    }
    let z = xu * dd;
    let g = xu * uu;
    assert(3282806 * g <= 1000 * z && 1000 * z <= 3282807 * g) by (nonlinear_arith)
        requires
            z == xu * dd,
            g == xu * uu,
            xu >= 0,
            3282806 * uu <= 1000 * dd,
            1000 * dd <= 3282807 * uu,
    ;
    let l = yy * uu;
    assert(328280 * g <= 100 * l && 100 * l <= 328281 * g) by {
        assert(0x80_0000 * (l - z) <= 6 * z && 0x80_0000 * (z - l) <= 6 * z);
        assert(g >= 0) by (nonlinear_arith)
            requires
                g == xu * uu,
                xu >= 0,
                uu > 0,
        ;
    }
    assert(328280 * xu <= 100 * yy && 100 * yy <= 328281 * xu) by (nonlinear_arith)
        requires
            l == yy * uu,
            g == xu * uu,
            uu > 0,
            328280 * g <= 100 * l,
            100 * l <= 328281 * g,
    ;
}

/// The root of a number between powers of two is between powers of two.
pub proof fn root_bounds(x: Single)
    requires
        single_laws::between(x, 49, 249),
    ensures
        single_laws::between(x.sqrt_spec(), 98, 200),
{
    let r = x.sqrt_spec();
    let u = unit();
    between_is_amount(x, 49, 249);
    root_is_close(x);
    amount_has_value(r);
    single_laws::within_values(x, 249);
    single_laws::within_values(r, 200);
    let v = r.value();
    let n = x.value() * u;
    power2::lemma2_to64();
    power2::lemma_pow2_adds(49, 149);
    power2::lemma_pow2_adds(249, 149);
    power2::lemma_pow2_adds(98, 98);
    power2::lemma_pow2_adds(200, 200);
    power2::lemma_pow2_adds(196, 2);
    power2::lemma_pow2_adds(398, 2);
    power2::lemma_pow2_pos(196);
    power2::lemma_pow2_pos(398);
    power2::lemma_pow2_pos(98);
    power2::lemma_pow2_pos(200);
    assert(n >= power2::pow2(49) * u && n <= power2::pow2(249) * u) by (nonlinear_arith)
        requires
            n == x.value() * u,
            power2::pow2(49) <= x.value() <= power2::pow2(249),
            u >= 0,
    ;
    let a = power2::pow2(98) as int;
    let b = power2::pow2(200) as int;
    if v < a {
        assert(v * v <= a * a) by (nonlinear_arith)
            requires
                0 <= v <= a,
        ;
    }
    if v > b {
        assert(v * v >= b * b) by (nonlinear_arith)
            requires
                v >= b >= 0,
        ;
    }
}

/// Quotients fall as the divisor grows.
pub proof fn quotients_reverse(a: Single, b: Single, c: Single)
    requires
        amount(a),
        amount(b),
        amount(c),
        0 < b.rank() <= c.rank(),
    ensures
        single_laws::nonnegative(a.over_spec(b)),
        single_laws::nonnegative(a.over_spec(c)),
        a.over_spec(c).rank() <= a.over_spec(b).rank(),
{
    let h = single::HIDDEN as nat;
    let inf = single::INFINITE as nat;
    let u = power2::pow2(single::UNIT as nat);
    amount_has_value(a);
    amount_has_value(b);
    amount_has_value(c);
    single::rank_orders_values(b, c);
    let n = (a.value() as nat) * u;
    let x = b.value() as nat;
    let y = c.value() as nat;
    assert(n * x <= n * y) by (nonlinear_arith)
        requires
            x <= y,
            n >= 0,
    ;
    ieee::nearest_exists(h, inf, n, x);
    ieee::nearest_exists(h, inf, n, y);
    ieee::nearest_in_order(h, inf, n, y, n, x);
}

/// Products with a positive factor keep the order of numbers that may be
/// infinite.
pub proof fn products_in_order(a: Single, b: Single, c: Single)
    requires
        single_laws::nonnegative(a),
        single_laws::nonnegative(b),
        amount(c),
        c.rank() > 0,
        a.rank() <= b.rank(),
    ensures
        single_laws::nonnegative(a.times_spec(c)),
        single_laws::nonnegative(b.times_spec(c)),
        a.times_spec(c).rank() <= b.times_spec(c).rank(),
{
    if b.finite() {
        single_laws::times_in_order(a, b, c);
    } else if a.finite() {
        single_laws::times_in_order(a, a, c);
    }
}

/// Whether two amounts of the same sign differ by no more than `k` roundings.
pub open spec fn alike(x: int, y: int, k: int) -> bool {
    close(x, y, k) || close(-x, -y, k)
}

proof fn sign_of_product(a: Single, b: Single)
    requires
        a.finite(),
        b.finite(),
    ensures
        amount(a.abs_spec()),
        amount(b.abs_spec()),
        a.abs_spec().value() == arithmetic::magnitude(a.value()),
        b.abs_spec().value() == arithmetic::magnitude(b.value()),
        a.negative() == b.negative() ==> a.value() * b.value() == a.abs_spec().value()
            * b.abs_spec().value(),
        a.negative() != b.negative() ==> a.value() * b.value() == -(a.abs_spec().value()
            * b.abs_spec().value()),
{
    let (x, y) = (a.value(), b.value());
    ieee::pattern_value_increases(single::HIDDEN as nat, 0, a.magnitude() as nat);
    ieee::pattern_value_increases(single::HIDDEN as nat, 0, b.magnitude() as nat);
    assert((-x) * y == -(x * y) && x * (-y) == -(x * y) && (-x) * (-y) == x * y)
        by (nonlinear_arith);
}

/// Whether the magnitude of a number is held to full precision.
pub open spec fn precise(x: Single) -> bool {
    x.finite() && x.magnitude() >= single::HIDDEN
}

/// A product of numbers of either sign is alike to the product of the values.
pub proof fn product_is_alike(a: Single, b: Single)
    requires
        a.finite(),
        b.finite(),
        precise(a.times_spec(b)),
    ensures
        alike(a.times_spec(b).value() * unit(), a.value() * b.value(), 1),
{
    sign_of_product(a, b);
    let p = a.abs_spec().times_spec(b.abs_spec());
    let r = a.times_spec(b);
    ieee::nearest_exists(
        single::HIDDEN as nat,
        single::INFINITE as nat,
        arithmetic::magnitude(a.value()) * arithmetic::magnitude(b.value()),
        power2::pow2(single::UNIT as nat),
    );
    assert(p.magnitude() == r.magnitude() && !p.negative());
    product_is_close(a.abs_spec(), b.abs_spec());
    let u = unit();
    let v = r.value();
    assert((-v) * u == -(v * u)) by (nonlinear_arith);
}

/// Whether two amounts are no further apart than a tolerance, but for a whole
/// number of turns.
pub open spec fn turns_apart(x: int, y: int, turn: int, tolerance: int) -> bool {
    exists|k: int| #[trigger] by_turns(x, y, turn, tolerance, k)
}

pub open spec fn by_turns(x: int, y: int, turn: int, tolerance: int, k: int) -> bool {
    -tolerance <= x - y - k * turn <= tolerance
}

/// A number brought into one turn is where it was, but for whole turns and two
/// roundings.
pub proof fn remainder_keeps_place(x: Single, m: Single)
    requires
        x.finite(),
        amount(m),
        m.rank() > 0,
    ensures
        ({
            let r = x.rem_euclid_spec(m);
            &&& r.finite()
            &&& 0 <= r.value() <= m.value()
            &&& turns_apart(0x80_0000 * r.value(), 0x80_0000 * x.value(), 0x80_0000 * m.value(), m.value())
        }),
{
    let h = single::HIDDEN as nat;
    let inf = single::INFINITE as nat;
    let zero = Single { bits: 0 };
    let v = m.value();
    amount_has_value(m);
    single_laws::rem_euclid_in_range(x, m);
    single_laws::rem_in_range(x, m);
    let r = x.rem_spec(m);
    let a = arithmetic::magnitude(x.value());
    let n = (a as int % v) as nat;
    let q = a as int / v;
    vstd::arithmetic::div_mod::lemma_fundamental_div_mod(a as int, v);
    vstd::arithmetic::div_mod::lemma_mod_bound(a as int, v);
    ieee::nearest_exists(h, inf, n, 1);
    let b = ieee::nearest(h, inf, n, 1);
    assert(r == Single::of_parts(x.negative(), b));
    ieee::nearest_at_most(h, inf, n, 1, m.magnitude() as nat);
    ieee::nearest_integer_is_close(h, inf, n);
    let y = ieee::pattern_value(h, b) as int;
    ieee::pattern_value_increases(h, b, m.magnitude() as nat);
    ieee::pattern_value_increases(h, 0, m.magnitude() as nat);
    ieee::pattern_value_increases(h, 0, r.magnitude() as nat);
    assert(2 * h * (y - n) == 0x100_0000 * (y - n) && 2 * h * (n - y) == 0x100_0000 * (n - y));
    assert(y <= v);
    assert(v * q == q * v) by (nonlinear_arith);
    assert((-q) * v == -(q * v)) by (nonlinear_arith);
    let k = if x.negative() {
        q
    } else {
        -q
    };
    let e = x.rem_euclid_spec(m);
    single::rank_orders_values(r, zero);
    assert(zero.value() == 0);
    single::rank_orders_values(e, m);
    single::rank_orders_values(zero, e);
    let p = 0x80_0000 * v;
    if r.lt_spec(zero) {
        assert(m.abs_spec() == m);
        sum_is_close(r, m);
        assert(1 * (r.value() + v) == r.value() + v) by (nonlinear_arith);
        nearest_sum(r, m);
        assert((k + 1) * p == 0x80_0000 * (k * v) + p) by (nonlinear_arith)
            requires
                p == 0x80_0000 * v,
        ;
        assert(by_turns(0x80_0000 * e.value(), 0x80_0000 * x.value(), p, v, k + 1));
    } else {
        assert(k * p == 0x80_0000 * (k * v)) by (nonlinear_arith)
            requires
                p == 0x80_0000 * v,
        ;
        assert(by_turns(0x80_0000 * e.value(), 0x80_0000 * x.value(), p, v, k));
    }
}

/// A sum is off by no more than half a rounding of itself.
proof fn nearest_sum(a: Single, b: Single)
    requires
        a.finite(),
        b.finite(),
        a.value() + b.value() >= 0,
        a.plus_spec(b).finite(),
    ensures
        0x100_0000 * (a.plus_spec(b).value() - (a.value() + b.value())) <= a.plus_spec(b).value(),
        0x100_0000 * ((a.value() + b.value()) - a.plus_spec(b).value()) <= a.plus_spec(b).value(),
{
    let h = single::HIDDEN as nat;
    let inf = single::INFINITE as nat;
    let s = a.value() + b.value();
    let n = arithmetic::magnitude(s);
    ieee::nearest_exists(h, inf, n, 1);
    let k = ieee::nearest(h, inf, n, 1);
    ieee::nearest_integer_is_close(h, inf, n);
    if s == 0 {
        ieee::nearest_of_held(h, inf, 0);
    }
    assert(a.plus_spec(b).magnitude() == k);
    assert(2 * h == 0x100_0000);
}

/// A product of three amounts and two roundings.
pub proof fn product_of_three_is_close(a: Single, b: Single, c: Single)
    requires
        amount(a),
        amount(b),
        amount(c),
        single_laws::normal(a.times_spec(b)),
        single_laws::normal(a.times_spec(b).times_spec(c)),
    ensures
        close(
            a.times_spec(b).times_spec(c).value() * (unit() * unit()),
            a.value() * b.value() * c.value(),
            3,
        ),
{
    let u = unit();
    power2::lemma_pow2_pos(single::UNIT as nat);
    let x = a.times_spec(b);
    let t = x.times_spec(c);
    product_is_close(a, b);
    product_is_close(x, c);
    amount_has_value(c);
    let (vx, vt, vc) = (x.value(), t.value(), c.value());
    close_times(vt * u, vx * vc, 1, u);
    close_times(vx * u, a.value() * b.value(), 1, vc);
    assert((vx * vc) * u == (vx * u) * vc) by (nonlinear_arith);
    close_chain((vt * u) * u, (vx * vc) * u, (a.value() * b.value()) * vc, 1, 1);
    assert((vt * u) * u == vt * (u * u)) by (nonlinear_arith);
}

/// A milli-unit of time at a rate: `ms / 1000 * rate`.
pub proof fn milliseconds_at_rate(ms: Single, thousand: Single, rate: Single)
    requires
        single_laws::between(ms, 109, 189),
        single_laws::between(rate, 129, 189),
        single_laws::between(thousand, 158, 159),
        thousand.value() == 1000 * unit(),
    ensures
        ({
            let x = ms.over_spec(thousand).times_spec(rate);
            &&& single_laws::between(x, 79, 220)
            &&& close(1000 * (x.value() * unit()), ms.value() * rate.value(), 3)
        }),
{
    let u = unit();
    power2::lemma_pow2_pos(single::UNIT as nat);
    quotient_between(ms, thousand, 109, 189, 158, 159);
    let q = ms.over_spec(thousand);
    single_laws::product_between(q, rate, 99, 180, 129, 189);
    let x = q.times_spec(rate);
    between_is_amount(ms, 109, 189);
    between_is_amount(rate, 129, 189);
    between_is_amount(thousand, 158, 159);
    between_is_amount(q, 99, 180);
    quotient_is_close(ms, thousand);
    product_is_close(q, rate);
    let (a, b, v, w) = (ms.value(), rate.value(), q.value(), x.value());
    assert(v * (1000 * u) == (1000 * v) * u) by (nonlinear_arith);
    close_without(1000 * v, a, 1, u);
    close_times(w * u, v * b, 1, 1000);
    close_times(1000 * v, a, 1, b);
    assert(1000 * (v * b) == (1000 * v) * b) by (nonlinear_arith);
    close_chain(1000 * (w * u), 1000 * (v * b), a * b, 1, 1);
    power2::lemma_pow2_strictly_increases(79, 220);
}

/// A quotient that is positive does not round to zero unless it is too small
/// to be held.
pub proof fn quotient_not_lost(a: Single, b: Single)
    requires
        amount(a),
        amount(b),
        b.rank() > 0,
        a.rank() > 0,
        within_one_of(a, b),
    ensures
        a.over_spec(b).rank() > 0,
{
    let h = single::HIDDEN as nat;
    let inf = single::INFINITE as nat;
    amount_has_value(a);
    amount_has_value(b);
    let u = power2::pow2(single::UNIT as nat);
    let n = (a.value() as nat) * u;
    let d = b.value() as nat;
    ieee::pattern_parts(h, 0, 1);
    ieee::nearest_exists(h, inf, n, d);
    assert(1 * d == d);
    ieee::nearest_at_least(h, inf, n, d, 1);
}

/// Whether a quotient is at least one unit.
pub open spec fn within_one_of(a: Single, b: Single) -> bool {
    a.value() * unit() >= b.value()
}

} // verus!
