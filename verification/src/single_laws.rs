//! How single-precision arithmetic keeps the order of numbers.
use crate::arithmetic;
use crate::constants;
use crate::ieee;
use crate::single;
use crate::single::Single;
use vstd::arithmetic::power2;
use vstd::prelude::*;

verus! {

/// A number that is not negative, which may be infinite.
pub open spec fn nonnegative(x: Single) -> bool {
    !x.nan() && !x.negative()
}

/// The number of units in one.
pub proof fn value_of_one()
    ensures
        constants::of(single::ONE_BITS).value() == power2::pow2(single::UNIT as nat),
        power2::pow2(single::UNIT as nat) > 0,
{
    power2::lemma_pow2_pos(single::UNIT as nat);
    power2::lemma2_to64();
    power2::lemma2_to64_rest();
    power2::lemma_pow2_adds(23, 126);
    assert(0x3f80_0000nat / 0x80_0000nat == 127 && 0x3f80_0000nat % 0x80_0000nat == 0);
}

proof fn of_pattern(b: nat)
    requires
        b <= single::INFINITE,
    ensures
        Single::of_parts(false, b).bits == b,
        Single::of_parts(false, b).rank() == b,
        nonnegative(Single::of_parts(false, b)),
{
}

/// Sums of numbers that are not negative keep their order.
pub proof fn plus_in_order(a: Single, b: Single, c: Single)
    requires
        nonnegative(a),
        nonnegative(b),
        nonnegative(c),
        a.rank() <= b.rank(),
    ensures
        nonnegative(c.plus_spec(a)),
        nonnegative(c.plus_spec(b)),
        c.plus_spec(a).rank() <= c.plus_spec(b).rank(),
        c.rank() <= c.plus_spec(a).rank(),
{
    let h = single::HIDDEN as nat;
    let inf = single::INFINITE as nat;
    let x = c.magnitude() as nat;
    if c.finite() && a.finite() {
        ieee::pattern_value_increases(h, 0, a.magnitude() as nat);
        ieee::pattern_value_increases(h, 0, c.magnitude() as nat);
        let s = (c.value() + a.value()) as nat;
        ieee::nearest_exists(h, inf, s, 1);
        of_pattern(ieee::nearest(h, inf, s, 1));
        ieee::nearest_at_least(h, inf, s, 1, x);
        if b.finite() {
            single::rank_orders_values(a, b);
            let t = (c.value() + b.value()) as nat;
            ieee::nearest_exists(h, inf, t, 1);
            of_pattern(ieee::nearest(h, inf, t, 1));
            ieee::nearest_in_order(h, inf, s, 1, t, 1);
        }
    }
}

/// Squares of numbers that are not negative keep their order.
pub proof fn square_in_order(a: Single, b: Single)
    requires
        nonnegative(a),
        nonnegative(b),
        a.rank() <= b.rank(),
    ensures
        nonnegative(a.times_spec(a)),
        nonnegative(b.times_spec(b)),
        a.times_spec(a).rank() <= b.times_spec(b).rank(),
{
    let h = single::HIDDEN as nat;
    let inf = single::INFINITE as nat;
    let d = power2::pow2(single::UNIT as nat);
    power2::lemma_pow2_pos(single::UNIT as nat);
    if a.finite() {
        ieee::pattern_value_increases(h, 0, a.magnitude() as nat);
        let x = a.value() as nat;
        ieee::nearest_exists(h, inf, x * x, d);
        of_pattern(ieee::nearest(h, inf, x * x, d));
        if b.finite() {
            single::rank_orders_values(a, b);
            let y = b.value() as nat;
            ieee::nearest_exists(h, inf, y * y, d);
            of_pattern(ieee::nearest(h, inf, y * y, d));
            assert(x * x * d <= y * y * d) by (nonlinear_arith)
                requires
                    0 <= x <= y,
                    d > 0,
            ;
            ieee::nearest_in_order(h, inf, x * x, d, y * y, d);
        }
    }
}

/// Products with a factor that is not negative keep the order of the other
/// ones.
pub proof fn times_in_order(a: Single, b: Single, c: Single)
    requires
        nonnegative(a),
        a.finite(),
        nonnegative(b),
        b.finite(),
        nonnegative(c),
        c.finite(),
        a.rank() <= b.rank(),
    ensures
        nonnegative(a.times_spec(c)),
        nonnegative(b.times_spec(c)),
        a.times_spec(c).rank() <= b.times_spec(c).rank(),
{
    let h = single::HIDDEN as nat;
    let inf = single::INFINITE as nat;
    let d = power2::pow2(single::UNIT as nat);
    power2::lemma_pow2_pos(single::UNIT as nat);
    ieee::pattern_value_increases(h, 0, a.magnitude() as nat);
    ieee::pattern_value_increases(h, 0, b.magnitude() as nat);
    ieee::pattern_value_increases(h, 0, c.magnitude() as nat);
    single::rank_orders_values(a, b);
    let x = a.value() as nat;
    let y = b.value() as nat;
    let z = c.value() as nat;
    ieee::nearest_exists(h, inf, x * z, d);
    of_pattern(ieee::nearest(h, inf, x * z, d));
    ieee::nearest_exists(h, inf, y * z, d);
    of_pattern(ieee::nearest(h, inf, y * z, d));
    assert(x * z * d <= y * z * d) by (nonlinear_arith)
        requires
            0 <= x <= y,
            0 <= z,
            d > 0,
    ;
    ieee::nearest_in_order(h, inf, x * z, d, y * z, d);
}

/// One leaves a number as it is.
pub proof fn one_times(x: Single)
    requires
        nonnegative(x),
        x.finite(),
    ensures
        constants::of(single::ONE_BITS).times_spec(x) == x,
{
    let h = single::HIDDEN as nat;
    let inf = single::INFINITE as nat;
    value_of_one();
    ieee::pattern_value_increases(h, 0, x.magnitude() as nat);
    let d = power2::pow2(single::UNIT as nat);
    assert(d * (x.value() as nat) == (x.value() as nat) * d) by (nonlinear_arith);
    ieee::nearest_of_value(h, inf, d * (x.value() as nat), d, x.magnitude() as nat);
}

/// Quotients by a positive number keep the order of the dividends.
pub proof fn over_in_order(a: Single, b: Single, c: Single)
    requires
        nonnegative(a),
        a.finite(),
        nonnegative(b),
        b.finite(),
        nonnegative(c),
        c.finite(),
        c.rank() > 0,
        a.rank() <= b.rank(),
    ensures
        nonnegative(a.over_spec(c)),
        nonnegative(b.over_spec(c)),
        a.over_spec(c).rank() <= b.over_spec(c).rank(),
{
    let h = single::HIDDEN as nat;
    let inf = single::INFINITE as nat;
    let u = power2::pow2(single::UNIT as nat);
    power2::lemma_pow2_pos(single::UNIT as nat);
    ieee::pattern_value_increases(h, 0, a.magnitude() as nat);
    ieee::pattern_value_increases(h, 0, b.magnitude() as nat);
    ieee::pattern_value_increases(h, 0, c.magnitude() as nat);
    single::rank_orders_values(a, b);
    let x = a.value() as nat;
    let y = b.value() as nat;
    let z = c.value() as nat;
    ieee::nearest_exists(h, inf, x * u, z);
    of_pattern(ieee::nearest(h, inf, x * u, z));
    ieee::nearest_exists(h, inf, y * u, z);
    of_pattern(ieee::nearest(h, inf, y * u, z));
    assert(x * u * z <= y * u * z) by (nonlinear_arith)
        requires
            0 <= x <= y,
            0 <= u,
            0 <= z,
    ;
    ieee::nearest_in_order(h, inf, x * u, z, y * u, z);
}

/// Quotients of one by numbers from one on reverse their order, and lie
/// between zero and one.
pub proof fn one_over_in_order(a: Single, b: Single)
    requires
        nonnegative(a),
        nonnegative(b),
        constants::of(single::ONE_BITS).rank() <= a.rank() <= b.rank(),
    ensures
        nonnegative(constants::of(single::ONE_BITS).over_spec(a)),
        nonnegative(constants::of(single::ONE_BITS).over_spec(b)),
        constants::of(single::ONE_BITS).over_spec(b).rank() <= constants::of(
            single::ONE_BITS,
        ).over_spec(a).rank(),
        constants::of(single::ONE_BITS).over_spec(a).rank() <= constants::of(
            single::ONE_BITS,
        ).rank(),
{
    let h = single::HIDDEN as nat;
    let inf = single::INFINITE as nat;
    let one = constants::of(single::ONE_BITS);
    let u = power2::pow2(single::UNIT as nat);
    value_of_one();
    if a.finite() {
        single::rank_orders_values(one, a);
        let x = a.value() as nat;
        ieee::nearest_exists(h, inf, u * u, x);
        of_pattern(ieee::nearest(h, inf, u * u, x));
        assert(u * u <= u * x) by (nonlinear_arith)
            requires
                0 <= u <= x,
        ;
        ieee::nearest_at_most(h, inf, u * u, x, one.magnitude() as nat);
        if b.finite() {
            single::rank_orders_values(a, b);
            let y = b.value() as nat;
            ieee::nearest_exists(h, inf, u * u, y);
            of_pattern(ieee::nearest(h, inf, u * u, y));
            assert(u * u * x <= u * u * y) by (nonlinear_arith)
                requires
                    0 <= x <= y,
                    0 <= u,
            ;
            ieee::nearest_in_order(h, inf, u * u, y, u * u, x);
        } else {
            of_pattern(0);
        }
    } else {
        of_pattern(0);
    }
}

/// A positive number over itself is one.
pub proof fn over_itself(x: Single)
    requires
        nonnegative(x),
        x.finite(),
        x.rank() > 0,
    ensures
        x.over_spec(x) == constants::of(single::ONE_BITS),
{
    let h = single::HIDDEN as nat;
    let inf = single::INFINITE as nat;
    value_of_one();
    let u = power2::pow2(single::UNIT as nat);
    ieee::pattern_value_increases(h, 0, x.magnitude() as nat);
    let v = x.value() as nat;
    assert(v * u == u * v) by (nonlinear_arith);
    ieee::nearest_of_value(h, inf, v * u, v, single::ONE_BITS as nat);
}

/// A number between zero and one.
pub open spec fn in_unit_range(x: Single) -> bool {
    nonnegative(x) && x.rank() <= constants::of(single::ONE_BITS).rank()
}

/// What is left of one, held between zero and one, lies there.
pub proof fn rest_in_unit_range(x: Single)
    requires
        !x.nan(),
    ensures
        in_unit_range(
            constants::of(single::ONE_BITS).minus_spec(x).clamp_spec(
                constants::of(0),
                constants::of(single::ONE_BITS),
            ),
        ),
        in_unit_range(x) ==> in_unit_range(constants::of(single::ONE_BITS).minus_spec(x)),
{
    let h = single::HIDDEN as nat;
    let inf = single::INFINITE as nat;
    let one = constants::of(single::ONE_BITS);
    let y = x.neg_spec();
    if x.finite() {
        let s = one.value() + y.value();
        let n = arithmetic::magnitude(s);
        ieee::nearest_exists(h, inf, n, 1);
        if n > 0 {
            ieee::nearest_at_least(h, inf, n, 1, 1);
        } else {
            ieee::nearest_of_held(h, inf, 0);
        }
        value_of_one();
        ieee::pattern_value_increases(h, 0, x.magnitude() as nat);
        if in_unit_range(x) {
            ieee::pattern_value_increases(h, x.magnitude() as nat, single::ONE_BITS as nat);
            ieee::nearest_at_most(h, inf, n, 1, single::ONE_BITS as nat);
        }
    }
}

/// The more is taken from one, the less is left.
pub proof fn rest_in_order(x: Single, y: Single)
    requires
        in_unit_range(x),
        in_unit_range(y),
        x.rank() <= y.rank(),
    ensures
        constants::of(single::ONE_BITS).minus_spec(y).rank() <= constants::of(
            single::ONE_BITS,
        ).minus_spec(x).rank(),
        y == constants::of(single::ONE_BITS) ==> constants::of(single::ONE_BITS).minus_spec(
            y,
        ).rank() == 0,
{
    let h = single::HIDDEN as nat;
    let inf = single::INFINITE as nat;
    let one = constants::of(single::ONE_BITS);
    rest_in_unit_range(x);
    rest_in_unit_range(y);
    single::rank_orders_values(x, y);
    single::rank_orders_values(y, one);
    ieee::pattern_value_increases(h, 0, x.magnitude() as nat);
    let s = (one.value() - x.value()) as nat;
    let t = (one.value() - y.value()) as nat;
    assert(x.neg_spec().value() == -x.value() && y.neg_spec().value() == -y.value());
    ieee::nearest_exists(h, inf, s, 1);
    ieee::nearest_exists(h, inf, t, 1);
    of_pattern(ieee::nearest(h, inf, s, 1));
    of_pattern(ieee::nearest(h, inf, t, 1));
    ieee::nearest_in_order(h, inf, t, 1, s, 1);
    ieee::nearest_of_held(h, inf, 0);
}

/// Counts keep their order when they are rounded, and none is lost to zero or
/// to infinity.
pub proof fn counts_in_order(a: int, b: int)
    requires
        0 <= a <= b <= u64::MAX,
    ensures
        nonnegative(Single::from_integer_spec(a)),
        Single::from_integer_spec(a).finite(),
        nonnegative(Single::from_integer_spec(b)),
        Single::from_integer_spec(b).finite(),
        Single::from_integer_spec(a).rank() <= Single::from_integer_spec(b).rank(),
        a > 0 ==> Single::from_integer_spec(a).rank() > 0,
{
    let h = single::HIDDEN as nat;
    let inf = single::INFINITE as nat;
    let u = power2::pow2(single::UNIT as nat);
    power2::lemma_pow2_pos(single::UNIT as nat);
    assert(a * u <= b * u) by (nonlinear_arith)
        requires
            a <= b,
            u > 0,
    ;
    assert(0 <= a * u && (a > 0 ==> a * u >= 1)) by (nonlinear_arith)
        requires
            a >= 0,
            u > 0,
    ;
    ieee::nearest_in_order(h, inf, (a * u) as nat, 1, (b * u) as nat, 1);
    if a > 0 {
        ieee::nearest_at_least(h, inf, (a * u) as nat, 1, 1);
    }
    let top = 0x5f80_0000nat;
    power2::lemma2_to64();
    power2::lemma2_to64_rest();
    power2::lemma_pow2_adds(23, 190);
    power2::lemma_pow2_adds(64, 149);
    assert(top / h == 191 && top % h == 0);
    assert(ieee::pattern_value(h, top) == power2::pow2(64) * u);
    assert(b * u <= power2::pow2(64) * u) by (nonlinear_arith)
        requires
            b <= power2::pow2(64),
            u > 0,
    ;
    ieee::nearest_at_most(h, inf, (b * u) as nat, 1, top);
}

/// A product with a number between zero and one does not rise above the other
/// factor.
pub proof fn times_unit(x: Single, share: Single)
    requires
        nonnegative(x),
        x.finite(),
        in_unit_range(share),
    ensures
        nonnegative(x.times_spec(share)),
        x.times_spec(share).rank() <= x.rank(),
        x.times_spec(share) == share.times_spec(x),
{
    let one = constants::of(single::ONE_BITS);
    times_in_order(share, one, x);
    one_times(x);
    let a = arithmetic::magnitude(x.value());
    let b = arithmetic::magnitude(share.value());
    assert(a * b == b * a) by (nonlinear_arith);
}

/// The remainder that is not negative lies between zero and the modulus.
pub proof fn rem_euclid_in_range(x: Single, m: Single)
    requires
        x.finite(),
        nonnegative(m),
        m.finite(),
        m.rank() > 0,
    ensures
        x.rem_euclid_spec(m).finite(),
        0 <= x.rem_euclid_spec(m).rank() <= m.rank(),
{
    let h = single::HIDDEN as nat;
    let inf = single::INFINITE as nat;
    ieee::pattern_value_increases(h, 0, m.magnitude() as nat);
    let v = m.value() as nat;
    let n = arithmetic::magnitude(x.value()) % v;
    ieee::nearest_exists(h, inf, n, 1);
    ieee::nearest_at_most(h, inf, n, 1, m.magnitude() as nat);
    let r = x.rem_spec(m);
    assert(r.finite() && r.magnitude() <= m.magnitude());
    if r.lt_spec(Single { bits: 0 }) {
        ieee::pattern_value_increases(h, 0, r.magnitude() as nat);
        ieee::pattern_value_increases(h, r.magnitude() as nat, m.magnitude() as nat);
        assert(m.abs_spec() == m);
        let s = (r.value() + m.value()) as nat;
        ieee::nearest_exists(h, inf, s, 1);
        ieee::nearest_at_most(h, inf, s, 1, m.magnitude() as nat);
    }
}

/// The remainder has the sign of the dividend and is no larger than the
/// modulus.
pub proof fn rem_in_range(x: Single, m: Single)
    requires
        x.finite(),
        nonnegative(m),
        m.finite(),
        m.rank() > 0,
    ensures
        x.rem_spec(m).finite(),
        -m.rank() <= x.rem_spec(m).rank() <= m.rank(),
        !x.negative() ==> x.rem_spec(m).rank() >= 0,
{
    let h = single::HIDDEN as nat;
    let inf = single::INFINITE as nat;
    ieee::pattern_value_increases(h, 0, m.magnitude() as nat);
    let n = arithmetic::magnitude(x.value()) % (m.value() as nat);
    ieee::nearest_exists(h, inf, n, 1);
    ieee::nearest_at_most(h, inf, n, 1, m.magnitude() as nat);
}

/// Less than a whole that is twice a half, and more than the half, leaves less
/// than the half when the whole is taken off.
pub proof fn past_half(x: Single, half: Single, whole: Single)
    requires
        nonnegative(half),
        whole.finite(),
        whole.value() == 2 * half.value(),
        x.finite(),
        half.rank() <= x.rank() <= whole.rank(),
    ensures
        x.minus_spec(whole).finite(),
        -half.rank() <= x.minus_spec(whole).rank() <= 0,
        whole.minus_spec(x).finite(),
        0 <= whole.minus_spec(x).rank() <= half.rank(),
{
    let h = single::HIDDEN as nat;
    let inf = single::INFINITE as nat;
    ieee::pattern_value_increases(h, 0, half.magnitude() as nat);
    single::rank_orders_values(half, x);
    single::rank_orders_values(x, whole);
    assert(whole.neg_spec().value() == -whole.value());
    assert(x.neg_spec().value() == -x.value());
    let n = (whole.value() - x.value()) as nat;
    ieee::nearest_exists(h, inf, n, 1);
    ieee::nearest_at_most(h, inf, n, 1, half.magnitude() as nat);
    if n == 0 {
        ieee::nearest_of_held(h, inf, 0);
    }
}

/// One less than a number that is not negative is at least minus one.
pub proof fn less_one_is_above(x: Single)
    requires
        nonnegative(x),
        x.finite(),
    ensures
        !x.minus_spec(constants::of(single::ONE_BITS)).nan(),
        x.minus_spec(constants::of(single::ONE_BITS)).rank() >= -constants::of(
            single::ONE_BITS,
        ).rank(),
{
    let h = single::HIDDEN as nat;
    let inf = single::INFINITE as nat;
    let one = constants::of(single::ONE_BITS);
    assert(one.neg_spec().value() == -one.value());
    ieee::pattern_value_increases(h, 0, x.magnitude() as nat);
    value_of_one();
    let n = arithmetic::magnitude(x.value() - one.value());
    ieee::nearest_exists(h, inf, n, 1);
    if x.value() < one.value() {
        ieee::nearest_at_most(h, inf, n, 1, single::ONE_BITS as nat);
    }
}

/// A number as large as the format holds to its full precision.
pub open spec fn normal(x: Single) -> bool {
    nonnegative(x) && x.finite() && x.rank() >= single::HIDDEN
}

/// A product of three numbers is off by no more than two roundings: by one
/// part in `2^23`, and a trace more.
pub proof fn product_of_three_is_close(a: Single, b: Single, c: Single)
    requires
        nonnegative(a),
        a.finite(),
        nonnegative(b),
        b.finite(),
        nonnegative(c),
        c.finite(),
        normal(a.times_spec(b)),
        normal(a.times_spec(b).times_spec(c)),
    ensures
        ({
            let h = single::HIDDEN as int;
            let u = power2::pow2(single::UNIT as nat) as int;
            let exact = a.value() * b.value() * c.value();
            let t = a.times_spec(b).times_spec(c).value() * u * u;
            &&& 4 * h * h * (t - exact) <= (4 * h + 1) * t
            &&& 4 * h * h * (exact - t) <= (4 * h + 1) * t
        }),
{
    let h = single::HIDDEN as nat;
    let inf = single::INFINITE as nat;
    let u = power2::pow2(single::UNIT as nat);
    power2::lemma_pow2_pos(single::UNIT as nat);
    ieee::pattern_value_increases(h, 0, a.magnitude() as nat);
    ieee::pattern_value_increases(h, 0, b.magnitude() as nat);
    ieee::pattern_value_increases(h, 0, c.magnitude() as nat);
    let x = a.times_spec(b);
    let t = x.times_spec(c);
    ieee::pattern_value_increases(h, 0, x.magnitude() as nat);
    ieee::pattern_value_increases(h, 0, t.magnitude() as nat);
    let (va, vb, vc, vx, vt) = (a.value(), b.value(), c.value(), x.value(), t.value());
    let n = (va * vb) as nat;
    let m = (vx * vc) as nat;
    assert(va * vb >= 0 && vx * vc >= 0) by (nonlinear_arith)
        requires
            va >= 0,
            vb >= 0,
            vx >= 0,
            vc >= 0,
    ;
    ieee::nearest_exists(h, inf, n, u);
    ieee::nearest_exists(h, inf, m, u);
    of_pattern(ieee::nearest(h, inf, n, u));
    of_pattern(ieee::nearest(h, inf, m, u));
    ieee::nearest_is_close(h, inf, n, u);
    ieee::nearest_is_close(h, inf, m, u);
    two_roundings(h as int, u as int, n as int, vx, vc, vt);
}

proof fn two_roundings(h: int, u: int, n: int, x: int, c: int, t: int)
    requires
        h > 0,
        u > 0,
        n >= 0,
        x >= 0,
        c >= 0,
        t >= 0,
        2 * h * (u * x - n) <= u * x,
        2 * h * (n - u * x) <= u * x,
        2 * h * (u * t - x * c) <= u * t,
        2 * h * (x * c - u * t) <= u * t,
    ensures
        4 * h * h * (t * u * u - n * c) <= (4 * h + 1) * (t * u * u),
        4 * h * h * (n * c - t * u * u) <= (4 * h + 1) * (t * u * u),
{
    let w = t * u * u;
    let y = x * c * u;
    let e = n * c;
    let k = 2 * h;
    assert(k * (w - y) <= w && k * (y - w) <= w) by (nonlinear_arith)
        requires
            k == 2 * h,
            w == t * u * u,
            y == x * c * u,
            2 * h * (u * t - x * c) <= u * t,
            2 * h * (x * c - u * t) <= u * t,
            u > 0,
    {
        let p = u * t;
        let q = x * c;
        assert(w == p * u && y == q * u) by (nonlinear_arith)
            requires
                w == t * u * u,
                y == x * c * u,
                p == u * t,
                q == x * c,
        ;
        assert(k * (p * u - q * u) == (k * (p - q)) * u) by (nonlinear_arith);
        assert(k * (q * u - p * u) == (k * (q - p)) * u) by (nonlinear_arith);
        assert((k * (p - q)) * u <= p * u) by (nonlinear_arith)
            requires
                k * (p - q) <= p,
                u > 0,
        ;
        assert((k * (q - p)) * u <= p * u) by (nonlinear_arith)
            requires
                k * (q - p) <= p,
                u > 0,
        ;
    }
    assert(k * (y - e) <= y && k * (e - y) <= y) by (nonlinear_arith)
        requires
            k == 2 * h,
            y == x * c * u,
            e == n * c,
            2 * h * (u * x - n) <= u * x,
            2 * h * (n - u * x) <= u * x,
            c >= 0,
    {
        let p = u * x;
        assert(y == p * c) by (nonlinear_arith)
            requires
                y == x * c * u,
                p == u * x,
        ;
        assert(k * (p * c - n * c) == (k * (p - n)) * c) by (nonlinear_arith);
        assert(k * (n * c - p * c) == (k * (n - p)) * c) by (nonlinear_arith);
        assert((k * (p - n)) * c <= p * c) by (nonlinear_arith)
            requires
                k * (p - n) <= p,
                c >= 0,
        ;
        assert((k * (n - p)) * c <= p * c) by (nonlinear_arith)
            requires
                k * (n - p) <= p,
                c >= 0,
        ;
    }
    assert(w >= 0) by (nonlinear_arith)
        requires
            w == t * u * u,
            t >= 0,
            u > 0,
    ;
    let f = 4 * h * h;
    assert(f * (w - e) == k * (k * (w - y)) + k * (k * (y - e))) by (nonlinear_arith)
        requires
            f == 4 * h * h,
            k == 2 * h,
    ;
    assert(f * (e - w) == k * (k * (y - w)) + k * (k * (e - y))) by (nonlinear_arith)
        requires
            f == 4 * h * h,
            k == 2 * h,
    ;
    assert(k * (k * (w - y)) <= k * w && k * (k * (y - w)) <= k * w) by (nonlinear_arith)
        requires
            k * (w - y) <= w,
            k * (y - w) <= w,
            k > 0,
    ;
    assert(k * (k * (y - e)) <= k * y && k * (k * (e - y)) <= k * y) by (nonlinear_arith)
        requires
            k * (y - e) <= y,
            k * (e - y) <= y,
            k > 0,
    ;
    assert(k * y <= k * w + w) by (nonlinear_arith)
        requires
            k * (y - w) <= w,
    ;
    assert((4 * h + 1) * w == k * w + k * w + w) by (nonlinear_arith)
        requires
            k == 2 * h,
    ;
}

/// The pattern of `2^r` units of a format.
pub open spec fn power_pattern(h: nat, t: nat, r: nat) -> nat {
    ((r - t + 1) * h) as nat
}

/// The value of the pattern of a power of two, in a format whose hidden bit
/// weighs `2^t`.
pub proof fn power_pattern_value(h: nat, t: nat, r: nat)
    requires
        h == power2::pow2(t),
        h > 0,
        r >= t,
    ensures
        ieee::pattern_value(h, power_pattern(h, t, r)) == power2::pow2(r),
{
    let j = (r - t) as nat;
    assert(power_pattern(h, t, r) == j * h + h) by (nonlinear_arith)
        requires
            power_pattern(h, t, r) == (j + 1) * h,
    ;
    ieee::pattern_parts(h, j, h);
    power2::lemma_pow2_adds(t, j);
    assert(h * power2::pow2(j) == power2::pow2(t) * power2::pow2(j));
}

/// An integer that the significand has room for is a number of the format.
pub proof fn whole_number_is_held(h: nat, inf: nat, n: nat, unit: nat, room: nat)
    requires
        h > 0,
        n <= 2 * h,
        0 < n ==> n * power2::pow2(room) >= h,
        room <= unit,
        (unit + 2) * h <= inf,
    ensures
        ({
            let b = ieee::nearest(h, inf, n * power2::pow2(unit), 1);
            &&& b <= inf
            &&& ieee::pattern_value(h, b) == n * power2::pow2(unit)
        }),
    decreases unit,
{
    if n == 0 {
        assert(0 * power2::pow2(unit) == 0);
        ieee::nearest_of_held(h, inf, 0);
    } else if n >= h {
        let b = unit * h + n;
        ieee::pattern_parts(h, unit, n);
        assert(b <= inf) by (nonlinear_arith)
            requires
                b == unit * h + n,
                n <= 2 * h,
                (unit + 2) * h <= inf,
        ;
        ieee::nearest_of_held(h, inf, b);
    } else {
        if room == 0 {
            power2::lemma2_to64();
            assert(n * 1 == n);
        }
        let p = power2::pow2((room - 1) as nat);
        let q = power2::pow2((unit - 1) as nat);
        power2::lemma_pow2_unfold(room);
        power2::lemma_pow2_unfold(unit);
        assert((2 * n) * p == n * (2 * p)) by (nonlinear_arith);
        assert((2 * n) * q == n * (2 * q)) by (nonlinear_arith);
        assert((unit - 1 + 2) * h <= inf) by (nonlinear_arith)
            requires
                (unit + 2) * h <= inf,
                h > 0,
        ;
        whole_number_is_held(h, inf, 2 * n, (unit - 1) as nat, (room - 1) as nat);
    }
}

/// A magnitude lies within half a unit of the nearest integer.
pub proof fn nearest_integer_is_near(m: nat, p: nat)
    requires
        p > 0,
    ensures
        ({
            let n = (m / p + 1) / 2;
            -p <= m - n * (2 * p) <= p
        }),
{
    let q = m / p;
    let n = (q + 1) / 2;
    vstd::arithmetic::div_mod::lemma_fundamental_div_mod(m as int, p as int);
    vstd::arithmetic::div_mod::lemma_mod_bound(m as int, p as int);
    assert(n * (2 * p) == p * (2 * n)) by (nonlinear_arith);
    assert(2 * n == q || 2 * n == q + 1);
    assert(p * (q + 1) == p * q + p) by (nonlinear_arith);
}

/// What rounding to an integer takes off a number is at most one half.
pub proof fn rounded_off(x: Single)
    requires
        x.finite(),
    ensures
        x.minus_spec(x.round_spec()).finite(),
        -constants::of(0x3f00_0000).rank() <= x.minus_spec(x.round_spec()).rank()
            <= constants::of(0x3f00_0000).rank(),
{
    let h = single::HIDDEN as nat;
    let inf = single::INFINITE as nat;
    let half = 0x3f00_0000nat;
    let p = power2::pow2((single::UNIT - 1) as nat);
    let u = power2::pow2(single::UNIT as nat);
    power2::lemma2_to64();
    power2::lemma_pow2_unfold(single::UNIT as nat);
    power2::lemma_pow2_pos((single::UNIT - 1) as nat);
    power_pattern_value(h, 23, 148);
    let r = x.round_spec();
    ieee::nearest_of_held(h, inf, 0);
    if x.magnitude() >= single::WHOLE_BITS {
        assert(r == x);
        assert(x.neg_spec().value() == -x.value());
    } else {
        let m = arithmetic::magnitude(x.value());
        let n = x.nearest_integer();
        nearest_integer_is_near(m, p);
        power_pattern_value(h, 23, 173);
        ieee::pattern_value_increases(h, x.magnitude() as nat, single::WHOLE_BITS as nat);
        ieee::pattern_value_increases(h, 0, x.magnitude() as nat);
        power2::lemma_pow2_adds(24, 149);
        assert(n <= 2 * h) by (nonlinear_arith)
            requires
                n * (2 * p) <= m + p,
                m < (2 * h) * (2 * p),
                p > 0,
        ;
        assert(0 < n ==> n * power2::pow2(23) >= h) by (nonlinear_arith)
            requires
                power2::pow2(23) == h,
        ;
        whole_number_is_held(h, inf, n, single::UNIT as nat, 23);
        let b = ieee::nearest(h, inf, n * u, 1);
        assert(b < inf) by {
            assert(n * u <= (2 * h) * u) by (nonlinear_arith)
                requires
                    n <= 2 * h,
                    u > 0,
            ;
            ieee::nearest_at_most(h, inf, n * u, 1, single::WHOLE_BITS as nat);
        }
        assert(r.value() == if x.negative() {
            -(n * u)
        } else {
            (n * u) as int
        });
        assert(r.neg_spec().value() == -r.value());
        let s = x.value() - r.value();
        assert(arithmetic::magnitude(s) <= p);
        ieee::nearest_exists(h, inf, arithmetic::magnitude(s), 1);
        ieee::nearest_at_most(h, inf, arithmetic::magnitude(s), 1, half);
    }
}

/// A number no further from zero than `2^r` units.
pub open spec fn within(x: Single, r: nat) -> bool {
    x.finite() && x.magnitude() <= power_pattern(single::HIDDEN as nat, 23, r)
}

/// Numbers within a power of two have values within it.
pub proof fn within_values(x: Single, r: nat)
    requires
        x.finite(),
        23 <= r < 277,
    ensures
        within(x, r) <==> arithmetic::magnitude(x.value()) <= power2::pow2(r),
        power_pattern(single::HIDDEN as nat, 23, r) < single::INFINITE,
{
    let h = single::HIDDEN as nat;
    let b = power_pattern(h, 23, r);
    let m = x.magnitude() as nat;
    power2::lemma2_to64();
    power_pattern_value(h, 23, r);
    ieee::pattern_value_increases(h, 0, m);
    if m <= b {
        ieee::pattern_value_increases(h, m, b);
    } else {
        ieee::pattern_value_increases(h, b, m);
    }
}

/// The number nearest to one that is within a power of two is within it.
pub proof fn rounded_within(negative: bool, n: nat, d: nat, r: nat)
    requires
        d > 0,
        23 <= r < 277,
        n <= power2::pow2(r) * d,
    ensures
        within(Single::rounded(negative, n, d), r),
        Single::rounded(negative, n, d).negative() == negative,
{
    let h = single::HIDDEN as nat;
    let inf = single::INFINITE as nat;
    power2::lemma2_to64();
    power_pattern_value(h, 23, r);
    ieee::nearest_exists(h, inf, n, d);
    ieee::nearest_at_most(h, inf, n, d, power_pattern(h, 23, r));
}

/// A sum of two numbers is within twice as much as they are.
pub proof fn sum_within(a: Single, b: Single, r: nat)
    requires
        within(a, r),
        within(b, r),
        23 <= r < 276,
    ensures
        within(a.plus_spec(b), r + 1),
{
    within_values(a, r);
    within_values(b, r);
    power2::lemma_pow2_unfold(r + 1);
    let s = a.value() + b.value();
    rounded_within(
        if s == 0 {
            a.negative() && b.negative()
        } else {
            s < 0
        },
        arithmetic::magnitude(s),
        1,
        r + 1,
    );
}

/// A product of two numbers is within the product of what they are within.
pub proof fn product_within(a: Single, b: Single, r: nat, s: nat)
    requires
        within(a, r),
        within(b, s),
        23 <= r < 277,
        23 <= s < 277,
        172 <= r + s < 426,
    ensures
        within(a.times_spec(b), (r + s - 149) as nat),
{
    within_values(a, r);
    within_values(b, s);
    let t = (r + s - 149) as nat;
    let x = arithmetic::magnitude(a.value());
    let y = arithmetic::magnitude(b.value());
    power2::lemma_pow2_adds(r, s);
    power2::lemma_pow2_adds(t, 149);
    power2::lemma_pow2_pos(149);
    assert(x * y <= power2::pow2(r) * power2::pow2(s)) by (nonlinear_arith)
        requires
            0 <= x <= power2::pow2(r),
            0 <= y <= power2::pow2(s),
    ;
    rounded_within(
        a.negative() != b.negative(),
        x * y,
        power2::pow2(single::UNIT as nat),
        t,
    );
}

/// A whole number of samples is within `2^64`.
pub proof fn count_within(n: int)
    requires
        -u64::MAX <= n <= u64::MAX,
    ensures
        within(Single::from_integer_spec(n), 213),
{
    let u = power2::pow2(single::UNIT as nat);
    let m = arithmetic::magnitude(n);
    power2::lemma2_to64_rest();
    power2::lemma_pow2_adds(64, 149);
    assert(m * u <= power2::pow2(64) * u) by (nonlinear_arith)
        requires
            m <= power2::pow2(64),
            u >= 0,
    ;
    rounded_within(n < 0, m * u, 1, 213);
}

/// A number up to a whole, with half of it taken off, is at most the half
/// away from zero.
pub proof fn about_half(x: Single, half: Single, whole: Single)
    requires
        nonnegative(half),
        half.finite(),
        whole.finite(),
        whole.value() == 2 * half.value(),
        x.finite(),
        0 <= x.rank() <= whole.rank(),
    ensures
        x.minus_spec(half).finite(),
        -half.rank() <= x.minus_spec(half).rank() <= half.rank(),
{
    let h = single::HIDDEN as nat;
    let inf = single::INFINITE as nat;
    ieee::pattern_value_increases(h, 0, half.magnitude() as nat);
    ieee::pattern_value_increases(h, 0, whole.magnitude() as nat);
    ieee::pattern_value_increases(h, 0, x.magnitude() as nat);
    single::rank_orders_values(x, whole);
    single::rank_orders_values(half, whole);
    assert(half.neg_spec().value() == -half.value());
    let n = arithmetic::magnitude(x.value() - half.value());
    ieee::nearest_exists(h, inf, n, 1);
    ieee::nearest_at_most(h, inf, n, 1, half.magnitude() as nat);
}

/// A product of finite numbers is a number, if perhaps an infinite one.
pub proof fn finite_product(a: Single, b: Single)
    requires
        a.finite(),
        b.finite(),
    ensures
        !a.times_spec(b).nan(),
{
    ieee::nearest_exists(
        single::HIDDEN as nat,
        single::INFINITE as nat,
        arithmetic::magnitude(a.value()) * arithmetic::magnitude(b.value()),
        power2::pow2(single::UNIT as nat),
    );
}

/// A finite number plus one that may be infinite is a number.
pub proof fn finite_plus_number(a: Single, b: Single)
    requires
        a.finite(),
        !b.nan(),
    ensures
        !a.plus_spec(b).nan(),
{
    ieee::nearest_exists(
        single::HIDDEN as nat,
        single::INFINITE as nat,
        arithmetic::magnitude(a.value() + b.value()),
        1,
    );
}

/// A number between two that are within a power of two is within it.
pub proof fn between_within(x: Single, low: Single, high: Single, r: nat)
    requires
        within(low, r),
        within(high, r),
        low.le_spec(x),
        x.le_spec(high),
    ensures
        within(x, r),
{
}

/// The difference of two finite numbers in order is not negative.
pub proof fn difference_in_order(low: Single, high: Single)
    requires
        low.finite(),
        high.finite(),
        low.rank() <= high.rank(),
    ensures
        !high.minus_spec(low).nan(),
        high.minus_spec(low).rank() >= 0,
{
    let h = single::HIDDEN as nat;
    let inf = single::INFINITE as nat;
    single::rank_orders_values(low, high);
    assert(low.neg_spec().value() == -low.value());
    let n = (high.value() - low.value()) as nat;
    ieee::nearest_exists(h, inf, n, 1);
    if n == 0 {
        ieee::nearest_of_held(h, inf, 0);
    }
}

/// A whole number that the significand has room for is held exactly.
pub proof fn count_is_exact(n: int)
    requires
        -0x100_0000 <= n <= 0x100_0000,
    ensures
        Single::from_integer_spec(n).finite(),
        Single::from_integer_spec(n).value() == n * power2::pow2(single::UNIT as nat),
{
    let h = single::HIDDEN as nat;
    let inf = single::INFINITE as nat;
    let u = power2::pow2(single::UNIT as nat);
    let m = arithmetic::magnitude(n);
    power2::lemma2_to64();
    power2::lemma_pow2_adds(24, single::UNIT as nat);
    assert(0 < m ==> m * power2::pow2(23) >= h) by (nonlinear_arith)
        requires
            power2::pow2(23) == h,
    ;
    whole_number_is_held(h, inf, m, single::UNIT as nat, 23);
    assert(m * u <= power2::pow2(24) * u) by (nonlinear_arith)
        requires
            m <= power2::pow2(24),
            u >= 0,
    ;
    rounded_within(n < 0, m * u, 1, 173);
    if n < 0 {
        assert(n * u == -(m * u)) by (nonlinear_arith)
            requires
                n == -m,
        ;
    }
}

/// A sum is off by no more than one part in `2^24` of what it is within.
pub proof fn sum_is_close(a: Single, b: Single, r: nat)
    requires
        a.finite(),
        b.finite(),
        23 <= r < 277,
        arithmetic::magnitude(a.value() + b.value()) <= power2::pow2(r),
    ensures
        within(a.plus_spec(b), r),
        0x100_0000 * (a.plus_spec(b).value() - (a.value() + b.value())) <= power2::pow2(r),
        0x100_0000 * ((a.value() + b.value()) - a.plus_spec(b).value()) <= power2::pow2(r),
{
    let h = single::HIDDEN as nat;
    let inf = single::INFINITE as nat;
    let s = a.value() + b.value();
    let n = arithmetic::magnitude(s);
    let negative = if s == 0 {
        a.negative() && b.negative()
    } else {
        s < 0
    };
    rounded_within(negative, n, 1, r);
    within_values(a.plus_spec(b), r);
    ieee::nearest_exists(h, inf, n, 1);
    let x = ieee::nearest(h, inf, n, 1);
    assert(a.plus_spec(b) == Single::of_parts(negative, x));
    assert(a.plus_spec(b).magnitude() == x);
    ieee::nearest_integer_is_close(h, inf, n);
    let v = ieee::pattern_value(h, x) as int;
    assert(2 * h * (v - n) == 0x100_0000 * (v - n) && 2 * h * (n - v) == 0x100_0000 * (n - v));
    if s == 0 {
        ieee::nearest_of_held(h, inf, 0);
    }
}

/// What is within a power of two is within a larger one.
pub proof fn within_more(x: Single, r: nat, s: nat)
    requires
        within(x, r),
        23 <= r <= s,
    ensures
        within(x, s),
{
    let h = single::HIDDEN as nat;
    assert((r - 23 + 1) * h <= (s - 23 + 1) * h) by (nonlinear_arith)
        requires
            r <= s,
            h > 0,
    ;
}

/// A sum that is at least a number of the format rounds to no less.
pub proof fn sum_is_at_least(a: Single, b: Single, x: Single)
    requires
        a.finite(),
        b.finite(),
        x.finite(),
        a.value() + b.value() >= x.value(),
        a.plus_spec(b).finite(),
    ensures
        a.plus_spec(b).value() >= x.value(),
{
    let h = single::HIDDEN as nat;
    let inf = single::INFINITE as nat;
    let s = a.value() + b.value();
    let n = arithmetic::magnitude(s);
    ieee::nearest_exists(h, inf, n, 1);
    let k = ieee::nearest(h, inf, n, 1);
    let m = x.magnitude() as nat;
    ieee::pattern_value_increases(h, 0, m);
    ieee::pattern_value_increases(h, 0, k);
    if s >= 0 && x.value() > 0 {
        ieee::nearest_at_least(h, inf, n, 1, m);
        ieee::pattern_value_increases(h, m, k);
    } else if s < 0 {
        ieee::nearest_at_most(h, inf, n, 1, m);
        ieee::pattern_value_increases(h, k, m);
    } else if s == 0 {
        ieee::nearest_of_held(h, inf, 0);
    }
}

/// A quotient by a number from `2^s` units on is within what that leaves of
/// the dividend.
pub proof fn quotient_within(a: Single, b: Single, r: nat, s: nat)
    requires
        within(a, r),
        b.finite(),
        b.value() >= power2::pow2(s),
        23 <= r < 277,
        s <= r + 126,
        r + 149 - s < 277,
    ensures
        within(a.over_spec(b), (r + 149 - s) as nat),
{
    let u = power2::pow2(single::UNIT as nat);
    let x = arithmetic::magnitude(a.value());
    let y = b.value() as nat;
    let t = (r + 149 - s) as nat;
    within_values(a, r);
    power2::lemma_pow2_pos(s);
    power2::lemma_pow2_adds(r, 149);
    power2::lemma_pow2_adds(t, s);
    assert(b.magnitude() > 0) by {
        ieee::pattern_value_increases(single::HIDDEN as nat, 0, 0);
    }
    assert(x * u <= power2::pow2(r) * u) by (nonlinear_arith)
        requires
            x <= power2::pow2(r),
            u >= 0,
    ;
    assert(power2::pow2(t) * power2::pow2(s) <= power2::pow2(t) * y) by (nonlinear_arith)
        requires
            power2::pow2(s) <= y,
            power2::pow2(t) >= 0,
    ;
    rounded_within(a.negative() != b.negative(), x * u, y, t);
}

/// A quotient of a number from `2^r` units on, by a positive one within `2^s`,
/// is at least what that leaves.
pub proof fn quotient_at_least(a: Single, b: Single, r: nat, s: nat)
    requires
        a.finite(),
        a.value() >= power2::pow2(r),
        within(b, s),
        b.value() > 0,
        23 <= s < 277,
        s + 23 <= r + 149 < s + 277,
        a.over_spec(b).finite(),
    ensures
        a.over_spec(b).value() >= power2::pow2((r + 149 - s) as nat),
{
    let h = single::HIDDEN as nat;
    let inf = single::INFINITE as nat;
    let u = power2::pow2(single::UNIT as nat);
    let x = a.value() as nat;
    let y = b.value() as nat;
    let t = (r + 149 - s) as nat;
    within_values(b, s);
    power2::lemma2_to64();
    power2::lemma_pow2_pos(r);
    power2::lemma_pow2_adds(r, 149);
    power2::lemma_pow2_adds(t, s);
    power2::lemma_pow2_pos(t);
    power_pattern_value(h, 23, t);
    let p = power_pattern(h, 23, t);
    ieee::pattern_value_increases(h, 0, b.magnitude() as nat);
    ieee::pattern_value_increases(h, 0, a.magnitude() as nat);
    assert(power2::pow2(t) * y <= power2::pow2(t) * power2::pow2(s)) by (nonlinear_arith)
        requires
            y <= power2::pow2(s),
            power2::pow2(t) >= 0,
    ;
    assert(power2::pow2(r) * u <= x * u) by (nonlinear_arith)
        requires
            power2::pow2(r) <= x,
            u >= 0,
    ;
    within_values(constants::of(0), t);
    ieee::nearest_exists(h, inf, x * u, y);
    ieee::nearest_at_least(h, inf, x * u, y, p);
    ieee::pattern_value_increases(h, p, ieee::nearest(h, inf, x * u, y));
}

/// A whole number up to `2^r` is within that many.
pub proof fn count_within_power(n: int, r: nat)
    requires
        -power2::pow2(r) <= n <= power2::pow2(r),
        r < 128,
    ensures
        within(Single::from_integer_spec(n), r + 149),
{
    let u = power2::pow2(single::UNIT as nat);
    let m = arithmetic::magnitude(n);
    power2::lemma_pow2_adds(r, 149);
    assert(m * u <= power2::pow2(r) * u) by (nonlinear_arith)
        requires
            m <= power2::pow2(r),
            u >= 0,
    ;
    rounded_within(n < 0, m * u, 1, r + 149);
}

/// Rounding a number to an integer leaves it within twice as much.
pub proof fn round_within(x: Single, r: nat)
    requires
        within(x, r),
        149 <= r < 276,
    ensures
        within(x.round_spec(), r + 1),
{
    if x.magnitude() >= single::WHOLE_BITS {
        within_more(x, r, r + 1);
    } else {
        let p = power2::pow2((single::UNIT - 1) as nat);
        let u = power2::pow2(single::UNIT as nat);
        let n = x.nearest_integer();
        let m = arithmetic::magnitude(x.value());
        power2::lemma_pow2_pos((single::UNIT - 1) as nat);
        power2::lemma_pow2_unfold(single::UNIT as nat);
        power2::lemma_pow2_unfold(r + 1);
        if 149 < r {
            power2::lemma_pow2_strictly_increases(149, r);
        }
        within_values(x, r);
        nearest_integer_is_near(m, p);
        assert(n * (2 * p) == n * u);
        rounded_within(x.negative(), n * u, 1, r + 1);
    }
}

/// The integer part of a number within a power of two, and the next integer.
pub proof fn counts_are_within(x: Single, r: nat)
    requires
        within(x, r + 149),
        r < 64,
    ensures
        x.to_count_spec() <= power2::pow2(r),
        x.ceil_count_spec() <= power2::pow2(r) + 1,
{
    let u = power2::pow2(single::UNIT as nat) as int;
    let m = arithmetic::magnitude(x.value()) as int;
    within_values(x, r + 149);
    power2::lemma_pow2_adds(r, 149);
    power2::lemma_pow2_pos(single::UNIT as nat);
    vstd::arithmetic::div_mod::lemma_div_is_ordered(m, power2::pow2(r) * u, u);
    vstd::arithmetic::div_mod::lemma_div_by_multiple(power2::pow2(r) as int, u);
}

/// A sum that is at most a number of the format rounds to no more.
pub proof fn sum_is_at_most(a: Single, b: Single, x: Single)
    requires
        a.finite(),
        b.finite(),
        x.finite(),
        a.value() + b.value() <= x.value(),
        a.plus_spec(b).finite(),
    ensures
        a.plus_spec(b).value() <= x.value(),
{
    let h = single::HIDDEN as nat;
    let inf = single::INFINITE as nat;
    let s = a.value() + b.value();
    let n = arithmetic::magnitude(s);
    ieee::nearest_exists(h, inf, n, 1);
    let k = ieee::nearest(h, inf, n, 1);
    let m = x.magnitude() as nat;
    ieee::pattern_value_increases(h, 0, m);
    ieee::pattern_value_increases(h, 0, k);
    if s < 0 && x.value() < 0 {
        ieee::nearest_at_least(h, inf, n, 1, m);
        ieee::pattern_value_increases(h, m, k);
    } else if s > 0 {
        ieee::nearest_at_most(h, inf, n, 1, m);
        ieee::pattern_value_increases(h, k, m);
    } else if s == 0 {
        ieee::nearest_of_held(h, inf, 0);
    }
}

/// A number between two powers of two.
pub open spec fn between(x: Single, r: nat, s: nat) -> bool {
    within(x, s) && x.value() >= power2::pow2(r)
}

/// A product of numbers between powers of two is between their products, and
/// is held to full precision.
pub proof fn product_between(a: Single, b: Single, r: nat, s: nat, t: nat, v: nat)
    requires
        between(a, r, s),
        between(b, t, v),
        172 <= r + t <= s + v < 426,
        23 <= s < 277,
        23 <= v < 277,
    ensures
        between(a.times_spec(b), (r + t - 149) as nat, (s + v - 149) as nat),
        normal(a.times_spec(b)),
{
    let h = single::HIDDEN as nat;
    let inf = single::INFINITE as nat;
    let d = power2::pow2(single::UNIT as nat);
    let low = (r + t - 149) as nat;
    let x = a.value() as nat;
    let y = b.value() as nat;
    power2::lemma2_to64();
    power2::lemma_pow2_pos(r);
    power2::lemma_pow2_pos(t);
    power2::lemma_pow2_pos(single::UNIT as nat);
    power2::lemma_pow2_adds(r, t);
    power2::lemma_pow2_adds(low, 149);
    product_within(a, b, s, v);
    ieee::pattern_value_increases(h, 0, a.magnitude() as nat);
    ieee::pattern_value_increases(h, 0, b.magnitude() as nat);
    assert(x * y >= power2::pow2(r) * power2::pow2(t)) by (nonlinear_arith)
        requires
            x >= power2::pow2(r),
            y >= power2::pow2(t),
            power2::pow2(r) > 0,
            power2::pow2(t) > 0,
    ;
    power_pattern_value(h, 23, low);
    let p = power_pattern(h, 23, low);
    assert(p >= h) by (nonlinear_arith)
        requires
            p == (low - 23 + 1) * h,
            low >= 23,
            h > 0,
    ;
    within_values(a.times_spec(b), (s + v - 149) as nat);
    assert(p <= inf) by {
        within_values(constants::of(0), low);
    }
    ieee::nearest_exists(h, inf, x * y, d);
    ieee::nearest_at_least(h, inf, x * y, d, p);
    ieee::pattern_value_increases(h, p, ieee::nearest(h, inf, x * y, d));
}

/// A number between zero and one is within one.
pub proof fn rank_within_one(x: Single)
    requires
        in_unit_range(x),
    ensures
        within(x, 149),
{
}

/// One over a positive number of at most one is at least one.
pub proof fn one_over_small(x: Single)
    requires
        nonnegative(x),
        x.finite(),
        0 < x.rank() <= constants::of(single::ONE_BITS).rank(),
    ensures
        nonnegative(constants::of(single::ONE_BITS).over_spec(x)),
        constants::of(single::ONE_BITS).over_spec(x).rank() >= constants::of(
            single::ONE_BITS,
        ).rank(),
{
    let h = single::HIDDEN as nat;
    let inf = single::INFINITE as nat;
    let one = constants::of(single::ONE_BITS);
    let u = power2::pow2(single::UNIT as nat);
    value_of_one();
    ieee::pattern_value_increases(h, 0, x.magnitude() as nat);
    single::rank_orders_values(x, one);
    let v = x.value() as nat;
    assert(u * u >= u * v) by (nonlinear_arith)
        requires
            u >= v,
    ;
    ieee::nearest_exists(h, inf, u * u, v);
    of_pattern(ieee::nearest(h, inf, u * u, v));
    ieee::nearest_at_least(h, inf, u * u, v, one.magnitude() as nat);
}

} // verus!
