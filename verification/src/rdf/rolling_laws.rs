//! What the statistics of a sliding window stand for.
use crate::arithmetic;
use crate::close;
use crate::double;
use crate::double::Double;
use crate::double_laws;
use crate::double_laws::apart;
use crate::ieee;
use crate::rdf::rolling_stats::Rolling;
use crate::single::Single;
use vstd::arithmetic::power2;
use vstd::prelude::*;

verus! {

/// The number of double-precision units in one, and in the smallest
/// single-precision number.
pub open spec fn double_unit() -> int {
    power2::pow2(double::UNIT as nat) as int
}

pub open spec fn widening() -> int {
    power2::pow2(double::WIDENING as nat) as int
}

/// A value that is zero, or of a size that no rounding loses: from `2^1000`
/// units of the smallest double-precision number to `2^1180`.
pub open spec fn sizeable(x: int) -> bool {
    x == 0 || power2::pow2(1000) <= apart(x, 0) <= power2::pow2(1180)
}

/// A rounded ratio of moderate size is close to it.
proof fn rounded_is_close(negative: bool, n: nat, d: nat)
    requires
        d > 0,
        n == 0 || double::HIDDEN as nat * d <= n,
        n <= power2::pow2(2000) * d,
    ensures
        ({
            let r = Double::rounded(negative, n, d);
            &&& r.finite()
            &&& n > 0 ==> r.negative() == negative
            &&& close::close(apart(r.value(), 0) * d, n as int, 1)
            &&& apart(r.value(), 0) * d <= 2 * n
            &&& r.value() == if negative {
                -apart(r.value(), 0)
            } else {
                apart(r.value(), 0)
            }
        }),
{
    let h = double::HIDDEN as nat;
    let inf = double::INFINITE as nat;
    double_laws::rounded_value(negative, n, d, 2000);
    ieee::nearest_exists(h, inf, n, d);
    let b = ieee::nearest(h, inf, n, d);
    let v = ieee::pattern_value(h, b) as int;
    if n == 0 {
        assert(0 * d == 0);
        ieee::nearest_of_value(h, inf, 0, d, 0);
        ieee::pattern_parts(h, 0, 0);
        assert(v == 0);
        assert(1 * 0 == 0);
    } else {
        ieee::pattern_parts(h, 0, h);
        power2::lemma2_to64();
        ieee::nearest_at_least(h, inf, n, d, h);
        ieee::nearest_is_close(h, inf, n, d);
        assert(2 * h == 0x20_0000_0000_0000);
        let x = v * d;
        assert(d * v == x) by (nonlinear_arith)
            requires
                x == v * d,
        ;
        assert(0x20_0000_0000_0000 * (x - n) <= x && 0x20_0000_0000_0000 * (n - x) <= x);
        assert(1 * (n as int) == n) by (nonlinear_arith);
    }
}

/// The mean times the number of values is the sum that is carried along, up to
/// the rounding to single precision.
pub proof fn mean_shares_the_sum(r: Rolling)
    requires
        1 <= r.window.len() <= 0x100_0000,
        sizeable(r.sum.value()),
        r.sum.finite(),
    ensures
        r.mean() matches Some(m) && {
            let n = r.window.len() as int;
            let sum = r.sum.value();
            &&& m.finite()
            &&& 0x80_0000 * apart((m.value() * widening()) * n, sum) <= 4 * apart(sum, 0)
                + 0x100_0000 * (widening() * n)
        },
{
    let n = r.window.len() as int;
    let u = double_unit();
    let g = widening();
    let s = r.sum.value();
    let a = apart(s, 0);
    let count = Double::from_count_spec(n as nat);
    sum_over_count(r.sum, n);
    let q = r.sum.over_spec(count);
    power2::lemma_pow2_pos(double::WIDENING as nat);
    power2::lemma_pow2_strictly_increases(1181, 1190);
    double_laws::narrowing_is_close(q);
    let m = q.to_single_spec();
    let w = m.value() * g;
    let (x, y) = (q.value(), apart(q.value(), 0));
    let d = w - x;
    assert(0xff_ffff * apart(w, x) <= y + 0x100_0000 * g);
    assert(apart(w * n, x * n) == apart(w, x) * n) by {
        assert(w * n - x * n == d * n) by (nonlinear_arith)
            requires
                d == w - x,
        ;
        assert((-d) * n == -(d * n)) by (nonlinear_arith);
        if d >= 0 {
            assert(d * n >= 0) by (nonlinear_arith)
                requires
                    d >= 0,
                    n >= 0,
            ;
        } else {
            assert(d * n <= 0) by (nonlinear_arith)
                requires
                    d < 0,
                    n >= 0,
            ;
        }
    }
    let e = apart(w, x);
    assert(0xff_ffff * (e * n) <= y * n + 0x100_0000 * (g * n)) by (nonlinear_arith)
        requires
            0xff_ffff * e <= y + 0x100_0000 * g,
            n >= 0,
    ;
    let yn = y * n;
    // x * n is within one rounding of the sum.
    assert(0x80_0000 * apart(x * n, s) <= a) by {
        assert((-y) * n == -(y * n)) by (nonlinear_arith);
        assert(1 * a == a) by (nonlinear_arith);
    }
    assert(g * n >= 0) by (nonlinear_arith)
        requires
            g >= 0,
            n >= 0,
    ;
}

/// A sum over a count.
proof fn sum_over_count(sum: Double, n: int)
    requires
        sum.finite(),
        sizeable(sum.value()),
        1 <= n <= 0x100_0000,
    ensures
        ({
            let q = sum.over_spec(Double::from_count_spec(n as nat));
            &&& q.finite()
            &&& double_laws::within(q, 1181)
            &&& close::close(apart(q.value(), 0) * n, apart(sum.value(), 0), 1)
            &&& q.value() == if sum.negative() {
                -apart(q.value(), 0)
            } else {
                apart(q.value(), 0)
            }
            &&& sum.negative() ==> sum.value() <= 0
            &&& !sum.negative() ==> sum.value() >= 0
        }),
{
    let u = double_unit();
    let h = double::HIDDEN as nat;
    let a = apart(sum.value(), 0);
    let count = Double::from_count_spec(n as nat);
    power2::lemma2_to64();
    power2::lemma2_to64_rest();
    power2::lemma_pow2_pos(double::UNIT as nat);
    power2::lemma_pow2_pos(1180);
    power2::lemma_pow2_pos(2000);
    double_laws::count_is_exact(n as nat);
    ieee::pattern_value_increases(h, 0, sum.magnitude() as nat);
    ieee::pattern_value_increases(h, 0, count.magnitude() as nat);
    assert(n * u >= u) by (nonlinear_arith)
        requires
            n >= 1,
            u > 0,
    ;
    assert(!count.negative()) by {
        if count.negative() {
            assert(count.value() <= 0);
        }
    }
    assert(count.magnitude() > 0) by {
        ieee::pattern_parts(h, 0, 0);
    }
    let top = (a as nat) * power2::pow2(double::UNIT as nat);
    let d = (n * u) as nat;
    power2::lemma_pow2_adds(76, 924);
    power2::lemma_pow2_adds(64, 12);
    power2::lemma_pow2_pos(924);
    assert(power2::pow2(76) == 0x1000_0000_0000_0000_0000);
    if a > 0 {
        assert(a >= 0x1000_0000_0000_0000_0000) by (nonlinear_arith)
            requires
                a >= 0x1000_0000_0000_0000_0000 * power2::pow2(924),
                power2::pow2(924) >= 1,
        ;
        assert(h * d <= top) by (nonlinear_arith)
            requires
                h == 0x10_0000_0000_0000,
                d == n * u,
                top == a * u,
                n <= 0x100_0000,
                a >= 0x1000_0000_0000_0000_0000,
                u > 0,
        ;
    } else {
        assert(0 * u == 0);
    }
    power2::lemma_pow2_strictly_increases(1180, 2000);
    assert(top <= power2::pow2(2000) * d) by (nonlinear_arith)
        requires
            d == n * u,
            top == a * u,
            0 <= a <= power2::pow2(2000),
            n >= 1,
            u > 0,
    ;
    assert(arithmetic::magnitude(sum.value()) == a);
    let q = sum.over_spec(count);
    rounded_is_close(sum.negative(), top, d);
    let y = apart(q.value(), 0);
    assert(y * (n * u) == (y * n) * u) by (nonlinear_arith);
    close::close_without(y * n, a, 1, u);
    assert(1 * a == a) by (nonlinear_arith);
    power2::lemma_pow2_unfold(1181);
    assert(y <= y * n) by (nonlinear_arith)
        requires
            y >= 0,
            n >= 1,
    ;
}

/// The variance is the mean of the squares less the square of the mean: times
/// the square of the number of values it is that number times the sum of the
/// squares, less the square of the sum, both as they are carried along, to a
/// few parts in `2^23` of the mean square.
pub proof fn variance_is_about_the_mean(r: Rolling)
    requires
        2 <= r.window.len() <= 0x1_0000,
        r.sum.finite(),
        r.sum_sq.finite(),
        sizeable(r.sum.value()),
        !r.sum_sq.negative(),
        sizeable(r.sum_sq.value()),
        ({
            let n = r.window.len() as int;
            r.sum.value() * r.sum.value() <= 2 * ((n * r.sum_sq.value()) * double_unit())
        }),
    ensures
        r.variance() matches Some(v) && {
            let n = r.window.len() as int;
            let squares = (n * r.sum_sq.value()) * double_unit();
            let square = r.sum.value() * r.sum.value();
            let exact = if squares > square {
                squares - square
            } else {
                0
            };
            let scale = (n * n) * double_unit();
            &&& v.finite()
            &&& v.value() >= 0
            &&& 0x80_0000 * apart((v.value() * widening()) * scale, exact) <= 24 * squares
                + 0x100_0000 * (widening() * scale)
        },
{
    let n = r.window.len() as int;
    let u = double_unit();
    let g = widening();
    let h = double::HIDDEN as nat;
    let zero = Double { bits: 0 };
    let count = Double::from_count_spec(n as nat);
    power2::lemma2_to64();
    power2::lemma2_to64_rest();
    power2::lemma_pow2_pos(double::UNIT as nat);
    power2::lemma_pow2_pos(double::WIDENING as nat);
    sum_over_count(r.sum, n);
    sum_over_count(r.sum_sq, n);
    let mean = r.sum.over_spec(count);
    let msq = r.sum_sq.over_spec(count);
    let (a, b) = (apart(r.sum.value(), 0), r.sum_sq.value());
    let y = apart(mean.value(), 0);
    let z = msq.value();
    // The square of the mean.
    square_of_mean(mean, n, a);
    let sq = mean.times_spec(mean);
    let t = sq.value();
    power2::lemma_pow2_strictly_increases(1181, 1290);
    assert(sq.neg_spec().value() == -sq.value());
    double_laws::sum_is_close(msq, sq.neg_spec(), 1290);
    let d = msq.minus_spec(sq);
    // z * n ~ b, t * u ~ y * y, y * n ~ a.
    let nn = n * n;
    assert(a * a == r.sum.value() * r.sum.value()) by (nonlinear_arith)
        requires
            a == r.sum.value() || a == -r.sum.value(),
    ;
    difference_of_squares(z, t, y, a, b, d.value(), n, u);
    let m = d.max_spec(zero);
    ieee::pattern_parts(h, 0, 0);
    double_laws::rank_orders_values(d, zero);
    let e = m.value();
    assert(e == if d.value() > 0 { d.value() } else { 0 });
    // It is no more than the mean square, and so can be told in single
    // precision.
    power2::lemma_pow2_unfold(1182);
    power2::lemma_pow2_unfold(1183);
    power2::lemma_pow2_strictly_increases(1183, 1190);
    power2::lemma_pow2_pos(1181);
    assert(0 <= e <= 2 * z);
    double_laws::narrowing_is_close(m);
    let v = m.to_single_spec();
    narrowed_is_amount(m);
    let scale = nn * u;
    assert(scale > 0) by (nonlinear_arith)
        requires
            scale == nn * u,
            nn == n * n,
            n >= 2,
            u > 0,
    ;
    let w = v.value() * g;
    let f = w - e;
    assert(apart(w * scale, e * scale) == apart(w, e) * scale) by {
        assert(w * scale - e * scale == f * scale) by (nonlinear_arith)
            requires
                f == w - e,
        ;
        assert((-f) * scale == -(f * scale)) by (nonlinear_arith);
        if f >= 0 {
            assert(f * scale >= 0) by (nonlinear_arith)
                requires
                    f >= 0,
                    scale >= 0,
            ;
        } else {
            assert(f * scale <= 0) by (nonlinear_arith)
                requires
                    f < 0,
                    scale >= 0,
            ;
        }
    }
    let k = apart(w, e);
    assert(0xff_ffff * (k * scale) <= e * scale + 0x100_0000 * (g * scale)) by (nonlinear_arith)
        requires
            0xff_ffff * k <= e + 0x100_0000 * g,
            scale >= 0,
    ;
    let squares = (n * b) * u;
    let es = e * scale;
    assert(es >= 0) by (nonlinear_arith)
        requires
            es == e * scale,
            e >= 0,
            scale > 0,
    ;
    assert(es == if d.value() > 0 { d.value() * scale } else { 0 }) by {
        if d.value() <= 0 {
            assert(0 * scale == 0);
        }
    }
    if d.value() <= 0 {
        assert(d.value() * scale <= 0) by (nonlinear_arith)
            requires
                d.value() <= 0,
                scale > 0,
        ;
    } else {
        assert(d.value() * scale > 0) by (nonlinear_arith)
            requires
                d.value() > 0,
                scale > 0,
        ;
    }
    assert(g * scale >= 0) by (nonlinear_arith)
        requires
            g >= 0,
            scale >= 0,
    ;
}

/// The square of a mean.
proof fn square_of_mean(mean: Double, n: int, a: int)
    requires
        mean.finite(),
        double_laws::within(mean, 1181),
        1 <= n <= 0x1_0000,
        a == 0 || power2::pow2(1000) <= a,
        close::close(apart(mean.value(), 0) * n, a, 1),
    ensures
        ({
            let sq = mean.times_spec(mean);
            let y = apart(mean.value(), 0);
            &&& sq.finite()
            &&& sq.value() >= 0
            &&& double_laws::within(sq, 1290)
            &&& close::close(sq.value() * double_unit(), y * y, 1)
        }),
{
    let u = double_unit();
    let h = double::HIDDEN as nat;
    let y = apart(mean.value(), 0);
    power2::lemma2_to64();
    power2::lemma2_to64_rest();
    power2::lemma_pow2_pos(double::UNIT as nat);
    let top = (y * y) as nat;
    assert(y * y >= 0) by (nonlinear_arith);
    assert(arithmetic::magnitude(mean.value()) == y);
    assert(1 * a == a) by (nonlinear_arith);
    if a == 0 {
        assert(y == 0) by (nonlinear_arith)
            requires
                0x80_0000 * (y * n) <= 0,
                y >= 0,
                n >= 1,
        ;
        assert(0nat * 0nat == 0);
    } else {
        // y is at least 2^980.
        power2::lemma_pow2_adds(20, 980);
        power2::lemma_pow2_pos(980);
        let p = power2::pow2(980) as int;
        assert(y >= p) by (nonlinear_arith)
            requires
                0x80_0000 * (a - y * n) <= a,
                a >= 0x10_0000 * p,
                n <= 0x1_0000,
                n >= 1,
                p > 0,
                y >= 0,
        ;
        assert(y * y >= p * p) by (nonlinear_arith)
            requires
                y >= p,
                p >= 0,
        ;
        power2::lemma_pow2_adds(980, 980);
        power2::lemma_pow2_adds(52, double::UNIT as nat);
        power2::lemma_pow2_strictly_increases(1126, 1960);
        assert(h * power2::pow2(double::UNIT as nat) <= top);
    }
    single_square_bound(y, 1181);
    power2::lemma_pow2_adds(1288, double::UNIT as nat);
    power2::lemma_pow2_strictly_increases(1288, 2000);
    assert(top <= power2::pow2(2000) * power2::pow2(double::UNIT as nat)) by (nonlinear_arith)
        requires
            top <= power2::pow2(1288) * power2::pow2(double::UNIT as nat),
            power2::pow2(1288) <= power2::pow2(2000),
            power2::pow2(double::UNIT as nat) > 0,
    ;
    rounded_is_close(false, top, power2::pow2(double::UNIT as nat));
    let sq = mean.times_spec(mean);
    let t = apart(sq.value(), 0);
    assert(t <= 2 * power2::pow2(1288)) by (nonlinear_arith)
        requires
            t * u <= 2 * top,
            top <= power2::pow2(1288) * u,
            u > 0,
    ;
    power2::lemma_pow2_unfold(1289);
    power2::lemma_pow2_strictly_increases(1289, 1290);
}

proof fn single_square_bound(y: int, r: nat)
    requires
        0 <= y <= power2::pow2(r),
        r == 1181,
    ensures
        y * y <= power2::pow2(1288) * power2::pow2(double::UNIT as nat),
{
    let p = power2::pow2(1181) as int;
    power2::lemma_pow2_adds(1181, 1181);
    power2::lemma_pow2_adds(1288, 1074);
    assert(y * y <= p * p) by (nonlinear_arith)
        requires
            0 <= y <= p,
    ;
}

/// A number that is not negative stays so in single precision.
pub proof fn narrowed_is_amount(m: Double)
    requires
        m.finite(),
        m.value() >= 0,
        m.to_single_spec().finite(),
    ensures
        m.to_single_spec().value() >= 0,
{
    let h = double::HIDDEN as nat;
    let hs = crate::single::HIDDEN as nat;
    let inf = crate::single::INFINITE as nat;
    let g = power2::pow2(double::WIDENING as nat);
    power2::lemma_pow2_pos(double::WIDENING as nat);
    ieee::pattern_value_increases(h, 0, m.magnitude() as nat);
    let n = arithmetic::magnitude(m.value());
    ieee::nearest_exists(hs, inf, n, g);
    ieee::pattern_value_increases(hs, 0, ieee::nearest(hs, inf, n, g));
    if m.negative() {
        assert(n == 0);
        assert(0 * g == 0);
        ieee::nearest_of_value(hs, inf, 0, g, 0);
        ieee::pattern_parts(hs, 0, 0);
    }
}

proof fn difference_of_squares(z: int, t: int, y: int, a: int, b: int, d: int, n: int, u: int)
    requires
        u > 0,
        n >= 1,
        z >= 0,
        t >= 0,
        y >= 0,
        a >= 0,
        b >= 0,
        close::close(z * n, b, 1),
        close::close(t * u, y * y, 1),
        close::close(y * n, a, 1),
        double_laws::PRECISION * apart(d, z - t) <= apart(d, 0),
        a * a <= 2 * ((n * b) * u),
    ensures
        ({
            let scale = (n * n) * u;
            let squares = (n * b) * u;
            &&& 0x80_0000 * apart(d * scale, squares - a * a) <= 18 * squares
            &&& d <= 2 * z
            &&& d * scale <= 2 * squares
            &&& z * scale <= 2 * squares
        }),
{
    let nn = n * n;
    let scale = nn * u;
    let squares = (n * b) * u;
    assert(nn >= 0 && scale >= 0) by (nonlinear_arith)
        requires
            nn == n * n,
            scale == nn * u,
            u > 0,
    ;
    let nu = n * u;
    assert(nu >= 0) by (nonlinear_arith)
        requires
            nu == n * u,
            n >= 1,
            u > 0,
    ;
    close::close_times(z * n, b, 1, nu);
    let zs = z * scale;
    assert((z * n) * nu == zs && b * nu == squares) by (nonlinear_arith)
        requires
            zs == z * scale,
            scale == nn * u,
            nn == n * n,
            nu == n * u,
            squares == (n * b) * u,
    ;
    close::close_products(y * n, a, 1, y * n, a, 1);
    close::close_times(t * u, y * y, 1, nn);
    assert((y * y) * nn == (y * n) * (y * n)) by (nonlinear_arith)
        requires
            nn == n * n,
    ;
    let ts = t * scale;
    assert((t * u) * nn == ts) by (nonlinear_arith)
        requires
            ts == t * scale,
            scale == nn * u,
    ;
    close::close_chain(ts, (y * n) * (y * n), a * a, 1, 3);
    let aa = a * a;
    assert(1 * squares == squares) by (nonlinear_arith);
    assert(0x80_0000 * apart(zs, squares) <= squares);
    assert(0x80_0000 * apart(ts, aa) <= 5 * aa);
    let ds = d * scale;
    let f = d - (z - t);
    assert(0x80_0000 * apart(d, z - t) <= z + t);
    assert(-((z + t) * scale) <= 0x80_0000 * (f * scale) <= (z + t) * scale) by (nonlinear_arith)
        requires
            -(z + t) <= 0x80_0000 * f <= z + t,
            scale >= 0,
    ;
    assert((z + t) * scale == zs + ts && f * scale == ds - zs + ts) by (nonlinear_arith)
        requires
            f == d - (z - t),
            zs == z * scale,
            ts == t * scale,
            ds == d * scale,
    ;
    assert(zs >= 0 && ts >= 0) by (nonlinear_arith)
        requires
            zs == z * scale,
            ts == t * scale,
            z >= 0,
            t >= 0,
            scale >= 0,
    ;
    assert(d <= 2 * z);
    assert(d * scale <= (2 * z) * scale) by (nonlinear_arith)
        requires
            d <= 2 * z,
            scale >= 0,
    ;
    assert((2 * z) * scale == 2 * zs) by (nonlinear_arith)
        requires
            zs == z * scale,
    ;
}

/// A value that comes in is added to the sum, and its square to the sum of the
/// squares; of a full window the oldest value and its square are taken off.
/// The sum is off by no more than a few parts in `2^53` of what goes into it.
pub proof fn update_adds_and_drops(r: Rolling, value: Single)
    requires
        r.sum.finite(),
        value.finite(),
        r.window.len() <= r.max_len,
        r.max_len > 0,
        double_laws::within(r.sum, 1210),
        forall|i: int| 0 <= i < r.window.len() ==> (#[trigger] r.window[i]).finite(),
    ensures
        ({
            let after = r.updated(value);
            let added = value.value() * widening();
            let dropped = if r.window.len() == r.max_len {
                r.window[0].value() * widening()
            } else {
                0
            };
            let exact = r.sum.value() - dropped + added;
            &&& after.sum.finite()
            &&& double_laws::PRECISION * apart(after.sum.value(), exact) <= 4 * (apart(
                r.sum.value(),
                0,
            ) + apart(dropped, 0) + apart(added, 0))
        }),
{
    let v = Double::from_single_spec(value);
    double_laws::widening_is_exact(value);
    power2::lemma_pow2_strictly_increases(1202, 1210);
    power2::lemma_pow2_strictly_increases(1210, 1211);
    let after = r.updated(value);
    if r.window.len() == r.max_len {
        let old_value = Double::from_single_spec(r.window[0]);
        double_laws::widening_is_exact(r.window[0]);
        assert(old_value.neg_spec().value() == -old_value.value());
        double_laws::sum_is_close(r.sum, old_value.neg_spec(), 1210);
        let rest = r.sum.minus_spec(old_value);
        double_laws::sum_is_close(rest, v, 1211);
        assert(after.sum == rest.plus_spec(v));
        two_sums(
            r.sum.value(),
            old_value.value(),
            v.value(),
            rest.value(),
            after.sum.value(),
        );
    } else {
        double_laws::sum_is_close(r.sum, v, 1210);
        assert(after.sum == r.sum.plus_spec(v));
        two_sums(r.sum.value(), 0, v.value(), r.sum.value(), after.sum.value());
    }
}

/// A value that is zero, or between `2^-60` and `2^20` in size.
pub open spec fn squarable(x: Single) -> bool {
    x.finite() && (x.value() == 0 || power2::pow2(89) <= apart(x.value(), 0) <= power2::pow2(169))
}

/// The square of a value in double precision.
proof fn wide_square(x: Single)
    requires
        squarable(x),
    ensures
        ({
            let v = Double::from_single_spec(x);
            let wide = x.value() * widening();
            let s = v.times_spec(v);
            &&& s.value() >= 0
            &&& double_laws::within(s, 1200)
            &&& close::close(s.value() * double_unit(), wide * wide, 1)
        }),
{
    let h = double::HIDDEN as nat;
    let g = widening();
    let u = double_unit();
    let v = Double::from_single_spec(x);
    power2::lemma2_to64();
    power2::lemma2_to64_rest();
    power2::lemma_pow2_pos(double::UNIT as nat);
    power2::lemma_pow2_pos(double::WIDENING as nat);
    double_laws::widening_is_exact(x);
    let wide = x.value() * g;
    let m = apart(wide, 0);
    let top = (m * m) as nat;
    assert(m * m == wide * wide && m * m >= 0) by (nonlinear_arith)
        requires
            m == wide || m == -wide,
    ;
    assert(arithmetic::magnitude(v.value()) == m);
    let a = apart(x.value(), 0);
    assert(m == a * g) by {
        assert((-x.value()) * g == -(x.value() * g)) by (nonlinear_arith);
        if x.value() >= 0 {
            assert(wide >= 0) by (nonlinear_arith)
                requires
                    wide == x.value() * g,
                    x.value() >= 0,
                    g > 0,
            ;
        } else {
            assert(wide < 0) by (nonlinear_arith)
                requires
                    wide == x.value() * g,
                    x.value() < 0,
                    g > 0,
            ;
        }
    }
    power2::lemma_pow2_adds(89, double::WIDENING as nat);
    power2::lemma_pow2_adds(169, double::WIDENING as nat);
    power2::lemma_pow2_adds(1014, 1014);
    power2::lemma_pow2_adds(1094, 1094);
    power2::lemma_pow2_adds(52, double::UNIT as nat);
    power2::lemma_pow2_adds(1114, double::UNIT as nat);
    power2::lemma_pow2_strictly_increases(1126, 2028);
    power2::lemma_pow2_strictly_increases(1114, 2000);
    power2::lemma_pow2_pos(1014);
    power2::lemma_pow2_pos(1094);
    power2::lemma_pow2_pos(1114);
    let (lo, hi) = (power2::pow2(1014) as int, power2::pow2(1094) as int);
    if x.value() == 0 {
        assert(wide == 0) by (nonlinear_arith)
            requires
                wide == x.value() * g,
                x.value() == 0,
        ;
        assert(m * m == 0) by (nonlinear_arith)
            requires
                m == 0,
        ;
        assert(top == 0);
    } else {
        assert(lo <= m && m <= hi) by (nonlinear_arith)
            requires
                m == a * g,
                power2::pow2(89) <= a <= power2::pow2(169),
                lo == power2::pow2(89) * g,
                hi == power2::pow2(169) * g,
                g > 0,
        ;
        assert(lo * lo <= m * m && m * m <= hi * hi) by (nonlinear_arith)
            requires
                0 <= lo <= m,
                m <= hi,
        ;
        assert(h * power2::pow2(double::UNIT as nat) <= top);
    }
    assert(top <= power2::pow2(1114) * power2::pow2(double::UNIT as nat));
    assert(top <= power2::pow2(2000) * power2::pow2(double::UNIT as nat)) by (nonlinear_arith)
        requires
            top <= power2::pow2(1114) * power2::pow2(double::UNIT as nat),
            power2::pow2(1114) <= power2::pow2(2000),
            power2::pow2(double::UNIT as nat) > 0,
    ;
    rounded_is_close(false, top, power2::pow2(double::UNIT as nat));
    let s = v.times_spec(v);
    let t = apart(s.value(), 0);
    assert(t <= 2 * power2::pow2(1114)) by (nonlinear_arith)
        requires
            t * u <= 2 * top,
            top <= power2::pow2(1114) * u,
            u > 0,
    ;
    power2::lemma_pow2_unfold(1115);
    power2::lemma_pow2_strictly_increases(1115, 1200);
}

/// The square of a value that comes in is added to the sum of the squares; of
/// a full window that of the oldest one is taken off. The sum is off by no
/// more than a few parts in `2^23` of what goes into it.
pub proof fn update_adds_and_drops_squares(r: Rolling, value: Single)
    requires
        r.sum_sq.finite(),
        r.sum_sq.value() >= 0,
        double_laws::within(r.sum_sq, 1210),
        squarable(value),
        r.window.len() <= r.max_len,
        r.max_len > 0,
        forall|i: int| 0 <= i < r.window.len() ==> squarable(#[trigger] r.window[i]),
    ensures
        ({
            let u = double_unit();
            let after = r.updated(value);
            let added = (value.value() * widening()) * (value.value() * widening());
            let dropped = if r.window.len() == r.max_len {
                (r.window[0].value() * widening()) * (r.window[0].value() * widening())
            } else {
                0
            };
            let before = r.sum_sq.value() * u;
            &&& after.sum_sq.finite()
            &&& 0x80_0000 * apart(after.sum_sq.value() * u, before - dropped + added) <= 4
                * (before + dropped + added)
        }),
{
    let u = double_unit();
    let v = Double::from_single_spec(value);
    power2::lemma_pow2_pos(double::UNIT as nat);
    power2::lemma_pow2_strictly_increases(1200, 1210);
    power2::lemma_pow2_strictly_increases(1210, 1211);
    wide_square(value);
    let vv = v.times_spec(v);
    let after = r.updated(value);
    let wide = value.value() * widening();
    if r.window.len() == r.max_len {
        let o = Double::from_single_spec(r.window[0]);
        let oo = o.times_spec(o);
        wide_square(r.window[0]);
        assert(oo.neg_spec().value() == -oo.value());
        double_laws::sum_is_close(r.sum_sq, oo.neg_spec(), 1210);
        let rest = r.sum_sq.minus_spec(oo);
        double_laws::sum_is_close(rest, vv, 1211);
        assert(after.sum_sq == rest.plus_spec(vv));
        two_sums(
            r.sum_sq.value(),
            oo.value(),
            vv.value(),
            rest.value(),
            after.sum_sq.value(),
        );
        let old_wide = r.window[0].value() * widening();
        squares_scaled(
            after.sum_sq.value(),
            r.sum_sq.value(),
            oo.value(),
            vv.value(),
            old_wide * old_wide,
            wide * wide,
            u,
        );
    } else {
        double_laws::sum_is_close(r.sum_sq, vv, 1210);
        assert(after.sum_sq == r.sum_sq.plus_spec(vv));
        two_sums(r.sum_sq.value(), 0, vv.value(), r.sum_sq.value(), after.sum_sq.value());
        assert(0 * u == 0);
        let k = 1int;
        assert(k * 0 == 0) by (nonlinear_arith);
        squares_scaled(
            after.sum_sq.value(),
            r.sum_sq.value(),
            0,
            vv.value(),
            0,
            wide * wide,
            u,
        );
    }
}

proof fn squares_scaled(t: int, s: int, o: int, v: int, old_square: int, square: int, u: int)
    requires
        u > 0,
        s >= 0,
        o >= 0,
        v >= 0,
        0x20_0000_0000_0000 * apart(t, s - o + v) <= 4 * (apart(s, 0) + apart(o, 0) + apart(
            v,
            0,
        )),
        close::close(o * u, old_square, 1),
        close::close(v * u, square, 1),
    ensures
        0x80_0000 * apart(t * u, s * u - old_square + square) <= 4 * (s * u + old_square
            + square),
{
    let (tu, su, ou, vu) = (t * u, s * u, o * u, v * u);
    let e = t - (s - o + v);
    let m = s + o + v;
    assert(-(m * u) <= 0x100_0000 * (e * u) <= m * u) by (nonlinear_arith)
        requires
            -m <= 0x100_0000 * e <= m,
            u > 0,
    ;
    assert(e * u == tu - su + ou - vu && m * u == su + ou + vu) by (nonlinear_arith)
        requires
            e == t - (s - o + v),
            m == s + o + v,
            tu == t * u,
            su == s * u,
            ou == o * u,
            vu == v * u,
    ;
    assert(su >= 0) by (nonlinear_arith)
        requires
            su == s * u,
            s >= 0,
            u > 0,
    ;
    assert(1 * old_square == old_square && 1 * square == square) by (nonlinear_arith);
}

proof fn two_sums(s: int, o: int, v: int, rest: int, t: int)
    requires
        0x20_0000_0000_0000 * apart(rest, s - o) <= apart(rest, 0),
        0x20_0000_0000_0000 * apart(t, rest + v) <= apart(t, 0),
    ensures
        0x20_0000_0000_0000 * apart(t, s - o + v) <= 4 * (apart(s, 0) + apart(o, 0) + apart(
            v,
            0,
        )),
{
    let m = apart(s, 0) + apart(o, 0) + apart(v, 0);
    assert(apart(rest, 0) <= 2 * (apart(s, 0) + apart(o, 0)));
    assert(0x20_0000_0000_0000 * apart(rest, s - o) <= 2 * m);
    assert(apart(rest + v, 0) <= apart(s, 0) + apart(o, 0) + apart(v, 0) + apart(rest, s - o));
    assert(apart(t, 0) <= apart(rest + v, 0) + apart(t, rest + v));
    assert(apart(t, 0) <= 2 * m);
}

/// The standard deviation is the root of the variance: its square is the
/// variance, up to two roundings.
pub proof fn deviation_is_the_root(r: Rolling, variance: Single)
    requires
        r.variance() == Some(variance),
        close::amount(variance),
        variance.rank() > 0,
    ensures
        r.std_dev() matches Some(s) && close::amount(s) && close::close(
            s.value() * s.value(),
            variance.value() * close::unit(),
            2,
        ),
{
    close::root_is_close(variance);
}

} // verus!
