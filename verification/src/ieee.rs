//! Correct rounding to the IEEE-754 binary formats.
//!
//! A format is given by the weight `h` of its leading fraction bit (the
//! hidden bit) and by the pattern `inf` of its infinity. The magnitudes of a
//! format, read as integers, are its patterns; their values are counted in
//! units of the smallest subnormal, so that every value is an integer.
use vstd::arithmetic::{div_mod, power2};
use vstd::prelude::*;
use vstd::std_specs::bits;

verus! {

/// The value of a magnitude pattern, in units of the smallest subnormal. The
/// pattern of infinity counts as the next value after the largest one.
pub open spec fn pattern_value(h: nat, b: nat) -> nat {
    if b < h {
        b
    } else {
        (b % h + h) * power2::pow2((b / h - 1) as nat)
    }
}

/// Whether `b` is the pattern nearest to `n / d`, an even pattern winning a
/// tie.
pub open spec fn is_nearest(h: nat, inf: nat, n: nat, d: nat, b: nat) -> bool {
    &&& b <= inf
    &&& b > 0 ==> {
        let below = d * (pattern_value(h, (b - 1) as nat) + pattern_value(h, b));
        below < 2 * n || (below == 2 * n && b % 2 == 0)
    }
    &&& b < inf ==> {
        let above = d * (pattern_value(h, b) + pattern_value(h, b + 1));
        2 * n < above || (2 * n == above && b % 2 == 0)
    }
}

/// The pattern nearest to `n / d`.
pub open spec fn nearest(h: nat, inf: nat, n: nat, d: nat) -> nat {
    choose|b: nat| is_nearest(h, inf, n, d, b)
}

/// The value of the pattern with exponent `j` and significand `k`.
pub proof fn pattern_parts(h: nat, j: nat, k: nat)
    requires
        h > 0,
        k <= 2 * h,
        j == 0 || h <= k,
    ensures
        pattern_value(h, j * h + k) == k * power2::pow2(j),
{
    power2::lemma2_to64();
    if j == 0 && k < h {
        assert(0 * h == 0);
    } else if k < 2 * h {
        let b = j * h + k;
        assert(b == (j + 1) * h + (k - h)) by (nonlinear_arith)
            requires
                b == j * h + k,
        ;
        div_mod::lemma_fundamental_div_mod_converse(
            b as int,
            h as int,
            (j + 1) as int,
            k - h,
        );
        assert(b >= h) by (nonlinear_arith)
            requires
                b == (j + 1) * h + (k - h),
                k >= h,
                j >= 0,
        ;
        assert(pattern_value(h, b) == k * power2::pow2(j));
    } else {
        let b = j * h + k;
        assert(b == (j + 2) * h) by (nonlinear_arith)
            requires
                b == j * h + 2 * h,
        ;
        div_mod::lemma_fundamental_div_mod_converse(
            b as int,
            h as int,
            (j + 2) as int,
            0,
        );
        power2::lemma_pow2_unfold(j + 1);
        assert(b >= h) by (nonlinear_arith)
            requires
                b == (j + 2) * h,
                j >= 0,
        ;
        assert(pattern_value(h, b) == h * power2::pow2(j + 1));
        assert(h * power2::pow2(j + 1) == k * power2::pow2(j)) by (nonlinear_arith)
            requires
                power2::pow2(j + 1) == 2 * power2::pow2(j),
                k == 2 * h,
        ;
    }
}

/// Splits a pattern into its exponent and its significand.
pub proof fn pattern_split(h: nat, b: nat) -> (r: (nat, nat))
    requires
        h > 0,
    ensures
        b == r.0 * h + r.1,
        r.1 < 2 * h,
        r.0 == 0 || h <= r.1,
{
    if b < h {
        assert(0 * h == 0);
        (0, b)
    } else {
        div_mod::lemma_fundamental_div_mod(b as int, h as int);
        div_mod::lemma_mod_bound(b as int, h as int);
        div_mod::lemma_div_is_ordered(h as int, b as int, h as int);
        div_mod::lemma_div_by_self(h as int);
        let j = (b / h - 1) as nat;
        let k = b % h + h;
        assert(b == j * h + k) by (nonlinear_arith)
            requires
                b == h * (b / h) + b % h,
                j == b / h - 1,
                k == b % h + h,
        ;
        (j, k)
    }
}

/// The next pattern has a larger value.
pub proof fn pattern_value_steps(h: nat, b: nat)
    requires
        h > 0,
    ensures
        pattern_value(h, b) < pattern_value(h, b + 1),
{
    let (j, k) = pattern_split(h, b);
    pattern_parts(h, j, k);
    pattern_parts(h, j, k + 1);
    power2::lemma_pow2_pos(j);
    assert(k * power2::pow2(j) < (k + 1) * power2::pow2(j)) by (nonlinear_arith)
        requires
            power2::pow2(j) > 0,
    ;
}

/// A larger pattern has a larger value.
pub proof fn pattern_value_increases(h: nat, a: nat, b: nat)
    requires
        h > 0,
        a <= b,
    ensures
        pattern_value(h, a) <= pattern_value(h, b),
        a < b ==> pattern_value(h, a) < pattern_value(h, b),
    decreases b - a,
{
    if a < b {
        pattern_value_increases(h, a, (b - 1) as nat);
        pattern_value_steps(h, (b - 1) as nat);
    }
}

/// No two patterns are nearest to the same number.
pub proof fn nearest_unique(h: nat, inf: nat, n: nat, d: nat, a: nat, b: nat)
    requires
        h > 0,
        d > 0,
        is_nearest(h, inf, n, d, a),
        is_nearest(h, inf, n, d, b),
    ensures
        a == b,
{
    if a < b {
        nearest_not_below(h, inf, n, d, a, b);
    } else if b < a {
        nearest_not_below(h, inf, n, d, b, a);
    }
}

proof fn nearest_not_below(h: nat, inf: nat, n: nat, d: nat, a: nat, b: nat)
    requires
        h > 0,
        d > 0,
        a < b,
        is_nearest(h, inf, n, d, a),
    ensures
        !is_nearest(h, inf, n, d, b),
{
    pattern_value_increases(h, a, (b - 1) as nat);
    pattern_value_increases(h, a + 1, b);
    let x = pattern_value(h, a) + pattern_value(h, a + 1);
    let y = pattern_value(h, (b - 1) as nat) + pattern_value(h, b);
    assert(x <= y);
    if a + 1 < b {
        assert(x < y);
        assert(d * x < d * y) by (nonlinear_arith)
            requires
                d > 0,
                x < y,
        ;
    }
}

/// `nearest` is the pattern that was found to be nearest.
pub proof fn nearest_is(h: nat, inf: nat, n: nat, d: nat, b: nat)
    requires
        h > 0,
        d > 0,
        is_nearest(h, inf, n, d, b),
    ensures
        nearest(h, inf, n, d) == b,
{
    nearest_unique(h, inf, n, d, b, nearest(h, inf, n, d));
}

/// The exponent where it is positive, else 0.
pub open spec fn up(e: int) -> nat {
    if e > 0 {
        e as nat
    } else {
        0
    }
}

/// Whether `b` is the pattern nearest to a number given by its leading bits:
/// `m * 2^e` exactly, or, where `more` is set, some number strictly between
/// that and `(m + 1) * 2^e`.
pub open spec fn is_nearest_scaled(
    h: nat,
    inf: nat,
    m: nat,
    e: int,
    more: bool,
    b: nat,
) -> bool {
    &&& b <= inf
    &&& b > 0 ==> fits_below(h, m, e, more, b)
    &&& b < inf ==> fits_above(h, m, e, more, b)
}

/// The number does not lie closer to the pattern below `b`.
pub open spec fn fits_below(h: nat, m: nat, e: int, more: bool, b: nat) -> bool {
    let below = (pattern_value(h, (b - 1) as nat) + pattern_value(h, b)) * power2::pow2(up(-e));
    let twice = 2 * m * power2::pow2(up(e));
    below < twice || (below == twice && (more || b % 2 == 0))
}

/// The number does not lie closer to the pattern above `b`.
pub open spec fn fits_above(h: nat, m: nat, e: int, more: bool, b: nat) -> bool {
    let above = (pattern_value(h, b) + pattern_value(h, b + 1)) * power2::pow2(up(-e));
    if more {
        2 * (m + 1) * power2::pow2(up(e)) <= above
    } else {
        let twice = 2 * m * power2::pow2(up(e));
        twice < above || (twice == above && b % 2 == 0)
    }
}

/// From the leading bits of `n / d` to `n / d` itself.
pub proof fn scaled_nearest_to_ratio(
    h: nat,
    inf: nat,
    m: nat,
    e: int,
    more: bool,
    b: nat,
    n: nat,
    d: nat,
)
    requires
        h > 0,
        d > 0,
        is_nearest_scaled(h, inf, m, e, more, b),
        !more ==> d * m * power2::pow2(up(e)) == n * power2::pow2(up(-e)),
        more ==> d * m * power2::pow2(up(e)) < n * power2::pow2(up(-e)) < d * (m + 1)
            * power2::pow2(up(e)),
    ensures
        is_nearest(h, inf, n, d, b),
        nearest(h, inf, n, d) == b,
{
    let f = power2::pow2(up(e));
    let g = power2::pow2(up(-e));
    power2::lemma_pow2_pos(up(e));
    power2::lemma_pow2_pos(up(-e));
    if b > 0 {
        let x = pattern_value(h, (b - 1) as nat) + pattern_value(h, b);
        // d * x * g compared with 2 * n * g
        if x * g < 2 * m * f {
            assert(d * x * g < 2 * (d * m * f)) by (nonlinear_arith)
                requires
                    x * g < 2 * m * f,
                    d > 0,
            ;
        } else {
            assert(d * x * g == 2 * (d * m * f)) by (nonlinear_arith)
                requires
                    x * g == 2 * m * f,
            ;
        }
        lemma_cancel((d * x) as int, (2 * n) as int, g as int);
        assert((2 * n) * g == 2 * (n * g)) by (nonlinear_arith);
    }
    if b < inf {
        let y = pattern_value(h, b) + pattern_value(h, b + 1);
        assert((2 * n) * g == 2 * (n * g)) by (nonlinear_arith);
        lemma_cancel((2 * n) as int, (d * y) as int, g as int);
        if more {
            assert(2 * (d * (m + 1) * f) <= d * y * g) by (nonlinear_arith)
                requires
                    2 * (m + 1) * f <= y * g,
                    d > 0,
            ;
        } else if 2 * m * f < y * g {
            assert(2 * (d * m * f) < d * y * g) by (nonlinear_arith)
                requires
                    2 * m * f < y * g,
                    d > 0,
            ;
        } else {
            assert(2 * (d * m * f) == d * y * g) by (nonlinear_arith)
                requires
                    2 * m * f == y * g,
            ;
        }
    }
    nearest_is(h, inf, n, d, b);
}

proof fn lemma_cancel(a: int, b: int, g: int)
    requires
        g > 0,
    ensures
        a * g < b * g <==> a < b,
        a * g == b * g <==> a == b,
{
    assert(a < b ==> a * g < b * g) by (nonlinear_arith)
        requires
            g > 0,
    ;
    assert(b < a ==> b * g < a * g) by (nonlinear_arith)
        requires
            g > 0,
    ;
}

/// The pattern ahead of exponent `j`, significand `k`: one unit below, or
/// less where `k` is the smallest significand.
proof fn value_below(h: nat, j: nat, k: nat)
    requires
        h > 0,
        0 < k <= 2 * h,
        j == 0 || h <= k,
    ensures
        k == h && j > 0 ==> pattern_value(h, (j * h + k - 1) as nat) < k * power2::pow2(j),
        k > h || j == 0 ==> pattern_value(h, (j * h + k - 1) as nat) == (k - 1)
            * power2::pow2(j),
        j * h + k > 0,
{
    assert(j * h >= 0) by (nonlinear_arith);
    if k > h || j == 0 {
        pattern_parts(h, j, (k - 1) as nat);
    } else {
        pattern_parts(h, j, k);
        pattern_value_steps(h, (j * h + k - 1) as nat);
    }
}

/// The pattern behind exponent `j`, significand `k`: at least one unit above.
proof fn value_above(h: nat, j: nat, k: nat)
    requires
        h > 0,
        k <= 2 * h,
        j == 0 || h <= k,
    ensures
        pattern_value(h, j * h + k + 1) >= (k + 1) * power2::pow2(j),
{
    if k < 2 * h {
        pattern_parts(h, j, k + 1);
    } else {
        assert(j * h + k + 1 == (j + 1) * h + (h + 1)) by (nonlinear_arith)
            requires
                k == 2 * h,
        ;
        if h + 1 <= 2 * h {
            pattern_parts(h, j + 1, h + 1);
            power2::lemma_pow2_unfold(j + 1);
            assert((h + 1) * (2 * power2::pow2(j)) >= (k + 1) * power2::pow2(j))
                by (nonlinear_arith)
                requires
                    k == 2 * h,
                    power2::pow2(j) >= 0,
            ;
        }
    }
}

/// The scale on which a number `m * 2^e` and a unit `2^(e + t)` are compared.
proof fn unit_scale(e: int, t: nat) -> (r: (int, int, int))
    requires
        e + t >= 0,
    ensures
        ({
            let (p, f, g) = r;
            let u = power2::pow2((if t > 0 { t - 1 } else { 0 }) as nat) as int;
            &&& p == power2::pow2((e + t) as nat) && p > 0
            &&& f == power2::pow2(up(e)) && f > 0
            &&& g == power2::pow2(up(-e)) && g > 0
            &&& u > 0
            &&& t > 0 ==> p * g == 2 * (f * u)
            &&& t == 0 ==> p * g == f
        }),
{
    let j = (e + t) as nat;
    let p = power2::pow2(j) as int;
    let f = power2::pow2(up(e)) as int;
    let g = power2::pow2(up(-e)) as int;
    power2::lemma_pow2_pos(j);
    power2::lemma_pow2_pos(up(e));
    power2::lemma_pow2_pos(up(-e));
    power2::lemma_pow2_adds(j, up(-e));
    if t > 0 {
        let u = power2::pow2((t - 1) as nat) as int;
        power2::lemma_pow2_pos((t - 1) as nat);
        power2::lemma_pow2_unfold(t);
        power2::lemma_pow2_adds(up(e), t);
        assert(f * (2 * u) == 2 * (f * u)) by (nonlinear_arith);
    } else {
        power2::lemma2_to64();
    }
    (p, f, g)
}

/// Rounding half to even after `t` bits have been cut off: the chosen pattern
/// is the nearest one among all patterns of unbounded size.
#[verifier::spinoff_prover]
proof fn rounding(h: nat, m: nat, e: int, more: bool, t: nat, k: nat, r: nat, low: nat, q: nat)
    requires
        h > 0,
        h % 2 == 0,
        e + t >= 0,
        k < 2 * h,
        e + t == 0 || h <= k,
        t == 0 ==> m == k && r == 0 && low == 0 && !more,
        t > 0 ==> m == (2 * k + r) * power2::pow2((t - 1) as nat) + low && low
            < power2::pow2((t - 1) as nat),
        r <= 1,
        q == if r == 1 && (low > 0 || more || k % 2 == 1) {
            k + 1
        } else {
            k
        },
    ensures
        ({
            let b = ((e + t) * h + q) as nat;
            &&& (e + t) * h + q >= 0
            &&& b > 0 ==> fits_below(h, m, e, more, b)
            &&& fits_above(h, m, e, more, b)
        }),
{
    let j = (e + t) as nat;
    let (p, f, g) = unit_scale(e, t);
    let b = j * h + q;
    assert(j * h >= 0) by (nonlinear_arith);
    assert((j * h) % 2 == 0) by {
        vstd::arithmetic::div_mod::lemma_fundamental_div_mod(h as int, 2);
        let half = (h / 2) as int;
        assert(j * h == 2 * (j * half)) by (nonlinear_arith)
            requires
                h == 2 * half,
        ;
    }
    pattern_parts(h, j, q);
    value_above(h, j, q);
    let (ki, ri, qi, mi, li) = (k as int, r as int, q as int, m as int, low as int);
    let v = pattern_value(h, b) as int;
    let next = pattern_value(h, b + 1) as int;
    assert(v * g == qi * (p * g)) by (nonlinear_arith)
        requires
            v == qi * p,
    ;
    assert(next * g >= qi * (p * g) + p * g) by (nonlinear_arith)
        requires
            next >= (qi + 1) * p,
            g > 0,
    ;
    assert((v + next) * g == v * g + next * g) by (nonlinear_arith);
    if t > 0 {
        let u = power2::pow2((t - 1) as nat) as int;
        let fu = f * u;
        assert(2 * mi * f == 2 * (2 * ki + ri) * fu + 2 * (li * f)) by (nonlinear_arith)
            requires
                mi == (2 * ki + ri) * u + li,
                fu == f * u,
        ;
        assert(2 * (2 * ki + ri) * fu == 4 * (ki * fu) + 2 * (ri * fu)) by (nonlinear_arith);
        assert(qi * (2 * fu) == 2 * (qi * fu)) by (nonlinear_arith);
        assert(qi == ki + 1 ==> qi * fu == ki * fu + fu) by (nonlinear_arith);
        assert(ri == 0 ==> ri * fu == 0) by (nonlinear_arith);
        assert(ri == 1 ==> ri * fu == fu) by (nonlinear_arith);
        assert(2 * (mi + 1) * f == 2 * mi * f + 2 * f) by (nonlinear_arith);
        assert(li * f + f <= fu) by (nonlinear_arith)
            requires
                li + 1 <= u,
                f > 0,
                fu == f * u,
        ;
        assert(li * f >= 0) by (nonlinear_arith)
            requires
                li >= 0,
                f > 0,
        ;
        assert(li > 0 ==> li * f > 0) by (nonlinear_arith)
            requires
                f > 0,
        ;
        assert(li == 0 ==> li * f == 0) by (nonlinear_arith);
    } else {
        assert(2 * mi * f == 2 * (qi * f)) by (nonlinear_arith)
            requires
                mi == qi,
        ;
    }
    if b > 0 {
        let before = pattern_value(h, (b - 1) as nat) as int;
        assert((before + v) * g == before * g + v * g) by (nonlinear_arith);
        if q > 0 {
            value_below(h, j, q);
            if q > h || j == 0 {
                assert(before * g == qi * (p * g) - p * g) by (nonlinear_arith)
                    requires
                        before == (qi - 1) * p,
                ;
            } else {
                assert(before * g < qi * (p * g)) by (nonlinear_arith)
                    requires
                        before < qi * p,
                        g > 0,
                ;
            }
        }
    }
}

/// Cutting the patterns off at infinity.
proof fn rounding_capped(h: nat, inf: nat, m: nat, e: int, more: bool, b: nat)
    requires
        h > 0,
        b > 0 ==> fits_below(h, m, e, more, b),
        fits_above(h, m, e, more, b),
    ensures
        is_nearest_scaled(h, inf, m, e, more, if b < inf { b } else { inf }),
{
    if b > inf && inf > 0 {
        pattern_value_increases(h, (inf - 1) as nat, (b - 1) as nat);
        pattern_value_increases(h, inf, b);
        let g = power2::pow2(up(-e)) as int;
        power2::lemma_pow2_pos(up(-e));
        let x = pattern_value(h, (inf - 1) as nat) + pattern_value(h, inf);
        let y = pattern_value(h, (b - 1) as nat) + pattern_value(h, b);
        assert(x * g < y * g) by (nonlinear_arith)
            requires
                x < y,
                g > 0,
        ;
    }
}

/// Whether `k` and `r` are what is left of `m` once bits were cut off it: the
/// whole part after `d` bits and the first bit cut, with a note of whether
/// there is anything behind that.
spec fn is_cut(m: nat, more: bool, d: nat, k: nat, r: nat, sticky: bool) -> bool {
    let a = 2 * k + r;
    let p = power2::pow2(d);
    &&& r <= 1
    &&& a * p <= 2 * m < (a + 1) * p
    &&& sticky == (2 * m != a * p || more)
}

spec fn cutting(
    h: nat,
    m: nat,
    e: int,
    more: bool,
    j: int,
    k: nat,
    r: nat,
    sticky: bool,
) -> bool {
    &&& e <= j
    &&& is_cut(m, more, (j - e) as nat, k, r, sticky)
    &&& j > 0 ==> k >= h
}

/// No more bits are cut off than there are, as long as something is left.
proof fn cut_bound(m: nat, more: bool, d: nat, k: nat, r: nat, sticky: bool)
    requires
        is_cut(m, more, d, k, r, sticky),
        m < 0x1_0000_0000_0000_0000_0000_0000_0000_0000,
        power2::pow2(128) == 0x1_0000_0000_0000_0000_0000_0000_0000_0000,
    ensures
        k > 0 ==> d < 128,
{
    if k > 0 && d >= 128 {
        if d > 128 {
            power2::lemma_pow2_strictly_increases(128, d);
        }
        let p = power2::pow2(d);
        assert((2 * k + r) * p >= 2 * p) by (nonlinear_arith)
            requires
                k >= 1,
                p >= 0,
        ;
    }
}

/// Cutting `s` more bits off.
proof fn cut_further(m: nat, more: bool, d: nat, k: nat, r: nat, sticky: bool, s: nat)
    requires
        is_cut(m, more, d, k, r, sticky),
        s >= 1,
    ensures
        is_cut(
            m,
            more,
            d + s,
            k / power2::pow2(s),
            (k % power2::pow2(s)) / power2::pow2((s - 1) as nat),
            sticky || r == 1 || k % power2::pow2((s - 1) as nat) != 0,
        ),
{
    let f = power2::pow2(s) as int;
    let g = power2::pow2((s - 1) as nat) as int;
    let p = power2::pow2(d) as int;
    power2::lemma_pow2_pos(s);
    power2::lemma_pow2_pos((s - 1) as nat);
    power2::lemma_pow2_pos(d);
    power2::lemma_pow2_unfold(s);
    power2::lemma_pow2_adds(d, s);
    let k1 = k as int / f;
    let rem = k as int % f;
    let r1 = rem / g;
    let rest = rem % g;
    div_mod::lemma_fundamental_div_mod(k as int, f);
    div_mod::lemma_mod_bound(k as int, f);
    div_mod::lemma_fundamental_div_mod(rem, g);
    div_mod::lemma_mod_bound(rem, g);
    assert(r1 <= 1) by (nonlinear_arith)
        requires
            rem == g * r1 + rest,
            rem < 2 * g,
            rest >= 0,
            g > 0,
    ;
    assert(r1 >= 0) by (nonlinear_arith)
        requires
            rem == g * r1 + rest,
            rem >= 0,
            rest < g,
            g > 0,
    ;
    assert(k as int == g * (2 * k1 + r1) + rest) by (nonlinear_arith)
        requires
            k as int == f * k1 + rem,
            rem == g * r1 + rest,
            f == 2 * g,
    ;
    div_mod::lemma_fundamental_div_mod_converse(k as int, g, 2 * k1 + r1, rest);
    let a = 2 * k + r;
    let a1 = 2 * k1 + r1;
    let w = 2 * rest + r;
    assert(a as int == a1 * f + w) by (nonlinear_arith)
        requires
            a as int == 2 * (g * a1 + rest) + r,
            f == 2 * g,
            w == 2 * rest + r,
    ;
    assert(a1 * (p * f) == a * p - w * p) by (nonlinear_arith)
        requires
            a as int == a1 * f + w,
    ;
    assert((a1 + 1) * (p * f) == a * p - w * p + f * p) by (nonlinear_arith)
        requires
            a as int == a1 * f + w,
    ;
    assert(w * p >= 0) by (nonlinear_arith)
        requires
            w >= 0,
            p > 0,
    ;
    assert(f * p >= w * p + p) by (nonlinear_arith)
        requires
            w + 1 <= f,
            p > 0,
    ;
    assert((a + 1) * p == a * p + p) by (nonlinear_arith);
    assert(w > 0 ==> w * p > 0) by (nonlinear_arith)
        requires
            p > 0,
    ;
    assert(w == 0 ==> w * p == 0) by (nonlinear_arith);
    assert(k1 >= 0) by (nonlinear_arith)
        requires
            k as int == f * k1 + rem,
            0 <= rem < f,
            k >= 0,
    ;
}

/// What was cut off, as one number behind the first bit of it.
proof fn cut_parts(m: nat, more: bool, t: nat, k: nat, r: nat, sticky: bool, low: nat)
    requires
        is_cut(m, more, t, k, r, sticky),
        t == 0 ==> low == 0,
        t > 0 ==> low == (m - (2 * k + r) * power2::pow2((t - 1) as nat)) as nat,
    ensures
        t == 0 ==> m == k && r == 0,
        t > 0 ==> m == (2 * k + r) * power2::pow2((t - 1) as nat) + low,
        t > 0 ==> low < power2::pow2((t - 1) as nat),
        sticky == (low > 0 || more),
{
    let a = 2 * k + r;
    if t == 0 {
        power2::lemma2_to64();
        assert(a * 1 == a) by (nonlinear_arith);
        assert((a + 1) * 1 == a + 1) by (nonlinear_arith);
    } else {
        let u = power2::pow2((t - 1) as nat);
        power2::lemma_pow2_unfold(t);
        assert(a * (2 * u) == 2 * (a * u)) by (nonlinear_arith);
        assert((a + 1) * (2 * u) == 2 * (a * u) + 2 * u) by (nonlinear_arith);
    }
}

/// Shifting left multiplies, as long as nothing is lost.
pub proof fn shl_is_mul(x: u128, s: u128)
    requires
        s < 128,
        x * power2::pow2(s as nat) <= u128::MAX,
    ensures
        x << s == x * power2::pow2(s as nat),
    decreases s,
{
    if s == 0 {
        power2::lemma2_to64();
        assert(x << 0u128 == x) by (bit_vector);
    } else {
        let t = (s - 1) as u128;
        let p = power2::pow2(t as nat);
        power2::lemma_pow2_unfold(s as nat);
        power2::lemma_pow2_pos(t as nat);
        assert(x * (2 * p) == 2 * (x * p)) by (nonlinear_arith);
        assert(x * p >= 0) by (nonlinear_arith)
            requires
                x >= 0,
                p > 0,
        ;
        shl_is_mul(x, t);
        let y = x << t;
        assert(x << s == (x << t) << 1u128) by (bit_vector)
            requires
                0 < s < 128,
                t == s - 1,
        ;
        assert(y << 1u128 == 2 * y) by (bit_vector)
            requires
                y <= 0x7fff_ffff_ffff_ffff_ffff_ffff_ffff_ffff,
        ;
    }
}

/// Whether a number takes `n` bits: zero takes none, any other number lies
/// between two powers of two.
pub open spec fn has_length(k: nat, n: nat) -> bool {
    if k == 0 {
        n == 0
    } else {
        n >= 1 && power2::pow2((n - 1) as nat) <= k < power2::pow2(n)
    }
}

/// The zeros ahead of a word are what its length leaves.
proof fn zeros_and_length(w: u64)
    ensures
        0 <= bits::u64_leading_zeros(w) <= 64,
        has_length(w as nat, (64 - bits::u64_leading_zeros(w)) as nat),
    decreases w,
{
    reveal(bits::u64_leading_zeros);
    power2::lemma2_to64();
    if w > 1 {
        zeros_and_length(w / 2);
        let n = (64 - bits::u64_leading_zeros(w / 2)) as nat;
        power2::lemma_pow2_unfold(n);
        power2::lemma_pow2_unfold(n + 1);
    } else if w == 1 {
        assert(bits::u64_leading_zeros(0) == 64);
    }
}

/// A number takes a word more than what is left of it above the low word.
proof fn length_above_word(k: nat, n: nat)
    requires
        k >= 0x1_0000_0000_0000_0000,
        has_length(k / 0x1_0000_0000_0000_0000, n),
    ensures
        has_length(k, n + 64),
{
    power2::lemma2_to64_rest();
    power2::lemma_pow2_adds((n - 1) as nat, 64);
    power2::lemma_pow2_adds(n, 64);
    assert((n - 1) as nat + 64 == (n + 64 - 1) as nat);
}

/// How many bits a number takes.
#[inline(always)]
fn length(k: u128) -> (n: u32)
    ensures
        n <= 128,
        has_length(k as nat, n as nat),
{
    let high: u64 = (k / 0x1_0000_0000_0000_0000) as u64;
    if high != 0 {
        proof {
            zeros_and_length(high);
            length_above_word(k as nat, (64 - bits::u64_leading_zeros(high)) as nat);
        }
        128 - high.leading_zeros()
    } else {
        let low: u64 = k as u64;
        proof {
            zeros_and_length(low);
        }
        64 - low.leading_zeros()
    }
}

/// Cuts `t` bits off: what is left, the first bit cut, and whether any was set
/// behind it.
#[inline(always)]
fn cut(k: u128, t: u32) -> (r: (u128, u128, bool))
    requires
        1 <= t <= 127,
    ensures
        r.0 == k as nat / power2::pow2(t as nat),
        r.1 == (k as nat % power2::pow2(t as nat)) / power2::pow2((t - 1) as nat),
        r.2 == (k as nat % power2::pow2((t - 1) as nat) != 0),
{
    let s: u128 = (t - 1) as u128;
    let halves: u128 = k >> s;
    let back: u128 = halves << s;
    proof {
        let f = power2::pow2(t as nat) as int;
        let g = power2::pow2((t - 1) as nat) as int;
        let n = k as int;
        power2::lemma_pow2_pos(t as nat);
        power2::lemma_pow2_pos((t - 1) as nat);
        power2::lemma_pow2_unfold(t as nat);
        vstd::bits::lemma_u128_shr_is_div(k, s);
        div_mod::lemma_fundamental_div_mod(n, g);
        div_mod::lemma_mod_bound(n, g);
        assert(halves * g <= k) by (nonlinear_arith)
            requires
                n == g * (n / g) + n % g,
                halves == n / g,
                n % g >= 0,
                n == k,
        ;
        shl_is_mul(halves, s);
        let (q, b) = (halves as int / 2, halves as int % 2);
        assert(n == f * q + (g * b + n % g)) by (nonlinear_arith)
            requires
                n == g * halves + n % g,
                halves == 2 * q + b,
                f == 2 * g,
        ;
        assert(0 <= g * b + n % g < f) by (nonlinear_arith)
            requires
                0 <= b <= 1,
                0 <= n % g < g,
                f == 2 * g,
        ;
        div_mod::lemma_fundamental_div_mod_converse(n, f, q, g * b + n % g);
        assert(g * b + n % g == b * g + n % g) by (nonlinear_arith);
        div_mod::lemma_fundamental_div_mod_converse(g * b + n % g, g, b, n % g);
        assert(g * halves == halves * g) by (nonlinear_arith);
    }
    (halves / 2, halves % 2, back != k)
}

/// The pattern nearest to a number given by its leading bits `m`, a binary
/// exponent and whether there is more behind them.
#[inline(always)]
pub fn round_pattern(h: u64, inf: u64, m: u128, e: i32, more: bool) -> (b: u64)
    requires
        0 < h <= 0x10_0000_0000_0000,
        h % 2 == 0,
        0 < inf <= 0x7ff0_0000_0000_0000,
        -10_000 <= e <= 10_000,
        more ==> m >= 2 * h,
    ensures
        is_nearest_scaled(h as nat, inf as nat, m as nat, e as int, more, b as nat),
{
    if m == 0 {
        proof {
            pattern_value_steps(h as nat, 0);
            let above = pattern_value(h as nat, 0) + pattern_value(h as nat, 1);
            let g = power2::pow2(up(-(e as int)));
            power2::lemma_pow2_pos(up(-(e as int)));
            assert(above * g > 0) by (nonlinear_arith)
                requires
                    above > 0,
                    g > 0,
            ;
            assert(2 * 0 * power2::pow2(up(e as int)) == 0) by (nonlinear_arith);
        }
        return 0;
    }
    // Fill the significand from the exponent.
    let mut m1: u128 = m;
    let mut e1: i32 = e;
    proof {
        power2::lemma2_to64();
        assert(m * power2::pow2(0) == m) by (nonlinear_arith)
            requires
                power2::pow2(0) == 1,
        ;
    }
    let (held, wanted): (u32, u32) = (length(m1), length(h as u128));
    if held < wanted {
        let t: u32 = wanted - held;
        let most: u128 = 2 * (h as u128) - 1;
        if t < 128 && (t as i32) < e1 && m1 <= most >> (t as u128) {
            proof {
                let p = power2::pow2(t as nat) as int;
                let n = most as int;
                power2::lemma_pow2_pos(t as nat);
                vstd::bits::lemma_u128_shr_is_div(most, t as u128);
                div_mod::lemma_fundamental_div_mod(n, p);
                div_mod::lemma_mod_bound(n, p);
                assert(m1 * p <= n && m1 * p > 0) by (nonlinear_arith)
                    requires
                        0 < m1 <= n / p,
                        n == p * (n / p) + n % p,
                        n % p >= 0,
                        p > 0,
                ;
                shl_is_mul(m1, t as u128);
                assert(m1 * p >= m1) by (nonlinear_arith)
                    requires
                        m1 > 0,
                        p >= 1,
                ;
                assert(!more);
            }
            m1 = m1 << (t as u128);
            e1 = e1 - t as i32;
        }
    }
    while m1 < h as u128 && e1 > 0
        invariant
            h <= 0x10_0000_0000_0000,
            e1 <= e <= 10_000,
            e1 == e || e1 >= 0 && !more,
            more ==> m >= 2 * h,
            more ==> e1 == e && m1 == m,
            m1 > 0,
            m1 == m * power2::pow2((e - e1) as nat),
            power2::pow2(0) == 1,
        decreases e1 + 10_001,
    {
        let ghost (m0, e0) = (m1, e1);
        m1 = m1 * 2;
        e1 = e1 - 1;
        proof {
            let a = power2::pow2((e - e0) as nat);
            power2::lemma_pow2_unfold((e - e1) as nat);
            assert(m1 == m * (2 * a)) by (nonlinear_arith)
                requires
                    m1 == 2 * m0,
                    m0 == m * a,
            ;
        }
    }

    // Cut bits off the significand, with the first one cut and whether any
    // was set behind it.
    let mut k: u128 = m1;
    let mut r: u128 = 0;
    let mut sticky: bool = more;
    let mut j: i32 = e1;
    proof {
        power2::lemma2_to64();
        power2::lemma2_to64_rest();
        power2::lemma_pow2_adds(64, 64);
        assert(0x1_0000_0000_0000_0000int * 0x1_0000_0000_0000_0000int
            == 0x1_0000_0000_0000_0000_0000_0000_0000_0000int);
        assert((2 * k + r) * power2::pow2(0) == 2 * m1) by (nonlinear_arith)
            requires
                power2::pow2(0) == 1,
                k == m1,
                r == 0,
        ;
        assert((2 * k + r + 1) * power2::pow2(0) == 2 * m1 + 1) by (nonlinear_arith)
            requires
                power2::pow2(0) == 1,
                k == m1,
                r == 0,
        ;
    }
    let filled: u32 = length(k);
    let surplus: u32 = if filled > wanted {
        filled - wanted
    } else {
        0
    };
    let missing: u32 = if -127 <= j && j < 0 {
        (-j) as u32
    } else {
        0
    };
    let t: u32 = if surplus > missing {
        surplus
    } else {
        missing
    };
    if 1 <= t && t <= 127 {
        let (k1, r1, rest) = cut(k, t);
        if j + t as i32 <= 0 || k1 >= h as u128 {
            proof {
                cut_further(m1 as nat, more, 0, k as nat, r as nat, sticky, t as nat);
            }
            k = k1;
            r = r1;
            sticky = sticky || rest;
            j = j + t as i32;
            proof {
                cut_bound(m1 as nat, more, (j - e1) as nat, k as nat, r as nat, sticky);
            }
        }
    }
    while j <= -32 || k >= (h as u128) * 0x1_0000_0000
        invariant
            0 < h <= 0x10_0000_0000_0000,
            -10_000 <= e1 <= 10_000,
            cutting(h as nat, m1 as nat, e1 as int, more, j as int, k as nat, r as nat, sticky),
            j <= 10_128,
            power2::pow2(32) == 0x1_0000_0000,
            power2::pow2(31) == 0x8000_0000,
            power2::pow2(128) == 0x1_0000_0000_0000_0000_0000_0000_0000_0000,
        decreases k, up(-(j as int)),
    {
        proof {
            cut_bound(m1 as nat, more, (j - e1) as nat, k as nat, r as nat, sticky);
            cut_further(m1 as nat, more, (j - e1) as nat, k as nat, r as nat, sticky, 32);
        }
        sticky = sticky || r == 1 || k % 0x8000_0000 != 0;
        r = (k % 0x1_0000_0000) / 0x8000_0000;
        k = k / 0x1_0000_0000;
        j = j + 32;
        proof {
            cut_bound(m1 as nat, more, (j - e1) as nat, k as nat, r as nat, sticky);
        }
    }
    while j <= -8 || k >= (h as u128) * 256
        invariant
            0 < h <= 0x10_0000_0000_0000,
            -10_000 <= e1 <= 10_000,
            cutting(h as nat, m1 as nat, e1 as int, more, j as int, k as nat, r as nat, sticky),
            j <= 10_128,
            power2::pow2(8) == 256,
            power2::pow2(7) == 128,
            power2::pow2(128) == 0x1_0000_0000_0000_0000_0000_0000_0000_0000,
        decreases k, up(-(j as int)),
    {
        proof {
            cut_bound(m1 as nat, more, (j - e1) as nat, k as nat, r as nat, sticky);
            cut_further(m1 as nat, more, (j - e1) as nat, k as nat, r as nat, sticky, 8);
        }
        sticky = sticky || r == 1 || k % 128 != 0;
        r = (k % 256) / 128;
        k = k / 256;
        j = j + 8;
        proof {
            cut_bound(m1 as nat, more, (j - e1) as nat, k as nat, r as nat, sticky);
        }
    }
    while j < 0 || k >= 2 * (h as u128)
        invariant
            0 < h <= 0x10_0000_0000_0000,
            -10_000 <= e1 <= 10_000,
            cutting(h as nat, m1 as nat, e1 as int, more, j as int, k as nat, r as nat, sticky),
            j <= 10_128,
            power2::pow2(1) == 0x2,
            power2::pow2(0) == 0x1,
            power2::pow2(128) == 0x1_0000_0000_0000_0000_0000_0000_0000_0000,
        decreases k, up(-(j as int)),
    {
        proof {
            cut_bound(m1 as nat, more, (j - e1) as nat, k as nat, r as nat, sticky);
            cut_further(m1 as nat, more, (j - e1) as nat, k as nat, r as nat, sticky, 1);
        }
        sticky = sticky || r == 1 || k % 0x1 != 0;
        r = (k % 0x2) / 0x1;
        k = k / 0x2;
        j = j + 1;
        proof {
            cut_bound(m1 as nat, more, (j - e1) as nat, k as nat, r as nat, sticky);
        }
    }
    let ghost t = (j - e1) as nat;
    let ghost low: nat = if t == 0 {
        0
    } else {
        (m1 - (2 * k + r) * power2::pow2((t - 1) as nat)) as nat
    };
    proof {
        cut_bound(m1 as nat, more, t, k as nat, r as nat, sticky);
        cut_parts(m1 as nat, more, t, k as nat, r as nat, sticky, low);
    }
    let goes_up: bool = r == 1 && (sticky || k % 2 == 1);
    let q: u128 = if goes_up {
        k + 1
    } else {
        k
    };
    proof {
        rounding(
            h as nat,
            m1 as nat,
            e1 as int,
            more,
            (j - e1) as nat,
            k as nat,
            r as nat,
            low,
            q as nat,
        );
        assert(0 <= j * h <= 10_128 * 0x10_0000_0000_0000) by (nonlinear_arith)
            requires
                0 <= j <= 10_128,
                0 <= h <= 0x10_0000_0000_0000,
        ;
    }
    let b: u128 = (j as u128) * (h as u128) + q;
    let ghost b_full = b as nat;
    proof {
        rescaled(h as nat, m as nat, e as int, m1 as nat, e1 as int, more, b_full);
        rounding_capped(h as nat, inf as nat, m as nat, e as int, more, b_full);
    }
    if b < inf as u128 {
        b as u64
    } else {
        inf
    }
}

/// Filling the significand from the exponent changes nothing.
proof fn rescaled(h: nat, m: nat, e: int, m1: nat, e1: int, more: bool, b: nat)
    requires
        e1 == e && m1 == m || 0 <= e1 <= e && !more && m1 == m * power2::pow2((e - e1) as nat),
    ensures
        fits_below(h, m1, e1, more, b) == fits_below(h, m, e, more, b),
        fits_above(h, m1, e1, more, b) == fits_above(h, m, e, more, b),
{
    if e1 != e || m1 != m {
        let a = power2::pow2((e - e1) as nat);
        let c = power2::pow2(e1 as nat);
        assert(up(-e) == 0 && up(-e1) == 0);
        power2::lemma2_to64();
        assert(e == e1 ==> m1 == m) by (nonlinear_arith)
            requires
                m1 == m * a,
                e == e1 ==> a == 1,
        ;
        power2::lemma_pow2_adds((e - e1) as nat, e1 as nat);
        assert((e - e1) as nat + e1 as nat == up(e));
        assert(e1 as nat == up(e1));
        assert(2 * m1 * c == 2 * m * (a * c)) by (nonlinear_arith)
            requires
                m1 == m * a,
        ;
        assert(2 * m1 * power2::pow2(up(e1)) == 2 * m * power2::pow2(up(e)));
    }
}

/// A number that the format holds is nearest to itself.
pub proof fn nearest_of_held(h: nat, inf: nat, b: nat)
    requires
        h > 0,
        b <= inf,
    ensures
        nearest(h, inf, pattern_value(h, b), 1) == b,
{
    if b > 0 {
        pattern_value_steps(h, (b - 1) as nat);
    }
    pattern_value_steps(h, b);
    nearest_is(h, inf, pattern_value(h, b), 1, b);
}

/// Some pattern from `b` on is the nearest one, where `b` is not above it.
proof fn nearest_exists_from(h: nat, inf: nat, n: nat, d: nat, b: nat) -> (r: nat)
    requires
        b <= inf,
        b > 0 ==> {
            let below = d * (pattern_value(h, (b - 1) as nat) + pattern_value(h, b));
            below < 2 * n || (below == 2 * n && b % 2 == 0)
        },
    ensures
        is_nearest(h, inf, n, d, r),
    decreases inf - b,
{
    if is_nearest(h, inf, n, d, b) {
        b
    } else {
        nearest_exists_from(h, inf, n, d, b + 1)
    }
}

/// Every ratio has a nearest pattern.
pub proof fn nearest_exists(h: nat, inf: nat, n: nat, d: nat)
    ensures
        is_nearest(h, inf, n, d, nearest(h, inf, n, d)),
        nearest(h, inf, n, d) <= inf,
{
    let r = nearest_exists_from(h, inf, n, d, 0);
}

/// Rounding keeps the order of ratios.
pub proof fn nearest_in_order(h: nat, inf: nat, n1: nat, d1: nat, n2: nat, d2: nat)
    requires
        h > 0,
        d1 > 0,
        d2 > 0,
        n1 * d2 <= n2 * d1,
    ensures
        nearest(h, inf, n1, d1) <= nearest(h, inf, n2, d2),
{
    let b1 = nearest(h, inf, n1, d1);
    let b2 = nearest(h, inf, n2, d2);
    nearest_exists(h, inf, n1, d1);
    nearest_exists(h, inf, n2, d2);
    if b1 > b2 {
        let s1 = pattern_value(h, (b1 - 1) as nat) + pattern_value(h, b1);
        let s2 = pattern_value(h, b2) + pattern_value(h, b2 + 1);
        pattern_value_increases(h, b2, (b1 - 1) as nat);
        pattern_value_increases(h, b2 + 1, b1);
        assert(d1 * s1 <= 2 * n1);
        assert(2 * n2 <= d2 * s2);
        assert(d1 * s1 * d2 <= 2 * n1 * d2) by (nonlinear_arith)
            requires
                d1 * s1 <= 2 * n1,
                d2 > 0,
        ;
        assert(2 * n1 * d2 <= 2 * n2 * d1) by (nonlinear_arith)
            requires
                n1 * d2 <= n2 * d1,
        ;
        assert(2 * n2 * d1 <= d2 * s2 * d1) by (nonlinear_arith)
            requires
                2 * n2 <= d2 * s2,
                d1 > 0,
        ;
        assert(d2 * s2 * d1 <= d1 * s1 * d2 && (s2 < s1 ==> d2 * s2 * d1 < d1 * s1 * d2))
            by (nonlinear_arith)
            requires
                s2 <= s1,
                d1 > 0,
                d2 > 0,
        ;
        assert(s1 == s2);
        assert(d1 * s1 == 2 * n1) by (nonlinear_arith)
            requires
                d1 * s1 <= 2 * n1,
                2 * n1 * d2 <= d1 * s1 * d2,
                d2 > 0,
        ;
        assert(2 * n2 == d2 * s2) by (nonlinear_arith)
            requires
                2 * n2 <= d2 * s2,
                d2 * s2 * d1 <= 2 * n2 * d1,
                d1 > 0,
        ;
        assert(b1 == b2 + 1);
    }
}

/// A ratio that is a value of the format rounds to the pattern of it.
pub proof fn nearest_of_value(h: nat, inf: nat, n: nat, d: nat, b: nat)
    requires
        h > 0,
        d > 0,
        b <= inf,
        n == pattern_value(h, b) * d,
    ensures
        nearest(h, inf, n, d) == b,
{
    nearest_of_held(h, inf, b);
    nearest_in_order(h, inf, n, d, pattern_value(h, b), 1);
    nearest_in_order(h, inf, pattern_value(h, b), 1, n, d);
}

/// A ratio below a value of the format does not round above it.
pub proof fn nearest_at_most(h: nat, inf: nat, n: nat, d: nat, b: nat)
    requires
        h > 0,
        d > 0,
        b <= inf,
        n <= pattern_value(h, b) * d,
    ensures
        nearest(h, inf, n, d) <= b,
{
    nearest_of_held(h, inf, b);
    nearest_in_order(h, inf, n, d, pattern_value(h, b), 1);
}

/// A ratio above a value of the format does not round below it.
pub proof fn nearest_at_least(h: nat, inf: nat, n: nat, d: nat, b: nat)
    requires
        h > 0,
        d > 0,
        b <= inf,
        n >= pattern_value(h, b) * d,
    ensures
        nearest(h, inf, n, d) >= b,
{
    nearest_of_held(h, inf, b);
    nearest_in_order(h, inf, pattern_value(h, b), 1, n, d);
}

/// The distance from a normal pattern to the next one is no more than a share
/// of its value.
pub proof fn step_is_small(h: nat, b: nat)
    requires
        h > 0,
        b >= h,
    ensures
        h * (pattern_value(h, b + 1) - pattern_value(h, b)) <= pattern_value(h, b),
        h * (pattern_value(h, b) - pattern_value(h, (b - 1) as nat)) <= pattern_value(h, b),
{
    let (j, k) = pattern_split(h, b);
    let p = power2::pow2(j);
    power2::lemma_pow2_pos(j);
    assert(k >= h) by {
        assert(0 * h == 0);
    }
    pattern_parts(h, j, k);
    pattern_parts(h, j, k + 1);
    assert((k + 1) * p == k * p + p) by (nonlinear_arith);
    assert(h * p <= k * p) by (nonlinear_arith)
        requires
            h <= k,
            p > 0,
    ;
    let (i, l) = pattern_split(h, (b - 1) as nat);
    let q = power2::pow2(i);
    pattern_parts(h, i, l);
    pattern_parts(h, i, l + 1);
    power2::lemma_pow2_pos(i);
    assert((l + 1) * q == l * q + q) by (nonlinear_arith);
    assert(i <= j) by {
        if j < i {
            assert(j * h + h <= i * h) by (nonlinear_arith)
                requires
                    j + 1 <= i,
                    h > 0,
            ;
        }
    }
    if i < j {
        power2::lemma_pow2_strictly_increases(i, j);
    }
    assert(h * q <= h * p) by (nonlinear_arith)
        requires
            q <= p,
            h > 0,
    ;
}

/// Rounding to a normal number is off by no more than half a step, which is a
/// share of the number.
pub proof fn nearest_is_close(h: nat, inf: nat, n: nat, d: nat)
    requires
        h > 0,
        d > 0,
        h <= nearest(h, inf, n, d) < inf,
    ensures
        ({
            let v = pattern_value(h, nearest(h, inf, n, d));
            &&& 2 * h * (d * v - n) <= d * v
            &&& 2 * h * (n - d * v) <= d * v
        }),
{
    let b = nearest(h, inf, n, d);
    nearest_exists(h, inf, n, d);
    step_is_small(h, b);
    let v = pattern_value(h, b) as int;
    let below = pattern_value(h, (b - 1) as nat) as int;
    let above = pattern_value(h, b + 1) as int;
    assert(2 * h * (d * v - n) <= d * v) by (nonlinear_arith)
        requires
            d * (below + v) <= 2 * n,
            h * (v - below) <= v,
            d > 0,
            h > 0,
    {
        let w = v - below;
        assert(d * (below + v) == d * below + d * v) by (nonlinear_arith);
        assert(d * w == d * v - d * below) by (nonlinear_arith)
            requires
                w == v - below,
        ;
        assert(h * (2 * (d * v - n)) <= h * (d * w)) by (nonlinear_arith)
            requires
                2 * (d * v - n) <= d * w,
                h > 0,
        ;
        assert(h * (d * w) == d * (h * w)) by (nonlinear_arith);
        assert(d * (h * w) <= d * v) by (nonlinear_arith)
            requires
                h * w <= v,
                d > 0,
        ;
    }
    assert(2 * h * (n - d * v) <= d * v) by (nonlinear_arith)
        requires
            2 * n <= d * (v + above),
            h * (above - v) <= v,
            d > 0,
            h > 0,
    {
        let w = above - v;
        assert(d * (v + above) == d * v + d * above) by (nonlinear_arith);
        assert(d * w == d * above - d * v) by (nonlinear_arith)
            requires
                w == above - v,
        ;
        assert(h * (2 * (n - d * v)) <= h * (d * w)) by (nonlinear_arith)
            requires
                2 * (n - d * v) <= d * w,
                h > 0,
        ;
        assert(h * (d * w) == d * (h * w)) by (nonlinear_arith);
        assert(d * (h * w) <= d * v) by (nonlinear_arith)
            requires
                h * w <= v,
                d > 0,
        ;
    }
}

/// Rounding an integer is off by no more than a share of the number that comes
/// out: below the normal numbers it is not off at all.
pub proof fn nearest_integer_is_close(h: nat, inf: nat, n: nat)
    requires
        0 < h <= inf,
        nearest(h, inf, n, 1) < inf,
    ensures
        ({
            let v = pattern_value(h, nearest(h, inf, n, 1));
            &&& 2 * h * (v - n) <= v
            &&& 2 * h * (n - v) <= v
        }),
{
    let b = nearest(h, inf, n, 1);
    let v = pattern_value(h, b);
    if n < h {
        nearest_of_held(h, inf, n);
        assert(2 * h * 0 == 0) by (nonlinear_arith);
    } else {
        pattern_parts(h, 0, h);
        assert(0 * h == 0);
        power2::lemma2_to64();
        assert(h * 1 == h) by (nonlinear_arith);
        nearest_at_least(h, inf, n, 1, h);
        nearest_is_close(h, inf, n, 1);
        assert(1 * v == v) by (nonlinear_arith);
    }
}

/// Rounding any ratio is off by no more than a share of the number that comes
/// out, or the least step of the format.
pub proof fn nearest_ratio_is_close(h: nat, inf: nat, n: nat, d: nat)
    requires
        0 < h <= inf,
        d > 0,
        nearest(h, inf, n, d) < inf,
    ensures
        ({
            let v = pattern_value(h, nearest(h, inf, n, d));
            &&& 2 * h * (d * v - n) <= d * v + 2 * h * d
            &&& 2 * h * (n - d * v) <= d * v + 2 * h * d
        }),
{
    let b = nearest(h, inf, n, d);
    let v = pattern_value(h, b) as int;
    nearest_exists(h, inf, n, d);
    assert(2 * h * d >= 0 && d * v >= 0) by (nonlinear_arith)
        requires
            h > 0,
            d > 0,
            v >= 0,
    ;
    if b >= h {
        nearest_is_close(h, inf, n, d);
    } else {
        pattern_parts(h, 0, b);
        pattern_parts(h, 0, b + 1);
        assert(0 * h == 0);
        power2::lemma2_to64();
        assert(pattern_value(h, b + 1) == b + 1);
        assert(d * (b + (b + 1)) == 2 * (d * b) + d) by (nonlinear_arith);
        assert(n - d * v <= d);
        if b > 0 {
            assert(pattern_value(h, (b - 1) as nat) == b - 1);
            assert(d * ((b - 1) + b) == 2 * (d * b) - d) by (nonlinear_arith);
        } else {
            assert(d * 0 == 0);
        }
        assert(d * v - n <= d);
        assert(2 * h * (d * v - n) <= 2 * h * d) by (nonlinear_arith)
            requires
                d * v - n <= d,
                h > 0,
        ;
        assert(2 * h * (n - d * v) <= 2 * h * d) by (nonlinear_arith)
            requires
                n - d * v <= d,
                h > 0,
        ;
    }
}

/// A ratio below the middle between a pattern and the next one does not round
/// above the pattern.
pub proof fn nearest_below_middle(h: nat, inf: nat, n: nat, d: nat, b: nat)
    requires
        h > 0,
        d > 0,
        b < inf,
        2 * n < d * (pattern_value(h, b) + pattern_value(h, b + 1)),
    ensures
        nearest(h, inf, n, d) <= b,
{
    let r = nearest(h, inf, n, d);
    nearest_exists(h, inf, n, d);
    if r > b {
        pattern_value_increases(h, b, (r - 1) as nat);
        pattern_value_increases(h, b + 1, r);
        let x = pattern_value(h, b) + pattern_value(h, b + 1);
        let y = pattern_value(h, (r - 1) as nat) + pattern_value(h, r);
        assert(d * x <= d * y) by (nonlinear_arith)
            requires
                x <= y,
                d > 0,
        ;
    }
}

/// The step from a pattern to the next one is more than a share of its value.
pub proof fn step_is_not_small(h: nat, b: nat)
    requires
        h > 0,
    ensures
        2 * h * (pattern_value(h, b + 1) - pattern_value(h, b)) > pattern_value(h, b),
{
    let (j, k) = pattern_split(h, b);
    let p = power2::pow2(j);
    power2::lemma_pow2_pos(j);
    pattern_parts(h, j, k);
    pattern_parts(h, j, k + 1);
    assert((k + 1) * p == k * p + p) by (nonlinear_arith);
    assert(2 * h * p > k * p) by (nonlinear_arith)
        requires
            k < 2 * h,
            p > 0,
    ;
}

} // verus!
