//! Correctly rounded arithmetic on magnitude patterns, for any binary format.
//!
//! `h` and `inf` describe the format as in `ieee`; one is `2^q` units of the
//! smallest subnormal.
use crate::ieee;
use vstd::arithmetic::{div_mod, power2};
use vstd::prelude::*;

verus! {

/// The formats that the routines below can round to.
pub open spec fn is_format(h: u64, inf: u64, q: u32) -> bool {
    &&& 0 < h <= 0x10_0000_0000_0000
    &&& h % 2 == 0
    &&& h <= inf <= 2047 * h
    &&& inf <= 0x7ff0_0000_0000_0000
    &&& q <= 1100
}

/// `m * 2^d`.
#[inline(always)]
fn times_pow2(m: u128, d: u32) -> (r: u128)
    requires
        m < 0x100_0000_0000_0000,
        d <= 70,
    ensures
        r == m * power2::pow2(d as nat),
        r < 0x4000_0000_0000_0000_0000_0000_0000_0000,
{
    proof {
        let a = power2::pow2(d as nat);
        power2::lemma2_to64();
        power2::lemma_pow2_adds(64, 6);
        power2::lemma_pow2_pos(d as nat);
        if d < 70 {
            power2::lemma_pow2_strictly_increases(d as nat, 70);
        }
        assert(m * a < 0x100_0000_0000_0000 * 0x40_0000_0000_0000_0000) by (nonlinear_arith)
            requires
                m < 0x100_0000_0000_0000,
                0 < a <= 0x40_0000_0000_0000_0000,
        ;
        ieee::shl_is_mul(m, d as u128);
    }
    m << (d as u128)
}

/// Splits a pattern into its significand and its exponent.
#[inline(always)]
pub fn unpack(h: u64, b: u64) -> (r: (u64, u32))
    requires
        0 < h <= 0x10_0000_0000_0000,
        b < 2047 * h,
    ensures
        r.0 < 2 * h,
        r.1 == 0 || h <= r.0,
        r.1 <= 2046,
        ieee::pattern_value(h as nat, b as nat) == r.0 * power2::pow2(r.1 as nat),
        b == r.1 * h + r.0,
{
    if b < h {
        proof {
            assert(0 * h == 0) by (nonlinear_arith);
            ieee::pattern_parts(h as nat, 0, b as nat);
        }
        (b, 0)
    } else {
        let x: u64 = b / h;
        let m: u64 = b % h + h;
        proof {
            div_mod::lemma_fundamental_div_mod(b as int, h as int);
            assert(1 <= x <= 2046) by (nonlinear_arith)
                requires
                    b == h * x + b % h,
                    h <= b < 2047 * h,
                    0 <= b % h < h,
            ;
            assert(b == (x - 1) * h + m) by (nonlinear_arith)
                requires
                    b == h * x + b % h,
                    m == b % h + h,
            ;
            ieee::pattern_parts(h as nat, (x - 1) as nat, m as nat);
        }
        (m, (x - 1) as u32)
    }
}

/// A signed value: the one of a magnitude pattern, or its negation.
pub open spec fn signed(h: u64, negative: bool, b: u64) -> int {
    if negative {
        -(ieee::pattern_value(h as nat, b as nat) as int)
    } else {
        ieee::pattern_value(h as nat, b as nat) as int
    }
}

pub open spec fn magnitude(x: int) -> nat {
    if x < 0 {
        (-x) as nat
    } else {
        x as nat
    }
}

/// The sum of two finite numbers. A sum of zero is positive unless both
/// operands are negative.
#[inline(always)]
pub fn sum(h: u64, inf: u64, a_negative: bool, a: u64, b_negative: bool, b: u64) -> (r: (
    bool,
    u64,
))
    requires
        is_format(h, inf, 0),
        a < inf,
        b < inf,
    ensures
        ({
            let s = signed(h, a_negative, a) + signed(h, b_negative, b);
            &&& r.1 == ieee::nearest(h as nat, inf as nat, magnitude(s), 1)
            &&& r.1 <= inf
            &&& r.0 == if s == 0 { a_negative && b_negative } else { s < 0 }
        }),
{
    let (ma, ja) = unpack(h, a);
    let (mb, jb) = unpack(h, b);
    if ja >= jb {
        sum_ordered(h, inf, a_negative, a, ma, ja, b_negative, b, mb, jb)
    } else {
        sum_ordered(h, inf, b_negative, b, mb, jb, a_negative, a, ma, ja)
    }
}

#[inline(always)]
fn sum_ordered(
    h: u64,
    inf: u64,
    a_negative: bool,
    a: u64,
    ma: u64,
    ja: u32,
    b_negative: bool,
    b: u64,
    mb: u64,
    jb: u32,
) -> (r: (bool, u64))
    requires
        is_format(h, inf, 0),
        a < inf,
        b < inf,
        jb <= ja <= 2046,
        ma < 2 * h,
        mb < 2 * h,
        ja == 0 || h <= ma,
        ieee::pattern_value(h as nat, a as nat) == ma * power2::pow2(ja as nat),
        ieee::pattern_value(h as nat, b as nat) == mb * power2::pow2(jb as nat),
    ensures
        ({
            let s = signed(h, a_negative, a) + signed(h, b_negative, b);
            &&& r.1 == ieee::nearest(h as nat, inf as nat, magnitude(s), 1)
            &&& r.1 <= inf
            &&& r.0 == if s == 0 { a_negative && b_negative } else { s < 0 }
        }),
{
    let ghost s = signed(h, a_negative, a) + signed(h, b_negative, b);
    let ghost va = ieee::pattern_value(h as nat, a as nat);
    let ghost vb = ieee::pattern_value(h as nat, b as nat);
    let d: u32 = ja - jb;
    let ghost unit = power2::pow2(jb as nat);
    proof {
        power2::lemma_pow2_pos(jb as nat);
        power2::lemma_pow2_adds(d as nat, jb as nat);
        power2::lemma2_to64();
    }
    if d <= 70 {
        let x: u128 = times_pow2(ma as u128, d);
        let y: u128 = mb as u128;
        proof {
            let c = power2::pow2(d as nat);
            assert(va == x * unit) by (nonlinear_arith)
                requires
                    va == ma * power2::pow2(ja as nat),
                    power2::pow2(ja as nat) == c * unit,
                    x == ma * c,
            ;
            lemma_order(x as int, y as int, unit as int);
        }
        let (negative, m): (bool, u128) = if a_negative == b_negative {
            (a_negative, x + y)
        } else if x >= y {
            (a_negative && x > y, x - y)
        } else {
            (b_negative, y - x)
        };
        proof {
            assert(magnitude(s) == m * unit);
            assert(m == 0 ==> s == 0);
            lemma_nonzero(m as int, unit as int);
        }
        let p: u64 = ieee::round_pattern(h, inf, m, jb as i32, false);
        proof {
            assert(1 * m * unit == magnitude(s) * 1) by (nonlinear_arith)
                requires
                    magnitude(s) == m * unit,
            ;
            ieee::scaled_nearest_to_ratio(
                h as nat,
                inf as nat,
                m as nat,
                jb as int,
                false,
                p as nat,
                magnitude(s),
                1,
            );
        }
        (if m == 0 { a_negative && b_negative } else { negative }, p)
    } else {
        // The smaller operand only decides on which side of the larger one
        // the sum lies.
        let x: u128 = (ma as u128) * 1024;
        let e: i32 = ja as i32 - 10;
        let more: bool = mb > 0;
        let m: u128 = if more && a_negative != b_negative {
            x - 1
        } else {
            x
        };
        let p: u64 = ieee::round_pattern(h, inf, m, e, more);
        proof {
            let f = power2::pow2(e as nat);
            power2::lemma_pow2_pos(e as nat);
            power2::lemma_pow2_adds(10, e as nat);
            assert(va == x * f) by (nonlinear_arith)
                requires
                    va == ma * power2::pow2(ja as nat),
                    power2::pow2(ja as nat) == 1024 * f,
                    x == ma * 1024,
            ;
            // The smaller operand is less than one unit of `f`.
            let g = power2::pow2((e - jb) as nat);
            power2::lemma_pow2_adds((e - jb) as nat, jb as nat);
            power2::lemma_pow2_strictly_increases(60, (e - jb) as nat);
            power2::lemma2_to64_rest();
            assert(f == g * unit);
            assert(vb < f) by (nonlinear_arith)
                requires
                    vb == mb * unit,
                    f == g * unit,
                    mb < g,
                    unit > 0,
            ;
            assert(mb > 0 ==> vb > 0) by (nonlinear_arith)
                requires
                    vb == mb * unit,
                    unit > 0,
            ;
            assert(mb == 0 ==> vb == 0) by (nonlinear_arith)
                requires
                    vb == mb * unit,
            ;
            assert((x - 1) * f == x * f - f) by (nonlinear_arith);
            assert((x + 1) * f == x * f + f) by (nonlinear_arith);
            assert(va >= 1024 * f) by (nonlinear_arith)
                requires
                    va == x * f,
                    x >= 1024,
                    f > 0,
            ;
            assert(1 * m * f == m * f) by (nonlinear_arith);
            assert(1 * (m + 1) * f == (m + 1) * f) by (nonlinear_arith);
            assert(magnitude(s) * 1 == magnitude(s)) by (nonlinear_arith);
            ieee::scaled_nearest_to_ratio(
                h as nat,
                inf as nat,
                m as nat,
                e as int,
                more,
                p as nat,
                magnitude(s),
                1,
            );
        }
        (a_negative, p)
    }
}

proof fn lemma_order(x: int, y: int, unit: int)
    requires
        unit > 0,
    ensures
        (x + y) * unit == x * unit + y * unit,
        (x - y) * unit == x * unit - y * unit,
        (y - x) * unit == y * unit - x * unit,
        x > y ==> x * unit > y * unit,
        x < y ==> x * unit < y * unit,
{
    assert((x + y) * unit == x * unit + y * unit) by (nonlinear_arith);
    assert((x - y) * unit == x * unit - y * unit) by (nonlinear_arith);
    assert((y - x) * unit == y * unit - x * unit) by (nonlinear_arith);
    assert(x > y ==> x * unit > y * unit) by (nonlinear_arith)
        requires
            unit > 0,
    ;
    assert(x < y ==> x * unit < y * unit) by (nonlinear_arith)
        requires
            unit > 0,
    ;
}

proof fn lemma_nonzero(m: int, unit: int)
    requires
        unit > 0,
        m >= 0,
    ensures
        m == 0 <==> m * unit == 0,
        m * unit >= 0,
{
    assert(m > 0 ==> m * unit > 0) by (nonlinear_arith)
        requires
            unit > 0,
    ;
    assert(m == 0 ==> m * unit == 0) by (nonlinear_arith);
}

/// The product of two finite magnitudes.
#[inline(always)]
pub fn product(h: u64, inf: u64, q: u32, a: u64, b: u64) -> (r: u64)
    requires
        is_format(h, inf, q),
        a < inf,
        b < inf,
    ensures
        r == ieee::nearest(
            h as nat,
            inf as nat,
            ieee::pattern_value(h as nat, a as nat) * ieee::pattern_value(h as nat, b as nat),
            power2::pow2(q as nat),
        ),
        r <= inf,
{
    let (ma, ja) = unpack(h, a);
    let (mb, jb) = unpack(h, b);
    proof {
        assert(ma * mb < 0x20_0000_0000_0000 * 0x20_0000_0000_0000) by (nonlinear_arith)
            requires
                0 <= ma < 0x20_0000_0000_0000,
                0 <= mb < 0x20_0000_0000_0000,
        ;
    }
    let m: u128 = (ma as u128) * (mb as u128);
    let e: i32 = ja as i32 + jb as i32 - q as i32;
    let r: u64 = ieee::round_pattern(h, inf, m, e, false);
    proof {
        let va = ieee::pattern_value(h as nat, a as nat);
        let vb = ieee::pattern_value(h as nat, b as nat);
        let pa = power2::pow2(ja as nat);
        let pb = power2::pow2(jb as nat);
        let d = power2::pow2(q as nat);
        let f = power2::pow2(ieee::up(e as int));
        let g = power2::pow2(ieee::up(-(e as int)));
        power2::lemma_pow2_pos(q as nat);
        power2::lemma_pow2_adds(ja as nat, jb as nat);
        power2::lemma_pow2_adds((ja + jb) as nat, ieee::up(-(e as int)));
        power2::lemma_pow2_adds(q as nat, ieee::up(e as int));
        assert(pa * pb * g == d * f);
        assert(d * m * f == (va * vb) * g) by (nonlinear_arith)
            requires
                va == ma * pa,
                vb == mb * pb,
                m == ma * mb,
                pa * pb * g == d * f,
        ;
        ieee::scaled_nearest_to_ratio(
            h as nat,
            inf as nat,
            m as nat,
            e as int,
            false,
            r as nat,
            va * vb,
            d,
        );
    }
    r
}

/// The format's number nearest to an integer.
pub fn from_integer(h: u64, inf: u64, q: u32, n: u64) -> (r: u64)
    requires
        is_format(h, inf, q),
    ensures
        r == ieee::nearest(h as nat, inf as nat, n as nat * power2::pow2(q as nat), 1),
        r <= inf,
{
    let r: u64 = ieee::round_pattern(h, inf, n as u128, q as i32, false);
    proof {
        let f = power2::pow2(q as nat);
        power2::lemma2_to64();
        assert(1 * (n as nat) * f == (n as nat * f) * 1) by (nonlinear_arith);
        ieee::scaled_nearest_to_ratio(
            h as nat,
            inf as nat,
            n as nat,
            q as int,
            false,
            r as nat,
            n as nat * f,
            1,
        );
    }
    r
}

/// Scales a nonzero significand up until it is at least `floor`.
fn normalized(m: u64, floor: u64) -> (r: (u64, u32))
    requires
        0 < m < 0x20_0000_0000_0000,
        0 < floor <= 0x10_0000_0000_0000,
    ensures
        r.0 == m * power2::pow2(r.1 as nat),
        floor <= r.0 < 0x20_0000_0000_0000,
        r.1 <= 53,
{
    let mut x: u64 = m;
    let mut s: u32 = 0;
    proof {
        power2::lemma2_to64();
        power2::lemma2_to64_rest();
        assert(m * power2::pow2(0) == m) by (nonlinear_arith)
            requires
                power2::pow2(0) == 1,
        ;
    }
    while x < floor
        invariant
            x == m * power2::pow2(s as nat),
            0 < m <= x < 0x20_0000_0000_0000,
            0 < floor <= 0x10_0000_0000_0000,
            s <= 53,
            power2::pow2(s as nat) <= x,
            power2::pow2(53) == 0x20_0000_0000_0000,
        decreases 0x20_0000_0000_0000 - x,
    {
        let ghost (x0, s0) = (x, s);
        proof {
            if s >= 53 {
                assert(false);
            }
            power2::lemma_pow2_unfold((s + 1) as nat);
        }
        x = x * 2;
        s = s + 1;
        proof {
            let a = power2::pow2(s0 as nat);
            assert(m * (2 * a) == 2 * (m * a)) by (nonlinear_arith);
        }
    }
    (x, s)
}

/// The quotient of a finite magnitude and a finite magnitude that is not
/// zero.
pub fn quotient(h: u64, inf: u64, q: u32, a: u64, b: u64) -> (r: u64)
    requires
        is_format(h, inf, q),
        a < inf,
        0 < b < inf,
    ensures
        r == ieee::nearest(
            h as nat,
            inf as nat,
            ieee::pattern_value(h as nat, a as nat) * power2::pow2(q as nat),
            ieee::pattern_value(h as nat, b as nat),
        ),
        r <= inf,
{
    let (ma, ja) = unpack(h, a);
    let (mb, jb) = unpack(h, b);
    let ghost va = ieee::pattern_value(h as nat, a as nat);
    let ghost vb = ieee::pattern_value(h as nat, b as nat);
    let ghost pa = power2::pow2(ja as nat);
    let ghost pb = power2::pow2(jb as nat);
    let ghost pq = power2::pow2(q as nat);
    proof {
        ieee::pattern_value_increases(h as nat, 0, b as nat);
        power2::lemma_pow2_pos(jb as nat);
        assert(mb > 0) by (nonlinear_arith)
            requires
                vb > 0,
                vb == mb * pb,
                mb >= 0,
        ;
    }
    if ma == 0 {
        let r: u64 = ieee::round_pattern(h, inf, 0, 0, false);
        proof {
            assert(va * pq == 0) by (nonlinear_arith)
                requires
                    va == ma * pa,
                    ma == 0,
            ;
            power2::lemma2_to64();
            assert(vb * 0 * 1 == 0 * 1) by (nonlinear_arith);
            ieee::scaled_nearest_to_ratio(
                h as nat,
                inf as nat,
                0,
                0,
                false,
                r as nat,
                0,
                vb,
            );
        }
        return r;
    }
    let (mn, s) = normalized(ma, h);
    let num: u128 = times_pow2(mn as u128, 70);
    let quo: u128 = num / (mb as u128);
    let more: bool = num % (mb as u128) != 0;
    let e: i32 = ja as i32 + q as i32 - jb as i32 - 70 - s as i32;
    proof {
        div_mod::lemma_fundamental_div_mod(num as int, mb as int);
        div_mod::lemma_mod_bound(num as int, mb as int);
        power2::lemma2_to64();
        power2::lemma_pow2_adds(64, 6);
        assert(num >= h * 0x40_0000_0000_0000_0000) by (nonlinear_arith)
            requires
                num == mn * 0x40_0000_0000_0000_0000,
                mn >= h,
        ;
        assert(quo >= 2 * h) by (nonlinear_arith)
            requires
                num == mb * quo + num % (mb as u128),
                0 <= num % (mb as u128) < mb,
                0 < mb < 2 * h,
                num >= h * 0x40_0000_0000_0000_0000,
                0 < h <= 0x10_0000_0000_0000,
        ;
    }
    let r: u64 = ieee::round_pattern(h, inf, quo, e, more);
    proof {
        let f = power2::pow2(ieee::up(e as int));
        let g = power2::pow2(ieee::up(-(e as int)));
        let ps = power2::pow2((70 + s) as nat);
        power2::lemma_pow2_adds(s as nat, 70);
        assert(num == ma * ps) by (nonlinear_arith)
            requires
                num == mn * power2::pow2(70),
                mn == ma * power2::pow2(s as nat),
                ps == power2::pow2(s as nat) * power2::pow2(70),
        ;
        power2::lemma_pow2_adds(jb as nat, ieee::up(e as int));
        let w = pb * f;
        assert(w > 0) by {
            power2::lemma_pow2_pos((jb + ieee::up(e as int)) as nat);
        }
        power2::lemma_pow2_adds(ja as nat, q as nat);
        power2::lemma_pow2_adds((ja + q) as nat, ieee::up(-(e as int)));
        power2::lemma_pow2_adds((70 + s) as nat, (jb + ieee::up(e as int)) as nat);
        assert(pa * pq * g == ps * w);
        let n = va * pq;
        assert(n * g == num * w) by (nonlinear_arith)
            requires
                n == va * pq,
                va == ma * pa,
                pa * pq * g == ps * w,
                num == ma * ps,
        ;
        assert(vb * quo * f == (mb * quo) * w) by (nonlinear_arith)
            requires
                vb == mb * pb,
                w == pb * f,
        ;
        assert(vb * (quo + 1) * f == (mb * quo + mb) * w) by (nonlinear_arith)
            requires
                vb == mb * pb,
                w == pb * f,
        ;
        let left = (mb * quo) as int;
        assert(left < num ==> left * w < num * w) by (nonlinear_arith)
            requires
                w > 0,
        ;
        assert(num * w < (left + mb) * w) by (nonlinear_arith)
            requires
                w > 0,
                num < left + mb,
        ;
        ieee::scaled_nearest_to_ratio(
            h as nat,
            inf as nat,
            quo as nat,
            e as int,
            more,
            r as nat,
            n,
            vb,
        );
    }
    r
}

/// The pattern of `m * 2^j`, which the format can hold.
fn pack(h: u64, m: u64, j: u32) -> (b: u64)
    requires
        0 < h <= 0x10_0000_0000_0000,
        m < 2 * h,
        j <= 2046,
    ensures
        ieee::pattern_value(h as nat, b as nat) == m * power2::pow2(j as nat),
        b <= j * h + m,
{
    let mut x: u64 = m;
    let mut i: u32 = j;
    if m == 0 {
        proof {
            assert(0 * power2::pow2(j as nat) == 0) by (nonlinear_arith);
            assert(j * h >= 0) by (nonlinear_arith);
        }
        return 0;
    }
    while x < h && i > 0
        invariant
            0 < h <= 0x10_0000_0000_0000,
            i <= j <= 2046,
            0 < m <= x < 2 * h,
            x * power2::pow2(i as nat) == m * power2::pow2(j as nat),
            i * h + x <= j * h + m,
        decreases i,
    {
        let ghost (x0, i0) = (x, i);
        proof {
            power2::lemma_pow2_unfold(i as nat);
        }
        x = x * 2;
        i = i - 1;
        proof {
            let a = power2::pow2(i as nat);
            assert(x * a == x0 * (2 * a)) by (nonlinear_arith)
                requires
                    x == 2 * x0,
            ;
            assert(i * h + x <= i0 * h + x0) by (nonlinear_arith)
                requires
                    i == i0 - 1,
                    x == 2 * x0,
                    x0 < h,
            ;
        }
    }
    proof {
        ieee::pattern_parts(h as nat, i as nat, x as nat);
        assert(0 <= i * h <= 2046 * 0x10_0000_0000_0000) by (nonlinear_arith)
            requires
                0 <= i <= 2046,
                0 < h <= 0x10_0000_0000_0000,
        ;
    }
    (i as u64) * h + x
}

/// The remainder of the division of two finite magnitudes, which is exact.
pub fn remainder(h: u64, a: u64, b: u64) -> (r: u64)
    requires
        0 < h <= 0x10_0000_0000_0000,
        a < 2047 * h,
        0 < b < 2047 * h,
    ensures
        ieee::pattern_value(h as nat, r as nat) == ieee::pattern_value(h as nat, a as nat)
            % ieee::pattern_value(h as nat, b as nat),
        r < b,
{
    let (ma, ja) = unpack(h, a);
    let (mb, jb) = unpack(h, b);
    let ghost va = ieee::pattern_value(h as nat, a as nat);
    let ghost vb = ieee::pattern_value(h as nat, b as nat);
    let ghost unit = power2::pow2(jb as nat);
    proof {
        ieee::pattern_value_increases(h as nat, 0, b as nat);
        power2::lemma_pow2_pos(jb as nat);
        assert(mb > 0) by (nonlinear_arith)
            requires
                vb > 0,
                vb == mb * unit,
                mb >= 0,
        ;
    }
    if ja < jb {
        proof {
            if a >= b {
                assert(a < b) by (nonlinear_arith)
                    requires
                        a == ja * h + ma,
                        b == jb * h + mb,
                        ja + 1 <= jb,
                        ma < 2 * h,
                        mb >= h,
                ;
            }
            ieee::pattern_value_increases(h as nat, a as nat, b as nat);
            div_mod::lemma_small_mod(va, vb);
        }
        return a;
    }
    let mut x: u64 = ma % mb;
    let mut i: u32 = jb;
    proof {
        power2::lemma2_to64();
        assert(ma * power2::pow2(0) == ma) by (nonlinear_arith)
            requires
                power2::pow2(0) == 1,
        ;
    }
    while i < ja
        invariant
            0 < mb < 2 * h,
            h <= 0x10_0000_0000_0000,
            jb <= i <= ja,
            x == (ma * power2::pow2((i - jb) as nat)) % (mb as int),
            x < mb,
        decreases ja - i,
    {
        let ghost (x0, i0) = (x, i);
        proof {
            power2::lemma_pow2_unfold((i + 1 - jb) as nat);
        }
        x = (2 * x) % mb;
        i = i + 1;
        proof {
            let a = power2::pow2((i0 - jb) as nat);
            div_mod::lemma_mul_mod_noop_right(2, ma * a, mb as int);
            assert(ma * (2 * a) == 2 * (ma * a)) by (nonlinear_arith);
        }
    }
    let r: u64 = pack(h, x, jb);
    proof {
        let c = power2::pow2((ja - jb) as nat);
        power2::lemma_pow2_adds((ja - jb) as nat, jb as nat);
        assert(va == (ma * c) * unit) by (nonlinear_arith)
            requires
                va == ma * power2::pow2(ja as nat),
                power2::pow2(ja as nat) == c * unit,
        ;
        div_mod::lemma_truncate_middle(ma * c, unit as int, mb as int);
        assert((ma * c) * unit == unit * (ma * c)) by (nonlinear_arith);
        assert(mb * unit == unit * mb) by (nonlinear_arith);
        assert(x * unit == unit * x) by (nonlinear_arith);
        if r >= b {
            ieee::pattern_value_increases(h as nat, b as nat, r as nat);
            div_mod::lemma_mod_bound(va as int, vb as int);
        }
    }
    r
}

/// Whether `b` is the pattern nearest to the square root of `n`.
pub open spec fn is_nearest_root(h: nat, inf: nat, n: nat, b: nat) -> bool {
    &&& b <= inf
    &&& b > 0 ==> {
        let x = ieee::pattern_value(h, (b - 1) as nat) + ieee::pattern_value(h, b);
        x * x < 4 * n || (x * x == 4 * n && b % 2 == 0)
    }
    &&& b < inf ==> {
        let x = ieee::pattern_value(h, b) + ieee::pattern_value(h, b + 1);
        4 * n < x * x || (4 * n == x * x && b % 2 == 0)
    }
}

/// The pattern nearest to the square root of `n`.
pub open spec fn nearest_root(h: nat, inf: nat, n: nat) -> nat {
    choose|b: nat| is_nearest_root(h, inf, n, b)
}

proof fn root_not_below(h: nat, inf: nat, n: nat, a: nat, b: nat)
    requires
        h > 0,
        a < b,
        is_nearest_root(h, inf, n, a),
    ensures
        !is_nearest_root(h, inf, n, b),
{
    ieee::pattern_value_increases(h, a, (b - 1) as nat);
    ieee::pattern_value_increases(h, a + 1, b);
    let x = ieee::pattern_value(h, a) + ieee::pattern_value(h, a + 1);
    let y = ieee::pattern_value(h, (b - 1) as nat) + ieee::pattern_value(h, b);
    assert(x * x <= y * y) by (nonlinear_arith)
        requires
            0 <= x <= y,
    ;
    if a + 1 < b {
        assert(x * x < y * y) by (nonlinear_arith)
            requires
                0 <= x < y,
        ;
    }
}

pub proof fn nearest_root_is(h: nat, inf: nat, n: nat, b: nat)
    requires
        h > 0,
        is_nearest_root(h, inf, n, b),
    ensures
        nearest_root(h, inf, n) == b,
{
    let c = nearest_root(h, inf, n);
    if c < b {
        root_not_below(h, inf, n, c, b);
    } else if b < c {
        root_not_below(h, inf, n, b, c);
    }
}

/// The integer part of the square root.
fn integer_root(n: u128) -> (r: u128)
    requires
        n < 0x4000_0000_0000_0000_0000_0000_0000_0000,
    ensures
        r * r <= n < (r + 1) * (r + 1),
        r < 0x8000_0000_0000_0000,
{
    let mut lo: u128 = 0;
    let mut hi: u128 = 0x8000_0000_0000_0000;
    proof {
        assert(0x8000_0000_0000_0000int * 0x8000_0000_0000_0000int
            == 0x4000_0000_0000_0000_0000_0000_0000_0000int);
    }
    while hi - lo > 1
        invariant
            lo < hi <= 0x8000_0000_0000_0000,
            lo * lo <= n < hi * hi,
        decreases hi - lo,
    {
        let mid: u128 = (lo + hi) / 2;
        proof {
            assert(mid * mid <= 0x8000_0000_0000_0000 * 0x8000_0000_0000_0000)
                by (nonlinear_arith)
                requires
                    0 <= mid <= 0x8000_0000_0000_0000,
            ;
        }
        if mid * mid <= n {
            lo = mid;
        } else {
            hi = mid;
        }
    }
    assert(hi == lo + 1);
    lo
}

/// The square root of a finite magnitude.
pub fn square_root(h: u64, inf: u64, q: u32, a: u64) -> (r: u64)
    requires
        is_format(h, inf, q),
        q >= 140,
        a < inf,
    ensures
        r == nearest_root(
            h as nat,
            inf as nat,
            ieee::pattern_value(h as nat, a as nat) * power2::pow2(q as nat),
        ),
        r <= inf,
{
    let (ma, ja) = unpack(h, a);
    let ghost va = ieee::pattern_value(h as nat, a as nat);
    let ghost n = va * power2::pow2(q as nat);
    if ma == 0 {
        proof {
            assert(va == 0) by (nonlinear_arith)
                requires
                    va == ma * power2::pow2(ja as nat),
                    ma == 0,
            ;
            assert(n == 0) by (nonlinear_arith)
                requires
                    n == va * power2::pow2(q as nat),
                    va == 0,
            ;
            ieee::pattern_value_steps(h as nat, 0);
            let x = ieee::pattern_value(h as nat, 0) + ieee::pattern_value(h as nat, 1);
            assert(x * x > 0) by (nonlinear_arith)
                requires
                    x > 0,
            ;
            nearest_root_is(h as nat, inf as nat, n, 0);
        }
        return 0;
    }
    // A significand of about 120 bits with an even exponent.
    let (mn, s) = normalized(ma, 0x10_0000_0000_0000);
    let odd: bool = (ja + q + s) % 2 == 1;
    let shift: u32 = if odd {
        65
    } else {
        66
    };
    let num: u128 = times_pow2(mn as u128, shift);
    let e: u32 = (ja + q - s - shift) / 2;
    let root: u128 = integer_root(num);
    let more: bool = root * root < num;
    proof {
        power2::lemma2_to64();
        power2::lemma_pow2_adds(64, 1);
        power2::lemma_pow2_adds(64, 2);
        assert(num >= 0x10_0000_0000_0000 * 0x2_0000_0000_0000_0000) by (nonlinear_arith)
            requires
                num == mn * power2::pow2(shift as nat),
                mn >= 0x10_0000_0000_0000,
                power2::pow2(shift as nat) >= 0x2_0000_0000_0000_0000,
        ;
        assert(root >= 2 * h) by (nonlinear_arith)
            requires
                num < (root + 1) * (root + 1),
                num >= 0x10_0000_0000_0000 * 0x2_0000_0000_0000_0000,
                h <= 0x10_0000_0000_0000,
        ;
    }
    let r: u64 = ieee::round_pattern(h, inf, root, e as i32, more);
    proof {
        let f = power2::pow2(e as nat);
        let ps = power2::pow2(s as nat);
        let pt = power2::pow2(shift as nat);
        power2::lemma_pow2_pos(e as nat);
        power2::lemma_pow2_adds(s as nat, shift as nat);
        power2::lemma_pow2_adds(e as nat, e as nat);
        power2::lemma_pow2_adds((s + shift) as nat, (e + e) as nat);
        power2::lemma_pow2_adds(ja as nat, q as nat);
        assert(2 * e == ja + q - s - shift);
        assert(n == num * (f * f)) by (nonlinear_arith)
            requires
                n == va * power2::pow2(q as nat),
                va == ma * power2::pow2(ja as nat),
                power2::pow2(ja as nat) * power2::pow2(q as nat) == (ps * pt) * (f * f),
                num == (ma * ps) * pt,
        ;
        root_from_scaled(
            h as nat,
            inf as nat,
            root as int,
            num as int,
            f as int,
            e as nat,
            more,
            r as nat,
            n,
        );
    }
    r
}

proof fn root_from_scaled(
    h: nat,
    inf: nat,
    root: int,
    num: int,
    f: int,
    e: nat,
    more: bool,
    b: nat,
    n: nat,
)
    requires
        h > 0,
        root > 0,
        f == power2::pow2(e),
        f > 0,
        root * root <= num < (root + 1) * (root + 1),
        more == (root * root < num),
        n == num * (f * f),
        ieee::is_nearest_scaled(h, inf, root as nat, e as int, more, b),
    ensures
        nearest_root(h, inf, n) == b,
{
    power2::lemma2_to64();
    let t = root * f;
    assert(t * t == (root * root) * (f * f)) by (nonlinear_arith)
        requires
            t == root * f,
    ;
    let ff = f * f;
    assert(ff > 0) by (nonlinear_arith)
        requires
            ff == f * f,
            f > 0,
    ;
    assert(t * t <= n) by (nonlinear_arith)
        requires
            t * t == (root * root) * ff,
            n == num * ff,
            root * root <= num,
            ff > 0,
    ;
    assert(more ==> t * t < n) by (nonlinear_arith)
        requires
            t * t == (root * root) * ff,
            n == num * ff,
            more ==> root * root < num,
            ff > 0,
    ;
    assert(2 * (root as nat) * (f as nat) == 2 * t) by (nonlinear_arith)
        requires
            t == root * f,
            root > 0,
            f > 0,
    ;
    let t1 = (root + 1) * f;
    assert(2 * ((root as nat) + 1) * (f as nat) == 2 * t1) by (nonlinear_arith)
        requires
            t1 == (root + 1) * f,
            root > 0,
            f > 0,
    ;
    assert(n < t1 * t1) by (nonlinear_arith)
        requires
            t1 == (root + 1) * f,
            n == num * ff,
            ff == f * f,
            num < (root + 1) * (root + 1),
            ff > 0,
    ;
    assert(t > 0) by (nonlinear_arith)
        requires
            t == root * f,
            root > 0,
            f > 0,
    ;
    if b > 0 {
        let x = ieee::pattern_value(h, (b - 1) as nat) + ieee::pattern_value(h, b);
        assert(x * 1 == x);
        assert(x <= 2 * t);
        if x < 2 * t {
            assert(x * x < 4 * (t * t)) by (nonlinear_arith)
                requires
                    0 <= x < 2 * t,
            ;
        } else {
            assert(x * x == 4 * (t * t)) by (nonlinear_arith)
                requires
                    x == 2 * t,
            ;
        }
    }
    if b < inf {
        let y = ieee::pattern_value(h, b) + ieee::pattern_value(h, b + 1);
        assert(y * 1 == y);
        if more {
            assert(y * y >= 4 * (t1 * t1)) by (nonlinear_arith)
                requires
                    y >= 2 * t1,
                    t1 >= 0,
            ;
            assert(t1 >= 0) by (nonlinear_arith)
                requires
                    t1 == (root + 1) * f,
                    root > 0,
                    f > 0,
            ;
        } else {
            assert(n == t * t) by (nonlinear_arith)
                requires
                    t * t == (root * root) * ff,
                    n == num * ff,
                    root * root == num,
            ;
            if y > 2 * t {
                assert(y * y > 4 * (t * t)) by (nonlinear_arith)
                    requires
                        y > 2 * t,
                        t > 0,
                ;
            } else {
                assert(y * y == 4 * (t * t)) by (nonlinear_arith)
                    requires
                        y == 2 * t,
                ;
            }
        }
    }
    nearest_root_is(h, inf, n, b);
}

/// The largest integer that `integer_part` tells apart from larger ones.
pub const INTEGER_LIMIT: u128 = 0x80_0000_0000_0000_0000;

pub open spec fn capped(x: nat) -> nat {
    if x < INTEGER_LIMIT {
        x
    } else {
        INTEGER_LIMIT as nat
    }
}

/// How often `2^q` goes into a finite magnitude, and whether anything is left
/// over. The count stops at `INTEGER_LIMIT`.
pub fn integer_part(h: u64, b: u64, q: u32) -> (r: (u128, bool))
    requires
        0 < h <= 0x10_0000_0000_0000,
        b < 2047 * h,
        q <= 1100,
    ensures
        r.0 == capped(ieee::pattern_value(h as nat, b as nat) / power2::pow2(q as nat)),
        r.1 == (ieee::pattern_value(h as nat, b as nat) % power2::pow2(q as nat) != 0),
{
    let (m, j) = unpack(h, b);
    let ghost v = ieee::pattern_value(h as nat, b as nat);
    let ghost d = power2::pow2(q as nat);
    proof {
        power2::lemma_pow2_pos(q as nat);
    }
    if j >= q {
        let ghost c = power2::pow2((j - q) as nat);
        proof {
            power2::lemma_pow2_adds((j - q) as nat, q as nat);
            assert(v == (m * c) * d) by (nonlinear_arith)
                requires
                    v == m * power2::pow2(j as nat),
                    power2::pow2(j as nat) == c * d,
            ;
            div_mod::lemma_fundamental_div_mod_converse(
                v as int,
                d as int,
                m * c,
                0,
            );
        }
        if m == 0 {
            assert(m * c == 0) by (nonlinear_arith)
                requires
                    m == 0,
            ;
            (0, false)
        } else if j - q <= 70 {
            let x: u128 = times_pow2(m as u128, j - q);
            if x < INTEGER_LIMIT {
                (x, false)
            } else {
                (INTEGER_LIMIT, false)
            }
        } else {
            proof {
                power2::lemma2_to64();
                power2::lemma_pow2_adds(64, 7);
                if j - q > 71 {
                    power2::lemma_pow2_strictly_increases(71, (j - q) as nat);
                }
                assert(m * c >= INTEGER_LIMIT) by (nonlinear_arith)
                    requires
                        m >= 1,
                        c >= INTEGER_LIMIT,
                ;
            }
            (INTEGER_LIMIT, false)
        }
    } else {
        let t: u32 = q - j;
        let ghost pj = power2::pow2(j as nat);
        let ghost c = power2::pow2(t as nat);
        proof {
            power2::lemma_pow2_pos(j as nat);
            power2::lemma_pow2_pos(t as nat);
            power2::lemma_pow2_adds(j as nat, t as nat);
            lemma_scaled_div(m as int, c as int, pj as int);
            assert(m * pj == pj * m) by (nonlinear_arith);
        }
        if t >= 60 {
            proof {
                power2::lemma2_to64_rest();
                if t > 60 {
                    power2::lemma_pow2_strictly_increases(60, t as nat);
                }
                div_mod::lemma_small_mod(m as nat, c);
                div_mod::lemma_fundamental_div_mod_converse(m as int, c as int, 0, m as int);
            }
            (0, m != 0)
        } else {
            let one: u128 = times_pow2(1, t);
            assert(one == c) by (nonlinear_arith)
                requires
                    one == 1 * c,
            ;
            let x: u128 = (m as u128) / one;
            proof {
                div_mod::lemma_div_is_ordered_by_denominator(m as int, 1, one as int);
            }
            (x, (m as u128) % one != 0)
        }
    }
}

proof fn lemma_scaled_div(m: int, c: int, p: int)
    requires
        m >= 0,
        c > 0,
        p > 0,
    ensures
        (p * m) / (p * c) == m / c,
        (p * m) % (p * c) == p * (m % c),
        (p * (m % c) == 0) <==> (m % c == 0),
{
    div_mod::lemma_truncate_middle(m, p, c);
    div_mod::lemma_fundamental_div_mod(m, c);
    div_mod::lemma_mod_bound(m, c);
    let x = m / c;
    let y = m % c;
    assert(p * m == x * (p * c) + p * y) by (nonlinear_arith)
        requires
            m == c * x + y,
    ;
    assert(0 <= p * y < p * c) by (nonlinear_arith)
        requires
            0 <= y < c,
            p > 0,
    ;
    div_mod::lemma_fundamental_div_mod_converse(p * m, p * c, x, p * y);
    assert(y > 0 ==> p * y > 0) by (nonlinear_arith)
        requires
            p > 0,
    ;
}

} // verus!
