//! How close the estimate of where a pulse arrived is to the centroid that it
//! stands for.
use crate::arithmetic;
use crate::config::NorthPulseEstimator;
use crate::constants;
use crate::double;
use crate::double::Double;
use crate::double_laws;
use crate::double_laws::PRECISION;
use crate::ieee;
use crate::rdf::north_ref_common;
use crate::single;
use crate::single::Single;
use crate::single_laws;
use vstd::arithmetic::{mul, power2};
use vstd::prelude::*;

verus! {

/// How far from the start of a buffer an estimator window may reach: `2^40`
/// samples.
pub const FARTHEST: u64 = 0x100_0000_0000;

/// Up to where in a buffer no estimate is rounded beyond its half width.
pub const NEAR: u64 = 0x34_0000;

/// The weight of the sample at an index, in units of the smallest number.
pub open spec fn weight_at(
    tail: Seq<Single>,
    buffer: Seq<Single>,
    estimator: NorthPulseEstimator,
    index: int,
) -> int {
    north_ref_common::weight_spec(
        estimator,
        north_ref_common::sample_at_spec(tail, buffer, index)->0,
    ).value()
}

/// The weights of `k` samples from `low` on.
pub open spec fn weights_of(
    tail: Seq<Single>,
    buffer: Seq<Single>,
    estimator: NorthPulseEstimator,
    low: int,
    k: nat,
) -> Seq<int> {
    Seq::new(k, |i: int| weight_at(tail, buffer, estimator, low + i))
}

/// The sum of weights.
pub open spec fn total_of(weights: Seq<int>) -> int
    decreases weights.len(),
{
    if weights.len() == 0 {
        0
    } else {
        total_of(weights.drop_last()) + weights.last()
    }
}

/// The first moment of weights at consecutive positions.
pub open spec fn moment_of(weights: Seq<int>, first: int) -> int
    decreases weights.len(),
{
    if weights.len() == 0 {
        0
    } else {
        moment_of(weights.drop_last(), first) + weights.last() * (first + weights.len() - 1)
    }
}

/// Whether the samples of a window are there and are numbers.
pub open spec fn window_in_numbers(
    tail: Seq<Single>,
    buffer: Seq<Single>,
    low: int,
    high: int,
) -> bool {
    forall|i: int|
        low <= i <= high ==> ((#[trigger] north_ref_common::sample_at_spec(
            tail,
            buffer,
            i,
        )) matches Some(s) && s.finite())
}

proof fn moment_moves(weights: Seq<int>, first: int, by: int)
    ensures
        moment_of(weights, first + by) == moment_of(weights, first) + by * total_of(weights),
    decreases weights.len(),
{
    if weights.len() > 0 {
        let front = weights.drop_last();
        let (w, n, t) = (weights.last(), weights.len() as int, total_of(front));
        moment_moves(front, first, by);
        assert(w * (first + by + n - 1) == w * (first + n - 1) + by * w) by (nonlinear_arith);
        assert(by * (t + w) == by * t + by * w) by (nonlinear_arith);
    } else {
        assert(by * 0 == 0);
    }
}

proof fn moment_is_bounded(weights: Seq<int>, first: int, reach: int)
    requires
        forall|i: int| 0 <= i < weights.len() ==> #[trigger] weights[i] >= 0,
        -reach <= first,
        first + weights.len() - 1 <= reach,
        reach >= 0,
    ensures
        total_of(weights) >= 0,
        -(reach * total_of(weights)) <= moment_of(weights, first) <= reach * total_of(weights),
    decreases weights.len(),
{
    if weights.len() > 0 {
        let front = weights.drop_last();
        assert forall|i: int| 0 <= i < front.len() implies #[trigger] front[i] >= 0 by {
            assert(front[i] == weights[i]);
        }
        moment_is_bounded(front, first, reach);
        let (w, t) = (weights.last(), total_of(front));
        assert(w == weights[weights.len() - 1]);
        let at = first + weights.len() - 1;
        assert(-(reach * w) <= w * at <= reach * w) by (nonlinear_arith)
            requires
                w >= 0,
                -reach <= at <= reach,
        ;
        assert(reach * (t + w) == reach * t + reach * w) by (nonlinear_arith);
    } else {
        assert(reach * 0 == 0);
    }
}

proof fn from_the_front(x: int, weights: Seq<int>, first: int)
    ensures
        total_of(seq![x] + weights) == x + total_of(weights),
        moment_of(seq![x] + weights, first) == x * first + moment_of(weights, first + 1),
    decreases weights.len(),
{
    let all = seq![x] + weights;
    if weights.len() > 0 {
        assert(all.drop_last() =~= seq![x] + weights.drop_last());
        assert(all.last() == weights.last());
        assert(first + all.len() - 1 == first + 1 + weights.len() - 1);
        from_the_front(x, weights.drop_last(), first);
    } else {
        assert(all.drop_last() =~= Seq::<int>::empty());
        assert(all.last() == x && all.len() == 1);
        assert(total_of(Seq::<int>::empty()) == 0 && moment_of(Seq::<int>::empty(), first) == 0);
        assert(weights =~= Seq::<int>::empty());
    }
}

/// Mirrored weights have the same sum, and the opposite moment about the
/// middle.
proof fn mirrored_weights(weights: Seq<int>, mirrored: Seq<int>, first: int)
    requires
        mirrored.len() == weights.len(),
        forall|i: int|
            0 <= i < weights.len() ==> #[trigger] mirrored[i] == weights[weights.len() - 1 - i],
    ensures
        total_of(mirrored) == total_of(weights),
        moment_of(mirrored, -(first + weights.len() - 1)) == -moment_of(weights, first),
    decreases weights.len(),
{
    if weights.len() > 0 {
        let n = weights.len() as int;
        let front = weights.drop_last();
        let rest = mirrored.skip(1);
        assert forall|i: int| 0 <= i < front.len() implies #[trigger] rest[i]
            == front[front.len() - 1 - i] by {
            assert(rest[i] == mirrored[i + 1]);
        }
        mirrored_weights(front, rest, first);
        let w = weights.last();
        assert(mirrored[0] == w);
        assert(mirrored =~= seq![w] + rest);
        from_the_front(w, rest, -(first + n - 1));
        assert(w * (-(first + n - 1)) == -(w * (first + n - 1))) by (nonlinear_arith);
        assert(-(first + n - 1) + 1 == -(first + front.len() - 1));
    }
}

/// What is left of itself in a bound can be taken out of it.
proof fn absorb(n: int, x: int, c: int, b: int)
    requires
        n >= 2,
        x >= 0,
        b >= 0,
        c <= n - 1,
        n * x <= c * b + x,
    ensures
        x <= b,
        n * x <= (c + 1) * b,
{
    assert(x <= b) by (nonlinear_arith)
        requires
            n >= 2,
            x >= 0,
            b >= 0,
            c <= n - 1,
            n * x <= c * b + x,
    {
        if x > b {
            assert((n - 1) * x > (n - 1) * b) by (nonlinear_arith)
                requires
                    x > b,
                    n >= 2,
            ;
            assert((n - 1) * b >= c * b) by (nonlinear_arith)
                requires
                    c <= n - 1,
                    b >= 0,
            ;
            assert((n - 1) * x == n * x - x) by (nonlinear_arith);
        }
    }
    assert((c + 1) * b == c * b + b) by (nonlinear_arith);
}

pub open spec fn size(x: int) -> int {
    double_laws::apart(x, 0)
}

proof fn size_of_product(a: int, b: int)
    ensures
        size(a * b) == size(a) * size(b),
{
    if a < 0 && b < 0 {
        assert(a * b == (-a) * (-b)) by (nonlinear_arith);
        assert((-a) * (-b) > 0) by (nonlinear_arith)
            requires
                a < 0,
                b < 0,
        ;
    } else if a < 0 {
        assert(a * b == -((-a) * b)) by (nonlinear_arith);
        assert((-a) * b >= 0) by (nonlinear_arith)
            requires
                a < 0,
                b >= 0,
        ;
    } else if b < 0 {
        assert(a * b == -(a * (-b))) by (nonlinear_arith);
        assert(a * (-b) >= 0) by (nonlinear_arith)
            requires
                b < 0,
                a >= 0,
        ;
    } else {
        assert(a * b >= 0) by (nonlinear_arith)
            requires
                a >= 0,
                b >= 0,
        ;
    }
}

/// One more term of a rounded sum of rounded products.
proof fn moment_step(
    n: int,
    reach: int,
    k: int,
    m: int,
    s: int,
    acc: int,
    w: int,
    at: int,
    p: int,
    next: int,
)
    requires
        k >= 0,
        4 * k + 8 <= n,
        s >= 0,
        w >= 0,
        reach >= 0,
        size(at) <= reach,
        size(m) <= reach * s,
        n * double_laws::apart(acc, m) <= 4 * k * (reach * s),
        n * double_laws::apart(p, w * at) <= size(p),
        n * double_laws::apart(next, acc + p) <= size(next),
    ensures
        n * double_laws::apart(next, m + w * at) <= 4 * (k + 1) * (reach * (s + w)),
        size(m + w * at) <= reach * (s + w),
        size(p) <= 2 * (reach * w),
{
    let b0 = reach * s;
    let bw = reach * w;
    let b = reach * (s + w);
    let c = 4 * k;
    assert(b == b0 + bw) by (nonlinear_arith)
        requires
            b == reach * (s + w),
            b0 == reach * s,
            bw == reach * w,
    ;
    assert(b0 >= 0 && bw >= 0) by (nonlinear_arith)
        requires
            b0 == reach * s,
            bw == reach * w,
            reach >= 0,
            s >= 0,
            w >= 0,
    ;
    let wi = w * at;
    assert(-bw <= wi <= bw) by (nonlinear_arith)
        requires
            wi == w * at,
            bw == reach * w,
            w >= 0,
            -reach <= at <= reach,
    ;
    let y = double_laws::apart(p, wi);
    absorb(n, y, 1, bw);
    let x0 = double_laws::apart(acc, m);
    let z = double_laws::apart(next, acc + p);
    let x = double_laws::apart(next, m + wi);
    assert(x <= z + x0 + y);
    assert(n * x <= n * z + n * x0 + n * y) by (nonlinear_arith)
        requires
            x <= z + x0 + y,
            n >= 0,
    ;
    assert(c * b0 <= c * b) by (nonlinear_arith)
        requires
            b0 <= b,
            c >= 0,
    ;
    assert((c + 3) * b == c * b + 3 * b) by (nonlinear_arith);
    absorb(n, x, c + 3, b);
}

/// One more term of a rounded sum.
proof fn total_step(n: int, k: int, s: int, acc: int, w: int, next: int)
    requires
        k >= 0,
        4 * k + 8 <= n,
        s >= 0,
        w >= 0,
        n * double_laws::apart(acc, s) <= 2 * k * s,
        n * double_laws::apart(next, acc + w) <= size(next),
    ensures
        n * double_laws::apart(next, s + w) <= 2 * (k + 1) * (s + w),
{
    let c = 2 * k;
    let x0 = double_laws::apart(acc, s);
    let z = double_laws::apart(next, acc + w);
    let x = double_laws::apart(next, s + w);
    assert(n * x <= n * z + n * x0) by (nonlinear_arith)
        requires
            x <= z + x0,
            n >= 0,
    ;
    assert(c * s <= c * (s + w)) by (nonlinear_arith)
        requires
            c >= 0,
            w >= 0,
    ;
    assert((c + 1) * (s + w) == c * (s + w) + (s + w)) by (nonlinear_arith);
    absorb(n, x, c + 1, s + w);
}

/// The quotient of the rounded sums against that of the exact ones.
proof fn quotient_step(n: int, u: int, reach: int, k: int, m: int, s: int, w: int, t: int, q: int)
    requires
        k >= 1,
        16 * k <= n,
        2 * n <= u,
        4 <= u,
        reach >= 1,
        s > 0,
        t > 0,
        size(m) <= reach * s,
        n * double_laws::apart(w, m) <= 4 * k * (reach * s),
        n * double_laws::apart(t, s) <= 2 * k * s,
        n * double_laws::apart(t * q, w * u) <= t * size(q) + n * t,
    ensures
        n * double_laws::apart(q * s, m * u) <= (24 * k + 6) * (reach * s * u),
{
    let b = reach * s;
    assert(b >= s) by (nonlinear_arith)
        requires
            b == reach * s,
            reach >= 1,
            s > 0,
    ;
    let bu = b * u;
    assert(reach * s * u == bu);
    let x = double_laws::apart(w, m);
    assert(x <= b) by (nonlinear_arith)
        requires
            n * x <= 4 * k * b,
            4 * k <= n,
            n > 0,
            b >= 0,
            x >= 0,
    {
        if x > b {
            assert(n * x > n * b) by (nonlinear_arith)
                requires
                    x > b,
                    n > 0,
            ;
            assert(n * b >= 4 * k * b) by (nonlinear_arith)
                requires
                    4 * k <= n,
                    b >= 0,
            ;
        }
    }
    let y = double_laws::apart(t, s);
    assert(4 * y <= s) by (nonlinear_arith)
        requires
            n * y <= 2 * k * s,
            16 * k <= n,
            k >= 1,
            y >= 0,
    {
        assert(16 * k * y <= n * y) by (nonlinear_arith)
            requires
                16 * k <= n,
                y >= 0,
        ;
        if 4 * y > s {
            assert(2 * k * (4 * y) > 2 * k * s) by (nonlinear_arith)
                requires
                    4 * y > s,
                    k >= 1,
            ;
            assert(2 * k * (4 * y) == 8 * (k * y)) by (nonlinear_arith);
            assert(16 * k * y == 16 * (k * y)) by (nonlinear_arith);
            assert(k * y >= 0) by (nonlinear_arith)
                requires
                    k >= 1,
                    y >= 0,
            ;
        }
    }
    let aq = size(q);
    let g = t * aq;
    let tq = t * q;
    let wu = w * u;
    assert(size(tq) == g) by (nonlinear_arith)
        requires
            tq == t * q,
            g == t * aq,
            t > 0,
            aq == if q < 0 {
                -q
            } else {
                q
            },
            size(tq) == if tq < 0 {
                -tq
            } else {
                tq
            },
    ;
    assert(size(wu) <= 2 * bu) by (nonlinear_arith)
        requires
            wu == w * u,
            bu == b * u,
            -(2 * b) <= w <= 2 * b,
            u > 0,
            size(wu) == if wu < 0 {
                -wu
            } else {
                wu
            },
    ;
    let z = double_laws::apart(tq, wu);
    assert(2 * z <= g + 2 * t) by (nonlinear_arith)
        requires
            n * z <= g + n * t,
            n >= 2,
            g >= 0,
            t > 0,
    {
        if z > t {
            assert(2 * (z - t) <= n * (z - t)) by (nonlinear_arith)
                requires
                    z > t,
                    n >= 2,
            ;
            assert(n * (z - t) == n * z - n * t) by (nonlinear_arith);
        }
    }
    assert(bu >= 4 * s) by (nonlinear_arith)
        requires
            bu == b * u,
            b >= s,
            u >= 4,
            s > 0,
    ;
    assert(g <= 5 * bu);
    // The three parts of what the quotient is off by.
    let qs = q * s;
    let mu = m * u;
    let part1 = q * (s - t);
    let part3 = (w - m) * u;
    assert(qs - mu == part1 + (tq - wu) + part3) by (nonlinear_arith)
        requires
            qs == q * s,
            mu == m * u,
            part1 == q * (s - t),
            tq == t * q,
            wu == w * u,
            part3 == (w - m) * u,
    ;
    size_of_product(q, s - t);
    size_of_product(w - m, u);
    let aqs = aq * s;
    assert(aqs <= 2 * g) by (nonlinear_arith)
        requires
            aqs == aq * s,
            g == t * aq,
            s <= 2 * t,
            aq >= 0,
    ;
    let k2 = 2 * k;
    assert(n * size(part1) <= k2 * aqs) by (nonlinear_arith)
        requires
            size(part1) == aq * y,
            n * y <= k2 * s,
            aqs == aq * s,
            aq >= 0,
    {
        assert(n * (aq * y) == aq * (n * y)) by (nonlinear_arith);
        assert(aq * (n * y) <= aq * (k2 * s)) by (nonlinear_arith)
            requires
                n * y <= k2 * s,
                aq >= 0,
        ;
        assert(aq * (k2 * s) == k2 * (aq * s)) by (nonlinear_arith);
    }
    assert(k2 * aqs <= k2 * (10 * bu)) by (nonlinear_arith)
        requires
            aqs <= 10 * bu,
            k2 >= 0,
    ;
    assert(n * t <= bu) by (nonlinear_arith)
        requires
            4 * t <= 5 * s,
            2 * n <= u,
            bu == b * u,
            b >= s,
            s > 0,
            n > 0,
    {
        assert(4 * (n * t) <= 5 * (n * s)) by (nonlinear_arith)
            requires
                4 * t <= 5 * s,
                n > 0,
        ;
        assert(2 * (n * s) <= u * s) by (nonlinear_arith)
            requires
                2 * n <= u,
                s > 0,
        ;
        assert(u * s <= b * u) by (nonlinear_arith)
            requires
                b >= s,
                u > 0,
        ;
    }
    assert(n * size(part3) <= 4 * k * bu) by (nonlinear_arith)
        requires
            size(part3) == x * u,
            n * x <= 4 * k * b,
            bu == b * u,
            u > 0,
    {
        assert(n * (x * u) == (n * x) * u) by (nonlinear_arith);
        assert((n * x) * u <= (4 * k * b) * u) by (nonlinear_arith)
            requires
                n * x <= 4 * k * b,
                u > 0,
        ;
        assert((4 * k * b) * u == 4 * k * (b * u)) by (nonlinear_arith);
    }
    let all = double_laws::apart(qs, mu);
    assert(all <= size(part1) + z + size(part3));
    assert(n * all <= n * size(part1) + n * z + n * size(part3)) by (nonlinear_arith)
        requires
            all <= size(part1) + z + size(part3),
            n > 0,
    ;
    assert(k2 * (10 * bu) == 20 * (k * bu)) by (nonlinear_arith)
        requires
            k2 == 2 * k,
    ;
    assert(4 * k * bu == 4 * (k * bu)) by (nonlinear_arith);
    assert((24 * k + 6) * bu == 24 * (k * bu) + 6 * bu) by (nonlinear_arith);
}

/// The rounded offset of the quotient against the exact one.
proof fn offset_step(
    u: int,
    reach: int,
    k: int,
    half: int,
    m: int,
    s: int,
    q: int,
    peak: int,
    d: int,
)
    requires
        u > 0,
        s > 0,
        1 <= reach <= FARTHEST,
        half >= 1,
        k == 2 * half + 1,
        size(m - peak * s) <= half * s,
        PRECISION * double_laws::apart(q * s, m * u) <= (24 * k + 6) * (reach * s * u),
        PRECISION * double_laws::apart(d, q - peak * u) <= size(d),
    ensures
        PRECISION * double_laws::apart(d * s, (m - peak * s) * u) <= (78 * reach + 2) * (half * s
            * u),
        PRECISION * size(d) <= (PRECISION + 78 * reach + 2) * (half * u),
{
    let n = PRECISION as int;
    let c = m - peak * s;
    let g = half * s * u;
    let su = s * u;
    assert(su > 0) by (nonlinear_arith)
        requires
            su == s * u,
            s > 0,
            u > 0,
    ;
    assert(g == half * su) by (nonlinear_arith)
        requires
            g == half * s * u,
            su == s * u,
    ;
    let rsu = reach * s * u;
    assert((24 * k + 6) * rsu <= (78 * reach) * g) by (nonlinear_arith)
        requires
            rsu == reach * s * u,
            g == half * s * u,
            24 * k + 6 <= 78 * half,
            reach >= 1,
            su == s * u,
            su > 0,
    {
        assert(rsu == reach * su) by (nonlinear_arith)
            requires
                rsu == reach * s * u,
                su == s * u,
        ;
        assert((24 * k + 6) * (reach * su) <= (78 * half) * (reach * su)) by (nonlinear_arith)
            requires
                24 * k + 6 <= 78 * half,
                reach >= 1,
                su > 0,
        ;
        assert((78 * half) * (reach * su) == (78 * reach) * (half * su)) by (nonlinear_arith);
        assert(g == half * su) by (nonlinear_arith)
            requires
                g == half * s * u,
                su == s * u,
        ;
    }
    let ds = d * s;
    let cu = c * u;
    let e = d - (q - peak * u);
    let part = s * e;
    let rest = q * s - m * u;
    assert(ds - cu == part + rest) by (nonlinear_arith)
        requires
            ds == d * s,
            cu == c * u,
            c == m - peak * s,
            part == s * e,
            e == d - (q - peak * u),
            rest == q * s - m * u,
    ;
    let y = double_laws::apart(ds, cu);
    size_of_product(s, e);
    size_of_product(d, s);
    size_of_product(c, u);
    let sd = s * size(d);
    assert(n * size(part) <= sd) by (nonlinear_arith)
        requires
            size(part) == s * size(e),
            n * size(e) <= size(d),
            sd == s * size(d),
            s > 0,
    {
        assert(n * (s * size(e)) == s * (n * size(e))) by (nonlinear_arith);
        assert(s * (n * size(e)) <= s * size(d)) by (nonlinear_arith)
            requires
                n * size(e) <= size(d),
                s > 0,
        ;
    }
    assert(size(d) * s == sd) by (nonlinear_arith)
        requires
            sd == s * size(d),
    ;
    assert(size(cu) <= g) by (nonlinear_arith)
        requires
            size(cu) == size(c) * u,
            size(c) <= half * s,
            g == half * s * u,
            u > 0,
    ;
    assert(sd <= g + y);
    assert(n * y <= n * size(part) + n * size(rest)) by (nonlinear_arith)
        requires
            y <= size(part) + size(rest),
            n >= 0,
    ;
    let c1 = 78 * reach + 1;
    assert(c1 * g == (78 * reach) * g + g) by (nonlinear_arith)
        requires
            c1 == 78 * reach + 1,
    ;
    assert(g >= 0) by (nonlinear_arith)
        requires
            g == half * su,
            half >= 1,
            su > 0,
    ;
    absorb(n, y, c1, g);
    assert(c1 + 1 == 78 * reach + 2);
    let hu = half * u;
    assert(g == s * hu) by (nonlinear_arith)
        requires
            g == half * s * u,
            hu == half * u,
    ;
    // The bound holds without the common factor.
    let e2 = 78 * reach + 2;
    let x = n * size(d);
    let z = (n + e2) * hu;
    assert(n * sd <= n * g + n * y) by (nonlinear_arith)
        requires
            sd <= g + y,
            n >= 0,
    ;
    assert(s * x == n * sd) by (nonlinear_arith)
        requires
            x == n * size(d),
            sd == s * size(d),
    ;
    assert(s * z == n * g + e2 * g) by (nonlinear_arith)
        requires
            z == (n + e2) * hu,
            g == s * hu,
    ;
    assert(x <= z) by (nonlinear_arith)
        requires
            s * x <= s * z,
            s > 0,
    ;
}

/// The weight of a sample that is a number is zero or a normal number of
/// moderate size, and not negative.
proof fn weight_is_moderate(estimator: NorthPulseEstimator, sample: Single)
    requires
        sample.finite(),
        estimator.exponent() == 1 || estimator.exponent() == 2,
    ensures
        ({
            let w = north_ref_common::weight_spec(estimator, sample);
            &&& double_laws::within(w, 1330)
            &&& w.value() >= 0
            &&& w.value() == 0 || w.value() >= double::HIDDEN
        }),
{
    let h = double::HIDDEN as nat;
    let inf = double::INFINITE as nat;
    let hs = single::HIDDEN as nat;
    let x = if estimator.exponent() % 2 == 1 {
        sample.max_spec(constants::of(0))
    } else {
        sample.abs_spec()
    };
    power2::lemma2_to64();
    power2::lemma2_to64_rest();
    ieee::pattern_value_increases(hs, 0, x.magnitude() as nat);
    assert(x.finite() && x.value() >= 0);
    let v = x.value() as nat;
    single_laws::power_pattern_value(hs, 23, 277);
    ieee::pattern_value_increases(
        hs,
        x.magnitude() as nat,
        single_laws::power_pattern(hs, 23, 277),
    );
    let g = power2::pow2(double::WIDENING as nat);
    power2::lemma_pow2_adds(277, double::WIDENING as nat);
    power2::lemma_pow2_pos(double::WIDENING as nat);
    assert(v * g <= power2::pow2(277) * g) by (nonlinear_arith)
        requires
            v <= power2::pow2(277),
    ;
    double_laws::rounded_value(x.negative(), v * g, 1, 1202);
    let a = Double::from_single_spec(x);
    single_laws::power_pattern_value(h, 52, double::WIDENING as nat);
    let low = single_laws::power_pattern(h, 52, double::WIDENING as nat);
    power2::lemma_pow2_strictly_increases(52, double::WIDENING as nat);
    if v == 0 {
        assert(0 * g == 0);
        ieee::nearest_of_held(h, inf, 0);
    } else {
        assert(v * g >= g) by (nonlinear_arith)
            requires
                v >= 1,
                g > 0,
        ;
        ieee::nearest_at_least(h, inf, v * g, 1, low);
        ieee::pattern_value_increases(h, low, ieee::nearest(h, inf, v * g, 1));
        assert(!x.negative());
    }
    assert(a.value() == 0 || a.value() >= g);
    power2::lemma_pow2_strictly_increases(1202, 1330);
    if estimator.exponent() == 2 {
        let y = a.value() as nat;
        let u = power2::pow2(double::UNIT as nat);
        power2::lemma_pow2_pos(double::UNIT as nat);
        power2::lemma_pow2_adds(1202, 1202);
        power2::lemma_pow2_adds(1330, double::UNIT as nat);
        power2::lemma_pow2_adds(double::WIDENING as nat, double::WIDENING as nat);
        power2::lemma_pow2_adds(776, double::UNIT as nat);
        assert(y * y <= power2::pow2(1202) * power2::pow2(1202)) by (nonlinear_arith)
            requires
                0 <= y <= power2::pow2(1202),
        ;
        double_laws::rounded_value(false, y * y, u, 1330);
        if y == 0 {
            assert(y * y == 0) by (nonlinear_arith)
                requires
                    y == 0,
            ;
            assert(0 * u == 0);
            ieee::nearest_of_value(h, inf, y * y, u, 0);
        } else {
            assert(y * y >= g * g) by (nonlinear_arith)
                requires
                    y >= g,
                    g > 0,
            ;
            single_laws::power_pattern_value(h, 52, 776);
            let bottom = single_laws::power_pattern(h, 52, 776);
            power2::lemma_pow2_strictly_increases(52, 776);
            ieee::nearest_at_least(h, inf, y * y, u, bottom);
            ieee::pattern_value_increases(h, bottom, ieee::nearest(h, inf, y * y, u));
        }
    }
}

/// An index is held exactly.
proof fn index_is_exact(i: int)
    requires
        size(i) <= FARTHEST,
    ensures
        Double::from_integer_spec(i).finite(),
        Double::from_integer_spec(i).value() == i * power2::pow2(double::UNIT as nat),
{
    let h = double::HIDDEN as nat;
    let inf = double::INFINITE as nat;
    let u = power2::pow2(double::UNIT as nat);
    let m = arithmetic::magnitude(i);
    power2::lemma2_to64();
    power2::lemma2_to64_rest();
    power2::lemma_pow2_adds(40, double::UNIT as nat);
    assert(0 < m ==> m * power2::pow2(52) >= h) by (nonlinear_arith)
        requires
            power2::pow2(52) == h,
    ;
    single_laws::whole_number_is_held(h, inf, m, double::UNIT as nat, 52);
    assert(m * u <= power2::pow2(40) * u) by (nonlinear_arith)
        requires
            m <= power2::pow2(40),
            u >= 0,
    ;
    double_laws::rounded_value(i < 0, m * u, 1, 1114);
    if i < 0 {
        assert(i * u == -(m * u)) by (nonlinear_arith)
            requires
                i == -m,
        ;
    }
}

/// The sums that the estimator keeps against the exact ones.
proof fn sums_are_close(
    tail: Seq<Single>,
    buffer: Seq<Single>,
    estimator: NorthPulseEstimator,
    low: int,
    k: nat,
    reach: int,
)
    requires
        estimator.exponent() == 1 || estimator.exponent() == 2,
        window_in_numbers(tail, buffer, low, low + k - 1),
        k <= 0x200_0000_0001,
        1 <= reach <= FARTHEST,
        -reach <= low,
        low + k - 1 <= reach,
    ensures
        ({
            let (weighted, total) = north_ref_common::moment_spec(
                tail,
                buffer,
                estimator,
                low,
                k as int,
            );
            let ws = weights_of(tail, buffer, estimator, low, k);
            let (m, s) = (moment_of(ws, low), total_of(ws));
            &&& double_laws::within(weighted, 1450)
            &&& double_laws::within(total, 1450)
            &&& 0 <= s <= k * power2::pow2(1330)
            &&& size(m) <= reach * s
            &&& PRECISION * double_laws::apart(weighted.value(), m) <= 4 * k * (reach * s)
            &&& PRECISION * double_laws::apart(total.value(), s) <= 2 * k * s
        }),
    decreases k,
{
    let big = power2::pow2(1330);
    power2::lemma_pow2_pos(1330);
    if k == 0 {
        assert(weights_of(tail, buffer, estimator, low, 0) =~= Seq::<int>::empty());
        ieee::pattern_value_increases(double::HIDDEN as nat, 0, 0);
        power2::lemma_pow2_pos(1450);
        assert(0 * big == 0);
        assert(reach * 0 == 0);
    } else {
        let j = (k - 1) as nat;
        let at = low + j;
        sums_are_close(tail, buffer, estimator, low, j, reach);
        let (weighted, total) = north_ref_common::moment_spec(
            tail,
            buffer,
            estimator,
            low,
            j as int,
        );
        let front = weights_of(tail, buffer, estimator, low, j);
        let ws = weights_of(tail, buffer, estimator, low, k);
        assert(ws.drop_last() =~= front);
        let (m, s) = (moment_of(front, low), total_of(front));
        assert(north_ref_common::sample_at_spec(tail, buffer, at) is Some);
        let sample = north_ref_common::sample_at_spec(tail, buffer, at)->0;
        let weight = north_ref_common::weight_spec(estimator, sample);
        weight_is_moderate(estimator, sample);
        let w = weight.value();
        assert(ws.last() == w);
        index_is_exact(at);
        let index = Double::from_integer_spec(at);
        double_laws::product_is_close(weight, index, at, 1330);
        let product = weight.times_spec(index);
        power2::lemma_pow2_strictly_increases(1370, 1450);
        power2::lemma_pow2_strictly_increases(1330, 1450);
        double_laws::sum_is_close(weighted, product, 1450);
        double_laws::sum_is_close(total, weight, 1450);
        let next = weighted.plus_spec(product);
        let sum = total.plus_spec(weight);
        let n = PRECISION as int;
        moment_step(
            n,
            reach,
            j as int,
            m,
            s,
            weighted.value(),
            w,
            at,
            product.value(),
            next.value(),
        );
        total_step(n, j as int, s, total.value(), w, sum.value());
        assert(k * big == j * big + big) by (nonlinear_arith)
            requires
                k == j + 1,
        ;
        sums_stay_moderate(k as int, reach, m + w * at, s + w, next.value(), sum.value());
    }
}

/// Sums that are close to the exact ones are of moderate size.
proof fn sums_stay_moderate(k: int, reach: int, m: int, s: int, weighted: int, total: int)
    requires
        1 <= k <= 0x200_0000_0001,
        1 <= reach <= FARTHEST,
        0 <= s <= k * power2::pow2(1330),
        size(m) <= reach * s,
        PRECISION * double_laws::apart(weighted, m) <= 4 * k * (reach * s),
        PRECISION * double_laws::apart(total, s) <= 2 * k * s,
    ensures
        size(weighted) <= power2::pow2(1450),
        size(total) <= power2::pow2(1450),
{
    let big = power2::pow2(1330) as int;
    let b = reach * s;
    power2::lemma2_to64();
    power2::lemma2_to64_rest();
    power2::lemma_pow2_adds(1330, 120);
    power2::lemma_pow2_adds(64, 56);
    power2::lemma_pow2_pos(1330);
    assert(b >= s) by (nonlinear_arith)
        requires
            b == reach * s,
            reach >= 1,
            s >= 0,
    ;
    assert(b <= 0x100_0000_0000 * (0x200_0000_0001 * big)) by (nonlinear_arith)
        requires
            b == reach * s,
            0 <= s <= k * big,
            1 <= reach <= 0x100_0000_0000,
            1 <= k <= 0x200_0000_0001,
            big > 0,
    {
        assert(k * big <= 0x200_0000_0001 * big) by (nonlinear_arith)
            requires
                k <= 0x200_0000_0001,
                big > 0,
        ;
        assert(reach * s <= 0x100_0000_0000 * s) by (nonlinear_arith)
            requires
                reach <= 0x100_0000_0000,
                s >= 0,
        ;
    }
    let c = power2::pow2(120) as int;
    assert(c == 0x100_0000_0000_0000_0000_0000_0000_0000);
    assert(big * c == 0x100_0000_0000_0000_0000_0000_0000_0000 * big) by (nonlinear_arith)
        requires
            c == 0x100_0000_0000_0000_0000_0000_0000_0000,
    ;
    let x = double_laws::apart(weighted, m);
    let y = double_laws::apart(total, s);
    assert(4 * k * b <= PRECISION * b) by (nonlinear_arith)
        requires
            4 * k <= PRECISION,
            b >= 0,
    ;
    assert(x <= b);
    assert(2 * k * s <= PRECISION * s) by (nonlinear_arith)
        requires
            2 * k <= PRECISION,
            s >= 0,
    ;
    assert(y <= s);
}

/// The exact offset of the centroid of a window from its middle, as the moment
/// and the total of its weights.
pub open spec fn offset_of(
    tail: Seq<Single>,
    buffer: Seq<Single>,
    estimator: NorthPulseEstimator,
    peak_index: int,
    half_width: int,
) -> (int, int) {
    let ws = weights_of(
        tail,
        buffer,
        estimator,
        peak_index - half_width,
        (2 * half_width + 1) as nat,
    );
    (moment_of(ws, -half_width), total_of(ws))
}

/// The estimate before it is rounded to single precision, in units of the
/// smallest double-precision number.
pub open spec fn wide_offset(
    tail: Seq<Single>,
    buffer: Seq<Single>,
    estimator: NorthPulseEstimator,
    peak_index: int,
    half_width: int,
) -> Double {
    let (weighted, total) = north_ref_common::moment_spec(
        tail,
        buffer,
        estimator,
        peak_index - half_width,
        2 * half_width + 1,
    );
    weighted.over_spec(total).minus_spec(Double::from_integer_spec(peak_index))
}

/// How far a window reaches from the start of the buffer.
pub open spec fn reach_of(peak_index: int, half_width: int) -> int {
    size(peak_index) + half_width
}

/// Whether a window is one that an estimate can be made from: its samples are
/// there and are numbers, it is at most `FARTHEST` from the start of the
/// buffer, and something in it has weight.
pub open spec fn measurable(
    tail: Seq<Single>,
    buffer: Seq<Single>,
    estimator: NorthPulseEstimator,
    peak_index: int,
    half_width: int,
) -> bool {
    &&& estimator.exponent() == 1 || estimator.exponent() == 2
    &&& half_width >= 1
    &&& size(peak_index) + half_width <= FARTHEST
    &&& window_in_numbers(tail, buffer, peak_index - half_width, peak_index + half_width)
    &&& (Double { bits: 0 }).lt_spec(
        north_ref_common::moment_spec(
            tail,
            buffer,
            estimator,
            peak_index - half_width,
            2 * half_width + 1,
        ).1,
    )
}

/// Before the last rounding the estimate is the exact offset of the centroid,
/// off by a share of the half width that grows with the distance from the
/// start of the buffer.
pub proof fn wide_offset_is_close(
    tail: Seq<Single>,
    buffer: Seq<Single>,
    estimator: NorthPulseEstimator,
    peak_index: int,
    half_width: int,
)
    requires
        measurable(tail, buffer, estimator, peak_index, half_width),
    ensures
        ({
            let u = power2::pow2(double::UNIT as nat) as int;
            let (c, s) = offset_of(tail, buffer, estimator, peak_index, half_width);
            let d = wide_offset(tail, buffer, estimator, peak_index, half_width);
            &&& d.finite()
            &&& s > 0
            &&& size(c) <= half_width * s
            &&& PRECISION * double_laws::apart(d.value() * s, c * u) <= (78 * reach_of(
                peak_index,
                half_width,
            ) + 2) * (half_width * s * u)
            &&& PRECISION * size(d.value()) <= (PRECISION + 78 * reach_of(peak_index, half_width)
                + 2) * (half_width * u)
        }),
{
    let h = double::HIDDEN as nat;
    let u = power2::pow2(double::UNIT as nat) as int;
    let n = PRECISION as int;
    let k = 2 * half_width + 1;
    let low = peak_index - half_width;
    let reach = size(peak_index) + half_width;
    let (weighted, total) = north_ref_common::moment_spec(tail, buffer, estimator, low, k);
    let ws = weights_of(tail, buffer, estimator, low, k as nat);
    let (m, s) = (moment_of(ws, low), total_of(ws));
    sums_are_close(tail, buffer, estimator, low, k as nat, reach);
    assert forall|i: int| 0 <= i < ws.len() implies #[trigger] ws[i] >= 0 by {
        assert(north_ref_common::sample_at_spec(tail, buffer, low + i) is Some);
        weight_is_moderate(
            estimator,
            north_ref_common::sample_at_spec(tail, buffer, low + i)->0,
        );
    }
    moment_is_bounded(ws, -half_width, half_width);
    moment_moves(ws, -half_width, peak_index);
    let c = moment_of(ws, -half_width);
    assert(m == c + peak_index * s);
    ieee::pattern_value_increases(h, 0, total.magnitude() as nat);
    let t = total.value();
    let w = weighted.value();
    assert(t > 0);
    if s == 0 {
        assert(2 * k * 0 == 0) by (nonlinear_arith);
        assert(double_laws::apart(t, 0) <= 0);
    }
    power2::lemma2_to64();
    power2::lemma2_to64_rest();
    power2::lemma_pow2_pos(double::UNIT as nat);
    power2::lemma_pow2_strictly_increases(54, double::UNIT as nat);
    quotient_is_moderate(k, reach, m, s, w, t);
    double_laws::quotient_is_close(weighted, total, 1120);
    let quotient = weighted.over_spec(total);
    let q = quotient.value();
    quotient_step(n, u, reach, k, m, s, w, t, q);
    index_is_exact(peak_index);
    let peak = Double::from_integer_spec(peak_index);
    let p = peak_index * u;
    assert(peak.neg_spec().value() == -p);
    power2::lemma_pow2_adds(40, double::UNIT as nat);
    power2::lemma_pow2_strictly_increases(1114, 1120);
    assert(size(p) <= power2::pow2(40) * u) by {
        size_of_product(peak_index, u);
        assert(size(peak_index) * u <= power2::pow2(40) * u) by (nonlinear_arith)
            requires
                size(peak_index) <= power2::pow2(40),
                u > 0,
        ;
    }
    double_laws::sum_is_close(quotient, peak.neg_spec(), 1120);
    let d = quotient.minus_spec(peak).value();
    offset_step(u, reach, k, half_width, m, s, q, peak_index, d);
}

/// The quotient of the sums is of moderate size.
proof fn quotient_is_moderate(k: int, reach: int, m: int, s: int, w: int, t: int)
    requires
        1 <= k <= 0x200_0000_0001,
        1 <= reach <= FARTHEST,
        s > 0,
        size(m) <= reach * s,
        PRECISION * double_laws::apart(w, m) <= 4 * k * (reach * s),
        PRECISION * double_laws::apart(t, s) <= 2 * k * s,
    ensures
        size(w) * power2::pow2(double::UNIT as nat) <= power2::pow2(1120) * t,
{
    let u = power2::pow2(double::UNIT as nat) as int;
    power2::lemma2_to64();
    power2::lemma2_to64_rest();
    power2::lemma_pow2_adds(46, double::UNIT as nat);
    power2::lemma_pow2_pos(double::UNIT as nat);
    let b = reach * s;
    assert(s <= b <= 0x100_0000_0000 * s) by (nonlinear_arith)
        requires
            b == reach * s,
            1 <= reach <= 0x100_0000_0000,
            s > 0,
    ;
    assert(4 * k * b <= PRECISION * b) by (nonlinear_arith)
        requires
            4 * k <= PRECISION,
            b >= 0,
    ;
    assert(8 * k * s <= PRECISION * s) by (nonlinear_arith)
        requires
            8 * k <= PRECISION,
            s >= 0,
    ;
    assert(2 * k * s * 4 == 8 * k * s) by (nonlinear_arith);
    assert(size(w) <= 2 * b);
    assert(s <= 2 * t);
    assert(size(w) <= 0x4000_0000_0000 * t);
    assert(size(w) * u <= (0x4000_0000_0000 * t) * u) by (nonlinear_arith)
        requires
            size(w) <= 0x4000_0000_0000 * t,
            u > 0,
    ;
    assert((0x4000_0000_0000 * t) * u == (0x4000_0000_0000 * u) * t) by (nonlinear_arith);
}

/// Rounding an offset to single precision is off by a share of it.
proof fn narrowed(d: Double, half_width: int, reach: int)
    requires
        d.finite(),
        1 <= half_width <= reach <= FARTHEST,
        PRECISION * size(d.value()) <= (PRECISION + 78 * reach + 2) * (half_width * power2::pow2(
            double::UNIT as nat,
        )),
    ensures
        ({
            let r = d.to_single_spec();
            let g = power2::pow2(double::WIDENING as nat) as int;
            let wide = half_width * power2::pow2(double::UNIT as nat);
            &&& r.finite()
            &&& 0x40 * size(d.value()) <= 0x41 * wide
            &&& 0xff_ffff * double_laws::apart(r.value() * g, d.value()) <= size(d.value())
                + 0x100_0000 * g
        }),
{
    let u = power2::pow2(double::UNIT as nat) as int;
    let w = half_width * u;
    let n = PRECISION as int;
    let e = 78 * reach + 2;
    power2::lemma2_to64();
    power2::lemma2_to64_rest();
    power2::lemma_pow2_pos(double::UNIT as nat);
    power2::lemma_pow2_adds(40, double::UNIT as nat);
    power2::lemma_pow2_adds(1114, 2);
    power2::lemma_pow2_strictly_increases(1116, 1190);
    assert(0 < w <= power2::pow2(40) * u) by (nonlinear_arith)
        requires
            w == half_width * u,
            1 <= half_width <= power2::pow2(40),
            u > 0,
    ;
    assert(0x40 * (e * w) <= n * w) by (nonlinear_arith)
        requires
            0x40 * e <= n,
            w > 0,
    ;
    assert((n + e) * w == n * w + e * w) by (nonlinear_arith);
    let x = size(d.value());
    assert(0x40 * x <= 0x41 * w) by (nonlinear_arith)
        requires
            n * x <= n * w + e * w,
            0x40 * (e * w) <= n * w,
            n > 0,
    {
        let l = 0x40 * x;
        let r = 0x41 * w;
        assert(n * l <= n * r) by (nonlinear_arith)
            requires
                n * x <= n * w + e * w,
                0x40 * (e * w) <= n * w,
                l == 0x40 * x,
                r == 0x41 * w,
        ;
        assert(l <= r) by (nonlinear_arith)
            requires
                n * l <= n * r,
                n > 0,
        ;
    }
    double_laws::narrowing_is_close(d);
}

/// An offset that is hardly more than the half width rounds to no more.
proof fn narrowed_to_half_width(d: Double, half_width: int)
    requires
        d.finite(),
        1 <= half_width <= NEAR,
        0x200_0000 * size(d.value()) <= 0x200_0001 * (half_width * power2::pow2(
            double::UNIT as nat,
        )),
    ensures
        d.to_single_spec().finite(),
        size(d.to_single_spec().value()) <= half_width * power2::pow2(single::UNIT as nat),
{
    let h = single::HIDDEN as nat;
    let inf = single::INFINITE as nat;
    let us = power2::pow2(single::UNIT as nat);
    let g = power2::pow2(double::WIDENING as nat);
    let u = power2::pow2(double::UNIT as nat);
    let n = arithmetic::magnitude(d.value());
    let w = half_width as nat;
    power2::lemma2_to64();
    power2::lemma_pow2_pos(double::WIDENING as nat);
    power2::lemma_pow2_pos(single::UNIT as nat);
    power2::lemma_pow2_adds(single::UNIT as nat, double::WIDENING as nat);
    assert(w * power2::pow2(23) >= h) by (nonlinear_arith)
        requires
            power2::pow2(23) == h,
            w >= 1,
    ;
    single_laws::whole_number_is_held(h, inf, w, single::UNIT as nat, 23);
    let b = ieee::nearest(h, inf, w * us, 1);
    let v = w * us;
    assert(b < inf) by {
        power2::lemma_pow2_adds(24, single::UNIT as nat);
        assert(w * us <= power2::pow2(24) * us) by (nonlinear_arith)
            requires
                w <= power2::pow2(24),
                us > 0,
        ;
        single_laws::power_pattern_value(h, 23, 173);
        ieee::nearest_at_most(h, inf, w * us, 1, single_laws::power_pattern(h, 23, 173));
    }
    ieee::step_is_not_small(h, b);
    let step = (ieee::pattern_value(h, b + 1) - v) as int;
    let wide = w * u;
    assert(g * v == wide) by (nonlinear_arith)
        requires
            v == w * us,
            wide == w * u,
            u == us * g,
    ;
    assert(g * (v + (v + step)) == 2 * wide + g * step) by (nonlinear_arith)
        requires
            g * v == wide,
    ;
    mul::lemma_mul_strict_inequality(v as int, 0x100_0000 * step, g as int);
    assert((0x100_0000 * step) * g == 0x100_0000 * (g * step)) by (nonlinear_arith);
    assert(v * g == g * v) by (nonlinear_arith);
    ieee::nearest_below_middle(h, inf, n, g, b);
    ieee::nearest_exists(h, inf, n, g);
    ieee::pattern_value_increases(h, ieee::nearest(h, inf, n, g), b);
}

/// Whether an estimator has a window to look at: the samples that are there
/// are numbers, and the window is not empty.
pub open spec fn looks_at_numbers(
    tail: Seq<Single>,
    buffer: Seq<Single>,
    estimator: NorthPulseEstimator,
    peak_index: int,
    half_width: int,
) -> bool {
    &&& estimator.exponent() == 0 || half_width >= 1 && reach_of(peak_index, half_width)
        <= FARTHEST
    &&& forall|i: int|
        #![trigger north_ref_common::sample_at_spec(tail, buffer, i)]
        north_ref_common::sample_at_spec(tail, buffer, i) matches Some(s) ==> s.finite()
}

/// The estimate is a number that lies within the half width of its window. Far
/// from the start of the buffer, beyond `NEAR` samples, it may be beyond it by
/// what the rounding of the positions leaves: one part in `2^46` for every
/// sample that the window is away.
pub proof fn fraction_is_within_half_width(
    tail: Seq<Single>,
    buffer: Seq<Single>,
    estimator: NorthPulseEstimator,
    peak_index: int,
    half_width: int,
)
    requires
        looks_at_numbers(tail, buffer, estimator, peak_index, half_width),
    ensures
        ({
            let r = north_ref_common::fraction_spec(
                tail,
                buffer,
                peak_index,
                estimator,
                half_width,
            );
            let us = power2::pow2(single::UNIT as nat);
            let reach = reach_of(peak_index, half_width);
            &&& r.finite()
            &&& r == constants::of(0) || {
                &&& reach <= NEAR ==> size(r.value()) <= half_width * us
                &&& 0x4000_0000_0000 * size(r.value()) <= (0x4000_0000_0000 + reach + 0x100_0000)
                    * (half_width * us)
            }
        }),
{
    if measurable(tail, buffer, estimator, peak_index, half_width) {
        let d = wide_offset(tail, buffer, estimator, peak_index, half_width);
        let reach = reach_of(peak_index, half_width);
        let u = power2::pow2(double::UNIT as nat) as int;
        let w = half_width * u;
        wide_offset_is_close(tail, buffer, estimator, peak_index, half_width);
        narrowed(d, half_width, reach);
        power2::lemma2_to64();
        power2::lemma_pow2_pos(double::WIDENING as nat);
        power2::lemma_pow2_adds(single::UNIT as nat, double::WIDENING as nat);
        power2::lemma_pow2_strictly_increases(30, single::UNIT as nat);
        beyond_half_width(
            power2::pow2(double::WIDENING as nat) as int,
            power2::pow2(single::UNIT as nat) as int,
            half_width,
            reach,
            d.value(),
            d.to_single_spec().value(),
        );
        if reach <= NEAR {
            power2::lemma_pow2_pos(double::UNIT as nat);
            assert(w >= 0) by (nonlinear_arith)
                requires
                    w == half_width * u,
                    half_width >= 1,
                    u > 0,
            ;
            let e = 78 * reach + 2;
            assert((PRECISION + e) * w == PRECISION * w + e * w) by (nonlinear_arith);
            assert(e * w <= 0x1000_0000 * w) by (nonlinear_arith)
                requires
                    e <= 0x1000_0000,
                    w >= 0,
            ;
            narrowed_to_half_width(d, half_width);
        }
    } else if estimator.exponent() != 0 {
        let low = peak_index - half_width;
        let high = peak_index + half_width;
        if north_ref_common::window_filled(tail, buffer, low, high) {
            assert(window_in_numbers(tail, buffer, low, high));
        }
    }
}

proof fn beyond_half_width(g: int, us: int, half: int, reach: int, d: int, r: int)
    requires
        g > 0,
        us >= 0x4000_0000,
        1 <= half <= reach <= FARTHEST,
        PRECISION * size(d) <= (PRECISION + 78 * reach + 2) * (half * (us * g)),
        0x40 * size(d) <= 0x41 * (half * (us * g)),
        0xff_ffff * double_laws::apart(r * g, d) <= size(d) + 0x100_0000 * g,
    ensures
        0x4000_0000_0000 * size(r) <= (0x4000_0000_0000 + reach + 0x100_0000) * (half * us),
{
    let hus = half * us;
    let w = half * (us * g);
    assert(w == hus * g) by (nonlinear_arith)
        requires
            w == half * (us * g),
            hus == half * us,
    ;
    assert(hus >= us) by (nonlinear_arith)
        requires
            hus == half * us,
            half >= 1,
            us >= 0,
    ;
    assert(0x4000_0000 * g <= w) by (nonlinear_arith)
        requires
            0x4000_0000 <= hus,
            w == hus * g,
            g > 0,
    ;
    size_of_product(r, g);
    let rg = size(r) * g;
    let x = size(d);
    let n = PRECISION as int;
    let rw = reach * w;
    assert((n + 78 * reach + 2) * w == n * w + 78 * rw + 2 * w) by (nonlinear_arith)
        requires
            rw == reach * w,
    ;
    assert(rw >= w) by (nonlinear_arith)
        requires
            rw == reach * w,
            reach >= 1,
            w >= 0,
    ;
    let e = double_laws::apart(r * g, d);
    assert(rg <= x + e);
    assert(0x4000_0000_0000 * rg <= 0x4000_0000_0000 * w + rw + 0x100_0000 * w);
    let l = 0x4000_0000_0000 * size(r);
    let f = 0x4000_0000_0000 + reach + 0x100_0000;
    let t = f * hus;
    assert(l * g <= t * g) by (nonlinear_arith)
        requires
            0x4000_0000_0000 * rg <= 0x4000_0000_0000 * w + rw + 0x100_0000 * w,
            l == 0x4000_0000_0000 * size(r),
            rg == size(r) * g,
            rw == reach * w,
            w == hus * g,
            t == f * hus,
            f == 0x4000_0000_0000 + reach + 0x100_0000,
    ;
    assert(l <= t) by (nonlinear_arith)
        requires
            l * g <= t * g,
            g > 0,
    ;
}

/// Whether the window about a peak is the mirror image of another one.
pub open spec fn mirrors(
    tail: Seq<Single>,
    buffer: Seq<Single>,
    peak_index: int,
    other_tail: Seq<Single>,
    other_buffer: Seq<Single>,
    other_peak_index: int,
    half_width: int,
) -> bool {
    forall|j: int|
        #![trigger north_ref_common::sample_at_spec(other_tail, other_buffer, other_peak_index + j)]
        -half_width <= j <= half_width ==> north_ref_common::sample_at_spec(
            other_tail,
            other_buffer,
            other_peak_index + j,
        ) == north_ref_common::sample_at_spec(tail, buffer, peak_index - j)
}

/// Mirroring the window about its peak turns the estimate round: the two add
/// up to no more than one part in `2^22` of the half width, and one in `2^42`
/// for every sample that the windows are away from the starts of their
/// buffers, which is what the roundings leave.
pub proof fn mirroring_negates_the_fraction(
    tail: Seq<Single>,
    buffer: Seq<Single>,
    peak_index: int,
    other_tail: Seq<Single>,
    other_buffer: Seq<Single>,
    other_peak_index: int,
    estimator: NorthPulseEstimator,
    half_width: int,
    reach: int,
)
    requires
        measurable(tail, buffer, estimator, peak_index, half_width),
        measurable(other_tail, other_buffer, estimator, other_peak_index, half_width),
        mirrors(
            tail,
            buffer,
            peak_index,
            other_tail,
            other_buffer,
            other_peak_index,
            half_width,
        ),
        reach_of(peak_index, half_width) <= reach,
        reach_of(other_peak_index, half_width) <= reach,
        reach <= FARTHEST,
    ensures
        ({
            let a = north_ref_common::fraction_spec(
                tail,
                buffer,
                peak_index,
                estimator,
                half_width,
            );
            let b = north_ref_common::fraction_spec(
                other_tail,
                other_buffer,
                other_peak_index,
                estimator,
                half_width,
            );
            0x400_0000_0000 * size(a.value() + b.value()) <= (0x10_0000 + reach) * (half_width
                * power2::pow2(single::UNIT as nat))
        }),
{
    let k = (2 * half_width + 1) as nat;
    let ws = weights_of(tail, buffer, estimator, peak_index - half_width, k);
    let other = weights_of(
        other_tail,
        other_buffer,
        estimator,
        other_peak_index - half_width,
        k,
    );
    assert forall|i: int| 0 <= i < ws.len() implies #[trigger] other[i] == ws[ws.len() - 1
        - i] by {
        let j = i - half_width;
        assert(north_ref_common::sample_at_spec(
            other_tail,
            other_buffer,
            other_peak_index + j,
        ) == north_ref_common::sample_at_spec(tail, buffer, peak_index - j));
    }
    mirrored_weights(ws, other, -half_width);
    assert(-(-half_width + ws.len() - 1) == -half_width);
    wide_offset_is_close(tail, buffer, estimator, peak_index, half_width);
    wide_offset_is_close(other_tail, other_buffer, estimator, other_peak_index, half_width);
    let x = wide_offset(tail, buffer, estimator, peak_index, half_width);
    let y = wide_offset(other_tail, other_buffer, estimator, other_peak_index, half_width);
    narrowed(x, half_width, reach_of(peak_index, half_width));
    narrowed(y, half_width, reach_of(other_peak_index, half_width));
    let (c, s) = offset_of(tail, buffer, estimator, peak_index, half_width);
    let u = power2::pow2(double::UNIT as nat) as int;
    power2::lemma2_to64();
    power2::lemma_pow2_adds(single::UNIT as nat, double::WIDENING as nat);
    power2::lemma_pow2_pos(double::WIDENING as nat);
    power2::lemma_pow2_pos(double::UNIT as nat);
    power2::lemma_pow2_strictly_increases(30, single::UNIT as nat);
    let g = half_width * s * u;
    assert(g >= 0) by (nonlinear_arith)
        requires
            g == half_width * s * u,
            half_width >= 1,
            s > 0,
            u > 0,
    ;
    grows(78 * reach_of(peak_index, half_width) + 2, 78 * reach + 2, g);
    grows(78 * reach_of(other_peak_index, half_width) + 2, 78 * reach + 2, g);
    opposite(
        power2::pow2(double::WIDENING as nat) as int,
        power2::pow2(single::UNIT as nat) as int,
        half_width,
        reach,
        c,
        s,
        x.value(),
        y.value(),
        x.to_single_spec().value(),
        y.to_single_spec().value(),
    );
}

proof fn grows(a: int, b: int, g: int)
    requires
        a <= b,
        g >= 0,
    ensures
        a * g <= b * g,
{
    assert(a * g <= b * g) by (nonlinear_arith)
        requires
            a <= b,
            g >= 0,
    ;
}

proof fn opposite(
    g: int,
    us: int,
    half: int,
    reach: int,
    c: int,
    s: int,
    x: int,
    y: int,
    a: int,
    b: int,
)
    requires
        g > 0,
        us >= 0x4000_0000,
        half >= 1,
        reach >= 1,
        s > 0,
        PRECISION * double_laws::apart(x * s, c * (us * g)) <= (78 * reach + 2) * (half * s * (us
            * g)),
        PRECISION * double_laws::apart(y * s, (-c) * (us * g)) <= (78 * reach + 2) * (half * s
            * (us * g)),
        0x40 * size(x) <= 0x41 * (half * (us * g)),
        0x40 * size(y) <= 0x41 * (half * (us * g)),
        0xff_ffff * double_laws::apart(a * g, x) <= size(x) + 0x100_0000 * g,
        0xff_ffff * double_laws::apart(b * g, y) <= size(y) + 0x100_0000 * g,
    ensures
        0x400_0000_0000 * size(a + b) <= (0x10_0000 + reach) * (half * us),
{
    let n = PRECISION as int;
    let u = us * g;
    let hu = half * u;
    let hsu = half * s * u;
    let e = 78 * reach + 2;
    assert((-c) * u == -(c * u)) by (nonlinear_arith);
    let z = x + y;
    assert(z * s == x * s + y * s) by (nonlinear_arith)
        requires
            z == x + y,
    ;
    assert(n * size(z * s) <= 2 * (e * hsu)) by (nonlinear_arith)
        requires
            size(z * s) <= double_laws::apart(x * s, c * u) + double_laws::apart(y * s, -(c * u)),
            n * double_laws::apart(x * s, c * u) <= e * hsu,
            n * double_laws::apart(y * s, -(c * u)) <= e * hsu,
            n > 0,
    ;
    size_of_product(z, s);
    let sz = size(z);
    let ehu = e * hu;
    assert(n * sz <= 2 * ehu) by (nonlinear_arith)
        requires
            n * (sz * s) <= 2 * (e * hsu),
            hsu == half * s * u,
            hu == half * u,
            ehu == e * hu,
            s > 0,
    {
        assert(e * hsu == ehu * s) by (nonlinear_arith)
            requires
                hsu == half * s * u,
                hu == half * u,
                ehu == e * hu,
        ;
        let v = n * sz;
        let t = 2 * ehu;
        assert(v * s == n * (sz * s)) by (nonlinear_arith)
            requires
                v == n * sz,
        ;
        assert(v <= t) by (nonlinear_arith)
            requires
                v * s <= t * s,
                s > 0,
        ;
    }
    let f = a + b;
    assert(f * g == a * g + b * g) by (nonlinear_arith)
        requires
            f == a + b,
    ;
    size_of_product(f, g);
    let sf = size(f);
    let sg = sf * g;
    let hus = half * us;
    assert(hu == hus * g) by (nonlinear_arith)
        requires
            hu == half * u,
            u == us * g,
            hus == half * us,
    ;
    assert(hus >= us) by (nonlinear_arith)
        requires
            hus == half * us,
            half >= 1,
            us >= 0,
    ;
    assert(0x4000_0000 * g <= hu) by (nonlinear_arith)
        requires
            0x4000_0000 <= hus,
            hu == hus * g,
            g > 0,
    ;
    let rhu = reach * hu;
    assert(ehu == 78 * rhu + 2 * hu) by (nonlinear_arith)
        requires
            ehu == e * hu,
            e == 78 * reach + 2,
            rhu == reach * hu,
    ;
    assert(rhu >= hu) by (nonlinear_arith)
        requires
            rhu == reach * hu,
            reach >= 1,
            hu >= 0,
    ;
    assert(sg <= sz + double_laws::apart(a * g, x) + double_laws::apart(b * g, y));
    assert(0x400_0000_0000 * sg <= 0x10_0000 * hu + rhu);
    let l = 0x400_0000_0000 * sf;
    let t = (0x10_0000 + reach) * hus;
    assert(l * g <= t * g) by (nonlinear_arith)
        requires
            0x400_0000_0000 * sg <= 0x10_0000 * hu + rhu,
            l == 0x400_0000_0000 * sf,
            sg == sf * g,
            rhu == reach * hu,
            hu == hus * g,
            t == (0x10_0000 + reach) * hus,
    ;
    assert(l <= t) by (nonlinear_arith)
        requires
            l * g <= t * g,
            g > 0,
    ;
}

} // verus!
