//! What the resultant length of angles stands for.
use crate::arithmetic;
use crate::close;
use crate::ieee;
use crate::rdf::bearing_laws;
use crate::rdf::steering_laws;
use crate::single;
use crate::single::Single;
use crate::single_laws;
use crate::stats;
use vstd::arithmetic::power2;
use vstd::prelude::*;

verus! {

/// The square of a component, which may be zero or of either sign.
proof fn component_square(c: Single)
    requires
        c.finite(),
        c.value() == 0 || single_laws::between(c.abs_spec(), 109, 169),
    ensures
        ({
            let s = c.times_spec(c);
            &&& close::amount(s)
            &&& single_laws::within(s, 189)
            &&& s.value() == 0 || s.value() >= power2::pow2(69)
            &&& c.value() == 0 <==> s.value() == 0
            &&& close::close(s.value() * close::unit(), c.value() * c.value(), 1)
        }),
{
    let u = close::unit();
    power2::lemma_pow2_pos(single::UNIT as nat);
    power2::lemma_pow2_pos(69);
    let m = c.abs_spec();
    let s = c.times_spec(c);
    if c.value() == 0 {
        assert(c.value() * c.value() == 0) by (nonlinear_arith)
            requires
                c.value() == 0,
        ;
        steering_laws::product_is_off(c, c);
        let v = s.value();
        assert(v == 0) by (nonlinear_arith)
            requires
                v * u == 0,
                u > 0,
        ;
        ieee::nearest_exists(
            single::HIDDEN as nat,
            single::INFINITE as nat,
            arithmetic::magnitude(c.value()) * arithmetic::magnitude(c.value()),
            power2::pow2(single::UNIT as nat),
        );
        assert(!s.negative());
        single_laws::within_values(s, 189);
        power2::lemma_pow2_pos(189);
        assert(0 * u == 0);
    } else {
        close::between_is_amount(m, 109, 169);
        single_laws::product_between(m, m, 109, 169, 109, 169);
        close::product_is_close(m, m);
        ieee::pattern_value_increases(single::HIDDEN as nat, 0, c.magnitude() as nat);
        assert(m.value() == arithmetic::magnitude(c.value()));
        assert(s == m.times_spec(m));
        close::between_is_amount(s, 69, 189);
        let (x, y) = (m.value(), c.value());
        assert(x * x == y * y) by (nonlinear_arith)
            requires
                x == y || x == -y,
        ;
    }
}

/// The resultant length is the length of the sum of the unit vectors over
/// their number: times that number it is the root of the sum of the squares of
/// the components, up to a few roundings.
pub proof fn resultant_is_the_mean_length(sum_cos: Single, sum_sin: Single, n: int)
    requires
        sum_cos.finite(),
        sum_sin.finite(),
        sum_cos.value() == 0 || single_laws::between(sum_cos.abs_spec(), 109, 169),
        sum_sin.value() == 0 || single_laws::between(sum_sin.abs_spec(), 109, 169),
        sum_cos.value() != 0 || sum_sin.value() != 0,
        1 <= n <= 0x100_0000,
    ensures
        ({
            let r = stats::resultant_spec(sum_cos, sum_sin, n as nat).value() * n;
            let square = sum_cos.value() * sum_cos.value() + sum_sin.value() * sum_sin.value();
            close::close(r * r, square, 10)
        }),
{
    let u = close::unit();
    power2::lemma_pow2_pos(single::UNIT as nat);
    component_square(sum_cos);
    component_square(sum_sin);
    let a = sum_cos.times_spec(sum_cos);
    let b = sum_sin.times_spec(sum_sin);
    close::amount_has_value(a);
    close::amount_has_value(b);
    single_laws::within_values(a, 189);
    single_laws::within_values(b, 189);
    single_laws::sum_within(a, b, 189);
    single_laws::plus_in_order(b, b, a);
    let x = a.plus_spec(b);
    close::sum_is_close(a, b);
    single_laws::sum_is_at_least(a, b, a);
    single_laws::sum_is_at_least(a, b, b);
    power2::lemma_pow2_pos(69);
    power2::lemma_pow2_strictly_increases(49, 69);
    single_laws::within_more(x, 190, 249);
    assert(single_laws::between(x, 49, 249));
    close::between_is_amount(x, 49, 249);
    close::root_is_close(x);
    close::root_bounds(x);
    let root = x.sqrt_spec();
    close::between_is_amount(root, 98, 200);
    bearing_laws::count_between(n);
    let count = Single::from_integer_spec(n);
    close::between_is_amount(count, 149, 173);
    close::quotient_between(root, count, 98, 200, 149, 173);
    let q = root.over_spec(count);
    close::between_is_amount(q, 74, 200);
    close::quotient_is_close(root, count);
    let (qv, rv, xv, av, bv) = (q.value(), root.value(), x.value(), a.value(), b.value());
    let square = sum_cos.value() * sum_cos.value() + sum_sin.value() * sum_sin.value();
    // The squares add up.
    close::close_sums(
        av * u,
        sum_cos.value() * sum_cos.value(),
        bv * u,
        sum_sin.value() * sum_sin.value(),
        1,
    );
    close::close_times(xv, av + bv, 1, u);
    assert((av + bv) * u == av * u + bv * u) by (nonlinear_arith);
    close::close_chain(xv * u, (av + bv) * u, square, 1, 1);
    close::close_chain(rv * rv, xv * u, square, 2, 3);
    // The quotient times the number is the root.
    assert(qv * (n * u) == (qv * n) * u) by (nonlinear_arith);
    close::close_without(qv * n, rv, 1, u);
    close::close_products(qv * n, rv, 1, qv * n, rv, 1);
    close::close_chain((qv * n) * (qv * n), rv * rv, square, 3, 6);
}

} // verus!
