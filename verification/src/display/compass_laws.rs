//! How the compass is drawn.
use crate::close;
use crate::constants;
use crate::display::compass;
use crate::display::compass::Place;
use crate::ieee;
use crate::rdf::measure_laws;
use crate::single;
use crate::single::Single;
use crate::single_laws;
use vstd::arithmetic::power2;
use vstd::prelude::*;

verus! {

/// Zero times an amount is nothing, of either sign.
proof fn nothing_of(x: Single, d: Single)
    requires
        x.finite(),
        x.value() == 0,
        d.finite(),
    ensures
        x.times_spec(d).finite(),
        x.times_spec(d).value() == 0,
{
    assert(x.value() * d.value() == 0) by (nonlinear_arith)
        requires
            x.value() == 0,
    ;
    crate::rdf::steering_laws::product_is_off(x, d);
    let u = close::unit();
    let v = x.times_spec(d).value();
    power2::lemma_pow2_pos(single::UNIT as nat);
    assert(v == 0) by (nonlinear_arith)
        requires
            v * u == 0,
            u > 0,
    ;
}

/// A sum with nothing is the other term.
proof fn plus_nothing(a: Single, b: Single)
    requires
        a.finite(),
        b.finite(),
        b.value() == 0,
    ensures
        a.plus_spec(b).value() == a.value(),
        a.plus_spec(b).finite(),
{
    let h = single::HIDDEN as nat;
    let inf = single::INFINITE as nat;
    ieee::pattern_parts(h, 0, 0);
    ieee::nearest_of_held(h, inf, a.magnitude() as nat);
    ieee::nearest_of_held(h, inf, 0);
    ieee::pattern_value_increases(h, 0, a.magnitude() as nat);
}

/// North is up and east to the right: at a distance from the centre, an angle
/// of zero lies straight above it, and a quarter turn straight to its right.
/// The vertical axis runs downwards.
pub proof fn north_is_up_and_east_is_right(center: Place, distance: Single)
    requires
        single_laws::within(center.x, 169),
        single_laws::within(center.y, 169),
        single_laws::between(distance, 149, 169),
    ensures
        ({
            let zero = constants::of(0);
            let one = constants::of(single::ONE_BITS);
            let north = compass::polar_spec(center, zero, one, distance);
            let east = compass::polar_spec(center, one, zero, distance);
            let slack = power2::pow2(170);
            &&& north.x.value() == center.x.value()
            &&& 0x100_0000 * (north.y.value() - (center.y.value() - distance.value())) <= slack
            &&& 0x100_0000 * ((center.y.value() - distance.value()) - north.y.value()) <= slack
            &&& east.y.value() == center.y.value()
            &&& 0x100_0000 * (east.x.value() - (center.x.value() + distance.value())) <= slack
            &&& 0x100_0000 * ((center.x.value() + distance.value()) - east.x.value()) <= slack
        }),
{
    let zero = constants::of(0);
    let one = constants::of(single::ONE_BITS);
    ieee::pattern_parts(single::HIDDEN as nat, 0, 0);
    close::between_is_amount(distance, 149, 169);
    single_laws::one_times(distance);
    assert(zero.value() == 0 && zero.neg_spec().value() == 0);
    nothing_of(zero, distance);
    nothing_of(zero.neg_spec(), distance);
    plus_nothing(center.x, zero.times_spec(distance));
    plus_nothing(center.y, zero.neg_spec().times_spec(distance));
    crate::rdf::bearing_laws::negated_product(one, distance);
    let down = one.neg_spec().times_spec(distance);
    assert(down == distance.neg_spec());
    assert(down.value() == -distance.value());
    single_laws::within_values(center.x, 169);
    single_laws::within_values(center.y, 169);
    single_laws::within_values(distance, 169);
    power2::lemma_pow2_unfold(170);
    single_laws::sum_is_close(center.y, down, 170);
    single_laws::sum_is_close(center.x, distance, 170);
}

/// A stronger signal is drawn no closer to the centre.
pub proof fn strength_reaches_out(radius: Single, weak: Single, strong: Single)
    requires
        close::amount(radius),
        close::amount(weak),
        close::amount(strong),
        single_laws::within(weak, 169),
        single_laws::within(strong, 169),
        weak.rank() <= strong.rank(),
    ensures
        compass::reach_spec(radius, weak).rank() <= compass::reach_spec(radius, strong).rank(),
{
    let base = constants::of(compass::NEEDLE_LENGTH_BASE);
    let scale = constants::of(compass::NEEDLE_LENGTH_SCALE);
    single_laws::times_in_order(weak, strong, scale);
    measure_laws::product_commutes(weak, scale);
    measure_laws::product_commutes(strong, scale);
    let (a, b) = (scale.times_spec(weak), scale.times_spec(strong));
    power2::lemma2_to64();
    single_laws::within_values(scale, 149);
    scale_is_small(scale);
    single_laws::product_within(scale, weak, 149, 169);
    single_laws::product_within(scale, strong, 149, 169);
    single_laws::plus_in_order(a, b, base);
    scale_is_small(base);
    single_laws::within_more(base, 149, 169);
    single_laws::sum_within(base, a, 169);
    single_laws::sum_within(base, b, 169);
    let (x, y) = (base.plus_spec(a), base.plus_spec(b));
    single_laws::times_in_order(x, y, radius);
    measure_laws::product_commutes(x, radius);
    measure_laws::product_commutes(y, radius);
}

/// A number up to one is within one.
proof fn scale_is_small(x: Single)
    requires
        close::amount(x),
        x.bits <= single::ONE_BITS,
    ensures
        single_laws::within(x, 149),
{
    single_laws::rank_within_one(x);
}

} // verus!
