//! How the oscillator moves, and what it tells of itself.
use crate::close;
use crate::constants;
use crate::double;
use crate::ieee;
use crate::rdf::coast_laws;
use crate::rdf::loop_laws;
use crate::rdf::rotation_loop;
use crate::rdf::rotation_loop::{Coast, LoopState};
use crate::signal_processing::math;
use crate::signal_processing::north_agc;
use crate::single;
use crate::single::Single;
use crate::single_laws;
use vstd::arithmetic::power2;
use vstd::prelude::*;

verus! {

/// The distance of two amounts.
pub open spec fn distance(x: int, y: int) -> int {
    if x < y {
        y - x
    } else {
        x - y
    }
}

/// A product that is zero, or held to full precision.
pub open spec fn well_rounded(a: Single, b: Single) -> bool {
    a.finite() && b.finite() && (a.value() * b.value() == 0 || close::precise(a.times_spec(b)))
}

/// A product is off by no more than one rounding.
pub proof fn product_is_off(a: Single, b: Single)
    requires
        well_rounded(a, b),
    ensures
        a.times_spec(b).finite(),
        0x80_0000 * distance(a.times_spec(b).value() * close::unit(), a.value() * b.value())
            <= distance(a.value() * b.value(), 0),
{
    let u = close::unit();
    let r = a.times_spec(b);
    let e = a.value() * b.value();
    if e == 0 {
        let h = single::HIDDEN as nat;
        let x = crate::arithmetic::magnitude(a.value());
        let y = crate::arithmetic::magnitude(b.value());
        assert(x * y == 0) by (nonlinear_arith)
            requires
                e == 0,
                e == a.value() * b.value(),
                x == a.value() || x == -a.value(),
                y == b.value() || y == -b.value(),
        ;
        power2::lemma_pow2_pos(single::UNIT as nat);
        let d = power2::pow2(single::UNIT as nat);
        assert(0 * d == 0);
        ieee::nearest_of_value(h, single::INFINITE as nat, 0, d, 0);
        assert(r.value() == 0);
        assert(0 * u == 0);
    } else {
        close::product_is_alike(a, b);
        let v = r.value() * u;
        assert(1 * e == e && 1 * (-e) == -e) by (nonlinear_arith);
    }
}

/// A sum is off by no more than one rounding.
pub proof fn sum_is_off(a: Single, b: Single)
    requires
        a.finite(),
        b.finite(),
        a.plus_spec(b).finite(),
    ensures
        0x80_0000 * distance(a.plus_spec(b).value(), a.value() + b.value()) <= distance(
            a.value() + b.value(),
            0,
        ),
{
    let s = a.value() + b.value();
    if s >= 0 {
        close::sum_is_close(a, b);
        assert(1 * s == s) by (nonlinear_arith);
    } else {
        let (x, y) = (a.neg_spec(), b.neg_spec());
        assert(x.value() == -a.value() && y.value() == -b.value());
        ieee::nearest_exists(
            single::HIDDEN as nat,
            single::INFINITE as nat,
            crate::arithmetic::magnitude(s),
            1,
        );
        assert(x.plus_spec(y).value() == -a.plus_spec(b).value());
        close::sum_is_close(x, y);
        assert(1 * (-s) == -s) by (nonlinear_arith);
    }
}

/// A phase that is moved by a rate times an amount lies where it should, but
/// for whole turns and a few roundings.
proof fn moved_phase(phase: Single, rate: Single, by: Single)
    requires
        phase.finite(),
        well_rounded(rate, by),
        phase.plus_spec(rate.times_spec(by)).finite(),
    ensures
        ({
            let w = rotation_loop::wrap_phase_spec(phase.plus_spec(rate.times_spec(by)));
            let u = close::unit();
            let turn = constants::of(constants::TWO_PI).value();
            let moved = rate.value() * by.value();
            &&& w.finite()
            &&& 0 <= w.value() <= turn
            &&& close::turns_apart(
                0x80_0000 * (w.value() * u),
                0x80_0000 * (phase.value() * u + moved),
                0x80_0000 * (turn * u),
                turn * u + distance(phase.value() * u, 0) + 3 * distance(moved, 0),
            )
        }),
{
    let u = close::unit();
    let full = constants::of(constants::TWO_PI);
    let turn = full.value();
    let g = rate.times_spec(by);
    let s = phase.plus_spec(g);
    let w = rotation_loop::wrap_phase_spec(s);
    close::pi_in_units();
    power2::lemma_pow2_pos(single::UNIT as nat);
    product_is_off(rate, by);
    sum_is_off(phase, g);
    close::remainder_keeps_place(s, full);
    let k = choose|k: int| #[trigger]
        close::by_turns(
            0x80_0000 * w.value(),
            0x80_0000 * s.value(),
            0x80_0000 * turn,
            turn,
            k,
        );
    let moved = rate.value() * by.value();
    moved_in_units(w.value(), s.value(), phase.value(), g.value(), moved, turn, u, k);
    assert(close::by_turns(
        0x80_0000 * (w.value() * u),
        0x80_0000 * (phase.value() * u + moved),
        0x80_0000 * (turn * u),
        turn * u + distance(phase.value() * u, 0) + 3 * distance(moved, 0),
        k,
    ));
}

proof fn moved_in_units(w: int, s: int, phase: int, g: int, moved: int, turn: int, u: int, k: int)
    requires
        u > 0,
        close::by_turns(0x80_0000 * w, 0x80_0000 * s, 0x80_0000 * turn, turn, k),
        0x80_0000 * distance(s, phase + g) <= distance(phase + g, 0),
        0x80_0000 * distance(g * u, moved) <= distance(moved, 0),
    ensures
        close::by_turns(
            0x80_0000 * (w * u),
            0x80_0000 * (phase * u + moved),
            0x80_0000 * (turn * u),
            turn * u + distance(phase * u, 0) + 3 * distance(moved, 0),
            k,
        ),
{
    let (wu, su, pu, gu, tu) = (w * u, s * u, phase * u, g * u, turn * u);
    let kt = k * (0x80_0000 * turn);
    let ktu = k * (0x80_0000 * tu);
    assert(ktu == kt * u) by (nonlinear_arith)
        requires
            ktu == k * (0x80_0000 * tu),
            kt == k * (0x80_0000 * turn),
            tu == turn * u,
    ;
    let x = 0x80_0000 * w - 0x80_0000 * s - kt;
    assert(-tu <= x * u <= tu) by (nonlinear_arith)
        requires
            -turn <= x <= turn,
            tu == turn * u,
            u > 0,
    ;
    assert(x * u == 0x80_0000 * wu - 0x80_0000 * su - ktu) by (nonlinear_arith)
        requires
            x == 0x80_0000 * w - 0x80_0000 * s - kt,
            wu == w * u,
            su == s * u,
            ktu == kt * u,
    ;
    let d = s - (phase + g);
    let a = distance(phase + g, 0);
    assert(-(a * u) <= 0x80_0000 * (d * u) <= a * u) by (nonlinear_arith)
        requires
            -a <= 0x80_0000 * d <= a,
            u > 0,
    ;
    assert(d * u == su - pu - gu) by (nonlinear_arith)
        requires
            d == s - (phase + g),
            su == s * u,
            pu == phase * u,
            gu == g * u,
    ;
    assert(a * u <= distance(pu, 0) + distance(gu, 0)) by (nonlinear_arith)
        requires
            a == phase + g || a == -(phase + g),
            pu == phase * u,
            gu == g * u,
            distance(pu, 0) >= pu,
            distance(pu, 0) >= -pu,
            distance(gu, 0) >= gu,
            distance(gu, 0) >= -gu,
    ;
    assert(distance(gu, 0) <= 2 * distance(moved, 0));
}

/// The oscillator turns by its frequency with every sample: after `samples` of
/// them its phase has moved by that many times the frequency, but for whole
/// turns and a few roundings.
pub proof fn phase_turns_with_the_samples(s: LoopState, samples: int)
    requires
        close::amount(s.phase),
        single_laws::within(s.phase, 152),
        single_laws::between(s.frequency, 119, 169),
        -0x100_0000 <= samples <= 0x100_0000,
    ensures
        ({
            let u = close::unit();
            let turn = constants::of(constants::TWO_PI).value() * u;
            let moved = samples * s.frequency.value();
            let after = s.turned(samples);
            &&& 0 <= after.phase.value() <= constants::of(constants::TWO_PI).value()
            &&& after.frequency == s.frequency
            &&& close::turns_apart(
                0x80_0000 * after.phase.value(),
                0x80_0000 * (s.phase.value() + moved),
                0x80_0000 * constants::of(constants::TWO_PI).value(),
                constants::of(constants::TWO_PI).value() + s.phase.value() + 3 * distance(
                    moved,
                    0,
                ),
            )
        }),
{
    let u = close::unit();
    let n = Single::from_integer_spec(samples);
    let f = s.frequency;
    power2::lemma2_to64();
    power2::lemma_pow2_pos(single::UNIT as nat);
    single_laws::count_is_exact(samples);
    single_laws::count_within_power(samples, 24);
    single_laws::product_within(f, n, 169, 173);
    single_laws::within_more(s.phase, 152, 193);
    single_laws::sum_within(s.phase, f.times_spec(n), 193);
    close::between_is_amount(f, 119, 169);
    if samples != 0 {
        precise_times_count(f, samples);
    } else {
        assert(0 * u == 0);
        assert(n.value() == 0);
        assert(f.value() * 0 == 0);
    }
    moved_phase(s.phase, f, n);
    let after = s.turned(samples).phase;
    let turn = constants::of(constants::TWO_PI).value();
    let moved = samples * f.value();
    assert(f.value() * n.value() == moved * u) by (nonlinear_arith)
        requires
            n.value() == samples * u,
            moved == samples * f.value(),
    ;
    let k = choose|k: int| #[trigger]
        close::by_turns(
            0x80_0000 * (after.value() * u),
            0x80_0000 * (s.phase.value() * u + moved * u),
            0x80_0000 * (turn * u),
            turn * u + distance(s.phase.value() * u, 0) + 3 * distance(moved * u, 0),
            k,
        );
    close::amount_has_value(s.phase);
    let tolerance = turn + s.phase.value() + 3 * distance(moved, 0);
    let x = 0x80_0000 * after.value() - 0x80_0000 * (s.phase.value() + moved) - k * (0x80_0000
        * turn);
    assert(-tolerance <= x <= tolerance) by {
        let (a, b, m, t) = (after.value(), s.phase.value(), moved, turn);
        let lhs = 0x80_0000 * (a * u) - 0x80_0000 * (b * u + m * u) - k * (0x80_0000 * (t * u));
        assert(lhs == x * u) by (nonlinear_arith)
            requires
                lhs == 0x80_0000 * (a * u) - 0x80_0000 * (b * u + m * u) - k * (0x80_0000 * (t
                    * u)),
                x == 0x80_0000 * a - 0x80_0000 * (b + m) - k * (0x80_0000 * t),
        ;
        let d = distance(m, 0);
        assert(m >= 0 ==> m * u >= 0) by (nonlinear_arith)
            requires
                u > 0,
        ;
        assert(m < 0 ==> m * u < 0) by (nonlinear_arith)
            requires
                u > 0,
        ;
        assert((-m) * u == -(m * u)) by (nonlinear_arith);
        assert(distance(m * u, 0) == d * u);
        assert(t * u + b * u + 3 * (d * u) == tolerance * u) by (nonlinear_arith)
            requires
                tolerance == t + b + 3 * d,
        ;
        assert(b * u >= 0) by (nonlinear_arith)
            requires
                b >= 0,
                u > 0,
        ;
        assert(-tolerance <= x <= tolerance) by (nonlinear_arith)
            requires
                -(tolerance * u) <= x * u <= tolerance * u,
                u > 0,
        ;
    }
    assert(close::by_turns(
        0x80_0000 * after.value(),
        0x80_0000 * (s.phase.value() + moved),
        0x80_0000 * turn,
        tolerance,
        k,
    ));
}

/// A frequency times a count that is not zero is held to full precision.
proof fn precise_times_count(f: Single, n: int)
    requires
        single_laws::between(f, 119, 169),
        -0x100_0000 <= n <= 0x100_0000,
        n != 0,
    ensures
        close::precise(f.times_spec(Single::from_integer_spec(n))),
{
    let h = single::HIDDEN as nat;
    let inf = single::INFINITE as nat;
    let u = close::unit();
    let c = Single::from_integer_spec(n);
    power2::lemma2_to64();
    power2::lemma_pow2_pos(single::UNIT as nat);
    power2::lemma_pow2_strictly_increases(23, 119);
    single_laws::count_is_exact(n);
    single_laws::count_within_power(n, 24);
    single_laws::product_within(f, c, 169, 173);
    close::between_is_amount(f, 119, 169);
    close::amount_has_value(f);
    let x = f.value();
    let m = crate::arithmetic::magnitude(c.value()) as int;
    assert(m >= u) by (nonlinear_arith)
        requires
            m == n * u || m == -(n * u),
            m >= 0,
            n != 0,
            u > 0,
    ;
    assert(x * m >= h * u) by (nonlinear_arith)
        requires
            x >= h,
            m >= u,
            u > 0,
            h > 0,
    ;
    ieee::pattern_parts(h, 0, h);
    ieee::nearest_exists(h, inf, (x * m) as nat, u as nat);
    ieee::nearest_at_least(h, inf, (x * m) as nat, u as nat, h);
}

/// A phase error steers towards the pulse: the frequency moves by the integral
/// gain times the error, in the direction of the error, within the limits; and
/// the phase moves by the proportional gain times the error, but for whole
/// turns. Both up to a few roundings.
pub proof fn steering_follows_the_error(s: LoopState, error: Single)
    requires
        close::amount(s.phase),
        single_laws::between(s.frequency, 119, 169),
        s.params.min_omega.finite(),
        s.params.max_omega.finite(),
        s.params.min_omega.le_spec(s.params.max_omega),
        well_rounded(s.params.ki, error),
        well_rounded(s.params.kp, error),
        s.frequency.plus_spec(s.params.ki.times_spec(error)).finite(),
        s.phase.plus_spec(s.params.kp.times_spec(error)).finite(),
    ensures
        ({
            let u = close::unit();
            let after = s.steered(error);
            let turn = constants::of(constants::TWO_PI).value();
            let f = s.frequency.value() * u;
            let change = s.params.ki.value() * error.value();
            let off = f + 4 * distance(change, 0);
            let moved = s.params.kp.value() * error.value();
            &&& after.frequency.value() < s.params.max_omega.value() ==> 0x80_0000
                * (after.frequency.value() * u) >= 0x80_0000 * (f + change) - off
            &&& after.frequency.value() > s.params.min_omega.value() ==> 0x80_0000
                * (after.frequency.value() * u) <= 0x80_0000 * (f + change) + off
            &&& close::turns_apart(
                0x80_0000 * (after.phase.value() * u),
                0x80_0000 * (s.phase.value() * u + moved),
                0x80_0000 * (turn * u),
                turn * u + distance(s.phase.value() * u, 0) + 3 * distance(moved, 0),
            )
        }),
{
    let u = close::unit();
    let f = s.frequency;
    let g = s.params.ki.times_spec(error);
    let x = f.plus_spec(g);
    power2::lemma_pow2_pos(single::UNIT as nat);
    moved_phase(s.phase, s.params.kp, error);
    product_is_off(s.params.ki, error);
    sum_is_off(f, g);
    close::between_is_amount(f, 119, 169);
    let change = s.params.ki.value() * error.value();
    let (fu, gu, xu) = (f.value() * u, g.value() * u, x.value() * u);
    let a = distance(f.value() + g.value(), 0);
    let d = x.value() - (f.value() + g.value());
    assert(-(a * u) <= 0x80_0000 * (d * u) <= a * u) by (nonlinear_arith)
        requires
            -a <= 0x80_0000 * d <= a,
            u > 0,
    ;
    assert(d * u == xu - fu - gu) by (nonlinear_arith)
        requires
            d == x.value() - (f.value() + g.value()),
            fu == f.value() * u,
            gu == g.value() * u,
            xu == x.value() * u,
    ;
    assert(fu >= 0) by (nonlinear_arith)
        requires
            fu == f.value() * u,
            f.value() >= 0,
            u > 0,
    ;
    let (fv, gv) = (f.value(), g.value());
    assert(a * u <= fu + distance(gu, 0)) by (nonlinear_arith)
        requires
            a == fv + gv || a == -(fv + gv),
            fu == fv * u,
            gu == gv * u,
            fu >= 0,
            distance(gu, 0) >= gu,
            distance(gu, 0) >= -gu,
    ;
    assert(distance(gu, 0) <= 2 * distance(change, 0));
    let y = s.steered(error).frequency;
    single::rank_orders_values(x, s.params.min_omega);
    single::rank_orders_values(s.params.max_omega, x);
    single::rank_orders_values(s.params.min_omega, s.params.max_omega);
    let yu = y.value() * u;
    if y.value() < s.params.max_omega.value() {
        assert(yu >= xu) by (nonlinear_arith)
            requires
                yu == y.value() * u,
                xu == x.value() * u,
                y.value() >= x.value(),
                u > 0,
        ;
    }
    if y.value() > s.params.min_omega.value() {
        assert(yu <= xu) by (nonlinear_arith)
            requires
                yu == y.value() * u,
                xu == x.value() * u,
                y.value() <= x.value(),
                u > 0,
        ;
    }
}

/// A predicted tick comes one period after the one before it, to a thousandth
/// of a sample on the first `2^40` samples of the clock.
pub proof fn coast_steps_by_the_period(s: LoopState, c: Coast)
    requires
        coast_laws::starts_well(s, c),
        s.last->0 <= 0x100_0000_0000,
        s.coast_next(c.period) <= 0x100_0000_0000,
        single_laws::within(s.last_fraction, 149),
    ensures
        ({
            let u = power2::pow2(double::UNIT as nat);
            let period = c.period.value() * power2::pow2(double::WIDENING as nat);
            let off = s.coast_step(c).coast_time().value() - s.coast_time().value() - period;
            -u <= 0x400 * off <= u
        }),
{
    coast_laws::coast_step_in_units(s, c);
}

/// The phase error at a pulse is how far the oscillator is from north there,
/// with the opposite sign, but for whole turns and a few roundings: taken off
/// in full it brings the oscillator to north.
pub proof fn phase_error_is_the_way_to_north(s: LoopState, fraction: Single)
    requires
        close::amount(s.phase),
        single_laws::within(s.phase, 152),
        well_rounded(s.frequency, fraction),
        single_laws::within(s.frequency.times_spec(fraction), 169),
    ensures
        ({
            let u = close::unit();
            let turn = constants::of(constants::TWO_PI).value();
            let moved = s.frequency.value() * fraction.value();
            let e = s.phase_error(fraction);
            &&& e.finite()
            &&& close::turns_apart(
                0x80_0000 * (e.value() * u),
                -(0x80_0000 * (s.phase.value() * u + moved)),
                0x80_0000 * (turn * u),
                6 * (turn * u) + s.phase.value() * u + 3 * distance(moved, 0),
            )
        }),
{
    let u = close::unit();
    let full = constants::of(constants::TWO_PI);
    let pi = constants::of(constants::PI);
    let turn = full.value();
    let g = s.frequency.times_spec(fraction);
    power2::lemma_pow2_pos(single::UNIT as nat);
    close::pi_in_units();
    math::turn_is_twice_pi();
    loop_laws::turn_between();
    close::amount_has_value(s.phase);
    single_laws::within_more(s.phase, 152, 169);
    single_laws::sum_within(s.phase, g, 169);
    moved_phase(s.phase, s.frequency, fraction);
    let w = rotation_loop::wrap_phase_spec(s.phase.plus_spec(g));
    let n = w.neg_spec();
    assert(n.value() == -w.value());
    single_laws::within_values(full, 152);
    single_laws::within_values(w, 152);
    single_laws::within_values(n, 152);
    single_laws::within_values(pi, 152);
    single_laws::sum_within(n, pi, 152);
    let x = n.plus_spec(pi);
    sum_is_off(n, pi);
    close::remainder_keeps_place(x, full);
    let r = x.rem_euclid_spec(full);
    assert(pi.neg_spec().value() == -pi.value());
    single_laws::within_values(r, 152);
    single_laws::within_values(pi.neg_spec(), 152);
    single_laws::sum_within(r, pi.neg_spec(), 152);
    sum_is_off(r, pi.neg_spec());
    let e = r.minus_spec(pi);
    assert(e == s.phase_error(fraction));
    let moved = s.frequency.value() * fraction.value();
    let i = choose|k: int| #[trigger]
        close::by_turns(
            0x80_0000 * (w.value() * u),
            0x80_0000 * (s.phase.value() * u + moved),
            0x80_0000 * (turn * u),
            turn * u + distance(s.phase.value() * u, 0) + 3 * distance(moved, 0),
            k,
        );
    let j = choose|k: int| #[trigger]
        close::by_turns(
            0x80_0000 * r.value(),
            0x80_0000 * x.value(),
            0x80_0000 * turn,
            turn,
            k,
        );
    error_in_units(
        e.value(),
        r.value(),
        x.value(),
        w.value(),
        pi.value(),
        turn,
        s.phase.value(),
        moved,
        u,
        i,
        j,
    );
    assert(close::by_turns(
        0x80_0000 * (e.value() * u),
        -(0x80_0000 * (s.phase.value() * u + moved)),
        0x80_0000 * (turn * u),
        6 * (turn * u) + s.phase.value() * u + 3 * distance(moved, 0),
        j - i,
    ));
}

proof fn error_in_units(
    e: int,
    r: int,
    x: int,
    w: int,
    pi: int,
    turn: int,
    phase: int,
    moved: int,
    u: int,
    i: int,
    j: int,
)
    requires
        u > 0,
        turn == 2 * pi,
        pi > 0,
        0 <= w <= turn,
        0 <= r <= turn,
        phase >= 0,
        0x80_0000 * distance(e, r - pi) <= distance(r - pi, 0),
        0x80_0000 * distance(x, pi - w) <= distance(pi - w, 0),
        close::by_turns(
            0x80_0000 * (w * u),
            0x80_0000 * (phase * u + moved),
            0x80_0000 * (turn * u),
            turn * u + distance(phase * u, 0) + 3 * distance(moved, 0),
            i,
        ),
        close::by_turns(0x80_0000 * r, 0x80_0000 * x, 0x80_0000 * turn, turn, j),
    ensures
        close::by_turns(
            0x80_0000 * (e * u),
            -(0x80_0000 * (phase * u + moved)),
            0x80_0000 * (turn * u),
            6 * (turn * u) + phase * u + 3 * distance(moved, 0),
            j - i,
        ),
{
    let p = 0x80_0000 * turn;
    let jt = j * p;
    // e + w is j turns, up to three half turns of roundings.
    let y = 0x80_0000 * e + 0x80_0000 * w - jt;
    assert(-(3 * turn) <= y <= 3 * turn);
    let (eu, wu, tu, pu) = (e * u, w * u, turn * u, phase * u);
    assert(-(3 * tu) <= y * u <= 3 * tu) by (nonlinear_arith)
        requires
            -(3 * turn) <= y <= 3 * turn,
            tu == turn * u,
            u > 0,
    ;
    let ptu = 0x80_0000 * tu;
    assert(jt * u == j * ptu) by (nonlinear_arith)
        requires
            jt == j * p,
            p == 0x80_0000 * turn,
            ptu == 0x80_0000 * tu,
            tu == turn * u,
    ;
    assert(y * u == 0x80_0000 * eu + 0x80_0000 * wu - jt * u) by (nonlinear_arith)
        requires
            y == 0x80_0000 * e + 0x80_0000 * w - jt,
            eu == e * u,
            wu == w * u,
    ;
    assert((j - i) * ptu == j * ptu - i * ptu) by (nonlinear_arith);
    assert(pu >= 0 && tu >= 0) by (nonlinear_arith)
        requires
            pu == phase * u,
            tu == turn * u,
            phase >= 0,
            turn >= 0,
            u > 0,
    ;
}

/// The timing correction is what a phase error is more than the steady one, in
/// samples, held within half a sample: below the upper end, times the
/// frequency it is no less than the difference of the errors, and above the
/// lower end no more, up to rounding.
pub proof fn correction_is_the_timing_error(s: LoopState, error: Single, mean: Single)
    requires
        s.errors.mean() == Some(mean),
        s.errors.count() >= 16,
        single_laws::between(s.frequency, 119, 169),
        single_laws::within(error, 152),
        single_laws::within(mean, 152),
    ensures
        ({
            let u = close::unit();
            let c = s.correction(error);
            let f = s.frequency.value();
            let exact = (error.value() - mean.value()) * u;
            let off = f * u + 16 * (u * u);
            &&& c.finite()
            &&& -u <= 2 * c.value() <= u
            &&& 2 * c.value() < u ==> 0x100_0000 * (c.value() * f) >= 0x100_0000 * exact - off
            &&& 2 * c.value() > -u ==> 0x100_0000 * (c.value() * f) <= 0x100_0000 * exact + off
        }),
{
    let h = single::HIDDEN as nat;
    let inf = single::INFINITE as nat;
    let u = close::unit();
    let f = s.frequency;
    let half = constants::of(north_agc::HALF);
    power2::lemma2_to64();
    power2::lemma_pow2_pos(single::UNIT as nat);
    power2::lemma_pow2_unfold(149);
    power2::lemma_pow2_adds(4, 149);
    power2::lemma_pow2_unfold(153);
    power2::lemma_pow2_strictly_increases(25, 149);
    single_laws::power_pattern_value(h, 23, 148);
    assert(2 * half.value() == u);
    assert(half.neg_spec().value() == -half.value());
    loop_laws::beyond_resolution(f);
    close::between_is_amount(f, 119, 169);
    assert(mean.neg_spec().value() == -mean.value());
    single_laws::within_values(error, 152);
    single_laws::within_values(mean, 152);
    single_laws::sum_is_close(error, mean.neg_spec(), 153);
    let d = error.minus_spec(mean);
    let x = d.over_spec(f);
    single_laws::within_values(d, 153);
    single_laws::quotient_within(d, f, 153, 119);
    let m = crate::arithmetic::magnitude(d.value());
    let n = m * power2::pow2(single::UNIT as nat);
    ieee::nearest_exists(h, inf, n, f.value() as nat);
    ieee::nearest_ratio_is_close(h, inf, n, f.value() as nat);
    let v = ieee::pattern_value(h, ieee::nearest(h, inf, n, f.value() as nat)) as int;
    let w = f.value();
    assert(2 * h == 0x100_0000);
    assert(0x100_0000 * (w * v - n) <= w * v + 0x100_0000 * w);
    assert(0x100_0000 * (n - w * v) <= w * v + 0x100_0000 * w);
    assert(x.value() == if d.negative() {
        -v
    } else {
        v
    });
    assert(v * w == w * v && (-v) * w == -(w * v)) by (nonlinear_arith);
    assert((-(m as int)) * u == -(m * u)) by (nonlinear_arith);
    assert(w * v >= 0) by (nonlinear_arith)
        requires
            w >= 0,
            v >= 0,
    ;
    assert(0x100_0000 * distance(x.value() * w, d.value() * u) <= distance(x.value() * w, 0)
        + 0x100_0000 * w);
    let c = s.correction(error);
    assert(c == x.clamp_spec(half.neg_spec(), half));
    single::rank_orders_values(x, half.neg_spec());
    single::rank_orders_values(half, x);
    correction_in_units(x.value(), d.value(), f.value(), error.value() - mean.value(), u);
    let (cv, xv, fv) = (c.value(), x.value(), f.value());
    if cv > xv {
        assert(cv * fv >= xv * fv) by (nonlinear_arith)
            requires
                cv >= xv,
                fv > 0,
        ;
    } else if cv < xv {
        assert(cv * fv <= xv * fv) by (nonlinear_arith)
            requires
                cv <= xv,
                fv > 0,
        ;
    }
    // Beyond the ends only one of the two is owed.
    if xv > half.value() {
        assert(cv == half.value());
        let hf = half.value() * fv;
        assert(hf <= xv * fv) by (nonlinear_arith)
            requires
                hf == half.value() * fv,
                half.value() <= xv,
                fv > 0,
        ;
        clipped_in_units(xv, half.value(), d.value(), fv, error.value() - mean.value(), u);
    } else if xv < -half.value() {
        assert(cv == -half.value());
        assert((-xv) * fv == -(xv * fv)) by (nonlinear_arith);
        assert((-half.value()) * fv == -(half.value() * fv)) by (nonlinear_arith);
        assert((-d.value()) * u == -(d.value() * u)) by (nonlinear_arith);
        assert((-(error.value() - mean.value())) * u == -((error.value() - mean.value()) * u))
            by (nonlinear_arith);
        clipped_in_units(
            -xv,
            half.value(),
            -d.value(),
            fv,
            -(error.value() - mean.value()),
            u,
        );
    }
}

/// Within the ends.
proof fn correction_in_units(x: int, d: int, f: int, e: int, u: int)
    requires
        u >= 0x200_0000,
        f > 0,
        0x100_0000 * distance(d, e) <= 16 * u,
        0x100_0000 * distance(x * f, d * u) <= distance(x * f, 0) + 0x100_0000 * f,
    ensures
        -u <= 2 * x <= u ==> 0x100_0000 * distance(x * f, e * u) <= f * u + 16 * (u * u),
{
    if -u <= 2 * x <= u {
        let xf = x * f;
        let uf = f * u;
        assert(-uf <= 2 * xf <= uf) by (nonlinear_arith)
            requires
                xf == x * f,
                uf == f * u,
                -u <= 2 * x <= u,
                f > 0,
        ;
        small_units(f, u);
        let du = d * u;
        let eu = e * u;
        let g = d - e;
        assert(-(16 * (u * u)) <= 0x100_0000 * (g * u) <= 16 * (u * u)) by (nonlinear_arith)
            requires
                -(16 * u) <= 0x100_0000 * g <= 16 * u,
                u > 0,
        ;
        assert(g * u == du - eu) by (nonlinear_arith)
            requires
                g == d - e,
                du == d * u,
                eu == e * u,
        ;
    }
}

proof fn small_units(f: int, u: int)
    requires
        f > 0,
        u >= 0x200_0000,
    ensures
        0x200_0000 * f <= f * u,
{
    assert(0x200_0000 * f <= f * u) by (nonlinear_arith)
        requires
            f > 0,
            u >= 0x200_0000,
    ;
}

/// Beyond the upper end.
proof fn clipped_in_units(x: int, half: int, d: int, f: int, e: int, u: int)
    requires
        u >= 0x200_0000,
        f > 0,
        2 * half == u,
        x > half,
        0x100_0000 * distance(d, e) <= 16 * u,
        0x100_0000 * distance(x * f, d * u) <= distance(x * f, 0) + 0x100_0000 * f,
    ensures
        0x100_0000 * (half * f) <= 0x100_0000 * (e * u) + f * u + 16 * (u * u),
{
    let xf = x * f;
    let hf = half * f;
    let uf = f * u;
    assert(xf >= hf && hf >= 0 && 2 * hf == uf) by (nonlinear_arith)
        requires
            xf == x * f,
            hf == half * f,
            uf == f * u,
            x >= half,
            2 * half == u,
            half >= 0,
            f > 0,
    ;
    small_units(f, u);
    let du = d * u;
    let eu = e * u;
    let g = d - e;
    assert(-(16 * (u * u)) <= 0x100_0000 * (g * u) <= 16 * (u * u)) by (nonlinear_arith)
        requires
            -(16 * u) <= 0x100_0000 * g <= 16 * u,
            u > 0,
    ;
    assert(g * u == du - eu) by (nonlinear_arith)
        requires
            g == d - e,
            du == d * u,
            eu == e * u,
    ;
    assert(0x100_0000 * (xf - du) <= xf + 0x100_0000 * f);
    assert(0xff_ffff * xf <= 0x100_0000 * du + 0x100_0000 * f);
    assert(0xff_ffff * hf <= 0xff_ffff * xf);
}

} // verus!
