//! What lost samples do to the oscillator.
use crate::arithmetic;
use crate::close;
use crate::constants;
use crate::double;
use crate::double::Double;
use crate::double_laws;
use crate::double_laws::apart;
use crate::ieee;
use crate::rdf::loop_laws;
use crate::rdf::rolling_laws;
use crate::rdf::rotation_loop;
use crate::rdf::rotation_loop::LoopState;
use crate::rdf::steering_laws;
use crate::single;
use crate::single_laws;
use vstd::arithmetic::power2;
use vstd::prelude::*;

verus! {

/// A full turn in double precision lies between six and seven, and agrees with
/// pi to seven digits.
pub proof fn double_turn_in_units()
    ensures
        ({
            let t = Double { bits: constants::TWO_PI_DOUBLE };
            &&& t.finite()
            &&& !t.negative()
            &&& 6283185 * rolling_laws::double_unit() <= 1000000 * t.value()
            &&& 1000000 * t.value() <= 6283186 * rolling_laws::double_unit()
        }),
{
    let h = double::HIDDEN as nat;
    power2::lemma2_to64();
    power2::lemma2_to64_rest();
    ieee::pattern_parts(h, 1024, 0x19_21fb_5444_2d18);
    power2::lemma_pow2_adds(50, 1024);
    power2::lemma_pow2_pos(1024);
    let p = power2::pow2(1024) as int;
    assert(power2::pow2(50) == 0x4_0000_0000_0000);
    assert((Double { bits: constants::TWO_PI_DOUBLE }).value() == 0x19_21fb_5444_2d18 * p);
    assert(rolling_laws::double_unit() == 0x4_0000_0000_0000 * p);
}

/// Whether a phase is where a rotation has taken it, but for `k` turns of the
/// one and `j` of the other precision, and a tolerance.
pub open spec fn taken_to(
    after: int,
    before: int,
    way: int,
    turn: int,
    short_turn: int,
    tolerance: int,
    k: int,
    j: int,
) -> bool {
    -tolerance <= 0x80_0000 * (after - (before + way) + k * turn + j * short_turn) <= tolerance
}

/// The oscillator turns on over lost samples: its phase moves by the frequency
/// for each of them, but for whole turns and a few roundings. Nothing else of
/// the rotation changes.
pub proof fn rotation_goes_on_over_a_gap(s: LoopState, samples: int)
    requires
        close::amount(s.phase),
        single_laws::within(s.phase, 152),
        single_laws::between(s.frequency, 119, 169),
        0 <= samples <= 0x100_0000_0000,
    ensures
        s.skipped(samples).frequency == s.frequency,
        s.skipped(samples).rates == s.rates,
        s.skipped(samples).errors == s.errors,
        s.skipped(samples).measured == s.measured,
        exists|k: int, j: int|
            #[trigger] taken_to(
                s.skipped(samples).phase.value() * rolling_laws::widening(),
                s.phase.value() * rolling_laws::widening(),
                (s.frequency.value() * rolling_laws::widening()) * samples,
                (Double { bits: constants::TWO_PI_DOUBLE }).value(),
                constants::of(constants::TWO_PI).value() * rolling_laws::widening(),
                64 * rolling_laws::double_unit() + (s.frequency.value()
                    * rolling_laws::widening()) * samples,
                k,
                j,
            ),
{
    let g = rolling_laws::widening();
    let du = rolling_laws::double_unit();
    let u = close::unit();
    let h = double::HIDDEN as nat;
    let inf = double::INFINITE as nat;
    let full = Double { bits: constants::TWO_PI_DOUBLE };
    let turn = constants::of(constants::TWO_PI);
    let f = s.frequency;
    power2::lemma2_to64();
    power2::lemma_pow2_pos(double::WIDENING as nat);
    power2::lemma_pow2_pos(double::UNIT as nat);
    power2::lemma_pow2_pos(single::UNIT as nat);
    power2::lemma_pow2_adds(single::UNIT as nat, double::WIDENING as nat);
    assert(du == u * g);
    power2::lemma_pow2_strictly_increases(30, single::UNIT as nat);
    assert(du >= 0x4000_0000 * g) by (nonlinear_arith)
        requires
            du == u * g,
            u >= 0x4000_0000,
            g > 0,
    ;
    close::pi_in_units();
    loop_laws::turn_between();
    double_turn_in_units();
    close::between_is_amount(f, 119, 169);
    close::amount_has_value(s.phase);
    // The product.
    let wide = Double::from_single_spec(f);
    let count = Double::from_count_spec(samples as nat);
    double_laws::widening_is_exact(f);
    double_laws::count_is_exact(samples as nat);
    let fg = f.value() * g;
    assert(fg >= double::HIDDEN) by {
        power2::lemma2_to64_rest();
        power2::lemma_pow2_adds(119, double::WIDENING as nat);
        power2::lemma_pow2_strictly_increases(52, 1044);
        assert(fg >= power2::pow2(119) * g) by (nonlinear_arith)
            requires
                fg == f.value() * g,
                f.value() >= power2::pow2(119),
                g > 0,
        ;
    }
    double_laws::product_is_close(wide, count, samples, 1202);
    let x = wide.times_spec(count);
    let way = fg * samples;
    assert(way >= 0) by (nonlinear_arith)
        requires
            way == fg * samples,
            fg >= 0,
            samples >= 0,
    ;
    product_sign(wide, count);
    // The remainder.
    let v = full.value();
    let m = x.value();
    vstd::arithmetic::div_mod::lemma_fundamental_div_mod(m, v);
    vstd::arithmetic::div_mod::lemma_mod_bound(m, v);
    let n = (m % v) as nat;
    let k = m / v;
    assert(v * k == k * v) by (nonlinear_arith);
    let rest = x.rem_euclid_spec(full);
    remainder_of_amount(x, full);
    let r = rest.value();
    // In single precision.
    power2::lemma_pow2_adds(3, double::UNIT as nat);
    power2::lemma_pow2_strictly_increases(1077, 1190);
    double_laws::narrowing_is_close(rest);
    let adv = rest.to_single_spec();
    rolling_laws::narrowed_is_amount(rest);
    let a = adv.value() * g;
    // Added to the phase.
    power2::lemma_pow2_adds(3, 149);
    let av = adv.value();
    assert(av <= 8 * u) by {
        assert(a <= 7 * du);
        assert(av <= 7 * u) by (nonlinear_arith)
            requires
                av * g <= 7 * du,
                du == u * g,
                g > 0,
        ;
    }
    single_laws::within_values(adv, 152);
    single_laws::within_values(s.phase, 152);
    single_laws::sum_within(s.phase, adv, 152);
    steering_laws::sum_is_off(s.phase, adv);
    let t = s.phase.plus_spec(adv);
    close::remainder_keeps_place(t, turn);
    let after = rotation_loop::wrap_phase_spec(t);
    let tv = turn.value();
    let j = choose|j: int| #[trigger]
        close::by_turns(
            0x80_0000 * after.value(),
            0x80_0000 * t.value(),
            0x80_0000 * tv,
            tv,
            j,
        );
    assert(s.skipped(samples).phase == after);
    gap_in_units(
        after.value(),
        t.value(),
        s.phase.value(),
        av,
        tv,
        j,
        u,
        g,
        du,
        r,
        m,
        v,
        k,
        way,
    );
    assert(taken_to(
        after.value() * g,
        s.phase.value() * g,
        way,
        v,
        tv * g,
        64 * du + way,
        k,
        -j,
    ));
}

/// A product of amounts is an amount.
proof fn product_sign(a: Double, b: Double)
    requires
        a.finite(),
        b.finite(),
        !a.negative(),
        b.value() >= 0,
        a.times_spec(b).finite(),
    ensures
        a.times_spec(b).value() >= 0,
{
    let h = double::HIDDEN as nat;
    let inf = double::INFINITE as nat;
    let x = arithmetic::magnitude(a.value());
    let y = arithmetic::magnitude(b.value());
    let d = power2::pow2(double::UNIT as nat);
    power2::lemma_pow2_pos(double::UNIT as nat);
    ieee::nearest_exists(h, inf, x * y, d);
    ieee::pattern_value_increases(h, 0, ieee::nearest(h, inf, x * y, d));
    ieee::pattern_value_increases(h, 0, b.magnitude() as nat);
    if b.negative() {
        assert(y == 0);
        assert(x * y == 0) by (nonlinear_arith)
            requires
                y == 0,
        ;
        assert(0 * d == 0);
        ieee::nearest_of_value(h, inf, 0, d, 0);
        ieee::pattern_parts(h, 0, 0);
    }
}

/// The remainder of an amount is where the amount is, but for whole turns and
/// one rounding.
proof fn remainder_of_amount(x: Double, m: Double)
    requires
        x.finite(),
        x.value() >= 0,
        m.finite(),
        !m.negative(),
        m.value() > 0,
        m.value() <= 7 * rolling_laws::double_unit(),
    ensures
        ({
            let r = x.rem_euclid_spec(m);
            let left = x.value() % m.value();
            &&& r.finite()
            &&& 0 <= r.value() <= m.value()
            &&& double_laws::within(r, 1077)
            &&& 0x20_0000_0000_0000 * apart(r.value(), left) <= m.value()
        }),
{
    let h = double::HIDDEN as nat;
    let inf = double::INFINITE as nat;
    let zero = Double { bits: 0 };
    let v = m.value();
    ieee::pattern_value_increases(h, 0, x.magnitude() as nat);
    ieee::pattern_value_increases(h, 0, m.magnitude() as nat);
    ieee::pattern_parts(h, 0, 0);
    assert(m.magnitude() > 0);
    let n = (x.value() % v) as nat;
    vstd::arithmetic::div_mod::lemma_mod_bound(x.value(), v);
    assert(arithmetic::magnitude(x.value()) == x.value());
    ieee::nearest_exists(h, inf, n, 1);
    ieee::nearest_at_most(h, inf, n, 1, m.magnitude() as nat);
    ieee::nearest_integer_is_close(h, inf, n);
    let b = ieee::nearest(h, inf, n, 1);
    ieee::pattern_value_increases(h, b, m.magnitude() as nat);
    ieee::pattern_value_increases(h, 0, b);
    let y = ieee::pattern_value(h, b) as int;
    assert(2 * h == 0x20_0000_0000_0000);
    let r = x.rem_spec(m);
    assert(r.magnitude() == b && r.finite());
    if x.negative() {
        assert(x.value() == 0);
        vstd::arithmetic::div_mod::lemma_small_mod(0, v as nat);
        assert(n == 0);
        ieee::nearest_of_held(h, inf, 0);
    }
    double_laws::rank_orders_values(r, zero);
    assert(!r.lt_spec(zero));
    power2::lemma2_to64();
    power2::lemma_pow2_adds(3, double::UNIT as nat);
}

proof fn gap_in_units(
    after: int,
    t: int,
    phase: int,
    adv: int,
    turn: int,
    j: int,
    u: int,
    g: int,
    du: int,
    r: int,
    m: int,
    v: int,
    k: int,
    way: int,
)
    requires
        g > 0,
        u > 0,
        du == u * g,
        du >= 0x4000_0000 * g,
        0 <= phase <= 8 * u,
        0 <= adv <= 8 * u,
        0 <= turn <= 7 * u,
        close::by_turns(0x80_0000 * after, 0x80_0000 * t, 0x80_0000 * turn, turn, j),
        0x80_0000 * steering_laws::distance(t, phase + adv) <= steering_laws::distance(
            phase + adv,
            0,
        ),
        0 <= r <= v,
        v <= 7 * du,
        0xff_ffff * apart(adv * g, r) <= r + 0x100_0000 * g,
        0x20_0000_0000_0000 * apart(r, m - k * v) <= v,
        0x20_0000_0000_0000 * apart(m, way) <= m,
        way >= 0,
    ensures
        taken_to(after * g, phase * g, way, v, turn * g, 64 * du + way, k, -j),
{
    let (ag, tg, pg, dg, ug) = (after * g, t * g, phase * g, adv * g, turn * g);
    let p = 0x80_0000 * turn;
    let jp = j * p;
    // The wrap and the sum, scaled.
    let x = 0x80_0000 * after - 0x80_0000 * t - jp;
    assert(-ug <= x * g <= ug) by (nonlinear_arith)
        requires
            -turn <= x <= turn,
            ug == turn * g,
            g > 0,
    ;
    let ju = j * ug;
    assert(x * g == 0x80_0000 * ag - 0x80_0000 * tg - 0x80_0000 * ju) by (nonlinear_arith)
        requires
            x == 0x80_0000 * after - 0x80_0000 * t - jp,
            jp == j * p,
            p == 0x80_0000 * turn,
            ag == after * g,
            tg == t * g,
            ug == turn * g,
            ju == j * ug,
    ;
    let d = t - (phase + adv);
    let e = phase + adv;
    assert(-(e * g) <= 0x80_0000 * (d * g) <= e * g) by (nonlinear_arith)
        requires
            -e <= 0x80_0000 * d <= e,
            g > 0,
    ;
    assert(d * g == tg - pg - dg && e * g == pg + dg) by (nonlinear_arith)
        requires
            d == t - (phase + adv),
            e == phase + adv,
            tg == t * g,
            pg == phase * g,
            dg == adv * g,
    ;
    assert(pg <= 8 * du && dg <= 8 * du && ug <= 7 * du) by (nonlinear_arith)
        requires
            pg == phase * g,
            dg == adv * g,
            ug == turn * g,
            phase <= 8 * u,
            adv <= 8 * u,
            turn <= 7 * u,
            du == u * g,
            g > 0,
    ;
    let kv = k * v;
    assert(0x80_0000 * apart(dg, r) <= 8 * du);
    assert(0x80_0000 * apart(r, m - kv) <= du);
    assert(0x80_0000 * apart(m, way) <= way);
    assert((-j) * ug == -ju) by (nonlinear_arith)
        requires
            ju == j * ug,
    ;
    assert(0x80_0000 * (ag - (pg + way) + kv - ju) <= 64 * du + way);
}

} // verus!
