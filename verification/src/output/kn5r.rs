//! KN5R-RDF compatible "C" format output.
//!
//! Fixed-width 26-character format:
//! - Position 0: 'C' literal
//! - Positions 1-4: bearing angle × 10 (0-3599), zero-padded
//! - Positions 5-7: angle vector average magnitude (0-999), zero-padded
//! - Positions 8-10: FIR filtered Doppler tone peak value (0-999), zero-padded
//! - Positions 11-25: Unix timestamp in milliseconds, zero-padded
//!
//! Example: `C3469960084001663117493011` = 346.9°, magnitude 960, tone 084.
use crate::arithmetic;
use crate::constants;
use crate::ieee;
use crate::output;
use crate::output::{BearingOutput, Formatter};
use crate::signal_processing::agc;
use crate::single;
use crate::single::Single;
use crate::single_laws;
use crate::text;
use vstd::arithmetic::{div_mod, power2};
use vstd::prelude::*;

verus! {

/// Ten.
pub const TEN: u32 = 0x4120_0000;

/// Nine hundred and ninety-nine.
pub const MAX_FIELD: u32 = 0x4479_c000;

/// Digits of the time.
pub const TIME_DIGITS: u32 = 15;

/// The least time that takes more digits.
pub const TIME_LIMIT: u64 = 1_000_000_000_000_000;

/// The KN5R-RDF "C" sentence.
pub struct Kn5rFormatter;

/// A number as a 16-bit count: zero below, and the largest one above.
pub open spec fn to_short(x: Single) -> nat {
    if x.to_count_spec() > u16::MAX {
        u16::MAX as nat
    } else {
        x.to_count_spec()
    }
}

fn as_short(x: Single) -> (n: usize)
    ensures
        n == to_short(x),
{
    let n: usize = x.to_count();
    if n > u16::MAX as usize {
        u16::MAX as usize
    } else {
        n
    }
}

/// The bearing in tenths of a degree, within a turn.
pub open spec fn angle_field(o: BearingOutput) -> nat {
    to_short(o.bearing.times_spec(constants::of(TEN)).round_spec()) % 3600
}

/// The resultant length in thousandths.
pub open spec fn magnitude_field(o: BearingOutput) -> nat {
    to_short(
        o.resultant_length.clamp_spec(
            constants::of(0),
            constants::of(single::ONE_BITS),
        ).times_spec(constants::of(MAX_FIELD)).round_spec(),
    )
}

/// The tone peak in thousandths.
pub open spec fn peak_field(o: BearingOutput) -> nat {
    to_short(
        o.tone_peak.clamp_spec(constants::of(0), constants::of(single::ONE_BITS)).times_spec(
            constants::of(agc::THOUSAND),
        ).round_spec().min_spec(constants::of(MAX_FIELD)),
    )
}

/// A number with zeros ahead of it, up to a width.
pub open spec fn zero_padded(n: nat, width: nat) -> Seq<char> {
    if n < text::pow10(width) {
        text::last_digits(n, width)
    } else {
        text::decimal(n)
    }
}

/// The sentence for a bearing. A bearing that does not exist has none: a
/// clean-looking due north would stand in for it.
pub open spec fn sentence(o: BearingOutput, millis: nat) -> Seq<char> {
    if !o.bearing.finite() {
        Seq::empty()
    } else {
        "C"@ + zero_padded(angle_field(o), 4) + zero_padded(magnitude_field(o), 3) + zero_padded(
            peak_field(o),
            3,
        ) + zero_padded(millis, TIME_DIGITS as nat)
    }
}

proof fn powers_of_ten()
    ensures
        text::pow10(3) == 1000,
        text::pow10(4) == 10000,
        text::pow10(15) == TIME_LIMIT,
{
    reveal_with_fuel(text::pow10, 16);
}

fn push_zero_padded(s: &mut String, n: usize, width: u32, limit: usize)
    requires
        limit == text::pow10(width as nat),
        width <= 4,
    ensures
        final(s)@ == old(s)@ + zero_padded(n as nat, width as nat),
{
    if n < limit {
        text::push_last_digits(s, n as u128, width);
    } else {
        text::push_decimal(s, n as u128);
    }
}

impl Formatter for Kn5rFormatter {
    open spec fn line(&self, output: BearingOutput, stamp: Seq<char>, millis: nat) -> Seq<char> {
        sentence(output, millis)
    }

    open spec fn heading(&self) -> Option<Seq<char>> {
        None
    }

    fn format_at(&self, output: &BearingOutput, stamp: &str, millis: u64) -> (s: String) {
        if !output.bearing.is_finite() {
            let s: String = text::owned("");
            proof {
                reveal_strlit("");
            }
            assert(s@ =~= Seq::<char>::empty());
            return s;
        }
        let angle: usize = as_short(output.bearing.times(Single::from_bits(TEN)).round()) % 3600;
        // Both fields are carried in their own units and only scaled here.
        // The pipeline has no reason to know this format wants thousandths,
        // and every other output wants the unscaled value.
        let magnitude: usize = as_short(
            output.resultant_length.clamp(Single::zero(), Single::one()).times(
                Single::from_bits(MAX_FIELD),
            ).round(),
        );
        let tone_peak: usize = as_short(
            output.tone_peak.clamp(Single::zero(), Single::one()).times(
                Single::from_bits(agc::THOUSAND),
            ).round().min(Single::from_bits(MAX_FIELD)),
        );
        proof {
            powers_of_ten();
        }
        let mut s: String = text::owned("C");
        push_zero_padded(&mut s, angle, 4, 10000);
        push_zero_padded(&mut s, magnitude, 3, 1000);
        push_zero_padded(&mut s, tone_peak, 3, 1000);
        if millis < TIME_LIMIT {
            text::push_last_digits(&mut s, millis as u128, TIME_DIGITS);
        } else {
            text::push_decimal(&mut s, millis as u128);
        }
        s
    }

    fn format(&self, output: &BearingOutput) -> (s: String) {
        let millis: u64 = output::timestamp_millis();
        let s: String = self.format_at(output, "", millis);
        proof {
            output::some_stamp();
        }
        assert(s@ == self.line(*output, "1970-01-01T00:00:00.000Z"@, millis as nat));
        s
    }

    fn header(&self) -> (h: Option<&'static str>) {
        None
    }
}

/// A field has as many digits as it is wide.
proof fn field_width(n: nat, width: nat)
    requires
        n < text::pow10(width),
    ensures
        zero_padded(n, width).len() == width,
{
    text::last_digits_len(n, width);
}

/// The largest value of a field.
proof fn value_of_field_limit()
    ensures
        constants::of(MAX_FIELD).value() == 999 * power2::pow2(single::UNIT as nat),
        power2::pow2(single::UNIT as nat) == 2 * power2::pow2((single::UNIT - 1) as nat),
        power2::pow2((single::UNIT - 1) as nat) > 0,
{
    power2::lemma2_to64();
    power2::lemma2_to64_rest();
    power2::lemma_pow2_adds(14, 135);
    power2::lemma_pow2_unfold(149);
    power2::lemma_pow2_pos(148);
    assert(0x4479_c000nat / 0x80_0000nat == 136 && 0x4479_c000nat % 0x80_0000nat == 0x79_c000);
    let p = power2::pow2(135);
    assert((0x79_c000 + 0x80_0000) * p == 999 * (0x4000 * p)) by (nonlinear_arith);
}

/// A number up to the limit counts as one.
proof fn count_up_to_limit(x: Single)
    requires
        !x.nan(),
        x.rank() <= constants::of(MAX_FIELD).rank(),
    ensures
        to_short(x) <= 999,
{
    if !x.negative() {
        value_of_field_limit();
        single::rank_orders_values(x, constants::of(MAX_FIELD));
        let u = power2::pow2(single::UNIT as nat) as int;
        ieee::pattern_value_increases(single::HIDDEN as nat, 0, x.magnitude() as nat);
        div_mod::lemma_div_is_ordered(x.value(), 999 * u, u);
        div_mod::lemma_div_multiples_vanish(999, u);
        assert(u * 999 == 999 * u) by (nonlinear_arith);
    }
}

/// Rounding to an integer does not leave the limit.
proof fn round_up_to_limit(x: Single)
    requires
        !x.nan(),
        x.rank() <= constants::of(MAX_FIELD).rank(),
    ensures
        !x.round_spec().nan(),
        x.round_spec().rank() <= constants::of(MAX_FIELD).rank(),
{
    let h = single::HIDDEN as nat;
    let inf = single::INFINITE as nat;
    let n = x.nearest_integer();
    let u = power2::pow2(single::UNIT as nat);
    ieee::nearest_exists(h, inf, n * u, 1);
    if x.finite() && !x.negative() {
        value_of_field_limit();
        single::rank_orders_values(x, constants::of(MAX_FIELD));
        let v = power2::pow2((single::UNIT - 1) as nat) as int;
        ieee::pattern_value_increases(h, 0, x.magnitude() as nat);
        div_mod::lemma_div_is_ordered(x.value(), 1998 * v, v);
        div_mod::lemma_div_multiples_vanish(1998, v);
        assert(v * 1998 == 1998 * v) by (nonlinear_arith);
        assert(n <= 999);
        assert(n * u <= 999 * u) by (nonlinear_arith)
            requires
                n <= 999,
                u >= 0,
        ;
        ieee::nearest_at_most(h, inf, n * u, 1, MAX_FIELD as nat);
    }
}

/// The fields of the sentence stay within their width, whatever the numbers
/// are.
pub proof fn fields_fit(o: BearingOutput)
    ensures
        angle_field(o) < 3600,
        magnitude_field(o) <= 999,
        peak_field(o) <= 999,
{
    let zero = constants::of(0);
    let one = constants::of(single::ONE_BITS);
    let limit = constants::of(MAX_FIELD);
    let c = o.resultant_length.clamp_spec(zero, one);
    if !c.nan() {
        if c.negative() {
            assert(c == constants::of(single::SIGN_BIT));
            let h = single::HIDDEN as nat;
            let inf = single::INFINITE as nat;
            let d = power2::pow2(single::UNIT as nat);
            power2::lemma_pow2_pos(single::UNIT as nat);
            ieee::nearest_exists(
                h,
                inf,
                arithmetic::magnitude(c.value()) * arithmetic::magnitude(limit.value()),
                d,
            );
        } else {
            single_laws::times_in_order(c, one, limit);
            single_laws::one_times(limit);
        }
        round_up_to_limit(c.times_spec(limit));
        count_up_to_limit(c.times_spec(limit).round_spec());
    }
    count_up_to_limit(
        o.tone_peak.clamp_spec(zero, one).times_spec(
            constants::of(agc::THOUSAND),
        ).round_spec().min_spec(limit),
    );
}

/// A sentence is 26 characters wide, as long as the time takes no more than 15
/// digits.
pub proof fn sentence_is_fixed_width(o: BearingOutput, millis: nat)
    requires
        o.bearing.finite(),
        millis < TIME_LIMIT,
    ensures
        sentence(o, millis).len() == 26,
        sentence(o, millis)[0] == 'C',
{
    fields_fit(o);
    powers_of_ten();
    reveal_strlit("C");
    field_width(angle_field(o), 4);
    field_width(magnitude_field(o), 3);
    field_width(peak_field(o), 3);
    field_width(millis, TIME_DIGITS as nat);
}

} // verus!
