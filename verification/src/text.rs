//! Decimal text.
use crate::arithmetic;
use crate::single;
use crate::single::Single;
use vstd::arithmetic::{div_mod, power2};
use vstd::prelude::*;

verus! {

/// The decimal digit of a value below ten.
pub open spec fn digit(d: nat) -> char {
    (d + '0' as nat) as char
}

/// The decimal digits of a number, without leading zeros.
pub open spec fn decimal(n: nat) -> Seq<char>
    decreases n,
{
    if n < 10 {
        seq![digit(n)]
    } else {
        decimal(n / 10).push(digit(n % 10))
    }
}

/// The last `width` decimal digits of a number.
pub open spec fn last_digits(n: nat, width: nat) -> Seq<char>
    decreases width,
{
    if width == 0 {
        Seq::empty()
    } else {
        last_digits(n / 10, (width - 1) as nat).push(digit(n % 10))
    }
}

pub open spec fn pow10(p: nat) -> nat
    decreases p,
{
    if p == 0 {
        1
    } else {
        10 * pow10((p - 1) as nat)
    }
}

/// A number of units of `10^-places`, written out with that many decimals.
pub open spec fn fixed_point(n: nat, places: nat) -> Seq<char> {
    if places == 0 {
        decimal(n)
    } else {
        decimal(n / pow10(places)) + seq!['.'] + last_digits(n, places)
    }
}

/// The integer nearest to `n / d`, an even one winning a tie.
pub open spec fn half_even(n: nat, d: nat) -> nat {
    let q = n / d;
    let r = n % d;
    if 2 * r > d || (2 * r == d && q % 2 == 1) {
        q + 1
    } else {
        q
    }
}

/// A value with a number of decimals: the decimal fraction nearest to it, and
/// a minus sign ahead of every negative one, zero among them.
pub open spec fn fixed_text(x: Single, places: nat) -> Seq<char> {
    if x.nan() {
        seq!['N', 'a', 'N']
    } else {
        let sign = if x.negative() {
            seq!['-']
        } else {
            Seq::empty()
        };
        if x.infinite() {
            sign + seq!['i', 'n', 'f']
        } else {
            sign + fixed_point(
                half_even(
                    arithmetic::magnitude(x.value()) * pow10(places),
                    power2::pow2(single::UNIT as nat),
                ),
                places,
            )
        }
    }
}

fn digit_text(d: u128) -> (s: &'static str)
    requires
        d < 10,
    ensures
        s@ == seq![digit(d as nat)],
{
    proof {
        reveal_strlit("0");
        reveal_strlit("1");
        reveal_strlit("2");
        reveal_strlit("3");
        reveal_strlit("4");
        reveal_strlit("5");
        reveal_strlit("6");
        reveal_strlit("7");
        reveal_strlit("8");
        reveal_strlit("9");
    }
    if d == 0 {
        "0"
    } else if d == 1 {
        "1"
    } else if d == 2 {
        "2"
    } else if d == 3 {
        "3"
    } else if d == 4 {
        "4"
    } else if d == 5 {
        "5"
    } else if d == 6 {
        "6"
    } else if d == 7 {
        "7"
    } else if d == 8 {
        "8"
    } else {
        "9"
    }
}

/// Writes the decimal digits of a number at the end of a text.
pub fn push_decimal(out: &mut String, n: u128)
    ensures
        final(out)@ == old(out)@ + decimal(n as nat),
    decreases n,
{
    if n >= 10 {
        push_decimal(out, n / 10);
    }
    out.append(digit_text(n % 10));
    assert(out@ =~= old(out)@ + decimal(n as nat));
}

/// Writes the last `width` decimal digits of a number at the end of a text.
pub fn push_last_digits(out: &mut String, n: u128, width: u32)
    ensures
        final(out)@ == old(out)@ + last_digits(n as nat, width as nat),
    decreases width,
{
    if width > 0 {
        push_last_digits(out, n / 10, width - 1);
        out.append(digit_text(n % 10));
    }
    assert(out@ =~= old(out)@ + last_digits(n as nat, width as nat));
}

/// `10^places`.
fn power_of_ten(places: u32) -> (r: u128)
    requires
        places <= 9,
    ensures
        r == pow10(places as nat),
        1 <= r <= 1_000_000_000,
{
    let mut r: u128 = 1;
    let mut i: u32 = 0;
    proof {
        reveal_with_fuel(pow10, 11);
    }
    while i < places
        invariant
            i <= places <= 9,
            r == pow10(i as nat),
            r == 1 && i == 0 || r == 10 && i == 1 || r == 100 && i == 2 || r == 1_000 && i == 3
                || r == 10_000 && i == 4 || r == 100_000 && i == 5 || r == 1_000_000 && i == 6
                || r == 10_000_000 && i == 7 || r == 100_000_000 && i == 8 || r == 1_000_000_000
                && i == 9,
        decreases places - i,
    {
        r = r * 10;
        i = i + 1;
    }
    r
}

/// The last digits of a multiple of `10^width` are zeros.
proof fn last_digits_of_multiple(n: nat, width: nat)
    ensures
        last_digits(n * pow10(width), width) == last_digits(0, width),
    decreases width,
{
    if width > 0 {
        let p = pow10((width - 1) as nat);
        let x = n * pow10(width);
        assert(x == 10 * (n * p)) by (nonlinear_arith)
            requires
                x == n * pow10(width),
                pow10(width) == 10 * p,
        ;
        last_digits_of_multiple(n, (width - 1) as nat);
    }
}

/// Writes a number of units of `10^-places` at the end of a text.
fn push_fixed_point(out: &mut String, n: u128, places: u32)
    requires
        places <= 9,
    ensures
        final(out)@ == old(out)@ + fixed_point(n as nat, places as nat),
{
    if places == 0 {
        push_decimal(out, n);
        return;
    }
    let p: u128 = power_of_ten(places);
    push_decimal(out, n / p);
    proof {
        reveal_strlit(".");
    }
    out.append(".");
    push_last_digits(out, n, places);
    assert(out@ =~= old(out)@ + fixed_point(n as nat, places as nat));
}

/// `m * 2^d`.
fn scaled_up(m: u128, d: u32) -> (r: u128)
    requires
        m < 0x100_0000,
        d <= 104,
    ensures
        r == m * power2::pow2(d as nat),
{
    let mut r: u128 = m;
    let mut i: u32 = 0;
    proof {
        power2::lemma2_to64();
        power2::lemma2_to64_rest();
        power2::lemma_pow2_adds(64, 40);
        assert(m * power2::pow2(0) == m) by (nonlinear_arith)
            requires
                power2::pow2(0) == 1,
        ;
    }
    while i < d
        invariant
            i <= d <= 104,
            m < 0x100_0000,
            r == m * power2::pow2(i as nat),
            power2::pow2(104) == 0x100_0000_0000_0000_0000_0000_0000,
        decreases d - i,
    {
        let ghost a = power2::pow2(i as nat);
        proof {
            power2::lemma_pow2_unfold((i + 1) as nat);
            if i + 1 < 104 {
                power2::lemma_pow2_strictly_increases((i + 1) as nat, 104);
            }
            assert(m * (2 * a) == 2 * (m * a)) by (nonlinear_arith);
            assert(m * (2 * a) <= 0xff_ffff * 0x100_0000_0000_0000_0000_0000_0000)
                by (nonlinear_arith)
                requires
                    0 <= m <= 0xff_ffff,
                    0 <= 2 * a <= 0x100_0000_0000_0000_0000_0000_0000,
            ;
        }
        r = r * 2;
        i = i + 1;
    }
    r
}

/// Writes a value with a number of decimals at the end of a text.
pub fn push_fixed(out: &mut String, x: Single, places: u32)
    requires
        places <= 9,
    ensures
        final(out)@ == old(out)@ + fixed_text(x, places as nat),
{
    proof {
        reveal_strlit("NaN");
        reveal_strlit("inf");
        reveal_strlit("-");
    }
    if x.is_nan() {
        out.append("NaN");
        assert(out@ =~= old(out)@ + fixed_text(x, places as nat));
        return;
    }
    if x.is_negative() {
        out.append("-");
    }
    if x.is_infinite() {
        out.append("inf");
        assert(out@ =~= old(out)@ + fixed_text(x, places as nat));
        return;
    }
    let ghost signed = out@;
    let ghost v = arithmetic::magnitude(x.value());
    let ghost unit = power2::pow2(single::UNIT as nat);
    let ghost units = half_even(v * pow10(places as nat), unit);
    let (m, j) = arithmetic::unpack(single::HIDDEN, x.abs().to_bits() as u64);
    let p: u128 = power_of_ten(places);
    proof {
        power2::lemma_pow2_pos(single::UNIT as nat);
    }
    if j >= single::UNIT {
        assert(j <= 253) by (nonlinear_arith)
            requires
                x.abs_spec().bits == j * 0x80_0000 + m,
                x.abs_spec().bits < 0x7f80_0000,
                j == 0 || m >= 0x80_0000,
        ;
        let whole: u128 = scaled_up(m as u128, j - single::UNIT);
        push_decimal(out, whole);
        proof {
            let c = power2::pow2((j - single::UNIT) as nat);
            power2::lemma_pow2_adds((j - single::UNIT) as nat, single::UNIT as nat);
            let total = (whole * p) as nat;
            assert(v * pow10(places as nat) == total * unit) by (nonlinear_arith)
                requires
                    v == m * (c * unit),
                    whole == m * c,
                    total == whole * p,
                    p == pow10(places as nat),
            ;
            div_mod::lemma_fundamental_div_mod_converse(
                (total * unit) as int,
                unit as int,
                total as int,
                0,
            );
            assert(units == total);
            div_mod::lemma_div_by_multiple(whole as int, p as int);
            last_digits_of_multiple(whole as nat, places as nat);
        }
        if places > 0 {
            proof {
                reveal_strlit(".");
            }
            out.append(".");
            push_last_digits(out, 0, places);
        } else {
            assert(whole * p == whole) by (nonlinear_arith)
                requires
                    p == 1,
            ;
        }
    } else {
        let t: u32 = single::UNIT - j;
        assert((m as u128) * p < 0x100_0000 * 1_000_000_001) by (nonlinear_arith)
            requires
                0 <= m < 0x100_0000,
                1 <= p <= 1_000_000_000,
        ;
        let num: u128 = (m as u128) * p;
        let n: u128 = half_even_shift(num, t);
        proof {
            let pj = power2::pow2(j as nat);
            power2::lemma_pow2_pos(j as nat);
            power2::lemma_pow2_pos(t as nat);
            power2::lemma_pow2_adds(j as nat, t as nat);
            assert(v * pow10(places as nat) == pj * num) by (nonlinear_arith)
                requires
                    v == m * pj,
                    num == m * p,
                    p == pow10(places as nat),
            ;
            half_even_scales(num as nat, power2::pow2(t as nat), pj);
        }
        push_fixed_point(out, n, places);
    }
    assert(out@ =~= old(out)@ + fixed_text(x, places as nat));
}

proof fn half_even_scales(n: nat, d: nat, p: nat)
    requires
        d > 0,
        p > 0,
    ensures
        half_even(p * n, p * d) == half_even(n, d),
{
    div_mod::lemma_truncate_middle(n as int, p as int, d as int);
    div_mod::lemma_fundamental_div_mod(n as int, d as int);
    div_mod::lemma_mod_bound(n as int, d as int);
    let q = n / d;
    let r = n % d;
    assert(p * n == q * (p * d) + p * r) by (nonlinear_arith)
        requires
            n == d * q + r,
    ;
    assert(0 <= p * r < p * d) by (nonlinear_arith)
        requires
            0 <= r < d,
            p > 0,
    ;
    div_mod::lemma_fundamental_div_mod_converse(
        (p * n) as int,
        (p * d) as int,
        q as int,
        (p * r) as int,
    );
    assert(2 * r > d <==> 2 * (p * r) > p * d) by (nonlinear_arith)
        requires
            p > 0,
    ;
    assert(2 * r == d <==> 2 * (p * r) == p * d) by (nonlinear_arith)
        requires
            p > 0,
    ;
}

/// The integer nearest to `n / 2^t`, an even one winning a tie.
fn half_even_shift(n: u128, t: u32) -> (r: u128)
    requires
        n < 0x100_0000_0000_0000,
        0 < t <= 149,
    ensures
        r == half_even(n as nat, power2::pow2(t as nat)),
{
    let ghost d = power2::pow2(t as nat);
    proof {
        power2::lemma2_to64();
        power2::lemma2_to64_rest();
        power2::lemma_pow2_pos(t as nat);
    }
    if t >= 60 {
        proof {
            if t > 60 {
                power2::lemma_pow2_strictly_increases(60, t as nat);
            }
            div_mod::lemma_fundamental_div_mod_converse(n as int, d as int, 0, n as int);
        }
        return 0;
    }
    let one: u128 = scaled_up(1, t);
    assert(one == d) by (nonlinear_arith)
        requires
            one == 1 * d,
    ;
    proof {
        power2::lemma_pow2_strictly_increases(t as nat, 60);
    }
    let q: u128 = n / one;
    let r: u128 = n % one;
    assert(q <= n) by {
        div_mod::lemma_div_is_ordered_by_denominator(n as int, 1, one as int);
    }
    if 2 * r > one || (2 * r == one && q % 2 == 1) {
        q + 1
    } else {
        q
    }
}

/// Unicode white space.
pub open spec fn is_space(c: char) -> bool {
    ||| '\u{9}' <= c <= '\u{d}'
    ||| c == ' '
    ||| c == '\u{85}'
    ||| c == '\u{a0}'
    ||| c == '\u{1680}'
    ||| '\u{2000}' <= c <= '\u{200a}'
    ||| c == '\u{2028}'
    ||| c == '\u{2029}'
    ||| c == '\u{202f}'
    ||| c == '\u{205f}'
    ||| c == '\u{3000}'
}

fn space(c: char) -> (b: bool)
    ensures
        b == is_space(c),
{
    ('\u{9}' <= c && c <= '\u{d}') || c == ' ' || c == '\u{85}' || c == '\u{a0}' || c == '\u{1680}'
        || ('\u{2000}' <= c && c <= '\u{200a}') || c == '\u{2028}' || c == '\u{2029}' || c
        == '\u{202f}' || c == '\u{205f}' || c == '\u{3000}'
}

/// Where a text begins once the white space ahead of it is gone.
pub open spec fn space_ahead(s: Seq<char>) -> nat
    decreases s.len(),
{
    if s.len() > 0 && is_space(s[0]) {
        1 + space_ahead(s.skip(1))
    } else {
        0
    }
}

/// The text up to its last character that is not white space.
pub open spec fn trim_end(s: Seq<char>) -> Seq<char>
    decreases s.len(),
{
    if s.len() > 0 && is_space(s.last()) {
        trim_end(s.drop_last())
    } else {
        s
    }
}

/// The text without white space at either end.
pub open spec fn trimmed(s: Seq<char>) -> Seq<char> {
    trim_end(s.skip(space_ahead(s) as int))
}

/// The text without white space at either end.
pub fn trim(s: &str) -> (r: &str)
    ensures
        r@ == trimmed(s@),
{
    let n: usize = s.unicode_len();
    let mut lo: usize = 0;
    assert(s@.skip(0) =~= s@);
    while lo < n && space(s.get_char(lo))
        invariant
            lo <= n,
            n == s@.len(),
            space_ahead(s@) == lo + space_ahead(s@.skip(lo as int)),
        decreases n - lo,
    {
        assert(s@.skip(lo as int).skip(1) =~= s@.skip(lo + 1));
        lo = lo + 1;
    }
    assert(space_ahead(s@.skip(lo as int)) == 0);
    let ghost rest = s@.skip(lo as int);
    let mut hi: usize = n;
    assert(s@.subrange(lo as int, n as int) =~= rest);
    while hi > lo && space(s.get_char(hi - 1))
        invariant
            lo <= hi <= n,
            n == s@.len(),
            trim_end(s@.subrange(lo as int, hi as int)) == trim_end(rest),
        decreases hi,
    {
        assert(s@.subrange(lo as int, hi as int).drop_last() =~= s@.subrange(
            lo as int,
            hi - 1,
        ));
        hi = hi - 1;
    }
    s.substring_char(lo, hi)
}

pub open spec fn ends_with(s: Seq<char>, suffix: Seq<char>) -> bool {
    s.len() >= suffix.len() && s.skip(s.len() - suffix.len()) == suffix
}

/// The text ahead of a suffix, where it has that suffix.
pub fn strip_suffix<'a>(s: &'a str, suffix: &str) -> (r: Option<&'a str>)
    ensures
        match r {
            Some(front) => ends_with(s@, suffix@) && front@ == s@.take(s@.len() - suffix@.len()),
            None => !ends_with(s@, suffix@),
        },
{
    let n: usize = s.unicode_len();
    let k: usize = suffix.unicode_len();
    if k > n {
        return None;
    }
    let mut i: usize = 0;
    while i < k
        invariant
            i <= k <= n,
            n == s@.len(),
            k == suffix@.len(),
            forall|j: int| 0 <= j < i ==> s@[n - k + j] == suffix@[j],
        decreases k - i,
    {
        if s.get_char(n - k + i) != suffix.get_char(i) {
            assert(s@.skip(n - k)[i as int] != suffix@[i as int]);
            return None;
        }
        i = i + 1;
    }
    assert(s@.skip(n - k) =~= suffix@);
    Some(s.substring_char(0, n - k))
}

/// A text of its own.
pub fn owned(s: &str) -> (r: String)
    ensures
        r@ == s@,
{
    s.to_owned()
}

/// A text with spaces ahead of it, up to a width.
pub open spec fn padded(s: Seq<char>, width: nat) -> Seq<char>
    decreases width,
{
    if s.len() >= width {
        s
    } else {
        seq![' '] + padded(s, (width - 1) as nat)
    }
}

/// Spaces, as many as a width has beyond a length.
spec fn spaces(n: nat) -> Seq<char> {
    Seq::new(n, |i: int| ' ')
}

proof fn padded_is_spaces(s: Seq<char>, width: nat)
    ensures
        padded(s, width) == spaces(if width > s.len() { (width - s.len()) as nat } else { 0 }) + s,
    decreases width,
{
    if s.len() < width {
        padded_is_spaces(s, (width - 1) as nat);
        assert(padded(s, width) =~= spaces((width - s.len()) as nat) + s);
    } else {
        assert(spaces(0) + s =~= s);
    }
}

/// Writes a value with a number of decimals at the end of a text, with spaces
/// ahead of it up to a width.
pub fn push_padded(out: &mut String, x: Single, places: u32, width: usize)
    requires
        places <= 9,
    ensures
        final(out)@ == old(out)@ + padded(fixed_text(x, places as nat), width as nat),
{
    let mut number: String = owned("");
    push_fixed(&mut number, x, places);
    proof {
        reveal_strlit("");
        reveal_strlit(" ");
        padded_is_spaces(fixed_text(x, places as nat), width as nat);
    }
    assert(number@ =~= fixed_text(x, places as nat));
    let n: usize = number.as_str().unicode_len();
    let mut i: usize = n;
    while i < width
        invariant
            n <= i,
            n == number@.len(),
            i <= width || i == n,
            " "@ == seq![' '],
            out@ == old(out)@ + spaces((i - n) as nat),
        decreases width - i,
    {
        let ghost before = out@;
        out.append(" ");
        i = i + 1;
        assert(out@ =~= old(out)@ + spaces((i - n) as nat));
    }
    out.append(number.as_str());
    assert(out@ =~= old(out)@ + padded(fixed_text(x, places as nat), width as nat));
}

/// Whether every character of a text belongs to a decimal number.
pub open spec fn is_number_text(s: Seq<char>) -> bool {
    forall|i: int| 0 <= i < s.len() ==> #[trigger] is_number_char(s[i])
}

pub open spec fn is_number_char(c: char) -> bool {
    '0' <= c <= '9' || c == '.' || c == '-'
}

/// Decimal digits are digits.
proof fn decimal_is_digits(n: nat)
    ensures
        is_number_text(decimal(n)),
        decimal(n).len() > 0,
    decreases n,
{
    if n >= 10 {
        decimal_is_digits(n / 10);
    }
}

proof fn last_digits_are_digits(n: nat, width: nat)
    ensures
        is_number_text(last_digits(n, width)),
        last_digits(n, width).len() == width,
    decreases width,
{
    if width > 0 {
        last_digits_are_digits(n / 10, (width - 1) as nat);
    }
}

/// A finite value with a number of decimals is written with the characters of
/// a decimal number, and there is at least one.
pub proof fn finite_is_number_text(x: Single, places: nat)
    requires
        x.finite(),
    ensures
        is_number_text(fixed_text(x, places)),
        fixed_text(x, places).len() > 0,
{
    let n = half_even(
        arithmetic::magnitude(x.value()) * pow10(places),
        power2::pow2(single::UNIT as nat),
    );
    decimal_is_digits(n);
    decimal_is_digits(n / pow10(places));
    last_digits_are_digits(n, places);
}

/// As many digits as are asked for.
pub proof fn last_digits_len(n: nat, width: nat)
    ensures
        last_digits(n, width).len() == width,
{
    last_digits_are_digits(n, width);
}

/// Whether two texts are the same.
pub fn same(a: &str, b: &str) -> (r: bool)
    ensures
        r == (a@ == b@),
{
    let n: usize = a.unicode_len();
    if n != b.unicode_len() {
        return false;
    }
    let mut i: usize = 0;
    while i < n
        invariant
            i <= n,
            n == a@.len(),
            n == b@.len(),
            forall|j: int| 0 <= j < i ==> a@[j] == b@[j],
        decreases n - i,
    {
        if a.get_char(i) != b.get_char(i) {
            return false;
        }
        i = i + 1;
    }
    assert(a@ =~= b@);
    true
}

} // verus!
