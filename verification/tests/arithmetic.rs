//! The software arithmetic against the machine's own.
use rotaryclub::double::Double;
use rotaryclub::single::Single;
use rotaryclub::text;

fn s(x: f32) -> Single {
    Single::from_bits(x.to_bits())
}

fn d(x: f64) -> Double {
    Double::from_bits(x.to_bits())
}

/// The machine may give any NaN a sign or a payload; the library has one.
fn same_single(got: Single, wanted: f32) -> bool {
    if wanted.is_nan() {
        got.is_nan()
    } else {
        got.to_bits() == wanted.to_bits()
    }
}

fn same_double(got: Double, wanted: f64) -> bool {
    if wanted.is_nan() {
        got.is_nan()
    } else {
        got.to_bits() == wanted.to_bits()
    }
}

fn next(state: &mut u64) -> u64 {
    *state = state.wrapping_mul(6364136223846793005).wrapping_add(1442695040888963407);
    let x = *state ^ (*state >> 29);
    x.wrapping_mul(0xBF58476D1CE4E5B9) ^ (x >> 32)
}

/// Bit patterns of all sizes, with the special ones among them.
fn singles(count: usize) -> Vec<f32> {
    let mut v = vec![
        0.0,
        -0.0,
        1.0,
        -1.0,
        0.5,
        1.5,
        2.5,
        -2.5,
        360.0,
        f32::MAX,
        f32::MIN,
        f32::MIN_POSITIVE,
        f32::from_bits(1),
        f32::from_bits(0x007f_ffff),
        f32::INFINITY,
        f32::NEG_INFINITY,
        f32::NAN,
        16_777_216.0,
        8_388_607.5,
        f32::EPSILON,
    ];
    let mut state = 0x1234_5678_9abc_def0u64;
    while v.len() < count {
        let r = next(&mut state);
        v.push(f32::from_bits(r as u32));
        v.push(((r >> 40) as f32 / 8_388_608.0 - 1.0) * 2.0f32.powi((r % 40) as i32 - 20));
    }
    v
}

fn doubles(count: usize) -> Vec<f64> {
    let mut v = vec![
        0.0,
        -0.0,
        1.0,
        -1.0,
        0.5,
        2.5,
        f64::MAX,
        f64::MIN_POSITIVE,
        f64::from_bits(1),
        f64::INFINITY,
        f64::NEG_INFINITY,
        f64::NAN,
        9_007_199_254_740_992.0,
    ];
    let mut state = 0x0fed_cba9_8765_4321u64;
    while v.len() < count {
        let r = next(&mut state);
        v.push(f64::from_bits(r));
        v.push(((r >> 11) as f64 / 4_503_599_627_370_496.0 - 1.0) * 2.0f64.powi((r % 80) as i32 - 40));
    }
    v
}

#[test]
fn single_arithmetic_is_that_of_the_machine() {
    let v = singles(220);
    for &a in &v {
        for &b in &v {
            assert!(same_single(s(a).plus(s(b)), a + b), "{a:e} + {b:e}");
            assert!(same_single(s(a).minus(s(b)), a - b), "{a:e} - {b:e}");
            assert!(same_single(s(a).times(s(b)), a * b), "{a:e} * {b:e}");
            assert!(same_single(s(a).over(s(b)), a / b), "{a:e} / {b:e}");
            assert_eq!(s(a).less_than(s(b)), a < b);
            assert_eq!(s(a).at_most(s(b)), a <= b);
            assert_eq!(s(a).equals(s(b)), a == b);
        }
    }
}

#[test]
fn double_arithmetic_is_that_of_the_machine() {
    let v = doubles(220);
    for &a in &v {
        for &b in &v {
            assert!(same_double(d(a).plus(d(b)), a + b), "{a:e} + {b:e}");
            assert!(same_double(d(a).minus(d(b)), a - b), "{a:e} - {b:e}");
            assert!(same_double(d(a).times(d(b)), a * b), "{a:e} * {b:e}");
            assert!(same_double(d(a).over(d(b)), a / b), "{a:e} / {b:e}");
            assert_eq!(d(a).less_than(d(b)), a < b);
            assert_eq!(d(a).at_most(d(b)), a <= b);
        }
    }
}

#[test]
fn remainders_are_those_of_the_machine() {
    let v = singles(120);
    for &a in &v {
        for &b in &v {
            assert!(same_single(s(a).rem(s(b)), a % b), "{a:e} % {b:e}");
            assert!(
                same_single(s(a).rem_euclid(s(b)), a.rem_euclid(b)),
                "{a:e} rem_euclid {b:e}"
            );
        }
    }
    let w = doubles(60);
    for &a in &w {
        for &b in &w {
            assert!(same_double(d(a).rem(d(b)), a % b), "{a:e} % {b:e}");
        }
    }
}

#[test]
fn single_functions_are_those_of_the_machine() {
    for &a in &singles(4000) {
        assert!(same_single(s(a).sqrt(), a.sqrt()), "sqrt {a:e}");
        assert!(same_single(s(a).round(), a.round()), "round {a:e}");
        assert!(same_single(s(a).ceil(), a.ceil()), "ceil {a:e}");
        assert!(same_single(s(a).abs(), a.abs()), "abs {a:e}");
        assert!(same_single(s(a).negated(), -a), "neg {a:e}");
        assert_eq!(s(a).to_count(), a as usize, "count {a:e}");
        assert_eq!(s(a).ceil_count(), a.ceil() as usize, "ceil count {a:e}");
        assert_eq!(s(a).round_to_i64(), a.round() as i64, "round to integer {a:e}");
        assert!(same_double(Double::from_single(s(a)), a as f64), "widen {a:e}");
        assert_eq!(s(a).is_finite(), a.is_finite());
        assert_eq!(s(a).is_nan(), a.is_nan());
    }
}

#[test]
fn double_functions_are_those_of_the_machine() {
    for &a in &doubles(4000) {
        assert!(same_double(d(a).sqrt(), a.sqrt()), "sqrt {a:e}");
        assert!(same_double(d(a).round(), a.round()), "round {a:e}");
        assert!(same_double(d(a).abs(), a.abs()), "abs {a:e}");
        assert_eq!(d(a).to_count(), a as usize, "count {a:e}");
        assert_eq!(d(a).round_count(), a.round() as usize, "round to count {a:e}");
        assert!(same_single(d(a).to_single(), a as f32), "narrow {a:e}");
    }
}

#[test]
fn extremes_are_those_of_the_machine() {
    let v: Vec<f32> = singles(160).into_iter().filter(|x| !x.is_nan()).collect();
    for &a in &v {
        for &b in &v {
            if a == 0.0 && b == 0.0 {
                continue;
            }
            assert!(same_single(s(a).max(s(b)), a.max(b)), "max {a:e} {b:e}");
            assert!(same_single(s(a).min(s(b)), a.min(b)), "min {a:e} {b:e}");
            assert_eq!(
                s(a).total_less_than(s(b)),
                a.total_cmp(&b) == std::cmp::Ordering::Less
            );
        }
        assert!(same_single(s(a).clamp(s(-1.0), s(2.0)), a.clamp(-1.0, 2.0)));
        assert!(same_single(s(a).max(s(f32::NAN)), a));
        assert!(same_single(s(f32::NAN).min(s(a)), a));
    }
}

#[test]
fn integers_are_those_of_the_machine() {
    let mut state = 7u64;
    for i in 0..3000usize {
        let n = if i < 100 { i } else { next(&mut state) as usize >> (i % 60) };
        assert!(same_single(Single::from_count(n), n as f32), "{n}");
        assert!(same_double(Double::from_count(n), n as f64), "{n}");
        assert!(same_single(Single::from_index(-(n as i128)), -(n as i128) as f32));
        assert!(same_double(Double::from_index(-(n as i128)), -(n as i128) as f64));
    }
}

#[test]
fn decimals_are_those_of_the_machine() {
    for &a in &singles(1500) {
        for places in [0u32, 1, 2, 4, 6, 8] {
            let mut out = String::from("x");
            text::push_fixed(&mut out, s(a), places);
            assert_eq!(out, format!("x{:.*}", places as usize, a), "{a:e}");
        }
        let mut out = String::new();
        text::push_padded(&mut out, s(a), 1, 6);
        assert_eq!(out, format!("{a:>6.1}"));
    }
}

#[test]
fn halves_round_to_even_in_text() {
    let mut out = String::new();
    text::push_fixed(&mut out, s(0.125), 2);
    out.push(' ');
    text::push_fixed(&mut out, s(0.375), 2);
    out.push(' ');
    text::push_fixed(&mut out, s(2.5), 0);
    assert_eq!(out, "0.12 0.38 2");
}
