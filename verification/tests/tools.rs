//! The tools and the test signals.
use rotaryclub::config::{BearingMethod, ChannelRole, NorthPulseEstimator, RdfConfig};
use rotaryclub::double::Double;
use rotaryclub::fields;
use rotaryclub::processing::TickResult;
use rotaryclub::rdf::bearing::{BearingMeasurement, ConfidenceMetrics};
use rotaryclub::rdf::north_ref::NorthTick;
use rotaryclub::simulation::measure;
use rotaryclub::simulation::noise;
use rotaryclub::simulation::noise::{FadingSection, FadingType, NoiseArguments, NoiseFile};
use rotaryclub::simulation::signal;
use rotaryclub::simulation::signal::SignalImpairment;
use rotaryclub::single::Single;
use rotaryclub::tools::analyze;
use rotaryclub::tools::analyze::{CollectedTick, FileAnalysis, SeriesSummaries, StatsSummary, TrimOptions};
use rotaryclub::tools::compare;
use rotaryclub::tools::generate;
use rotaryclub::tools::generate::Request;
use rotaryclub::tools::highpass;
use rotaryclub::tools::report;
use rotaryclub::tools::report::Stream;
use rotaryclub::tools::settings::Key;
use rotaryclub::tools::statistics;
use rotaryclub::tools::sweep;
use rotaryclub::tools::sweep::{Axis, AxisValue, Stimulus};
use rotaryclub::tools::trials;
use rotaryclub::tools::trials::NoiseKind;

fn s(x: f32) -> Single {
    Single::from_bits(x.to_bits())
}

fn f(x: Single) -> f32 {
    f32::from_bits(x.to_bits())
}

fn d(x: f64) -> Double {
    Double::from_bits(x.to_bits())
}

fn g(x: Double) -> f64 {
    f64::from_bits(x.to_bits())
}

fn number(text: &str) -> Option<Single> {
    text.parse::<f32>().ok().map(s)
}

fn parse_bearings(text: &str) -> Result<Vec<f32>, String> {
    let bearings = match generate::split_bearings(text)? {
        Request::Steps(ends, step) => {
            let ends: Vec<Option<Single>> = ends.iter().map(|e| number(e)).collect();
            generate::expand_range(&ends, number(&step))?
        }
        Request::Items(items) => {
            let items: Vec<Option<Single>> = items.iter().map(|i| number(i)).collect();
            generate::list_bearings(&items)?
        }
    };
    Ok(bearings.into_iter().map(f).collect())
}

#[test]
fn test_parse_bearings_comma_separated() {
    let bearings = parse_bearings("45,90,180").unwrap();
    assert_eq!(bearings, vec![45.0, 90.0, 180.0]);
}

#[test]
fn test_parse_bearings_range() {
    let bearings = parse_bearings("0-90:30").unwrap();
    assert_eq!(bearings, vec![0.0, 30.0, 60.0, 90.0]);
}

#[test]
fn test_parse_bearings_range_full_circle() {
    let bearings = parse_bearings("0-360:90").unwrap();
    assert_eq!(bearings, vec![0.0, 90.0, 180.0, 270.0, 360.0]);
}

#[test]
fn bearings_that_make_no_sense_are_refused() {
    let refusal = |t: &str| parse_bearings(t).unwrap_err();
    assert_eq!(refusal("0-90:1:2"), "Invalid range format. Use 'start-end:step'");
    assert_eq!(refusal("0-9-0:1"), "Invalid range format. Use 'start-end:step'");
    assert_eq!(refusal("0-90:x"), "Invalid step value");
    assert_eq!(refusal("x-90:1"), "Invalid start value");
    assert_eq!(refusal("0-x:1"), "Invalid end value");
    assert_eq!(refusal("45, x"), "Invalid bearing value");
    assert_eq!(parse_bearings(" 45 , 90").unwrap(), vec![45.0, 90.0]);
}

#[test]
fn recordings_have_names_and_seeds() {
    assert_eq!(generate::file_name("synth", s(45.5), 3), "synth_b045_t03.wav");
    assert_eq!(generate::file_name("p", s(-5.0), 123), "p_b-05_t123.wav");
    assert_eq!(generate::file_name("p", s(1234.0), 0), "p_b1234_t00.wav");
    for b in [-0.5f32, 0.0, 7.9, 359.9, -12.0, -123.0, f32::NAN, 3e9, -3e9] {
        let expected = format!("x_b{:03}_t{:02}.wav", b as i32, 7);
        assert_eq!(generate::file_name("x", s(b), 7), expected);
    }
    assert_eq!(generate::seed(5, 2, s(90.7)), 2095);
}

#[test]
fn noise_arguments_go_ahead_of_the_file() {
    let file = NoiseFile {
        awgn: None,
        fading: Some(FadingSection {
            fading_type: "RiciaN".to_string(),
            doppler_spread_hz: s(2.0),
            k_factor: None,
        }),
        multipath: Some(Vec::new()),
        impulse: None,
    };
    let none = NoiseArguments { snr: None, fading_hz: None, impulse_rate: None };
    let c = noise::build_noise_config(&file, &none, 9);
    assert_eq!(c.seed, 9);
    assert!(c.additive.is_none() && c.impulse.is_none() && c.multipath.is_none());
    match c.fading.unwrap().fading_type {
        FadingType::Rician { k_factor } => assert_eq!(f(k_factor), 4.0),
        FadingType::Rayleigh => panic!("the file asks for Rician fading"),
    }
    let args = NoiseArguments {
        snr: Some(s(10.0)),
        fading_hz: Some(s(3.0)),
        impulse_rate: Some(s(50.0)),
    };
    let c = noise::build_noise_config(&file, &args, 1);
    assert_eq!(f(c.additive.unwrap().snr_db), 10.0);
    assert!(matches!(c.fading.unwrap().fading_type, FadingType::Rayleigh));
    assert_eq!(c.impulse.unwrap().duration_samples, 5);
}

#[test]
fn noise_is_the_same_every_time() {
    let reference = |index: usize, seed: u64| -> f32 {
        let mix = |mut x: u64| {
            x ^= x >> 33;
            x = x.wrapping_mul(0xFF51_AFD7_ED55_8CCD);
            x ^= x >> 29;
            x
        };
        let x = mix((index as u64).wrapping_mul(0x9E37_79B9_7F4A_7C15) ^ mix(seed));
        (((x >> 32) as u32) as f32 / (u32::MAX as f32)) * 2.0 - 1.0
    };
    for i in 0..2000 {
        assert_eq!(f(signal::noise_at(i, 77)), reference(i, 77));
        assert!((-1.0..1.0).contains(&f(signal::noise_at(i, 1))));
    }
    assert_eq!(f(signal::noise_at(0, 0)), -1.0);
    // The largest words would round to one.
    assert_eq!(f(signal::uniform(u64::MAX)), 1.0 - f32::EPSILON / 2.0);
    assert_eq!(f(signal::uniform(0xffff_ff7f_0000_0000)), 1.0 - f32::EPSILON);
    assert_eq!(f(signal::uniform(0)), -1.0);
    assert_eq!(f(signal::spread(u64::MAX)), 1.0);
    assert_eq!(f(signal::spread(0)), -1.0);
}

#[test]
fn neighbouring_seeds_do_not_correlate() {
    let (mut ab, mut aa, mut bb) = (0.0f64, 0.0f64, 0.0f64);
    for i in 0..20_000 {
        let a = f(signal::noise_at(i, 1)) as f64;
        let b = f(signal::noise_at(i, 2)) as f64;
        ab += a * b;
        aa += a * a;
        bb += b * b;
    }
    assert!((ab / (aa * bb).sqrt()).abs() < 0.02);
}

#[test]
fn north_noise_has_the_level_it_is_given() {
    let mut impairment = SignalImpairment::none();
    assert_eq!(f(signal::north_noise(3, &impairment)), 0.0);
    impairment.north_noise_rms = s(0.2);
    let n = 5000;
    let power: f64 = (0..n)
        .map(|i| f(signal::north_noise(i, &impairment)) as f64)
        .map(|x| x * x)
        .sum::<f64>()
        / n as f64;
    assert!((power.sqrt() - 0.2).abs() < 0.01, "{}", power.sqrt());
}

#[test]
fn an_envelope_keeps_unit_power() {
    let impairment = SignalImpairment::bursty();
    let mut audio = signal::raw_noise(9600, 5);
    let exponents = signal::envelope_exponents(audio.len(), 48000, &impairment).unwrap();
    assert_eq!(exponents.len(), 9600usize.div_ceil(960) + 1);
    let levels: Vec<Single> = exponents.iter().map(|&e| s(f(e).exp())).collect();
    signal::apply_envelope(&mut audio, &levels, 48000);
    assert!((g(signal::mean_power(&audio)) - 1.0).abs() < 1e-3);
    assert!(signal::envelope_exponents(100, 48000, &SignalImpairment::none()).is_none());
}

#[test]
fn impairments_are_those_of_the_recordings() {
    let r = SignalImpairment::representative();
    assert_eq!(f(r.passband_noise_to_tone), 0.8);
    assert_eq!((f(r.second_harmonic), f(r.third_harmonic)), (0.10, 0.06));
    assert_eq!((f(r.envelope_correlation), f(r.envelope_depth)), (0.94, 0.5));
    let m = SignalImpairment::multipath();
    assert_eq!((f(m.multipath_ratio), f(m.multipath_bearing_offset_deg)), (0.45, 60.0));
    assert_eq!(f(SignalImpairment::none().north_pulse_amplitude), 0.8);
}

#[test]
fn interference_is_scaled_to_its_ratio() {
    assert_eq!(f(signal::interference_scale(s(2.0), d(4.0))), 0.5);
    assert_eq!(f(signal::interference_scale(s(2.0), d(0.0))), 0.0);
}

#[test]
fn errors_go_the_short_way_round() {
    assert_eq!(f(measure::angle_error(s(359.0), s(1.0))), -2.0);
    assert_eq!(f(measure::angle_error(s(1.0), s(359.0))), 2.0);
    assert_eq!(f(measure::angle_error(s(90.0), s(45.0))), 45.0);
    let read = |zc: Option<f32>, corr: Option<f32>| measure::BearingMeasurement {
        zc_bearing: zc.map(s),
        corr_bearing: corr.map(s),
    };
    let worst = measure::measure_error_across_bearings(
        &[
            read(Some(11.0), None),
            read(Some(357.0), Some(2.5)),
            read(None, Some(92.0)),
        ],
        &[s(10.0), s(0.0), s(90.0)],
    );
    assert_eq!(f(worst.zc_max_error), 3.0);
    assert_eq!(f(worst.corr_max_error), 2.5);
}

#[test]
fn channels_are_taken_apart_and_put_together() {
    let samples: Vec<Single> = (0..7).map(|i| s(i as f32)).collect();
    let left: Vec<f32> = measure::deinterleave(&samples, 2, 0).into_iter().map(f).collect();
    let right: Vec<f32> = measure::deinterleave(&samples, 2, 1).into_iter().map(f).collect();
    assert_eq!(left, vec![0.0, 2.0, 4.0, 6.0]);
    assert_eq!(right, vec![1.0, 3.0, 5.0]);
    assert!(measure::deinterleave(&samples, 2, 9).is_empty());
    let both = measure::interleave(&measure::deinterleave(&samples, 2, 0), &measure::deinterleave(&samples, 2, 1));
    assert_eq!(both.len(), 6);
    assert_eq!(f(both[3]), 3.0);
}

fn collected(sample_index: usize, lock: f32) -> CollectedTick {
    CollectedTick {
        sample_index,
        lock_quality: Some(s(lock)),
        period: Some(s(30.0)),
        frequency: Some(s(1600.0)),
        bearing: None,
        phase_error_variance: Some(s(lock)),
    }
}

#[test]
fn the_stable_region_is_where_lock_is() {
    let locks = [0.1, 0.9, 0.9, 0.2, 0.3, 0.8, 0.1];
    let ticks: Vec<CollectedTick> =
        locks.iter().enumerate().map(|(i, &q)| collected(i * 30, q)).collect();
    let region = analyze::find_stable_region(&ticks, s(0.5));
    assert_eq!((region.start, region.end, region.dropouts), (1, 6, 1));
    assert_eq!(region.dropout_positions, vec![3]);
    let none = analyze::find_stable_region(&ticks, s(0.95));
    assert_eq!((none.start, none.end, none.dropouts), (0, 7, 1));
    let empty = analyze::find_stable_region(&[], s(0.5));
    assert_eq!((empty.start, empty.end), (0, 0));
    let selection = analyze::select_ticks(&ticks, Some(TrimOptions { lock_threshold: s(0.5) }));
    let trimmed = selection.trimmed.unwrap();
    assert_eq!((trimmed.total_ticks, trimmed.used_ticks), (7, 5));
    assert_eq!(f(trimmed.dropout_positions[0]), 100.0 * 3.0 / 7.0);
    assert!(analyze::select_ticks(&ticks, None).trimmed.is_none());
}

#[test]
fn series_hold_what_there_is() {
    let mut ticks: Vec<CollectedTick> = (0..4).map(|i| collected(i * i * 10, 0.5)).collect();
    ticks[2].period = None;
    let series = analyze::tick_series(&ticks, 0, 4);
    let raw: Vec<f32> = series.raw_intervals.iter().map(|&x| f(x)).collect();
    assert_eq!(raw, vec![10.0, 30.0, 50.0]);
    assert_eq!(series.periods.len(), 3);
    assert!(series.bearings.is_empty());
    assert_eq!(series.phase_error_variance.map(f), Some(0.5));
}

fn summary(count: usize, mean: f32) -> StatsSummary {
    StatsSummary { count, mean: s(mean), std_dev: s(0.5), min: s(mean - 1.0), max: s(mean + 1.0) }
}

#[test]
fn reports_line_up() {
    let found = FileAnalysis::found(
        "a.wav".to_string(),
        &SeriesSummaries {
            rotation: summary(3, 1602.5),
            lock_quality: summary(3, 0.75),
            bearing: summary(2, 45.0),
            raw_period: summary(2, 30.0),
            dpll_period: summary(0, 0.0),
        },
        Some(s(0.001)),
        None,
        48000,
    );
    assert!(found.dpll_period_us.is_none());
    assert_eq!(f(found.raw_period_us.unwrap().mean), 30.0 * (1_000_000.0f32 / 48000.0));
    let failed = FileAnalysis::failed("b.wav".to_string(), "no such file".to_string());
    let all = [found, failed];
    let lines = report::text_report(&all, ChannelRole::Left, ChannelRole::Right);
    assert_eq!(lines[0].text, "Channels: Doppler=Left, NorthTick=Right");
    assert!(matches!(lines[0].stream, Stream::Notes));
    assert_eq!(
        lines[2].text,
        format!(
            "{:<60} {:>12} {:>8} {:>10} {:>10} {:>8}",
            "File", "Rotation", "Std", "LockQual", "PhaseVar", "Samples"
        )
    );
    assert_eq!(lines[3].text, "-".repeat(113));
    assert_eq!(
        lines[4].text,
        format!(
            "{:<60} {:>12} {:>8} {:>10} {:>10} {:>8}",
            "a.wav", "1602.5000", "0.5000", "0.75", "0.001000", 3
        )
    );
    assert_eq!(lines[5].text, format!("{:<60} ERROR: no such file", "b.wav"));
    assert_eq!(lines[7].text, "Rotation timing for a.wav:");
    assert_eq!(lines[8].text, "  Raw period:  625.00 ± 10.42 μs (jitter)");
    assert_eq!(lines[11].text, "  Mean: 45.0°");
    assert_eq!(lines[15].text, "  Range: 2.0°");
    assert_eq!(lines.len(), 16);
    let csv = report::csv_report(&all);
    assert_eq!(csv[1].text, "a.wav,1602.500000,0.500000,0.7500,0.00100000,45.00,0.50,625.00,10.42,,,3,");
    assert_eq!(csv[2].text, "b.wav,,,,,,,,,,,0,no such file");
}

fn apply(config: &mut RdfConfig, assignment: &str) -> Result<(), String> {
    let (key, value) = match fields::split_once(assignment, '=') {
        Some(parts) => parts,
        None => return Err(compare::no_assignment(assignment)),
    };
    compare::apply(config, &key, &value, number(&value))
}

#[test]
fn overrides_change_what_they_name() {
    let mut config = RdfConfig::default();
    apply(&mut config, "audio.sample_rate=96000").unwrap();
    apply(&mut config, "north_tick.estimator=Hard-Limiter").unwrap();
    apply(&mut config, "doppler.method=zero-crossing").unwrap();
    apply(&mut config, "north_tick.threshold=0.25").unwrap();
    assert_eq!(config.audio.sample_rate, 96000);
    assert!(matches!(config.north_tick.estimator, NorthPulseEstimator::HardLimiter));
    assert!(matches!(config.doppler.method, BearingMethod::ZeroCrossing));
    assert_eq!(f(config.north_tick.resolved_threshold_fraction()), 0.25);
    let refusal = |c: &mut RdfConfig, t: &str| apply(c, t).unwrap_err();
    assert_eq!(refusal(&mut config, "x"), "expected key=value, got x");
    assert_eq!(
        refusal(&mut config, "x=1"),
        "x is not a key this compares; --list-keys lists them"
    );
    assert_eq!(
        refusal(&mut config, "north_tick.agc.enabled=true"),
        "north_tick.agc.enabled is not a key this compares; --list-keys lists them"
    );
    assert_eq!(
        refusal(&mut config, "audio.buffer_size=1.5"),
        "audio.buffer_size takes a whole number, got 1.5"
    );
    assert_eq!(
        refusal(&mut config, "north_tick.gain_db=loud"),
        "north_tick.gain_db takes a number, got loud"
    );
    assert_eq!(
        refusal(&mut config, "north_tick.mode=fast"),
        "north_tick.mode: fast is not one of its values"
    );
}

#[test]
fn every_compared_key_has_a_name_of_its_own() {
    let keys = compare::keys();
    assert_eq!(keys.len(), 20);
    for k in &keys {
        assert_eq!(Key::of_name(k.name()), Some(*k));
    }
}

fn texts(v: &[&str]) -> Vec<String> {
    v.iter().map(|t| t.to_string()).collect()
}

#[test]
fn sides_are_described_and_held_against_each_other() {
    assert_eq!(compare::describe(&[]), "defaults");
    assert_eq!(compare::describe(&texts(&["a=1", "b=2"])), "a=1 b=2");
    let a = texts(&["audio.sample_rate=1", "audio.sample_rate=2"]);
    let b = texts(&["audio.sample_rate=2"]);
    assert_eq!(compare::value_of(&a, "audio.sample_rate"), Some("2".to_string()));
    assert_eq!(compare::clashing_key(&a, &b), None);
    assert_eq!(compare::clashing_key(&a, &[]), Some("audio.sample_rate"));
    let c = texts(&["north_tick.expected_pulse_amplitude=0.5"]);
    assert_eq!(compare::clashing_key(&c, &[]), Some("north_tick.expected_pulse_amplitude"));
    assert!(compare::refuse_key("k").starts_with("k differs between the two sides."));
}

#[test]
fn counts_are_read_as_whole_numbers() {
    for t in ["0", "7", "+7", "007", "18446744073709551615", "18446744073709551616", "", "+", "-1", "1.0", "1 "] {
        assert_eq!(fields::parse_count(t), t.parse::<usize>().ok(), "{t:?}");
    }
}

#[test]
fn texts_are_split_and_joined() {
    for t in ["", "a", "a,b", ",", "a,,b,", "äö,ü"] {
        let parts = fields::split(t, ',');
        let expected: Vec<&str> = t.split(',').collect();
        assert_eq!(parts, expected);
        assert_eq!(fields::join(&parts, ","), t);
    }
    assert_eq!(fields::split_once("a=b=c", '='), Some(("a".to_string(), "b=c".to_string())));
    assert_eq!(fields::split_once("abc", '='), None);
}

fn result_at(sample_index: usize, offset: f32, bearing: Option<f32>) -> TickResult {
    TickResult {
        north_tick: NorthTick {
            sample_index,
            period: None,
            lock_quality: None,
            phase_variance: None,
            fractional_sample_offset: s(offset),
            phase: s(0.0),
            frequency: s(0.2),
        },
        bearing: bearing.map(|b| BearingMeasurement {
            bearing_degrees: s(b),
            raw_bearing: s(b),
            confidence: s(0.5),
            signal_present: true,
            metrics: ConfidenceMetrics {
                snr_db: s(10.0),
                signal_strength: s(0.75),
                bearing_uncertainty_deg: Some(s(2.0)),
                ..Default::default()
            },
        }),
    }
}

#[test]
fn runs_are_measured_over_their_last_fifth() {
    let epochs: Vec<Double> = (0..10).map(|k| d(k as f64 * 30.0)).collect();
    let results: Vec<TickResult> = (0..10)
        .map(|k| result_at(k * 30, if k < 8 { 2.5 } else { 0.5 }, Some(if k < 8 { 90.0 } else { 201.0 })))
        .collect();
    let readings = compare::Readings::read(&results, &epochs, s(200.0));
    assert_eq!(readings.tick_errors.len(), 10);
    let angles = readings.offset_angles();
    assert_eq!(angles.len(), 2);
    let m = compare::Measurement::of(&readings, Some(s(0.04)), d(0.017453292519943295));
    assert_eq!((m.ticks, m.bearings), (10, 10));
    assert_eq!(g(m.tick_mean), 0.5);
    assert_eq!(g(m.bearing_mean), 1.0);
    assert_eq!(g(m.bearing_p95), 1.0);
    assert_eq!(g(m.snr_db), 10.0);
    assert!((g(m.bearing_offset) - 1.0).abs() < 1e-12);
    assert_eq!(g(m.reference_phase_sigma_deg), 0.2f32.to_degrees() as f64);
    let nothing = compare::Measurement::of(
        &compare::Readings::read(&[], &epochs, s(0.0)),
        None,
        d(0.0),
    );
    assert!(g(nothing.tick_mean).is_nan() && g(nothing.reference_phase_sigma_deg).is_nan());
}

#[test]
fn the_nearest_epoch_is_found() {
    let epochs: Vec<Double> = [0.0, 10.0, 20.0].iter().map(|&x| d(x)).collect();
    assert_eq!(compare::nearest_epoch(&epochs, d(14.0)).map(g), Some(10.0));
    assert_eq!(compare::nearest_epoch(&epochs, d(15.0)).map(g), Some(10.0));
    assert_eq!(compare::nearest_epoch(&[], d(15.0)).map(g), None);
}

#[test]
fn percentiles_and_tails() {
    let v: Vec<Double> = [5.0, 1.0, 4.0, 2.0, 3.0].iter().map(|&x| d(x)).collect();
    assert_eq!(g(statistics::percentile(&v, d(0.5))), 3.0);
    assert_eq!(g(statistics::percentile(&v, d(0.95))), 5.0);
    assert!(g(statistics::percentile(&[], d(0.5))).is_nan());
    let tail: Vec<f64> = statistics::tail(&v, d(0.2)).into_iter().map(g).collect();
    assert_eq!(tail, vec![3.0]);
    assert_eq!(g(statistics::mean(&v)), 3.0);
    assert_eq!(g(statistics::scatter(&v, d(3.0))), 2.0f64.sqrt());
    assert_eq!(f(statistics::std_dev(&[s(1.0), s(3.0)])), 2.0f32.sqrt());
    assert_eq!(f(statistics::std_dev(&[s(1.0)])), 0.0);
    assert_eq!(f(statistics::single_mean(&[])), 0.0);
    assert_eq!(g(statistics::signed_error(s(350.0), s(10.0))), -20.0);
}

fn axis(text: &str) -> Axis {
    let (key, values) = sweep::split_axis(text).unwrap();
    Axis {
        key,
        values: values
            .into_iter()
            .map(|t| AxisValue { number: number(&t), text: t })
            .collect(),
    }
}

#[test]
fn grids_are_walked_in_order() {
    let grid = sweep::combinations(&[2, 3]);
    assert_eq!(
        grid,
        vec![vec![0, 0], vec![0, 1], vec![0, 2], vec![1, 0], vec![1, 1], vec![1, 2]]
    );
    assert_eq!(sweep::combinations(&[]), vec![Vec::<usize>::new()]);
    assert!(sweep::combinations(&[2, 0]).is_empty());
    assert_eq!(sweep::split_axis("k").unwrap_err(), "expected key=v1,v2,..., got k");
}

#[test]
fn cells_take_their_stimulus_first() {
    let axes = [axis("rotation_hz=800"), axis("north_tick.min_interval_ms= 0.3 ,0.5")];
    assert_eq!(axes[1].values[0].text, "0.3");
    let cell = sweep::cell_for(&axes, &[0, 1]).unwrap();
    assert_eq!(f(cell.stimulus.rotation_hz), 800.0);
    assert_eq!(f(cell.config.doppler.expected_freq), 800.0);
    assert_eq!(f(cell.config.north_tick.min_interval_ms), 0.5);
    assert_eq!(f(cell.stimulus.doppler_noise), 0.8);
    assert_eq!(f(cell.stimulus.impairment().passband_noise_to_tone), 0.8);
    let wrong = [axis("nothing=1")];
    assert_eq!(
        sweep::cell_for(&wrong, &[0]).unwrap_err(),
        "nothing is not an axis this sweeps; --list-axes lists them"
    );
    let text = [axis("bearing=north")];
    assert_eq!(
        sweep::stimulus_for(&text, &[0]).unwrap_err(),
        "bearing takes a number, got north"
    );
    let flag = [axis("north_tick.agc.enabled=false")];
    assert!(!sweep::cell_for(&flag, &[0]).unwrap().config.north_tick.agc.enabled);
}

#[test]
fn cells_with_one_stimulus_come_together() {
    let config = RdfConfig::default();
    let a = Stimulus::default_for(&config);
    let mut b = a;
    b.north_noise = s(0.1);
    let order: Vec<usize> = sweep::working_order(&[b, a, b, a]).iter().map(|k| k.index).collect();
    assert_eq!(order, vec![1, 3, 0, 2]);
}

#[test]
fn cells_are_measured_against_whole_rotations() {
    let results: Vec<TickResult> =
        (0..10).map(|k| result_at(k * 30, 1.0, Some(199.0))).collect();
    let figures = sweep::measure(&results, s(200.0), d(30.0));
    assert_eq!(g(figures.tick_error), 1.0);
    assert_eq!(g(figures.bearing_bias), -1.0);
    assert_eq!(g(figures.bearing_error), 1.0);
    assert_eq!(g(figures.bearing_scatter), 0.0);
    assert_eq!(g(figures.stated_sigma), 2.0);
    assert_eq!(figures.bearings, 10);
    assert_eq!(sweep::column_width(3, &[2, 9]), 9);
    assert_eq!(sweep::column_width(3, &[]), 6);
}

#[test]
fn rates_are_fitted_through_missed_pulses() {
    let epochs: Vec<Double> =
        (0..40).filter(|k| k % 7 != 3).map(|k| d(100.0 + k as f64 * 29.95)).collect();
    let (period, residuals) = highpass::fit_rate(&epochs, d(30.0)).unwrap();
    assert!((g(period) - 29.95).abs() < 1e-9);
    assert!(residuals.iter().all(|&r| g(r).abs() < 1e-9));
    assert!(highpass::fit_rate(&epochs[..10], d(30.0)).is_none());
    let summary = highpass::summarize(&epochs, d(30.0)).unwrap();
    assert!(g(summary.rms_degrees()) < 1e-6);
    assert!(g(summary.p95_degrees()) < 1e-6);
}

#[test]
fn filters_are_scored_on_their_peaks() {
    let mut signal = vec![s(0.0); 1000];
    for k in 0..32 {
        signal[20 + k * 30] = s(0.8);
        signal[21 + k * 30] = s(0.4);
    }
    assert_eq!(f(highpass::loudest(&signal)), 0.8);
    let peaks = highpass::detect_peaks(&signal, s(0.3), 20);
    assert_eq!(peaks[0], 20);
    assert_eq!(peaks.len(), 32);
    let offset = g(highpass::centroid_offset(&signal, 20, 3));
    assert!((offset - 0.2).abs() < 1e-6, "{offset}");
    let score = highpass::score(&signal, &peaks, s(48000.0), d(30.0));
    assert_eq!(score.detected, 32);
    assert!((g(score.rate_hz) - 1600.0).abs() < 1e-6);
    assert_eq!(highpass::tap_counts(s(0.0), &[31, 63]), vec![0]);
    assert_eq!(highpass::tap_counts(s(500.0), &[31, 63]), vec![31, 63]);
    let expected = highpass::expected(48000, s(48000.0), s(1600.0), s(0.6));
    assert_eq!((expected.pulses, expected.min_interval), (1600, 28));
}

#[test]
fn trials_have_the_noise_of_their_kind() {
    let c = trials::noise_at(NoiseKind::Awgn, 10, 30, 1);
    assert_eq!(f(c.additive.unwrap().snr_db), 10.0);
    let c = trials::noise_at(NoiseKind::Multipath, 50, 29, 1);
    assert_eq!(c.multipath.unwrap()[0].delay_samples, 14);
    let c = trials::noise_at(NoiseKind::Multipath, 2, 29, 1);
    assert!(c.multipath.is_none());
    assert_eq!(f(c.additive.unwrap().snr_db), 25.0);
    let c = trials::noise_at(NoiseKind::Impulse, 0, 29, 1);
    assert!(c.impulse.is_none() && c.fading.is_none());
    let bearings: Vec<f32> = trials::test_bearings().into_iter().map(f).collect();
    assert_eq!(bearings, vec![45.0, 90.0, 135.0, 180.0, 225.0, 270.0, 315.0]);
    let figures = trials::figures(&[s(1.0), s(3.0)], &[]);
    assert_eq!((f(figures.zc_mean), f(figures.corr_mean)), (2.0, 0.0));
    assert_eq!(NoiseKind::Fading.name(), "fading");
    assert_eq!(NoiseKind::Impulse.grid(), (200, 10));
}
