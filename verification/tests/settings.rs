//! Configuration, arguments, output lines and statistics.
use rotaryclub::cli::{log_level, parse_north_offset, parse_output_rate, same_file, PathIdentity};
use rotaryclub::config::{
    BearingMethod, ChannelRole, ConfidenceConfig, NorthPulseEstimator, NorthTrackingMode,
    RdfConfig, RotationFrequency,
};
use rotaryclub::output::csv::CsvFormatter;
use rotaryclub::output::json::JsonFormatter;
use rotaryclub::output::kn5r::Kn5rFormatter;
use rotaryclub::output::lines::{create_formatter, TextFormatter};
use rotaryclub::output::{BearingOutput, Formatter, OutputFormat};
use rotaryclub::processing::TickResult;
use rotaryclub::rdf::bearing::{
    phase_to_bearing, validate_confidence_config, BearingMeasurement, ConfidenceMetrics,
};
use rotaryclub::rdf::north_ref::NorthTick;
use rotaryclub::run::{
    adjusted_bearing, apply_settings, emit_tick, NorthStaleness, OutputThrottle, RunSettings,
};
use rotaryclub::single::Single;
use rotaryclub::stats::{CircularStats, CircularSummary};
use std::f32::consts::PI;

fn s(x: f32) -> Single {
    Single::from_bits(x.to_bits())
}

fn f(x: Single) -> f32 {
    f32::from_bits(x.to_bits())
}

fn rotation(text: &str) -> Result<RotationFrequency, String> {
    let (_, number) = RotationFrequency::split_text(text);
    RotationFrequency::from_text(text, number.parse::<f32>().ok().map(s))
}

fn offset(text: &str) -> Result<f32, String> {
    parse_north_offset(text, text.parse::<f32>().ok().map(s)).map(f)
}

fn rate(text: &str) -> Result<f32, String> {
    parse_output_rate(text, text.parse::<f32>().ok().map(s)).map(f)
}

#[test]
fn test_rotation_frequency_from_hz() {
    let freq = rotation("1602.564").unwrap();
    assert!((f(freq.as_hz()) - 1602.564).abs() < 0.001);
}

#[test]
fn test_rotation_frequency_from_hz_explicit() {
    let freq = rotation("1602.564hz").unwrap();
    assert!((f(freq.as_hz()) - 1602.564).abs() < 0.001);
    let freq = rotation("1602.564Hz").unwrap();
    assert!((f(freq.as_hz()) - 1602.564).abs() < 0.001);
}

#[test]
fn test_rotation_frequency_from_interval_us() {
    let freq = rotation("624us").unwrap();
    assert!((f(freq.as_hz()) - 1602.5641).abs() < 0.001);
}

#[test]
fn test_rotation_frequency_from_interval_unicode() {
    let freq = rotation("624μs").unwrap();
    assert!((f(freq.as_hz()) - 1602.5641).abs() < 0.001);
}

#[test]
fn test_rotation_frequency_invalid() {
    assert!(rotation("abc").is_err());
    assert!(rotation("-100hz").is_err());
    assert!(rotation("0us").is_err());
}

#[test]
fn test_rotation_frequency_rejects_non_finite() {
    assert!(rotation("NaN").is_err());
    assert!(rotation("nanhz").is_err());
    assert!(rotation("inf").is_err());
    assert!(rotation("infus").is_err());
}

#[test]
fn intervals_and_frequencies_are_inverse() {
    let freq = RotationFrequency::from_interval_us(s(500.0));
    assert_eq!(f(freq.as_hz()), 2000.0);
    assert_eq!(f(freq.as_interval_us()), 500.0);
}

#[test]
fn north_offset_accepts_negative_rejects_non_finite() {
    assert_eq!(offset("-5.5"), Ok(-5.5));
    assert!(offset("NaN").is_err());
    assert!(offset("inf").is_err());
    assert_eq!(offset("north"), Err("invalid number: north".to_string()));
}

#[test]
fn output_rate_bounds() {
    assert!(rate("10").is_ok());
    assert!(rate("1e-30").is_err());
    assert!(rate("NaN").is_err());
    assert_eq!(rate("x"), Err("invalid number: x".to_string()));
}

#[test]
fn verbosity_names_a_level() {
    assert_eq!(log_level(0), "warn");
    assert_eq!(log_level(1), "info");
    assert_eq!(log_level(2), "debug");
    assert_eq!(log_level(9), "trace");
}

#[test]
fn same_file_goes_by_inode_and_by_spelling() {
    let at = |inode, canonical: Option<&str>| PathIdentity {
        inode,
        canonical: canonical.map(|c| c.to_string()),
    };
    assert!(same_file(&at(Some((1, 2)), Some("/a")), &at(Some((1, 2)), Some("/b"))));
    assert!(!same_file(&at(Some((1, 2)), Some("/a")), &at(Some((1, 3)), Some("/a"))));
    assert!(same_file(&at(None, Some("/a")), &at(Some((1, 2)), Some("/a"))));
    assert!(!same_file(&at(None, None), &at(None, None)));
}

fn bad_output() -> BearingOutput {
    BearingOutput {
        bearing: s(f32::NAN),
        raw: s(f32::INFINITY),
        confidence: s(f32::NAN),
        snr_db: s(f32::NEG_INFINITY),
        bearing_uncertainty_deg: Some(s(f32::NAN)),
        signal_strength: s(f32::NAN),
        signal_present: false,
        resultant_length: s(f32::NAN),
        tone_peak: s(f32::NAN),
        lock_quality: Some(s(f32::NAN)),
        phase_error_variance: Some(s(f32::NAN)),
    }
}

fn good_output() -> BearingOutput {
    BearingOutput {
        bearing: s(137.46),
        raw: s(136.84),
        confidence: s(0.951),
        snr_db: s(18.26),
        bearing_uncertainty_deg: Some(s(1.25)),
        signal_strength: s(0.875),
        signal_present: true,
        resultant_length: s(0.5),
        tone_peak: s(0.25),
        lock_quality: Some(s(0.75)),
        phase_error_variance: None,
    }
}

#[test]
fn json_stays_valid_on_non_finite_values() {
    let line = JsonFormatter.format(&bad_output());
    assert!(!line.contains("NaN") && !line.contains("inf"), "{line}");
    assert!(line.contains(r#""bearing":null"#), "{line}");
    assert!(line.contains(r#""lock_quality":null"#), "{line}");
}

#[test]
fn csv_leaves_non_finite_cells_empty() {
    let line = CsvFormatter.format(&bad_output());
    assert!(!line.contains("NaN") && !line.contains("inf"), "{line}");
    assert!(line.contains(",,,,"), "{line}");
}

#[test]
fn kn5r_refuses_a_nonexistent_bearing() {
    assert_eq!(Kn5rFormatter.format(&bad_output()), "");
}

#[test]
fn kn5r_sentence_is_fixed_width_for_finite_input() {
    let mut ok = bad_output();
    ok.bearing = s(123.4);
    ok.resultant_length = s(0.5);
    ok.tone_peak = s(0.25);
    let line = Kn5rFormatter.format(&ok);
    assert_eq!(line.len(), 26, "{line}");
    assert!(line.starts_with("C1234"));
}

#[test]
fn lines_at_a_fixed_time() {
    let o = good_output();
    assert_eq!(
        CsvFormatter.format_at(&o, "T", 0),
        "T,137.5,136.8,0.95,18.3,1.25,0.88,true,0.500,0.2500,0.75,"
    );
    assert_eq!(
        JsonFormatter.format_at(&o, "T", 0),
        r#"{"ts":"T","bearing":137.5,"raw":136.8,"confidence":0.95,"snr_db":18.3,"bearing_uncertainty_deg":1.25,"signal_strength":0.88,"signal_present":true,"resultant_length":0.500,"tone_peak":0.2500,"lock_quality":0.75,"phase_error_variance":null}"#
    );
    assert_eq!(Kn5rFormatter.format_at(&o, "", 1663117493011), "C1375500250001663117493011");
    assert_eq!(
        TextFormatter::new(false).format_at(&o, "", 0),
        "Bearing: 137.5° (raw: 136.8°) confidence: 0.95"
    );
    let silent = BearingOutput { signal_present: false, ..good_output() };
    assert_eq!(
        TextFormatter::new(false).format(&silent),
        "Bearing: 137.5° (raw: 136.8°) confidence: 0.95  [no signal]"
    );
    assert!(TextFormatter::new(true).format(&o).starts_with("Bearing:  137.5° (raw:  136.8°) conf: "));
    assert_eq!(CsvFormatter.format(&o).split(',').count(), 12);
    assert_eq!(CsvFormatter.format(&bad_output()).split(',').count(), 12);
}

#[test]
fn stamps_are_those_of_the_clock() {
    // A wrapper that handed nothing over would leave these empty or zero.
    let stamp = rotaryclub::output::iso8601_timestamp();
    assert_eq!(stamp.len(), "2024-01-01T00:00:00.000Z".len(), "{stamp}");
    assert!(stamp.ends_with('Z') && stamp.contains('T'), "{stamp}");
    assert!(rotaryclub::output::timestamp_millis() > 1_600_000_000_000);
}

#[test]
fn formatters_are_those_of_their_formats() {
    let o = good_output();
    for (format, header) in [
        (OutputFormat::Text, false),
        (OutputFormat::Kn5r, false),
        (OutputFormat::Json, false),
        (OutputFormat::Csv, true),
    ] {
        assert_eq!(create_formatter(format, false).header().is_some(), header);
    }
    assert_eq!(
        create_formatter(OutputFormat::Csv, true).format_at(&o, "T", 5),
        CsvFormatter.format_at(&o, "T", 5)
    );
}

fn stats_of(angles: &[f32]) -> Option<CircularSummary> {
    let mut stats = CircularStats::new();
    for &a in angles {
        stats.update(s(a));
    }
    let (mut sum_cos, mut sum_sin) = (0.0f32, 0.0f32);
    for r in stats.radians() {
        sum_cos += f(r).cos();
        sum_sin += f(r).sin();
    }
    let resultant = stats.resultant(s(sum_cos), s(sum_sin));
    stats.summary(s(sum_cos), s(sum_sin), s(sum_sin.atan2(sum_cos)), s(f(resultant).ln()))
}

#[test]
fn test_circular_stats_cluster_away_from_wrap() {
    let r = stats_of(&[89.0, 90.0, 91.0]).unwrap();
    assert!((f(r.mean) - 90.0).abs() < 0.01);
    assert!((f(r.min) - 89.0).abs() < 0.01);
    assert!((f(r.max) - 91.0).abs() < 0.01);
    assert!((f(r.range) - 2.0).abs() < 0.01);
    assert!(f(r.std_dev) < 1.0);
}

#[test]
fn test_circular_stats_cluster_straddling_north() {
    let r = stats_of(&[359.0, 1.0, 358.0, 2.0]).unwrap();
    let mean_error = (f(r.mean) - 0.0 + 180.0).rem_euclid(360.0) - 180.0;
    assert!(mean_error.abs() < 0.01, "mean {} not near 0", f(r.mean));
    assert!((f(r.range) - 4.0).abs() < 0.01, "range {} not 4", f(r.range));
    assert!((f(r.min) - 358.0).abs() < 0.01, "min {}", f(r.min));
    assert!((f(r.max) - 2.0).abs() < 0.01, "max {}", f(r.max));
    assert!(f(r.std_dev) < 3.0, "std_dev {}", f(r.std_dev));
}

#[test]
fn statistics_turn_with_the_angles() {
    let angles = [10.25, 350.5, 5.0, 14.75];
    let about = |turn: f32| {
        let mut stats = CircularStats::new();
        for a in angles {
            stats.update(s((a + turn) % 360.0));
        }
        let mean = ((5.0 + turn) % 360.0).to_radians();
        stats.summary(s(3.9), s(0.2), s(mean), s(-0.01)).unwrap()
    };
    let (before, after) = (about(0.0), about(90.0));
    assert_eq!(before.count, after.count);
    assert!((f(after.mean) - f(before.mean) - 90.0).abs() < 1.0e-3);
    assert!((f(after.min) - (f(before.min) + 90.0) % 360.0).abs() < 1.0e-3);
    assert!((f(after.max) - (f(before.max) + 90.0) % 360.0).abs() < 1.0e-3);
    assert!((f(after.range) - f(before.range)).abs() < 1.0e-3);
    assert_eq!(before.std_dev, after.std_dev);
    assert!((f(before.range) - 24.25).abs() < 1.0e-3);
}

#[test]
fn test_circular_stats_empty_and_single() {
    assert!(stats_of(&[]).is_none());
    let r = stats_of(&[45.0]).unwrap();
    assert_eq!(r.count, 1);
    assert!((f(r.mean) - 45.0).abs() < 0.01);
    assert_eq!(f(r.range), 0.0);
    assert!(f(r.std_dev) < 0.1, "std_dev {}", f(r.std_dev));
}

#[test]
fn bearing_test_phase_to_bearing() {
    let bearing = |x: f32| f(phase_to_bearing(s(x)));
    assert!((bearing(0.0) - 0.0).abs() < 0.01);
    assert!((bearing(PI / 2.0) - 90.0).abs() < 0.01);
    assert!((bearing(PI) - 180.0).abs() < 0.01);
    assert!((bearing(3.0 * PI / 2.0) - 270.0).abs() < 0.01);
}

fn metrics_with(uncertainty: Option<f32>) -> ConfidenceMetrics {
    ConfidenceMetrics {
        snr_db: s(20.0),
        signal_strength: s(1.0),
        bearing_uncertainty_deg: uncertainty.map(s),
        ..Default::default()
    }
}

#[test]
fn test_unknown_uncertainty_scores_zero() {
    let config = ConfidenceConfig::default();
    assert_eq!(f(metrics_with(None).score(&config)), 0.0);
    assert_eq!(f(ConfidenceMetrics::default().score(&config)), 0.0);
}

#[test]
fn test_half_confidence_lands_at_the_configured_uncertainty() {
    let config = ConfidenceConfig::default();
    let score = f(metrics_with(Some(f(config.half_confidence_deg))).score(&config));
    assert!((score - 0.5).abs() < 0.001, "got {score}");
}

#[test]
fn test_confidence_keeps_resolution_across_the_range() {
    let config = ConfidenceConfig::default();
    let half = f(config.half_confidence_deg);
    let ruined = f(metrics_with(Some(half * 10.0)).score(&config));
    assert!(ruined < 0.02, "got {ruined}");
    let mut previous = 1.0f32;
    for sigma in [0.1f32, 0.5, 1.0, 2.0, 5.0, 10.0, 30.0, 60.0] {
        let score = f(metrics_with(Some(sigma)).score(&config));
        assert!(score < previous, "{sigma} degrees scored {score} against {previous}");
        previous = score;
    }
}

#[test]
fn a_half_point_that_is_no_number_is_refused() {
    let mut config = ConfidenceConfig::default();
    assert!(validate_confidence_config(&config).is_ok());
    config.half_confidence_deg = s(f32::NAN);
    assert!(validate_confidence_config(&config).is_err());
    config.half_confidence_deg = s(0.0);
    assert!(validate_confidence_config(&config).is_err());
}

#[test]
fn channels_are_split_by_role() {
    let mut config = RdfConfig::default();
    let frames = [(s(1.0), s(2.0)), (s(3.0), s(4.0))];
    let (doppler, north) = config.audio.split_channels(&frames);
    assert_eq!((f(doppler[1]), f(north[1])), (3.0, 4.0));
    config.audio.doppler_channel = ChannelRole::Right;
    config.audio.north_tick_channel = ChannelRole::Left;
    let (doppler, north) = config.audio.split_channels(&frames);
    assert_eq!((f(doppler[0]), f(north[0])), (2.0, 1.0));
}

#[test]
fn estimators_weigh_by_their_exponent() {
    assert_eq!(NorthPulseEstimator::HardLimiter.weight_exponent(), 0);
    assert_eq!(NorthPulseEstimator::AmplitudeCentroid.weight_exponent(), 1);
    assert_eq!(NorthPulseEstimator::EnergyCentroid.weight_exponent(), 2);
    assert!(NorthPulseEstimator::AmplitudeCentroid.clips_negative());
    assert!(!NorthPulseEstimator::EnergyCentroid.clips_negative());
}

#[test]
fn settings_reach_the_configuration() {
    let mut config = RdfConfig::default();
    apply_settings(
        &mut config,
        &RunSettings {
            method: BearingMethod::ZeroCrossing,
            north_mode: NorthTrackingMode::Simple,
            north_estimator: NorthPulseEstimator::HardLimiter,
            rotation: Some(RotationFrequency::from_hz(s(800.0))),
            swap_channels: true,
            output_rate: s(20.0),
            north_offset: s(45.0),
            north_tick_gain: s(3.0),
        },
    );
    assert!(matches!(config.doppler.method, BearingMethod::ZeroCrossing));
    assert!(matches!(config.north_tick.mode, NorthTrackingMode::Simple));
    assert!(matches!(config.audio.doppler_channel, ChannelRole::Right));
    assert_eq!(f(config.doppler.expected_freq), 800.0);
    assert_eq!(f(config.bearing.output_rate_hz), 20.0);
    assert_eq!(f(config.bearing.north_offset_degrees), 45.0);
    assert_eq!(f(config.north_tick.gain_db), 3.0);
}

fn result_at(sample_index: usize, bearing: Option<f32>) -> TickResult {
    TickResult {
        north_tick: NorthTick {
            sample_index,
            period: None,
            lock_quality: Some(s(0.5)),
            phase_variance: None,
            fractional_sample_offset: s(0.0),
            phase: s(0.0),
            frequency: s(0.2),
        },
        bearing: bearing.map(|b| BearingMeasurement {
            bearing_degrees: s(b),
            raw_bearing: s(b + 1.0),
            confidence: s(0.9),
            signal_present: true,
            metrics: ConfidenceMetrics::default(),
        }),
    }
}

#[test]
fn output_is_throttled_in_signal_time() {
    let mut throttle = OutputThrottle::new(48000, s(10.0));
    let mut lines = 0;
    for k in 0..100 {
        let r = emit_tick(&result_at(k * 480, Some(350.0)), None, s(20.0), true, false, &mut throttle);
        assert_eq!(r.for_stats.map(f), Some(10.0));
        if let Some(line) = r.line {
            assert_eq!((f(line.bearing), f(line.raw)), (10.0, 11.0));
            lines += 1;
        }
    }
    assert_eq!(lines, 10);
    let forced = emit_tick(&result_at(47_600, Some(1.0)), None, s(0.0), false, true, &mut throttle);
    assert!(forced.line.is_some() && forced.for_stats.is_none());
    let none = emit_tick(&result_at(96_000, None), None, s(0.0), true, true, &mut throttle);
    assert!(none.line.is_none() && none.for_stats.is_none());
}

#[test]
fn offsets_wrap_around_north() {
    assert_eq!(f(adjusted_bearing(s(350.0), s(20.0))), 10.0);
    assert_eq!(f(adjusted_bearing(s(10.0), s(-20.0))), 350.0);
    assert_eq!(f(adjusted_bearing(s(0.0), s(-1.0e-4))), 359.9999);
    assert_eq!(f(adjusted_bearing(s(350.0), s(10.0))), 0.0);
    // So little below north that it rounds to a full turn.
    assert_eq!(f(adjusted_bearing(s(0.0), s(-1.0e-9))), 0.0);
    assert_eq!(f(rotaryclub::rdf::bearing::phase_to_bearing(s(-1.0e-10))), 0.0);
}

#[test]
fn warnings_of_missing_ticks_keep_their_distance() {
    let mut stale = NorthStaleness::new(s(2.0), 1000);
    let mut at = Vec::new();
    for k in 0..100usize {
        if stale.note(100, false, false).is_some() {
            at.push(k);
        }
    }
    assert!(!at.is_empty());
    for w in at.windows(2) {
        assert!(w[1] - w[0] >= 20, "{at:?}");
    }
    assert!(stale.note(100, true, true).is_none());
    assert!(stale.note(100, false, true).is_none());
}
