//! Filters, detectors and gain control.
use pm_remez::{constant, pm_parameters, pm_remez, BandSetting};
use rotaryclub::config::AgcConfig;
use rotaryclub::double::Double;
use rotaryclub::signal_processing::detector;
use rotaryclub::signal_processing::fir_highpass::odd_taps;
use rotaryclub::signal_processing::math::{phase_difference, phase_from_crossing, phase_to_bearing};
use rotaryclub::signal_processing::window_max::window_max_indices;
use rotaryclub::signal_processing::{
    AutomaticGainControl, DcRemover, Filter, FirBandpass, FirFilterCore, FirHighpass, MovingAverage,
    NorthPulseAgc, PeakDetector, ZeroCrossingDetector,
};
use rotaryclub::single::Single;
use std::f32::consts::PI;

fn s(x: f32) -> Single {
    Single::from_bits(x.to_bits())
}

fn f(x: Single) -> f32 {
    f32::from_bits(x.to_bits())
}

fn d(x: f64) -> Double {
    Double::from_bits(x.to_bits())
}

fn g(x: Double) -> f64 {
    f64::from_bits(x.to_bits())
}

fn all(v: &[f32]) -> Vec<Single> {
    v.iter().map(|&x| s(x)).collect()
}

fn back(v: &[Single]) -> Vec<f32> {
    v.iter().map(|&x| f(x)).collect()
}

fn highpass(cutoff: f32, sample_rate: f32, taps: usize) -> Option<FirHighpass> {
    let (stop_end, pass_start) = FirHighpass::design_edges(s(cutoff), s(sample_rate), s(500.0)).ok()?;
    let bands = [
        BandSetting::new(0.0, g(stop_end), constant(0.0)).ok()?,
        BandSetting::new(g(pass_start), 0.5, constant(1.0)).ok()?,
    ];
    let design = pm_remez(&pm_parameters(odd_taps(taps), &bands).ok()?).ok()?;
    Some(FirHighpass::from_taps(
        design.impulse_response.iter().map(|&t| d(t)).collect(),
    ))
}

fn bandpass(low: f32, high: f32, sample_rate: f32, taps: usize) -> Option<FirBandpass> {
    let e = FirBandpass::design_edges(s(low), s(high), s(sample_rate), s(100.0)).ok()?;
    let bands = [
        BandSetting::new(0.0, g(e.stop_end), constant(0.0)).ok()?,
        BandSetting::new(g(e.pass_start), g(e.pass_end), constant(1.0)).ok()?,
        BandSetting::new(g(e.stop_start), 0.5, constant(0.0)).ok()?,
    ];
    let design = pm_remez(&pm_parameters(odd_taps(taps), &bands).ok()?).ok()?;
    Some(FirBandpass::from_taps(
        design.impulse_response.iter().map(|&t| d(t)).collect(),
    ))
}

fn sine(hz: f32, count: usize) -> Vec<f32> {
    (0..count).map(|i| (2.0 * PI * hz * i as f32 / 48000.0).sin()).collect()
}

fn attenuation_db(input: &[f32], output: &[f32]) -> f32 {
    let rms = |v: &[f32]| {
        (v.iter().skip(1000).map(|x| x * x).sum::<f32>() / (v.len() - 1000) as f32).sqrt()
    };
    20.0 * (rms(output) / rms(input)).log10()
}

#[test]
fn test_fir_highpass_design() {
    let filter = highpass(5000.0, 48000.0, 63);
    assert!(filter.is_some());
    let filter = filter.unwrap();
    assert_eq!(filter.num_taps(), 63);
    assert_eq!(filter.group_delay_samples(), 31);
}

#[test]
fn test_fir_highpass_passes_high_frequency() {
    let mut filter = highpass(2000.0, 48000.0, 127).unwrap();
    let input = sine(10000.0, 4800);
    let mut output = all(&input);
    filter.process_buffer(&mut output);
    let attenuation = attenuation_db(&input, &back(&output));
    assert!(attenuation > -3.0, "High frequency too attenuated: {attenuation} dB");
}

#[test]
fn test_fir_highpass_attenuates_low_frequency() {
    let mut filter = highpass(5000.0, 48000.0, 127).unwrap();
    let input = sine(500.0, 4800);
    let mut output = all(&input);
    filter.process_buffer(&mut output);
    let attenuation = attenuation_db(&input, &back(&output));
    assert!(attenuation < -20.0, "Low frequency not attenuated enough: {attenuation} dB");
}

#[test]
fn test_fir_highpass_group_delay() {
    assert_eq!(highpass(5000.0, 48000.0, 63).unwrap().group_delay_samples(), 31);
    assert_eq!(highpass(5000.0, 48000.0, 127).unwrap().group_delay_samples(), 63);
}

#[test]
fn test_threshold_crossing_offset() {
    let filter = highpass(5000.0, 48000.0, 63).unwrap();
    let offset = f(filter.threshold_crossing_offset(s(0.15), s(0.8)));
    assert_eq!(offset, 0.0, "Offset should be 0 when threshold is exceeded at center tap");
    let total_delay = filter.group_delay_samples() as f32 + offset;
    assert_eq!(total_delay, 31.0);
}

#[test]
fn test_fir_highpass_impulse_response_timing() {
    let mut filter = highpass(5000.0, 48000.0, 63).unwrap();
    let group_delay = filter.group_delay_samples();
    let mut samples = vec![Single::zero(); 200];
    let impulse_idx = 50;
    samples[impulse_idx] = s(0.8);
    filter.process_buffer(&mut samples);
    let peak_idx = back(&samples)
        .iter()
        .enumerate()
        .max_by(|(_, a), (_, b)| a.partial_cmp(b).unwrap())
        .map(|(i, _)| i)
        .unwrap();
    assert_eq!(peak_idx, impulse_idx + group_delay, "Peak should be at impulse + group_delay");
    assert_eq!(filter.peak_tap(), group_delay);
    assert_eq!(filter.impulse_response().len(), 63);
}

#[test]
fn highpass_edges_are_refused_where_they_cross() {
    // Nothing is left of the stopband at this cutoff.
    assert!(FirHighpass::design_edges(s(20.0), s(48000.0), s(500.0)).is_err());
    let (stop_end, pass_start) =
        FirHighpass::design_edges(s(5000.0), s(48000.0), s(500.0)).unwrap();
    assert_eq!(g(stop_end), (5000.0f32 / 48000.0) as f64 - (500.0f32 / 48000.0) as f64);
    assert_eq!(g(pass_start), (5000.0f32 / 48000.0) as f64);
}

#[test]
fn even_tap_counts_become_odd() {
    assert_eq!(odd_taps(62), 63);
    assert_eq!(odd_taps(63), 63);
    assert_eq!(highpass(5000.0, 48000.0, 62).unwrap().num_taps(), 63);
}

#[test]
fn test_fir_bandpass_design() {
    let filter = bandpass(1500.0, 1700.0, 48000.0, 127);
    assert!(filter.is_some());
    assert_eq!(filter.unwrap().num_taps(), 127);
}

#[test]
fn test_fir_bandpass_passes_center_frequency() {
    let mut filter = bandpass(400.0, 600.0, 48000.0, 127).unwrap();
    let input = sine(500.0, 4800);
    let mut output = all(&input);
    filter.process_buffer(&mut output);
    let attenuation = attenuation_db(&input, &back(&output));
    assert!(attenuation > -3.0, "Center frequency too attenuated: {attenuation} dB");
}

#[test]
fn test_fir_bandpass_attenuates_out_of_band() {
    let mut filter = bandpass(400.0, 600.0, 48000.0, 255).unwrap();
    let input = sine(100.0, 4800);
    let mut output = all(&input);
    filter.process_buffer(&mut output);
    let attenuation = attenuation_db(&input, &back(&output));
    assert!(
        attenuation < -20.0,
        "Out-of-band frequency not attenuated enough: {attenuation} dB"
    );
}

#[test]
fn filtering_is_a_sum_of_products() {
    // Taps 0.5, 0.25, -1 against a ramp, in double precision.
    let taps = [0.5f64, 0.25, -1.0];
    let mut core = FirFilterCore::new(taps.iter().map(|&t| d(t)).collect());
    let input: Vec<f32> = (0..10).map(|i| i as f32 * 0.1).collect();
    for (i, &x) in input.iter().enumerate() {
        let mut expected = 0.0f64;
        for (k, &t) in taps.iter().enumerate() {
            expected += t * if i >= k { input[i - k] as f64 } else { 0.0 };
        }
        assert_eq!(f(core.process(s(x))), expected as f32);
    }
    core.reset();
    assert_eq!(f(core.process(s(1.0))), 0.5);
}

fn agc_config() -> AgcConfig {
    AgcConfig {
        target_rms: s(0.5),
        attack_time_ms: s(10.0),
        release_time_ms: s(100.0),
        measurement_window_ms: s(10.0),
        min_gain: s(0.1),
        max_gain: s(10.0),
    }
}

fn agc(config: &AgcConfig, sample_rate: f32) -> AutomaticGainControl {
    let coefficient = |time: Single| {
        s(f(AutomaticGainControl::time_constant_exponent(time, config.measurement_window_ms)).exp())
    };
    AutomaticGainControl::new(
        config,
        s(sample_rate),
        coefficient(config.attack_time_ms),
        coefficient(config.release_time_ms),
    )
}

fn make_tone(amplitude: f32, freq_hz: f32, sample_rate: f32, count: usize) -> Vec<Single> {
    (0..count)
        .map(|i| s(amplitude * (2.0 * PI * freq_hz * i as f32 / sample_rate).sin()))
        .collect()
}

fn rms(samples: &[Single]) -> f32 {
    (samples.iter().map(|&x| f(x) * f(x)).sum::<f32>() / samples.len() as f32).sqrt()
}

#[test]
fn test_agc_converges_weak_signal() {
    let config = agc_config();
    let mut agc = agc(&config, 48000.0);
    let mut signal = make_tone(0.1, 1000.0, 48000.0, 48000);
    agc.process_buffer(&mut signal);
    let output_rms = rms(&signal[signal.len() * 3 / 4..]);
    let error = (output_rms - 0.5).abs() / 0.5;
    assert!(error < 0.15, "weak signal RMS {output_rms}");
}

#[test]
fn test_agc_converges_strong_signal() {
    let config = agc_config();
    let mut agc = agc(&config, 48000.0);
    let mut signal = make_tone(0.9, 1000.0, 48000.0, 48000);
    agc.process_buffer(&mut signal);
    let output_rms = rms(&signal[signal.len() * 3 / 4..]);
    let error = (output_rms - 0.5).abs() / 0.5;
    assert!(error < 0.15, "strong signal RMS {output_rms}");
}

#[test]
fn test_agc_gain_clamping() {
    let config = AgcConfig {
        attack_time_ms: s(1.0),
        release_time_ms: s(10.0),
        measurement_window_ms: s(1.0),
        ..agc_config()
    };
    let mut agc = agc(&config, 48000.0);
    let mut signal = vec![s(0.001); 48000];
    agc.process_buffer(&mut signal);
    assert!(f(agc.current_gain()) <= f(config.max_gain));
}

#[test]
fn test_agc_attack_faster_than_release() {
    let config = agc_config();
    let mut attacking = agc(&config, 48000.0);
    let mut loud = make_tone(0.9, 1000.0, 48000.0, 24000);
    attacking.process_buffer(&mut loud);
    let gain_after_attack = f(attacking.current_gain());

    let mut releasing = agc(&config, 48000.0);
    let mut quiet = make_tone(0.1, 1000.0, 48000.0, 24000);
    releasing.process_buffer(&mut quiet);
    let gain_after_release = f(releasing.current_gain());

    let attack_target = 0.5 / (0.9 / 2.0_f32.sqrt());
    let release_target = 0.5 / (0.1 / 2.0_f32.sqrt());
    let attack_convergence =
        1.0 - (gain_after_attack - attack_target).abs() / (1.0 - attack_target).abs();
    let release_convergence =
        1.0 - (gain_after_release - release_target).abs() / (1.0 - release_target).abs();
    assert!(
        attack_convergence > release_convergence,
        "attack {attack_convergence:.2} vs release {release_convergence:.2}"
    );
}

#[test]
fn test_agc_loud_after_quiet_recovers_fast() {
    let config = agc_config();
    let mut agc = agc(&config, 48000.0);
    let mut quiet = make_tone(0.05, 1000.0, 48000.0, 24000);
    agc.process_buffer(&mut quiet);
    let gain_after_quiet = f(agc.current_gain());
    assert!(gain_after_quiet > 3.0, "after quiet: {gain_after_quiet:.2}");
    let mut loud = make_tone(0.9, 1000.0, 48000.0, 4800);
    agc.process_buffer(&mut loud);
    let gain_after_loud = f(agc.current_gain());
    assert!(gain_after_loud < 1.5, "after loud: {gain_after_loud:.2}");
}

#[test]
fn north_gain_meets_the_target_and_keeps_its_limits() {
    let mut agc = NorthPulseAgc::new(s(0.8), s(0.25), s(0.1), s(10.0));
    assert_eq!(f(agc.gain()), 1.0);
    assert!(!agc.frozen());
    for _ in 0..200 {
        agc.observe(s(0.4 * f(agc.gain())));
    }
    assert!((f(agc.gain()) - 2.0).abs() < 0.05, "gain {}", f(agc.gain()));
    for _ in 0..400 {
        agc.observe(s(1e-6));
    }
    assert!(f(agc.gain()) <= 10.0);
}

#[test]
fn test_dc_remover_converges() {
    let mut remover = DcRemover::new(s(0.01));
    for _ in 0..1000 {
        let mut samples = vec![s(5.0); 100];
        remover.process(&mut samples);
    }
    let mut samples = vec![s(5.0); 10];
    remover.process(&mut samples);
    for &sample in &samples {
        assert!(f(sample).abs() < 0.1, "Expected near zero, got {}", f(sample));
    }
}

#[test]
fn test_dc_remover_preserves_ac() {
    let mut remover = DcRemover::with_cutoff(s(48000.0), s(1.0));
    let wave = || -> Vec<Single> {
        (0..480)
            .map(|i| s(2.0 + (2.0 * PI * 1000.0 * i as f32 / 48000.0).sin()))
            .collect()
    };
    for _ in 0..100 {
        let mut samples = wave();
        remover.process(&mut samples);
    }
    let mut samples = wave();
    remover.process(&mut samples);
    let samples = back(&samples);
    let max = samples.iter().cloned().fold(f32::NEG_INFINITY, f32::max);
    let min = samples.iter().cloned().fold(f32::INFINITY, f32::min);
    let amplitude = (max - min) / 2.0;
    assert!((amplitude - 1.0).abs() < 0.1, "AC amplitude should be ~1.0, got {amplitude}");
}

#[test]
fn test_dc_remover_empty() {
    let mut remover = DcRemover::new(s(0.01));
    let mut samples: Vec<Single> = vec![];
    remover.process(&mut samples);
    assert!(samples.is_empty());
}

#[test]
fn detector_test_zero_crossing_detection() {
    let mut detector = detector::ZeroCrossingDetector::new(s(0.01));
    let signal: Vec<Single> = (0..200).map(|i| s((i as f32 * 0.1).sin())).collect();
    let crossings = detector.find_all_crossings(&signal);
    assert!(crossings.len() >= 2 && crossings.len() <= 4, "found {}", crossings.len());
}

#[test]
fn detector_test_peak_detection() {
    let mut detector = detector::PeakDetector::new(s(0.5), 10);
    let mut signal = vec![s(0.0); 100];
    signal[20] = s(0.8);
    signal[25] = s(0.9);
    signal[50] = s(0.7);
    let peaks = detector.find_all_peaks(&signal);
    assert_eq!(peaks.len(), 2);
    assert_eq!(peaks[0], 20);
    assert_eq!(peaks[1], 50);
}

#[test]
fn detector_test_peak_detector_threshold() {
    let mut detector = detector::PeakDetector::new(s(0.5), 5);
    let signal = all(&[0.3, 0.4, 0.6, 0.7, 0.4, 0.2, 0.3, 0.4, 0.8, 0.3]);
    let peaks = detector.find_all_peaks(&signal);
    assert_eq!(peaks.len(), 2);
    assert_eq!(peaks[0], 2);
    assert_eq!(peaks[1], 8);
}

#[test]
fn detector_test_zero_crossing_hysteresis() {
    let mut detector = detector::ZeroCrossingDetector::new(s(0.1));
    let signal = all(&[-0.05, 0.05, -0.05, 0.05, -0.5, 0.5]);
    let crossings = detector.find_all_crossings(&signal);
    assert_eq!(crossings.len(), 1);
    assert_eq!(crossings[0], 5);
}

#[test]
fn math_test_phase_to_bearing() {
    let bearing = |x: f32| f(phase_to_bearing(s(x)));
    assert!((bearing(0.0) - 0.0).abs() < 0.01);
    assert!((bearing(PI / 2.0) - 90.0).abs() < 0.01);
    assert!((bearing(PI) - 180.0).abs() < 0.01);
    assert!((bearing(3.0 * PI / 2.0) - 270.0).abs() < 0.01);
}

#[test]
fn test_phase_difference() {
    let difference = |a: f32, b: f32| f(phase_difference(s(a), s(b)));
    assert!((difference(1.0, 0.5) - 0.5).abs() < 0.01);
    assert!((difference(0.1, 6.0) - (0.1 - 6.0 + 2.0 * PI)).abs() < 0.01);
    assert!((difference(6.0, 0.1) - (6.0 - 0.1 - 2.0 * PI)).abs() < 0.01);
}

#[test]
fn differences_lose_every_turn() {
    let difference = |a: f32, b: f32| f(phase_difference(s(a), s(b)));
    assert!((difference(10.0, 0.0) - (10.0 - 4.0 * PI)).abs() < 0.01);
    assert!((difference(0.0, 10.0) - (4.0 * PI - 10.0)).abs() < 0.01);
    for k in -50..50 {
        let d = difference(k as f32, 0.0);
        assert!((-PI..=PI).contains(&d), "{k}: {d}");
    }
    assert_eq!(difference(PI, 0.0), PI);
    assert_eq!(difference(-PI, 0.0), -PI);
}

#[test]
fn bearings_lose_every_turn() {
    for (phase, degrees) in [(-7.0f32, 318.93), (7.0, 41.07), (20.0, 65.92), (-20.0, 294.08)] {
        let b = f(phase_to_bearing(s(phase)));
        assert!((b - degrees).abs() < 0.01, "{phase}: {b}");
    }
    assert_eq!(f(phase_to_bearing(s(-1.0e-10))), 0.0);
}

#[test]
fn test_phase_from_crossing() {
    let phase = f(phase_from_crossing(24, s(96.0)));
    assert!((phase - PI / 2.0).abs() < 0.01);
    let phase = f(phase_from_crossing(48, s(96.0)));
    assert!((phase - PI).abs() < 0.01);
}

#[test]
fn test_replace_last_revises_without_consuming_the_window() {
    let mut ma = MovingAverage::new(3);
    assert!((f(ma.replace_last(s(1.0))) - 1.0).abs() < 0.01);
    assert!((f(ma.replace_last(s(3.0))) - 3.0).abs() < 0.01);
    assert!((f(ma.add(s(9.0))) - 6.0).abs() < 0.01);
    assert!((f(ma.replace_last(s(3.0))) - 3.0).abs() < 0.01);
}

#[test]
fn test_moving_average() {
    let mut ma = MovingAverage::new(3);
    assert!((f(ma.add(s(1.0))) - 1.0).abs() < 0.01);
    assert!((f(ma.add(s(2.0))) - 1.5).abs() < 0.01);
    assert!((f(ma.add(s(3.0))) - 2.0).abs() < 0.01);
    assert!((f(ma.add(s(4.0))) - 3.0).abs() < 0.01);
    assert!((f(ma.add(s(5.0))) - 4.0).abs() < 0.01);
}

fn peaks(v: Vec<(isize, Single)>) -> Vec<(isize, f32)> {
    v.into_iter().map(|(i, x)| (i, f(x))).collect()
}

#[test]
fn peak_detector_test_peak_detection() {
    let mut detector = PeakDetector::new(s(0.5), 10);
    let mut signal = vec![s(0.0); 100];
    signal[20] = s(0.8);
    signal[25] = s(0.9);
    signal[50] = s(0.7);
    let peaks = peaks(detector.find_all_peaks(&signal));
    assert_eq!(peaks.len(), 2);
    assert_eq!(peaks[0].0, 25);
    assert!((peaks[0].1 - 0.9).abs() < 0.01);
    assert_eq!(peaks[1].0, 50);
    assert!((peaks[1].1 - 0.7).abs() < 0.01);
}

#[test]
fn test_peak_window_completes_across_buffers() {
    let mut whole = PeakDetector::with_peak_search_window(s(0.5), 10, 4);
    let mut split = PeakDetector::with_peak_search_window(s(0.5), 10, 4);
    let mut signal = vec![s(0.0); 40];
    signal[18] = s(0.6);
    signal[19] = s(0.7);
    signal[20] = s(0.8);
    signal[21] = s(0.9);
    assert_eq!(peaks(whole.find_all_peaks(&signal)), vec![(21, 0.9)]);
    let first = split.find_all_peaks(&signal[..20]);
    assert!(first.is_empty(), "window must defer, got {}", first.len());
    assert_eq!(peaks(split.find_all_peaks(&signal[20..])), vec![(1, 0.9)]);
}

#[test]
fn test_peak_window_deferred_peak_can_resolve_into_previous_buffer() {
    let mut split = PeakDetector::with_peak_search_window(s(0.5), 10, 4);
    let mut signal = vec![s(0.0); 40];
    signal[17] = s(0.6);
    signal[18] = s(0.9);
    signal[19] = s(0.7);
    assert!(split.find_all_peaks(&signal[..20]).is_empty());
    assert_eq!(peaks(split.find_all_peaks(&signal[20..])), vec![(-2, 0.9)]);
}

#[test]
fn peak_detector_test_peak_detector_threshold() {
    let mut detector = PeakDetector::new(s(0.5), 5);
    let signal = all(&[0.3, 0.4, 0.6, 0.7, 0.4, 0.2, 0.3, 0.4, 0.8, 0.3]);
    assert_eq!(peaks(detector.find_all_peaks(&signal)), vec![(3, 0.7)]);
    let continuation = all(&[0.1, 0.0, 0.0, 0.0, 0.0]);
    assert_eq!(peaks(detector.find_all_peaks(&continuation)), vec![(-2, 0.8)]);
}

#[test]
fn a_deferred_peak_can_be_flushed() {
    let mut detector = PeakDetector::with_peak_search_window(s(0.5), 10, 4);
    let mut signal = vec![s(0.0); 20];
    signal[18] = s(0.6);
    signal[19] = s(0.7);
    assert!(detector.find_all_peaks(&signal).is_empty());
    assert_eq!(detector.flush().map(|(i, x)| (i, f(x))), Some((-1, 0.7)));
    assert!(detector.flush().is_none());
}

fn positions(d: &mut ZeroCrossingDetector, v: &[Single]) -> Vec<f32> {
    d.find_all_crossings(v).iter().map(|c| f(c.position())).collect()
}

#[test]
fn zero_crossing_detector_test_zero_crossing_detection() {
    let mut detector = ZeroCrossingDetector::new(s(0.01));
    let signal: Vec<Single> = (0..200).map(|i| s((i as f32 * 0.1).sin())).collect();
    let crossings = positions(&mut detector, &signal);
    assert!(crossings.len() >= 2 && crossings.len() <= 4, "found {}", crossings.len());
}

#[test]
fn zero_crossing_detector_test_zero_crossing_hysteresis() {
    let mut detector = ZeroCrossingDetector::new(s(0.1));
    let crossings = positions(&mut detector, &all(&[-0.05, 0.05, -0.05, 0.05, -0.5, 0.5]));
    assert_eq!(crossings.len(), 1);
    let expected = 5.0 - 0.5 / (0.5 - (-0.5));
    assert!((crossings[0] - expected).abs() < 0.01);
}

#[test]
fn test_zero_crossing_interpolation() {
    let mut detector = ZeroCrossingDetector::new(s(0.01));
    let crossings = positions(&mut detector, &all(&[-0.3, -0.1, 0.2, 0.4]));
    assert_eq!(crossings.len(), 1);
    let expected = 2.0 - 0.2 / (0.2 - (-0.1));
    assert!((crossings[0] - expected).abs() < 0.001, "got {}", crossings[0]);
}

#[test]
fn test_zero_crossing_first_sample_arms_detector() {
    let mut detector = ZeroCrossingDetector::new(s(0.1));
    let crossings = positions(&mut detector, &all(&[-0.5, 0.5]));
    assert_eq!(crossings.len(), 1);
    let expected = 1.0 - 0.5 / (0.5 - (-0.5));
    assert!((crossings[0] - expected).abs() < 0.01);
}

#[test]
fn test_zero_crossings_identical_when_split_across_buffers() {
    let signal: Vec<Single> = (0..200).map(|i| s((i as f32 * 0.1).sin())).collect();
    let mut whole_detector = ZeroCrossingDetector::new(s(0.01));
    let whole = positions(&mut whole_detector, &signal);
    assert!(!whole.is_empty());
    for split_at in [1usize, 30, 63, 100, 199] {
        let mut split_detector = ZeroCrossingDetector::new(s(0.01));
        let mut split_crossings = Vec::new();
        for (start, chunk) in [(0, &signal[..split_at]), (split_at, &signal[split_at..])] {
            for c in positions(&mut split_detector, chunk) {
                split_crossings.push(start as f32 + c);
            }
        }
        assert_eq!(whole.len(), split_crossings.len(), "split at {split_at}");
        for (w, c) in whole.iter().zip(&split_crossings) {
            assert!((w - c).abs() < 1e-3, "split at {split_at}: whole {w} vs split {c}");
        }
    }
}

#[test]
fn test_zero_crossing_interpolation_uses_zero_crossing_not_threshold_crossing() {
    let mut detector = ZeroCrossingDetector::new(s(0.1));
    let crossings = positions(&mut detector, &all(&[-0.3, 0.05, 0.2, 0.4]));
    assert_eq!(crossings.len(), 1);
    let expected = 1.0 - 0.05 / (0.05 - (-0.3));
    assert!((crossings[0] - expected).abs() < 0.01, "got {}", crossings[0]);
}

#[test]
fn window_maxima_are_the_first_of_the_largest() {
    let v = all(&[0.1, 0.9, 0.9, 0.2, 0.3, 0.1]);
    let m = window_max_indices(&v, 3);
    for (i, &at) in m.iter().enumerate() {
        let end = (i + 3).min(v.len());
        let mut best = i;
        for k in i..end {
            if f(v[k]) > f(v[best]) {
                best = k;
            }
        }
        assert_eq!(at, best, "window at {i}");
    }
}

#[test]
fn filters_do_not_see_where_buffers_end() {
    fn run<F: Filter>(filter: &mut F, buffers: &[Vec<Single>]) -> Vec<f32> {
        let mut out = Vec::new();
        for b in buffers {
            let mut buffer = b.clone();
            filter.process_buffer(&mut buffer);
            out.extend(back(&buffer));
        }
        out
    }
    let tone = make_tone(0.7, 1600.0, 48000.0, 300);
    let pieces = [tone[..77].to_vec(), tone[77..].to_vec()];
    let mut whole = bandpass(1500.0, 1700.0, 48000.0, 63).unwrap();
    let mut parts = bandpass(1500.0, 1700.0, 48000.0, 63).unwrap();
    let expected = run(&mut whole, &[tone.clone()]);
    assert_eq!(run(&mut parts, &pieces), expected);
    assert_eq!(f(Filter::process(&mut whole, s(0.25))), f(Filter::process(&mut parts, s(0.25))));
    let mut whole = highpass(2000.0, 48000.0, 63).unwrap();
    let mut parts = highpass(2000.0, 48000.0, 63).unwrap();
    assert_eq!(run(&mut parts, &pieces), run(&mut whole, &[tone.clone()]));
    assert_ne!(back(&tone), expected);
}

#[test]
fn offsets_and_gains_do_not_see_where_buffers_end() {
    let tone = make_tone(0.3, 900.0, 48000.0, 2000);
    let (mut whole, mut first, mut second) =
        (tone.clone(), tone[..613].to_vec(), tone[613..].to_vec());
    DcRemover::new(s(0.01)).process(&mut whole);
    let mut remover = DcRemover::new(s(0.01));
    remover.process(&mut first);
    remover.process(&mut second);
    assert_eq!([back(&first), back(&second)].concat(), back(&whole));

    let config = agc_config();
    let (mut whole, mut first, mut second) =
        (tone.clone(), tone[..613].to_vec(), tone[613..].to_vec());
    let mut one = agc(&config, 48000.0);
    one.process_buffer(&mut whole);
    let mut two = agc(&config, 48000.0);
    two.process_buffer(&mut first);
    two.process_buffer(&mut second);
    assert_eq!([back(&first), back(&second)].concat(), back(&whole));
    assert_eq!(f(one.current_gain()), f(two.current_gain()));
}

#[test]
fn peaks_and_crossings_come_in_order() {
    let signal = make_tone(0.9, 1500.0, 48000.0, 4000);
    let mut peaks = PeakDetector::with_peak_search_window(s(0.3), 20, 6);
    let mut crossings = ZeroCrossingDetector::new(s(0.1));
    for (k, buffer) in signal.chunks(97).enumerate() {
        let found = peaks.find_all_peaks(buffer);
        for pair in found.windows(2) {
            assert!(pair[0].0 < pair[1].0);
        }
        for &(at, amplitude) in &found {
            assert!(-6 < at && at < buffer.len() as isize && f(amplitude) > 0.3);
            assert_eq!(amplitude, signal[(97 * k as isize + at) as usize]);
        }
        let found = crossings.find_all_crossings(buffer);
        for pair in found.windows(2) {
            assert!(f(pair[0].position()) < f(pair[1].position()));
        }
    }
}
