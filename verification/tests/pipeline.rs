//! The processing chain from signal to bearing.
use pm_remez::{constant, pm_parameters, pm_remez, BandSetting};
use rotaryclub::config::{AgcConfig, BearingMethod, ConfidenceConfig, DopplerConfig, DpllConfig, NorthAgcConfig, NorthPulseEstimator, NorthTickConfig, NorthTrackingMode, RdfConfig, RotationFrequency};
use rotaryclub::double::Double;
use rotaryclub::error::Template;
use rotaryclub::processing::{RdfProcessor, TickResult};
use rotaryclub::rdf::bearing;
use rotaryclub::rdf::bearing::{BearingMeasurement, ConfidenceMetrics};
use rotaryclub::rdf::bearing_calculator::BearingCalculator;
use rotaryclub::rdf::bearing_calculator_base::BearingCalculatorBase;
use rotaryclub::rdf::bearing_correlation::CorrelationBearingCalculator;
use rotaryclub::rdf::bearing_zero_crossing::ZeroCrossingBearingCalculator;
use rotaryclub::rdf::north_ref::{NorthReferenceTracker, NorthTick};
use rotaryclub::rdf::north_ref_common::{
    detection_threshold, estimate_fraction, highpass_taps, QuietChannelWatch,
};
use rotaryclub::rdf::north_ref_dpll::DpllNorthTracker;
use rotaryclub::rdf::north_ref_simple::SimpleNorthTracker;
use rotaryclub::rdf::rotation_loop::{LockQualityWeights, LoopParams, RotationLoop};
use rotaryclub::signal_processing::fir_highpass::odd_taps;
use rotaryclub::signal_processing::{AutomaticGainControl, FirBandpass, FirHighpass, NorthPulseAgc};
use rotaryclub::simulation::measure;
use rotaryclub::simulation::signal;
use rotaryclub::simulation::signal::SignalImpairment;
use rotaryclub::single::Single;
use std::f32::consts::PI;

fn s(x: f32) -> Single {
    Single::from_bits(x.to_bits())
}

fn f(x: Single) -> f32 {
    f32::from_bits(x.to_bits())
}

fn d(x: f64) -> Double {
    Double::from_bits(x.to_bits())
}

fn g(x: Double) -> f64 {
    f64::from_bits(x.to_bits())
}

fn all(v: &[f32]) -> Vec<Single> {
    v.iter().map(|&x| s(x)).collect()
}

fn message(t: Template) -> String {
    let shown: Vec<String> = t.numbers().iter().map(|&x| f(x).to_string()).collect();
    t.fill(&shown)
}

fn db_to_amplitude(db: f32) -> f32 {
    10.0_f32.powf(db / 20.0)
}

fn taps(design: Vec<f64>) -> Vec<Double> {
    design.into_iter().map(d).collect()
}

fn highpass(config: &NorthTickConfig, sample_rate: f32) -> Result<FirHighpass, String> {
    let (stop_end, pass_start) = FirHighpass::design_edges(
        config.highpass_cutoff,
        s(sample_rate),
        config.highpass_transition_hz,
    )
    .map_err(message)?;
    let bands = [
        BandSetting::new(0.0, g(stop_end), constant(0.0)).map_err(|e| format!("{e:?}"))?,
        BandSetting::new(g(pass_start), 0.5, constant(1.0)).map_err(|e| format!("{e:?}"))?,
    ];
    let count = odd_taps(highpass_taps(config, s(sample_rate)));
    let parameters = pm_parameters(count, &bands).map_err(|e| format!("{e:?}"))?;
    let design = pm_remez(&parameters).map_err(|e| format!("{e:?}"))?;
    Ok(FirHighpass::from_taps(taps(design.impulse_response)))
}

fn bandpass(low: Single, high: Single, sample_rate: f32, count: usize, transition: Single)
    -> Result<(FirBandpass, Vec<f64>), String>
{
    let e = FirBandpass::design_edges(low, high, s(sample_rate), transition).map_err(message)?;
    let bands = [
        BandSetting::new(0.0, g(e.stop_end), constant(0.0)).map_err(|e| format!("{e:?}"))?,
        BandSetting::new(g(e.pass_start), g(e.pass_end), constant(1.0))
            .map_err(|e| format!("{e:?}"))?,
        BandSetting::new(g(e.stop_start), 0.5, constant(0.0)).map_err(|e| format!("{e:?}"))?,
    ];
    let parameters = pm_parameters(odd_taps(count), &bands).map_err(|e| format!("{e:?}"))?;
    let design = pm_remez(&parameters).map_err(|e| format!("{e:?}"))?;
    let h = design.impulse_response;
    Ok((FirBandpass::from_taps(taps(h.clone())), h))
}

fn noise_bandwidth(h: &[f64], sample_rate: f32, at_hz: f32) -> f32 {
    let energy: f64 = h.iter().map(|t| t * t).sum();
    let omega = 2.0 * std::f64::consts::PI * at_hz as f64 / sample_rate as f64;
    let (mut re, mut im) = (0.0, 0.0);
    for (i, t) in h.iter().enumerate() {
        re += t * (omega * i as f64).cos();
        im += t * (omega * i as f64).sin();
    }
    (energy * sample_rate as f64 / 2.0 / (re * re + im * im)) as f32
}

fn weights() -> LockQualityWeights {
    LockQualityWeights { phase_weight: s(0.5), frequency_weight: s(0.5) }
}

fn agc_alpha(config: &NorthTickConfig) -> Single {
    let n = NorthPulseAgc::observations_per_constant(
        config.agc.time_constant_secs,
        config.dpll.initial_frequency_hz,
    );
    s(1.0 - (-1.0 / f(n)).exp())
}

fn dpll(config: &NorthTickConfig, sample_rate: f32) -> Result<DpllNorthTracker, String> {
    DpllNorthTracker::new(
        config,
        s(sample_rate),
        s(db_to_amplitude(f(config.gain_db))),
        agc_alpha(config),
        highpass(config, sample_rate)?,
        weights(),
    )
    .map_err(|e| message(e.template()))
}

fn simple(config: &NorthTickConfig, sample_rate: f32) -> Result<SimpleNorthTracker, String> {
    SimpleNorthTracker::new(
        config,
        s(sample_rate),
        s(db_to_amplitude(f(config.gain_db))),
        highpass(config, sample_rate)?,
    )
    .map_err(|e| message(e.template()))
}

fn tracker(config: &NorthTickConfig, sample_rate: f32) -> Result<NorthReferenceTracker, String> {
    NorthReferenceTracker::new(
        config,
        s(sample_rate),
        s(db_to_amplitude(f(config.gain_db))),
        agc_alpha(config),
        highpass(config, sample_rate)?,
        weights(),
    )
    .map_err(|e| message(e.template()))
}

fn agc(config: &AgcConfig, sample_rate: f32) -> AutomaticGainControl {
    let coefficient =
        |time: Single| s(f(AutomaticGainControl::time_constant_exponent(time, config.measurement_window_ms)).exp());
    AutomaticGainControl::new(
        config,
        s(sample_rate),
        coefficient(config.attack_time_ms),
        coefficient(config.release_time_ms),
    )
}

fn base(
    doppler: &DopplerConfig,
    agc_config: &AgcConfig,
    confidence: ConfidenceConfig,
    sample_rate: f32,
    smoothing: usize,
) -> Result<BearingCalculatorBase, String> {
    let (filter, h) = bandpass(
        doppler.bandpass_low,
        doppler.bandpass_high,
        sample_rate,
        doppler.bandpass_taps,
        doppler.bandpass_transition_hz,
    )?;
    let width = noise_bandwidth(&h, sample_rate, f(doppler.expected_freq));
    BearingCalculatorBase::new(
        doppler,
        agc(agc_config, sample_rate),
        filter,
        s(width),
        confidence,
        s(sample_rate),
        smoothing,
    )
    .map_err(|e| message(e.template()))
}

fn power_to_db(ratio: f32) -> f32 {
    10.0 * ratio.log10()
}

fn resultant_from_snr(snr: f32) -> f32 {
    (-0.5 / snr.max(1e-9)).exp()
}

/// What one tick is worth, once the angles are taken.
struct Looked {
    raw: Single,
    metrics: ConfidenceMetrics,
}

fn look_correlation(c: &CorrelationBearingCalculator, tick: &NorthTick) -> Option<Looked> {
    let phases = c.reference_phases(tick)?;
    let cos: Vec<Single> = phases.iter().map(|&p| s(f(p).cos())).collect();
    let sin: Vec<Single> = phases.iter().map(|&p| s(f(p).sin())).collect();
    let correlation = c.correlate(&cos, &sin)?;
    let windows: Vec<Single> = match c.window_vectors(tick, &correlation, &cos, &sin) {
        Some(v) => v.iter().map(|&(x, y)| s(f(x).atan2(f(y)))).collect(),
        None => Vec::new(),
    };
    let vectors: Vec<(Single, Single)> =
        windows.iter().map(|&p| (s(f(p).cos()), s(f(p).sin()))).collect();
    let (sum_x, sum_y) = bearing::vector_sum(&vectors);
    let mean = s(f(sum_y).atan2(f(sum_x)));
    let snr = f(c.tone_snr(&correlation));
    let metrics = c.metrics(
        tick,
        &correlation,
        s(power_to_db(snr)),
        s(resultant_from_snr(snr)),
        &windows,
        mean,
    );
    let raw = c.raw_bearing(s(f(correlation.i).atan2(f(correlation.q))));
    Some(Looked { raw, metrics })
}

fn look_zero_crossing(c: &ZeroCrossingBearingCalculator, tick: &NorthTick) -> Option<Looked> {
    let angles = c.crossing_angles(tick)?;
    let vectors: Vec<(Single, Single)> =
        angles.iter().map(|&a| (s(f(a).cos()), s(f(a).sin()))).collect();
    let (x, y) = bearing::vector_sum(&vectors);
    let phase = s(f(y).atan2(f(x)));
    let (snr, snr_db) = match c.ideal_phases(tick, phase) {
        Some(ideal) => {
            let ideal: Vec<Single> = ideal.iter().map(|&p| s(f(p).sin())).collect();
            let snr = f(c.tone_snr(&ideal));
            (snr, power_to_db(snr))
        }
        None => (1.0, 0.0),
    };
    let metrics = c.metrics(tick, s(snr), s(snr_db), s(resultant_from_snr(snr)));
    Some(Looked { raw: bearing::phase_to_bearing(phase), metrics })
}

fn smoothed(averages: (Single, Single)) -> Single {
    let (cos, sin) = averages;
    bearing::phase_to_bearing(s(f(sin).atan2(f(cos))))
}

struct Engine {
    processor: RdfProcessor,
}

impl Engine {
    fn new(config: &RdfConfig, remove_dc: bool, compute_bearings: bool) -> Result<Engine, String> {
        let sample_rate = config.audio.sample_rate as f32;
        let tracker = tracker(&config.north_tick, sample_rate)?;
        let calculator = if compute_bearings {
            let base = base(
                &config.doppler,
                &config.agc,
                config.bearing.confidence,
                sample_rate,
                config.bearing.smoothing_window,
            )?;
            Some(match config.doppler.method {
                BearingMethod::ZeroCrossing => BearingCalculator::ZeroCrossing(Box::new(
                    ZeroCrossingBearingCalculator::new(base, config.doppler.zero_cross_hysteresis),
                )),
                BearingMethod::Correlation => {
                    BearingCalculator::Correlation(Box::new(CorrelationBearingCalculator::new(base)))
                }
            })
        } else {
            None
        };
        Ok(Engine { processor: RdfProcessor::new(config, tracker, calculator, remove_dc) })
    }

    fn measure(&mut self, tick: &NorthTick) -> Option<BearingMeasurement> {
        let looked = match self.processor.calculator()? {
            BearingCalculator::Correlation(c) => look_correlation(c, tick)?,
            BearingCalculator::ZeroCrossing(c) => look_zero_crossing(c, tick)?,
        };
        let radians = f(looked.raw).to_radians();
        let averages = self.processor.smooth_bearing(s(radians.cos()), s(radians.sin()))?;
        let calculator = self.processor.calculator()?;
        Some(calculator.measurement(smoothed(averages), looked.raw, looked.metrics))
    }

    fn process_audio(&mut self, interleaved: &[f32]) -> Vec<TickResult> {
        let ticks = self.processor.process_audio(&all(interleaved));
        let results = ticks
            .iter()
            .map(|tick| TickResult { north_tick: *tick, bearing: self.measure(tick) })
            .collect();
        self.processor.finish_buffer();
        results
    }

    fn process_signal(&mut self, interleaved: &[f32]) -> Vec<TickResult> {
        let chunk = self.processor.chunk_size();
        interleaved.chunks(chunk).flat_map(|c| self.process_audio(c)).collect()
    }
}

/// A filter in the machine's arithmetic, which that of the library equals.
fn filtered(h: &[f64], samples: &[f32]) -> Vec<f32> {
    (0..samples.len())
        .map(|i| {
            let mut sum = 0.0f64;
            for (k, t) in h.iter().enumerate().take(i + 1) {
                sum += t * samples[i - k] as f64;
            }
            sum as f32
        })
        .collect()
}

fn interference(n: usize, sample_rate: u32, impairment: &SignalImpairment) -> Vec<Single> {
    let raw: Vec<f32> =
        signal::raw_noise(n, impairment.seed).iter().map(|&x| f(x)).collect();
    let (_, h) = bandpass(
        impairment.audio_low_hz,
        impairment.audio_high_hz,
        sample_rate as f32,
        signal::AUDIO_BAND_TAPS,
        Single::from_bits(signal::AUDIO_BAND_TRANSITION_HZ),
    )
    .unwrap();
    let mut raw = all(&filtered(&h, &raw));
    if let Some(exponents) = signal::envelope_exponents(n, sample_rate, impairment) {
        let levels: Vec<Single> = exponents.iter().map(|&e| s(f(e).exp())).collect();
        signal::apply_envelope(&mut raw, &levels, sample_rate);
    }
    let heard: Vec<f32> = raw.iter().map(|&x| f(x)).collect();
    let low = f(Single::from_bits(signal::DOPPLER_BAND_LOW_HZ));
    let high = f(Single::from_bits(signal::DOPPLER_BAND_HIGH_HZ));
    let power = machine_band_power(&heard, sample_rate as f32, low, high);
    let scale = signal::interference_scale(impairment.passband_noise_to_tone, d(power));
    signal::scale_audio(&mut raw, scale);
    raw
}

fn generate(
    duration: f32,
    sample_rate: u32,
    rotation_hz: f32,
    bearing_degrees: f32,
    impairment: &SignalImpairment,
) -> Vec<f32> {
    let n = signal::sample_count(s(duration), sample_rate);
    let mut north = vec![Single::zero(); n];
    let mut rotation = 0;
    while let Some(epoch) = signal::pulse_epoch(rotation, sample_rate, s(rotation_hz), n) {
        let samples = signal::pulse_samples(epoch, n);
        let values: Vec<Double> = samples
            .iter()
            .map(|p| match signal::pulse_angles(p.offset) {
                None => d(1.0),
                Some(a) => signal::pulse_value(a, d(g(a.phase).sin()), d(g(a.window).sin())),
            })
            .collect();
        signal::add_north_pulse(&mut north, &samples, &values, impairment.north_pulse_amplitude);
        rotation += 1;
    }
    let audio = if f(impairment.passband_noise_to_tone) > 0.0 {
        interference(n, sample_rate, impairment)
    } else {
        vec![Single::zero(); n]
    };
    let path = |p: Single| {
        let x = f(p);
        signal::path(s(x.sin()), s((2.0 * x).sin()), s((3.0 * x).sin()), impairment)
    };
    let tones: Vec<Single> = (0..n)
        .map(|i| {
            let p = signal::tone_phases(
                i,
                sample_rate,
                s(rotation_hz),
                s(bearing_degrees),
                impairment,
            );
            signal::tone(path(p.direct), p.reflected.map(path), impairment)
        })
        .collect();
    signal::mix_frames(&tones, &audio, &north, impairment).iter().map(|&x| f(x)).collect()
}

fn generate_test_signal(duration: f32, sample_rate: u32, rotation_hz: f32, bearing: f32) -> Vec<f32> {
    generate(duration, sample_rate, rotation_hz, bearing, &SignalImpairment::none())
}

fn angle_error(measured: f32, expected: f32) -> f32 {
    f(measure::angle_error(s(measured), s(expected)))
}

fn circular_mean_degrees(angles: &[f32]) -> Option<f32> {
    let vectors: Vec<(Single, Single)> = measure::radians(&all(angles))
        .iter()
        .map(|&r| (s(f(r).cos()), s(f(r).sin())))
        .collect();
    let (x, y) = measure::circular_sum(&vectors)?;
    Some(f(measure::circular_mean_degrees(s(f(y).atan2(f(x))))))
}

fn extract_bearings(results: &[TickResult]) -> Vec<f32> {
    results.iter().filter_map(|r| r.bearing.map(|b| f(b.bearing_degrees))).collect()
}

fn mean_bearing_skipping_warmup(results: &[TickResult], skip: usize) -> Option<f32> {
    let bearings = extract_bearings(results);
    if bearings.len() > skip {
        circular_mean_degrees(&bearings[skip..])
    } else {
        circular_mean_degrees(&bearings)
    }
}

#[test]
fn test_process_signal_bearing_accuracy() {
    let config = RdfConfig::default();
    let rotation_hz = f(config.doppler.expected_freq);
    for expected in [0.0_f32, 45.0, 90.0, 135.0, 180.0, 225.0, 270.0, 315.0] {
        let signal = generate_test_signal(0.5, config.audio.sample_rate, rotation_hz, expected);
        let mut engine = Engine::new(&config, false, true).unwrap();
        let results = engine.process_signal(&signal);
        let measured = mean_bearing_skipping_warmup(&results, 3).expect("bearings");
        let error = angle_error(measured, expected).abs();
        assert!(error < 3.0, "Bearing {expected}: measured {measured:.1}, error {error:.1}");
    }
}

#[test]
fn test_process_signal_both_methods() {
    let config = RdfConfig::default();
    let expected = 135.0;
    let signal = generate_test_signal(
        0.5,
        config.audio.sample_rate,
        f(config.doppler.expected_freq),
        expected,
    );
    let mut zc_config = config;
    zc_config.doppler.method = BearingMethod::ZeroCrossing;
    let mut corr_config = config;
    corr_config.doppler.method = BearingMethod::Correlation;
    let zc_results = Engine::new(&zc_config, false, true).unwrap().process_signal(&signal);
    let corr_results = Engine::new(&corr_config, false, true).unwrap().process_signal(&signal);
    let zc_bearing = mean_bearing_skipping_warmup(&zc_results, 3).expect("No ZC bearings");
    let corr_bearing =
        mean_bearing_skipping_warmup(&corr_results, 3).expect("No Correlation bearings");
    let zc_error = angle_error(zc_bearing, expected).abs();
    let corr_error = angle_error(corr_bearing, expected).abs();
    let method_diff = angle_error(zc_bearing, corr_bearing).abs();
    assert!(zc_error < 3.0, "ZC error {zc_error:.1}");
    assert!(corr_error < 3.0, "Correlation error {corr_error:.1}");
    assert!(method_diff < 2.0, "Methods disagree by {method_diff:.1}");
}

#[test]
fn test_north_tick_detection() {
    let config = RdfConfig::default();
    let rotation_hz = f(config.doppler.expected_freq);
    let signal = generate_test_signal(0.5, config.audio.sample_rate, rotation_hz, 0.0);
    let mut engine = Engine::new(&config, false, true).unwrap();
    let results = engine.process_signal(&signal);
    let expected_ticks = (rotation_hz * 0.5) as usize;
    let margin = (expected_ticks as f32 * 0.15) as usize;
    assert!(
        results.len() >= expected_ticks - margin && results.len() <= expected_ticks + margin,
        "Expected ~{} ticks, got {}",
        expected_ticks,
        results.len()
    );
    assert!(engine.processor.last_north_tick().is_some());
    let freq = f(engine.processor.rotation_frequency().expect("a frequency"));
    assert!((freq - rotation_hz).abs() < 50.0, "{freq:.1} Hz against {rotation_hz:.1}");
}

#[test]
fn test_compute_bearings_false() {
    let config = RdfConfig::default();
    let signal = generate_test_signal(
        0.5,
        config.audio.sample_rate,
        f(config.doppler.expected_freq),
        90.0,
    );
    let mut engine = Engine::new(&config, false, false).unwrap();
    let results = engine.process_signal(&signal);
    assert!(!results.is_empty(), "Should still detect north ticks");
    assert!(results.iter().all(|r| r.bearing.is_none()));
    assert!(engine.processor.last_north_tick().is_some());
}

#[test]
fn test_process_audio_chunked_matches_process_signal() {
    let config = RdfConfig::default();
    let signal = generate_test_signal(
        0.5,
        config.audio.sample_rate,
        f(config.doppler.expected_freq),
        200.0,
    );
    let whole = extract_bearings(&Engine::new(&config, false, true).unwrap().process_signal(&signal));
    let mut engine = Engine::new(&config, false, true).unwrap();
    let mut results = Vec::new();
    for chunk in signal.chunks(config.audio.buffer_size * 2) {
        results.extend(engine.process_audio(chunk));
    }
    let chunked = extract_bearings(&results);
    assert_eq!(whole.len(), chunked.len());
    for (i, (w, c)) in whole.iter().zip(chunked.iter()).enumerate() {
        assert!((w - c).abs() < 1e-6, "Bearing {i} differs: {w} against {c}");
    }
}

#[test]
fn test_dc_removal() {
    let config = RdfConfig::default();
    let expected = 90.0;
    let signal = generate_test_signal(
        0.5,
        config.audio.sample_rate,
        f(config.doppler.expected_freq),
        expected,
    );
    let with_dc: Vec<f32> = signal.iter().map(|x| x + 0.5).collect();
    let plain = Engine::new(&config, false, true).unwrap().process_signal(&with_dc);
    let removed = Engine::new(&config, true, true).unwrap().process_signal(&with_dc);
    let bearing_plain = mean_bearing_skipping_warmup(&plain, 3);
    let bearing_removed = mean_bearing_skipping_warmup(&removed, 3);
    if let Some(b) = bearing_removed {
        let error = angle_error(b, expected).abs();
        assert!(error < 10.0, "DC removal bearing error {error:.1}");
    }
    if let (Some(a), Some(b)) = (bearing_removed, bearing_plain) {
        let error_removed = angle_error(a, expected).abs();
        let error_plain = angle_error(b, expected).abs();
        assert!(
            error_removed <= error_plain + 5.0,
            "DC removal made accuracy worse: {error_removed:.1} vs {error_plain:.1}"
        );
    }
}

#[test]
fn test_filtered_buffers_nonempty() {
    let config = RdfConfig::default();
    let signal = generate_test_signal(
        0.1,
        config.audio.sample_rate,
        f(config.doppler.expected_freq),
        0.0,
    );
    let mut engine = Engine::new(&config, false, true).unwrap();
    engine.process_signal(&signal);
    assert!(!engine.processor.filtered_doppler().is_empty());
    assert!(!engine.processor.filtered_north().is_empty());
}

#[test]
fn test_empty_signal() {
    let config = RdfConfig::default();
    let mut engine = Engine::new(&config, false, true).unwrap();
    let results = engine.process_signal(&[]);
    assert!(results.is_empty(), "Empty input should produce no results");
    assert!(engine.processor.last_north_tick().is_none());
}

#[test]
fn test_smoothing_window_zero_rejected() {
    let mut config = RdfConfig::default();
    config.bearing.smoothing_window = 0;
    match Engine::new(&config, false, true) {
        Err(msg) => assert!(msg.contains("smoothing_window"), "Unexpected message: {msg}"),
        Ok(_) => panic!("Expected zero smoothing window to be rejected"),
    }
}

fn correlation(
    doppler: &DopplerConfig,
    confidence: ConfidenceConfig,
) -> Result<CorrelationBearingCalculator, String> {
    Ok(CorrelationBearingCalculator::new(base(
        doppler,
        &AgcConfig::default(),
        confidence,
        48000.0,
        1,
    )?))
}

fn process_buffer(
    calc: &mut CorrelationBearingCalculator,
    buffer: &[f32],
    tick: &NorthTick,
) -> Option<BearingMeasurement> {
    calc.preprocess(&all(buffer));
    let result = look_correlation(calc, tick).map(|looked| {
        let radians = f(looked.raw).to_radians();
        let averages = calc.smooth_bearing(s(radians.cos()), s(radians.sin()));
        calc.measurement(smoothed(averages), looked.raw, looked.metrics)
    });
    calc.advance_buffer();
    result
}

fn tick_at(period: f32, omega: f32, offset: f32) -> NorthTick {
    NorthTick {
        sample_index: 0,
        period: Some(s(period)),
        lock_quality: None,
        phase_variance: Some(s(0.0)),
        fractional_sample_offset: s(offset),
        phase: s(0.0),
        frequency: s(omega),
    }
}

fn narrow() -> DopplerConfig {
    DopplerConfig {
        expected_freq: s(480.0),
        bandpass_low: s(400.0),
        bandpass_high: s(560.0),
        ..Default::default()
    }
}

#[test]
fn test_correlation_bearing_calculator_creation() {
    let calc = correlation(&DopplerConfig::default(), ConfidenceConfig::default());
    assert!(calc.is_ok(), "Should be able to create CorrelationBearingCalculator");
}

#[test]
fn test_bearing_from_known_phase() {
    let mut calc = correlation(&narrow(), ConfidenceConfig::default()).unwrap();
    let period = 48000.0 / 480.0;
    let tick = tick_at(period, 2.0 * PI / period, 0.0);
    let omega = 2.0 * PI * 480.0 / 48000.0;
    let bearing_radians = 45.0f32.to_radians();
    let buffer: Vec<f32> = (0..300).map(|i| (omega * i as f32 - bearing_radians).sin()).collect();
    let bearing = f(process_buffer(&mut calc, &buffer, &tick).expect("a measurement").raw_bearing);
    assert!((bearing - 45.0).abs() < 5.0, "Got {bearing}, expected 45.0");
}

#[test]
fn test_fractional_tick_offset_improves_alignment() {
    let doppler = DopplerConfig {
        expected_freq: s(1_602.0),
        bandpass_low: s(1_500.0),
        bandpass_high: s(1_700.0),
        ..Default::default()
    };
    let mut uncorrected = correlation(&doppler, ConfidenceConfig::default()).unwrap();
    let mut corrected = correlation(&doppler, ConfidenceConfig::default()).unwrap();
    let period = 48_000.0 / 1_602.0;
    let omega = 2.0 * PI / period;
    let offset = 0.4f32;
    let expected = 120.0f32;
    let buffer: Vec<f32> = (0..4800)
        .map(|i| (omega * (i as f32 - offset) - expected.to_radians()).sin())
        .collect();
    let a = process_buffer(&mut uncorrected, &buffer, &tick_at(period, omega, 0.0)).unwrap();
    let b = process_buffer(&mut corrected, &buffer, &tick_at(period, omega, offset)).unwrap();
    let err_uncorrected = angle_error(f(a.raw_bearing), expected).abs();
    let err_corrected = angle_error(f(b.raw_bearing), expected).abs();
    assert!(
        err_corrected < err_uncorrected,
        "uncorrected {err_uncorrected}, corrected {err_corrected}"
    );
    assert!(err_corrected < 10.0, "Corrected bearing error too large: {err_corrected}");
}

#[test]
fn test_silent_doppler_channel_yields_no_bearing() {
    let mut calc = correlation(&narrow(), ConfidenceConfig::default()).unwrap();
    let period = 48000.0 / 480.0;
    let tick = tick_at(period, 2.0 * PI / period, 0.0);
    let buffer = vec![0.0f32; 4800];
    assert!(process_buffer(&mut calc, &buffer, &tick).is_none());
}

#[test]
fn test_circular_phase_mean_wraparound() {
    let phases = [
        179.0_f32.to_radians(),
        -179.0_f32.to_radians(),
        178.0_f32.to_radians(),
        -178.0_f32.to_radians(),
    ];
    let vectors: Vec<(Single, Single)> =
        phases.iter().map(|p| (s(p.cos()), s(p.sin()))).collect();
    let (x, y) = bearing::vector_sum(&vectors);
    let mean = f(y).atan2(f(x));
    let error_to_pi = f(bearing::wrap_phase_diff(s(mean), s(PI))).abs();
    assert!(error_to_pi < 0.1, "Expected circular mean near pi, got {mean}");
}

#[test]
fn test_correlation_confidence_uses_the_configured_half_point() {
    let period = 48000.0 / 480.0;
    let omega = 2.0 * PI / period;
    let confidence_at = |half: f32| -> f32 {
        let mut calc = correlation(
            &narrow(),
            ConfidenceConfig { half_confidence_deg: s(half), ..Default::default() },
        )
        .unwrap();
        let bearing_radians = 45.0f32.to_radians();
        let buffer: Vec<f32> =
            (0..4800).map(|i| (omega * i as f32 - bearing_radians).sin()).collect();
        f(process_buffer(&mut calc, &buffer, &tick_at(period, omega, 0.0)).unwrap().confidence)
    };
    let lax = confidence_at(30.0);
    let strict = confidence_at(0.01);
    assert!(lax > 0.9, "judged against 30 degrees: {lax}");
    assert!(strict < 0.1, "judged against a hundredth of a degree: {strict}");
}

#[test]
fn test_correlation_metrics_clean_signal() {
    let mut calc = correlation(&narrow(), ConfidenceConfig::default()).unwrap();
    let period = 48000.0 / 480.0;
    let omega = 2.0 * PI / period;
    let bearing_radians = 45.0f32.to_radians();
    let buffer: Vec<f32> =
        (0..4800).map(|i| (omega * i as f32 - bearing_radians).sin()).collect();
    let m = process_buffer(&mut calc, &buffer, &tick_at(period, omega, 0.0)).unwrap();
    assert!(f(m.metrics.signal_strength) > 0.95, "strength {}", f(m.metrics.signal_strength));
    assert!(f(m.metrics.snr_db) > 5.0, "SNR {} dB", f(m.metrics.snr_db));
}

#[test]
fn test_uncertainty_sees_rotation_to_rotation_phase_noise() {
    let doppler = narrow();
    let period = 48000.0f32 / 480.0;
    let omega = 2.0 * PI / period;
    let tick = tick_at(period, omega, 0.0);
    // A filter that passes everything and a gain that stays at one, with the
    // looks of the configured filter, so that the wobble is what is measured.
    let uncertainty_with_wobble = |wobble: f32| -> f32 {
        let unit = AgcConfig { min_gain: s(1.0), max_gain: s(1.0), ..AgcConfig::default() };
        let base = BearingCalculatorBase::new(
            &doppler,
            agc(&unit, 48000.0),
            FirBandpass::from_taps(vec![d(1.0)]),
            s(48000.0 / (2.0 * doppler.bandpass_taps as f32)),
            ConfidenceConfig::default(),
            s(48000.0),
            1,
        )
        .map_err(|e| message(e.template()))
        .unwrap();
        let mut calc = CorrelationBearingCalculator::new(base);
        let bearing_radians = 45.0f32.to_radians();
        let per_rotation = period as usize;
        let buffer: Vec<f32> = (0..4800)
            .map(|i| {
                let sign = if (i / per_rotation) % 2 == 0 { 1.0 } else { -1.0 };
                (omega * i as f32 - bearing_radians + sign * wobble).sin()
            })
            .collect();
        calc.preprocess(&all(&buffer));
        let looked = look_correlation(&calc, &tick).expect("a look");
        f(looked.metrics.bearing_uncertainty_deg.expect("an uncertainty"))
    };
    let steady = uncertainty_with_wobble(0.0);
    let wobbling = uncertainty_with_wobble(0.5);
    assert!(steady < 1.0, "steady tone claims {steady}");
    assert!((3.0..7.0).contains(&wobbling), "got {wobbling} against {steady}");
}

fn zero_crossing(doppler: &DopplerConfig) -> Result<ZeroCrossingBearingCalculator, String> {
    Ok(ZeroCrossingBearingCalculator::new(
        base(doppler, &AgcConfig::default(), ConfidenceConfig::default(), 48000.0, 1)?,
        doppler.zero_cross_hysteresis,
    ))
}

#[test]
fn test_zero_crossing_bearing_calculator_creation() {
    let calc = zero_crossing(&DopplerConfig::default());
    assert!(calc.is_ok(), "Should be able to create ZeroCrossingBearingCalculator");
}

#[test]
fn test_unknown_reference_suppresses_the_uncertainty() {
    let doppler = DopplerConfig::default();
    let period = 48_000.0 / f(doppler.expected_freq);
    let omega = 2.0 * PI / period;
    let measure = |reference: Option<f32>| -> Option<f32> {
        let mut calc = zero_crossing(&doppler).expect("calculator");
        let tick = NorthTick {
            lock_quality: Some(s(1.0)),
            phase_variance: reference.map(s),
            ..tick_at(period, omega, 0.0)
        };
        let buffer: Vec<f32> = (0..4096)
            .map(|i| (omega * i as f32 - 45.0f32.to_radians()).sin())
            .collect();
        calc.preprocess(&all(&buffer));
        let looked = look_zero_crossing(&calc, &tick).expect("a bearing");
        looked.metrics.bearing_uncertainty_deg.map(f)
    };
    assert!(measure(None).is_none(), "an unknown reference must give none");
    assert!(measure(Some(0.0)).is_some(), "a known reference must give a figure");
}

#[test]
fn test_simple_tracker() {
    let config = NorthTickConfig { mode: NorthTrackingMode::Simple, ..Default::default() };
    let mut tracker = tracker(&config, 48000.0).unwrap();
    let mut signal = vec![s(0.0); 500];
    for at in [50, 146, 242] {
        signal[at] = s(0.8);
    }
    let ticks = tracker.process_buffer(&signal);
    assert!(ticks.len() >= 2, "Simple tracker should detect ticks");
}

#[test]
fn test_dpll_tracker() {
    let config = NorthTickConfig { mode: NorthTrackingMode::Dpll, ..Default::default() };
    let mut tracker = tracker(&config, 48000.0).unwrap();
    let mut signal = vec![s(0.0); 500];
    for at in [50, 146, 242] {
        signal[at] = s(0.8);
    }
    let ticks = tracker.process_buffer(&signal);
    assert!(ticks.len() >= 2, "DPLL tracker should detect ticks");
}

#[test]
fn test_the_default_fraction_reproduces_the_measured_threshold() {
    let mut config = RdfConfig::default();
    config.north_tick.agc.enabled = false;
    let filter = highpass(&config.north_tick, config.audio.sample_rate as f32).unwrap();
    let threshold = f(detection_threshold(
        config.north_tick.resolved_threshold_fraction(),
        config.north_tick.expected_pulse_amplitude,
        &filter,
    ));
    assert!((threshold - 0.15).abs() < 1e-4, "threshold of {threshold}");
}

#[test]
fn test_the_margin_is_invariant_under_gain() {
    let config = RdfConfig::default();
    let filter = highpass(&config.north_tick, config.audio.sample_rate as f32).unwrap();
    let expected = f(config.north_tick.expected_pulse_amplitude);
    let fraction = f(config.north_tick.resolved_threshold_fraction());
    for gain_db in [-20.0f32, -6.0, 0.0, 6.0, 20.0] {
        let gain = db_to_amplitude(gain_db);
        let threshold = f(detection_threshold(s(fraction), s(expected * gain), &filter));
        let pulse_peak = expected * gain * f(filter.peak_response());
        let margin = threshold / pulse_peak;
        assert!((margin - fraction).abs() < 1e-5, "at {gain_db} dB the margin is {margin}");
    }
}

#[test]
fn test_dpll_north_tick_detection() {
    let config = NorthTickConfig::default();
    let mut tracker = dpll(&config, 48000.0).unwrap();
    let samples_per_pulse = (48000.0 / 1602.0) as usize;
    let mut detected = 0;
    for _ in 0..40 {
        let mut signal = vec![s(0.0); samples_per_pulse];
        signal[5] = s(0.8);
        detected += tracker.process_buffer(&signal).len();
    }
    assert!(detected >= 30, "Should detect most ticks with FIR filter, got {detected}");
    if let Some(freq) = tracker.rotation_frequency() {
        assert!((f(freq) - 1602.0).abs() < 50.0, "Rotation frequency {}", f(freq));
    }
}

fn slow_loop() -> DpllConfig {
    DpllConfig {
        initial_frequency_hz: s(480.0),
        natural_frequency_hz: s(10.0),
        damping_ratio: s(0.707),
        frequency_min_hz: s(300.0),
        frequency_max_hz: s(800.0),
    }
}

fn check_positions(ticks: &[NorthTick], pulses: &[usize]) {
    assert!(ticks.len() == pulses.len(), "Expected {} ticks, got {}", pulses.len(), ticks.len());
    for tick in ticks {
        let closest = pulses
            .iter()
            .min_by_key(|&&p| (p as isize - tick.sample_index as isize).abs())
            .unwrap();
        let error = (*closest as isize - tick.sample_index as isize).abs();
        assert!(error <= 2, "Tick {} too far from pulse {}", tick.sample_index, closest);
    }
}

#[test]
fn test_dpll_north_tick_delay_compensation_with_gain() {
    let config = NorthTickConfig {
        gain_db: s(20.0),
        agc: NorthAgcConfig { enabled: false, ..Default::default() },
        dpll: slow_loop(),
        ..Default::default()
    };
    let mut tracker = dpll(&config, 48000.0).unwrap();
    let pulses = [100, 200, 300, 400, 500];
    let mut signal = vec![s(0.0); 1000];
    for &at in &pulses {
        signal[at] = config.expected_pulse_amplitude;
    }
    check_positions(&tracker.process_buffer(&signal), &pulses);
}

#[test]
fn test_dpll_locks_to_true_frequency() {
    let config = NorthTickConfig { dpll: slow_loop(), ..Default::default() };
    let mut tracker = dpll(&config, 48_000.0).unwrap();
    let mut signal = vec![s(0.0); 50_000];
    for idx in (50..50_000).step_by(100) {
        signal[idx] = config.expected_pulse_amplitude;
    }
    for buffer in signal.chunks(1024) {
        tracker.process_buffer(buffer);
    }
    let freq = f(tracker.rotation_frequency().expect("tracking a frequency"));
    assert!((freq - 480.0).abs() < 0.5, "DPLL locked to {freq} Hz, expected 480 Hz");
}

#[test]
fn test_dpll_rejects_dead_time_conflicting_with_frequency_max() {
    let config = NorthTickConfig {
        dpll: DpllConfig {
            frequency_max_hz: s(1_800.0),
            ..NorthTickConfig::default().dpll
        },
        ..Default::default()
    };
    let err = match dpll(&config, 48_000.0) {
        Err(e) => e,
        Ok(_) => panic!("expected a config error for 0.6 ms dead time at 1800 Hz max"),
    };
    assert!(err.contains("min_interval_ms"), "unexpected error: {err}");
}

#[test]
fn test_dpll_detects_ticks_at_frequency_max() {
    let config = NorthTickConfig::default();
    let freq_max = f(config.dpll.frequency_max_hz);
    let mut tracker = dpll(&config, 48_000.0).unwrap();
    let period = 48_000.0 / freq_max as f64;
    let total = 48_000usize;
    let n_pulses = ((total as f64 - 100.0) / period) as usize;
    let mut signal = vec![s(0.0); total];
    for k in 0..n_pulses {
        signal[(50.0 + k as f64 * period).round() as usize] = config.expected_pulse_amplitude;
    }
    let mut ticks = 0;
    for buffer in signal.chunks(1024) {
        ticks += tracker.process_buffer(buffer).len();
    }
    assert!(ticks >= n_pulses * 9 / 10, "detected {ticks} of {n_pulses} at {freq_max} Hz");
}

#[test]
fn test_dpll_phase_correction_reduces_timing_error() {
    let config = NorthTickConfig {
        dpll: DpllConfig {
            initial_frequency_hz: s(1_578.9),
            natural_frequency_hz: s(15.0),
            damping_ratio: s(0.707),
            frequency_min_hz: s(1_400.0),
            frequency_max_hz: s(1_650.0),
        },
        ..Default::default()
    };
    let mut tracker = dpll(&config, 48_000.0).unwrap();
    let period = 30.4f64;
    let total = 120_000usize;
    let n_pulses = ((total as f64 - 100.0) / period) as usize;
    let true_times: Vec<f64> = (0..n_pulses).map(|k| 50.0 + k as f64 * period).collect();
    let mut signal = vec![s(0.0); total];
    for t in &true_times {
        signal[t.round() as usize] = config.expected_pulse_amplitude;
    }
    let mut ticks = Vec::new();
    for buffer in signal.chunks(1024) {
        ticks.extend(tracker.process_buffer(buffer));
    }
    assert!(ticks.len() > 1000, "got {} ticks", ticks.len());
    let steady = &ticks[ticks.len() / 2..];
    let errors: Vec<f64> = steady
        .iter()
        .map(|t| {
            let measured = t.sample_index as f64 + f(t.fractional_sample_offset) as f64;
            true_times
                .iter()
                .map(|&tt| measured - tt)
                .min_by(|a, b| a.abs().partial_cmp(&b.abs()).unwrap())
                .unwrap()
        })
        .collect();
    let mean = errors.iter().sum::<f64>() / errors.len() as f64;
    let rms =
        (errors.iter().map(|e| (e - mean).powi(2)).sum::<f64>() / errors.len() as f64).sqrt();
    let corrected =
        steady.iter().filter(|t| f(t.fractional_sample_offset).abs() > 1e-6).count();
    assert!(corrected > steady.len() / 2, "{corrected} of {} corrected", steady.len());
    assert!(rms < 0.25, "steady-state RMS timing error {rms:.4} samples exceeds 0.25");
}

#[test]
fn test_dpll_fractional_timing_correction_is_bounded() {
    let config = NorthTickConfig {
        dpll: DpllConfig {
            initial_frequency_hz: s(1_602.0),
            natural_frequency_hz: s(15.0),
            damping_ratio: s(0.707),
            frequency_min_hz: s(1_400.0),
            frequency_max_hz: s(1_650.0),
        },
        ..Default::default()
    };
    let mut tracker = dpll(&config, 48_000.0).unwrap();
    let nominal_period = (48_000.0f32 / 1_602.0).round() as isize;
    let mut signal = vec![s(0.0); 4096];
    for k in 0..110isize {
        let jitter = match k % 4 {
            0 => -1,
            1 => 0,
            2 => 1,
            _ => 0,
        };
        let idx = 60 + k * nominal_period + jitter;
        if idx >= 0 && (idx as usize) < signal.len() {
            signal[idx as usize] = config.expected_pulse_amplitude;
        }
    }
    let ticks = tracker.process_buffer(&signal);
    assert!(!ticks.is_empty(), "Expected at least one detected tick");
    for tick in ticks {
        let offset = f(tick.fractional_sample_offset);
        assert!(offset.is_finite());
        assert!(offset.abs() <= 0.5 + 1e-6, "fractional_sample_offset {offset} exceeds the bound");
    }
}

#[test]
fn test_dpll_rejects_non_positive_initial_frequency() {
    let mut config = NorthTickConfig::default();
    config.dpll.initial_frequency_hz = s(0.0);
    match dpll(&config, 48_000.0) {
        Err(msg) => assert!(msg.contains("initial_frequency_hz"), "Unexpected message: {msg}"),
        Ok(_) => panic!("Expected configuration error, got Ok"),
    }
}

#[test]
fn test_dpll_rejects_invalid_frequency_bounds() {
    let mut config = NorthTickConfig::default();
    config.dpll.frequency_min_hz = s(1800.0);
    config.dpll.frequency_max_hz = s(1400.0);
    match dpll(&config, 48_000.0) {
        Err(msg) => assert!(
            msg.contains("frequency_min_hz") && msg.contains("frequency_max_hz"),
            "Unexpected message: {msg}"
        ),
        Ok(_) => panic!("Expected configuration error, got Ok"),
    }
}

#[test]
fn test_simple_north_tick_detection() {
    let config = NorthTickConfig::default();
    let mut tracker = simple(&config, 48000.0).unwrap();
    let mut signal = vec![s(0.0); 1000];
    for at in [100, 196, 292, 388] {
        signal[at] = s(0.8);
    }
    let ticks = tracker.process_buffer(&signal);
    assert!(ticks.len() >= 2, "Should detect at least 2 ticks");
    if let Some(freq) = tracker.rotation_frequency() {
        assert!((f(freq) - 500.0).abs() < 50.0, "Rotation frequency {}", f(freq));
    }
}

#[test]
fn test_simple_north_tick_delay_compensation_with_gain() {
    let config = NorthTickConfig { gain_db: s(20.0), dpll: slow_loop(), ..Default::default() };
    let mut tracker = simple(&config, 48000.0).unwrap();
    let pulses = [100, 200, 300, 400, 500];
    let mut signal = vec![s(0.0); 1000];
    for &at in &pulses {
        signal[at] = config.expected_pulse_amplitude;
    }
    check_positions(&tracker.process_buffer(&signal), &pulses);
}

#[test]
fn test_apply_rotation_scales_coupled_parameters() {
    for hz in [800.0_f32, 1700.0, 2400.0] {
        let mut config = RdfConfig::default();
        config.apply_rotation(RotationFrequency::from_hz(s(hz)));
        assert_eq!(f(config.doppler.expected_freq), hz);
        assert_eq!(f(config.north_tick.dpll.initial_frequency_hz), hz);
        assert!(
            f(config.north_tick.dpll.frequency_min_hz) < hz
                && hz < f(config.north_tick.dpll.frequency_max_hz),
            "{hz} Hz outside derived band"
        );
        assert!(
            f(config.doppler.bandpass_low) < hz && hz < f(config.doppler.bandpass_high),
            "{hz} Hz outside derived bandpass"
        );
        tracker(&config.north_tick, 48_000.0).expect("derived config should construct a tracker");
        let mut twice = RdfConfig::default();
        twice.apply_rotation(RotationFrequency::from_hz(s(hz)));
        twice.apply_rotation(RotationFrequency::from_hz(s(hz)));
        assert_eq!(
            twice.north_tick.dpll.frequency_max_hz,
            config.north_tick.dpll.frequency_max_hz,
            "repeated apply_rotation compounded"
        );
        assert_eq!(twice.doppler.bandpass_high, config.doppler.bandpass_high);
        assert_eq!(twice.north_tick.min_interval_ms, config.north_tick.min_interval_ms);
    }
}

#[test]
fn test_generate_signal_length() {
    let signal = generate_test_signal(1.0, 48000, 500.0, 0.0);
    assert_eq!(signal.len(), 48000 * 2);
}

#[test]
fn test_generate_signal_interleaved() {
    let signal = generate_test_signal(0.01, 48000, 500.0, 0.0);
    assert_eq!(signal.len() % 2, 0);
    let left: Vec<f32> = signal.iter().step_by(2).copied().collect();
    let left_rms: f32 = (left.iter().map(|x| x * x).sum::<f32>() / left.len() as f32).sqrt();
    assert!(left_rms > 0.1, "Left channel should contain signal, got RMS {left_rms}");
    let right: Vec<f32> = signal.iter().skip(1).step_by(2).copied().collect();
    let right_max = right.iter().fold(0.0f32, |a, &b| a.max(b));
    let amplitude = f32::from_bits(signal::NORTH_TICK_AMPLITUDE);
    assert!(right_max > amplitude * 0.5, "Right channel should have tick pulses");
}

#[test]
fn test_generate_multiple_bearings() {
    for bearing in [0.0, 45.0, 90.0, 135.0, 180.0, 225.0, 270.0, 315.0] {
        let signal = generate_test_signal(0.1, 48000, 500.0, bearing);
        assert_eq!(signal.len(), 4800 * 2);
    }
}

/// The cosines and sines of a frequency grid, taken once for all segments.
fn in_band_power(samples: &[f32], sample_rate: f32, low: f32, high: f32) -> f64 {
    let samples = all(samples);
    let count = signal::segment_count(samples.len());
    let n = samples.len().min(signal::SEGMENT);
    let cosines: Vec<Single> =
        signal::window_angles(n).iter().map(|&a| s(f(a).cos())).collect();
    let window = signal::hann(&cosines);
    let bins = signal::band_bins(n, s(sample_rate), s(low), s(high));
    let mut powers = vec![Vec::new(); count];
    let windowed: Vec<Vec<Single>> = (0..count)
        .map(|k| signal::windowed(&samples[k * n..(k + 1) * n], &window))
        .collect();
    for &hz in &bins {
        let angles: Vec<f32> = (0..n).map(|i| f(signal::bin_angle(hz, s(sample_rate), i))).collect();
        let cos: Vec<Single> = angles.iter().map(|a| s(a.cos())).collect();
        let sin: Vec<Single> = angles.iter().map(|a| s(a.sin())).collect();
        for k in 0..count {
            powers[k].push(signal::bin_power(&windowed[k], &cos, &sin));
        }
    }
    let segments: Vec<Double> =
        powers.iter().map(|p| signal::segment_power(p, &window)).collect();
    g(signal::in_band_power(&segments))
}

#[test]
fn sine_power_lands_in_the_right_band() {
    let sr = 48000.0f32;
    let inside: Vec<f32> =
        (0..48000).map(|i| 0.7 * (2.0 * PI * 1602.564 * i as f32 / sr).sin()).collect();
    let p = in_band_power(&inside, sr, 1350.0, 1850.0);
    assert_eq!(p, machine_band_power(&inside, sr, 1350.0, 1850.0));
    let expected = 0.5 * 0.7f64 * 0.7f64;
    assert!((p - expected).abs() / expected < 0.01, "in-band sine: {p} vs {expected}");
    let outside: Vec<f32> =
        (0..48000).map(|i| 0.7 * (2.0 * PI * 500.0 * i as f32 / sr).sin()).collect();
    let p = in_band_power(&outside, sr, 1350.0, 1850.0);
    assert!(p < expected * 1e-3, "out-of-band sine leaked: {p}");
}

#[test]
fn white_noise_reads_its_bandwidth_fraction() {
    let sr = 48000.0f32;
    let noise: Vec<f32> =
        (0..480_000).map(|i| f(signal::noise_at(i, 0x1B5E_ED01))).collect();
    let total = noise.iter().map(|x| (x * x) as f64).sum::<f64>() / noise.len() as f64;
    let band = in_band_power(&noise, sr, 1350.0, 1850.0);
    let expected = total * 500.0 / 24000.0;
    assert!((band - expected).abs() / expected < 0.05, "band fraction: {band} vs {expected}");
}

/// The power in a band in the machine's arithmetic, which that of the library
/// equals.
fn machine_band_power(samples: &[f32], sample_rate: f32, low: f32, high: f32) -> f64 {
    let n = signal::SEGMENT;
    let window: Vec<f32> =
        (0..n).map(|i| 0.5 - 0.5 * (2.0 * PI * i as f32 / n as f32).cos()).collect();
    let gain = window.iter().map(|w| (w * w) as f64).sum::<f64>() / n as f64;
    let segments: Vec<Vec<f32>> = samples
        .chunks_exact(n)
        .map(|c| c.iter().zip(&window).map(|(x, w)| x * w).collect())
        .collect();
    let resolution = sample_rate / n as f32;
    let mut hz = (low / resolution).ceil() * resolution;
    let mut bands = vec![0.0f64; segments.len()];
    while hz < high {
        let omega = 2.0 * PI * hz / sample_rate;
        let waves: Vec<(f32, f32)> = (0..n).map(|i| (omega * i as f32).sin_cos()).collect();
        for (segment, band) in segments.iter().zip(bands.iter_mut()) {
            let (mut re, mut im) = (0.0f64, 0.0f64);
            for (x, (sin, cos)) in segment.iter().zip(&waves) {
                re += (x * cos) as f64;
                im += (x * sin) as f64;
            }
            *band += 2.0 * ((re / n as f64).powi(2) + (im / n as f64).powi(2));
        }
        hz += resolution;
    }
    bands.iter().map(|b| b / gain).sum::<f64>() / bands.len() as f64
}

#[test]
fn generated_ratio_matches_stated() {
    let sr = 48000u32;
    let stated = 6.579f32;
    let impairment = SignalImpairment::at_passband_ratio(s(stated));
    let signal = generate(8.0, sr, 1602.564, 200.0, &impairment);
    let dop: Vec<f32> = signal.iter().step_by(2).copied().collect();
    let total = machine_band_power(&dop, sr as f32, 1350.0, 1850.0);
    let measured = (total - 0.5) / 0.5;
    assert!(
        (measured - f64::from(stated)).abs() / f64::from(stated) < 0.02,
        "stated {stated}, measured {measured}"
    );
}

#[test]
fn lost_samples_move_the_ticks_and_nothing_else() {
    let config = NorthTickConfig::default();
    let mut signal = vec![s(0.0); 1000];
    for at in [200, 230, 260, 290, 320, 350] {
        signal[at] = s(0.8);
    }
    let mut plain = simple(&config, 48000.0).unwrap();
    let mut skipped = simple(&config, 48000.0).unwrap();
    skipped.advance_samples(12_345);
    let ticks = plain.process_buffer(&signal);
    let later = skipped.process_buffer(&signal);
    assert!(ticks.len() >= 4);
    assert_eq!(ticks.len(), later.len());
    for (a, b) in ticks.iter().zip(&later) {
        assert_eq!(a.sample_index + 12_345, b.sample_index);
        assert_eq!(a.period, b.period);
        assert_eq!(a.fractional_sample_offset, b.fractional_sample_offset);
        assert_eq!(a.frequency, b.frequency);
        assert_eq!(a.phase_variance, b.phase_variance);
    }
}

#[test]
fn estimates_stay_in_their_window_and_mirror() {
    let window = all(&[0.1, 0.4, 0.9, 1.0, 0.3, 0.2, 0.7]);
    let mirrored: Vec<Single> = window.iter().rev().copied().collect();
    for estimator in [NorthPulseEstimator::AmplitudeCentroid, NorthPulseEstimator::EnergyCentroid] {
        let a = f(estimate_fraction(&[], &window, 3, estimator, 3));
        let b = f(estimate_fraction(&[], &mirrored, 3, estimator, 3));
        assert!(a.abs() <= 3.0 && a != 0.0);
        assert!((a + b).abs() <= 3.0 / 4_194_304.0, "{a} {b}");
        // All the weight at one end.
        let edge = all(&[0.0, 0.0, 0.0, 0.0, 0.0, 0.0, 0.3]);
        assert_eq!(f(estimate_fraction(&[], &edge, 3, estimator, 3)), 3.0);
    }
    // The amplitudes 0.1 to 0.7 about the middle, weighted by hand.
    let moment = -3.0 * 0.1 - 2.0 * 0.4 - 0.9 + 0.3 + 2.0 * 0.2 + 3.0 * 0.7;
    let a = estimate_fraction(&[], &window, 3, NorthPulseEstimator::AmplitudeCentroid, 3);
    assert!((f(a) - moment / 3.6).abs() < 1.0e-6);
    // The window reaches back into the tail, or is not there.
    let b = estimate_fraction(&window[..4], &window[4..], -1, NorthPulseEstimator::AmplitudeCentroid, 3);
    assert!((f(b) - f(a)).abs() < 1.0e-6);
    assert_eq!(f(estimate_fraction(&[], &window, 5, NorthPulseEstimator::EnergyCentroid, 3)), 0.0);
    assert_eq!(f(estimate_fraction(&[], &window, 3, NorthPulseEstimator::HardLimiter, 3)), 0.0);
    let silence = vec![s(0.0); 7];
    assert_eq!(f(estimate_fraction(&[], &silence, 3, NorthPulseEstimator::EnergyCentroid, 3)), 0.0);
}

/// An oscillator at a period of 1.3 samples that has locked on pulses every
/// ten turns, with the last one reported before its index.
fn fast_loop() -> (RotationLoop, usize) {
    let omega = 2.0 * PI / 1.3;
    let mut oscillator = RotationLoop::new(
        LoopParams {
            kp: s(0.0),
            ki: s(0.0),
            min_omega: s(1.0),
            max_omega: s(6.0),
            gate_sigma: s(4.0),
            max_coast_samples: 1000,
            detector_deferral_samples: 0,
            lock_quality_weights: weights(),
        },
        s(omega),
    );
    let mut at = 0;
    for k in 0..100 {
        at = 13 * k;
        let delay = if k == 99 { -0.9 } else { 0.0 };
        assert!(oscillator.detect(at, s(0.0), s(delay)).0.is_some());
        if k < 99 {
            oscillator.turn(13);
        }
    }
    assert!(oscillator.locked());
    (oscillator, at)
}

#[test]
fn a_coast_advances_in_time_even_where_an_index_repeats() {
    let (mut oscillator, at) = fast_loop();
    let mut ticks = Vec::new();
    oscillator.coast_to(at + 5, &mut ticks);
    let indices: Vec<usize> = ticks.iter().map(|t| t.sample_index - at).collect();
    assert_eq!(indices, vec![0, 2, 3, 4]);
    let times: Vec<f64> = ticks
        .iter()
        .map(|t| t.sample_index as f64 + f(t.fractional_sample_offset) as f64)
        .collect();
    for pair in times.windows(2) {
        assert!((pair[1] - pair[0] - 1.3).abs() < 1.0e-3, "{times:?}");
    }
    assert!((times[0] - at as f64 - 0.4).abs() < 1.0e-3, "{times:?}");
    for t in &ticks {
        assert!(f(t.fractional_sample_offset).abs() <= 0.5);
        assert_eq!(f(t.phase), 0.0);
        assert_eq!(f(t.period.unwrap()), 2.0 * PI / f(t.frequency));
    }
}

#[test]
fn a_quiet_channel_is_reported_once() {
    let config = NorthTickConfig::default();
    let mut tracker = tracker(&config, 48000.0).unwrap();
    let mut pulses = vec![s(0.0); 4800];
    for at in (100..4800).step_by(30) {
        pulses[at] = s(0.8);
    }
    tracker.process_buffer(&pulses);
    let r = tracker.channel_report();
    assert_eq!((r.again_after, r.close_peak, r.quiet_for), (None, None, None));
    assert!(f(r.threshold) > 0.0);
    let silence = vec![s(0.0); 4800];
    let mut quiet = 0;
    for _ in 0..25 {
        tracker.process_buffer(&silence);
        let r = tracker.channel_report();
        assert_eq!(r.again_after, None);
        if let Some(seconds) = r.quiet_for {
            assert!((1.0..1.2).contains(&f(seconds)), "{}", f(seconds));
            quiet += 1;
        }
    }
    assert_eq!(quiet, 1);
    tracker.process_buffer(&pulses);
    let again = f(tracker.channel_report().again_after.unwrap());
    assert!((2.4..2.7).contains(&again), "{again}");
    // Just above the threshold.
    let mut watch = QuietChannelWatch::new(s(48000.0));
    watch.note_detections(3, s(0.12), s(0.1));
    assert_eq!(watch.report().close_peak.map(f), Some(0.12));
    watch.note_detections(3, s(0.2), s(0.1));
    assert_eq!(watch.report().close_peak, None);
    watch.advance(4800);
    assert!(!watch.is_quiet());
}
