//! Audio buffers, files and devices.
use rotaryclub::audio::buffer::AudioRingBuffer;
use rotaryclub::audio::capture::{
    describe_configs, from_short, name_matches, negotiate, pick_device, DescribedRange, GapCounter,
    InputRange, SampleFormat, SendOutcome,
};
use rotaryclub::audio::source::{
    check_wav, int_full_scale, wav_chunk, CaptureEvent, CaptureStep, ChunkCursor, DeviceIntake, RawSamples,
    WavFault,
};
use rotaryclub::single::Single;

fn s(x: f32) -> Single {
    Single::from_bits(x.to_bits())
}

fn f(x: Single) -> f32 {
    f32::from_bits(x.to_bits())
}

fn all(v: &[f32]) -> Vec<Single> {
    v.iter().map(|&x| s(x)).collect()
}

#[test]
fn latest_frames_are_what_was_pushed() {
    let mut ring = AudioRingBuffer::new();
    assert!(ring.is_empty());
    ring.push_interleaved(&all(&[1.0, 2.0, 3.0, 4.0, 5.0, 6.0]));
    assert_eq!(ring.len(), 3);
    let latest = ring.latest(2);
    let frames: Vec<(f32, f32)> = latest.iter().map(|x| (f(x.left), f(x.right))).collect();
    assert_eq!(frames, vec![(3.0, 4.0), (5.0, 6.0)]);
    assert_eq!(ring.latest(10).len(), 3);
}

#[test]
fn wav_files_that_cannot_be_used_are_refused() {
    assert!(check_wav(2, 16).is_ok());
    assert!(check_wav(1, 16).is_err());
    assert!(check_wav(2, 0).is_err());
    assert!(check_wav(2, 15).is_err());
    let texts: Vec<String> = [check_wav(1, 16), check_wav(2, 0), check_wav(2, 15)]
        .into_iter()
        .map(|r: Result<(), WavFault>| r.unwrap_err().message())
        .collect();
    assert!(texts.iter().all(|t| !t.is_empty()), "{texts:?}");
}

#[test]
fn test_wav_file_source_normalizes_32bit_pcm() {
    let raw = RawSamples::Int(vec![i32::MAX / 2, i32::MAX / 2, i32::MIN / 2, i32::MIN / 2]);
    let samples = wav_chunk(&raw, int_full_scale(32)).unwrap();
    assert_eq!(samples.len(), 4);
    for (i, &x) in samples.iter().enumerate() {
        let expected = if i < 2 { 0.5 } else { -0.5 };
        assert!((f(x) - expected).abs() < 1e-3, "sample {i} was {}, expected {expected}", f(x));
    }
}

#[test]
fn test_wav_file_source_streams_chunks_matching_whole_file() {
    let expected: Vec<f32> = (0..200).map(|i| (i as f32) / 200.0 - 0.5).collect();
    let mut streamed = Vec::new();
    let mut chunks = 0;
    let mut cursor = ChunkCursor::new(expected.len(), 16);
    while let Some((start, end)) = cursor.next_bounds() {
        let part = &expected[start..end];
        assert_eq!(start, streamed.len());
        let chunk = wav_chunk(&RawSamples::Float(all(part)), s(1.0)).unwrap();
        assert!(chunk.len() <= 16);
        streamed.extend(chunk.into_iter().map(f));
        chunks += 1;
    }
    assert!(wav_chunk(&RawSamples::Float(Vec::new()), s(1.0)).is_none());
    assert_eq!(chunks, 200_usize.div_ceil(16));
    assert_eq!(streamed, expected);
}

#[test]
fn full_scales_are_powers_of_two() {
    assert_eq!(f(int_full_scale(16)), 32768.0);
    assert_eq!(f(int_full_scale(24)), 8388608.0);
    assert_eq!(f(int_full_scale(32)), 2147483648.0);
    assert_eq!(f(from_short(-32768)), -1.0);
    assert_eq!(f(from_short(16384)), 0.5);
}

#[test]
fn samples_that_are_no_numbers_are_zeroed() {
    let raw = RawSamples::Float(all(&[0.5, f32::NAN, f32::INFINITY, -0.5]));
    let samples: Vec<f32> = wav_chunk(&raw, s(1.0)).unwrap().into_iter().map(f).collect();
    assert_eq!(samples, vec![0.5, 0.0, 0.0, -0.5]);
}

fn range(channels: u16, format: SampleFormat, min_rate: u32, max_rate: u32) -> InputRange {
    InputRange { channels, format, min_rate, max_rate }
}

#[test]
fn streams_are_negotiated_by_rate_and_format() {
    let ranges = [
        range(1, SampleFormat::Float, 8000, 192000),
        range(2, SampleFormat::Other, 48000, 48000),
        range(2, SampleFormat::Short, 44100, 48000),
        range(2, SampleFormat::Float, 44100, 44100),
    ];
    // Single precision goes ahead of the rate.
    assert_eq!(negotiate(&ranges, 2, 48000), Some((SampleFormat::Float, 44100)));
    assert_eq!(negotiate(&ranges[..3], 2, 48000), Some((SampleFormat::Short, 48000)));
    assert_eq!(negotiate(&ranges, 6, 48000), None);
    let same = [
        range(2, SampleFormat::Short, 48000, 48000),
        range(2, SampleFormat::Float, 48000, 48000),
    ];
    assert_eq!(negotiate(&same, 2, 48000), Some((SampleFormat::Float, 48000)));
}

#[test]
fn devices_are_matched_whatever_their_case() {
    assert!(name_matches("USB Audio CODEC", "codec"));
    assert!(name_matches("Größe ÄÖ", "äö"));
    assert!(!name_matches("USB Audio", "hdmi"));
    let names = vec![None, Some("Built-in".to_string()), Some("USB Audio".to_string())];
    assert_eq!(pick_device(&names, "usb"), Some(2));
    assert_eq!(pick_device(&names, "none"), None);
}

#[test]
fn configurations_are_described() {
    let ranges = vec![DescribedRange {
        channels: 2,
        format: "F32".to_string(),
        min_rate: 44100,
        max_rate: 48000,
    }];
    let text = describe_configs(Some(&ranges));
    assert!(text.contains("44100") && text.contains("48000") && text.contains("F32"), "{text}");
    assert!(!describe_configs(None).is_empty());
}

#[test]
fn lost_frames_are_carried_forward() {
    let mut gap = GapCounter::new();
    gap.note(200, SendOutcome::Full);
    gap.note(100, SendOutcome::Full);
    assert_eq!(gap.gap(), 150);
    gap.note(200, SendOutcome::Disconnected);
    assert_eq!(gap.gap(), 150);
    gap.note(200, SendOutcome::Sent);
    assert_eq!(gap.gap(), 0);
}

#[test]
fn a_live_source_counts_what_it_lost() {
    let mut intake = DeviceIntake::new();
    let (step, warning) = intake.step(CaptureEvent::Chunk {
        gap_before_frames: 7,
        samples: all(&[0.25, 0.5]),
    });
    match step {
        CaptureStep::Deliver { samples } => assert_eq!(samples.len(), 2),
        _ => panic!("a chunk is handed out"),
    }
    assert_eq!(warning, Some((7, 7)));
    assert_eq!(intake.take_dropped_frames(), 7);
    assert_eq!(intake.take_dropped_frames(), 0);
    for gap in [3, 0, 5] {
        intake.step(CaptureEvent::Chunk { gap_before_frames: gap, samples: all(&[0.0]) });
    }
    assert_eq!(intake.take_dropped_frames(), 8);
    assert_eq!(intake.take_dropped_frames(), 0);
    for _ in 0..2 {
        intake.step(CaptureEvent::Chunk { gap_before_frames: usize::MAX, samples: Vec::new() });
    }
    assert_eq!(intake.take_dropped_frames(), usize::MAX);
    assert!(matches!(intake.step(CaptureEvent::Timeout).0, CaptureStep::Wait));
    assert!(matches!(intake.step(CaptureEvent::Disconnected).0, CaptureStep::End));
    assert!(matches!(intake.step(CaptureEvent::Shutdown).0, CaptureStep::End));
    let (step, _) = intake.step(CaptureEvent::StreamError { message: "gone".to_string() });
    match step {
        CaptureStep::Fail { message } => assert_eq!(message, "gone"),
        _ => panic!("an error is passed on"),
    }
}
