//! The live display.
use rotaryclub::display::compass;
use rotaryclub::display::compass::Place;
use rotaryclub::display::history;
use rotaryclub::display::history::{BearingData, TrailEntry};
use rotaryclub::display::playback;
use rotaryclub::display::playback::Pacing;
use rotaryclub::display::state::{Action, DisplayState, Update};
use rotaryclub::display::status;
use rotaryclub::display::status::{Level, Scale};
use rotaryclub::double::Double;
use rotaryclub::single::Single;

fn s(x: f32) -> Single {
    Single::from_bits(x.to_bits())
}

fn f(x: Single) -> f32 {
    f32::from_bits(x.to_bits())
}

fn d(x: f64) -> Double {
    Double::from_bits(x.to_bits())
}

fn g(x: Double) -> f64 {
    f64::from_bits(x.to_bits())
}

fn data(time: f64, bearing: Option<f32>) -> Update {
    Update::Data {
        time_secs: d(time),
        bearing: bearing.map(|b| BearingData {
            bearing: s(b),
            raw: s(b + 1.0),
            confidence: s(0.75),
            snr_db: s(12.0),
            coherence: s(0.5),
            signal_strength: s(1.0),
        }),
        rotation_freq: Some(s(1600.0)),
        lock_quality: Some(s(0.9)),
        phase_error_variance: None,
    }
}

#[test]
fn old_readings_go() {
    let mut state = DisplayState::new(true);
    for k in 0..300 {
        assert_eq!(state.apply(data(k as f64, Some(k as f32))), Action::Nothing);
    }
    assert_eq!(state.history.bearing.len(), 121);
    assert_eq!(g(state.history.bearing[0].time_secs), 179.0);
    assert_eq!(state.history.compass_trail.len(), 11);
    assert_eq!(state.latest.bearing.map(f), Some(299.0));
    assert_eq!(state.history.lock_quality.len(), 121);
}

#[test]
fn ticks_without_a_bearing_leave_the_last_one() {
    let mut state = DisplayState::new(false);
    state.apply(data(1.0, Some(10.0)));
    state.apply(data(2.0, None));
    assert_eq!(state.latest.bearing.map(f), Some(10.0));
    assert_eq!(g(state.latest.time_secs), 2.0);
    assert_eq!((state.history.bearing.len(), state.history.lock_quality.len()), (1, 2));
}

#[test]
fn the_log_keeps_its_newest_lines() {
    let mut state = DisplayState::new(false);
    for k in 0..1010 {
        state.apply(Update::Log(k.to_string()));
    }
    assert_eq!(state.log_lines.len(), 1000);
    assert_eq!(state.log_lines[0], "10");
}

#[test]
fn an_end_pauses_or_starts_over() {
    let mut state = DisplayState::new(true);
    state.apply(data(5.0, None));
    assert_eq!(state.apply(Update::Stopped), Action::Pause);
    assert!(state.processing_stopped);
    state.restart(true);
    assert!(!state.processing_stopped && state.latest.bearing.is_none());
    state.loop_enabled = true;
    state.apply(data(7.0, None));
    assert_eq!(state.apply(Update::Stopped), Action::Loop(d(7.0)));
    let mut live = DisplayState::new(false);
    live.loop_enabled = true;
    assert_eq!(live.apply(Update::Stopped), Action::Pause);
}

#[test]
fn speeds_go_up_and_down() {
    assert_eq!(playback::step_of(s(1.0)), 2);
    assert_eq!(playback::step_of(s(3.3)), 2);
    assert_eq!(f(playback::faster(s(1.0))), 2.0);
    assert_eq!(f(playback::faster(s(4.0))), 0.0);
    assert_eq!(f(playback::faster(s(0.0))), 0.0);
    assert_eq!(f(playback::slower(s(0.25))), 0.25);
    assert_eq!(f(playback::slower(s(0.0))), 4.0);
    assert_eq!(playback::speed_name(5), "Max");
    assert_eq!(playback::speed_name(0), "0.25x");
}

#[test]
fn play_toggles() {
    let t = playback::toggle(false, true);
    assert!(t.restart && t.playing);
    let t = playback::toggle(true, true);
    assert!(!t.restart && !t.playing);
    let (speed, playing) = playback::at_start(true);
    assert_eq!((f(speed), playing), (1.0, false));
    let (speed, playing) = playback::at_start(false);
    assert_eq!((f(speed), playing), (0.0, true));
}

#[test]
fn playback_keeps_its_pace() {
    let mut pacing = Pacing::new();
    let wait = pacing.played(s(2.0), 48000, 48000, d(0.1)).map(g);
    assert_eq!(wait, Some(0.4));
    assert_eq!(pacing.played(s(2.0), 48000, 48000, d(1.5)).map(g), None);
    assert_eq!(g(pacing.expected_time), 1.0);
    assert_eq!(pacing.played(s(0.0), 48000, 48000, d(0.0)).map(g), None);
    assert_eq!(g(pacing.expected_time), 1.0);
    assert_eq!(g(playback::time_of(d(1.0), 24000, 48000)), 1.5);
}

#[test]
fn levels_have_limits() {
    assert_eq!(Scale::Quality.level(s(0.71)), Level::Good);
    assert_eq!(Scale::Quality.level(s(0.7)), Level::Fair);
    assert_eq!(Scale::Quality.level(s(0.4)), Level::Poor);
    assert_eq!(Scale::Lock.level(s(0.81)), Level::Good);
    assert_eq!(Scale::Snr.level(s(5.1)), Level::Fair);
    assert_eq!(Scale::Snr.level(s(f32::NAN)), Level::Poor);
    assert_eq!(status::level_color(Level::Fair), (255, 255, 0));
}

#[test]
fn figures_have_units_or_dashes() {
    assert_eq!(status::figure(Some(s(137.46)), 1, "°"), "137.5°");
    assert_eq!(status::figure(None, 1, "°"), "---");
    assert_eq!(status::snr_figure(Some(s(7.25))), format!("{:>6.1} dB", 7.25f32));
    assert_eq!(status::snr_figure(None), "  ---.- dB");
    let (minutes, seconds) = status::clock(d(125.5));
    assert_eq!((minutes, g(seconds)), (2, 5.5));
}

#[test]
fn plots_show_a_window() {
    let mut state = DisplayState::new(true);
    for k in 0..10 {
        state.apply(data(k as f64, Some(1.0)));
    }
    let span = history::plot_span(d(9.0), d(2.5));
    assert_eq!((g(span.low), g(span.high)), (6.5, 9.0));
    assert_eq!(history::in_window(&state.history.bearing, span.low).len(), 3);
    let early = history::plot_span(d(1.0), d(2.5));
    assert_eq!((g(early.low), g(early.high)), (0.0, 2.5));
}

#[test]
fn the_compass_has_marks_and_labels() {
    let marks = compass::marks();
    assert_eq!(marks.len(), 36);
    assert_eq!((f(marks[0].inner), f(marks[3].inner), f(marks[1].inner)), (0.82, 0.87, 0.92));
    assert_eq!((f(marks[9].width), f(marks[3].width), f(marks[1].width)), (2.5, 1.5, 0.7));
    assert_eq!(compass::label(0), "N");
    assert_eq!(compass::label(30), "030");
    assert_eq!(compass::label(330), "330");
    assert_eq!(compass::ring_label(s(0.25)), "25%");
    assert_eq!(f(compass::radius(s(300.0), s(280.0))), 125.0);
    let p = compass::polar(Place { x: s(150.0), y: s(150.0) }, s(1.0), s(0.0), s(100.0));
    assert_eq!((f(p.x), f(p.y)), (250.0, 150.0));
}

fn entry(confidence: f32) -> TrailEntry {
    TrailEntry {
        bearing: s(90.0),
        confidence: s(confidence),
        coherence: s(0.5),
        strength: s(1.0),
        time_secs: d(10.0),
    }
}

#[test]
fn the_trail_fades() {
    assert_eq!(compass::fade(&entry(0.4), d(10.5)).map(f), None);
    let e = f(compass::fade(&entry(0.5), d(10.5)).unwrap());
    assert_eq!(e, -0.5f32 / (0.15 + 0.3 * 0.5));
    assert!(compass::dot(&entry(0.5), s(0.01), s(100.0)).is_none());
    let dot = compass::dot(&entry(0.5), s(0.5), s(100.0)).unwrap();
    assert_eq!((dot.core_alpha, dot.glow_alpha), (127, 31));
    assert_eq!((f(dot.size), f(dot.glow_size)), (1.5, 2.25));
    assert_eq!(f(dot.distance), 100.0 * (0.35f32 + 0.55 * 1.0));
}

#[test]
fn the_needle_shows_the_newest_bearing() {
    let mut state = DisplayState::new(true);
    assert!(compass::needle(&state.latest, s(100.0)).is_none());
    state.apply(data(1.0, Some(90.0)));
    let n = compass::needle(&state.latest, s(100.0)).unwrap();
    let bright = 0.2f32 + 0.8 * 0.75;
    assert_eq!(
        n.color,
        ((30.0 * bright) as u8, (255.0 * bright) as u8, (60.0 * bright) as u8)
    );
    assert_eq!((f(n.width), f(n.tip)), (2.25, 3.5));
    assert_eq!(f(n.angle), 90.0f32.to_radians());
    let (a, b, c) =
        compass::marker(Place { x: s(0.0), y: s(0.0) }, s(1.0), s(0.0), s(10.0));
    assert_eq!((f(a.x), f(b.x), f(c.x)), (4.0, 10.0, 10.0));
    assert_eq!((f(b.y), f(c.y)), (-3.0, 3.0));
}
