//! Two configurations on the same signal.
//!
//! Both sides start from the defaults and take dotted `key=value` overrides,
//! so a comparison says exactly what it changed.
use crate::config::RdfConfig;
use crate::constants;
use crate::double;
use crate::double::Double;
use crate::fields;
use crate::processing::TickResult;
use crate::signal_processing::math;
use crate::simulation::signal;
use crate::single::Single;
use crate::stats;
use crate::text;
use crate::tools::settings;
use crate::tools::settings::Key;
use crate::tools::statistics;
use vstd::prelude::*;

verus! {

/// How fast the jitter turns from pulse to pulse (0.37).
pub const JITTER_STEP: u32 = 0x3ebd_70a4;

/// What the north channel has of the noise (0.35).
pub const NORTH_NOISE_SHARE: u32 = 0x3eb3_3333;

/// Degrees to radians in double precision.
pub const RADIANS_PER_DEGREE_DOUBLE: u64 = 0x3f91_df46_a252_9d39;

/// Radians to degrees in double precision.
pub const DEGREES_PER_RADIAN_DOUBLE: u64 = 0x404c_a5dc_1a63_c1f8;

/// Whether a setting can be compared.
pub open spec fn compared(key: Key) -> bool {
    key != Key::AgcEnabled
}

/// The settings that can be compared.
pub fn keys() -> (r: Vec<Key>)
    ensures
        forall|k: Key| #[trigger] r@.contains(k) == compared(k),
        r@.no_duplicates(),
{
    let r: Vec<Key> = vec![
        Key::SampleRate,
        Key::BufferSize,
        Key::SmoothingWindow,
        Key::Method,
        Key::TimingAdjustment,
        Key::BandpassTaps,
        Key::Mode,
        Key::Estimator,
        Key::Gain,
        Key::HighpassCutoff,
        Key::HighpassTransition,
        Key::HighpassLength,
        Key::Threshold,
        Key::PulseAmplitude,
        Key::MinInterval,
        Key::MaxCoast,
        Key::GateSigma,
        Key::InitialFrequency,
        Key::NaturalFrequency,
        Key::DampingRatio,
    ];
    assert forall|k: Key| #[trigger] r@.contains(k) == compared(k) by {
        match k {
            Key::SampleRate => assert(r@[0] == k),
            Key::BufferSize => assert(r@[1] == k),
            Key::SmoothingWindow => assert(r@[2] == k),
            Key::Method => assert(r@[3] == k),
            Key::TimingAdjustment => assert(r@[4] == k),
            Key::BandpassTaps => assert(r@[5] == k),
            Key::Mode => assert(r@[6] == k),
            Key::Estimator => assert(r@[7] == k),
            Key::Gain => assert(r@[8] == k),
            Key::HighpassCutoff => assert(r@[9] == k),
            Key::HighpassTransition => assert(r@[10] == k),
            Key::HighpassLength => assert(r@[11] == k),
            Key::Threshold => assert(r@[12] == k),
            Key::PulseAmplitude => assert(r@[13] == k),
            Key::MinInterval => assert(r@[14] == k),
            Key::MaxCoast => assert(r@[15] == k),
            Key::GateSigma => assert(r@[16] == k),
            Key::InitialFrequency => assert(r@[17] == k),
            Key::NaturalFrequency => assert(r@[18] == k),
            Key::DampingRatio => assert(r@[19] == k),
            Key::AgcEnabled => {},
        }
    }
    r
}

/// What became of an override.
pub open spec fn applied(
    before: RdfConfig,
    key: Seq<char>,
    value: Seq<char>,
    number: Option<Single>,
    after: RdfConfig,
    r: Result<(), String>,
) -> bool {
    match Key::named(key) {
        Some(k) if compared(k) => match (settings::value_spec(k.kind_spec(), value, number), r) {
            (Some(v), Ok(())) => after == k.put_spec(before, v),
            (None, Err(m)) => {
                &&& after == before
                &&& m@ == settings::refusal_spec(k.kind_spec(), key, value)
            },
            _ => false,
        },
        _ => {
            &&& after == before
            &&& r matches Err(m) && m@ == key
                + " is not a key this compares; --list-keys lists them"@
        },
    }
}

/// Apply an override.
///
/// # Arguments
/// * `key`, `value` - what stands ahead of the first equals sign and behind it
/// * `number` - what the value reads as, where it reads as a number
pub fn apply(config: &mut RdfConfig, key: &str, value: &str, number: Option<Single>) -> (r: Result<
    (),
    String,
>)
    ensures
        applied(*old(config), key@, value@, number, *final(config), r),
{
    if let Some(k) = Key::of_name(key) {
        proof {
            Key::names_settings(key@);
        }
        if k != Key::AgcEnabled {
            return settings::set(config, k, value, number);
        }
    }
    let mut m: String = text::owned(key);
    m.append(" is not a key this compares; --list-keys lists them");
    Err(m)
}

/// Why an override without an equals sign is refused.
pub fn no_assignment(assignment: &str) -> (m: String)
    ensures
        m@ == "expected key=value, got "@ + assignment@,
{
    let mut m: String = text::owned("expected key=value, got ");
    m.append(assignment);
    m
}

/// How a side is described.
pub open spec fn description(overrides: Seq<String>) -> Seq<char> {
    if overrides.len() == 0 {
        "defaults"@
    } else {
        fields::joined(fields::contents(overrides), " "@)
    }
}

/// How a side is described: by its overrides, or as the defaults.
pub fn describe(overrides: &[String]) -> (s: String)
    ensures
        s@ == description(overrides@),
{
    if overrides.len() == 0 {
        text::owned("defaults")
    } else {
        fields::join(overrides, " ")
    }
}

/// Whether an override gives a key a value.
pub open spec fn assigns(s: Seq<char>, key: Seq<char>, value: Seq<char>) -> bool {
    s == key + seq!['='] + value && !key.contains('=')
}

/// Whether a side gives a key a value last.
pub open spec fn gives_last(side: Seq<String>, key: Seq<char>, value: Seq<char>) -> bool {
    exists|i: int|
        {
            &&& 0 <= i < side.len()
            &&& assigns((#[trigger] side[i])@, key, value)
            &&& forall|j: int, v: Seq<char>|
                i < j < side.len() ==> !#[trigger] assigns(side[j]@, key, v)
        }
}

/// The value that a side gives a key: the last one, where there is any.
pub fn value_of(side: &[String], key: &str) -> (v: Option<String>)
    requires
        !key@.contains('='),
    ensures
        match v {
            Some(value) => gives_last(side@, key@, value@),
            None => forall|i: int, v: Seq<char>|
                0 <= i < side@.len() ==> !#[trigger] assigns(side@[i]@, key@, v),
        },
{
    let mut i: usize = side.len();
    while i > 0
        invariant
            i <= side.len(),
            !key@.contains('='),
            forall|j: int, v: Seq<char>|
                i <= j < side@.len() ==> !#[trigger] assigns(side@[j]@, key@, v),
        decreases i,
    {
        i = i - 1;
        let ghost whole = side@[i as int]@;
        match fields::split_once(side[i].as_str(), '=') {
            Some((front, back)) => {
                if text::same(front.as_str(), key) {
                    assert(assigns(whole, key@, back@));
                    return Some(back);
                }
                assert forall|v: Seq<char>| !#[trigger] assigns(whole, key@, v) by {
                    if assigns(whole, key@, v) {
                        fields::split_once_is_unique(front@, back@, key@, v, '=');
                    }
                }
            },
            None => {
                assert forall|v: Seq<char>| !#[trigger] assigns(whole, key@, v) by {
                    if assigns(whole, key@, v) {
                        assert((key@ + seq!['='] + v)[key@.len() as int] == '=');
                        assert(whole.contains('='));
                    }
                }
            },
        }
    }
    None
}

/// Whether two sides give a key different values, or one of them none.
pub fn differ(a: &[String], b: &[String], key: &str) -> (d: bool)
    requires
        !key@.contains('='),
    ensures
        !d == {
            ||| exists|v: Seq<char>|
                #[trigger] gives_last(a@, key@, v) && gives_last(b@, key@, v)
            ||| forall|v: Seq<char>|
                !#[trigger] gives_last(a@, key@, v) && !gives_last(b@, key@, v)
        },
{
    let x: Option<String> = value_of(a, key);
    let y: Option<String> = value_of(b, key);
    let d: bool = match (&x, &y) {
        (Some(v), Some(w)) => !text::same(v.as_str(), w.as_str()),
        (None, None) => false,
        _ => true,
    };
    proof {
        if x is Some && y is Some {
            let v = x->0@;
            let w = y->0@;
            assert(gives_last(a@, key@, v) && gives_last(b@, key@, w));
            assert forall|u: Seq<char>|
                #[trigger] gives_last(a@, key@, u) && gives_last(b@, key@, u) implies v == u && w
                == u by {
                last_is_unique(a@, key@, u, v);
                last_is_unique(b@, key@, u, w);
            }
        }
        if x is None {
            assert forall|u: Seq<char>| !#[trigger] gives_last(a@, key@, u) by {}
        }
        if y is None {
            assert forall|u: Seq<char>| !#[trigger] gives_last(b@, key@, u) by {}
        }
        if x is Some && y is None {
            assert(gives_last(a@, key@, x->0@));
        }
        if x is None && y is Some {
            assert(gives_last(b@, key@, y->0@));
            assert(!gives_last(a@, key@, y->0@));
        }
    }
    d
}

/// A side gives a key one last value at most.
pub proof fn last_is_unique(side: Seq<String>, key: Seq<char>, v: Seq<char>, w: Seq<char>)
    requires
        gives_last(side, key, v),
        gives_last(side, key, w),
    ensures
        v == w,
{
    let i = choose|i: int|
        {
            &&& 0 <= i < side.len()
            &&& assigns((#[trigger] side[i])@, key, v)
            &&& forall|j: int, u: Seq<char>|
                i < j < side.len() ==> !#[trigger] assigns(side[j]@, key, u)
        };
    let k = choose|k: int|
        {
            &&& 0 <= k < side.len()
            &&& assigns((#[trigger] side[k])@, key, w)
            &&& forall|j: int, u: Seq<char>|
                k < j < side.len() ==> !#[trigger] assigns(side[j]@, key, u)
        };
    assert(assigns(side[i]@, key, v) && assigns(side[k]@, key, w));
    assert(i == k);
    fields::split_once_is_unique(key, v, key, w, '=');
}

/// Why sides that differ in a key are refused.
pub fn refuse_key(key: &str) -> (m: String)
    ensures
        m@ == key@
            + " differs between the two sides. It decides what the signal is, and one signal is built for both, so the comparison would not mean what it looks like. Set it the same on both sides, or leave it off both."@,
{
    let mut m: String = text::owned(key);
    m.append(
        " differs between the two sides. It decides what the signal is, and one signal is built for both, so the comparison would not mean what it looks like. Set it the same on both sides, or leave it off both.",
    );
    m
}

/// The key that decides what the signal is and on which two sides differ,
/// where there is one. One signal is built for both sides, so they have to
/// agree on it, or one of them is scored against a stimulus built for the
/// other.
pub fn clashing_key(a: &[String], b: &[String]) -> (k: Option<&'static str>)
    ensures
        ({
            let rate = agree(a@, b@, "audio.sample_rate"@);
            let amplitude = agree(a@, b@, "north_tick.expected_pulse_amplitude"@);
            match k {
                None => rate && amplitude,
                Some(key) => {
                    ||| !rate && key@ == "audio.sample_rate"@
                    ||| rate && !amplitude && key@ == "north_tick.expected_pulse_amplitude"@
                },
            }
        }),
{
    proof {
        reveal_strlit("audio.sample_rate");
        reveal_strlit("north_tick.expected_pulse_amplitude");
    }
    if differ(a, b, "audio.sample_rate") {
        Some("audio.sample_rate")
    } else if differ(a, b, "north_tick.expected_pulse_amplitude") {
        Some("north_tick.expected_pulse_amplitude")
    } else {
        None
    }
}

/// Whether two sides give a key the same value, or neither gives it any.
pub open spec fn agree(a: Seq<String>, b: Seq<String>, key: Seq<char>) -> bool {
    ||| exists|v: Seq<char>| #[trigger] gives_last(a, key, v) && gives_last(b, key, v)
    ||| forall|v: Seq<char>| !#[trigger] gives_last(a, key, v) && !gives_last(b, key, v)
}

/// The noise at an index.
pub open spec fn noise_spec(index: u64) -> Single {
    signal::spread_spec(
        signal::mixed(
            vstd::wrapping::u64_specs::wrapping_mul(index, 0x9E37_79B9_7F4A_7C15)
                ^ 0xC0FF_EE00_1234_5678,
        ),
    )
}

/// Deterministic uniform noise between -1 and 1.
pub fn noise_at(index: usize) -> (r: Single)
    ensures
        r == noise_spec(index as u64),
{
    signal::spread(
        signal::mix(
            (index as u64).wrapping_mul(0x9E37_79B9_7F4A_7C15) ^ 0xC0FF_EE00_1234_5678,
        ),
    )
}

/// The angle whose sine is the jitter of a pulse.
pub fn jitter_angle(index: usize) -> (a: Single)
    ensures
        a == Single::from_integer_spec(index as int).times_spec(constants::of(JITTER_STEP)),
{
    Single::from_count(index).times(Single::from_bits(JITTER_STEP))
}

/// The jitter of a pulse in whole samples, from the sine of its angle.
pub open spec fn jitter_spec(sine: Single, max_abs: i32) -> Double {
    if max_abs <= 0 {
        Double { bits: 0 }
    } else {
        Double::from_single_spec(
            sine.times_spec(Single::from_integer_spec(max_abs as int)).round_spec(),
        )
    }
}

/// The jitter of a pulse in whole samples, from the sine of its angle.
pub fn jitter(sine: Single, max_abs: i32) -> (j: Double)
    ensures
        j == jitter_spec(sine, max_abs),
{
    if max_abs <= 0 {
        Double::zero()
    } else {
        Double::from_single(sine.times(Single::from_index(max_abs as i128)).round())
    }
}

/// The time of a pulse in samples, as long as all of it lies in the signal.
///
/// The tone's north is at sample zero, so the pulses have to start there too.
pub fn pulse_epoch(
    index: usize,
    sample_rate: u32,
    rotation_hz: Single,
    jitter: Double,
    num_samples: usize,
) -> (epoch: Option<Double>)
    ensures
        ({
            let e = signal::epoch_spec(index as nat, sample_rate, rotation_hz).plus_spec(jitter);
            let end = Double::from_count_spec(num_samples as nat).minus_spec(
                Double { bits: signal::HALF_WIDTH_DOUBLE },
            );
            epoch == if end.le_spec(e) {
                None
            } else {
                Some(e)
            }
        }),
{
    let period: Double = Double::from_count(sample_rate as usize).over(
        Double::from_single(rotation_hz),
    );
    let e: Double = Double::from_count(index).times(period).plus(jitter);
    let end: Double = Double::from_count(num_samples).minus(
        Double::from_bits(signal::HALF_WIDTH_DOUBLE),
    );
    if e.at_least(end) {
        None
    } else {
        Some(e)
    }
}

/// The phase of the tone at a sample.
pub fn tone_phase(
    index: usize,
    sample_rate: u32,
    rotation_hz: Single,
    bearing: Single,
) -> (p: Single)
    ensures
        p == constants::of(constants::TWO_PI).times_spec(rotation_hz).over_spec(
            Single::from_integer_spec(sample_rate as int),
        ).times_spec(Single::from_integer_spec(index as int)).minus_spec(
            stats::radians_of(bearing),
        ),
{
    let omega: Single = Single::from_bits(constants::TWO_PI).times(rotation_hz).over(
        Single::from_count(sample_rate as usize),
    );
    omega.times(Single::from_count(index)).minus(stats::to_radians(bearing))
}

/// A frame of the signal: tone and noise left, pulses and noise right.
pub fn frame(tone: Single, tick: Single, noise: Single, index: usize) -> (f: (Single, Single))
    ensures
        f.0 == tone.plus_spec(noise.times_spec(noise_spec(index as u64))),
        f.1 == tick.plus_spec(
            noise.times_spec(constants::of(NORTH_NOISE_SHARE)).times_spec(
                noise_spec((index ^ 0x5555) as u64),
            ),
        ),
{
    (
        tone.plus(noise.times(noise_at(index))),
        tick.plus(
            noise.times(Single::from_bits(NORTH_NOISE_SHARE)).times(noise_at(index ^ 0x5555)),
        ),
    )
}

/// The epoch nearest to a time among the first `k`, the earlier one of two
/// that are equally near.
pub open spec fn nearest_spec(epochs: Seq<Double>, time: Double, k: int) -> Option<Double>
    decreases k,
{
    if k <= 0 {
        None
    } else {
        let e = epochs[k - 1];
        match nearest_spec(epochs, time, k - 1) {
            None => Some(e),
            Some(best) => if e.minus_spec(time).abs_spec().total_rank() < best.minus_spec(
                time,
            ).abs_spec().total_rank() {
                Some(e)
            } else {
                Some(best)
            },
        }
    }
}

/// The epoch nearest to a time.
pub fn nearest_epoch(epochs: &[Double], time: Double) -> (e: Option<Double>)
    ensures
        e == nearest_spec(epochs@, time, epochs@.len() as int),
{
    let mut best: Option<Double> = None;
    let mut i: usize = 0;
    while i < epochs.len()
        invariant
            i <= epochs.len(),
            best == nearest_spec(epochs@, time, i as int),
        decreases epochs.len() - i,
    {
        let e: Double = epochs[i];
        best = match best {
            None => Some(e),
            Some(b) => {
                if e.minus(time).abs().total_less_than(b.minus(time).abs()) {
                    Some(e)
                } else {
                    Some(b)
                }
            },
        };
        i = i + 1;
    }
    best
}

/// No epoch is nearer than the nearest one.
pub proof fn nearest_is_nearest(epochs: Seq<Double>, time: Double, k: int, i: int)
    requires
        0 <= i < k <= epochs.len(),
    ensures
        nearest_spec(epochs, time, k) is Some,
        nearest_spec(epochs, time, k)->0.minus_spec(time).abs_spec().total_rank()
            <= epochs[i].minus_spec(time).abs_spec().total_rank(),
    decreases k,
{
    if i < k - 1 {
        nearest_is_nearest(epochs, time, k - 1, i);
    }
}

/// The error of a tick, where an epoch is near enough.
pub open spec fn tick_error_spec(result: TickResult, epochs: Seq<Double>) -> Option<Double> {
    let time = statistics::tick_time_spec(result);
    match nearest_spec(epochs, time, epochs.len() as int) {
        Some(epoch) => {
            let e = time.minus_spec(epoch).abs_spec();
            if e.lt_spec(Double { bits: statistics::MATCH_SAMPLES }) {
                Some(e)
            } else {
                None
            }
        },
        None => None,
    }
}

/// The error of a tick, where an epoch is near enough.
pub fn tick_error(result: &TickResult, epochs: &[Double]) -> (e: Option<Double>)
    ensures
        e == tick_error_spec(*result, epochs@),
{
    let time: Double = statistics::tick_time(result);
    match nearest_epoch(epochs, time) {
        Some(epoch) => {
            let e: Double = time.minus(epoch).abs();
            if e.less_than(Double::from_bits(statistics::MATCH_SAMPLES)) {
                Some(e)
            } else {
                None
            }
        },
        None => None,
    }
}

/// What a run showed.
pub ghost struct Seen {
    pub tick_errors: Seq<Double>,
    pub bearing_errors: Seq<Double>,
    pub snrs: Seq<Double>,
    pub strengths: Seq<Double>,
    pub stated: Seq<Double>,
    pub confidences: Seq<Double>,
    pub signed_errors: Seq<Double>,
}

/// What a run showed: the errors of its ticks and bearings, and what was
/// stated of them.
pub struct Readings {
    pub tick_errors: Vec<Double>,
    pub bearing_errors: Vec<Double>,
    pub snrs: Vec<Double>,
    pub strengths: Vec<Double>,
    pub stated: Vec<Double>,
    pub confidences: Vec<Double>,
    pub signed_errors: Vec<Double>,
}

/// What the first `k` results showed.
pub open spec fn seen_spec(
    results: Seq<TickResult>,
    epochs: Seq<Double>,
    truth: Single,
    k: int,
) -> Seen
    decreases k,
{
    if k <= 0 {
        Seen {
            tick_errors: Seq::empty(),
            bearing_errors: Seq::empty(),
            snrs: Seq::empty(),
            strengths: Seq::empty(),
            stated: Seq::empty(),
            confidences: Seq::empty(),
            signed_errors: Seq::empty(),
        }
    } else {
        let before = seen_spec(results, epochs, truth, k - 1);
        let result = results[k - 1];
        let ticks = match tick_error_spec(result, epochs) {
            Some(e) => before.tick_errors.push(e),
            None => before.tick_errors,
        };
        match result.bearing {
            None => Seen { tick_errors: ticks, ..before },
            Some(b) => {
                let error = statistics::signed_error_spec(b.bearing_degrees, truth);
                Seen {
                    tick_errors: ticks,
                    bearing_errors: before.bearing_errors.push(error.abs_spec()),
                    snrs: before.snrs.push(Double::from_single_spec(b.metrics.snr_db)),
                    strengths: before.strengths.push(
                        Double::from_single_spec(b.metrics.signal_strength),
                    ),
                    stated: match b.metrics.bearing_uncertainty_deg {
                        Some(u) => before.stated.push(Double::from_single_spec(u)),
                        None => before.stated,
                    },
                    confidences: before.confidences.push(
                        Double::from_single_spec(b.confidence),
                    ),
                    signed_errors: before.signed_errors.push(error),
                }
            },
        }
    }
}

impl Readings {
    pub open spec fn seen(self) -> Seen {
        Seen {
            tick_errors: self.tick_errors@,
            bearing_errors: self.bearing_errors@,
            snrs: self.snrs@,
            strengths: self.strengths@,
            stated: self.stated@,
            confidences: self.confidences@,
            signed_errors: self.signed_errors@,
        }
    }

    /// Read a run against the epochs and the bearing that its signal was made
    /// of.
    pub fn read(results: &[TickResult], epochs: &[Double], truth: Single) -> (r: Readings)
        ensures
            r.seen() == seen_spec(results@, epochs@, truth, results@.len() as int),
    {
        let mut r: Readings = Readings {
            tick_errors: Vec::new(),
            bearing_errors: Vec::new(),
            snrs: Vec::new(),
            strengths: Vec::new(),
            stated: Vec::new(),
            confidences: Vec::new(),
            signed_errors: Vec::new(),
        };
        let mut i: usize = 0;
        while i < results.len()
            invariant
                i <= results.len(),
                r.seen() == seen_spec(results@, epochs@, truth, i as int),
            decreases results.len() - i,
        {
            let result: &TickResult = &results[i];
            if let Some(e) = tick_error(result, epochs) {
                r.tick_errors.push(e);
            }
            if let Some(b) = result.bearing {
                let error: Double = statistics::signed_error(b.bearing_degrees, truth);
                r.bearing_errors.push(error.abs());
                r.snrs.push(Double::from_single(b.metrics.snr_db));
                r.strengths.push(Double::from_single(b.metrics.signal_strength));
                if let Some(u) = b.metrics.bearing_uncertainty_deg {
                    r.stated.push(Double::from_single(u));
                }
                r.confidences.push(Double::from_single(b.confidence));
                r.signed_errors.push(error);
            }
            i = i + 1;
        }
        r
    }

    /// The angles of the errors in the tail of the run, in radians.
    ///
    /// The offset is taken over the same tail as everything else. Over the
    /// whole run each side's acquisition would fold into it.
    pub fn offset_angles(&self) -> (r: Vec<Double>)
        ensures
            r@ == statistics::tail_spec(
                self.signed_errors@,
                Double { bits: statistics::FIFTH },
            ).map_values(
                |e: Double| e.times_spec(Double { bits: RADIANS_PER_DEGREE_DOUBLE }),
            ),
    {
        let last: Vec<Double> = statistics::tail(
            self.signed_errors.as_slice(),
            Double::from_bits(statistics::FIFTH),
        );
        let ghost all = last@.map_values(
            |e: Double| e.times_spec(Double { bits: RADIANS_PER_DEGREE_DOUBLE }),
        );
        let mut r: Vec<Double> = Vec::new();
        let mut i: usize = 0;
        while i < last.len()
            invariant
                i <= last.len(),
                all == last@.map_values(
                    |e: Double| e.times_spec(Double { bits: RADIANS_PER_DEGREE_DOUBLE }),
                ),
                r@ == all.take(i as int),
            decreases last.len() - i,
        {
            r.push(last[i].times(Double::from_bits(RADIANS_PER_DEGREE_DOUBLE)));
            i = i + 1;
            assert(r@ =~= all.take(i as int));
        }
        assert(r@ =~= all);
        r
    }
}

/// The figures of a run.
#[derive(Debug, Clone, Copy, PartialEq, Eq)]
pub struct Measurement {
    pub tick_mean: Double,
    pub tick_p95: Double,
    pub bearing_mean: Double,
    pub bearing_p95: Double,
    pub bearing_offset: Double,
    pub snr_db: Double,
    pub signal_strength: Double,
    pub confidence: Double,
    pub reference_phase_sigma_deg: Double,
    pub stated_sigma_deg: Double,
    pub ticks: usize,
    pub bearings: usize,
}

/// What the timing scatter of a tracker is worth in degrees.
pub open spec fn reference_sigma_spec(variance: Option<Single>) -> Double {
    match variance {
        Some(v) => Double::from_single_spec(
            v.max_spec(constants::of(0)).sqrt_spec().times_spec(
                constants::of(math::DEGREES_PER_RADIAN),
            ),
        ),
        None => Double::not_a_number(),
    }
}

/// What the timing scatter of a tracker is worth in degrees.
pub fn reference_sigma(variance: Option<Single>) -> (s: Double)
    ensures
        s == reference_sigma_spec(variance),
{
    match variance {
        Some(v) => Double::from_single(
            v.max(Single::zero()).sqrt().times(Single::from_bits(math::DEGREES_PER_RADIAN)),
        ),
        None => Double::from_bits(double::NAN_BITS),
    }
}

/// The mean of the last fifth of a series.
pub open spec fn tail_mean_spec(values: Seq<Double>) -> Double {
    statistics::mean_spec(
        statistics::tail_spec(values, Double { bits: statistics::FIFTH }),
    )
}

/// The mean of the last fifth of a series.
pub fn tail_mean(values: &[Double]) -> (m: Double)
    ensures
        m == tail_mean_spec(values@),
{
    let last: Vec<Double> = statistics::tail(values, Double::from_bits(statistics::FIFTH));
    statistics::mean(last.as_slice())
}

/// What nineteen of twenty in the last fifth of a series do not exceed.
pub open spec fn tail_p95_spec(values: Seq<Double>) -> Double {
    statistics::percentile_spec(
        statistics::tail_spec(values, Double { bits: statistics::FIFTH }),
        Double { bits: statistics::P95 },
    )
}

/// What nineteen of twenty in the last fifth of a series do not exceed.
pub fn tail_p95(values: &[Double]) -> (m: Double)
    ensures
        m == tail_p95_spec(values@),
{
    let last: Vec<Double> = statistics::tail(values, Double::from_bits(statistics::FIFTH));
    statistics::percentile(last.as_slice(), Double::from_bits(statistics::P95))
}

/// The figures of what a run showed.
pub open spec fn measurement_spec(
    seen: Seen,
    phase_error_variance: Option<Single>,
    offset_radians: Double,
) -> Measurement {
    Measurement {
        tick_mean: tail_mean_spec(seen.tick_errors),
        tick_p95: tail_p95_spec(seen.tick_errors),
        bearing_mean: tail_mean_spec(seen.bearing_errors),
        bearing_p95: tail_p95_spec(seen.bearing_errors),
        bearing_offset: offset_radians.times_spec(Double { bits: DEGREES_PER_RADIAN_DOUBLE }),
        snr_db: tail_mean_spec(seen.snrs),
        signal_strength: tail_mean_spec(seen.strengths),
        confidence: tail_mean_spec(seen.confidences),
        reference_phase_sigma_deg: reference_sigma_spec(phase_error_variance),
        stated_sigma_deg: tail_mean_spec(seen.stated),
        ticks: seen.tick_errors.len() as usize,
        bearings: seen.bearing_errors.len() as usize,
    }
}

impl Measurement {
    /// The figures of a run, from what it showed.
    ///
    /// # Arguments
    /// * `offset_radians` - the direction of the tail's errors taken as
    ///   vectors
    pub fn of(
        readings: &Readings,
        phase_error_variance: Option<Single>,
        offset_radians: Double,
    ) -> (m: Measurement)
        ensures
            m == measurement_spec(readings.seen(), phase_error_variance, offset_radians),
    {
        Measurement {
            tick_mean: tail_mean(readings.tick_errors.as_slice()),
            tick_p95: tail_p95(readings.tick_errors.as_slice()),
            bearing_mean: tail_mean(readings.bearing_errors.as_slice()),
            bearing_p95: tail_p95(readings.bearing_errors.as_slice()),
            bearing_offset: offset_radians.times(Double::from_bits(DEGREES_PER_RADIAN_DOUBLE)),
            snr_db: tail_mean(readings.snrs.as_slice()),
            signal_strength: tail_mean(readings.strengths.as_slice()),
            confidence: tail_mean(readings.confidences.as_slice()),
            reference_phase_sigma_deg: reference_sigma(phase_error_variance),
            stated_sigma_deg: tail_mean(readings.stated.as_slice()),
            ticks: readings.tick_errors.len(),
            bearings: readings.bearing_errors.len(),
        }
    }
}

} // verus!
