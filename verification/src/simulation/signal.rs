//! Test signals: noise, north pulses and the interference envelope.
//!
//! Cosines, sines and exponentials are taken outside; what goes into them and
//! what is made of them is here.
use crate::constants;
use crate::double::Double;
use crate::ieee;
use crate::signal_processing::math;
use crate::signal_processing::north_agc;
use crate::single;
use crate::single::Single;
use crate::single_laws;
use crate::stats;
use vstd::arithmetic::power2;
use vstd::prelude::*;

verus! {

/// Taps of the band limiting on the interfering audio. Long enough that the
/// band edges are sharp against a 300 Hz to 3.4 kHz band.
pub const AUDIO_BAND_TAPS: usize = 255;

/// Transition width of that band limiting (150 Hz).
pub const AUDIO_BAND_TRANSITION_HZ: u32 = 0x4316_0000;

/// The Doppler passband the impairment is scaled against (1350 to 1850 Hz).
pub const DOPPLER_BAND_LOW_HZ: u32 = 0x44a8_c000;

pub const DOPPLER_BAND_HIGH_HZ: u32 = 0x44e7_4000;

/// Width of a north pulse in radians (0.2).
pub const NORTH_TICK_PULSE_WIDTH_RADIANS: u32 = 0x3e4c_cccd;

/// Amplitude of a north pulse (0.8).
pub const NORTH_TICK_AMPLITUDE: u32 = 0x3f4c_cccd;

/// Half-width, in samples, of the synthesized north pulse.
pub const NORTH_TICK_HALF_WIDTH_SAMPLES: i64 = 12;

/// Length of one step of the interference envelope, in milliseconds (20).
/// It is the timescale a bearing is computed on, which is the one that decides
/// whether a burst is seen as a burst or averaged away.
pub const ENVELOPE_STEP_MS: u32 = 0x41a0_0000;

/// One thousandth.
pub const THOUSANDTH: u32 = 0x3a83_126f;

/// The largest correlation of the envelope (0.999).
pub const MAX_ENVELOPE_CORRELATION: u32 = 0x3f7f_be77;

/// The largest 32-bit number as a single-precision one.
pub const WORD_SCALE: u32 = 0x4f80_0000;

/// The largest single-precision number below one.
pub const BELOW_ONE: u32 = 0x3f7f_ffff;

/// Draws that make up one that is nearly normal.
pub const DRAWS: usize = 12;

/// What the channels carry besides the signal.
#[derive(Debug, Clone, Copy, PartialEq, Eq)]
pub struct SignalImpairment {
    /// Interfering audio power inside the Doppler passband, relative to the
    /// rotation tone. Not the ratio over the whole channel: what decides a
    /// bearing is the power in the passband.
    pub passband_noise_to_tone: Single,
    /// Amplitude of the second harmonic, relative to the fundamental.
    pub second_harmonic: Single,
    /// Amplitude of the third harmonic, relative to the fundamental.
    pub third_harmonic: Single,
    /// Band the interfering audio occupies, in Hz. Voice-band by default, so
    /// it overlaps the Doppler passband.
    pub audio_low_hz: Single,
    pub audio_high_hz: Single,
    /// Amplitude of the north pulses, before any gain.
    pub north_pulse_amplitude: Single,
    /// RMS of the white noise added to the north channel.
    pub north_noise_rms: Single,
    /// How strongly the interference clumps in time, from 0 to just under 1.
    /// Zero is stationary noise. The mean passband power is held to
    /// `passband_noise_to_tone` whatever this is set to.
    pub envelope_correlation: Single,
    /// Spread of the interference envelope, in nepers of log power. Zero is a
    /// flat envelope regardless of `envelope_correlation`.
    pub envelope_depth: Single,
    /// Amplitude of a second propagation path, relative to the direct one.
    pub multipath_ratio: Single,
    /// Bearing the reflected path appears to arrive from, in degrees, as an
    /// offset from the true one.
    pub multipath_bearing_offset_deg: Single,
    /// How fast the relative phase of the two paths drifts, in Hz.
    pub multipath_drift_hz: Single,
    /// Seed, so a run is repeatable.
    pub seed: u64,
}

impl SignalImpairment {
    pub open spec fn none_spec() -> SignalImpairment {
        SignalImpairment {
            passband_noise_to_tone: constants::of(0),
            second_harmonic: constants::of(0),
            third_harmonic: constants::of(0),
            north_pulse_amplitude: constants::of(NORTH_TICK_AMPLITUDE),
            north_noise_rms: constants::of(0),
            audio_low_hz: constants::of(0x4396_0000),
            audio_high_hz: constants::of(0x4554_8000),
            envelope_correlation: constants::of(0),
            envelope_depth: constants::of(0),
            multipath_ratio: constants::of(0),
            multipath_bearing_offset_deg: constants::of(0),
            multipath_drift_hz: constants::of(0),
            seed: 0x51D3_7A19_C0DE_2B4F,
        }
    }

    /// Nothing but the tone.
    pub fn none() -> (s: SignalImpairment)
        ensures
            s == Self::none_spec(),
    {
        SignalImpairment {
            passband_noise_to_tone: Single::zero(),
            second_harmonic: Single::zero(),
            third_harmonic: Single::zero(),
            north_pulse_amplitude: Single::from_bits(NORTH_TICK_AMPLITUDE),
            north_noise_rms: Single::zero(),
            audio_low_hz: Single::from_bits(0x4396_0000),
            audio_high_hz: Single::from_bits(0x4554_8000),
            envelope_correlation: Single::zero(),
            envelope_depth: Single::zero(),
            multipath_ratio: Single::zero(),
            multipath_bearing_offset_deg: Single::zero(),
            multipath_drift_hz: Single::zero(),
            seed: 0x51D3_7A19_C0DE_2B4F,
        }
    }

    pub open spec fn bursty_spec() -> SignalImpairment {
        SignalImpairment {
            envelope_correlation: constants::of(0x3f70_a3d7),
            envelope_depth: constants::of(0x3f00_0000),
            ..Self::none_spec()
        }
    }

    /// Interference that clumps in time the way recordings do.
    pub fn bursty() -> (s: SignalImpairment)
        ensures
            s == Self::bursty_spec(),
    {
        let mut s: SignalImpairment = Self::none();
        s.envelope_correlation = Single::from_bits(0x3f70_a3d7);
        s.envelope_depth = Single::from_bits(0x3f00_0000);
        s
    }

    pub open spec fn at_ratio_spec(ratio: Single) -> SignalImpairment {
        SignalImpairment {
            passband_noise_to_tone: ratio,
            second_harmonic: constants::of(0x3dcc_cccd),
            third_harmonic: constants::of(0x3d75_c28f),
            ..Self::bursty_spec()
        }
    }

    /// A named level, for sweeping.
    pub fn at_passband_ratio(ratio: Single) -> (s: SignalImpairment)
        ensures
            s == Self::at_ratio_spec(ratio),
    {
        let mut s: SignalImpairment = Self::bursty();
        s.passband_noise_to_tone = ratio;
        s.second_harmonic = Single::from_bits(0x3dcc_cccd);
        s.third_harmonic = Single::from_bits(0x3d75_c28f);
        s
    }

    /// Impairment in the range that recordings show: the middle of it, not the
    /// worst. A generator pinned to the worst observed case makes every test
    /// silently a worst-case test.
    pub fn representative() -> (s: SignalImpairment)
        ensures
            s == Self::at_ratio_spec(constants::of(0x3f4c_cccd)),
    {
        Self::at_passband_ratio(Single::from_bits(0x3f4c_cccd))
    }

    pub open spec fn multipath_spec() -> SignalImpairment {
        SignalImpairment {
            multipath_ratio: constants::of(0x3ee6_6666),
            multipath_bearing_offset_deg: constants::of(0x4270_0000),
            multipath_drift_hz: constants::of(0x3f33_3333),
            ..Self::bursty_spec()
        }
    }

    /// A channel with a reflection in it.
    ///
    /// Noise and interference degrade the precision of a bearing; multipath
    /// changes what the bearing is, because the reflection really does arrive
    /// from somewhere else and the sum really does point between them.
    pub fn multipath() -> (s: SignalImpairment)
        ensures
            s == Self::multipath_spec(),
    {
        let mut s: SignalImpairment = Self::bursty();
        s.multipath_ratio = Single::from_bits(0x3ee6_6666);
        s.multipath_bearing_offset_deg = Single::from_bits(0x4270_0000);
        s.multipath_drift_hz = Single::from_bits(0x3f33_3333);
        s
    }
}

/// What `mix` makes of a number.
pub open spec fn mixed(x: u64) -> u64 {
    let a = x ^ (x >> 33u64);
    let b = vstd::wrapping::u64_specs::wrapping_mul(a, 0xFF51_AFD7_ED55_8CCD);
    b ^ (b >> 29u64)
}

/// Avalanche: every output bit depends on every input bit.
pub fn mix(x: u64) -> (r: u64)
    ensures
        r == mixed(x),
{
    let a: u64 = x ^ (x >> 33u64);
    let b: u64 = a.wrapping_mul(0xFF51_AFD7_ED55_8CCD);
    b ^ (b >> 29u64)
}

/// The upper half of a word on a scale from -1 up, where the largest halves
/// round to 1.
pub open spec fn spread_spec(x: u64) -> Single {
    Single::from_integer_spec((x >> 32u64) as int).over_spec(constants::of(WORD_SCALE)).times_spec(
        constants::of(math::TWO),
    ).minus_spec(constants::of(single::ONE_BITS))
}

/// The upper half of a word on a scale from -1 up to 1.
pub fn spread(x: u64) -> (r: Single)
    ensures
        r == spread_spec(x),
{
    let word: u64 = x >> 32u64;
    Single::from_index(word as i128).over(Single::from_bits(WORD_SCALE)).times(
        Single::from_bits(math::TWO),
    ).minus(Single::one())
}

/// The number that the upper half of a word stands for: zero stands for -1,
/// and the largest halves, which would round to 1, for the number below it.
pub open spec fn uniform_spec(x: u64) -> Single {
    spread_spec(x).min_spec(constants::of(BELOW_ONE))
}

/// Whether a number is in [-1, 1).
pub open spec fn in_noise_range(x: Single) -> bool {
    constants::of(single::ONE_BITS).neg_spec().le_spec(x) && x.lt_spec(
        constants::of(single::ONE_BITS),
    )
}

/// The number that a word stands for is in [-1, 1).
pub proof fn uniform_is_in_range(x: u64)
    ensures
        in_noise_range(uniform_spec(x)),
{
    let one = constants::of(single::ONE_BITS);
    let two = constants::of(math::TWO);
    let scale = constants::of(WORD_SCALE);
    let word = (x >> 32u64) as int;
    assert(x >> 32u64 <= 0xffff_ffffu64) by (bit_vector);
    single_laws::counts_in_order(word, 0x1_0000_0000);
    word_scale_is_a_count();
    let n = Single::from_integer_spec(word);
    single_laws::over_in_order(n, scale, scale);
    single_laws::over_itself(scale);
    let q = n.over_spec(scale);
    single_laws::times_in_order(q, one, two);
    single_laws::one_times(two);
    single_laws::less_one_is_above(q.times_spec(two));
}

proof fn word_scale_is_a_count()
    ensures
        Single::from_integer_spec(0x1_0000_0000) == constants::of(WORD_SCALE),
{
    let h = single::HIDDEN as nat;
    let inf = single::INFINITE as nat;
    let b = WORD_SCALE as nat;
    power2::lemma2_to64();
    power2::lemma2_to64_rest();
    power2::lemma_pow2_adds(23, 158);
    power2::lemma_pow2_adds(32, single::UNIT as nat);
    assert(b / h == 159 && b % h == 0);
    ieee::nearest_of_held(h, inf, b);
}

/// The number that the upper half of a word stands for, in [-1, 1).
pub fn uniform(x: u64) -> (r: Single)
    ensures
        r == uniform_spec(x),
        in_noise_range(r),
{
    proof {
        uniform_is_in_range(x);
    }
    spread(x).min(Single::from_bits(BELOW_ONE))
}

/// The noise at an index.
pub open spec fn noise_spec(index: u64, seed: u64) -> Single {
    uniform_spec(
        mixed(
            vstd::wrapping::u64_specs::wrapping_mul(index, 0x9E37_79B9_7F4A_7C15) ^ mixed(seed),
        ),
    )
}

/// Deterministic uniform noise on [-1, 1).
///
/// The seed is mixed before it is combined, not after, and that is the whole
/// of the difference between independent realisations and correlated ones.
/// Folding a raw seed in and relying on the finalizer to scatter it avalanches
/// the value but not the difference between two streams.
pub fn noise_at(index: usize, seed: u64) -> (r: Single)
    ensures
        r == noise_spec(index as u64, seed),
        in_noise_range(r),
{
    uniform(mix((index as u64).wrapping_mul(0x9E37_79B9_7F4A_7C15) ^ mix(seed)))
}

/// An index on from another one, on the 64-bit circle.
pub open spec fn draw_index(index: u64, j: u64) -> u64 {
    vstd::wrapping::u64_specs::wrapping_add(
        vstd::wrapping::u64_specs::wrapping_mul(index, DRAWS as u64),
        j,
    )
}

/// The sum of the first `k` draws at an index.
pub open spec fn draws_spec(index: u64, seed: u64, k: int) -> Single
    decreases k,
{
    if k <= 0 {
        constants::of(0)
    } else {
        draws_spec(index, seed, k - 1).plus_spec(
            noise_spec(draw_index(index, (k - 1) as u64), seed),
        )
    }
}

/// Twelve uniform draws for a rough normal. Each draw is uniform on [-1, 1)
/// with variance 1/3, so twelve of them have a standard deviation of 2.
pub fn draws(index: usize, seed: u64) -> (r: Single)
    ensures
        r == draws_spec(index as u64, seed, DRAWS as int),
{
    let mut total: Single = Single::zero();
    let mut j: usize = 0;
    while j < DRAWS
        invariant
            j <= DRAWS,
            total == draws_spec(index as u64, seed, j as int),
        decreases DRAWS - j,
    {
        let at: u64 = (index as u64).wrapping_mul(DRAWS as u64).wrapping_add(j as u64);
        total = total.plus(uniform(mix(at.wrapping_mul(0x9E37_79B9_7F4A_7C15) ^ mix(seed))));
        j = j + 1;
    }
    total
}

/// North channel noise at an index.
pub open spec fn north_noise_spec(index: u64, impairment: SignalImpairment) -> Single {
    if impairment.north_noise_rms.le_spec(constants::of(0)) {
        constants::of(0)
    } else {
        draws_spec(index, impairment.seed ^ 0x4E4F_5254_4831, DRAWS as int).over_spec(
            constants::of(math::TWO),
        ).times_spec(impairment.north_noise_rms)
    }
}

/// North channel noise at an index.
pub fn north_noise(index: usize, impairment: &SignalImpairment) -> (r: Single)
    ensures
        r == north_noise_spec(index as u64, *impairment),
{
    if impairment.north_noise_rms.at_most(Single::zero()) {
        return Single::zero();
    }
    draws(index, impairment.seed ^ 0x4E4F_5254_4831).over(Single::from_bits(math::TWO)).times(
        impairment.north_noise_rms,
    )
}

/// A sample of a north pulse: where it goes, and how far it lies from the
/// pulse.
#[derive(Debug, Clone, Copy, PartialEq, Eq)]
pub struct PulseSample {
    pub index: usize,
    pub offset: Double,
}

/// The samples of a pulse, from `low` to `high`, that lie in a channel.
pub open spec fn pulse_spec(epoch: Double, len: nat, low: int, high: int) -> Seq<PulseSample>
    decreases high - low + 1,
{
    if high < low {
        Seq::empty()
    } else {
        let front = pulse_spec(epoch, len, low, high - 1);
        if 0 <= high < len {
            front.push(
                PulseSample {
                    index: high as usize,
                    offset: Double::from_integer_spec(high).minus_spec(epoch),
                },
            )
        } else {
            front
        }
    }
}

/// The sample nearest to a time.
pub open spec fn center_of(epoch: Double) -> int {
    if epoch.negative() {
        -(epoch.neg_spec().round_count_spec() as int)
    } else {
        epoch.round_count_spec() as int
    }
}

/// Where the samples of a band-limited impulse at a fractional position go.
///
/// A hardware pulse is well under one sample, so what an anti-aliased
/// converter records is a band-limited impulse centred on the arrival time
/// rather than a sample that happens to be non-zero. Lighting the first sample
/// at or after the rotation boundary instead would lag the truth by half a
/// sample on average.
pub fn pulse_samples(epoch: Double, len: usize) -> (s: Vec<PulseSample>)
    ensures
        s@ == pulse_spec(
            epoch,
            len as nat,
            center_of(epoch) - NORTH_TICK_HALF_WIDTH_SAMPLES,
            center_of(epoch) + NORTH_TICK_HALF_WIDTH_SAMPLES,
        ),
        forall|i: int| 0 <= i < s@.len() ==> (#[trigger] s@[i]).index < len,
{
    let center: i128 = if epoch.is_negative() {
        -(epoch.negated().round_count() as i128)
    } else {
        epoch.round_count() as i128
    };
    let low: i128 = center - NORTH_TICK_HALF_WIDTH_SAMPLES as i128;
    let high: i128 = center + NORTH_TICK_HALF_WIDTH_SAMPLES as i128;
    let mut samples: Vec<PulseSample> = Vec::new();
    let mut n: i128 = low;
    while n <= high
        invariant
            low <= n <= high + 1,
            high <= usize::MAX + 12,
            samples@ == pulse_spec(epoch, len as nat, low as int, n - 1),
            forall|i: int| 0 <= i < samples@.len() ==> (#[trigger] samples@[i]).index < len,
        decreases high + 1 - n,
    {
        if n >= 0 && n < len as i128 {
            samples.push(
                PulseSample { index: n as usize, offset: Double::from_index(n).minus(epoch) },
            );
        }
        n = n + 1;
    }
    samples
}

/// The smallest distance from a pulse that counts (2^-52).
pub const EPSILON: u64 = 0x3cb0_0000_0000_0000;

/// Pi in double precision.
pub const PI_DOUBLE: u64 = 0x4009_21fb_5444_2d18;

/// The half-width of a pulse in double precision (12).
pub const HALF_WIDTH_DOUBLE: u64 = 0x4028_0000_0000_0000;

/// The angles of a windowed impulse at a distance from its centre.
#[derive(Debug, Clone, Copy, PartialEq, Eq)]
pub struct PulseAngles {
    pub phase: Double,
    pub window: Double,
}

pub open spec fn pulse_angles_spec(offset: Double) -> Option<PulseAngles> {
    if offset.abs_spec().lt_spec(Double { bits: EPSILON }) {
        None
    } else {
        let phase = (Double { bits: PI_DOUBLE }).times_spec(offset);
        Some(
            PulseAngles {
                phase,
                window: phase.over_spec(Double { bits: HALF_WIDTH_DOUBLE }),
            },
        )
    }
}

/// The angles to take sines of, or none at the centre of a pulse.
pub fn pulse_angles(offset: Double) -> (a: Option<PulseAngles>)
    ensures
        a == pulse_angles_spec(offset),
{
    if offset.abs().less_than(Double::from_bits(EPSILON)) {
        None
    } else {
        let phase: Double = Double::from_bits(PI_DOUBLE).times(offset);
        Some(PulseAngles { phase, window: phase.over(Double::from_bits(HALF_WIDTH_DOUBLE)) })
    }
}

/// A windowed impulse, from the sines of its angles.
pub fn pulse_value(angles: PulseAngles, sin_phase: Double, sin_window: Double) -> (v: Double)
    ensures
        v == sin_phase.over_spec(angles.phase).times_spec(sin_window.over_spec(angles.window)),
{
    sin_phase.over(angles.phase).times(sin_window.over(angles.window))
}

/// A channel with the first `k` samples of a pulse added.
pub open spec fn with_pulse(
    channel: Seq<Single>,
    samples: Seq<PulseSample>,
    values: Seq<Double>,
    amplitude: Single,
    k: int,
) -> Seq<Single>
    decreases k,
{
    if k <= 0 {
        channel
    } else {
        let before = with_pulse(channel, samples, values, amplitude, k - 1);
        let at = samples[k - 1].index as int;
        before.update(
            at,
            before[at].plus_spec(amplitude.times_spec(values[k - 1].to_single_spec())),
        )
    }
}

/// Add a pulse to a channel: at each of its samples the amplitude times the
/// value there.
pub fn add_north_pulse(
    channel: &mut Vec<Single>,
    samples: &[PulseSample],
    values: &[Double],
    amplitude: Single,
)
    requires
        samples.len() == values.len(),
        forall|i: int|
            0 <= i < samples@.len() ==> (#[trigger] samples@[i]).index < old(channel)@.len(),
    ensures
        final(channel)@ == with_pulse(
            old(channel)@,
            samples@,
            values@,
            amplitude,
            samples@.len() as int,
        ),
        final(channel)@.len() == old(channel)@.len(),
{
    let mut k: usize = 0;
    while k < samples.len()
        invariant
            k <= samples.len(),
            samples.len() == values.len(),
            forall|i: int|
                0 <= i < samples@.len() ==> (#[trigger] samples@[i]).index < old(channel)@.len(),
            channel@.len() == old(channel)@.len(),
            channel@ == with_pulse(old(channel)@, samples@, values@, amplitude, k as int),
        decreases samples.len() - k,
    {
        let at: usize = samples[k].index;
        let sample: Single = channel[at];
        channel.set(at, sample.plus(amplitude.times(values[k].to_single())));
        k = k + 1;
    }
}

/// The number of samples in a duration.
pub fn sample_count(duration_secs: Single, sample_rate: u32) -> (n: usize)
    ensures
        n == duration_secs.times_spec(
            Single::from_integer_spec(sample_rate as int),
        ).to_count_spec(),
{
    duration_secs.times(Single::from_count(sample_rate as usize)).to_count()
}

/// The time of a north pulse in samples.
pub open spec fn epoch_spec(rotation: nat, sample_rate: u32, rotation_hz: Single) -> Double {
    Double::from_count_spec(rotation).times_spec(
        Double::from_count_spec(sample_rate as nat).over_spec(
            Double::from_single_spec(rotation_hz),
        ),
    )
}

/// The time of the north pulse of a rotation, where it lies within a signal of
/// so many samples.
pub fn pulse_epoch(
    rotation: usize,
    sample_rate: u32,
    rotation_hz: Single,
    num_samples: usize,
) -> (epoch: Option<Double>)
    ensures
        ({
            let e = epoch_spec(rotation as nat, sample_rate, rotation_hz);
            epoch == if Double::from_count_spec(num_samples as nat).le_spec(e) {
                None
            } else {
                Some(e)
            }
        }),
{
    let samples_per_rotation: Double = Double::from_count(sample_rate as usize).over(
        Double::from_single(rotation_hz),
    );
    let epoch: Double = Double::from_count(rotation).times(samples_per_rotation);
    if epoch.at_least(Double::from_count(num_samples)) {
        None
    } else {
        Some(epoch)
    }
}

/// How the Doppler tone is made at a sample: the phases to take sines of.
#[derive(Debug, Clone, Copy, PartialEq, Eq)]
pub struct TonePhases {
    /// Phase of the direct path
    pub direct: Single,
    /// Phase of the reflected one, where there is one
    pub reflected: Option<Single>,
}

/// Time of a sample in seconds.
pub open spec fn time_spec(index: nat, sample_rate: u32) -> Single {
    Single::from_integer_spec(index as int).over_spec(
        Single::from_integer_spec(sample_rate as int),
    )
}

/// The phase that a rotation has reached at a time.
pub open spec fn turned_spec(t: Single, rotation_hz: Single) -> Single {
    rotation_hz.times_spec(t).times_spec(constants::of(math::TWO)).times_spec(
        constants::of(constants::PI),
    )
}

pub open spec fn tone_phases_spec(
    t: Single,
    rotation_hz: Single,
    bearing_degrees: Single,
    impairment: SignalImpairment,
) -> TonePhases {
    let bearing = stats::radians_of(bearing_degrees);
    let turned = turned_spec(t, rotation_hz);
    TonePhases {
        direct: turned.minus_spec(bearing),
        reflected: if constants::of(0).lt_spec(impairment.multipath_ratio) {
            Some(
                turned.minus_spec(
                    bearing.plus_spec(stats::radians_of(impairment.multipath_bearing_offset_deg)),
                ).plus_spec(
                    constants::of(constants::TWO_PI).times_spec(
                        impairment.multipath_drift_hz,
                    ).times_spec(t),
                ),
            )
        } else {
            None
        },
    }
}

/// The phases of the Doppler tone at a sample.
///
/// The reflection carries its own apparent bearing and its own slowly drifting
/// phase. Summing them in the signal, rather than perturbing the bearing
/// afterwards, is what makes the fading and the bearing error the same event.
pub fn tone_phases(
    index: usize,
    sample_rate: u32,
    rotation_hz: Single,
    bearing_degrees: Single,
    impairment: &SignalImpairment,
) -> (p: TonePhases)
    ensures
        p == tone_phases_spec(
            time_spec(index as nat, sample_rate),
            rotation_hz,
            bearing_degrees,
            *impairment,
        ),
{
    let t: Single = Single::from_count(index).over(Single::from_count(sample_rate as usize));
    let bearing: Single = stats::to_radians(bearing_degrees);
    let turned: Single = rotation_hz.times(t).times(Single::from_bits(math::TWO)).times(
        Single::from_bits(constants::PI),
    );
    let reflected: Option<Single> = if impairment.multipath_ratio.above(Single::zero()) {
        let reflected_bearing: Single = bearing.plus(
            stats::to_radians(impairment.multipath_bearing_offset_deg),
        );
        let drift: Single = Single::from_bits(constants::TWO_PI).times(
            impairment.multipath_drift_hz,
        ).times(t);
        Some(turned.minus(reflected_bearing).plus(drift))
    } else {
        None
    };
    TonePhases { direct: turned.minus(bearing), reflected }
}

/// A path of the tone: its sine with the harmonics added.
pub open spec fn path_spec(
    s1: Single,
    s2: Single,
    s3: Single,
    impairment: SignalImpairment,
) -> Single {
    s1.plus_spec(impairment.second_harmonic.times_spec(s2)).plus_spec(
        impairment.third_harmonic.times_spec(s3),
    )
}

/// A path of the tone, from the sines of its phase and of the phase's double
/// and triple.
pub fn path(s1: Single, s2: Single, s3: Single, impairment: &SignalImpairment) -> (r: Single)
    ensures
        r == path_spec(s1, s2, s3, *impairment),
{
    s1.plus(impairment.second_harmonic.times(s2)).plus(impairment.third_harmonic.times(s3))
}

/// The tone: the direct path, and the reflected one where there is one.
pub fn tone(direct: Single, reflected: Option<Single>, impairment: &SignalImpairment) -> (r: Single)
    ensures
        r == match reflected {
            Some(x) => direct.plus_spec(impairment.multipath_ratio.times_spec(x)),
            None => direct,
        },
{
    match reflected {
        Some(x) => direct.plus(impairment.multipath_ratio.times(x)),
        None => direct,
    }
}

/// The correlation of the envelope that is used.
pub open spec fn correlation_spec(impairment: SignalImpairment) -> Single {
    impairment.envelope_correlation.clamp_spec(
        constants::of(0),
        constants::of(MAX_ENVELOPE_CORRELATION),
    )
}

/// The log power of the envelope, before its depth, at each step.
pub open spec fn envelope_spec(impairment: SignalImpairment, k: int) -> Single
    decreases k,
{
    if k <= 0 {
        constants::of(0)
    } else {
        let rho = correlation_spec(impairment);
        let drive = constants::of(single::ONE_BITS).minus_spec(rho.times_spec(rho)).sqrt_spec();
        rho.times_spec(envelope_spec(impairment, k - 1)).plus_spec(
            drive.times_spec(
                draws_spec(
                    (k - 1) as u64,
                    impairment.seed ^ 0x454E_5645_4C4F_5045,
                    DRAWS as int,
                ).over_spec(constants::of(math::TWO)),
            ),
        )
    }
}

/// Samples in a step of the envelope.
pub open spec fn step_spec(sample_rate: u32) -> nat {
    let n = constants::of(ENVELOPE_STEP_MS).times_spec(constants::of(THOUSANDTH)).times_spec(
        Single::from_integer_spec(sample_rate as int),
    ).to_count_spec();
    if n > 1 {
        n
    } else {
        1
    }
}

/// Samples in a step of the envelope.
pub fn envelope_step(sample_rate: u32) -> (n: usize)
    ensures
        n == step_spec(sample_rate),
        n >= 1,
{
    let n: usize = Single::from_bits(ENVELOPE_STEP_MS).times(Single::from_bits(THOUSANDTH)).times(
        Single::from_count(sample_rate as usize),
    ).to_count();
    if n > 1 {
        n
    } else {
        1
    }
}

/// The exponents of the envelope: the depth times an AR(1) process on log
/// power, one for each step of the audio and one more. None where the envelope
/// is flat.
///
/// The envelope is smooth on the scale of syllables rather than jumping every
/// sample, and log-normal rather than normal so it cannot go negative and so
/// quiet stretches are deep.
pub fn envelope_exponents(
    samples: usize,
    sample_rate: u32,
    impairment: &SignalImpairment,
) -> (exponents: Option<Vec<Single>>)
    requires
        samples + 2 <= usize::MAX,
    ensures
        ({
            let depth = impairment.envelope_depth.max_spec(constants::of(0));
            let step = step_spec(sample_rate) as int;
            let steps = (samples + step - 1) / step + 1;
            match exponents {
                None => depth.le_spec(constants::of(0)),
                Some(e) => {
                    &&& !depth.le_spec(constants::of(0))
                    &&& e@ == Seq::new(
                        steps as nat,
                        |k: int| depth.times_spec(envelope_spec(*impairment, k + 1)),
                    )
                },
            }
        }),
{
    let rho: Single = impairment.envelope_correlation.clamp(
        Single::zero(),
        Single::from_bits(MAX_ENVELOPE_CORRELATION),
    );
    let depth: Single = impairment.envelope_depth.max(Single::zero());
    if depth.at_most(Single::zero()) {
        return None;
    }
    let step: usize = envelope_step(sample_rate);
    proof {
        steps_of(samples as int, step as int);
    }
    let whole: usize = samples / step;
    let steps: usize = if samples % step > 0 {
        whole + 2
    } else {
        whole + 1
    };
    let drive: Single = Single::one().minus(rho.times(rho)).sqrt();
    let mut exponents: Vec<Single> = Vec::new();
    let mut state: Single = Single::zero();
    let mut k: usize = 0;
    while k < steps
        invariant
            k <= steps,
            rho == correlation_spec(*impairment),
            drive == constants::of(single::ONE_BITS).minus_spec(
                rho.times_spec(rho),
            ).sqrt_spec(),
            state == envelope_spec(*impairment, k as int),
            exponents@ == Seq::new(
                k as nat,
                |k: int| depth.times_spec(envelope_spec(*impairment, k + 1)),
            ),
        decreases steps - k,
    {
        let acc: Single = draws(k, impairment.seed ^ 0x454E_5645_4C4F_5045);
        state = rho.times(state).plus(drive.times(acc.over(Single::from_bits(math::TWO))));
        exponents.push(depth.times(state));
        k = k + 1;
        assert(exponents@ =~= Seq::new(
            k as nat,
            |k: int| depth.times_spec(envelope_spec(*impairment, k + 1)),
        ));
    }
    Some(exponents)
}

/// Rounding up a quotient.
proof fn steps_of(samples: int, step: int)
    requires
        samples >= 0,
        step >= 1,
    ensures
        samples / step + (if samples % step > 0 {
            1int
        } else {
            0int
        }) == (samples + step - 1) / step,
        samples / step <= samples,
{
    let q = samples / step;
    let r = samples % step;
    vstd::arithmetic::div_mod::lemma_fundamental_div_mod(samples, step);
    vstd::arithmetic::div_mod::lemma_mod_bound(samples, step);
    if r > 0 {
        assert(samples + step - 1 == (q + 1) * step + (r - 1)) by (nonlinear_arith)
            requires
                samples == step * q + r,
        ;
        vstd::arithmetic::div_mod::lemma_fundamental_div_mod_converse(
            samples + step - 1,
            step,
            q + 1,
            r - 1,
        );
    } else {
        assert(samples + step - 1 == q * step + (step - 1)) by (nonlinear_arith)
            requires
                samples == step * q + r,
                r == 0,
        ;
        vstd::arithmetic::div_mod::lemma_fundamental_div_mod_converse(
            samples + step - 1,
            step,
            q,
            step - 1,
        );
    }
    assert(q <= samples) by (nonlinear_arith)
        requires
            samples == step * q + r,
            step >= 1,
            r >= 0,
            samples >= 0,
    ;
}

/// A level of the envelope, the last one beyond the end.
pub open spec fn level_at(levels: Seq<Single>, k: nat) -> Single {
    if k < levels.len() {
        levels[k as int]
    } else {
        levels.last()
    }
}

/// The envelope at a sample, interpolated between steps so that it has no
/// edges of its own.
pub open spec fn envelope_at(levels: Seq<Single>, step: nat, i: nat) -> Single {
    let position = Single::from_integer_spec(i as int).over_spec(
        Single::from_integer_spec(step as int),
    );
    let k = position.to_count_spec();
    let frac = position.minus_spec(Single::from_integer_spec(k as int));
    let a = level_at(levels, k);
    let b = level_at(levels, if k < usize::MAX { k + 1 } else { k });
    a.plus_spec(b.minus_spec(a).times_spec(frac))
}

fn level(levels: &[Single], k: usize) -> (r: Single)
    requires
        levels.len() > 0,
    ensures
        r == level_at(levels@, k as nat),
{
    if k < levels.len() {
        levels[k]
    } else {
        levels[levels.len() - 1]
    }
}

/// Audio with the envelope applied.
pub open spec fn shaped(audio: Seq<Single>, levels: Seq<Single>, step: nat) -> Seq<Single> {
    Seq::new(
        audio.len(),
        |i: int| audio[i].times_spec(envelope_at(levels, step, i as nat)),
    )
}

/// The sum of squares of the first `k` samples.
pub open spec fn energy_spec(audio: Seq<Single>, k: int) -> Double
    decreases k,
{
    if k <= 0 {
        Double { bits: 0x8000_0000_0000_0000 }
    } else {
        energy_spec(audio, k - 1).plus_spec(
            Double::from_single_spec(audio[k - 1].times_spec(audio[k - 1])),
        )
    }
}

/// The mean power of audio.
pub open spec fn power_spec(audio: Seq<Single>) -> Double {
    energy_spec(audio, audio.len() as int).over_spec(
        Double::from_count_spec(if audio.len() > 0 { audio.len() } else { 1 }),
    )
}

/// Audio scaled by a factor.
pub open spec fn scaled(audio: Seq<Single>, scale: Single) -> Seq<Single> {
    Seq::new(audio.len(), |i: int| audio[i].times_spec(scale))
}

/// Audio scaled to unit mean power, where it has any.
pub open spec fn normalized(audio: Seq<Single>) -> Seq<Single> {
    let power = power_spec(audio);
    if (Double { bits: 0 }).lt_spec(power) {
        scaled(
            audio,
            (Double { bits: ONE_DOUBLE }).over_spec(power).sqrt_spec().to_single_spec(),
        )
    } else {
        audio
    }
}

/// One, in double precision.
pub const ONE_DOUBLE: u64 = 0x3ff0_0000_0000_0000;

/// The mean power of audio.
pub fn mean_power(audio: &[Single]) -> (p: Double)
    ensures
        p == power_spec(audio@),
{
    let mut total: Double = Double::from_bits(0x8000_0000_0000_0000);
    let mut i: usize = 0;
    while i < audio.len()
        invariant
            i <= audio.len(),
            total == energy_spec(audio@, i as int),
        decreases audio.len() - i,
    {
        total = total.plus(Double::from_single(audio[i].times(audio[i])));
        i = i + 1;
    }
    total.over(
        Double::from_count(
            if audio.len() > 0 {
                audio.len()
            } else {
                1
            },
        ),
    )
}

/// Scale audio by a factor.
pub fn scale_audio(audio: &mut Vec<Single>, scale: Single)
    ensures
        final(audio)@ == scaled(old(audio)@, scale),
{
    let n: usize = audio.len();
    let mut i: usize = 0;
    while i < n
        invariant
            i <= n,
            n == audio.len(),
            n == old(audio)@.len(),
            forall|k: int| 0 <= k < i ==> #[trigger] audio@[k] == old(audio)@[k].times_spec(scale),
            forall|k: int| i <= k < n ==> #[trigger] audio@[k] == old(audio)@[k],
        decreases n - i,
    {
        let sample: Single = audio[i];
        audio.set(i, sample.times(scale));
        i = i + 1;
    }
    assert(audio@ =~= scaled(old(audio)@, scale));
}

/// Give the interference the clumped time structure real audio has, from the
/// exponentials of the envelope's exponents. The result has unit mean power:
/// changing how bursty the interference is must not change how much of it
/// there is.
pub fn apply_envelope(audio: &mut Vec<Single>, levels: &[Single], sample_rate: u32)
    requires
        levels.len() > 0,
    ensures
        final(audio)@ == normalized(shaped(old(audio)@, levels@, step_spec(sample_rate))),
{
    let step: usize = envelope_step(sample_rate);
    let n: usize = audio.len();
    let mut i: usize = 0;
    while i < n
        invariant
            i <= n,
            n == audio.len(),
            n == old(audio)@.len(),
            levels.len() > 0,
            step == step_spec(sample_rate),
            forall|k: int|
                0 <= k < i ==> #[trigger] audio@[k] == old(audio)@[k].times_spec(
                    envelope_at(levels@, step as nat, k as nat),
                ),
            forall|k: int| i <= k < n ==> #[trigger] audio@[k] == old(audio)@[k],
        decreases n - i,
    {
        let position: Single = Single::from_count(i).over(Single::from_count(step));
        let k: usize = position.to_count();
        let frac: Single = position.minus(Single::from_count(k));
        let a: Single = level(levels, k);
        let b: Single = level(
            levels,
            if k < usize::MAX {
                k + 1
            } else {
                k
            },
        );
        let sample: Single = audio[i];
        audio.set(i, sample.times(a.plus(b.minus(a).times(frac))));
        i = i + 1;
    }
    assert(audio@ =~= shaped(old(audio)@, levels@, step as nat));
    let power: Double = mean_power(audio.as_slice());
    if power.above(Double::zero()) {
        let scale: Single = Double::from_bits(ONE_DOUBLE).over(power).sqrt().to_single();
        scale_audio(audio, scale);
    }
}

/// Half, in double precision.
pub const HALF_DOUBLE: u64 = 0x3fe0_0000_0000_0000;

/// The factor that brings interference to its ratio: a unit sine has power
/// 1/2, so half the ratio is wanted in the passband.
pub fn interference_scale(
    passband_noise_to_tone: Single,
    passband_power: Double,
) -> (scale: Single)
    ensures
        scale == if (Double { bits: 0 }).lt_spec(passband_power) {
            (Double { bits: HALF_DOUBLE }).times_spec(
                Double::from_single_spec(passband_noise_to_tone),
            ).over_spec(passband_power).sqrt_spec().to_single_spec()
        } else {
            constants::of(0)
        },
{
    if passband_power.above(Double::zero()) {
        let wanted: Double = Double::from_bits(HALF_DOUBLE).times(
            Double::from_single(passband_noise_to_tone),
        );
        wanted.over(passband_power).sqrt().to_single()
    } else {
        Single::zero()
    }
}

/// The white noise that interference is made of.
pub fn raw_noise(samples: usize, seed: u64) -> (r: Vec<Single>)
    ensures
        r@ == Seq::new(samples as nat, |i: int| noise_spec(i as u64, seed)),
{
    let mut r: Vec<Single> = Vec::new();
    let mut i: usize = 0;
    while i < samples
        invariant
            i <= samples,
            r@ == Seq::new(i as nat, |i: int| noise_spec(i as u64, seed)),
        decreases samples - i,
    {
        r.push(noise_at(i, seed));
        i = i + 1;
        assert(r@ =~= Seq::new(i as nat, |i: int| noise_spec(i as u64, seed)));
    }
    r
}

/// The stereo frames of a signal: tone and interference on the left, pulses
/// and noise on the right.
pub open spec fn mixed_frames(
    tones: Seq<Single>,
    audio: Seq<Single>,
    north: Seq<Single>,
    impairment: SignalImpairment,
) -> Seq<Single> {
    Seq::new(
        2 * north.len(),
        |i: int|
            if i % 2 == 0 {
                tones[i / 2].plus_spec(audio[i / 2])
            } else {
                north[i / 2].plus_spec(north_noise_spec((i / 2) as u64, impairment))
            },
    )
}

/// Put a signal together: interleaved stereo samples, Doppler tone left and
/// north ticks right.
pub fn mix_frames(
    tones: &[Single],
    audio: &[Single],
    north: &[Single],
    impairment: &SignalImpairment,
) -> (samples: Vec<Single>)
    requires
        tones.len() == north.len(),
        audio.len() == north.len(),
    ensures
        samples@ == mixed_frames(tones@, audio@, north@, *impairment),
{
    let mut samples: Vec<Single> = Vec::new();
    let ghost all = mixed_frames(tones@, audio@, north@, *impairment);
    let mut i: usize = 0;
    while i < north.len()
        invariant
            i <= north.len(),
            tones.len() == north.len(),
            audio.len() == north.len(),
            all == mixed_frames(tones@, audio@, north@, *impairment),
            samples@ == all.take(2 * i),
        decreases north.len() - i,
    {
        samples.push(tones[i].plus(audio[i]));
        samples.push(north[i].plus(north_noise(i, impairment)));
        assert((2 * i) / 2 == i && (2 * i + 1) / 2 == i && (2 * i) % 2 == 0 && (2 * i + 1) % 2
            == 1);
        i = i + 1;
        assert(samples@ =~= all.take(2 * i));
    }
    assert(samples@ =~= all);
    samples
}

/// Samples that band power is measured on at a time.
pub const SEGMENT: usize = 16384;

/// How many segments band power is measured on: whole ones, or one of
/// whatever length there is.
pub fn segment_count(len: usize) -> (n: usize)
    ensures
        n == if len < SEGMENT {
            1int
        } else {
            (len / SEGMENT) as int
        },
        n >= 1,
{
    if len < SEGMENT {
        1
    } else {
        len / SEGMENT
    }
}

/// The angles of a window at each of its samples.
pub fn window_angles(n: usize) -> (r: Vec<Single>)
    ensures
        r@ == Seq::new(
            n as nat,
            |i: int|
                constants::of(constants::TWO_PI).times_spec(
                    Single::from_integer_spec(i),
                ).over_spec(Single::from_integer_spec(n as int)),
        ),
{
    let mut r: Vec<Single> = Vec::new();
    let mut i: usize = 0;
    while i < n
        invariant
            i <= n,
            r@ == Seq::new(
                i as nat,
                |i: int|
                    constants::of(constants::TWO_PI).times_spec(
                        Single::from_integer_spec(i),
                    ).over_spec(Single::from_integer_spec(n as int)),
            ),
        decreases n - i,
    {
        r.push(
            Single::from_bits(constants::TWO_PI).times(Single::from_count(i)).over(
                Single::from_count(n),
            ),
        );
        i = i + 1;
    }
    r
}

/// A raised-cosine window, from the cosines of its angles.
pub open spec fn hann_spec(cosines: Seq<Single>) -> Seq<Single> {
    Seq::new(
        cosines.len(),
        |i: int|
            constants::of(north_agc::HALF).minus_spec(
                constants::of(north_agc::HALF).times_spec(cosines[i]),
            ),
    )
}

/// A raised-cosine window, from the cosines of its angles.
pub fn hann(cosines: &[Single]) -> (w: Vec<Single>)
    ensures
        w@ == hann_spec(cosines@),
{
    let half: Single = Single::from_bits(north_agc::HALF);
    let mut w: Vec<Single> = Vec::new();
    let mut i: usize = 0;
    while i < cosines.len()
        invariant
            i <= cosines.len(),
            half == constants::of(north_agc::HALF),
            w@ == hann_spec(cosines@).take(i as int),
        decreases cosines.len() - i,
    {
        w.push(half.minus(half.times(cosines[i])));
        i = i + 1;
        assert(w@ =~= hann_spec(cosines@).take(i as int));
    }
    assert(w@ =~= hann_spec(cosines@));
    w
}

/// A segment with a window on it.
pub open spec fn windowed_spec(segment: Seq<Single>, window: Seq<Single>) -> Seq<Single> {
    Seq::new(segment.len(), |i: int| segment[i].times_spec(window[i]))
}

/// A segment with a window on it.
pub fn windowed(segment: &[Single], window: &[Single]) -> (w: Vec<Single>)
    requires
        segment.len() == window.len(),
    ensures
        w@ == windowed_spec(segment@, window@),
{
    let mut w: Vec<Single> = Vec::new();
    let mut i: usize = 0;
    while i < segment.len()
        invariant
            i <= segment.len(),
            segment.len() == window.len(),
            w@ == windowed_spec(segment@, window@).take(i as int),
        decreases segment.len() - i,
    {
        w.push(segment[i].times(window[i]));
        i = i + 1;
        assert(w@ =~= windowed_spec(segment@, window@).take(i as int));
    }
    assert(w@ =~= windowed_spec(segment@, window@));
    w
}

/// How far a number lies below a limit.
pub open spec fn below(x: Single, limit: Single) -> nat {
    if x.lt_spec(limit) {
        (limit.rank() - x.rank()) as nat
    } else {
        0
    }
}

/// Numbers a step apart, from a first one up to a limit, as long as the steps
/// advance.
pub open spec fn ladder(first: Single, step: Single, limit: Single) -> Seq<Single>
    decreases below(first, limit),
{
    if !first.lt_spec(limit) {
        Seq::empty()
    } else {
        let next = first.plus_spec(step);
        if first.lt_spec(next) {
            seq![first] + ladder(next, step, limit)
        } else {
            seq![first]
        }
    }
}

/// The frequencies that a band's power is measured at: the multiples of the
/// resolution that lie in it.
pub open spec fn band_bins_spec(n: nat, sample_rate: Single, low: Single, high: Single) -> Seq<
    Single,
> {
    let resolution = sample_rate.over_spec(Single::from_integer_spec(n as int));
    ladder(low.over_spec(resolution).ceil_spec().times_spec(resolution), resolution, high)
}

/// The frequencies that a band's power is measured at.
pub fn band_bins(n: usize, sample_rate: Single, low: Single, high: Single) -> (bins: Vec<Single>)
    ensures
        bins@ == band_bins_spec(n as nat, sample_rate, low, high),
{
    let resolution: Single = sample_rate.over(Single::from_count(n));
    let first: Single = low.over(resolution).ceil().times(resolution);
    let mut bins: Vec<Single> = Vec::new();
    let mut hz: Single = first;
    let mut going: bool = true;
    let ghost whole = ladder(first, resolution, high);
    assert(bins@ + whole =~= whole);
    while going && hz.less_than(high)
        invariant
            going ==> bins@ + ladder(hz, resolution, high) == whole,
            !going ==> bins@ == whole,
        decreases
            if going {
                1int
            } else {
                0int
            },
            below(hz, high),
    {
        let ghost before = bins@;
        let ghost rest = ladder(hz, resolution, high);
        let next: Single = hz.plus(resolution);
        bins.push(hz);
        if hz.less_than(next) {
            assert(bins@ + ladder(next, resolution, high) =~= before + rest);
            hz = next;
        } else {
            assert(bins@ =~= before + rest);
            going = false;
        }
    }
    assert(bins@ =~= whole);
    bins
}

/// The phase of a frequency at a sample.
pub fn bin_angle(hz: Single, sample_rate: Single, index: usize) -> (a: Single)
    ensures
        a == constants::of(constants::TWO_PI).times_spec(hz).over_spec(sample_rate).times_spec(
            Single::from_integer_spec(index as int),
        ),
{
    Single::from_bits(constants::TWO_PI).times(hz).over(sample_rate).times(
        Single::from_count(index),
    )
}

/// The first `k` samples against a wave.
pub open spec fn correlated(samples: Seq<Single>, wave: Seq<Single>, k: int) -> Double
    decreases k,
{
    if k <= 0 {
        Double { bits: 0 }
    } else {
        correlated(samples, wave, k - 1).plus_spec(
            Double::from_single_spec(samples[k - 1].times_spec(wave[k - 1])),
        )
    }
}

/// Two, in double precision.
pub const TWO_DOUBLE: u64 = 0x4000_0000_0000_0000;

pub open spec fn bin_power_spec(
    samples: Seq<Single>,
    cosines: Seq<Single>,
    sines: Seq<Single>,
) -> Double {
    let n = Double::from_count_spec(samples.len());
    let re = correlated(samples, cosines, samples.len() as int).over_spec(n);
    let im = correlated(samples, sines, samples.len() as int).over_spec(n);
    (Double { bits: TWO_DOUBLE }).times_spec(re.times_spec(re).plus_spec(im.times_spec(im)))
}

/// The power of samples at one frequency, from the cosines and sines of its
/// phase at each of them.
pub fn bin_power(samples: &[Single], cosines: &[Single], sines: &[Single]) -> (p: Double)
    requires
        samples.len() == cosines.len(),
        samples.len() == sines.len(),
    ensures
        p == bin_power_spec(samples@, cosines@, sines@),
{
    let mut re: Double = Double::zero();
    let mut im: Double = Double::zero();
    let mut i: usize = 0;
    while i < samples.len()
        invariant
            i <= samples.len(),
            samples.len() == cosines.len(),
            samples.len() == sines.len(),
            re == correlated(samples@, cosines@, i as int),
            im == correlated(samples@, sines@, i as int),
        decreases samples.len() - i,
    {
        re = re.plus(Double::from_single(samples[i].times(cosines[i])));
        im = im.plus(Double::from_single(samples[i].times(sines[i])));
        i = i + 1;
    }
    let n: Double = Double::from_count(samples.len());
    let re: Double = re.over(n);
    let im: Double = im.over(n);
    Double::from_bits(TWO_DOUBLE).times(re.times(re).plus(im.times(im)))
}

/// The sum of powers, from zero up.
pub open spec fn total_of(powers: Seq<Double>, k: int) -> Double
    decreases k,
{
    if k <= 0 {
        Double { bits: 0 }
    } else {
        total_of(powers, k - 1).plus_spec(powers[k - 1])
    }
}

/// The sum of powers.
pub fn total(powers: &[Double]) -> (t: Double)
    ensures
        t == total_of(powers@, powers@.len() as int),
{
    let mut t: Double = Double::zero();
    let mut i: usize = 0;
    while i < powers.len()
        invariant
            i <= powers.len(),
            t == total_of(powers@, i as int),
        decreases powers.len() - i,
    {
        t = t.plus(powers[i]);
        i = i + 1;
    }
    t
}

/// The power of a segment in a band: that of its bins, without the gain of the
/// window. A segment without samples has none.
pub fn segment_power(bins: &[Double], window: &[Single]) -> (p: Double)
    ensures
        p == if window@.len() == 0 {
            (Double { bits: 0 })
        } else {
            total_of(bins@, bins@.len() as int).over_spec(power_spec(window@))
        },
{
    if window.len() == 0 {
        return Double::zero();
    }
    total(bins).over(mean_power(window))
}

/// The mean power of segments.
pub fn in_band_power(segments: &[Double]) -> (p: Double)
    requires
        segments.len() >= 1,
    ensures
        p == if segments@.len() == 1 {
            segments@[0]
        } else {
            total_of(segments@, segments@.len() as int).over_spec(
                Double::from_count_spec(segments@.len()),
            )
        },
{
    if segments.len() == 1 {
        return segments[0];
    }
    total(segments).over(Double::from_count(segments.len()))
}

/// The phase of a tone at a sample.
pub fn tone_phase(
    index: usize,
    sample_rate: Single,
    rotation_hz: Single,
    bearing_degrees: Single,
) -> (p: Single)
    ensures
        p == constants::of(constants::TWO_PI).times_spec(rotation_hz).times_spec(
            Single::from_integer_spec(index as int).over_spec(sample_rate),
        ).minus_spec(stats::radians_of(bearing_degrees)),
{
    let t: Single = Single::from_count(index).over(sample_rate);
    Single::from_bits(constants::TWO_PI).times(rotation_hz).times(t).minus(
        stats::to_radians(bearing_degrees),
    )
}

} // verus!
