//! Automatic gain control.
use crate::config::AgcConfig;
use crate::constants;
use crate::single;
use crate::single::Single;
use vstd::prelude::*;

verus! {

/// Milliseconds per second.
pub const THOUSAND: u32 = 0x447a_0000;

/// Automatic Gain Control (AGC)
///
/// Dynamically adjusts signal amplitude to maintain a target RMS level,
/// compensating for variations in input signal strength. Essential for
/// consistent bearing calculations across varying signal conditions.
///
/// Uses separate time constants for smooth gain adjustment:
/// - Attack: how quickly gain decreases for strong signals
/// - Release: how quickly gain recovers for weak signals
///
/// Gain is clamped to configured min/max bounds to prevent extreme
/// amplification or attenuation.
pub struct AutomaticGainControl {
    target_rms: Single,
    attack_coeff: Single,
    release_coeff: Single,
    current_gain: Single,
    min_gain: Single,
    max_gain: Single,
    rms_accumulator: Single,
    sample_count: usize,
    window_size: usize,
}

/// What an AGC holds.
pub ghost struct AgcState {
    pub target_rms: Single,
    pub attack: Single,
    pub release: Single,
    pub gain: Single,
    pub min_gain: Single,
    pub max_gain: Single,
    pub energy: Single,
    pub count: nat,
    pub window: nat,
}

impl AgcState {
    /// The energy in the measurement window with one more sample.
    pub open spec fn energy_with(self, sample: Single) -> Single {
        self.energy.plus_spec(sample.times_spec(sample))
    }

    /// Whether the sample completes the measurement window.
    pub open spec fn completes(self) -> bool {
        self.count + 1 >= self.window
    }

    /// The level measured over a complete window.
    pub open spec fn rms_with(self, sample: Single) -> Single {
        self.energy_with(sample).over_spec(
            Single::from_integer_spec(self.window as int),
        ).sqrt_spec()
    }

    /// The gain once the level is known: moved towards the wanted gain, by
    /// the attack constant when that is smaller and by the release constant
    /// when it is not. A silent window leaves the gain alone.
    pub open spec fn adjusted(self, rms: Single) -> Single {
        if constants::of(constants::MIN_RMS_THRESHOLD).lt_spec(rms) {
            let desired = self.target_rms.over_spec(rms);
            let coeff = if desired.lt_spec(self.gain) {
                self.attack
            } else {
                self.release
            };
            coeff.times_spec(self.gain).plus_spec(
                constants::of(single::ONE_BITS).minus_spec(coeff).times_spec(desired),
            ).clamp_spec(self.min_gain, self.max_gain)
        } else {
            self.gain
        }
    }

    pub open spec fn step(self, sample: Single) -> AgcState {
        if self.completes() {
            AgcState {
                gain: self.adjusted(self.rms_with(sample)),
                energy: constants::of(0),
                count: 0,
                ..self
            }
        } else {
            AgcState { energy: self.energy_with(sample), count: self.count + 1, ..self }
        }
    }

    /// The state after the first `k` samples of a buffer.
    pub open spec fn after(self, buffer: Seq<Single>, k: int) -> AgcState
        decreases k,
    {
        if k <= 0 {
            self
        } else {
            self.after(buffer, k - 1).step(buffer[k - 1])
        }
    }

    /// How a stream is cut into buffers makes no difference to the state.
    pub proof fn cuts_do_not_show(self, first: Seq<Single>, second: Seq<Single>, k: int)
        requires
            0 <= k <= first.len() + second.len(),
        ensures
            k <= first.len() ==> self.after(first + second, k) == self.after(first, k),
            k >= first.len() ==> self.after(first + second, k) == self.after(
                first,
                first.len() as int,
            ).after(second, k - first.len()),
        decreases k,
    {
        if k > 0 {
            self.cuts_do_not_show(first, second, k - 1);
        }
    }

    /// The gain stays within its bounds.
    pub open spec fn bounded(self) -> bool {
        self.min_gain.le_spec(self.gain) && self.gain.le_spec(self.max_gain)
    }

    /// A window that ends with a number for a gain leaves a gain within the
    /// bounds; one that does not end leaves the gain as it was.
    pub proof fn gain_stays_bounded(self, sample: Single)
        requires
            self.bounded(),
        ensures
            self.step(sample).bounded() || self.step(sample).gain.nan(),
    {
    }
}

impl View for AutomaticGainControl {
    type V = AgcState;

    closed spec fn view(&self) -> AgcState {
        AgcState {
            target_rms: self.target_rms,
            attack: self.attack_coeff,
            release: self.release_coeff,
            gain: self.current_gain,
            min_gain: self.min_gain,
            max_gain: self.max_gain,
            energy: self.rms_accumulator,
            count: self.sample_count as nat,
            window: self.window_size as nat,
        }
    }
}

/// The exponent of a smoothing coefficient.
pub open spec fn exponent_spec(time_constant_ms: Single, window_ms: Single) -> Single {
    window_ms.neg_spec().over_spec(time_constant_ms)
}

impl AutomaticGainControl {
    /// The count never runs past the window.
    pub closed spec fn wf(&self) -> bool {
        self.sample_count == 0 || self.sample_count < self.window_size
    }

    /// The measurement window in samples.
    pub open spec fn window_samples(config: AgcConfig, sample_rate: Single) -> nat {
        sample_rate.times_spec(config.measurement_window_ms).over_spec(
            constants::of(THOUSAND),
        ).to_count_spec()
    }

    /// The exponent of a smoothing coefficient: a coefficient is the
    /// exponential of this.
    pub fn time_constant_exponent(time_constant_ms: Single, window_ms: Single) -> (x: Single)
        ensures
            x == exponent_spec(time_constant_ms, window_ms),
    {
        window_ms.negated().over(time_constant_ms)
    }

    /// Create a new AGC processor
    ///
    /// # Arguments
    /// * `config` - AGC configuration parameters
    /// * `sample_rate` - Audio sample rate in Hz
    /// * `attack_coeff`, `release_coeff` - the exponentials of
    ///   `time_constant_exponent` for the attack and the release time
    pub fn new(
        config: &AgcConfig,
        sample_rate: Single,
        attack_coeff: Single,
        release_coeff: Single,
    ) -> (a: AutomaticGainControl)
        ensures
            a.wf(),
            a@ == (AgcState {
                target_rms: config.target_rms,
                attack: attack_coeff,
                release: release_coeff,
                gain: constants::of(single::ONE_BITS),
                min_gain: config.min_gain,
                max_gain: config.max_gain,
                energy: constants::of(0),
                count: 0,
                window: Self::window_samples(*config, sample_rate),
            }),
    {
        let window_size: usize = sample_rate.times(config.measurement_window_ms).over(
            Single::from_bits(THOUSAND),
        ).to_count();
        AutomaticGainControl {
            target_rms: config.target_rms,
            attack_coeff,
            release_coeff,
            current_gain: Single::one(),
            min_gain: config.min_gain,
            max_gain: config.max_gain,
            rms_accumulator: Single::zero(),
            sample_count: 0,
            window_size,
        }
    }

    /// Process a single audio sample through the AGC
    ///
    /// Accumulates RMS measurements over a window and adjusts gain as needed.
    pub fn process(&mut self, sample: Single) -> (output: Single)
        requires
            old(self).wf(),
        ensures
            final(self).wf(),
            final(self)@ == old(self)@.step(sample),
            output == sample.times_spec(final(self)@.gain),
    {
        self.rms_accumulator = self.rms_accumulator.plus(sample.times(sample));
        let complete: bool = self.window_size == 0 || self.sample_count >= self.window_size - 1;
        if complete {
            let rms: Single = self.rms_accumulator.over(
                Single::from_count(self.window_size),
            ).sqrt();
            self.rms_accumulator = Single::zero();
            self.sample_count = 0;

            if rms.above(Single::from_bits(constants::MIN_RMS_THRESHOLD)) {
                let desired_gain: Single = self.target_rms.over(rms);
                let coeff: Single = if desired_gain.less_than(self.current_gain) {
                    self.attack_coeff
                } else {
                    self.release_coeff
                };
                self.current_gain = coeff.times(self.current_gain).plus(
                    Single::one().minus(coeff).times(desired_gain),
                ).clamp(self.min_gain, self.max_gain);
            }
        } else {
            self.sample_count = self.sample_count + 1;
        }
        sample.times(self.current_gain)
    }

    /// Process an entire buffer of audio samples in-place
    ///
    /// Applies AGC to each sample in the buffer, replacing the original
    /// values with gain-adjusted output.
    pub fn process_buffer(&mut self, buffer: &mut Vec<Single>)
        requires
            old(self).wf(),
        ensures
            final(self).wf(),
            final(self)@ == old(self)@.after(old(buffer)@, old(buffer)@.len() as int),
            final(buffer)@ == Seq::new(
                old(buffer)@.len(),
                |i: int|
                    old(buffer)@[i].times_spec(old(self)@.after(old(buffer)@, i + 1).gain),
            ),
    {
        let n: usize = buffer.len();
        let ghost input = buffer@;
        let ghost start = self@;
        let mut i: usize = 0;
        while i < n
            invariant
                i <= n,
                n == buffer.len(),
                n == input.len(),
                self.wf(),
                self@ == start.after(input, i as int),
                forall|k: int|
                    0 <= k < i ==> #[trigger] buffer@[k] == input[k].times_spec(
                        start.after(input, k + 1).gain,
                    ),
                forall|k: int| i <= k < n ==> #[trigger] buffer@[k] == input[k],
            decreases n - i,
        {
            let adjusted: Single = self.process(buffer[i]);
            buffer.set(i, adjusted);
            i = i + 1;
        }
        assert(buffer@ =~= Seq::new(
            input.len(),
            |i: int| input[i].times_spec(start.after(input, i + 1).gain),
        ));
    }

    /// Get the current gain factor
    ///
    /// Returns the current gain multiplier (clamped to configured min/max range).
    pub fn current_gain(&self) -> (gain: Single)
        ensures
            gain == self@.gain,
    {
        self.current_gain
    }
}

} // verus!
