//! Playback of a recording.
use crate::constants;
use crate::display::history::BearingData;
use crate::double::Double;
use crate::rdf::bearing::BearingMeasurement;
use crate::signal_processing::math;
use crate::single;
use crate::single::Single;
use vstd::prelude::*;

verus! {

/// Speeds there are; the last one has no limit.
pub const SPEED_STEPS: usize = 6;

/// The step of normal speed.
pub const NORMAL_STEP: usize = 2;

/// How near a speed has to come to that of a step (0.001).
pub const SPEED_TOLERANCE: u32 = 0x3a83_126f;

/// The speed of a step; zero has no limit.
pub open spec fn speed_spec(step: int) -> Single {
    if step == 0 {
        constants::of(0x3e80_0000)
    } else if step == 1 {
        constants::of(0x3f00_0000)
    } else if step == 2 {
        constants::of(single::ONE_BITS)
    } else if step == 3 {
        constants::of(0x4000_0000)
    } else if step == 4 {
        constants::of(0x4080_0000)
    } else {
        constants::of(0)
    }
}

/// The speed of a step.
pub fn speed(step: usize) -> (s: Single)
    ensures
        s == speed_spec(step as int),
{
    if step == 0 {
        Single::from_bits(0x3e80_0000)
    } else if step == 1 {
        Single::from_bits(0x3f00_0000)
    } else if step == 2 {
        Single::one()
    } else if step == 3 {
        Single::from_bits(0x4000_0000)
    } else if step == 4 {
        Single::from_bits(0x4080_0000)
    } else {
        Single::zero()
    }
}

/// How the speed of a step is called.
pub fn speed_name(step: usize) -> (s: &'static str)
    ensures
        s@ == if step == 0 {
            "0.25x"@
        } else if step == 1 {
            "0.5x"@
        } else if step == 2 {
            "1x"@
        } else if step == 3 {
            "2x"@
        } else if step == 4 {
            "4x"@
        } else {
            "Max"@
        },
{
    if step == 0 {
        "0.25x"
    } else if step == 1 {
        "0.5x"
    } else if step == 2 {
        "1x"
    } else if step == 3 {
        "2x"
    } else if step == 4 {
        "4x"
    } else {
        "Max"
    }
}

/// Whether a speed is that of a step.
pub open spec fn at_step(speed: Single, step: int) -> bool {
    speed_spec(step).minus_spec(speed).abs_spec().lt_spec(constants::of(SPEED_TOLERANCE))
}

/// Whether a speed is that of a step.
pub fn is_step(current: Single, step: usize) -> (b: bool)
    ensures
        b == at_step(current, step as int),
{
    speed(step).minus(current).abs().less_than(Single::from_bits(SPEED_TOLERANCE))
}

/// Whether a step is that of a speed: the first one that is near enough, or
/// that of normal speed.
pub open spec fn is_step_of(current: Single, step: int) -> bool {
    ||| {
        &&& 0 <= step < SPEED_STEPS
        &&& at_step(current, step)
        &&& forall|k: int| 0 <= k < step ==> !#[trigger] at_step(current, k)
    }
    ||| {
        &&& step == NORMAL_STEP
        &&& forall|k: int| 0 <= k < SPEED_STEPS ==> !#[trigger] at_step(current, k)
    }
}

/// The step of a speed.
pub fn step_of(current: Single) -> (step: usize)
    ensures
        is_step_of(current, step as int),
        step < SPEED_STEPS,
{
    let mut step: usize = 0;
    while step < SPEED_STEPS
        invariant
            step <= SPEED_STEPS,
            forall|k: int| 0 <= k < step ==> !#[trigger] at_step(current, k),
        decreases SPEED_STEPS - step,
    {
        if is_step(current, step) {
            return step;
        }
        step = step + 1;
    }
    NORMAL_STEP
}

/// The next speed up.
pub fn faster(current: Single) -> (s: Single)
    ensures
        exists|step: int| #[trigger]
            is_step_of(current, step) && s == speed_spec(
                if step + 1 < SPEED_STEPS {
                    step + 1
                } else {
                    SPEED_STEPS - 1
                },
            ),
{
    let step: usize = step_of(current);
    assert(is_step_of(current, step as int));
    if step + 1 < SPEED_STEPS {
        speed(step + 1)
    } else {
        speed(SPEED_STEPS - 1)
    }
}

/// The next speed down.
pub fn slower(current: Single) -> (s: Single)
    ensures
        exists|step: int| #[trigger]
            is_step_of(current, step) && s == speed_spec(
                if step > 0 {
                    step - 1
                } else {
                    0
                },
            ),
{
    let step: usize = step_of(current);
    assert(is_step_of(current, step as int));
    if step > 0 {
        speed(step - 1)
    } else {
        speed(0)
    }
}

/// A speed has one step only.
pub proof fn step_is_unique(current: Single, a: int, b: int)
    requires
        is_step_of(current, a),
        is_step_of(current, b),
    ensures
        a == b,
{
    if a < b {
        assert(0 <= a < SPEED_STEPS ==> (at_step(current, a) || !at_step(current, a)));
    }
    if b < a {
        assert(0 <= b < SPEED_STEPS ==> (at_step(current, b) || !at_step(current, b)));
    }
}

/// How playback starts: a recording waits, at normal speed; live input runs,
/// without a limit.
pub fn at_start(is_file_input: bool) -> (r: (Single, bool))
    ensures
        r.0 == constants::of(
            if is_file_input {
                single::ONE_BITS
            } else {
                0
            },
        ),
        r.1 == !is_file_input,
{
    (
        if is_file_input {
            Single::one()
        } else {
            Single::zero()
        },
        !is_file_input,
    )
}

/// What pressing play does.
#[derive(Debug, Clone, Copy, PartialEq, Eq, Structural)]
pub struct Toggle {
    /// Processing starts over
    pub restart: bool,
    /// Playback runs afterwards
    pub playing: bool,
}

/// What pressing play does: it pauses, or it goes on, from the start where
/// processing has ended.
pub fn toggle(playing: bool, stopped: bool) -> (t: Toggle)
    ensures
        t.restart == (!playing && stopped),
        t.playing == !playing,
{
    Toggle { restart: !playing && stopped, playing: !playing }
}

/// The pace of playback: the time by which what was played is due.
#[derive(Debug, Clone, Copy, PartialEq, Eq)]
pub struct Pacing {
    pub expected_time: Double,
}

impl Pacing {
    /// Nothing played yet.
    pub fn new() -> (p: Pacing)
        ensures
            p.expected_time == (Double { bits: 0 }),
    {
        Pacing { expected_time: Double::zero() }
    }

    /// When the next chunk is due.
    pub open spec fn due_spec(self, speed: Single, frames: nat, sample_rate: u32) -> Double {
        self.expected_time.plus_spec(
            Double::from_count_spec(frames).over_spec(
                Double::from_count_spec(sample_rate as nat),
            ).over_spec(Double::from_single_spec(speed)),
        )
    }

    /// Account for a chunk that was played. What comes back is how long to
    /// wait, where playback is ahead; without a speed it never waits.
    pub fn played(
        &mut self,
        speed: Single,
        frames: usize,
        sample_rate: u32,
        elapsed: Double,
    ) -> (wait: Option<Double>)
        ensures
            ({
                let due = old(self).due_spec(speed, frames as nat, sample_rate);
                if constants::of(0).lt_spec(speed) {
                    &&& final(self).expected_time == due
                    &&& wait == if elapsed.lt_spec(due) {
                        Some(due.minus_spec(elapsed))
                    } else {
                        None
                    }
                } else {
                    *final(self) == *old(self) && wait is None
                }
            }),
    {
        if !speed.above(Single::zero()) {
            return None;
        }
        let duration: Double = Double::from_count(frames).over(
            Double::from_count(sample_rate as usize),
        ).over(Double::from_single(speed));
        self.expected_time = self.expected_time.plus(duration);
        if self.expected_time.above(elapsed) {
            Some(self.expected_time.minus(elapsed))
        } else {
            None
        }
    }
}

/// The time of a sample in seconds.
pub fn time_of(offset: Double, samples: usize, sample_rate: u32) -> (t: Double)
    ensures
        t == offset.plus_spec(
            Double::from_count_spec(samples as nat).over_spec(
                Double::from_count_spec(sample_rate as nat),
            ),
        ),
{
    offset.plus(
        Double::from_count(samples).over(Double::from_count(sample_rate as usize)),
    )
}

/// A bearing turned by an offset.
pub open spec fn turned(bearing: Single, offset: Single) -> Single {
    math::turn_spec(bearing.plus_spec(offset))
}

/// A bearing as it is shown: turned by the offset of north.
pub fn shown(b: &BearingMeasurement, offset: Single) -> (d: BearingData)
    ensures
        d == (BearingData {
            bearing: turned(b.bearing_degrees, offset),
            raw: turned(b.raw_bearing, offset),
            confidence: b.confidence,
            snr_db: b.metrics.snr_db,
            coherence: b.metrics.resultant_length,
            signal_strength: b.metrics.signal_strength,
        }),
{
    BearingData {
        bearing: math::one_turn(b.bearing_degrees.plus(offset)),
        raw: math::one_turn(b.raw_bearing.plus(offset)),
        confidence: b.confidence,
        snr_db: b.metrics.snr_db,
        coherence: b.metrics.resultant_length,
        signal_strength: b.metrics.signal_strength,
    }
}

} // verus!
