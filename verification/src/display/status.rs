//! Figures and levels of the status bar.
use crate::constants;
use crate::double::Double;
use crate::single::Single;
use crate::text;
use vstd::prelude::*;

verus! {

/// How good a reading is.
#[derive(Debug, Clone, Copy, PartialEq, Eq, Structural)]
pub enum Level {
    Good,
    Fair,
    Poor,
}

/// What a reading has to exceed to be good, and to be fair.
#[derive(Debug, Clone, Copy, PartialEq, Eq, Structural)]
pub enum Scale {
    /// Confidence, coherence and strength: 0.7 and 0.4
    Quality,
    /// Lock of the tracker: 0.8 and 0.5
    Lock,
    /// Signal-to-noise ratio in dB: 15 and 5
    Snr,
}

impl Scale {
    pub open spec fn limits(self) -> (Single, Single) {
        match self {
            Scale::Quality => (constants::of(0x3f33_3333), constants::of(0x3ecc_cccd)),
            Scale::Lock => (constants::of(0x3f4c_cccd), constants::of(0x3f00_0000)),
            Scale::Snr => (constants::of(0x4170_0000), constants::of(0x40a0_0000)),
        }
    }

    pub open spec fn level_spec(self, value: Single) -> Level {
        if self.limits().0.lt_spec(value) {
            Level::Good
        } else if self.limits().1.lt_spec(value) {
            Level::Fair
        } else {
            Level::Poor
        }
    }

    /// How good a reading is.
    pub fn level(self, value: Single) -> (l: Level)
        ensures
            l == self.level_spec(value),
    {
        let (good, fair) = match self {
            Scale::Quality => (Single::from_bits(0x3f33_3333), Single::from_bits(0x3ecc_cccd)),
            Scale::Lock => (Single::from_bits(0x3f4c_cccd), Single::from_bits(0x3f00_0000)),
            Scale::Snr => (Single::from_bits(0x4170_0000), Single::from_bits(0x40a0_0000)),
        };
        if value.above(good) {
            Level::Good
        } else if value.above(fair) {
            Level::Fair
        } else {
            Level::Poor
        }
    }
}

/// A higher reading is never worse.
pub proof fn levels_rise(scale: Scale, low: Single, high: Single)
    requires
        low.le_spec(high),
    ensures
        scale.level_spec(low) == Level::Good ==> scale.level_spec(high) == Level::Good,
        scale.level_spec(high) == Level::Poor ==> scale.level_spec(low) == Level::Poor,
{
}

/// The colour of a level: red, green and blue.
pub fn level_color(level: Level) -> (c: (u8, u8, u8))
    ensures
        c == match level {
            Level::Good => (100u8, 255u8, 100u8),
            Level::Fair => (255u8, 255u8, 0u8),
            Level::Poor => (255u8, 100u8, 100u8),
        },
{
    match level {
        Level::Good => (100, 255, 100),
        Level::Fair => (255, 255, 0),
        Level::Poor => (255, 100, 100),
    }
}

/// A figure with decimals and a unit, or dashes where there is none.
pub open spec fn figure_spec(x: Option<Single>, places: nat, unit: Seq<char>) -> Seq<char> {
    match x {
        Some(v) => text::fixed_text(v, places) + unit,
        None => "---"@,
    }
}

/// A figure with decimals and a unit, or dashes where there is none.
pub fn figure(x: Option<Single>, places: u32, unit: &str) -> (s: String)
    requires
        places <= 9,
    ensures
        s@ == figure_spec(x, places as nat, unit@),
{
    match x {
        Some(v) => {
            let mut s: String = text::owned("");
            text::push_fixed(&mut s, v, places);
            s.append(unit);
            proof {
                reveal_strlit("");
            }
            assert(s@ =~= figure_spec(x, places as nat, unit@));
            s
        },
        None => text::owned("---"),
    }
}

/// The signal-to-noise ratio, lined up.
pub fn snr_figure(snr: Option<Single>) -> (s: String)
    ensures
        s@ == match snr {
            Some(v) => text::padded(text::fixed_text(v, 1), 6) + " dB"@,
            None => "  ---.- dB"@,
        },
{
    match snr {
        Some(v) => {
            let mut s: String = text::owned("");
            text::push_padded(&mut s, v, 1, 6);
            s.append(" dB");
            proof {
                reveal_strlit("");
            }
            assert(s@ =~= text::padded(text::fixed_text(v, 1), 6) + " dB"@);
            s
        },
        None => text::owned("  ---.- dB"),
    }
}

/// Seconds in a minute.
pub const MINUTE: u64 = 0x404e_0000_0000_0000;

/// A time as whole minutes and the seconds left.
pub fn clock(total_secs: Double) -> (c: (usize, Double))
    ensures
        c.0 == total_secs.over_spec(Double { bits: MINUTE }).to_count_spec(),
        c.1 == total_secs.rem_spec(Double { bits: MINUTE }),
{
    let minute: Double = Double::from_bits(MINUTE);
    (total_secs.over(minute).to_count(), total_secs.rem(minute))
}

} // verus!
