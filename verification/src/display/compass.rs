//! The compass: where its marks, its trail and its needle go.
//!
//! Sines, cosines and exponentials are taken outside.
use crate::constants;
use crate::display::history::TrailEntry;
use crate::display::state::Latest;
use crate::double::Double;
use crate::single::Single;
use crate::stats;
use crate::text;
use crate::tools::analyze;
use crate::tools::generate;
use vstd::prelude::*;

verus! {

/// The colour of the trail and of the needle.
pub const PHOSPHOR: (u8, u8, u8) = (30, 255, 60);

/// Degrees between marks.
pub const MARK_STEP: usize = 10;

/// Marks around the compass.
pub const MARKS: usize = 36;

/// Degrees between labels.
pub const LABEL_STEP: usize = 30;

/// Space around the rim (15).
pub const RIM_MARGIN: u32 = 0x4170_0000;

/// Distance of labels from the rim (10).
pub const LABEL_DISTANCE: u32 = 0x4120_0000;

/// Confidence that a bearing needs to leave a trail (0.5).
pub const TRAIL_CONFIDENCE: u32 = 0x3f00_0000;

/// Time constant of the trail: 0.15 and 0.3 per confidence.
pub const TRAIL_TAU_BASE: u32 = 0x3e19_999a;

pub const TRAIL_TAU_SCALE: u32 = 0x3e99_999a;

/// Brightness below which the trail is not drawn (0.02).
pub const TRAIL_CUTOFF: u32 = 0x3ca3_d70a;

/// One.
pub const ONE: u32 = 0x3f80_0000;

/// The glow of a dot: its size (1.5) and its opacity (0.25).
pub const GLOW_SIZE: u32 = 0x3fc0_0000;

pub const GLOW_ALPHA: u32 = 0x3e80_0000;

/// The largest value of a colour (255).
pub const FULL_COLOR: u32 = 0x437f_0000;

/// The length of the needle: 0.35 and 0.55 per strength.
pub const NEEDLE_LENGTH_BASE: u32 = 0x3eb3_3333;

pub const NEEDLE_LENGTH_SCALE: u32 = 0x3f0c_cccd;

/// The brightness of the needle: 0.2 and 0.8 per confidence.
pub const NEEDLE_BRIGHTNESS_BASE: u32 = 0x3e4c_cccd;

pub const NEEDLE_BRIGHTNESS_SCALE: u32 = 0x3f4c_cccd;

/// The width of the needle: 1 and 2.5 per coherence.
pub const NEEDLE_WIDTH_SCALE: u32 = 0x4020_0000;

/// The tip of the needle: 2 and 3 per coherence.
pub const NEEDLE_TIP_BASE: u32 = 0x4000_0000;

pub const NEEDLE_TIP_SCALE: u32 = 0x4040_0000;

/// The size of the marker at the rim (6), and half of one (0.5).
pub const MARKER_SIZE: u32 = 0x40c0_0000;

pub const HALF: u32 = 0x3f00_0000;

/// A place on the screen.
#[derive(Debug, Clone, Copy, PartialEq, Eq)]
pub struct Place {
    pub x: Single,
    pub y: Single,
}

/// The radius of a compass in an area.
pub open spec fn radius_spec(width: Single, height: Single) -> Single {
    width.min_spec(height).over_spec(constants::of(0x4000_0000)).minus_spec(
        constants::of(RIM_MARGIN),
    )
}

/// The radius of a compass in an area.
pub fn radius(width: Single, height: Single) -> (r: Single)
    ensures
        r == radius_spec(width, height),
{
    width.min(height).over(Single::from_bits(0x4000_0000)).minus(Single::from_bits(RIM_MARGIN))
}

/// The place at a distance from the centre, in the direction of an angle that
/// runs clockwise from the top.
pub open spec fn polar_spec(center: Place, sin: Single, cos: Single, distance: Single) -> Place {
    Place {
        x: center.x.plus_spec(sin.times_spec(distance)),
        y: center.y.plus_spec(cos.neg_spec().times_spec(distance)),
    }
}

/// The place at a distance from the centre.
pub fn polar(center: Place, sin: Single, cos: Single, distance: Single) -> (p: Place)
    ensures
        p == polar_spec(center, sin, cos, distance),
{
    Place {
        x: center.x.plus(sin.times(distance)),
        y: center.y.plus(cos.negated().times(distance)),
    }
}

/// A mark: its direction, where it starts as a part of the radius, and its
/// width.
#[derive(Debug, Clone, Copy, PartialEq, Eq)]
pub struct Mark {
    pub degrees: usize,
    pub inner: Single,
    pub width: Single,
}

/// The mark at a direction: the cardinal ones are longest, those with a label
/// come next.
pub open spec fn mark_spec(degrees: nat) -> Mark {
    let (inner, width) = if degrees % 90 == 0 {
        (0x3f51_eb85u32, 0x4020_0000u32)
    } else if degrees % 30 == 0 {
        (0x3f5e_b852u32, 0x3fc0_0000u32)
    } else {
        (0x3f6b_851fu32, 0x3f33_3333u32)
    };
    Mark { degrees: degrees as usize, inner: constants::of(inner), width: constants::of(width) }
}

/// The marks around the compass.
pub fn marks() -> (r: Vec<Mark>)
    ensures
        r@ == Seq::new(MARKS as nat, |i: int| mark_spec((i * MARK_STEP) as nat)),
{
    let mut r: Vec<Mark> = Vec::new();
    let mut i: usize = 0;
    while i < MARKS
        invariant
            i <= MARKS,
            r@ == Seq::new(i as nat, |i: int| mark_spec((i * MARK_STEP) as nat)),
        decreases MARKS - i,
    {
        let degrees: usize = i * MARK_STEP;
        let (inner, width): (u32, u32) = if degrees % 90 == 0 {
            (0x3f51_eb85, 0x4020_0000)
        } else if degrees % 30 == 0 {
            (0x3f5e_b852, 0x3fc0_0000)
        } else {
            (0x3f6b_851f, 0x3f33_3333)
        };
        r.push(
            Mark { degrees, inner: Single::from_bits(inner), width: Single::from_bits(width) },
        );
        i = i + 1;
        assert(r@ =~= Seq::new(i as nat, |i: int| mark_spec((i * MARK_STEP) as nat)));
    }
    r
}

/// The ends of a mark: on the rim, and inside it.
pub fn mark_ends(center: Place, sin: Single, cos: Single, radius: Single, inner: Single) -> (e: (
    Place,
    Place,
))
    ensures
        e.0 == (Place {
            x: center.x.plus_spec(sin.times_spec(radius).times_spec(inner)),
            y: center.y.plus_spec(cos.neg_spec().times_spec(radius).times_spec(inner)),
        }),
        e.1 == polar_spec(center, sin, cos, radius),
{
    (
        Place {
            x: center.x.plus(sin.times(radius).times(inner)),
            y: center.y.plus(cos.negated().times(radius).times(inner)),
        },
        polar(center, sin, cos, radius),
    )
}

/// The label at a direction.
pub fn label(degrees: usize) -> (s: String)
    requires
        degrees < 1000,
    ensures
        s@ == if degrees == 0 {
            "N"@
        } else {
            generate::zero_filled(degrees as nat, 3)
        },
{
    if degrees == 0 {
        return text::owned("N");
    }
    let mut s: String = text::owned("");
    proof {
        reveal_strlit("");
        reveal_with_fuel(text::pow10, 5);
    }
    text::push_last_digits(&mut s, degrees as u128, 3);
    assert(s@ =~= generate::zero_filled(degrees as nat, 3));
    s
}

/// The distance of a label from the centre.
pub fn label_distance(radius: Single) -> (d: Single)
    ensures
        d == radius.plus_spec(constants::of(LABEL_DISTANCE)),
{
    radius.plus(Single::from_bits(LABEL_DISTANCE))
}

/// How far from the centre a strength is drawn.
pub open spec fn reach_spec(radius: Single, strength: Single) -> Single {
    radius.times_spec(
        constants::of(NEEDLE_LENGTH_BASE).plus_spec(
            constants::of(NEEDLE_LENGTH_SCALE).times_spec(strength),
        ),
    )
}

/// How far from the centre a strength is drawn.
pub fn reach(radius: Single, strength: Single) -> (r: Single)
    ensures
        r == reach_spec(radius, strength),
{
    radius.times(
        Single::from_bits(NEEDLE_LENGTH_BASE).plus(
            Single::from_bits(NEEDLE_LENGTH_SCALE).times(strength),
        ),
    )
}

/// The label of a ring: its strength as a percentage.
pub fn ring_label(strength: Single) -> (s: String)
    ensures
        s@ == text::decimal(
            strength.times_spec(constants::of(analyze::HUNDRED)).to_count_spec(),
        ) + "%"@,
{
    let mut s: String = text::owned("");
    proof {
        reveal_strlit("");
    }
    text::push_decimal(
        &mut s,
        strength.times(Single::from_bits(analyze::HUNDRED)).to_count() as u128,
    );
    s.append("%");
    assert(s@ =~= text::decimal(
        strength.times_spec(constants::of(analyze::HUNDRED)).to_count_spec(),
    ) + "%"@);
    s
}

/// What the brightness of a dot of the trail is the exponential of; none where
/// its confidence is too low to leave a trail.
pub open spec fn fade_spec(entry: TrailEntry, latest: Double) -> Option<Single> {
    if entry.confidence.lt_spec(constants::of(TRAIL_CONFIDENCE)) {
        None
    } else {
        let age = latest.minus_spec(entry.time_secs).to_single_spec();
        let tau = constants::of(TRAIL_TAU_BASE).plus_spec(
            constants::of(TRAIL_TAU_SCALE).times_spec(entry.confidence),
        );
        Some(age.neg_spec().over_spec(tau))
    }
}

/// What the brightness of a dot of the trail is the exponential of.
pub fn fade(entry: &TrailEntry, latest: Double) -> (e: Option<Single>)
    ensures
        e == fade_spec(*entry, latest),
{
    if entry.confidence.less_than(Single::from_bits(TRAIL_CONFIDENCE)) {
        return None;
    }
    let age: Single = latest.minus(entry.time_secs).to_single();
    let tau: Single = Single::from_bits(TRAIL_TAU_BASE).plus(
        Single::from_bits(TRAIL_TAU_SCALE).times(entry.confidence),
    );
    Some(age.negated().over(tau))
}

/// A value of a colour.
pub open spec fn shade_spec(x: Single) -> nat {
    x.clamp_spec(constants::of(0), constants::of(FULL_COLOR)).to_count_spec()
}

/// A value of a colour, cut off at its range.
pub fn shade(x: Single) -> (c: u8)
    ensures
        c == if shade_spec(x) > 255 {
            255
        } else {
            shade_spec(x)
        },
{
    let n: usize = x.clamp(Single::zero(), Single::from_bits(FULL_COLOR)).to_count();
    if n > 255 {
        255
    } else {
        n as u8
    }
}

/// A dot of the trail.
#[derive(Debug, Clone, Copy, PartialEq, Eq)]
pub struct Dot {
    /// Direction in radians
    pub angle: Single,
    pub distance: Single,
    pub size: Single,
    pub glow_size: Single,
    pub core_alpha: u8,
    pub glow_alpha: u8,
}

/// Whether a dot is that of an entry.
pub open spec fn is_dot(d: Dot, entry: TrailEntry, brightness: Single, radius: Single) -> bool {
    let full = constants::of(FULL_COLOR);
    let core = shade_spec(brightness.times_spec(full));
    let glow = shade_spec(brightness.times_spec(constants::of(GLOW_ALPHA)).times_spec(full));
    &&& d.angle == stats::radians_of(entry.bearing)
    &&& d.distance == reach_spec(radius, entry.strength)
    &&& d.size == constants::of(ONE).plus_spec(constants::of(ONE).times_spec(entry.coherence))
    &&& d.glow_size == d.size.times_spec(constants::of(GLOW_SIZE))
    &&& d.core_alpha == if core > 255 {
        255
    } else {
        core
    }
    &&& d.glow_alpha == if glow > 255 {
        255
    } else {
        glow
    }
}

/// A dot of the trail, where it is bright enough to be drawn.
pub fn dot(entry: &TrailEntry, brightness: Single, radius: Single) -> (d: Option<Dot>)
    ensures
        match d {
            None => brightness.lt_spec(constants::of(TRAIL_CUTOFF)),
            Some(dot) => {
                &&& !brightness.lt_spec(constants::of(TRAIL_CUTOFF))
                &&& is_dot(dot, *entry, brightness, radius)
            },
        },
{
    if brightness.less_than(Single::from_bits(TRAIL_CUTOFF)) {
        return None;
    }
    let full: Single = Single::from_bits(FULL_COLOR);
    let size: Single = Single::one().plus(Single::one().times(entry.coherence));
    Some(
        Dot {
            angle: stats::to_radians(entry.bearing),
            distance: reach(radius, entry.strength),
            size,
            glow_size: size.times(Single::from_bits(GLOW_SIZE)),
            core_alpha: shade(brightness.times(full)),
            glow_alpha: shade(brightness.times(Single::from_bits(GLOW_ALPHA)).times(full)),
        },
    )
}

/// The needle.
#[derive(Debug, Clone, Copy, PartialEq, Eq)]
pub struct Needle {
    /// Direction in radians
    pub angle: Single,
    pub length: Single,
    pub width: Single,
    pub tip: Single,
    pub color: (u8, u8, u8),
}

pub open spec fn or_zero(x: Option<Single>) -> Single {
    match x {
        Some(v) => v,
        None => constants::of(0),
    }
}

fn value_or_zero(x: Option<Single>) -> (v: Single)
    ensures
        v == or_zero(x),
{
    match x {
        Some(v) => v,
        None => Single::zero(),
    }
}

/// A part of a colour at a brightness.
pub open spec fn dimmed_spec(c: u8, brightness: Single) -> nat {
    let n = Single::from_integer_spec(c as int).times_spec(brightness).to_count_spec();
    if n > 255 {
        255
    } else {
        n
    }
}

/// A part of a colour at a brightness.
pub fn dimmed(c: u8, brightness: Single) -> (d: u8)
    ensures
        d == dimmed_spec(c, brightness),
{
    let n: usize = Single::from_count(c as usize).times(brightness).to_count();
    if n > 255 {
        255
    } else {
        n as u8
    }
}

/// Whether a needle is that of readings.
pub open spec fn is_needle(n: Needle, latest: Latest, bearing: Single, radius: Single) -> bool {
    let bright = constants::of(NEEDLE_BRIGHTNESS_BASE).plus_spec(
        constants::of(NEEDLE_BRIGHTNESS_SCALE).times_spec(or_zero(latest.confidence)),
    );
    let coherence = or_zero(latest.coherence);
    &&& n.angle == stats::radians_of(bearing)
    &&& n.length == reach_spec(radius, or_zero(latest.signal_strength))
    &&& n.width == constants::of(ONE).plus_spec(
        constants::of(NEEDLE_WIDTH_SCALE).times_spec(coherence),
    )
    &&& n.tip == constants::of(NEEDLE_TIP_BASE).plus_spec(
        constants::of(NEEDLE_TIP_SCALE).times_spec(coherence),
    )
    &&& n.color.0 == dimmed_spec(30, bright)
    &&& n.color.1 == dimmed_spec(255, bright)
    &&& n.color.2 == dimmed_spec(60, bright)
}

/// The needle, where there is a bearing: its brightness shows the confidence,
/// its width and tip the coherence, its length the strength.
pub fn needle(latest: &Latest, radius: Single) -> (n: Option<Needle>)
    ensures
        match (latest.bearing, n) {
            (Some(b), Some(needle)) => is_needle(needle, *latest, b, radius),
            (None, None) => true,
            _ => false,
        },
{
    match latest.bearing {
        None => None,
        Some(bearing) => {
            let confidence: Single = value_or_zero(latest.confidence);
            let coherence: Single = value_or_zero(latest.coherence);
            let strength: Single = value_or_zero(latest.signal_strength);
            let bright: Single = Single::from_bits(NEEDLE_BRIGHTNESS_BASE).plus(
                Single::from_bits(NEEDLE_BRIGHTNESS_SCALE).times(confidence),
            );
            Some(
                Needle {
                    angle: stats::to_radians(bearing),
                    length: reach(radius, strength),
                    width: Single::one().plus(
                        Single::from_bits(NEEDLE_WIDTH_SCALE).times(coherence),
                    ),
                    tip: Single::from_bits(NEEDLE_TIP_BASE).plus(
                        Single::from_bits(NEEDLE_TIP_SCALE).times(coherence),
                    ),
                    color: (
                        dimmed(PHOSPHOR.0, bright),
                        dimmed(PHOSPHOR.1, bright),
                        dimmed(PHOSPHOR.2, bright),
                    ),
                },
            )
        },
    }
}

/// The corners of the marker at the rim: one points inward, the others lie
/// beside it on the rim.
pub fn marker(center: Place, sin: Single, cos: Single, radius: Single) -> (m: (
    Place,
    Place,
    Place,
))
    ensures
        ({
            let rim = polar_spec(center, sin, cos, radius);
            let size = constants::of(MARKER_SIZE);
            let half = constants::of(HALF);
            &&& m.0 == (Place {
                x: rim.x.plus_spec(sin.neg_spec().times_spec(size)),
                y: rim.y.plus_spec(cos.times_spec(size)),
            })
            &&& m.1 == (Place {
                x: rim.x.minus_spec(cos.times_spec(size).times_spec(half)),
                y: rim.y.minus_spec(sin.times_spec(size).times_spec(half)),
            })
            &&& m.2 == (Place {
                x: rim.x.plus_spec(cos.times_spec(size).times_spec(half)),
                y: rim.y.plus_spec(sin.times_spec(size).times_spec(half)),
            })
        }),
{
    let rim: Place = polar(center, sin, cos, radius);
    let size: Single = Single::from_bits(MARKER_SIZE);
    let half: Single = Single::from_bits(HALF);
    (
        Place { x: rim.x.plus(sin.negated().times(size)), y: rim.y.plus(cos.times(size)) },
        Place {
            x: rim.x.minus(cos.times(size).times(half)),
            y: rim.y.minus(sin.times(size).times(half)),
        },
        Place {
            x: rim.x.plus(cos.times(size).times(half)),
            y: rim.y.plus(sin.times(size).times(half)),
        },
    )
}

} // verus!
