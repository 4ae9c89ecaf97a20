//! Readings over time.
use crate::double::Double;
use crate::single::Single;
use std::collections::VecDeque;
use vstd::prelude::*;

verus! {

/// Seconds that readings are kept (120).
pub const MAX_HISTORY_SECS: u64 = 0x405e_0000_0000_0000;

/// Seconds that the trail of the compass is kept (10).
pub const MAX_TRAIL_AGE_SECS: u64 = 0x4024_0000_0000_0000;

/// Something with a time.
pub trait Timed: Copy {
    spec fn at(self) -> Double;

    /// The time in seconds.
    fn time(&self) -> (t: Double)
        ensures
            t == self.at(),
    ;
}

/// A reading at a time.
#[derive(Debug, Clone, Copy, PartialEq, Eq)]
pub struct Point {
    pub time_secs: Double,
    pub value: Double,
}

/// A bearing in the trail of the compass.
#[derive(Debug, Clone, Copy, PartialEq, Eq)]
pub struct TrailEntry {
    pub bearing: Single,
    pub confidence: Single,
    pub coherence: Single,
    pub strength: Single,
    pub time_secs: Double,
}

impl Timed for Point {
    open spec fn at(self) -> Double {
        self.time_secs
    }

    fn time(&self) -> (t: Double) {
        self.time_secs
    }
}

impl Timed for TrailEntry {
    open spec fn at(self) -> Double {
        self.time_secs
    }

    fn time(&self) -> (t: Double) {
        self.time_secs
    }
}

/// What is left of readings once those at the front that are too old are gone.
pub open spec fn pruned<T: Timed>(items: Seq<T>, cutoff: Double) -> Seq<T>
    decreases items.len(),
{
    if items.len() > 0 && items[0].at().lt_spec(cutoff) {
        pruned(items.skip(1), cutoff)
    } else {
        items
    }
}

/// Drop the readings at the front that are too old.
pub fn prune<T: Timed>(items: &mut VecDeque<T>, cutoff: Double)
    ensures
        final(items)@ == pruned(old(items)@, cutoff),
{
    while items.len() > 0 && items[0].time().less_than(cutoff)
        invariant
            pruned(items@, cutoff) == pruned(old(items)@, cutoff),
        decreases items@.len(),
    {
        assert(items@.subrange(1, items@.len() as int) =~= items@.skip(1));
        let _ = items.pop_front();
    }
}

/// Whether readings came in order of time.
pub open spec fn in_order<T: Timed>(items: Seq<T>) -> bool {
    forall|i: int, j: int|
        0 <= i <= j < items.len() ==> (#[trigger] items[i]).at().le_spec(
            (#[trigger] items[j]).at(),
        )
}

/// Pruning keeps exactly the readings that are not too old, where they came in
/// order of time.
pub proof fn pruned_is_recent<T: Timed>(items: Seq<T>, cutoff: Double, i: int)
    requires
        in_order(items),
        0 <= i < items.len(),
    ensures
        pruned(items, cutoff).contains(items[i]) || items[i].at().lt_spec(cutoff),
        pruned(items, cutoff).len() > 0 ==> forall|k: int|
            0 <= k < pruned(items, cutoff).len() ==> !(#[trigger] pruned(
                items,
                cutoff,
            )[k]).at().lt_spec(cutoff),
    decreases items.len(),
{
    if items[0].at().lt_spec(cutoff) {
        let rest = items.skip(1);
        assert forall|a: int, b: int| 0 <= a <= b < rest.len() implies (
        #[trigger] rest[a]).at().le_spec((#[trigger] rest[b]).at()) by {
            assert(rest[a] == items[a + 1] && rest[b] == items[b + 1]);
        }
        if rest.len() > 0 {
            if i > 0 {
                assert(rest[i - 1] == items[i]);
                pruned_is_recent(rest, cutoff, i - 1);
            } else {
                pruned_is_recent(rest, cutoff, 0);
            }
        }
    } else {
        assert forall|k: int| 0 <= k < items.len() implies !(
        #[trigger] items[k]).at().lt_spec(cutoff) by {
            assert(items[0].at().le_spec(items[k].at()));
        }
        assert(items.contains(items[i]));
    }
}

/// A bearing as it is shown.
#[derive(Debug, Clone, Copy, PartialEq, Eq)]
pub struct BearingData {
    pub bearing: Single,
    pub raw: Single,
    pub confidence: Single,
    pub snr_db: Single,
    pub coherence: Single,
    pub signal_strength: Single,
}

/// The readings of a display over time.
pub struct History {
    pub bearing: VecDeque<Point>,
    pub raw_bearing: VecDeque<Point>,
    pub snr: VecDeque<Point>,
    pub confidence: VecDeque<Point>,
    pub coherence: VecDeque<Point>,
    pub signal_strength: VecDeque<Point>,
    pub lock_quality: VecDeque<Point>,
    pub compass_trail: VecDeque<TrailEntry>,
}

/// The readings of a display over time.
pub ghost struct Readings {
    pub bearing: Seq<Point>,
    pub raw_bearing: Seq<Point>,
    pub snr: Seq<Point>,
    pub confidence: Seq<Point>,
    pub coherence: Seq<Point>,
    pub signal_strength: Seq<Point>,
    pub lock_quality: Seq<Point>,
    pub compass_trail: Seq<TrailEntry>,
}

pub open spec fn point(time_secs: Double, value: Single) -> Point {
    Point { time_secs, value: Double::from_single_spec(value) }
}

fn point_at(time_secs: Double, value: Single) -> (p: Point)
    ensures
        p == point(time_secs, value),
{
    Point { time_secs, value: Double::from_single(value) }
}

impl Readings {
    /// Nothing read.
    pub open spec fn none() -> Readings {
        Readings {
            bearing: Seq::empty(),
            raw_bearing: Seq::empty(),
            snr: Seq::empty(),
            confidence: Seq::empty(),
            coherence: Seq::empty(),
            signal_strength: Seq::empty(),
            lock_quality: Seq::empty(),
            compass_trail: Seq::empty(),
        }
    }

    /// The readings with a bearing added.
    pub open spec fn with_bearing(self, t: Double, b: BearingData) -> Readings {
        Readings {
            bearing: self.bearing.push(point(t, b.bearing)),
            raw_bearing: self.raw_bearing.push(point(t, b.raw)),
            snr: self.snr.push(point(t, b.snr_db)),
            confidence: self.confidence.push(point(t, b.confidence)),
            coherence: self.coherence.push(point(t, b.coherence)),
            signal_strength: self.signal_strength.push(point(t, b.signal_strength)),
            lock_quality: self.lock_quality,
            compass_trail: self.compass_trail.push(
                TrailEntry {
                    bearing: b.bearing,
                    confidence: b.confidence,
                    coherence: b.coherence,
                    strength: b.signal_strength,
                    time_secs: t,
                },
            ),
        }
    }

    /// The readings with a lock quality added.
    pub open spec fn with_lock(self, t: Double, quality: Single) -> Readings {
        Readings { lock_quality: self.lock_quality.push(point(t, quality)), ..self }
    }

    /// The readings that are not too old at a time.
    pub open spec fn recent(self, now: Double) -> Readings {
        let cutoff = now.minus_spec(Double { bits: MAX_HISTORY_SECS });
        let trail = now.minus_spec(Double { bits: MAX_TRAIL_AGE_SECS });
        Readings {
            bearing: pruned(self.bearing, cutoff),
            raw_bearing: pruned(self.raw_bearing, cutoff),
            snr: pruned(self.snr, cutoff),
            confidence: pruned(self.confidence, cutoff),
            coherence: pruned(self.coherence, cutoff),
            signal_strength: pruned(self.signal_strength, cutoff),
            lock_quality: pruned(self.lock_quality, cutoff),
            compass_trail: pruned(self.compass_trail, trail),
        }
    }
}

impl View for History {
    type V = Readings;

    open spec fn view(&self) -> Readings {
        Readings {
            bearing: self.bearing@,
            raw_bearing: self.raw_bearing@,
            snr: self.snr@,
            confidence: self.confidence@,
            coherence: self.coherence@,
            signal_strength: self.signal_strength@,
            lock_quality: self.lock_quality@,
            compass_trail: self.compass_trail@,
        }
    }
}

impl History {
    pub fn new() -> (h: History)
        ensures
            h@ == Readings::none(),
    {
        History {
            bearing: VecDeque::new(),
            raw_bearing: VecDeque::new(),
            snr: VecDeque::new(),
            confidence: VecDeque::new(),
            coherence: VecDeque::new(),
            signal_strength: VecDeque::new(),
            lock_quality: VecDeque::new(),
            compass_trail: VecDeque::new(),
        }
    }

    /// Add a bearing.
    pub fn push_bearing(&mut self, time_secs: Double, b: &BearingData)
        ensures
            final(self)@ == old(self)@.with_bearing(time_secs, *b),
    {
        self.bearing.push_back(point_at(time_secs, b.bearing));
        self.raw_bearing.push_back(point_at(time_secs, b.raw));
        self.snr.push_back(point_at(time_secs, b.snr_db));
        self.confidence.push_back(point_at(time_secs, b.confidence));
        self.coherence.push_back(point_at(time_secs, b.coherence));
        self.signal_strength.push_back(point_at(time_secs, b.signal_strength));
        self.compass_trail.push_back(
            TrailEntry {
                bearing: b.bearing,
                confidence: b.confidence,
                coherence: b.coherence,
                strength: b.signal_strength,
                time_secs,
            },
        );
    }

    /// Add a lock quality.
    pub fn push_lock(&mut self, time_secs: Double, quality: Single)
        ensures
            final(self)@ == old(self)@.with_lock(time_secs, quality),
    {
        self.lock_quality.push_back(point_at(time_secs, quality));
    }

    /// Drop what is too old at a time.
    pub fn prune(&mut self, now: Double)
        ensures
            final(self)@ == old(self)@.recent(now),
    {
        let cutoff: Double = now.minus(Double::from_bits(MAX_HISTORY_SECS));
        prune(&mut self.bearing, cutoff);
        prune(&mut self.raw_bearing, cutoff);
        prune(&mut self.snr, cutoff);
        prune(&mut self.confidence, cutoff);
        prune(&mut self.coherence, cutoff);
        prune(&mut self.signal_strength, cutoff);
        prune(&mut self.lock_quality, cutoff);
        let trail_cutoff: Double = now.minus(Double::from_bits(MAX_TRAIL_AGE_SECS));
        prune(&mut self.compass_trail, trail_cutoff);
    }
}

/// The span of time that plots show.
#[derive(Debug, Clone, Copy, PartialEq, Eq)]
pub struct Span {
    pub low: Double,
    pub high: Double,
}

/// The span of time that plots show: the last so many seconds, or the first
/// ones while there are no more.
pub fn plot_span(latest: Double, window: Double) -> (s: Span)
    ensures
        s.high == latest.max_spec(window),
        s.low == s.high.minus_spec(window),
{
    let high: Double = latest.max(window);
    Span { low: high.minus(window), high }
}

/// The points from a time on.
pub open spec fn since(points: Seq<Point>, low: Double) -> Seq<Point>
    decreases points.len(),
{
    if points.len() == 0 {
        Seq::empty()
    } else {
        let front = since(points.drop_last(), low);
        if low.le_spec(points.last().time_secs) {
            front.push(points.last())
        } else {
            front
        }
    }
}

/// The points that a plot shows.
pub fn in_window(points: &VecDeque<Point>, low: Double) -> (r: Vec<Point>)
    ensures
        r@ == since(points@, low),
{
    let mut r: Vec<Point> = Vec::new();
    let n: usize = points.len();
    let mut i: usize = 0;
    assert(points@.take(0) =~= Seq::<Point>::empty());
    while i < n
        invariant
            i <= n,
            n == points@.len(),
            r@ == since(points@.take(i as int), low),
        decreases n - i,
    {
        assert(points@.take(i + 1).drop_last() =~= points@.take(i as int));
        let p: Point = points[i];
        if p.time_secs.at_least(low) {
            r.push(p);
        }
        i = i + 1;
    }
    assert(points@.take(i as int) =~= points@);
    r
}

} // verus!
