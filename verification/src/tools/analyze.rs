//! Rotation and bearing statistics of a recording.
use crate::constants;
use crate::rdf::north_ref::NorthTick;
use crate::single::Single;
use vstd::prelude::*;

verus! {

/// A hundred, for percentages.
pub const HUNDRED: u32 = 0x42c8_0000;

/// Microseconds in a second.
pub const MICROSECONDS: u32 = 0x4974_2400;

/// How a recording is trimmed.
#[derive(Debug, Clone, Copy, PartialEq, Eq)]
pub struct TrimOptions {
    pub lock_threshold: Single,
}

/// What is kept of a north tick.
#[derive(Debug, Clone, Copy, PartialEq, Eq)]
pub struct CollectedTick {
    pub sample_index: usize,
    pub lock_quality: Option<Single>,
    pub period: Option<Single>,
    pub frequency: Option<Single>,
    pub bearing: Option<Single>,
    pub phase_error_variance: Option<Single>,
}

impl CollectedTick {
    /// What is kept of a tick, with what was known when it came.
    pub fn collect(
        tick: &NorthTick,
        frequency: Option<Single>,
        bearing: Option<Single>,
        phase_error_variance: Option<Single>,
    ) -> (c: CollectedTick)
        ensures
            c == (CollectedTick {
                sample_index: tick.sample_index,
                lock_quality: tick.lock_quality,
                period: tick.period,
                frequency,
                bearing,
                phase_error_variance,
            }),
    {
        CollectedTick {
            sample_index: tick.sample_index,
            lock_quality: tick.lock_quality,
            period: tick.period,
            frequency,
            bearing,
            phase_error_variance,
        }
    }

    /// Whether the tracker was locked: a tick without a quality has none.
    pub open spec fn locked(self, threshold: Single) -> bool {
        threshold.le_spec(
            match self.lock_quality {
                Some(q) => q,
                None => constants::of(0),
            },
        )
    }

    fn is_locked(&self, threshold: Single) -> (b: bool)
        ensures
            b == self.locked(threshold),
    {
        let quality: Single = match self.lock_quality {
            Some(q) => q,
            None => Single::zero(),
        };
        quality.at_least(threshold)
    }
}

/// The ticks between the first one with lock and the last one.
#[derive(Debug, PartialEq, Eq)]
pub struct StableRegion {
    pub start: usize,
    pub end: usize,
    pub dropouts: usize,
    pub dropout_positions: Vec<usize>,
}

/// Whether lock is lost at a tick of a region.
pub open spec fn is_dropout(
    ticks: Seq<CollectedTick>,
    threshold: Single,
    start: int,
    i: int,
) -> bool {
    !ticks[i].locked(threshold) && (i == start || ticks[i - 1].locked(threshold))
}

/// Where lock is lost, in order.
pub open spec fn dropouts_spec(
    ticks: Seq<CollectedTick>,
    threshold: Single,
    start: int,
    end: int,
) -> Seq<usize>
    decreases end - start,
{
    if end <= start {
        Seq::empty()
    } else {
        let front = dropouts_spec(ticks, threshold, start, end - 1);
        if is_dropout(ticks, threshold, start, end - 1) {
            front.push((end - 1) as usize)
        } else {
            front
        }
    }
}

/// Whether some tick has lock.
pub open spec fn any_locked(ticks: Seq<CollectedTick>, threshold: Single) -> bool {
    exists|i: int| 0 <= i < ticks.len() && (#[trigger] ticks[i]).locked(threshold)
}

impl StableRegion {
    /// Whether the region is that of ticks: from the first tick with lock to
    /// the last one, or all of them where none has.
    pub open spec fn is_region(self, ticks: Seq<CollectedTick>, threshold: Single) -> bool {
        &&& if any_locked(ticks, threshold) {
            &&& self.start < self.end <= ticks.len()
            &&& ticks[self.start as int].locked(threshold)
            &&& forall|i: int|
                0 <= i < self.start ==> !(#[trigger] ticks[i]).locked(threshold)
            &&& ticks[self.end - 1].locked(threshold)
            &&& forall|i: int|
                self.end <= i < ticks.len() ==> !(#[trigger] ticks[i]).locked(threshold)
        } else {
            self.start == 0 && self.end == ticks.len()
        }
        &&& self.dropout_positions@ == dropouts_spec(
            ticks,
            threshold,
            self.start as int,
            self.end as int,
        )
        &&& self.dropouts == self.dropout_positions@.len()
    }
}

/// The part of a recording in which the tracker has lock, and where it loses
/// it.
pub fn find_stable_region(ticks: &[CollectedTick], threshold: Single) -> (r: StableRegion)
    ensures
        r.is_region(ticks@, threshold),
{
    let n: usize = ticks.len();
    let mut start: usize = 0;
    while start < n && !ticks[start].is_locked(threshold)
        invariant
            start <= n,
            n == ticks.len(),
            forall|i: int| 0 <= i < start ==> !(#[trigger] ticks@[i]).locked(threshold),
        decreases n - start,
    {
        start = start + 1;
    }
    let mut end: usize = n;
    while end > start && !ticks[end - 1].is_locked(threshold)
        invariant
            start <= end <= n,
            n == ticks.len(),
            start < n ==> ticks@[start as int].locked(threshold),
            forall|i: int| end <= i < n ==> !(#[trigger] ticks@[i]).locked(threshold),
        decreases end,
    {
        end = end - 1;
    }
    if start >= n {
        start = 0;
        end = n;
    }
    let mut dropouts: usize = 0;
    let mut dropout_positions: Vec<usize> = Vec::new();
    let mut was_locked: bool = true;
    let mut i: usize = start;
    while i < end
        invariant
            start <= i <= end <= n,
            n == ticks.len(),
            dropout_positions@ == dropouts_spec(ticks@, threshold, start as int, i as int),
            dropouts == dropout_positions@.len(),
            dropouts <= i - start,
            was_locked == (i == start || ticks@[i - 1].locked(threshold)),
        decreases end - i,
    {
        let is_locked: bool = ticks[i].is_locked(threshold);
        if was_locked && !is_locked {
            dropouts = dropouts + 1;
            dropout_positions.push(i);
        }
        was_locked = is_locked;
        i = i + 1;
    }
    StableRegion { start, end, dropouts, dropout_positions }
}

/// Every position at which lock is said to be lost lies inside the region and
/// has none.
pub proof fn dropouts_are_unlocked(
    ticks: Seq<CollectedTick>,
    threshold: Single,
    start: int,
    end: int,
    k: int,
)
    requires
        0 <= start <= end <= ticks.len(),
        ticks.len() <= usize::MAX,
        0 <= k < dropouts_spec(ticks, threshold, start, end).len(),
    ensures
        start <= dropouts_spec(ticks, threshold, start, end)[k] < end,
        !ticks[dropouts_spec(ticks, threshold, start, end)[k] as int].locked(threshold),
    decreases end - start,
{
    if end > start {
        if k < dropouts_spec(ticks, threshold, start, end - 1).len() {
            dropouts_are_unlocked(ticks, threshold, start, end - 1, k);
        }
    }
}

/// What trimming did.
#[derive(Debug, PartialEq, Eq)]
pub struct TrimmedRange {
    pub total_ticks: usize,
    pub used_ticks: usize,
    pub start_tick: usize,
    pub end_tick: usize,
    pub dropouts: usize,
    pub dropout_positions: Vec<Single>,
}

/// A position as a percentage.
pub open spec fn percent_spec(position: nat, total: nat) -> Single {
    constants::of(HUNDRED).times_spec(Single::from_integer_spec(position as int)).over_spec(
        Single::from_integer_spec(total as int),
    )
}

/// A position as a percentage.
pub fn percent(position: usize, total: usize) -> (p: Single)
    ensures
        p == percent_spec(position as nat, total as nat),
{
    Single::from_bits(HUNDRED).times(Single::from_count(position)).over(
        Single::from_count(total),
    )
}

impl TrimmedRange {
    /// Whether this is what trimming to a region did.
    pub open spec fn is_of(self, region: StableRegion, total: nat) -> bool {
        &&& self.total_ticks == total
        &&& self.used_ticks == region.end - region.start
        &&& self.start_tick == region.start
        &&& self.end_tick == region.end
        &&& self.dropouts == region.dropouts
        &&& self.dropout_positions@ == region.dropout_positions@.map_values(
            |p: usize| percent_spec(p as nat, total),
        )
    }
}

/// The ticks that are analyzed.
#[derive(Debug, PartialEq, Eq)]
pub struct Selection {
    pub start: usize,
    pub end: usize,
    pub trimmed: Option<TrimmedRange>,
}

/// Select the ticks that are analyzed: all of them, or the stable region.
pub fn select_ticks(ticks: &[CollectedTick], trim: Option<TrimOptions>) -> (s: Selection)
    ensures
        s.start <= s.end <= ticks@.len(),
        match (trim, s.trimmed) {
            (None, None) => s.start == 0 && s.end == ticks@.len(),
            (Some(options), Some(range)) => exists|region: StableRegion|
                {
                    &&& #[trigger] region.is_region(ticks@, options.lock_threshold)
                    &&& range.is_of(region, ticks@.len())
                    &&& s.start == region.start
                    &&& s.end == region.end
                },
            _ => false,
        },
{
    match trim {
        None => Selection { start: 0, end: ticks.len(), trimmed: None },
        Some(options) => {
            let region: StableRegion = find_stable_region(ticks, options.lock_threshold);
            let mut dropout_positions: Vec<Single> = Vec::new();
            let ghost all = region.dropout_positions@.map_values(
                |p: usize| percent_spec(p as nat, ticks@.len()),
            );
            let mut i: usize = 0;
            while i < region.dropout_positions.len()
                invariant
                    i <= region.dropout_positions@.len(),
                    all == region.dropout_positions@.map_values(
                        |p: usize| percent_spec(p as nat, ticks@.len()),
                    ),
                    dropout_positions@ == all.take(i as int),
                decreases region.dropout_positions@.len() - i,
            {
                dropout_positions.push(percent(region.dropout_positions[i], ticks.len()));
                i = i + 1;
                assert(dropout_positions@ =~= all.take(i as int));
            }
            assert(dropout_positions@ =~= all);
            let range: TrimmedRange = TrimmedRange {
                total_ticks: ticks.len(),
                used_ticks: region.end - region.start,
                start_tick: region.start,
                end_tick: region.end,
                dropouts: region.dropouts,
                dropout_positions,
            };
            assert(range.is_of(region, ticks@.len()));
            Selection { start: region.start, end: region.end, trimmed: Some(range) }
        },
    }
}

/// The numbers that there are, in order.
pub open spec fn present(values: Seq<Option<Single>>) -> Seq<Single>
    decreases values.len(),
{
    if values.len() == 0 {
        Seq::empty()
    } else {
        let front = present(values.drop_last());
        match values.last() {
            Some(x) => front.push(x),
            None => front,
        }
    }
}

/// Whether ticks come in order.
pub open spec fn in_order(ticks: Seq<CollectedTick>) -> bool {
    forall|i: int, j: int|
        0 <= i <= j < ticks.len() ==> (#[trigger] ticks[i]).sample_index <= (
        #[trigger] ticks[j]).sample_index
}

/// The samples from each tick to the next one.
pub open spec fn intervals(ticks: Seq<CollectedTick>) -> Seq<Single> {
    Seq::new(
        if ticks.len() > 0 {
            (ticks.len() - 1) as nat
        } else {
            0
        },
        |i: int|
            Single::from_integer_spec(
                ticks[i + 1].sample_index as int - ticks[i].sample_index as int,
            ),
    )
}

/// The numbers that statistics are made of.
#[derive(Debug, PartialEq, Eq)]
pub struct TickSeries {
    pub raw_intervals: Vec<Single>,
    pub periods: Vec<Single>,
    pub frequencies: Vec<Single>,
    pub lock_qualities: Vec<Single>,
    pub bearings: Vec<Single>,
    /// The variance at the last tick
    pub phase_error_variance: Option<Single>,
}

impl TickSeries {
    /// Whether the series are those of ticks.
    pub open spec fn is_of(self, ticks: Seq<CollectedTick>) -> bool {
        &&& self.raw_intervals@ == intervals(ticks)
        &&& self.periods@ == present(ticks.map_values(|t: CollectedTick| t.period))
        &&& self.frequencies@ == present(ticks.map_values(|t: CollectedTick| t.frequency))
        &&& self.lock_qualities@ == present(ticks.map_values(|t: CollectedTick| t.lock_quality))
        &&& self.bearings@ == present(ticks.map_values(|t: CollectedTick| t.bearing))
        &&& self.phase_error_variance == if ticks.len() > 0 {
            ticks.last().phase_error_variance
        } else {
            None
        }
    }
}

fn push_present(values: &mut Vec<Single>, x: Option<Single>)
    ensures
        final(values)@ == match x {
            Some(v) => old(values)@.push(v),
            None => old(values)@,
        },
{
    if let Some(v) = x {
        values.push(v);
    }
}

/// The numbers of the selected ticks.
pub fn tick_series(ticks: &[CollectedTick], start: usize, end: usize) -> (s: TickSeries)
    requires
        start <= end <= ticks.len(),
        in_order(ticks@.subrange(start as int, end as int)),
    ensures
        s.is_of(ticks@.subrange(start as int, end as int)),
{
    let ghost all = ticks@.subrange(start as int, end as int);
    let mut s: TickSeries = TickSeries {
        raw_intervals: Vec::new(),
        periods: Vec::new(),
        frequencies: Vec::new(),
        lock_qualities: Vec::new(),
        bearings: Vec::new(),
        phase_error_variance: None,
    };
    let mut i: usize = start;
    assert(s.raw_intervals@ =~= intervals(all.take(0)));
    while i < end
        invariant
            start <= i <= end <= ticks.len(),
            all == ticks@.subrange(start as int, end as int),
            in_order(all),
            s.is_of(all.take(i - start)),
        decreases end - i,
    {
        let ghost before = all.take(i - start);
        let ghost after = all.take(i + 1 - start);
        let tick: CollectedTick = ticks[i];
        assert(after =~= before.push(tick));
        if i > start {
            let previous: CollectedTick = ticks[i - 1];
            assert(all[i - 1 - start] == previous && all[i - start] == tick);
            s.raw_intervals.push(
                Single::from_count(tick.sample_index - previous.sample_index),
            );
        }
        assert(s.raw_intervals@ =~= intervals(after));
        push_present(&mut s.periods, tick.period);
        push_present(&mut s.frequencies, tick.frequency);
        push_present(&mut s.lock_qualities, tick.lock_quality);
        push_present(&mut s.bearings, tick.bearing);
        s.phase_error_variance = tick.phase_error_variance;
        proof {
            let period = |t: CollectedTick| t.period;
            let frequency = |t: CollectedTick| t.frequency;
            let quality = |t: CollectedTick| t.lock_quality;
            let bearing = |t: CollectedTick| t.bearing;
            assert(after.map_values(period).drop_last() =~= before.map_values(period));
            assert(after.map_values(frequency).drop_last() =~= before.map_values(frequency));
            assert(after.map_values(quality).drop_last() =~= before.map_values(quality));
            assert(after.map_values(bearing).drop_last() =~= before.map_values(bearing));
        }
        i = i + 1;
    }
    assert(all.take(i - start) =~= all);
    s
}

/// What there is to say of a series.
#[derive(Debug, Clone, Copy, PartialEq, Eq)]
pub struct StatsSummary {
    pub count: usize,
    pub mean: Single,
    pub std_dev: Single,
    pub min: Single,
    pub max: Single,
}

impl StatsSummary {
    /// A summary, where there is anything to summarize.
    pub fn present(self) -> (s: Option<StatsSummary>)
        ensures
            s == if self.count == 0 {
                None
            } else {
                Some(self)
            },
    {
        if self.count == 0 {
            None
        } else {
            Some(self)
        }
    }

    pub open spec fn scaled_spec(self, scale: Single) -> StatsSummary {
        StatsSummary {
            count: self.count,
            mean: self.mean.times_spec(scale),
            std_dev: self.std_dev.times_spec(scale),
            min: self.min.times_spec(scale),
            max: self.max.times_spec(scale),
        }
    }

    /// The summary in another unit.
    pub fn scaled(self, scale: Single) -> (s: StatsSummary)
        ensures
            s == self.scaled_spec(scale),
    {
        StatsSummary {
            count: self.count,
            mean: self.mean.times(scale),
            std_dev: self.std_dev.times(scale),
            min: self.min.times(scale),
            max: self.max.times(scale),
        }
    }
}

/// Microseconds in a sample.
pub open spec fn sample_us(sample_rate: u32) -> Single {
    constants::of(MICROSECONDS).over_spec(Single::from_integer_spec(sample_rate as int))
}

/// A summary of samples in microseconds.
pub fn in_microseconds(summary: Option<StatsSummary>, sample_rate: u32) -> (s: Option<StatsSummary>)
    ensures
        s == match summary {
            Some(x) => Some(x.scaled_spec(sample_us(sample_rate))),
            None => None,
        },
{
    let scale: Single = Single::from_bits(MICROSECONDS).over(
        Single::from_count(sample_rate as usize),
    );
    match summary {
        Some(x) => Some(x.scaled(scale)),
        None => None,
    }
}

/// What the analysis of a recording found.
pub struct FileAnalysis {
    pub filename: String,
    pub rotation_freq: Option<StatsSummary>,
    pub lock_quality: Option<StatsSummary>,
    pub phase_error_variance: Option<Single>,
    pub bearing: Option<StatsSummary>,
    pub sample_count: usize,
    pub raw_period_us: Option<StatsSummary>,
    pub dpll_period_us: Option<StatsSummary>,
    pub trimmed_range: Option<TrimmedRange>,
    pub error: Option<String>,
}

/// The summaries of the series of a recording, in samples where they measure
/// time.
#[derive(Debug, Clone, Copy, PartialEq, Eq)]
pub struct SeriesSummaries {
    pub rotation: StatsSummary,
    pub lock_quality: StatsSummary,
    pub bearing: StatsSummary,
    pub raw_period: StatsSummary,
    pub dpll_period: StatsSummary,
}

impl FileAnalysis {
    /// What was found in a recording.
    pub fn found(
        filename: String,
        summaries: &SeriesSummaries,
        phase_error_variance: Option<Single>,
        trimmed_range: Option<TrimmedRange>,
        sample_rate: u32,
    ) -> (a: FileAnalysis)
        ensures
            a.filename == filename,
            a.error is None,
            a.phase_error_variance == phase_error_variance,
            a.trimmed_range == trimmed_range,
            a.sample_count == summaries.rotation.count,
            a.rotation_freq == (if summaries.rotation.count == 0 {
                None
            } else {
                Some(summaries.rotation)
            }),
            a.lock_quality == (if summaries.lock_quality.count == 0 {
                None
            } else {
                Some(summaries.lock_quality)
            }),
            a.bearing == (if summaries.bearing.count == 0 {
                None
            } else {
                Some(summaries.bearing)
            }),
            a.raw_period_us == (if summaries.raw_period.count == 0 {
                None
            } else {
                Some(summaries.raw_period.scaled_spec(sample_us(sample_rate)))
            }),
            a.dpll_period_us == (if summaries.dpll_period.count == 0 {
                None
            } else {
                Some(summaries.dpll_period.scaled_spec(sample_us(sample_rate)))
            }),
    {
        FileAnalysis {
            filename,
            rotation_freq: summaries.rotation.present(),
            lock_quality: summaries.lock_quality.present(),
            phase_error_variance,
            bearing: summaries.bearing.present(),
            sample_count: summaries.rotation.count,
            raw_period_us: in_microseconds(summaries.raw_period.present(), sample_rate),
            dpll_period_us: in_microseconds(summaries.dpll_period.present(), sample_rate),
            trimmed_range,
            error: None,
        }
    }

    /// A recording that could not be analyzed.
    pub fn failed(filename: String, error: String) -> (a: FileAnalysis)
        ensures
            a.filename == filename,
            a.error == Some(error),
            a.rotation_freq is None,
            a.lock_quality is None,
            a.phase_error_variance is None,
            a.bearing is None,
            a.sample_count == 0,
            a.raw_period_us is None,
            a.dpll_period_us is None,
            a.trimmed_range is None,
    {
        FileAnalysis {
            filename,
            rotation_freq: None,
            lock_quality: None,
            phase_error_variance: None,
            bearing: None,
            sample_count: 0,
            raw_period_us: None,
            dpll_period_us: None,
            trimmed_range: None,
            error: Some(error),
        }
    }
}

} // verus!
