//! Peak detector for north tick pulse detection.
use crate::signal_processing::window_max;
use crate::single::Single;
use vstd::prelude::*;

verus! {

/// Longest search window, and longest context behind it, in samples. A longer
/// one is cut down to this, so that positions stay within `isize`.
pub const MAX_WINDOW: usize = usize::MAX / 4;

/// Peak detector for north tick pulse detection
///
/// Detects peaks (rising-edge threshold crossings) in a signal with
/// configurable threshold and minimum spacing between peaks.
///
/// The detector triggers when the signal rises above the threshold and
/// enforces a minimum interval between detections to reject spurious
/// triggers from noise or ringing.
pub struct PeakDetector {
    threshold: Single,
    min_samples_between_peaks: usize,
    peak_search_window_samples: usize,
    trailing_context_samples: usize,
    samples_since_peak: usize,
    last_sample: Single,
    above_threshold: bool,
    pending_peak: Option<PendingPeak>,
}

/// A threshold crossing whose peak-search window spans a buffer boundary;
/// the local-max search completes in the next buffer.
struct PendingPeak {
    /// Samples of the window and of the context behind it that are still to
    /// come in the next buffer.
    remaining: usize,
    /// Best amplitude seen so far.
    amp: Single,
    /// Best position, relative to the next buffer's start (negative while
    /// the best sample lies in an earlier buffer).
    rel: isize,
}

/// What a detector holds: its settings, the edge detection state, and the
/// search window that is still open, if any.
pub ghost struct PeakState {
    pub threshold: Single,
    pub min_interval: nat,
    pub window: nat,
    pub context: nat,
    pub since: nat,
    pub last: Single,
    pub above: bool,
    pub pending: Option<PendingState>,
}

/// An open search window: how many samples of it and of the context behind it
/// are still to come, and the best sample so far, by amplitude and by position
/// relative to the start of the next buffer.
pub ghost struct PendingState {
    pub remaining: nat,
    pub amp: Single,
    pub rel: int,
}

/// A detector that has seen no sample. The first sample may be a peak.
pub open spec fn fresh(threshold: Single, min_interval: nat, window: nat) -> PeakState {
    PeakState {
        threshold,
        min_interval,
        window: if window == 0 {
            1
        } else if window > MAX_WINDOW {
            MAX_WINDOW as nat
        } else {
            window
        },
        context: 0,
        since: min_interval,
        last: Single { bits: 0 },
        above: false,
        pending: None,
    }
}

impl PeakState {
    pub open spec fn with_context(self, samples: nat) -> PeakState {
        PeakState {
            context: if samples > MAX_WINDOW {
                MAX_WINDOW as nat
            } else {
                samples
            },
            ..self
        }
    }

    /// How far behind a crossing the detector looks before it reports: the
    /// search window and the context that has to follow it.
    pub open spec fn reach(self) -> nat {
        self.window + self.context
    }

    /// How much of what is still to come belongs to the search window.
    pub open spec fn to_search(self, remaining: nat) -> nat {
        if remaining > self.context {
            (remaining - self.context) as nat
        } else {
            0
        }
    }

    /// The number of samples since the last peak once one more has arrived.
    /// The count stays at the largest `usize` once it has reached it.
    pub open spec fn since_next(self) -> nat {
        if self.since < usize::MAX {
            self.since + 1
        } else {
            self.since
        }
    }

    /// Whether a sample is a peak: a rising edge across the threshold, far
    /// enough from the peak before it.
    pub open spec fn fires(self, sample: Single) -> bool {
        &&& !self.above
        &&& self.last.le_spec(self.threshold)
        &&& self.threshold.lt_spec(sample)
        &&& self.since_next() >= self.min_interval
    }

    /// The state after one sample.
    pub open spec fn step(self, sample: Single) -> PeakState {
        PeakState {
            since: if self.fires(sample) {
                0
            } else {
                self.since_next()
            },
            last: sample,
            above: self.threshold.lt_spec(sample),
            ..self
        }
    }

    /// The state after the first `k` samples of a buffer.
    pub open spec fn after(self, buffer: Seq<Single>, k: int) -> PeakState
        decreases k,
    {
        if k <= 0 {
            self
        } else {
            self.after(buffer, k - 1).step(buffer[k - 1])
        }
    }

    /// The positions among the first `k` samples of a buffer that fire.
    pub open spec fn crossings(self, buffer: Seq<Single>, k: int) -> Seq<int>
        decreases k,
    {
        if k <= 0 {
            Seq::empty()
        } else {
            let earlier = self.crossings(buffer, k - 1);
            if self.after(buffer, k - 1).fires(buffer[k - 1]) {
                earlier.push(k - 1)
            } else {
                earlier
            }
        }
    }

    /// Whether the last crossing of a buffer has a search window, or context
    /// behind it, that runs past the end of the buffer.
    pub open spec fn defers(self, buffer: Seq<Single>) -> bool {
        let c = self.crossings(buffer, buffer.len() as int);
        c.len() > 0 && c.last() + self.reach() > buffer.len()
    }

    /// The crossings of a buffer whose search ends within it.
    pub open spec fn settled(self, buffer: Seq<Single>) -> Seq<int> {
        let c = self.crossings(buffer, buffer.len() as int);
        if self.defers(buffer) {
            c.drop_last()
        } else {
            c
        }
    }

    /// Whether rescanning every window would cost more than one pass over
    /// the buffer.
    pub open spec fn dense(self, buffer: Seq<Single>) -> bool {
        self.settled(buffer).len() * self.window > buffer.len()
    }

    /// Where the search from a crossing finds its maximum.
    pub open spec fn search(self, buffer: Seq<Single>, start: int) -> int {
        if self.dense(buffer) {
            window_max::window_peak(buffer, start, self.window as int)
        } else if start + self.window <= buffer.len() {
            window_max::first_max(buffer, start, start + self.window)
        } else {
            window_max::first_max(buffer, start, buffer.len() as int)
        }
    }

    /// The peak that completes a search left open by the buffer before.
    pub open spec fn completed(self, buffer: Seq<Single>) -> Seq<(int, Single)> {
        match self.pending {
            Some(p) if p.remaining <= buffer.len() => {
                let c = p.scanned(buffer, self.to_search(p.remaining) as int);
                seq![(c.rel, c.amp)]
            },
            _ => Seq::empty(),
        }
    }

    /// The peaks that a buffer yields, with positions relative to its start.
    pub open spec fn peaks(self, buffer: Seq<Single>) -> Seq<(int, Single)> {
        self.completed(buffer) + self.settled(buffer).map_values(
            |start: int| (self.search(buffer, start), buffer[self.search(buffer, start)]),
        )
    }

    /// The search window left open at the end of a buffer.
    pub open spec fn left_open(self, buffer: Seq<Single>) -> Option<PendingState> {
        let n = buffer.len() as int;
        if self.defers(buffer) {
            let start = self.crossings(buffer, n).last();
            let m = window_max::first_max(
                buffer,
                start,
                if start + self.window <= n {
                    start + self.window
                } else {
                    n
                },
            );
            Some(
                PendingState {
                    remaining: (start + self.reach() - n) as nat,
                    amp: buffer[m],
                    rel: m - n,
                },
            )
        } else {
            match self.pending {
                Some(p) if p.remaining > n => {
                    let rest = self.to_search(p.remaining) as int;
                    let c = p.scanned(
                        buffer,
                        if rest < n {
                            rest
                        } else {
                            n
                        },
                    );
                    Some(
                        PendingState {
                            remaining: (p.remaining - n) as nat,
                            amp: c.amp,
                            rel: c.rel - n,
                        },
                    )
                },
                _ => None,
            }
        }
    }

    /// The state after a buffer.
    pub open spec fn advanced(self, buffer: Seq<Single>) -> PeakState {
        PeakState {
            pending: self.left_open(buffer),
            ..self.after(buffer, buffer.len() as int)
        }
    }
}

impl PeakState {
    /// Crossings come in increasing order, and a crossing is a sample above
    /// the threshold.
    pub proof fn crossings_in_range(self, buffer: Seq<Single>, k: int)
        requires
            0 <= k <= buffer.len(),
        ensures
            self.crossings(buffer, k).len() <= k,
            forall|i: int|
                0 <= i < self.crossings(buffer, k).len() ==> 0 <= #[trigger] self.crossings(
                    buffer,
                    k,
                )[i] < k && !buffer[self.crossings(buffer, k)[i]].nan(),
            forall|i: int, j: int|
                0 <= i < j < self.crossings(buffer, k).len() ==> self.crossings(buffer, k)[i]
                    < self.crossings(buffer, k)[j],
        decreases k,
    {
        if k > 0 {
            self.crossings_in_range(buffer, k - 1);
        }
    }
}

/// Peaks with their positions moved by `by` samples.
pub open spec fn shifted(peaks: Seq<(int, Single)>, by: int) -> Seq<(int, Single)> {
    peaks.map_values(|p: (int, Single)| (p.0 + by, p.1))
}

pub open spec fn without_nan(s: Seq<Single>) -> bool {
    forall|i: int| 0 <= i < s.len() ==> !(#[trigger] s[i]).nan()
}

impl PeakState {
    /// The open window, if any, belongs to the last peak, and every sample
    /// since then has been searched.
    pub open spec fn contiguous(self) -> bool {
        match self.pending {
            Some(p) => 0 < p.remaining < self.reach() && self.since == self.reach()
                - p.remaining - 1,
            None => true,
        }
    }

    /// The dead time after a peak covers its search window and the context
    /// behind it.
    pub open spec fn dead_time_covers_window(self) -> bool {
        self.window > 0 && (self.reach() == 1 || self.reach() <= self.min_interval)
    }

    /// A whole buffer keeps the open window with the last peak.
    pub proof fn contiguous_is_kept(self, buffer: Seq<Single>)
        requires
            self.contiguous(),
            self.reach() <= usize::MAX,
        ensures
            self.advanced(buffer).contiguous(),
    {
        self.since_counts(buffer, buffer.len() as int);
        self.crossings_in_range(buffer, buffer.len() as int);
    }

    /// The count runs from the last crossing, or on from where it stood.
    proof fn since_counts(self, buffer: Seq<Single>, k: int)
        requires
            0 <= k <= buffer.len(),
        ensures
            ({
                let c = self.crossings(buffer, k);
                let count = if c.len() > 0 {
                    k - 1 - c.last()
                } else {
                    self.since + k
                };
                self.after(buffer, k).since == if count < usize::MAX {
                    count
                } else if c.len() == 0 && self.since > usize::MAX {
                    self.since as int
                } else {
                    usize::MAX as int
                }
            }),
            self.after(buffer, k).window == self.window,
            self.after(buffer, k).context == self.context,
            self.after(buffer, k).min_interval == self.min_interval,
            self.after(buffer, k).pending == self.pending,
            self.after(buffer, k).threshold == self.threshold,
        decreases k,
    {
        if k > 0 {
            self.since_counts(buffer, k - 1);
            self.crossings_in_range(buffer, k - 1);
        }
    }
}

impl PeakState {
    /// Edge detection does not look at the open window.
    proof fn after_ignores_pending(
        self,
        pending: Option<PendingState>,
        buffer: Seq<Single>,
        k: int,
    )
        requires
            0 <= k <= buffer.len(),
        ensures
            (PeakState { pending, ..self }).after(buffer, k) == (PeakState {
                pending,
                ..self.after(buffer, k)
            }),
            (PeakState { pending, ..self }).crossings(buffer, k) == self.crossings(buffer, k),
        decreases k,
    {
        if k > 0 {
            self.after_ignores_pending(pending, buffer, k - 1);
        }
    }

    proof fn after_prefix(self, a: Seq<Single>, b: Seq<Single>, k: int)
        requires
            0 <= k <= a.len(),
        ensures
            self.after(a + b, k) == self.after(a, k),
            self.crossings(a + b, k) == self.crossings(a, k),
        decreases k,
    {
        if k > 0 {
            self.after_prefix(a, b, k - 1);
        }
    }

    proof fn after_suffix(self, a: Seq<Single>, b: Seq<Single>, k: int)
        requires
            0 <= k <= b.len(),
        ensures
            self.after(a + b, a.len() + k) == self.after(a, a.len() as int).after(b, k),
            self.crossings(a + b, a.len() + k) == self.crossings(a, a.len() as int) + self.after(
                a,
                a.len() as int,
            ).crossings(b, k).map_values(|c: int| c + a.len()),
        decreases k,
    {
        let mid = self.after(a, a.len() as int);
        if k > 0 {
            self.after_suffix(a, b, k - 1);
            assert((a + b)[a.len() + k - 1] == b[k - 1]);
            assert(self.after(a + b, a.len() + k - 1) == mid.after(b, k - 1));
            assert(self.crossings(a + b, a.len() + k) =~= self.crossings(a, a.len() as int)
                + mid.crossings(b, k).map_values(|c: int| c + a.len()));
        } else {
            self.after_prefix(a, b, a.len() as int);
            assert(mid.crossings(b, 0).map_values(|c: int| c + a.len()) =~= Seq::empty());
            assert(self.crossings(a, a.len() as int) + Seq::<int>::empty() =~= self.crossings(
                a,
                a.len() as int,
            ));
        }
    }

    /// Without NaNs both search strategies find the first maximum.
    pub proof fn search_finds_first_max(self, buffer: Seq<Single>, start: int)
        requires
            without_nan(buffer),
            self.window > 0,
            0 <= start < buffer.len(),
        ensures
            self.search(buffer, start) == window_max::first_max(
                buffer,
                start,
                if start + self.window <= buffer.len() {
                    start + self.window
                } else {
                    buffer.len() as int
                },
            ),
    {
        let w = if self.window < buffer.len() {
            self.window as int
        } else {
            buffer.len() as int
        };
        if start + w <= buffer.len() {
            window_max::run_max_without_nan(buffer, start, start + w);
        } else {
            window_max::suffix_max_is_first_max(buffer, start);
        }
    }

    /// Two crossings are at least the dead time apart, and the first one
    /// keeps its distance from the peak before the buffer.
    proof fn crossings_keep_distance(self, buffer: Seq<Single>, k: int)
        requires
            0 <= k <= buffer.len(),
            self.min_interval <= usize::MAX,
            self.since <= usize::MAX,
        ensures
            forall|i: int, j: int|
                0 <= i < j < self.crossings(buffer, k).len() ==> self.crossings(buffer, k)[j]
                    - self.crossings(buffer, k)[i] >= self.min_interval,
            self.crossings(buffer, k).len() > 0 ==> self.since + self.crossings(buffer, k)[0] + 1
                >= self.min_interval,
        decreases k,
    {
        if k > 0 {
            self.crossings_keep_distance(buffer, k - 1);
            self.since_counts(buffer, k - 1);
            self.crossings_in_range(buffer, k - 1);
            let c = self.crossings(buffer, k);
            let earlier = self.crossings(buffer, k - 1);
            if c.len() > earlier.len() {
                assert forall|i: int, j: int| 0 <= i < j < c.len() implies c[j] - c[i]
                    >= self.min_interval by {
                    if j == earlier.len() {
                        assert(i < earlier.len() - 1 ==> earlier[i] < earlier.last());
                    }
                }
            }
        }
    }
}

impl PendingState {
    proof fn scanned_keeps_remaining(self, buffer: Seq<Single>, k: int)
        requires
            0 <= k <= buffer.len(),
        ensures
            self.scanned(buffer, k).remaining == self.remaining,
        decreases k,
    {
        if k > 0 {
            self.scanned_keeps_remaining(buffer, k - 1);
        }
    }

    proof fn scanned_prefix(self, a: Seq<Single>, b: Seq<Single>, k: int)
        requires
            0 <= k <= a.len(),
        ensures
            self.scanned(a + b, k) == self.scanned(a, k),
        decreases k,
    {
        if k > 0 {
            self.scanned_prefix(a, b, k - 1);
        }
    }

    /// Scanning on in the next buffer finds what scanning straight through
    /// finds.
    proof fn scanned_suffix(self, a: Seq<Single>, b: Seq<Single>, remaining: nat, k: int)
        requires
            0 <= k <= b.len(),
        ensures
            ({
                let whole = self.scanned(a + b, a.len() + k);
                let mid = self.scanned(a, a.len() as int);
                let split = PendingState {
                    remaining,
                    amp: mid.amp,
                    rel: mid.rel - a.len(),
                }.scanned(b, k);
                whole.amp == split.amp && whole.rel == split.rel + a.len()
            }),
        decreases k,
    {
        if k > 0 {
            self.scanned_suffix(a, b, remaining, k - 1);
            assert((a + b)[a.len() + k - 1] == b[k - 1]);
        } else {
            self.scanned_prefix(a, b, a.len() as int);
        }
    }
}

proof fn first_max_prefix(a: Seq<Single>, b: Seq<Single>, lo: int, hi: int)
    requires
        0 <= lo < hi <= a.len(),
    ensures
        window_max::first_max(a + b, lo, hi) == window_max::first_max(a, lo, hi),
        lo <= window_max::first_max(a, lo, hi) < hi,
    decreases hi - lo,
{
    if hi > lo + 1 {
        first_max_prefix(a, b, lo, hi - 1);
    }
}

proof fn first_max_suffix(a: Seq<Single>, b: Seq<Single>, lo: int, hi: int)
    requires
        0 <= lo < hi <= b.len(),
    ensures
        window_max::first_max(a + b, a.len() + lo, a.len() + hi) == a.len() + window_max::first_max(b, lo, hi),
        lo <= window_max::first_max(b, lo, hi) < hi,
    decreases hi - lo,
{
    if hi > lo + 1 {
        first_max_suffix(a, b, lo, hi - 1);
    }
}

/// A deferred search goes on as the search of one long buffer would: up to
/// `stop` in the first part, and `k` samples into the second one.
proof fn deferred_search_continues(
    a: Seq<Single>,
    b: Seq<Single>,
    start: int,
    stop: int,
    remaining: nat,
    k: int,
)
    requires
        0 <= start < stop <= a.len(),
        0 <= k <= b.len(),
        k == 0 || stop == a.len(),
    ensures
        ({
            let m = window_max::first_max(a, start, stop);
            let c = PendingState { remaining, amp: a[m], rel: m - a.len() }.scanned(b, k);
            let whole = window_max::first_max(a + b, start, stop + k);
            &&& c.rel + a.len() == whole
            &&& c.amp == (a + b)[whole]
            &&& start <= whole < stop + k
        }),
    decreases k,
{
    if k > 0 {
        deferred_search_continues(a, b, start, stop, remaining, k - 1);
        assert((a + b)[a.len() + k - 1] == b[k - 1]);
    } else {
        first_max_prefix(a, b, start, stop);
    }
}

impl PeakState {
    /// Where a signal is cut into buffers does not matter to the detector:
    /// after two buffers it is in the state in which it would be after one
    /// that holds both.
    pub proof fn split_keeps_state(self, a: Seq<Single>, b: Seq<Single>)
        requires
            self.contiguous(),
            self.dead_time_covers_window(),
            self.min_interval <= usize::MAX,
            self.since <= usize::MAX,
        ensures
            self.advanced(a).advanced(b) == self.advanced(a + b),
    {
        let n = a.len() as int;
        let m = b.len() as int;
        let s1 = self.advanced(a);
        let mid = self.after(a, n);
        let ca = self.crossings(a, n);
        let cb = s1.crossings(b, m);
        let c = self.crossings(a + b, n + m);
        self.since_counts(a, n);
        self.crossings_in_range(a, n);
        s1.crossings_in_range(b, m);
        self.crossings_keep_distance(a, n);
        self.crossings_keep_distance(a + b, n + m);
        self.after_suffix(a, b, m);
        mid.after_ignores_pending(s1.pending, b, m);
        s1.since_counts(b, m);
        assert(c == ca + cb.map_values(|x: int| x + n));
        if self.defers(a) {
            let start = ca.last();
            if cb.len() > 0 {
                assert(c[ca.len() as int] == cb[0] + n);
                assert(c[ca.len() - 1] == start);
                assert(c.last() == cb.last() + n);
                if s1.defers(b) {
                    first_max_suffix(
                        a,
                        b,
                        cb.last(),
                        if cb.last() + self.window <= m {
                            cb.last() + self.window
                        } else {
                            m
                        },
                    );
                }
            } else {
                assert(c =~= ca);
                let rest = self.to_search(s1.pending->0.remaining) as int;
                deferred_search_continues(
                    a,
                    b,
                    start,
                    if start + self.window <= n {
                        start + self.window
                    } else {
                        n
                    },
                    s1.pending->0.remaining,
                    if rest < m {
                        rest
                    } else {
                        m
                    },
                );
            }
        } else if cb.len() > 0 {
            assert(c.last() == cb.last() + n);
            if s1.defers(b) {
                first_max_suffix(
                        a,
                        b,
                        cb.last(),
                        if cb.last() + self.window <= m {
                            cb.last() + self.window
                        } else {
                            m
                        },
                    );
            }
            if self.pending is Some {
                assert(c[0] == if ca.len() > 0 { ca[0] } else { cb[0] + n });
            }
        } else {
            assert(c =~= ca);
            if self.pending is Some && self.pending->0.remaining > n {
                let p = self.pending->0;
                let rest = self.to_search(p.remaining) as int;
                if rest <= n {
                    p.scanned_prefix(a, b, rest);
                } else {
                    p.scanned_suffix(
                        a,
                        b,
                        (p.remaining - n) as nat,
                        if rest - n < m {
                            rest - n
                        } else {
                            m
                        },
                    );
                }
            }
        }
    }

    /// What a settled crossing contributes to the peaks of its buffer.
    pub open spec fn peak_at(self, buffer: Seq<Single>, start: int) -> (int, Single) {
        (self.search(buffer, start), buffer[self.search(buffer, start)])
    }

    /// A search that ends in the first part finds there what it finds in the
    /// whole.
    proof fn search_prefix(self, a: Seq<Single>, b: Seq<Single>, start: int)
        requires
            without_nan(a),
            without_nan(b),
            self.window > 0,
            0 <= start,
            start + self.window <= a.len(),
        ensures
            self.peak_at(a + b, start) == self.peak_at(a, start),
    {
        assert(without_nan(a + b));
        self.search_finds_first_max(a, start);
        self.search_finds_first_max(a + b, start);
        first_max_prefix(a, b, start, start + self.window);
    }

    /// A search in the second part finds there what it finds in the whole.
    proof fn search_suffix(self, other: PeakState, a: Seq<Single>, b: Seq<Single>, start: int)
        requires
            without_nan(a),
            without_nan(b),
            self.window > 0,
            other.window == self.window,
            0 <= start,
            start + self.window <= b.len(),
        ensures
            self.peak_at(a + b, start + a.len()) == (
                other.peak_at(b, start).0 + a.len(),
                other.peak_at(b, start).1,
            ),
    {
        assert(without_nan(a + b));
        other.search_finds_first_max(b, start);
        self.search_finds_first_max(a + b, start + a.len());
        first_max_suffix(a, b, start, start + self.window);
    }

    /// A search that settles ends inside its buffer.
    proof fn settled_fits(self, buffer: Seq<Single>)
        requires
            self.dead_time_covers_window(),
            self.min_interval <= usize::MAX,
            self.since <= usize::MAX,
        ensures
            forall|i: int|
                0 <= i < self.settled(buffer).len() ==> 0 <= #[trigger] self.settled(buffer)[i]
                    && self.settled(buffer)[i] + self.window <= buffer.len(),
    {
        let n = buffer.len() as int;
        let c = self.crossings(buffer, n);
        self.crossings_in_range(buffer, n);
        self.crossings_keep_distance(buffer, n);
        assert forall|i: int| 0 <= i < self.settled(buffer).len() implies 0
            <= #[trigger] self.settled(buffer)[i] && self.settled(buffer)[i] + self.window
            <= n by {
            assert(self.settled(buffer)[i] == c[i]);
            assert(i < c.len() - 1 ==> c[c.len() - 1] - c[i] >= self.min_interval);
        }
    }

    /// The crossing of the first part whose search settles in the second.
    spec fn settles_late(self, a: Seq<Single>, b: Seq<Single>) -> Seq<int> {
        if self.defers(a) && self.advanced(a).pending->0.remaining <= b.len() {
            seq![self.crossings(a, a.len() as int).last()]
        } else {
            Seq::empty()
        }
    }

    proof fn settled_split(self, a: Seq<Single>, b: Seq<Single>)
        requires
            self.dead_time_covers_window(),
            self.min_interval <= usize::MAX,
            self.since <= usize::MAX,
        ensures
            self.settled(a + b) == self.settled(a) + self.settles_late(a, b) + self.advanced(
                a,
            ).settled(b).map_values(|x: int| x + a.len()),
    {
        let n = a.len() as int;
        let m = b.len() as int;
        let s1 = self.advanced(a);
        let mid = self.after(a, n);
        let ca = self.crossings(a, n);
        let cb = s1.crossings(b, m);
        let c = self.crossings(a + b, n + m);
        self.since_counts(a, n);
        self.crossings_in_range(a, n);
        s1.crossings_in_range(b, m);
        self.crossings_keep_distance(a + b, n + m);
        self.after_suffix(a, b, m);
        mid.after_ignores_pending(s1.pending, b, m);
        assert(c == ca + cb.map_values(|x: int| x + n));
        if cb.len() > 0 {
            assert(c.last() == cb.last() + n);
            assert(c[ca.len() as int] == cb[0] + n);
            if ca.len() > 0 {
                assert(c[ca.len() - 1] == ca.last());
            }
        } else {
            assert(c =~= ca);
        }
        assert(self.settled(a + b) =~= self.settled(a) + self.settles_late(a, b) + s1.settled(
            b,
        ).map_values(|x: int| x + a.len()));
    }

    /// The searches left open before and between the parts.
    proof fn completed_split(self, a: Seq<Single>, b: Seq<Single>)
        requires
            self.contiguous(),
            self.dead_time_covers_window(),
            self.min_interval <= usize::MAX,
            self.since <= usize::MAX,
            without_nan(a),
            without_nan(b),
        ensures
            self.completed(a + b) + self.settled(a).map_values(
                |start: int| self.peak_at(a, start),
            ) + self.settles_late(a, b).map_values(|start: int| self.peak_at(a + b, start))
                == self.completed(a) + self.settled(a).map_values(
                |start: int| self.peak_at(a, start),
            ) + shifted(self.advanced(a).completed(b), a.len() as int),
    {
        let n = a.len() as int;
        let m = b.len() as int;
        let s1 = self.advanced(a);
        let ca = self.crossings(a, n);
        let xa = self.settled(a).map_values(|start: int| self.peak_at(a, start));
        let late = self.settles_late(a, b).map_values(
            |start: int| self.peak_at(a + b, start),
        );
        self.crossings_in_range(a, n);
        self.crossings_keep_distance(a, n);
        self.since_counts(a, n);
        if self.pending is Some {
            let p = self.pending->0;
            let rest = self.to_search(p.remaining) as int;
            if rest <= n {
                p.scanned_prefix(a, b, rest);
            } else if p.remaining <= n + m {
                p.scanned_suffix(a, b, (p.remaining - n) as nat, rest - n);
            }
        }
        if self.defers(a) {
            let start = ca.last();
            let rest = s1.pending->0.remaining;
            assert(ca[0] <= ca.last());
            if rest <= m {
                deferred_search_continues(
                    a,
                    b,
                    start,
                    if start + self.window <= n {
                        start + self.window
                    } else {
                        n
                    },
                    rest,
                    self.to_search(rest) as int,
                );
                assert(without_nan(a + b));
                self.search_finds_first_max(a + b, start);
            }
            assert(self.completed(a + b) =~= self.completed(a));
            assert(late =~= shifted(s1.completed(b), n));
        } else if self.pending is Some && self.pending->0.remaining > n {
            assert(xa.len() == 0);
            assert(late.len() == 0);
            assert(self.completed(a + b) =~= shifted(s1.completed(b), n));
        } else {
            assert(self.completed(a + b) =~= self.completed(a));
            assert(late =~= shifted(s1.completed(b), n));
        }
        assert(self.completed(a + b) + xa + late =~= self.completed(a) + xa + shifted(
            s1.completed(b),
            n,
        ));
    }

    /// Where a signal is cut into buffers does not matter to the peaks that
    /// are found: those of two buffers, one after the other, are those of one
    /// buffer that holds both. A NaN can end a search window early in one
    /// cut and not in the other.
    pub proof fn split_keeps_peaks(self, a: Seq<Single>, b: Seq<Single>)
        requires
            self.contiguous(),
            self.dead_time_covers_window(),
            self.min_interval <= usize::MAX,
            self.since <= usize::MAX,
            without_nan(a),
            without_nan(b),
        ensures
            self.peaks(a + b) == self.peaks(a) + shifted(
                self.advanced(a).peaks(b),
                a.len() as int,
            ),
    {
        let n = a.len() as int;
        let s1 = self.advanced(a);
        let sa = self.settled(a);
        let late = self.settles_late(a, b);
        let sb = s1.settled(b);
        let moved = sb.map_values(|x: int| x + n);
        let xa = sa.map_values(|start: int| self.peak_at(a, start));
        let xb = sb.map_values(|start: int| s1.peak_at(b, start));
        self.since_counts(a, n);
        self.settled_fits(a);
        s1.settled_fits(b);
        self.settled_split(a, b);
        self.completed_split(a, b);
        self.prefix_peaks(a, b, sa);
        self.suffix_peaks(s1, a, b, sb);
        assert(self.peaks(a) == self.completed(a) + xa);
        let whole = a + b;
        let at = |start: int| self.peak_at(whole, start);
        lemma_map_three(sa, late, moved, at);
        assert(self.peaks(whole) == self.completed(whole) + (sa + late + moved).map_values(at));
        lemma_shifted_concat(s1.completed(b), xb, n);
        assert(s1.peaks(b) == s1.completed(b) + xb);
        lemma_regroup(
            self.completed(whole),
            xa,
            late.map_values(at),
            shifted(xb, n),
            self.completed(a),
            shifted(s1.completed(b), n),
        );
    }

    proof fn prefix_peaks(self, a: Seq<Single>, b: Seq<Single>, starts: Seq<int>)
        requires
            without_nan(a),
            without_nan(b),
            self.window > 0,
            forall|i: int|
                0 <= i < starts.len() ==> 0 <= #[trigger] starts[i] && starts[i] + self.window
                    <= a.len(),
        ensures
            starts.map_values(|start: int| self.peak_at(a + b, start)) == starts.map_values(
                |start: int| self.peak_at(a, start),
            ),
    {
        let left = starts.map_values(|start: int| self.peak_at(a + b, start));
        let right = starts.map_values(|start: int| self.peak_at(a, start));
        assert forall|i: int| 0 <= i < starts.len() implies left[i] == right[i] by {
            self.search_prefix(a, b, starts[i]);
        }
        assert(left =~= right);
    }

    proof fn suffix_peaks(
        self,
        other: PeakState,
        a: Seq<Single>,
        b: Seq<Single>,
        starts: Seq<int>,
    )
        requires
            without_nan(a),
            without_nan(b),
            self.window > 0,
            other.window == self.window,
            forall|i: int|
                0 <= i < starts.len() ==> 0 <= #[trigger] starts[i] && starts[i] + self.window
                    <= b.len(),
        ensures
            starts.map_values(|x: int| x + a.len()).map_values(
                |start: int| self.peak_at(a + b, start),
            ) == shifted(
                starts.map_values(|start: int| other.peak_at(b, start)),
                a.len() as int,
            ),
    {
        let left = starts.map_values(|x: int| x + a.len()).map_values(
            |start: int| self.peak_at(a + b, start),
        );
        let right = shifted(
            starts.map_values(|start: int| other.peak_at(b, start)),
            a.len() as int,
        );
        assert forall|i: int| 0 <= i < starts.len() implies left[i] == right[i] by {
            self.search_suffix(other, a, b, starts[i]);
        }
        assert(left =~= right);
    }
}

proof fn lemma_map_three(
    x: Seq<int>,
    y: Seq<int>,
    z: Seq<int>,
    f: spec_fn(int) -> (int, Single),
)
    ensures
        (x + y + z).map_values(f) == x.map_values(f) + y.map_values(f) + z.map_values(f),
{
    assert((x + y + z).map_values(f) =~= x.map_values(f) + y.map_values(f) + z.map_values(f));
}

proof fn lemma_shifted_concat(x: Seq<(int, Single)>, y: Seq<(int, Single)>, by: int)
    ensures
        shifted(x + y, by) == shifted(x, by) + shifted(y, by),
{
    assert(shifted(x + y, by) =~= shifted(x, by) + shifted(y, by));
}

proof fn lemma_regroup<T>(c: Seq<T>, x: Seq<T>, l: Seq<T>, z: Seq<T>, d: Seq<T>, e: Seq<T>)
    requires
        c + x + l == d + x + e,
    ensures
        c + (x + l + z) == (d + x) + (e + z),
{
    assert(c + (x + l + z) =~= (c + x + l) + z);
    assert((d + x) + (e + z) =~= (d + x + e) + z);
}

proof fn lemma_dense(count: int, n: int, w: int)
    requires
        w > 0,
        n >= 0,
        count >= 0,
    ensures
        count * w > n <==> count > n / w,
{
    vstd::arithmetic::div_mod::lemma_fundamental_div_mod(n, w);
    vstd::arithmetic::div_mod::lemma_mod_bound(n, w);
    if count > n / w {
        assert(count * w >= (n / w + 1) * w) by (nonlinear_arith)
            requires
                count >= n / w + 1,
                w > 0,
        ;
        assert((n / w + 1) * w == w * (n / w) + w) by (nonlinear_arith);
    } else {
        assert(count * w <= w * (n / w)) by (nonlinear_arith)
            requires
                count <= n / w,
                w > 0,
        ;
    }
}

impl PeakState {
    /// The best sample of an open search is above the threshold, and lies
    /// between the last peak's crossing and the next buffer.
    pub open spec fn open_search_is_sound(self) -> bool {
        match self.pending {
            Some(p) => self.threshold.lt_spec(p.amp) && -(self.since + 1) <= p.rel < 0,
            None => true,
        }
    }

    proof fn crossings_are_above(self, buffer: Seq<Single>, k: int)
        requires
            0 <= k <= buffer.len(),
        ensures
            forall|i: int|
                0 <= i < self.crossings(buffer, k).len() ==> self.threshold.lt_spec(
                    buffer[#[trigger] self.crossings(buffer, k)[i]],
                ),
        decreases k,
    {
        if k > 0 {
            self.crossings_are_above(buffer, k - 1);
            self.since_counts(buffer, k - 1);
            self.crossings_in_range(buffer, k - 1);
        }
    }

    /// A whole buffer keeps the open search sound. A detector that has seen
    /// no sample has none.
    pub proof fn sound_search_is_kept(self, buffer: Seq<Single>)
        requires
            self.contiguous(),
            self.open_search_is_sound(),
            self.window > 0,
            self.reach() <= usize::MAX,
            without_nan(buffer),
        ensures
            self.advanced(buffer).open_search_is_sound(),
    {
        let n = buffer.len() as int;
        let c = self.crossings(buffer, n);
        self.since_counts(buffer, n);
        self.crossings_in_range(buffer, n);
        self.crossings_are_above(buffer, n);
        if self.defers(buffer) {
            let start = c.last();
            let stop = if start + self.window <= n {
                start + self.window
            } else {
                n
            };
            window_max::first_max_is_first_max(buffer, start, stop);
        } else if let Some(p) = self.pending {
            if p.remaining > n {
                let rest = self.to_search(p.remaining) as int;
                p.scanned_is_within(
                    buffer,
                    self.threshold,
                    if rest < n {
                        rest
                    } else {
                        n
                    },
                );
                if c.len() > 0 {
                    assert(c.last() + self.reach() <= n);
                }
            }
        }
    }

    /// The peaks of a buffer are above the threshold and come in order, each
    /// one further on than the one before it. None lies further back than the
    /// detector reaches, and one that lies in the buffer is a sample of it.
    pub proof fn peaks_come_in_order(self, buffer: Seq<Single>)
        requires
            self.contiguous(),
            self.open_search_is_sound(),
            self.dead_time_covers_window(),
            self.min_interval <= usize::MAX,
            self.since <= usize::MAX,
            without_nan(buffer),
        ensures
            forall|i: int|
                #![trigger self.peaks(buffer)[i]]
                0 <= i < self.peaks(buffer).len() ==> {
                    let (at, amp) = self.peaks(buffer)[i];
                    &&& -self.reach() < at < buffer.len()
                    &&& self.threshold.lt_spec(amp)
                    &&& at >= 0 ==> buffer[at] == amp
                },
            forall|i: int, j: int|
                #![trigger self.peaks(buffer)[i], self.peaks(buffer)[j]]
                0 <= i < j < self.peaks(buffer).len() ==> self.peaks(buffer)[i].0
                    < self.peaks(buffer)[j].0,
    {
        let n = buffer.len() as int;
        let c = self.crossings(buffer, n);
        let starts = self.settled(buffer);
        let first = self.completed(buffer);
        let all = self.peaks(buffer);
        self.crossings_in_range(buffer, n);
        self.crossings_are_above(buffer, n);
        self.crossings_keep_distance(buffer, n);
        self.settled_fits(buffer);
        if first.len() > 0 {
            let p = self.pending->0;
            p.scanned_is_within(
                buffer,
                self.threshold,
                self.to_search(p.remaining) as int,
            );
        }
        assert forall|k: int| 0 <= k < starts.len() implies {
            let at = self.search(buffer, #[trigger] starts[k]);
            &&& starts[k] == c[k]
            &&& starts[k] <= at < starts[k] + self.window
            &&& self.threshold.lt_spec(buffer[at])
        } by {
            self.search_finds_first_max(buffer, starts[k]);
            window_max::first_max_is_first_max(buffer, starts[k], starts[k] + self.window);
        }
        assert forall|i: int| #![trigger all[i]] 0 <= i < all.len() implies {
            let (at, amp) = all[i];
            &&& -self.reach() < at < n
            &&& self.threshold.lt_spec(amp)
            &&& at >= 0 ==> buffer[at] == amp
        } by {
            if i >= first.len() {
                assert(starts[i - first.len()] == c[i - first.len()]);
            }
        }
        assert forall|i: int, j: int| #![trigger all[i], all[j]] 0 <= i < j < all.len() implies all[i].0
            < all[j].0 by {
            let b = j - first.len();
            assert(starts[b] == c[b]);
            if i < first.len() {
                assert(c[0] <= c[b]);
            } else {
                let a = i - first.len();
                assert(starts[a] == c[a]);
                assert(c[b] - c[a] >= self.min_interval);
                assert(c[a] < c[b]);
            }
        }
    }
}

impl PeakState {
    /// The best sample of an open search lies no further back than the
    /// detector reaches.
    pub open spec fn open_search_is_in_reach(self) -> bool {
        match self.pending {
            Some(p) => 0 < p.remaining && p.remaining - self.reach() <= p.rel < 0,
            None => true,
        }
    }

    /// A whole buffer keeps the open search in reach.
    pub proof fn reach_is_kept(self, buffer: Seq<Single>)
        requires
            self.open_search_is_in_reach(),
            self.window > 0,
            without_nan(buffer),
        ensures
            self.advanced(buffer).open_search_is_in_reach(),
            self.advanced(buffer).reach() == self.reach(),
            self.advanced(buffer).window == self.window,
    {
        let n = buffer.len() as int;
        let c = self.crossings(buffer, n);
        self.since_counts(buffer, n);
        self.crossings_in_range(buffer, n);
        if self.defers(buffer) {
            let start = c.last();
            let stop = if start + self.window <= n {
                start + self.window
            } else {
                n
            };
            window_max::first_max_is_first_max(buffer, start, stop);
        } else if let Some(p) = self.pending {
            if p.remaining > n {
                let rest = self.to_search(p.remaining) as int;
                p.scanned_stays_in_range(
                    buffer,
                    if rest < n {
                        rest
                    } else {
                        n
                    },
                );
            }
        }
    }

    /// No peak lies further back than the detector reaches.
    pub proof fn peaks_are_in_reach(self, buffer: Seq<Single>)
        requires
            self.open_search_is_in_reach(),
            self.window > 0,
            without_nan(buffer),
        ensures
            forall|i: int|
                0 <= i < self.peaks(buffer).len() ==> -self.reach() < (#[trigger] self.peaks(
                    buffer,
                )[i]).0 < buffer.len(),
    {
        let n = buffer.len() as int;
        let c = self.crossings(buffer, n);
        let starts = self.settled(buffer);
        let first = self.completed(buffer);
        let all = self.peaks(buffer);
        self.crossings_in_range(buffer, n);
        if first.len() > 0 {
            let p = self.pending->0;
            p.scanned_stays_in_range(buffer, self.to_search(p.remaining) as int);
        }
        assert forall|i: int| 0 <= i < all.len() implies -self.reach() < (#[trigger] all[i]).0
            < n by {
            if i >= first.len() {
                let k = i - first.len();
                assert(starts[k] == c[k]);
                let start = c[k];
                self.search_finds_first_max(buffer, start);
                window_max::first_max_is_first_max(
                    buffer,
                    start,
                    if start + self.window <= n {
                        start + self.window
                    } else {
                        n
                    },
                );
            }
        }
    }
}

impl PendingState {
    proof fn scanned_stays_in_range(self, buffer: Seq<Single>, k: int)
        requires
            0 <= k <= buffer.len(),
            self.rel < 0,
        ensures
            self.rel <= self.scanned(buffer, k).rel,
            self.scanned(buffer, k).rel < k || self.scanned(buffer, k).rel == self.rel,
        decreases k,
    {
        if k > 0 {
            self.scanned_stays_in_range(buffer, k - 1);
        }
    }

    /// A search that goes on finds a sample at least as large, where it was or
    /// in what has been searched since.
    proof fn scanned_is_within(self, buffer: Seq<Single>, threshold: Single, k: int)
        requires
            0 <= k <= buffer.len(),
            threshold.lt_spec(self.amp),
            self.rel < 0,
        ensures
            threshold.lt_spec(self.scanned(buffer, k).amp),
            self.rel <= self.scanned(buffer, k).rel,
            self.scanned(buffer, k).rel < k || self.scanned(buffer, k).rel == self.rel,
            self.scanned(buffer, k).rel >= 0 ==> buffer[self.scanned(buffer, k).rel]
                == self.scanned(buffer, k).amp,
        decreases k,
    {
        if k > 0 {
            self.scanned_is_within(buffer, threshold, k - 1);
        }
    }
}

impl PendingState {
    /// The window after the first `k` samples of the next buffer, with
    /// positions relative to that buffer.
    pub open spec fn scanned(self, buffer: Seq<Single>, k: int) -> PendingState
        decreases k,
    {
        if k <= 0 {
            self
        } else {
            let p = self.scanned(buffer, k - 1);
            if p.amp.lt_spec(buffer[k - 1]) {
                PendingState { amp: buffer[k - 1], rel: k - 1, ..p }
            } else {
                p
            }
        }
    }
}

impl View for PendingPeak {
    type V = PendingState;

    closed spec fn view(&self) -> PendingState {
        PendingState { remaining: self.remaining as nat, amp: self.amp, rel: self.rel as int }
    }
}

impl View for PeakDetector {
    type V = PeakState;

    closed spec fn view(&self) -> PeakState {
        PeakState {
            threshold: self.threshold,
            min_interval: self.min_samples_between_peaks as nat,
            window: self.peak_search_window_samples as nat,
            context: self.trailing_context_samples as nat,
            since: self.samples_since_peak as nat,
            last: self.last_sample,
            above: self.above_threshold,
            pending: match self.pending_peak {
                Some(p) => Some(p@),
                None => None,
            },
        }
    }
}

/// Peaks as the detector returns them, with mathematical positions.
pub open spec fn peak_list(peaks: Seq<(isize, Single)>) -> Seq<(int, Single)> {
    peaks.map_values(|p: (isize, Single)| (p.0 as int, p.1))
}

impl PeakDetector {
    /// The search window is never empty, and an open window began within
    /// `window` samples.
    pub closed spec fn wf(&self) -> bool {
        &&& 0 < self.peak_search_window_samples <= MAX_WINDOW
        &&& self.trailing_context_samples <= MAX_WINDOW
        &&& match self.pending_peak {
            Some(p) => {
                let reach = self.peak_search_window_samples + self.trailing_context_samples;
                0 < p.remaining < reach && p.remaining - reach <= p.rel < 0
            },
            None => true,
        }
    }

    /// Create a new peak detector
    ///
    /// # Arguments
    /// * `threshold` - Amplitude threshold for peak detection (0-1 range)
    /// * `min_interval_samples` - Minimum samples between detected peaks
    pub fn new(threshold: Single, min_interval_samples: usize) -> (d: PeakDetector)
        ensures
            d.wf(),
            d@ == fresh(threshold, min_interval_samples as nat, min_interval_samples as nat),
    {
        Self::with_peak_search_window(threshold, min_interval_samples, min_interval_samples)
    }

    /// Create a peak detector with an explicit peak search window.
    ///
    /// `peak_search_window_samples` controls how far after a threshold crossing
    /// the detector searches for the local peak index.
    pub fn with_peak_search_window(
        threshold: Single,
        min_interval_samples: usize,
        peak_search_window_samples: usize,
    ) -> (d: PeakDetector)
        ensures
            d.wf(),
            d@ == fresh(
                threshold,
                min_interval_samples as nat,
                peak_search_window_samples as nat,
            ),
    {
        PeakDetector {
            threshold,
            min_samples_between_peaks: min_interval_samples,
            peak_search_window_samples: if peak_search_window_samples == 0 {
                1
            } else if peak_search_window_samples > MAX_WINDOW {
                MAX_WINDOW
            } else {
                peak_search_window_samples
            },
            trailing_context_samples: 0,
            // Allow immediate first peak
            samples_since_peak: min_interval_samples,
            last_sample: Single::zero(),
            above_threshold: false,
            pending_peak: None,
        }
    }

    /// Hold a crossing until this many samples behind its search window have
    /// been seen, so that what follows the peak is there when it is reported.
    pub fn set_trailing_context(&mut self, samples: usize)
        requires
            old(self).wf(),
            old(self)@.pending is None,
        ensures
            final(self).wf(),
            final(self)@ == old(self)@.with_context(samples as nat),
    {
        self.trailing_context_samples = if samples > MAX_WINDOW {
            MAX_WINDOW
        } else {
            samples
        };
    }

    /// The threshold that a peak has to cross.
    pub fn threshold(&self) -> (t: Single)
        ensures
            t == self@.threshold,
    {
        self.threshold
    }

    /// Give up the search that is still open, if any, and report the best
    /// sample so far, relative to where the next buffer would start.
    pub fn flush(&mut self) -> (peak: Option<(isize, Single)>)
        requires
            old(self).wf(),
        ensures
            final(self).wf(),
            final(self)@ == (PeakState { pending: None, ..old(self)@ }),
            match (peak, old(self)@.pending) {
                (Some(p), Some(q)) => p.0 == q.rel && p.1 == q.amp,
                (None, None) => true,
                _ => false,
            },
    {
        match self.pending_peak.take() {
            Some(p) => Some((p.rel, p.amp)),
            None => None,
        }
    }

    /// Forget the signal so far, and an open search with it: what comes next
    /// does not adjoin it. The dead time after the last peak is over.
    pub fn reset_continuity(&mut self)
        requires
            old(self).wf(),
        ensures
            final(self).wf(),
            final(self)@ == (PeakState {
                since: old(self)@.min_interval,
                last: Single { bits: 0 },
                above: false,
                pending: None,
                ..old(self)@
            }),
    {
        self.samples_since_peak = self.min_samples_between_peaks;
        self.last_sample = Single::zero();
        self.above_threshold = false;
        self.pending_peak = None;
    }

    /// Detect a peak in the next sample
    ///
    /// Returns `true` if a rising-edge threshold crossing is detected and
    /// sufficient time has elapsed since the last peak.
    ///
    /// # Arguments
    /// * `sample` - The next audio sample to process
    pub fn detect_peak(&mut self, sample: Single) -> (fired: bool)
        ensures
            fired == old(self)@.fires(sample),
            final(self)@ == old(self)@.step(sample),
            final(self).wf() == old(self).wf(),
    {
        if self.samples_since_peak < usize::MAX {
            self.samples_since_peak = self.samples_since_peak + 1;
        }
        // Detect rising edge crossing threshold
        let crossed_threshold: bool = !self.above_threshold && self.last_sample.at_most(
            self.threshold,
        ) && sample.above(self.threshold) && self.samples_since_peak
            >= self.min_samples_between_peaks;

        // Track whether we're above threshold
        self.above_threshold = sample.above(self.threshold);
        self.last_sample = sample;

        if crossed_threshold {
            self.samples_since_peak = 0;
        }
        crossed_threshold
    }

    /// Find all peaks in a buffer
    ///
    /// Returns a vector of (sample_index, peak_amplitude) pairs. The index
    /// and amplitude correspond to the maximum positive value in a window
    /// after the threshold crossing. When a crossing lands near the end of
    /// a buffer its window completes in the next call, and the peak is then
    /// reported with an index relative to that call's buffer: negative
    /// (bounded by the window length) if the maximum lay in the earlier
    /// buffer.
    ///
    /// # Arguments
    /// * `buffer` - Audio samples to process
    #[verifier::spinoff_prover]
    #[verifier::rlimit(60)]
    pub fn find_all_peaks(&mut self, buffer: &[Single]) -> (peaks: Vec<(isize, Single)>)
        requires
            old(self).wf(),
            buffer.len() <= isize::MAX,
        ensures
            final(self).wf(),
            final(self)@ == old(self)@.advanced(buffer@),
            peak_list(peaks@) == old(self)@.peaks(buffer@),
    {
        let n: usize = buffer.len();
        let w: usize = self.peak_search_window_samples;
        let context: usize = self.trailing_context_samples;
        let reach: usize = w + context;
        let ghost start_state = self@;
        let mut peaks: Vec<(isize, Single)> = Vec::new();

        // Complete a window that spanned the previous buffer boundary.
        let pending: Option<PendingPeak> = self.pending_peak.take();
        if let Some(p) = pending {
            let mut pending: PendingPeak = p;
            let rest: usize = if pending.remaining > context {
                pending.remaining - context
            } else {
                0
            };
            let limit: usize = if rest < n {
                rest
            } else {
                n
            };
            let mut i: usize = 0;
            while i < limit
                invariant
                    i <= limit <= n,
                    n == buffer.len(),
                    n <= isize::MAX,
                    reach <= isize::MAX,
                    0 < p.remaining < reach,
                    p.remaining - reach <= p.rel < 0,
                    pending.remaining == p.remaining,
                    p.rel <= pending.rel < i || pending.rel == p.rel,
                    pending@ == p@.scanned(buffer@, i as int),
                decreases limit - i,
            {
                if buffer[i].above(pending.amp) {
                    pending.amp = buffer[i];
                    pending.rel = i as isize;
                }
                i = i + 1;
            }
            if pending.remaining > n {
                pending.remaining = pending.remaining - n;
                pending.rel = pending.rel - n as isize;
                self.pending_peak = Some(pending);
            } else {
                peaks.push((pending.rel, pending.amp));
            }
        }
        let ghost carried = self@.pending;
        assert(peak_list(peaks@) =~= start_state.completed(buffer@));

        let mut crossings: Vec<usize> = Vec::new();
        let mut i: usize = 0;
        while i < n
            invariant
                i <= n,
                n == buffer.len(),
                self.wf(),
                self.peak_search_window_samples == w,
                self.trailing_context_samples == context,
                self@ == (PeakState { pending: carried, ..start_state.after(buffer@, i as int) }),
                crossings@.map_values(|c: usize| c as int) == start_state.crossings(
                    buffer@,
                    i as int,
                ),
            decreases n - i,
        {
            let ghost before = crossings@;
            if self.detect_peak(buffer[i]) {
                crossings.push(i);
                assert(crossings@.map_values(|c: usize| c as int) =~= before.map_values(
                    |c: usize| c as int,
                ).push(i as int));
            }
            i = i + 1;
        }
        proof {
            start_state.crossings_in_range(buffer@, n as int);
        }
        let ghost all = start_state.crossings(buffer@, n as int);
        assert forall|k: int| 0 <= k < crossings.len() implies crossings[k] < n
            && #[trigger] crossings[k] == all[k] by {
            assert(all[k] == crossings@.map_values(|c: usize| c as int)[k]);
        }

        // A crossing whose window extends past the buffer is deferred.
        if crossings.len() > 0 && reach > n - crossings[crossings.len() - 1] {
            let start: usize = crossings[crossings.len() - 1];
            crossings.pop();
            let end: usize = if w <= n - start {
                start + w
            } else {
                n
            };
            let best: usize = window_max::scan_first_max(buffer, start, end);
            self.pending_peak = Some(
                PendingPeak {
                    remaining: reach - (n - start),
                    amp: buffer[best],
                    rel: best as isize - n as isize,
                },
            );
            assert(start_state.defers(buffer@));
        }
        assert(crossings@.map_values(|c: usize| c as int) =~= start_state.settled(buffer@));
        assert(self@ == start_state.advanced(buffer@));

        let ghost first = peaks@;
        let count: usize = crossings.len();
        assert(start_state.dense(buffer@) <==> count * w > n);
        let dense: bool = count > n / w;
        proof {
            lemma_dense(count as int, n as int, w as int);
        }
        let maxima: Vec<usize> = if dense {
            window_max::window_max_indices(buffer, w)
        } else {
            Vec::new()
        };
        let mut k: usize = 0;
        while k < count
            invariant
                k <= count == crossings.len(),
                n == buffer.len(),
                n <= isize::MAX,
                w > 0,
                w == start_state.window,
                dense == start_state.dense(buffer@),
                dense ==> maxima.len() == n,
                dense ==> forall|start: int|
                    #![trigger maxima[start]]
                    0 <= start < n ==> maxima[start] == window_max::window_peak(buffer@, start, w as int)
                        && maxima[start] < n,
                forall|j: int| 0 <= j < count ==> #[trigger] crossings[j] < n,
                peaks.len() == first.len() + k,
                forall|j: int| 0 <= j < first.len() ==> peaks[j] == first[j],
                forall|j: int|
                    0 <= j < k ==> {
                        let m = start_state.search(buffer@, crossings[j] as int);
                        (#[trigger] peaks[first.len() + j]).0 == m && peaks[first.len() + j].1
                            == buffer@[m]
                    },
            decreases count - k,
        {
            let start: usize = crossings[k];
            let best: usize = if dense {
                maxima[start]
            } else if w <= n - start {
                window_max::scan_first_max(buffer, start, start + w)
            } else {
                window_max::scan_first_max(buffer, start, n)
            };
            peaks.push((best as isize, buffer[best]));
            k = k + 1;
        }
        proof {
            let expected = start_state.peaks(buffer@);
            let settled = start_state.settled(buffer@);
            assert(peak_list(peaks@) =~= expected) by {
                assert forall|j: int| 0 <= j < peaks.len() implies peak_list(peaks@)[j]
                    == expected[j] by {
                    if j >= first.len() {
                        let q = j - first.len();
                        assert(settled[q] == crossings[q]);
                        assert(peaks[first.len() + q].0 == start_state.search(
                            buffer@,
                            crossings[q] as int,
                        ));
                    } else {
                        assert(peak_list(first)[j] == start_state.completed(buffer@)[j]);
                    }
                }
            }
        }
        peaks
    }
}

} // verus!
