//! Positions of window maxima.
use crate::single::Single;
use vstd::prelude::*;

verus! {

/// The position of the largest value in `[lo, hi)`, the first one where it
/// occurs more than once. NaNs are passed over; an interval that starts with
/// one answers `lo`.
pub open spec fn first_max(s: Seq<Single>, lo: int, hi: int) -> int
    decreases hi - lo,
{
    if hi <= lo + 1 {
        lo
    } else {
        let m = first_max(s, lo, hi - 1);
        if s[m].lt_spec(s[hi - 1]) {
            hi - 1
        } else {
            m
        }
    }
}

/// The position of the first NaN in `[lo, hi)`, or `hi`.
pub open spec fn run_end(s: Seq<Single>, lo: int, hi: int) -> int
    decreases hi - lo,
{
    if hi <= lo {
        hi
    } else {
        let e = run_end(s, lo, hi - 1);
        if e < hi - 1 || s[hi - 1].nan() {
            e
        } else {
            hi
        }
    }
}

/// The position of the largest value in `[lo, hi)` ahead of the first NaN.
pub open spec fn run_max(s: Seq<Single>, lo: int, hi: int) -> int {
    first_max(s, lo, run_end(s, lo, hi))
}

/// Where the largest value in `[lo, hi)` is first reached, among the values
/// that are not NaN.
pub open spec fn is_first_max(s: Seq<Single>, lo: int, hi: int, m: int) -> bool {
    &&& lo <= m < hi
    &&& !s[m].nan()
    &&& forall|j: int| lo <= j < hi && !s[j].nan() ==> (#[trigger] s[j]).rank() <= s[m].rank()
    &&& forall|j: int| lo <= j < m && !s[j].nan() ==> (#[trigger] s[j]).rank() < s[m].rank()
}

/// `first_max` finds the first maximum.
pub proof fn first_max_is_first_max(s: Seq<Single>, lo: int, hi: int)
    requires
        0 <= lo < hi <= s.len(),
        !s[lo].nan(),
    ensures
        is_first_max(s, lo, hi, first_max(s, lo, hi)),
    decreases hi - lo,
{
    if hi > lo + 1 {
        first_max_is_first_max(s, lo, hi - 1);
    }
}

/// The first maximum is unique.
pub proof fn first_max_unique(s: Seq<Single>, lo: int, hi: int, a: int, b: int)
    requires
        is_first_max(s, lo, hi, a),
        is_first_max(s, lo, hi, b),
    ensures
        a == b,
{
    assert(s[a].rank() <= s[b].rank());
    assert(s[b].rank() <= s[a].rank());
}

proof fn run_end_range(s: Seq<Single>, lo: int, hi: int)
    requires
        lo <= hi,
    ensures
        lo <= run_end(s, lo, hi) <= hi,
        forall|j: int| lo <= j < run_end(s, lo, hi) ==> !(#[trigger] s[j]).nan(),
        run_end(s, lo, hi) < hi ==> s[run_end(s, lo, hi)].nan(),
    decreases hi - lo,
{
    if lo < hi {
        run_end_range(s, lo, hi - 1);
    }
}

/// In an interval without a NaN the run is the whole interval.
pub proof fn run_max_without_nan(s: Seq<Single>, lo: int, hi: int)
    requires
        lo <= hi,
        forall|j: int| lo <= j < hi ==> !(#[trigger] s[j]).nan(),
    ensures
        run_max(s, lo, hi) == first_max(s, lo, hi),
{
    run_end_range(s, lo, hi);
}

/// Each entry of the deque is the run maximum of every interval that starts
/// behind the entry before it and ends ahead of `end`.
spec fn deque_covers(s: Seq<Single>, dq: Seq<usize>, head: int, low: int, end: int) -> bool {
    &&& 0 <= head <= dq.len()
    &&& forall|a: int, b: int| head <= a < b < dq.len() ==> dq[a] < dq[b]
    &&& forall|k: int| head <= k < dq.len() ==> #[trigger] dq[k] < end
    &&& forall|k: int, lo: int|
        #![trigger dq[k], run_max(s, lo, end)]
        head <= k < dq.len() && low <= lo <= dq[k] && (k > head ==> dq[k - 1] < lo) ==> dq[k]
            == run_max(s, lo, end)
}

/// The first entry that is not below `lo`.
proof fn covering_entry(dq: Seq<usize>, head: int, lo: int) -> (k: int)
    requires
        0 <= head < dq.len(),
        lo <= dq[dq.len() - 1],
    ensures
        head <= k < dq.len(),
        lo <= dq[k],
        k > head ==> dq[k - 1] < lo,
    decreases dq.len(),
{
    if head + 1 < dq.len() && lo <= dq[dq.len() - 2] {
        covering_entry(dq.drop_last(), head, lo)
    } else {
        dq.len() - 1
    }
}

/// What happens to the deque when the entries below the next value have left
/// it at the back and the next value has joined.
#[verifier::spinoff_prover]
#[verifier::rlimit(60)]
proof fn deque_extends(s: Seq<Single>, dq: Seq<usize>, head: int, low: int, i: int, keep: int)
    requires
        deque_covers(s, dq, head, low, i),
        0 <= low <= i < s.len(),
        i <= usize::MAX,
        head <= keep <= dq.len(),
        low < i ==> head < dq.len() && dq[dq.len() - 1] == i - 1,
        forall|k: int| keep <= k < dq.len() ==> s[#[trigger] dq[k] as int].lt_spec(s[i]),
        keep > head ==> !s[dq[keep - 1] as int].lt_spec(s[i]),
    ensures
        deque_covers(s, dq.take(keep).push(i as usize), head, low, i + 1),
{
    let next = dq.take(keep).push(i as usize);
    assert forall|k: int, lo: int|
        #![trigger next[k], run_max(s, lo, i + 1)]
        head <= k < next.len() && low <= lo <= next[k] && (k > head ==> next[k - 1]
            < lo) implies next[k] == run_max(s, lo, i + 1) by {
        run_end_range(s, lo, i);
        run_end_range(s, lo, i + 1);
        let e = run_end(s, lo, i);
        if k < keep {
            assert(next[k] == dq[k]);
            if k > head {
                assert(next[k - 1] == dq[k - 1]);
            }
            assert(dq[k] == run_max(s, lo, i));
            if e < i || s[i].nan() {
                assert(run_end(s, lo, i + 1) == e);
            } else {
                assert(run_end(s, lo, i + 1) == i + 1);
                first_max_is_first_max(s, lo, i);
                let top = dq[keep - 1] as int;
                assert(k < keep - 1 ==> dq[k] < dq[keep - 1]);
                assert(s[top].rank() <= s[dq[k] as int].rank());
                assert(!s[dq[k] as int].lt_spec(s[i]));
            }
        } else {
            if keep > head {
                assert(next[k - 1] == dq[keep - 1]);
            }
            if lo < i {
                let c = covering_entry(dq, head, lo);
                assert(c >= keep) by {
                    if c < keep {
                        assert(c < keep - 1 ==> dq[c] < dq[keep - 1]);
                        assert(dq[keep - 1] < lo);
                    }
                }
                assert(dq[c] == run_max(s, lo, i));
                if e < i {
                    let n = covering_entry(dq, head, e);
                    run_end_range(s, e, i);
                    assert(dq[n] == run_max(s, e, i));
                    assert(run_end(s, e, i) == e);
                    assert(first_max(s, e, e) == e);
                    assert(n >= c) by {
                        if n < c {
                            assert(n < c - 1 ==> dq[n] < dq[c - 1]);
                            assert(dq[c - 1] < lo);
                        }
                    }
                    assert(s[dq[n] as int].lt_spec(s[i]));
                    assert(false);
                }
                assert(s[dq[c] as int].lt_spec(s[i]));
                assert(run_end(s, lo, i + 1) == i + 1);
            } else {
                assert(lo == i);
                assert(run_end(s, i, i) == i);
                assert(run_max(s, i, i + 1) == i);
            }
        }
    }
}

/// The position of the first maximum of `[lo, hi)`, found by scanning it.
pub fn scan_first_max(buffer: &[Single], lo: usize, hi: usize) -> (m: usize)
    requires
        lo < hi <= buffer.len(),
    ensures
        m == first_max(buffer@, lo as int, hi as int),
        lo <= m < hi,
{
    let mut m: usize = lo;
    let mut i: usize = lo + 1;
    while i < hi
        invariant
            lo < i <= hi <= buffer.len(),
            lo <= m < i,
            m == first_max(buffer@, lo as int, i as int),
        decreases hi - i,
    {
        if buffer[i].above(buffer[m]) {
            m = i;
        }
        i = i + 1;
    }
    m
}

/// The position that each suffix `[start, len)` of a buffer reports: built
/// from the back, where the earlier of two equal values wins. A NaN in the
/// last place is never displaced.
pub open spec fn suffix_max(s: Seq<Single>, start: int) -> int
    decreases s.len() - start,
{
    if start + 1 >= s.len() {
        s.len() - 1
    } else {
        let next = suffix_max(s, start + 1);
        if s[next].le_spec(s[start]) {
            start
        } else {
            next
        }
    }
}

/// The suffix maximum is the first maximum, unless the buffer ends in a NaN:
/// then it is the last position.
pub proof fn suffix_max_is_first_max(s: Seq<Single>, start: int)
    requires
        0 <= start < s.len(),
    ensures
        s.last().nan() ==> suffix_max(s, start) == s.len() - 1,
        !s.last().nan() ==> is_first_max(s, start, s.len() as int, suffix_max(s, start)),
        !s.last().nan() && !s[start].nan() ==> suffix_max(s, start) == first_max(
            s,
            start,
            s.len() as int,
        ),
    decreases s.len() - start,
{
    if start + 1 < s.len() {
        suffix_max_is_first_max(s, start + 1);
    }
    if !s.last().nan() && !s[start].nan() {
        first_max_is_first_max(s, start, s.len() as int);
        first_max_unique(
            s,
            start,
            s.len() as int,
            suffix_max(s, start),
            first_max(s, start, s.len() as int),
        );
    }
}

/// For every start the position of the maximum of the next `window` values,
/// in time linear in the buffer. Windows that reach past the end are cut off
/// there.
pub fn window_max_indices(buffer: &[Single], window: usize) -> (maxima: Vec<usize>)
    requires
        window > 0,
    ensures
        maxima.len() == buffer.len(),
        forall|start: int|
            #![trigger maxima[start]]
            0 <= start < buffer.len() ==> maxima[start] == window_peak(
                buffer@,
                start,
                window as int,
            ) && start <= maxima[start] < buffer.len(),
{
    let n: usize = buffer.len();
    let mut maxima: Vec<usize> = Vec::new();
    maxima.resize(n, 0);
    if n == 0 {
        return maxima;
    }
    let w: usize = if window < n {
        window
    } else {
        n
    };

    let mut deque: Vec<usize> = Vec::new();
    let mut head: usize = 0;
    let mut i: usize = 0;
    while i < n
        invariant
            n == buffer.len(),
            0 < w <= n,
            i <= n,
            maxima.len() == n,
            deque_covers(
                buffer@,
                deque@,
                head as int,
                (if i > w { i - w } else { 0 }),
                i as int,
            ),
            i > 0 ==> head < deque.len() && deque[deque.len() - 1] == i - 1,
            forall|start: int|
                #![trigger maxima[start]]
                0 <= start && start + w <= i ==> maxima[start] == run_max(
                    buffer@,
                    start,
                    start + w,
                ) && start <= maxima[start] < buffer.len(),
        decreases n - i,
    {
        let low: usize = if i + 1 > w {
            i + 1 - w
        } else {
            0
        };
        while head < deque.len() && deque[head] < low
            invariant
                deque_covers(buffer@, deque@, head as int, low as int, i as int),
                i > 0 ==> deque.len() > 0 && deque[deque.len() - 1] == i - 1,
                low < i ==> head < deque.len(),
            decreases deque.len() - head,
        {
            head = head + 1;
        }
        let ghost full = deque@;
        while deque.len() > head && buffer[deque[deque.len() - 1]].less_than(buffer[i])
            invariant
                n == buffer.len(),
                i < n,
                head <= deque.len() <= full.len(),
                deque@ == full.take(deque.len() as int),
                forall|k: int| head <= k < full.len() ==> full[k] < n,
                forall|k: int|
                    deque.len() <= k < full.len() ==> buffer@[#[trigger] full[k] as int].lt_spec(
                        buffer@[i as int],
                    ),
            decreases deque.len(),
        {
            let ghost before = deque@;
            deque.pop();
            assert(deque@ =~= full.take(deque.len() as int));
        }
        proof {
            deque_extends(
                buffer@,
                full,
                head as int,
                low as int,
                i as int,
                deque.len() as int,
            );
        }
        deque.push(i);
        if i + 1 >= w {
            let start: usize = i + 1 - w;
            proof {
                run_end_range(buffer@, start as int, i + 1);
                assert(deque[head as int] == run_max(buffer@, start as int, i + 1));
            }
            maxima.set(start, deque[head]);
        }
        i = i + 1;
    }

    let mut best: usize = n - 1;
    let mut start: usize = n - 1;
    let limit: usize = n - w;
    while start > limit
        invariant
            n == buffer.len(),
            0 < w <= n,
            limit == n - w,
            limit <= start < n,
            maxima.len() == n,
            best == suffix_max(buffer@, start as int),
            start <= best < n,
            forall|k: int|
                #![trigger maxima[k]]
                0 <= k <= limit ==> maxima[k] == run_max(buffer@, k, k + w) && k <= maxima[k]
                    < buffer.len(),
            forall|k: int|
                #![trigger maxima[k]]
                start < k < n ==> maxima[k] == suffix_max(buffer@, k) && k <= maxima[k]
                    < buffer.len(),
        decreases start,
    {
        maxima.set(start, best);
        start = start - 1;
        if buffer[start].at_least(buffer[best]) {
            best = start;
        }
    }
    maxima
}

/// What a window of `window` values from `start` reports in the linear-time
/// search. A window that fits is cut at its first NaN; one that does not runs
/// to the end of the buffer.
pub open spec fn window_peak(s: Seq<Single>, start: int, window: int) -> int {
    let w = if window < s.len() {
        window
    } else {
        s.len() as int
    };
    if start + w <= s.len() {
        run_max(s, start, start + w)
    } else {
        suffix_max(s, start)
    }
}

} // verus!
