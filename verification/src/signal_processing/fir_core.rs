//! Core FIR filter implementation shared by bandpass and highpass filters.
use crate::double::Double;
use crate::single::Single;
use vstd::prelude::*;

verus! {

/// Core FIR filter implementation shared by bandpass and highpass filters
///
/// Contains the delay line, tap coefficients, and convolution logic. How the
/// coefficients are designed is up to the filter that wraps it.
pub struct FirFilterCore {
    taps: Vec<Double>,
    delay_line: Vec<Double>,
    pos: usize,
}

/// The products of the first `k` taps and the `k` newest samples, added up
/// from the newest sample back.
pub open spec fn convolution(taps: Seq<Double>, newest_first: Seq<Double>, k: int) -> Double
    decreases k,
{
    if k <= 0 {
        Double { bits: 0 }
    } else {
        convolution(taps, newest_first, k - 1).plus_spec(
            taps[k - 1].times_spec(newest_first[k - 1]),
        )
    }
}

/// The newest samples once one more has arrived.
pub open spec fn shifted_in(newest_first: Seq<Double>, sample: Single) -> Seq<Double> {
    seq![Double::from_single_spec(sample)] + newest_first.drop_last()
}

/// The newest samples after the first `k` samples of a buffer.
pub open spec fn history_after(start: Seq<Double>, buffer: Seq<Single>, k: int) -> Seq<Double>
    decreases k,
{
    if k <= 0 {
        start
    } else {
        shifted_in(history_after(start, buffer, k - 1), buffer[k - 1])
    }
}

/// What a filter makes of a buffer: at each sample the convolution of its
/// coefficients with the newest samples.
pub open spec fn filtered(
    taps: Seq<Double>,
    start: Seq<Double>,
    buffer: Seq<Single>,
) -> Seq<Single> {
    Seq::new(
        buffer.len(),
        |i: int|
            convolution(
                taps,
                history_after(start, buffer, i + 1),
                taps.len() as int,
            ).to_single_spec(),
    )
}

impl FirFilterCore {
    pub closed spec fn wf(&self) -> bool {
        self.taps.len() == self.delay_line.len() && self.pos < self.taps.len()
    }

    pub closed spec fn coefficients(&self) -> Seq<Double> {
        self.taps@
    }

    /// The samples in the delay line, the newest first.
    pub closed spec fn history(&self) -> Seq<Double> {
        Seq::new(
            self.taps@.len(),
            |i: int|
                if i < self.pos {
                    self.delay_line@[self.pos - 1 - i]
                } else {
                    self.delay_line@[self.taps@.len() + self.pos - 1 - i]
                },
        )
    }

    /// Create a new FIR filter core with the given tap coefficients
    pub fn new(taps: Vec<Double>) -> (f: FirFilterCore)
        requires
            taps.len() > 0,
        ensures
            f.wf(),
            f.coefficients() == taps@,
            f.history() == Seq::new(taps@.len(), |i: int| Double { bits: 0 }),
    {
        let n: usize = taps.len();
        let mut delay_line: Vec<Double> = Vec::new();
        let mut i: usize = 0;
        while i < n
            invariant
                i <= n,
                delay_line.len() == i,
                forall|j: int| 0 <= j < i ==> (#[trigger] delay_line[j]).bits == 0,
            decreases n - i,
        {
            delay_line.push(Double::zero());
            i = i + 1;
        }
        let f: FirFilterCore = FirFilterCore { taps, delay_line, pos: 0 };
        assert(f.history() =~= Seq::new(taps@.len(), |i: int| Double { bits: 0 }));
        f
    }

    /// Process a single sample through the filter
    pub fn process(&mut self, sample: Single) -> (output: Single)
        requires
            old(self).wf(),
        ensures
            final(self).wf(),
            final(self).coefficients() == old(self).coefficients(),
            final(self).history() == shifted_in(old(self).history(), sample),
            output == convolution(
                old(self).coefficients(),
                final(self).history(),
                old(self).coefficients().len() as int,
            ).to_single_spec(),
    {
        let n: usize = self.taps.len();
        let ghost before = self.history();
        self.delay_line.set(self.pos, Double::from_single(sample));
        let ghost line = self.delay_line@;
        let ghost now = shifted_in(before, sample);
        assert forall|i: int| 0 <= i < n implies now[i] == if i <= self.pos {
            line[self.pos - i]
        } else {
            line[n + self.pos - i]
        } by {
            if i > 0 {
                assert(now[i] == before[i - 1]);
            }
        }

        // Walk the ring in two contiguous reverse ranges.
        let mut output: Double = Double::zero();
        let mut tap_i: usize = 0;
        while tap_i < n
            invariant
                tap_i <= n,
                n == self.taps.len(),
                n == self.delay_line.len(),
                self.pos < n,
                self.delay_line@ == line,
                forall|i: int|
                    0 <= i < n ==> #[trigger] now[i] == if i <= self.pos {
                        line[self.pos - i]
                    } else {
                        line[n + self.pos - i]
                    },
                output == convolution(self.taps@, now, tap_i as int),
            decreases n - tap_i,
        {
            let delay_idx: usize = if tap_i <= self.pos {
                self.pos - tap_i
            } else {
                n - (tap_i - self.pos)
            };
            output = output.plus(self.taps[tap_i].times(self.delay_line[delay_idx]));
            tap_i = tap_i + 1;
        }
        self.pos = if self.pos + 1 < n {
            self.pos + 1
        } else {
            0
        };
        assert(self.history() =~= now);
        output.to_single()
    }

    /// Process an entire buffer of samples in-place
    pub fn process_buffer(&mut self, buffer: &mut Vec<Single>)
        requires
            old(self).wf(),
        ensures
            final(self).wf(),
            final(self).coefficients() == old(self).coefficients(),
            final(self).history() == history_after(
                old(self).history(),
                old(buffer)@,
                old(buffer)@.len() as int,
            ),
            final(buffer)@ == filtered(
                old(self).coefficients(),
                old(self).history(),
                old(buffer)@,
            ),
    {
        let n: usize = buffer.len();
        let ghost input = buffer@;
        let ghost start = self.history();
        let ghost taps = self.coefficients();
        let mut i: usize = 0;
        while i < n
            invariant
                i <= n,
                n == buffer.len(),
                n == input.len(),
                self.wf(),
                self.coefficients() == taps,
                self.history() == history_after(start, input, i as int),
                forall|k: int|
                    0 <= k < i ==> #[trigger] buffer@[k] == convolution(
                        taps,
                        history_after(start, input, k + 1),
                        taps.len() as int,
                    ).to_single_spec(),
                forall|k: int| i <= k < n ==> #[trigger] buffer@[k] == input[k],
            decreases n - i,
        {
            let filtered: Single = self.process(buffer[i]);
            buffer.set(i, filtered);
            i = i + 1;
        }
        assert(buffer@ =~= filtered(taps, start, input));
    }

    /// Get the number of taps (filter length)
    pub fn num_taps(&self) -> (n: usize)
        ensures
            n == self.coefficients().len(),
    {
        self.taps.len()
    }

    /// Get the group delay in samples (half the filter length for linear phase)
    pub fn group_delay_samples(&self) -> (n: usize)
        requires
            self.wf(),
        ensures
            n == (self.coefficients().len() - 1) / 2,
    {
        (self.taps.len() - 1) / 2
    }

    /// Get access to the tap coefficients
    pub fn taps(&self) -> (taps: &[Double])
        ensures
            taps@ == self.coefficients(),
            self.wf() ==> taps.len() > 0,
    {
        self.taps.as_slice()
    }

    /// Forget every sample: the delay line is as it was at the start.
    pub fn reset(&mut self)
        requires
            old(self).wf(),
        ensures
            final(self).wf(),
            final(self).coefficients() == old(self).coefficients(),
            final(self).history() == Seq::new(
                old(self).coefficients().len(),
                |i: int| Double { bits: 0 },
            ),
    {
        let n: usize = self.delay_line.len();
        let mut i: usize = 0;
        while i < n
            invariant
                i <= n,
                n == self.delay_line.len(),
                self.taps@ == old(self).taps@,
                self.pos == old(self).pos,
                forall|j: int| 0 <= j < i ==> (#[trigger] self.delay_line[j]).bits == 0,
            decreases n - i,
        {
            self.delay_line.set(i, Double::zero());
            i = i + 1;
        }
        self.pos = 0;
        assert(self.history() =~= Seq::new(
            self.coefficients().len(),
            |i: int| Double { bits: 0 },
        ));
    }
}

/// Once a filter has seen as many samples as it has taps, what came before
/// no longer matters: its delay line holds the newest samples alone.
pub proof fn history_forgets(start: Seq<Double>, buffer: Seq<Single>, k: int)
    requires
        0 <= k <= buffer.len(),
        start.len() > 0,
    ensures
        history_after(start, buffer, k).len() == start.len(),
        forall|i: int|
            0 <= i < start.len() ==> #[trigger] history_after(start, buffer, k)[i] == if i < k {
                Double::from_single_spec(buffer[k - 1 - i])
            } else {
                start[i - k]
            },
    decreases k,
{
    if k > 0 {
        history_forgets(start, buffer, k - 1);
        let before = history_after(start, buffer, k - 1);
        assert forall|i: int| 0 <= i < start.len() implies #[trigger] history_after(
            start,
            buffer,
            k,
        )[i] == if i < k {
            Double::from_single_spec(buffer[k - 1 - i])
        } else {
            start[i - k]
        } by {
            if i > 0 {
                assert(history_after(start, buffer, k)[i] == before[i - 1]);
            }
        }
    }
}

/// How a stream is cut into buffers makes no difference to what a filter makes
/// of it, nor to what it remembers.
pub proof fn cuts_do_not_show(
    taps: Seq<Double>,
    start: Seq<Double>,
    first: Seq<Single>,
    second: Seq<Single>,
)
    ensures
        history_after(start, first + second, (first.len() + second.len()) as int)
            == history_after(
            history_after(start, first, first.len() as int),
            second,
            second.len() as int,
        ),
        filtered(taps, start, first + second) == filtered(taps, start, first) + filtered(
            taps,
            history_after(start, first, first.len() as int),
            second,
        ),
{
    let whole = first + second;
    let middle = history_after(start, first, first.len() as int);
    assert forall|k: int| 0 <= k <= whole.len() implies #[trigger] history_after(start, whole, k)
        == if k <= first.len() {
        history_after(start, first, k)
    } else {
        history_after(middle, second, k - first.len())
    } by {
        cut_history(start, first, second, k);
    }
    cut_history(start, first, second, whole.len() as int);
    assert(filtered(taps, start, whole) =~= filtered(taps, start, first) + filtered(
        taps,
        middle,
        second,
    ));
}

proof fn cut_history(start: Seq<Double>, first: Seq<Single>, second: Seq<Single>, k: int)
    requires
        0 <= k <= first.len() + second.len(),
    ensures
        k <= first.len() ==> history_after(start, first + second, k) == history_after(
            start,
            first,
            k,
        ),
        k >= first.len() ==> history_after(start, first + second, k) == history_after(
            history_after(start, first, first.len() as int),
            second,
            k - first.len(),
        ),
    decreases k,
{
    if k > 0 {
        cut_history(start, first, second, k - 1);
    }
}

} // verus!
