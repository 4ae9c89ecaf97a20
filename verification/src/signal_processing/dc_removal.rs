//! Removal of a constant offset.
use crate::constants;
use crate::single::Single;
use vstd::prelude::*;

verus! {

/// Stateful DC offset remover using a single-pole IIR high-pass filter.
pub struct DcRemover {
    dc_estimate: Single,
    alpha: Single,
}

/// The estimate of the offset after the first `k` samples.
pub open spec fn offset_after(start: Single, alpha: Single, samples: Seq<Single>, k: int) -> Single
    decreases k,
{
    if k <= 0 {
        start
    } else {
        let before = offset_after(start, alpha, samples, k - 1);
        before.plus_spec(alpha.times_spec(samples[k - 1].minus_spec(before)))
    }
}

/// Samples without the offset: each loses the estimate that it has just been
/// taken into.
pub open spec fn removed(start: Single, alpha: Single, samples: Seq<Single>) -> Seq<Single> {
    Seq::new(
        samples.len(),
        |i: int| samples[i].minus_spec(offset_after(start, alpha, samples, i + 1)),
    )
}

/// The share of a cutoff frequency: radians per sample, at most one.
pub open spec fn share_spec(sample_rate: Single, cutoff_hz: Single) -> Single {
    constants::of(constants::TWO_PI).times_spec(cutoff_hz).over_spec(sample_rate).min_spec(
        constants::of(crate::single::ONE_BITS),
    )
}

impl DcRemover {
    pub closed spec fn estimate(&self) -> Single {
        self.dc_estimate
    }

    pub closed spec fn smoothing(&self) -> Single {
        self.alpha
    }

    /// Create a new DC remover with the given smoothing factor.
    /// Alpha should be small (e.g., 0.0001) for slow adaptation.
    pub fn new(alpha: Single) -> (r: DcRemover)
        ensures
            r.estimate().bits == 0,
            r.smoothing() == alpha,
    {
        DcRemover { dc_estimate: Single::zero(), alpha }
    }

    /// Create a DC remover with a specified cutoff frequency.
    /// Frequencies below cutoff_hz will be attenuated.
    pub fn with_cutoff(sample_rate: Single, cutoff_hz: Single) -> (r: DcRemover)
        ensures
            r.estimate().bits == 0,
            r.smoothing() == share_spec(sample_rate, cutoff_hz),
    {
        let alpha: Single = Single::from_bits(constants::TWO_PI).times(cutoff_hz).over(
            sample_rate,
        ).min(Single::one());
        Self::new(alpha)
    }

    /// Process samples in-place, removing DC offset: each sample loses the
    /// estimate that it has just been taken into.
    pub fn process(&mut self, samples: &mut Vec<Single>)
        ensures
            final(samples)@ == removed(
                old(self).estimate(),
                old(self).smoothing(),
                old(samples)@,
            ),
            final(self).estimate() == offset_after(
                old(self).estimate(),
                old(self).smoothing(),
                old(samples)@,
                old(samples)@.len() as int,
            ),
            final(self).smoothing() == old(self).smoothing(),
    {
        let n: usize = samples.len();
        let mut i: usize = 0;
        while i < n
            invariant
                i <= n,
                n == samples.len(),
                samples@.len() == old(samples)@.len(),
                self.alpha == old(self).smoothing(),
                self.dc_estimate == offset_after(
                    old(self).estimate(),
                    old(self).smoothing(),
                    old(samples)@,
                    i as int,
                ),
                forall|k: int|
                    0 <= k < i ==> #[trigger] samples@[k] == old(samples)@[k].minus_spec(
                        offset_after(
                            old(self).estimate(),
                            old(self).smoothing(),
                            old(samples)@,
                            k + 1,
                        ),
                    ),
                forall|k: int| i <= k < n ==> #[trigger] samples@[k] == old(samples)@[k],
            decreases n - i,
        {
            let sample: Single = samples[i];
            self.dc_estimate = self.dc_estimate.plus(
                self.alpha.times(sample.minus(self.dc_estimate)),
            );
            samples.set(i, sample.minus(self.dc_estimate));
            i = i + 1;
        }
        assert(samples@ =~= removed(
            old(self).estimate(),
            old(self).smoothing(),
            old(samples)@,
        ));
    }
}

/// How a stream is cut into buffers makes no difference to what is removed.
pub proof fn cuts_do_not_show(
    start: Single,
    alpha: Single,
    first: Seq<Single>,
    second: Seq<Single>,
)
    ensures
        removed(start, alpha, first + second) == removed(start, alpha, first) + removed(
            offset_after(start, alpha, first, first.len() as int),
            alpha,
            second,
        ),
{
    let middle = offset_after(start, alpha, first, first.len() as int);
    assert forall|k: int| 0 <= k <= first.len() + second.len() implies #[trigger] offset_after(
        start,
        alpha,
        first + second,
        k,
    ) == if k <= first.len() {
        offset_after(start, alpha, first, k)
    } else {
        offset_after(middle, alpha, second, k - first.len())
    } by {
        cut_offset(start, alpha, first, second, k);
    }
    assert(removed(start, alpha, first + second) =~= removed(start, alpha, first) + removed(
        middle,
        alpha,
        second,
    ));
}

proof fn cut_offset(
    start: Single,
    alpha: Single,
    first: Seq<Single>,
    second: Seq<Single>,
    k: int,
)
    requires
        0 <= k <= first.len() + second.len(),
    ensures
        k <= first.len() ==> offset_after(start, alpha, first + second, k) == offset_after(
            start,
            alpha,
            first,
            k,
        ),
        k >= first.len() ==> offset_after(start, alpha, first + second, k) == offset_after(
            offset_after(start, alpha, first, first.len() as int),
            alpha,
            second,
            k - first.len(),
        ),
    decreases k,
{
    if k > 0 {
        cut_offset(start, alpha, first, second, k - 1);
    }
}

} // verus!
