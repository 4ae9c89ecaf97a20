//! Buffer of the most recent audio.
use crate::single::Single;
use vstd::prelude::*;

verus! {

/// Samples that the buffer keeps.
pub const CAPACITY: usize = 8192;

/// Stereo sample
#[derive(Copy, Clone, Debug, PartialEq, Eq)]
pub struct StereoSample {
    pub left: Single,
    pub right: Single,
}

/// Ring buffer for audio samples
pub struct AudioRingBuffer {
    buffer: Vec<StereoSample>,
}

/// The whole frames of interleaved samples.
pub open spec fn frames(data: Seq<Single>) -> Seq<StereoSample> {
    Seq::new(
        data.len() / 2,
        |i: int| StereoSample { left: data[2 * i], right: data[2 * i + 1] },
    )
}

/// The newest samples, as many as there are up to a count.
pub open spec fn newest(s: Seq<StereoSample>, count: nat) -> Seq<StereoSample> {
    if s.len() <= count {
        s
    } else {
        s.skip(s.len() - count)
    }
}

impl View for AudioRingBuffer {
    type V = Seq<StereoSample>;

    closed spec fn view(&self) -> Seq<StereoSample> {
        self.buffer@
    }
}

/// What the buffer holds of a stream does not depend on how the stream was cut
/// into whole frames: it is the newest part of it.
pub proof fn pushes_keep_the_newest(a: Seq<StereoSample>, b: Seq<StereoSample>)
    ensures
        newest(newest(a, CAPACITY as nat) + b, CAPACITY as nat) == newest(
            a + b,
            CAPACITY as nat,
        ),
{
    assert(newest(newest(a, CAPACITY as nat) + b, CAPACITY as nat) =~= newest(
        a + b,
        CAPACITY as nat,
    ));
}

/// What was pushed last can be read back, as far as the buffer reaches.
pub proof fn latest_is_what_was_pushed(a: Seq<StereoSample>, b: Seq<StereoSample>)
    requires
        b.len() <= CAPACITY,
    ensures
        newest(newest(a + b, CAPACITY as nat), b.len()) == b,
{
    assert(newest(newest(a + b, CAPACITY as nat), b.len()) =~= b);
}

/// The newest samples of a vector.
fn tail_of(v: &Vec<StereoSample>, count: usize) -> (r: Vec<StereoSample>)
    ensures
        r@ == newest(v@, count as nat),
{
    let start: usize = if v.len() > count {
        v.len() - count
    } else {
        0
    };
    let mut r: Vec<StereoSample> = Vec::new();
    let mut i: usize = start;
    while i < v.len()
        invariant
            start <= i <= v.len(),
            r@ == v@.subrange(start as int, i as int),
        decreases v.len() - i,
    {
        r.push(v[i]);
        i = i + 1;
        assert(r@ =~= v@.subrange(start as int, i as int));
    }
    assert(r@ =~= newest(v@, count as nat));
    r
}

impl AudioRingBuffer {
    pub fn new() -> (b: AudioRingBuffer)
        ensures
            b@ == Seq::<StereoSample>::empty(),
    {
        AudioRingBuffer { buffer: Vec::new() }
    }

    /// Push interleaved stereo samples [L, R, L, R, ...]
    ///
    /// Keeps only the most recent samples. Half a frame at the end is left
    /// out.
    pub fn push_interleaved(&mut self, data: &[Single])
        ensures
            final(self)@ == newest(old(self)@ + frames(data@), CAPACITY as nat),
    {
        let n: usize = data.len() / 2;
        let mut i: usize = 0;
        while i < n
            invariant
                i <= n,
                n == data.len() / 2,
                self@ == old(self)@ + frames(data@).take(i as int),
            decreases n - i,
        {
            assert(2 * i + 1 < data.len());
            self.buffer.push(StereoSample { left: data[2 * i], right: data[2 * i + 1] });
            i = i + 1;
            assert(self@ =~= old(self)@ + frames(data@).take(i as int));
        }
        assert(frames(data@).take(i as int) =~= frames(data@));
        if self.buffer.len() > CAPACITY {
            self.buffer = tail_of(&self.buffer, CAPACITY);
        }
    }

    /// Get latest N samples in chronological order (oldest to newest)
    pub fn latest(&self, count: usize) -> (r: Vec<StereoSample>)
        ensures
            r@ == newest(self@, count as nat),
    {
        tail_of(&self.buffer, count)
    }

    /// Check buffer length
    pub fn len(&self) -> (n: usize)
        ensures
            n == self@.len(),
    {
        self.buffer.len()
    }

    /// Check if buffer is empty
    pub fn is_empty(&self) -> (b: bool)
        ensures
            b == (self@.len() == 0),
    {
        self.buffer.len() == 0
    }
}

impl Default for AudioRingBuffer {
    fn default() -> (b: AudioRingBuffer)
        ensures
            b@ == Seq::<StereoSample>::empty(),
    {
        Self::new()
    }
}

} // verus!
