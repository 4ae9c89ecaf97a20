//! Where audio comes from: the checks on it, and what is made of its samples.
use crate::constants;
use crate::single;
use crate::single::Single;
use crate::text;
use vstd::arithmetic::{div_mod, power2};
use vstd::prelude::*;

verus! {

/// Chunks that wait for the consumer before the capture starts dropping them:
/// about 700 ms of slack at 1024-sample buffers and 48 kHz.
pub const CAPTURE_CHANNEL_DEPTH: usize = 32;

/// Why a WAV file cannot be read.
#[derive(Clone, Copy, Debug, PartialEq, Eq, Structural)]
pub enum WavFault {
    NotStereo { channels: u16 },
    /// Buffers are interleaved stereo, so an odd chunk size splits a frame
    /// across reads: the dropped half-frame swaps every later sample's
    /// channel and the stream is silently misinterpreted from there on.
    ChunkSize { chunk_size: usize },
}

impl WavFault {
    pub open spec fn message_spec(self) -> Seq<char> {
        match self {
            WavFault::NotStereo { channels } => "expected stereo, got "@ + text::decimal(
                channels as nat,
            ) + " channels"@,
            WavFault::ChunkSize { chunk_size } => "chunk_size is "@ + text::decimal(
                chunk_size as nat,
            )
                + ", must be a positive even number of                  interleaved samples (whole stereo frames)"@,
        }
    }

    /// The message of a fault.
    pub fn message(&self) -> (s: String)
        ensures
            s@ == self.message_spec(),
    {
        match *self {
            WavFault::NotStereo { channels } => {
                let mut s: String = text::owned("expected stereo, got ");
                text::push_decimal(&mut s, channels as u128);
                s.append(" channels");
                s
            },
            WavFault::ChunkSize { chunk_size } => {
                let mut s: String = text::owned("chunk_size is ");
                text::push_decimal(&mut s, chunk_size as u128);
                s.append(
                    ", must be a positive even number of                  interleaved samples (whole stereo frames)",
                );
                s
            },
        }
    }
}

/// What stands against reading a file in chunks.
pub open spec fn wav_fault(channels: u16, chunk_size: usize) -> Option<WavFault> {
    if channels != 2 {
        Some(WavFault::NotStereo { channels })
    } else if chunk_size == 0 || chunk_size % 2 != 0 {
        Some(WavFault::ChunkSize { chunk_size })
    } else {
        None
    }
}

/// Check that a file can be read in chunks of this many interleaved samples.
pub fn check_wav(channels: u16, chunk_size: usize) -> (r: Result<(), WavFault>)
    ensures
        match r {
            Ok(()) => wav_fault(channels, chunk_size) is None,
            Err(f) => wav_fault(channels, chunk_size) == Some(f),
        },
{
    if channels != 2 {
        return Err(WavFault::NotStereo { channels });
    }
    if chunk_size == 0 || chunk_size % 2 != 0 {
        return Err(WavFault::ChunkSize { chunk_size });
    }
    Ok(())
}

/// The bits of the power of two that is the full scale of an integer sample,
/// with infinity beyond the largest.
pub open spec fn full_scale_bits(bits_per_sample: u16) -> u32 {
    if bits_per_sample <= 128 {
        ((126 + bits_per_sample) * 0x80_0000) as u32
    } else {
        single::INFINITY_BITS
    }
}

/// Full-scale divisor for integer PCM: two to the power of the bits per
/// sample less one.
pub fn int_full_scale(bits_per_sample: u16) -> (r: Single)
    ensures
        r == constants::of(full_scale_bits(bits_per_sample)),
        1 <= bits_per_sample <= 128 ==> r.value() == power2::pow2(
            (single::UNIT + bits_per_sample - 1) as nat,
        ),
{
    if bits_per_sample <= 128 {
        let e: u32 = 126 + bits_per_sample as u32;
        proof {
            if bits_per_sample >= 1 {
                let h = 0x80_0000nat;
                let b = (e * 0x80_0000) as nat;
                assert(b / h == e && b % h == 0);
                power2::lemma2_to64();
                power2::lemma2_to64_rest();
                power2::lemma_pow2_adds(23, (e - 1) as nat);
            }
        }
        Single::from_bits(e * 0x80_0000)
    } else {
        Single::from_bits(single::INFINITY_BITS)
    }
}

/// Samples as a file stores them.
pub enum RawSamples {
    Float(Vec<Single>),
    Int(Vec<i32>),
}

/// A sample, or zero where it is no number.
pub open spec fn sound(sample: Single) -> Single {
    if sample.finite() {
        sample
    } else {
        constants::of(0)
    }
}

/// Zero a sample that is no number.
///
/// Any 32-bit pattern is a valid float, so a corrupted capture can carry NaN
/// or infinity, and nothing downstream rejects them. Zeroed, a glitch burst
/// looks like the dropout it is and the pipeline handles it as one.
pub fn zero_non_finite(sample: Single) -> (r: Single)
    ensures
        r == sound(sample),
        r.finite(),
{
    if sample.is_finite() {
        sample
    } else {
        Single::zero()
    }
}

/// The samples that a chunk stands for.
pub open spec fn samples_of(raw: RawSamples, full_scale: Single) -> Seq<Single> {
    match raw {
        RawSamples::Float(v) => v@.map_values(|s: Single| sound(s)),
        RawSamples::Int(v) => v@.map_values(
            |s: i32| Single::from_integer_spec(s as int).over_spec(full_scale),
        ),
    }
}

/// Make a chunk of samples of what a file holds: floats that are no numbers
/// are zeroed, integers are brought to full scale at one. No samples are the
/// end of the file.
pub fn wav_chunk(raw: &RawSamples, full_scale: Single) -> (chunk: Option<Vec<Single>>)
    ensures
        match chunk {
            Some(c) => c@ == samples_of(*raw, full_scale) && c@.len() > 0,
            None => samples_of(*raw, full_scale).len() == 0,
        },
{
    let mut chunk: Vec<Single> = Vec::new();
    let ghost all = samples_of(*raw, full_scale);
    match raw {
        RawSamples::Float(v) => {
            let mut i: usize = 0;
            while i < v.len()
                invariant
                    i <= v.len(),
                    all == v@.map_values(|s: Single| sound(s)),
                    chunk@ == all.take(i as int),
                decreases v.len() - i,
            {
                chunk.push(zero_non_finite(v[i]));
                i = i + 1;
                assert(chunk@ =~= all.take(i as int));
            }
        },
        RawSamples::Int(v) => {
            let mut i: usize = 0;
            while i < v.len()
                invariant
                    i <= v.len(),
                    all == v@.map_values(
                        |s: i32| Single::from_integer_spec(s as int).over_spec(full_scale),
                    ),
                    chunk@ == all.take(i as int),
                decreases v.len() - i,
            {
                chunk.push(Single::from_index(v[i] as i128).over(full_scale));
                i = i + 1;
                assert(chunk@ =~= all.take(i as int));
            }
        },
    }
    assert(chunk@ =~= all);
    if chunk.len() == 0 {
        None
    } else {
        Some(chunk)
    }
}

/// Where a chunk of a recording ends.
pub open spec fn chunk_end(total: nat, chunk_size: nat, index: nat) -> nat {
    if (index + 1) * chunk_size <= total {
        (index + 1) * chunk_size
    } else {
        total
    }
}

/// How many chunks a recording has.
pub open spec fn chunk_count(total: nat, chunk_size: nat) -> nat {
    (total + chunk_size - 1) as nat / chunk_size
}

/// Goes through a recording chunk by chunk.
pub struct ChunkCursor {
    total: usize,
    chunk_size: usize,
    position: usize,
    index: usize,
}

impl ChunkCursor {
    pub closed spec fn total(&self) -> nat {
        self.total as nat
    }

    pub closed spec fn chunk_size(&self) -> nat {
        self.chunk_size as nat
    }

    /// How many chunks have been handed out.
    pub closed spec fn index(&self) -> nat {
        self.index as nat
    }

    pub closed spec fn wf(&self) -> bool {
        &&& self.chunk_size > 0
        &&& self.index <= self.position <= self.total
        &&& self.position == if self.index * self.chunk_size <= self.total {
            self.index * self.chunk_size
        } else {
            self.total as int
        }
    }

    /// A cursor ahead of the first chunk of a recording of `total` samples.
    pub fn new(total: usize, chunk_size: usize) -> (c: ChunkCursor)
        requires
            chunk_size > 0,
        ensures
            c.wf(),
            c.total() == total,
            c.chunk_size() == chunk_size,
            c.index() == 0,
    {
        ChunkCursor { total, chunk_size, position: 0, index: 0 }
    }

    /// Where the next chunk starts and ends. None at the end of the recording.
    pub fn next_bounds(&mut self) -> (r: Option<(usize, usize)>)
        requires
            old(self).wf(),
        ensures
            final(self).wf(),
            final(self).total() == old(self).total(),
            final(self).chunk_size() == old(self).chunk_size(),
            match r {
                Some((start, end)) => {
                    &&& start == old(self).index() * old(self).chunk_size()
                    &&& start < end
                    &&& end == chunk_end(
                        old(self).total(),
                        old(self).chunk_size(),
                        old(self).index(),
                    )
                    &&& final(self).index() == old(self).index() + 1
                },
                None => {
                    &&& old(self).index() * old(self).chunk_size() >= old(self).total()
                    &&& final(self).index() == old(self).index()
                },
            },
    {
        if self.position >= self.total {
            return None;
        }
        let start: usize = self.position;
        let end: usize = if self.chunk_size <= self.total - start {
            start + self.chunk_size
        } else {
            self.total
        };
        proof {
            let (i, n) = (self.index as int, self.chunk_size as int);
            assert((i + 1) * n == i * n + n) by (nonlinear_arith);
        }
        self.position = end;
        self.index = self.index + 1;
        Some((start, end))
    }
}

/// A chunk of a recording.
pub open spec fn chunk_of<T>(recording: Seq<T>, chunk_size: nat, index: nat) -> Seq<T> {
    recording.subrange(
        (index * chunk_size) as int,
        chunk_end(recording.len(), chunk_size, index) as int,
    )
}

/// What the first `n` chunks of a recording of floats make, one behind the
/// other.
pub open spec fn read_in_chunks(recording: Seq<Single>, chunk_size: nat, n: nat) -> Seq<Single>
    decreases n,
{
    if n == 0 {
        Seq::empty()
    } else {
        read_in_chunks(recording, chunk_size, (n - 1) as nat) + chunk_of(
            recording,
            chunk_size,
            (n - 1) as nat,
        ).map_values(|s: Single| sound(s))
    }
}

/// Every chunk but the last has the length that was asked for, the last is not
/// empty, and there is none behind it.
pub proof fn chunks_are_full(total: nat, chunk_size: nat, index: nat)
    requires
        chunk_size > 0,
    ensures
        index < chunk_count(total, chunk_size) <==> index * chunk_size < total,
        index + 1 < chunk_count(total, chunk_size) ==> chunk_end(total, chunk_size, index)
            == index * chunk_size + chunk_size,
        index < chunk_count(total, chunk_size) ==> index * chunk_size < chunk_end(
            total,
            chunk_size,
            index,
        ) <= index * chunk_size + chunk_size,
{
    let n = chunk_size as int;
    let t = total + n - 1;
    let c = chunk_count(total, chunk_size) as int;
    let i = index as int;
    div_mod::lemma_fundamental_div_mod(t, n);
    assert(t == n * c + t % n);
    assert((i + 1) * n == i * n + n) by (nonlinear_arith);
    if i < c {
        assert(i * n + n <= n * c) by (nonlinear_arith)
            requires
                i + 1 <= c,
                n > 0,
        ;
    } else {
        assert(i * n >= n * c) by (nonlinear_arith)
            requires
                i >= c,
                n > 0,
        ;
    }
    if i + 1 < c {
        assert(i * n + 2 * n <= n * c) by (nonlinear_arith)
            requires
                i + 2 <= c,
                n > 0,
        ;
    }
}

proof fn chunks_so_far(recording: Seq<Single>, chunk_size: nat, n: nat)
    requires
        chunk_size > 0,
        n <= chunk_count(recording.len(), chunk_size),
    ensures
        ({
            let end = if n * chunk_size <= recording.len() {
                (n * chunk_size) as int
            } else {
                recording.len() as int
            };
            read_in_chunks(recording, chunk_size, n) == recording.take(end).map_values(
                |s: Single| sound(s),
            )
        }),
    decreases n,
{
    if n == 0 {
        assert(0 * chunk_size == 0);
        assert(recording.take(0).map_values(|s: Single| sound(s)) =~= Seq::empty());
    } else {
        let k = (n - 1) as nat;
        chunks_so_far(recording, chunk_size, k);
        chunks_are_full(recording.len(), chunk_size, k);
        let start = (k * chunk_size) as int;
        let end = chunk_end(recording.len(), chunk_size, k) as int;
        assert(read_in_chunks(recording, chunk_size, n) =~= recording.take(end).map_values(
            |s: Single| sound(s),
        ));
    }
}

/// Reading a recording chunk by chunk gives the recording, with the samples
/// that are no numbers zeroed.
pub proof fn chunks_make_the_recording(recording: Seq<Single>, chunk_size: nat)
    requires
        chunk_size > 0,
    ensures
        read_in_chunks(
            recording,
            chunk_size,
            chunk_count(recording.len(), chunk_size),
        ) == recording.map_values(|s: Single| sound(s)),
{
    let n = chunk_count(recording.len(), chunk_size);
    chunks_so_far(recording, chunk_size, n);
    chunks_are_full(recording.len(), chunk_size, n);
    assert(recording.take(recording.len() as int) =~= recording);
}

/// What a live source hears from the capture while it waits for audio.
pub enum CaptureEvent {
    /// A chunk, and the frames that were lost ahead of it
    Chunk { gap_before_frames: usize, samples: Vec<Single> },
    /// The stream failed
    StreamError { message: String },
    /// Nothing came within the time that is waited
    Timeout,
    /// The capture is gone
    Disconnected,
    /// The caller asked to stop
    Shutdown,
}

/// What a live source does about it.
pub enum CaptureStep {
    /// Hand out a buffer
    Deliver { samples: Vec<Single> },
    /// Fail with a stream error
    Fail { message: String },
    /// Go on waiting
    Wait,
    /// There is no more audio
    End,
}

/// The step that answers an event.
pub open spec fn answer(event: CaptureEvent) -> CaptureStep {
    match event {
        CaptureEvent::Chunk { gap_before_frames, samples } => CaptureStep::Deliver { samples },
        CaptureEvent::StreamError { message } => CaptureStep::Fail { message },
        CaptureEvent::Timeout => CaptureStep::Wait,
        CaptureEvent::Disconnected => CaptureStep::End,
        CaptureEvent::Shutdown => CaptureStep::End,
    }
}

/// The frames that an event says were lost.
pub open spec fn lost_frames(event: CaptureEvent) -> nat {
    match event {
        CaptureEvent::Chunk { gap_before_frames, samples } => gap_before_frames as nat,
        _ => 0,
    }
}

/// Keeps count of lost frames for a live source.
pub struct DeviceIntake {
    // Gaps (frames) that preceded the buffers handed out so far, awaiting
    // collection by take_dropped_frames.
    pending_gap_frames: usize,
    total_dropped_frames: u64,
}

impl DeviceIntake {
    pub closed spec fn pending(&self) -> nat {
        self.pending_gap_frames as nat
    }

    pub closed spec fn total(&self) -> nat {
        self.total_dropped_frames as nat
    }

    pub fn new() -> (i: DeviceIntake)
        ensures
            i.pending() == 0,
            i.total() == 0,
    {
        DeviceIntake { pending_gap_frames: 0, total_dropped_frames: 0 }
    }

    /// Answer an event. Gives the step, and the numbers for a warning where
    /// frames were lost: in this gap, and in total.
    pub fn step(&mut self, event: CaptureEvent) -> (r: (CaptureStep, Option<(usize, u64)>))
        ensures
            r.0 == answer(event),
            ({
                let lost = lost_frames(event);
                if lost > 0 {
                    &&& final(self).pending() == if old(self).pending() + lost <= usize::MAX {
                        old(self).pending() + lost
                    } else {
                        usize::MAX as nat
                    }
                    &&& final(self).total() == if old(self).total() + lost <= u64::MAX {
                        old(self).total() + lost
                    } else {
                        u64::MAX as nat
                    }
                    &&& r.1 == Some((lost as usize, final(self).total() as u64))
                } else {
                    &&& final(self).pending() == old(self).pending()
                    &&& final(self).total() == old(self).total()
                    &&& r.1 is None
                }
            }),
    {
        match event {
            CaptureEvent::Chunk { gap_before_frames, samples } => {
                let mut warning: Option<(usize, u64)> = None;
                if gap_before_frames > 0 {
                    self.pending_gap_frames =
                    if gap_before_frames <= usize::MAX - self.pending_gap_frames {
                        self.pending_gap_frames + gap_before_frames
                    } else {
                        usize::MAX
                    };
                    let gap: u64 = gap_before_frames as u64;
                    self.total_dropped_frames = if gap <= u64::MAX - self.total_dropped_frames {
                        self.total_dropped_frames + gap
                    } else {
                        u64::MAX
                    };
                    warning = Some((gap_before_frames, self.total_dropped_frames));
                }
                (CaptureStep::Deliver { samples }, warning)
            },
            CaptureEvent::StreamError { message } => (CaptureStep::Fail { message }, None),
            CaptureEvent::Timeout => (CaptureStep::Wait, None),
            CaptureEvent::Disconnected => (CaptureStep::End, None),
            CaptureEvent::Shutdown => (CaptureStep::End, None),
        }
    }

    /// Frames (per-channel samples) lost since the last call, e.g. capture
    /// chunks dropped under overload. Callers advance the DSP clock by this
    /// amount so timestamps stay on the real timeline.
    pub fn take_dropped_frames(&mut self) -> (n: usize)
        ensures
            n == old(self).pending(),
            final(self).pending() == 0,
            final(self).total() == old(self).total(),
    {
        let n: usize = self.pending_gap_frames;
        self.pending_gap_frames = 0;
        n
    }
}

} // verus!
