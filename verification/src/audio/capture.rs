//! Choosing an input device and its stream, and keeping count of what is lost.
use crate::constants;
use crate::single::Single;
use crate::text;
use vstd::prelude::*;

verus! {

/// Full scale of a 16-bit sample (32768).
pub const SHORT_FULL_SCALE: u32 = 0x4700_0000;

/// How the samples of a stream are stored.
#[derive(Clone, Copy, Debug, PartialEq, Eq, Structural)]
pub enum SampleFormat {
    /// Single-precision numbers
    Float,
    /// 16-bit integers
    Short,
    /// Anything else
    Other,
}

/// A range of configurations that a device can record with.
#[derive(Clone, Copy, Debug, PartialEq, Eq, Structural)]
pub struct InputRange {
    pub channels: u16,
    pub format: SampleFormat,
    pub min_rate: u32,
    pub max_rate: u32,
}

impl InputRange {
    /// The rate of the range that is nearest to a wanted one.
    pub open spec fn nearest_rate(self, wanted: u32) -> u32 {
        if wanted < self.min_rate {
            self.min_rate
        } else if wanted > self.max_rate {
            self.max_rate
        } else {
            wanted
        }
    }

    /// How far that rate is from the wanted one.
    pub open spec fn distance(self, wanted: u32) -> int {
        if self.nearest_rate(wanted) > wanted {
            self.nearest_rate(wanted) - wanted
        } else {
            wanted - self.nearest_rate(wanted)
        }
    }

    pub open spec fn offers(self, channels: u16, format: SampleFormat) -> bool {
        self.channels == channels && self.format == format
    }
}

/// Whether range `k` is the one to take: it offers the channels and the format
/// nearest to the wanted rate, and is the first to do so.
pub open spec fn is_pick(
    ranges: Seq<InputRange>,
    channels: u16,
    format: SampleFormat,
    wanted: u32,
    k: int,
) -> bool {
    &&& 0 <= k < ranges.len()
    &&& ranges[k].offers(channels, format)
    &&& forall|j: int|
        0 <= j < ranges.len() && (#[trigger] ranges[j]).offers(channels, format)
            ==> ranges[k].distance(wanted) < ranges[j].distance(wanted) || ranges[k].distance(
            wanted,
        ) == ranges[j].distance(wanted) && k <= j
}

pub open spec fn none_offers(
    ranges: Seq<InputRange>,
    channels: u16,
    format: SampleFormat,
) -> bool {
    forall|j: int| 0 <= j < ranges.len() ==> !(#[trigger] ranges[j]).offers(channels, format)
}

/// The rate to record at in a format, where a device offers the format.
fn pick_rate(
    ranges: &[InputRange],
    channels: u16,
    format: SampleFormat,
    wanted: u32,
) -> (rate: Option<u32>)
    requires
        forall|j: int| 0 <= j < ranges@.len() ==> (#[trigger] ranges@[j]).min_rate
            <= ranges@[j].max_rate,
    ensures
        match rate {
            Some(r) => exists|k: int|
                #![trigger ranges@[k]]
                is_pick(ranges@, channels, format, wanted, k) && r == ranges@[k].nearest_rate(
                    wanted,
                ),
            None => none_offers(ranges@, channels, format),
        },
{
    let mut best: Option<usize> = None;
    let mut i: usize = 0;
    while i < ranges.len()
        invariant
            i <= ranges.len(),
            match best {
                Some(k) => k < i && is_pick(
                    ranges@.take(i as int),
                    channels,
                    format,
                    wanted,
                    k as int,
                ),
                None => none_offers(ranges@.take(i as int), channels, format),
            },
        decreases ranges.len() - i,
    {
        let ghost seen = ranges@.take(i as int);
        let ghost more = ranges@.take(i + 1);
        assert(forall|j: int| 0 <= j < i ==> #[trigger] more[j] == seen[j]);
        let r: InputRange = ranges[i];
        if r.channels == channels && r.format == format {
            match best {
                Some(k) => {
                    assert(more[k as int] == seen[k as int]);
                    if distance_of(&r, wanted) < distance_of(&ranges[k], wanted) {
                        best = Some(i);
                    }
                },
                None => {
                    best = Some(i);
                },
            }
        }
        i = i + 1;
        assert(match best {
            Some(k) => is_pick(more, channels, format, wanted, k as int),
            None => none_offers(more, channels, format),
        });
    }
    assert(ranges@.take(i as int) =~= ranges@);
    match best {
        Some(k) => {
            let r: InputRange = ranges[k];
            assert(r == ranges@[k as int]);
            Some(rate_of(&r, wanted))
        },
        None => None,
    }
}

fn rate_of(r: &InputRange, wanted: u32) -> (rate: u32)
    ensures
        rate == r.nearest_rate(wanted),
{
    if wanted < r.min_rate {
        r.min_rate
    } else if wanted > r.max_rate {
        r.max_rate
    } else {
        wanted
    }
}

fn distance_of(r: &InputRange, wanted: u32) -> (d: u32)
    ensures
        d == r.distance(wanted),
{
    let rate: u32 = rate_of(r, wanted);
    if rate > wanted {
        rate - wanted
    } else {
        wanted - rate
    }
}

/// Choose the stream of a device.
///
/// A device that only does 16-bit samples, or another rate, is perfectly
/// usable: the DSP chain is built against whatever rate the source reports.
/// Prefers single precision at the configured rate, then at the nearest rate,
/// then the same for 16-bit samples.
pub fn negotiate(ranges: &[InputRange], channels: u16, wanted: u32) -> (choice: Option<
    (SampleFormat, u32),
>)
    requires
        forall|j: int| 0 <= j < ranges@.len() ==> (#[trigger] ranges@[j]).min_rate
            <= ranges@[j].max_rate,
    ensures
        match choice {
            Some((format, rate)) => {
                &&& format == SampleFormat::Float || format == SampleFormat::Short
                    && none_offers(ranges@, channels, SampleFormat::Float)
                &&& exists|k: int|
                    #![trigger ranges@[k]]
                    is_pick(ranges@, channels, format, wanted, k) && rate
                        == ranges@[k].nearest_rate(wanted)
            },
            None => none_offers(ranges@, channels, SampleFormat::Float) && none_offers(
                ranges@,
                channels,
                SampleFormat::Short,
            ),
        },
{
    match pick_rate(ranges, channels, SampleFormat::Float, wanted) {
        Some(rate) => Some((SampleFormat::Float, rate)),
        None => match pick_rate(ranges, channels, SampleFormat::Short, wanted) {
            Some(rate) => Some((SampleFormat::Short, rate)),
            None => None,
        },
    }
}

/// A supported configuration as an error message shows it.
pub struct DescribedRange {
    pub channels: u16,
    pub format: String,
    pub min_rate: u32,
    pub max_rate: u32,
}

impl DescribedRange {
    pub open spec fn described(self) -> Seq<char> {
        text::decimal(self.channels as nat) + " ch "@ + self.format@ + " @ "@ + text::decimal(
            self.min_rate as nat,
        ) + (if self.min_rate == self.max_rate {
            Seq::empty()
        } else {
            "-"@ + text::decimal(self.max_rate as nat)
        }) + " Hz"@
    }
}

/// Append a configuration as an error message shows it.
fn push_described(s: &mut String, r: &DescribedRange)
    ensures
        final(s)@ == old(s)@ + r.described(),
{
    text::push_decimal(s, r.channels as u128);
    s.append(" ch ");
    s.append(r.format.as_str());
    s.append(" @ ");
    text::push_decimal(s, r.min_rate as u128);
    if r.min_rate != r.max_rate {
        s.append("-");
        text::push_decimal(s, r.max_rate as u128);
    }
    s.append(" Hz");
    assert(s@ =~= old(s)@ + r.described());
}

/// Ranges with commas between them.
pub open spec fn listed(ranges: Seq<DescribedRange>) -> Seq<char>
    decreases ranges.len(),
{
    if ranges.len() == 0 {
        Seq::empty()
    } else if ranges.len() == 1 {
        ranges[0].described()
    } else {
        listed(ranges.drop_last()) + ", "@ + ranges.last().described()
    }
}

/// Render a device's supported input configs for an error message, so a
/// refusal tells the user what the device would have accepted.
pub fn describe_configs(ranges: Option<&Vec<DescribedRange>>) -> (s: String)
    ensures
        s@ == match ranges {
            None => "unavailable"@,
            Some(r) => if r@.len() == 0 {
                "none"@
            } else {
                listed(r@)
            },
        },
{
    let ranges: &Vec<DescribedRange> = match ranges {
        Some(r) => r,
        None => {
            return text::owned("unavailable");
        },
    };
    if ranges.len() == 0 {
        return text::owned("none");
    }
    let mut s: String = text::owned("");
    proof {
        reveal_strlit("");
    }
    assert(s@ =~= listed(ranges@.take(0)));
    let mut i: usize = 0;
    while i < ranges.len()
        invariant
            i <= ranges.len(),
            s@ == listed(ranges@.take(i as int)),
        decreases ranges.len() - i,
    {
        let ghost before = s@;
        if i > 0 {
            s.append(", ");
        }
        push_described(&mut s, &ranges[i]);
        let ghost part = ranges@[i as int].described();
        assert(s@ =~= if i == 0 {
            part
        } else {
            before + ", "@ + part
        });
        assert(ranges@.take(i + 1).drop_last() =~= ranges@.take(i as int));
        assert(ranges@.take(i + 1).last() == ranges@[i as int]);
        i = i + 1;
    }
    assert(ranges@.take(i as int) =~= ranges@);
    s
}

/// The name of what `str::to_lowercase` makes of a text.
pub uninterp spec fn lowercase_of(s: Seq<char>) -> Seq<char>;

/// A text in lower case, by `str::to_lowercase`, which follows the Unicode
/// lowercase mapping.
#[verifier::external_body]
pub(crate) fn lowercased(s: &str) -> (r: String)
    ensures
        r@ == lowercase_of(s@),
{
    s.to_lowercase()
}

/// Whether a text occurs in another one at a position.
pub open spec fn occurs_at(s: Seq<char>, part: Seq<char>, at: int) -> bool {
    0 <= at && at + part.len() <= s.len() && s.subrange(at, at + part.len() as int) == part
}

/// Whether a text occurs in another one.
pub open spec fn occurs_in(s: Seq<char>, part: Seq<char>) -> bool {
    exists|at: int| occurs_at(s, part, at)
}

/// Whether a text occurs in another one.
pub fn contains(s: &str, part: &str) -> (b: bool)
    ensures
        b == occurs_in(s@, part@),
{
    let n: usize = s.unicode_len();
    let m: usize = part.unicode_len();
    if m > n {
        assert(!occurs_in(s@, part@));
        return false;
    }
    let mut at: usize = 0;
    while at <= n - m
        invariant
            m <= n,
            n == s@.len(),
            m == part@.len(),
            at <= n - m + 1,
            forall|a: int| 0 <= a < at ==> !occurs_at(s@, part@, a),
        decreases n - m + 1 - at,
    {
        let mut i: usize = 0;
        while i < m && s.get_char(at + i) == part.get_char(i)
            invariant
                i <= m,
                m <= n,
                n == s@.len(),
                m == part@.len(),
                at <= n - m,
                forall|j: int| 0 <= j < i ==> #[trigger] s@[at + j] == part@[j],
            decreases m - i,
        {
            i = i + 1;
        }
        if i == m {
            assert forall|j: int| 0 <= j < m implies s@.subrange(at as int, at + m)[j]
                == part@[j] by {
                assert(s@[at + j] == part@[j]);
            }
            assert(s@.subrange(at as int, at + m) =~= part@);
            assert(occurs_at(s@, part@, at as int));
            return true;
        }
        assert(!occurs_at(s@, part@, at as int)) by {
            if occurs_at(s@, part@, at as int) {
                assert(s@.subrange(at as int, at + m)[i as int] == part@[i as int]);
            }
        }
        if at == n - m {
            assert(!occurs_in(s@, part@));
            return false;
        }
        at = at + 1;
    }
    assert(!occurs_in(s@, part@));
    false
}

/// Whether a device name answers to a wanted one: in lower case the wanted
/// name occurs in it.
pub open spec fn answers(name: Seq<char>, wanted: Seq<char>) -> bool {
    occurs_in(lowercase_of(name), lowercase_of(wanted))
}

/// Whether a device, as far as its name is known, answers to a wanted name.
pub fn name_matches(name: &str, wanted: &str) -> (b: bool)
    ensures
        b == answers(name@, wanted@),
{
    let name: String = lowercased(name);
    let wanted: String = lowercased(wanted);
    contains(name.as_str(), wanted.as_str())
}

pub open spec fn device_answers(names: Seq<Option<String>>, wanted: Seq<char>, i: int) -> bool {
    names[i] matches Some(name) && answers(name@, wanted)
}

/// The first device that answers to a wanted name. A device whose name is not
/// known is passed over.
pub fn pick_device(names: &Vec<Option<String>>, wanted: &str) -> (index: Option<usize>)
    ensures
        match index {
            Some(i) => {
                &&& i < names@.len()
                &&& device_answers(names@, wanted@, i as int)
                &&& forall|j: int| 0 <= j < i ==> !device_answers(names@, wanted@, j)
            },
            None => forall|j: int| 0 <= j < names@.len() ==> !device_answers(names@, wanted@, j),
        },
{
    let mut i: usize = 0;
    while i < names.len()
        invariant
            i <= names.len(),
            forall|j: int| 0 <= j < i ==> !device_answers(names@, wanted@, j),
        decreases names.len() - i,
    {
        if let Some(name) = &names[i] {
            if name_matches(name.as_str(), wanted) {
                return Some(i);
            }
        }
        i = i + 1;
    }
    None
}

/// What became of a chunk that was offered to the consumer.
#[derive(Clone, Copy, Debug, PartialEq, Eq, Structural)]
pub enum SendOutcome {
    Sent,
    /// The consumer lags: the chunk is lost.
    Full,
    /// Nobody listens any more.
    Disconnected,
}

/// Frames dropped since the last chunk that got through, carried forward on
/// the next one that does.
///
/// The gap travels with the chunk so the consumer can advance the DSP clock at
/// the exact point in the stream where audio was lost, rather than at dequeue
/// time (up to a full queue later).
pub struct GapCounter {
    pending_gap_frames: usize,
}

impl View for GapCounter {
    type V = nat;

    closed spec fn view(&self) -> nat {
        self.pending_gap_frames as nat
    }
}

/// The gap after a chunk of so many frames was offered.
pub open spec fn gap_after(gap: nat, frames: nat, outcome: SendOutcome) -> nat {
    match outcome {
        SendOutcome::Sent => 0,
        SendOutcome::Full => if gap + frames <= usize::MAX {
            gap + frames
        } else {
            usize::MAX as nat
        },
        SendOutcome::Disconnected => gap,
    }
}

/// The frames that a listening consumer is told of for a chunk: those of the
/// chunk and of the gap ahead of it, once it gets through.
pub open spec fn told(gap: nat, frames: nat, outcome: SendOutcome) -> nat {
    if outcome == SendOutcome::Sent {
        gap + frames
    } else {
        0
    }
}

/// No frame goes unaccounted for: what a listening consumer has been told of,
/// with the gap still pending, grows by exactly the frames captured.
pub proof fn frames_are_accounted_for(gap: nat, frames: nat, outcome: SendOutcome)
    requires
        outcome != SendOutcome::Disconnected,
        gap + frames <= usize::MAX,
    ensures
        told(gap, frames, outcome) + gap_after(gap, frames, outcome) == gap + frames,
{
}

impl GapCounter {
    pub fn new() -> (g: GapCounter)
        ensures
            g@ == 0,
    {
        GapCounter { pending_gap_frames: 0 }
    }

    /// The gap that the next chunk carries.
    pub fn gap(&self) -> (n: usize)
        ensures
            n == self@,
    {
        self.pending_gap_frames
    }

    /// Take what became of a chunk of interleaved stereo samples. A chunk that
    /// is lost adds its frames to the gap that is already pending.
    pub fn note(&mut self, samples: usize, outcome: SendOutcome)
        ensures
            final(self)@ == gap_after(old(self)@, samples as nat / 2, outcome),
    {
        let frames: usize = samples / 2;
        match outcome {
            SendOutcome::Sent => {
                self.pending_gap_frames = 0;
            },
            SendOutcome::Full => {
                self.pending_gap_frames = if frames <= usize::MAX - self.pending_gap_frames {
                    self.pending_gap_frames + frames
                } else {
                    usize::MAX
                };
            },
            SendOutcome::Disconnected => {},
        }
    }
}

/// A 16-bit sample with full scale at one.
pub fn from_short(sample: i16) -> (r: Single)
    ensures
        r == Single::from_integer_spec(sample as int).over_spec(constants::of(SHORT_FULL_SCALE)),
{
    Single::from_index(sample as i128).over(Single::from_bits(SHORT_FULL_SCALE))
}

} // verus!
