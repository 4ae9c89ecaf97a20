//! The processing chain from interleaved audio to north ticks and bearings.
use crate::audio::buffer;
use crate::audio::buffer::{AudioRingBuffer, StereoSample};
use crate::config::{AudioConfig, RdfConfig};
use crate::constants;
use crate::rdf::bearing::BearingMeasurement;
use crate::rdf::bearing_calculator::BearingCalculator;
use crate::rdf::north_ref::{NorthReferenceTracker, NorthTick};
use crate::rdf::north_ref_common::ChannelReport;
use crate::signal_processing::dc_removal;
use crate::signal_processing::dc_removal::DcRemover;
use crate::single;
use crate::single::Single;
use vstd::prelude::*;

verus! {

/// A north tick and the bearing that was measured against it.
#[derive(Debug, Clone, Copy)]
pub struct TickResult {
    pub north_tick: NorthTick,
    pub bearing: Option<BearingMeasurement>,
}

/// The processing chain: it splits the channels, takes the offset out where
/// that is asked for, tracks north and prepares the Doppler tone.
///
/// `process_audio` hands out the ticks of a buffer. Their bearings come from
/// the `calculator`; `finish_buffer` follows once all of them are measured.
pub struct RdfProcessor {
    north_tracker: NorthReferenceTracker,
    bearing_calc: Option<BearingCalculator>,
    dc_remover_doppler: DcRemover,
    dc_remover_north: DcRemover,
    ring_buffer: AudioRingBuffer,
    audio_config: AudioConfig,
    last_north_tick: Option<NorthTick>,
    remove_dc: bool,
    doppler_buf: Vec<Single>,
}

/// Stereo samples as pairs.
pub open spec fn pairs(samples: Seq<StereoSample>) -> Seq<(Single, Single)> {
    samples.map_values(|s: StereoSample| (s.left, s.right))
}

/// An offset remover: its estimate and how fast it follows.
pub ghost struct Offset {
    pub estimate: Single,
    pub smoothing: Single,
}

impl Offset {
    /// The remover after a buffer, where it is in use.
    pub open spec fn after(self, used: bool, samples: Seq<Single>) -> Offset {
        if used {
            Offset {
                estimate: dc_removal::offset_after(
                    self.estimate,
                    self.smoothing,
                    samples,
                    samples.len() as int,
                ),
                ..self
            }
        } else {
            self
        }
    }

    /// What is left of a buffer, where the remover is in use.
    pub open spec fn left(self, used: bool, samples: Seq<Single>) -> Seq<Single> {
        if used {
            dc_removal::removed(self.estimate, self.smoothing, samples)
        } else {
            samples
        }
    }
}

/// The last element of a sequence, or another value where there is none.
pub open spec fn last_or(ticks: Seq<NorthTick>, otherwise: Option<NorthTick>) -> Option<NorthTick> {
    if ticks.len() > 0 {
        Some(ticks.last())
    } else {
        otherwise
    }
}

fn pairs_of(samples: &Vec<StereoSample>) -> (r: Vec<(Single, Single)>)
    ensures
        r@ == pairs(samples@),
{
    let mut r: Vec<(Single, Single)> = Vec::new();
    let mut i: usize = 0;
    while i < samples.len()
        invariant
            i <= samples.len(),
            r@ == pairs(samples@).take(i as int),
        decreases samples.len() - i,
    {
        r.push((samples[i].left, samples[i].right));
        i = i + 1;
        assert(r@ =~= pairs(samples@).take(i as int));
    }
    assert(r@ =~= pairs(samples@));
    r
}

impl RdfProcessor {
    pub closed spec fn tracker(&self) -> NorthReferenceTracker {
        self.north_tracker
    }

    pub closed spec fn calc(&self) -> Option<BearingCalculator> {
        self.bearing_calc
    }

    pub closed spec fn doppler_offset(&self) -> Offset {
        Offset {
            estimate: self.dc_remover_doppler.estimate(),
            smoothing: self.dc_remover_doppler.smoothing(),
        }
    }

    pub closed spec fn north_offset(&self) -> Offset {
        Offset {
            estimate: self.dc_remover_north.estimate(),
            smoothing: self.dc_remover_north.smoothing(),
        }
    }

    pub closed spec fn ring(&self) -> Seq<StereoSample> {
        self.ring_buffer@
    }

    pub closed spec fn audio(&self) -> AudioConfig {
        self.audio_config
    }

    pub closed spec fn last_tick(&self) -> Option<NorthTick> {
        self.last_north_tick
    }

    pub closed spec fn removes_dc(&self) -> bool {
        self.remove_dc
    }

    pub closed spec fn doppler(&self) -> Seq<Single> {
        self.doppler_buf@
    }

    pub open spec fn wf(&self) -> bool {
        &&& self.tracker().wf()
        &&& self.calc() matches Some(c) ==> c.wf()
    }

    /// Put a chain together.
    ///
    /// # Arguments
    /// * `config` - the configuration of the receiver
    /// * `tracker` - the tracker that it asks for
    /// * `calculator` - the calculator that it asks for, where bearings are
    ///   wanted
    /// * `remove_dc` - whether to take a constant offset out of the channels
    pub fn new(
        config: &RdfConfig,
        tracker: NorthReferenceTracker,
        calculator: Option<BearingCalculator>,
        remove_dc: bool,
    ) -> (p: RdfProcessor)
        requires
            tracker.wf(),
            calculator matches Some(c) ==> c.wf(),
        ensures
            p.wf(),
            p.tracker() == tracker,
            p.calc() == calculator,
            ({
                let offset = Offset {
                    estimate: constants::of(0),
                    smoothing: constants::of(constants::TWO_PI).times_spec(
                        constants::of(single::ONE_BITS),
                    ).over_spec(
                        Single::from_integer_spec(config.audio.sample_rate as int),
                    ).min_spec(constants::of(single::ONE_BITS)),
                };
                p.doppler_offset() == offset && p.north_offset() == offset
            }),
            p.ring() == Seq::<StereoSample>::empty(),
            p.audio() == config.audio,
            p.last_tick() is None,
            p.removes_dc() == remove_dc,
            p.doppler() == Seq::<Single>::empty(),
    {
        let sample_rate: Single = Single::from_count(config.audio.sample_rate as usize);
        RdfProcessor {
            north_tracker: tracker,
            bearing_calc: calculator,
            dc_remover_doppler: DcRemover::with_cutoff(sample_rate, Single::one()),
            dc_remover_north: DcRemover::with_cutoff(sample_rate, Single::one()),
            ring_buffer: AudioRingBuffer::new(),
            audio_config: config.audio,
            last_north_tick: None,
            remove_dc,
            doppler_buf: Vec::new(),
        }
    }

    /// Take a buffer of interleaved samples, and give the north ticks in it.
    pub fn process_audio(&mut self, interleaved: &[Single]) -> (ticks: Vec<NorthTick>)
        requires
            old(self).wf(),
        ensures
            final(self).wf(),
            final(self).audio() == old(self).audio(),
            final(self).removes_dc() == old(self).removes_dc(),
            final(self).ring() == buffer::newest(
                old(self).ring() + buffer::frames(interleaved@),
                buffer::CAPACITY as nat,
            ),
            ({
                let audio = old(self).audio();
                let used = old(self).removes_dc();
                let stereo = pairs(
                    buffer::newest(final(self).ring(), interleaved@.len() / 2),
                );
                let doppler = AudioConfig::channel(audio.doppler_channel, stereo);
                let north = AudioConfig::channel(audio.north_tick_channel, stereo);
                let clean = old(self).doppler_offset().left(used, doppler);
                &&& final(self).doppler_offset() == old(self).doppler_offset().after(
                    used,
                    doppler,
                )
                &&& final(self).north_offset() == old(self).north_offset().after(used, north)
                &&& final(self).doppler() == clean
                &&& old(self).tracker().heard_to(
                    final(self).tracker(),
                    old(self).north_offset().left(used, north),
                    ticks@,
                )
                &&& match (old(self).calc(), final(self).calc()) {
                    (Some(a), Some(b)) => a.prepared_to(&b, clean),
                    (None, None) => true,
                    _ => false,
                }
            }),
            final(self).last_tick() == last_or(ticks@, old(self).last_tick()),
    {
        self.ring_buffer.push_interleaved(interleaved);
        let samples: Vec<StereoSample> = self.ring_buffer.latest(interleaved.len() / 2);
        let stereo: Vec<(Single, Single)> = pairs_of(&samples);
        let (mut doppler, mut north) = self.audio_config.split_channels(stereo.as_slice());
        assert(doppler.len() <= buffer::CAPACITY && north.len() <= buffer::CAPACITY);
        if self.remove_dc {
            self.dc_remover_doppler.process(&mut doppler);
            self.dc_remover_north.process(&mut north);
        }
        let ticks: Vec<NorthTick> = self.north_tracker.process_buffer(north.as_slice());
        if ticks.len() > 0 {
            self.last_north_tick = Some(ticks[ticks.len() - 1]);
        }
        if let Some(calc) = &mut self.bearing_calc {
            calc.preprocess(doppler.as_slice());
        }
        self.doppler_buf = doppler;
        ticks
    }

    /// The calculator that measures the bearings of the ticks.
    pub fn calculator(&self) -> (c: Option<&BearingCalculator>)
        ensures
            match c {
                Some(c) => self.calc() == Some(*c),
                None => self.calc() is None,
            },
    {
        match &self.bearing_calc {
            Some(c) => Some(c),
            None => None,
        }
    }

    /// Take the cosine and the sine of a raw bearing into the smoothing, where
    /// bearings are measured; the angle of the averages that come back is the
    /// smoothed bearing.
    pub fn smooth_bearing(&mut self, cos: Single, sin: Single) -> (averages: Option<
        (Single, Single),
    >)
        requires
            old(self).wf(),
        ensures
            final(self).wf(),
            final(self).same_but_calc(old(self)),
            match (old(self).calc(), final(self).calc()) {
                (Some(a), Some(b)) => {
                    &&& b.base() == a.base().smoothed(cos, sin)
                    &&& b.buffered() == a.buffered()
                    &&& a.same_crossings(&b)
                    &&& averages == Some((b.base().cosines.mean(), b.base().sines.mean()))
                },
                (None, None) => averages is None,
                _ => false,
            },
    {
        match &mut self.bearing_calc {
            Some(calc) => Some(calc.smooth_bearing(cos, sin)),
            None => None,
        }
    }

    /// Whether everything but the calculator is the same.
    pub open spec fn same_but_calc(&self, other: &RdfProcessor) -> bool {
        &&& self.tracker() == other.tracker()
        &&& self.doppler_offset() == other.doppler_offset()
        &&& self.north_offset() == other.north_offset()
        &&& self.ring() == other.ring()
        &&& self.audio() == other.audio()
        &&& self.last_tick() == other.last_tick()
        &&& self.removes_dc() == other.removes_dc()
        &&& self.doppler() == other.doppler()
    }

    /// Close a buffer, once all its ticks are measured.
    pub fn finish_buffer(&mut self)
        requires
            old(self).wf(),
        ensures
            final(self).wf(),
            final(self).same_but_calc(old(self)),
            match (old(self).calc(), final(self).calc()) {
                (Some(a), Some(b)) => a.moved_to(&b, a.buffered() as int),
                (None, None) => true,
                _ => false,
            },
    {
        if let Some(calc) = &mut self.bearing_calc {
            calc.advance_buffer();
        }
    }

    /// Advance the clocks over lost samples. Without a loss nothing changes.
    pub fn advance_samples(&mut self, samples: usize)
        requires
            old(self).wf(),
        ensures
            final(self).wf(),
            samples == 0 ==> *final(self) == *old(self),
            samples > 0 ==> {
                &&& old(self).tracker().skipped_to(final(self).tracker(), samples as int)
                &&& match (old(self).calc(), final(self).calc()) {
                    (Some(a), Some(b)) => a.moved_to(&b, samples as int),
                    (None, None) => true,
                    _ => false,
                }
                &&& final(self).doppler_offset() == old(self).doppler_offset()
                &&& final(self).north_offset() == old(self).north_offset()
                &&& final(self).ring() == old(self).ring()
                &&& final(self).audio() == old(self).audio()
                &&& final(self).last_tick() == old(self).last_tick()
                &&& final(self).removes_dc() == old(self).removes_dc()
                &&& final(self).doppler() == old(self).doppler()
            },
    {
        if samples == 0 {
            return;
        }
        self.north_tracker.advance_samples(samples);
        if let Some(calc) = &mut self.bearing_calc {
            calc.advance_samples(samples);
        }
    }

    /// The tick that was still pending at the end of the stream, if any.
    pub fn finish(&mut self) -> (ticks: Vec<NorthTick>)
        requires
            old(self).wf(),
        ensures
            final(self).wf(),
            old(self).tracker().finished_to(final(self).tracker(), ticks@),
            final(self).last_tick() == last_or(ticks@, old(self).last_tick()),
            final(self).calc() == old(self).calc(),
            final(self).doppler_offset() == old(self).doppler_offset(),
            final(self).north_offset() == old(self).north_offset(),
            final(self).ring() == old(self).ring(),
            final(self).audio() == old(self).audio(),
            final(self).removes_dc() == old(self).removes_dc(),
            final(self).doppler() == old(self).doppler(),
    {
        let ticks: Vec<NorthTick> = self.north_tracker.finish();
        if ticks.len() > 0 {
            self.last_north_tick = Some(ticks[ticks.len() - 1]);
        }
        ticks
    }

    /// How many interleaved samples a signal is to be cut into for
    /// `process_audio`: a buffer of both channels.
    pub fn chunk_size(&self) -> (n: usize)
        ensures
            n == if 2 * self.audio().buffer_size <= usize::MAX {
                2 * self.audio().buffer_size
            } else {
                usize::MAX as int
            },
    {
        if self.audio_config.buffer_size <= usize::MAX / 2 {
            self.audio_config.buffer_size * 2
        } else {
            usize::MAX
        }
    }

    /// The tick that was seen last.
    pub fn last_north_tick(&self) -> (t: Option<NorthTick>)
        ensures
            t == self.last_tick(),
    {
        self.last_north_tick
    }

    /// The rotation in Hz, where it is known.
    pub fn rotation_frequency(&self) -> (f: Option<Single>)
        ensures
            f == self.tracker().rotation_frequency_spec(),
    {
        self.north_tracker.rotation_frequency()
    }

    /// The scatter of the phase error, where the tracker has a loop.
    pub fn phase_error_variance(&self) -> (v: Option<Single>)
        ensures
            v == self.tracker().phase_error_variance_spec(),
    {
        self.north_tracker.phase_error_variance()
    }

    /// What there is to say of the north channel after the last buffer.
    pub fn channel_report(&self) -> (r: ChannelReport)
        ensures
            r == self.tracker().watch().report,
    {
        self.north_tracker.channel_report()
    }

    /// The filtered Doppler signal of the last buffer, or the unfiltered one
    /// where no bearings are measured.
    pub fn filtered_doppler(&self) -> (b: &[Single])
        ensures
            b@ == match self.calc() {
                Some(c) => c.base().work,
                None => self.doppler(),
            },
    {
        match &self.bearing_calc {
            Some(c) => c.filtered_buffer(),
            None => self.doppler_buf.as_slice(),
        }
    }

    /// The filtered north signal of the last buffer.
    pub fn filtered_north(&self) -> (b: &[Single])
        ensures
            b@ == self.tracker().filtered(),
    {
        self.north_tracker.filtered_buffer()
    }
}

} // verus!
