//! FIR bandpass filter with linear phase response.
use crate::double::Double;
use crate::error;
use crate::error::Template;
use crate::signal_processing::fir_core;
use crate::signal_processing::fir_core::FirFilterCore;
use crate::signal_processing::fir_highpass;
use crate::single::Single;
use vstd::prelude::*;

verus! {

/// Where the bands of a bandpass end and start, as fractions of the sample
/// rate: the end of the lower stopband, the passband, and the start of the
/// upper stopband.
#[derive(Clone, Copy, Debug, PartialEq, Eq, Structural)]
pub struct BandEdges {
    pub stop_end: Double,
    pub pass_start: Double,
    pub pass_end: Double,
    pub stop_start: Double,
}

pub open spec fn bandpass_edges(
    low_hz: Single,
    high_hz: Single,
    sample_rate: Single,
    transition_hz: Single,
) -> BandEdges {
    let low = fir_highpass::normalized_spec(low_hz, sample_rate);
    let high = fir_highpass::normalized_spec(high_hz, sample_rate);
    let transition = fir_highpass::normalized_spec(transition_hz, sample_rate);
    BandEdges {
        stop_end: low.minus_spec(transition).max_spec(Double { bits: fir_highpass::LOWEST_EDGE }),
        pass_start: low,
        pass_end: high,
        stop_start: high.plus_spec(transition).min_spec(
            Double { bits: fir_highpass::HIGHEST_EDGE },
        ),
    }
}

/// Whether the passband leaves no room for a stopband on either side.
pub open spec fn crowded(e: BandEdges) -> bool {
    e.pass_start.le_spec(e.stop_end) || e.stop_start.le_spec(e.pass_end)
}

/// FIR bandpass filter with linear phase response
///
/// Linear phase ensures all frequency components are delayed equally,
/// preserving waveform shape and accurate phase measurements. The
/// coefficients come from the Parks-McClellan algorithm, run on the band
/// edges that `design_edges` gives.
pub struct FirBandpass {
    core: FirFilterCore,
}

impl FirBandpass {
    pub closed spec fn wf(&self) -> bool {
        self.core.wf()
    }

    pub closed spec fn coefficients(&self) -> Seq<Double> {
        self.core.coefficients()
    }

    /// The samples in the delay line, the newest first.
    pub closed spec fn history(&self) -> Seq<Double> {
        self.core.history()
    }

    /// The band edges to design a bandpass for, where its bands leave room
    /// for one another.
    ///
    /// # Arguments
    /// * `low_hz` - Lower cutoff frequency in Hz
    /// * `high_hz` - Upper cutoff frequency in Hz
    /// * `sample_rate` - Audio sample rate in Hz
    /// * `transition_hz` - Width of the transitions in Hz
    pub fn design_edges(
        low_hz: Single,
        high_hz: Single,
        sample_rate: Single,
        transition_hz: Single,
    ) -> (r: Result<BandEdges, Template>)
        ensures
            ({
                let edges = bandpass_edges(low_hz, high_hz, sample_rate, transition_hz);
                match r {
                    Ok(e) => e == edges && !crowded(edges),
                    Err(t) => crowded(edges) && t@ == (error::Layout {
                        pieces: seq![
                            "Invalid filter frequencies: low="@,
                            ", high="@,
                            ", sample_rate="@,
                            ", transition="@,
                            ""@,
                        ],
                        numbers: seq![low_hz, high_hz, sample_rate, transition_hz],
                    }),
                }
            }),
    {
        let low: Double = fir_highpass::normalized(low_hz, sample_rate);
        let high: Double = fir_highpass::normalized(high_hz, sample_rate);
        let transition: Double = fir_highpass::normalized(transition_hz, sample_rate);
        let stop_end: Double = low.minus(transition).max(
            Double::from_bits(fir_highpass::LOWEST_EDGE),
        );
        let stop_start: Double = high.plus(transition).min(
            Double::from_bits(fir_highpass::HIGHEST_EDGE),
        );
        if low.at_most(stop_end) || stop_start.at_most(high) {
            return Err(
                Template::with_four(
                    "Invalid filter frequencies: low=",
                    low_hz,
                    ", high=",
                    high_hz,
                    ", sample_rate=",
                    sample_rate,
                    ", transition=",
                    transition_hz,
                    "",
                ),
            );
        }
        Ok(BandEdges { stop_end, pass_start: low, pass_end: high, stop_start })
    }

    /// A filter with the given coefficients.
    pub fn from_taps(taps: Vec<Double>) -> (f: FirBandpass)
        requires
            taps.len() > 0,
        ensures
            f.wf(),
            f.coefficients() == taps@,
            f.history() == Seq::new(taps@.len(), |i: int| Double { bits: 0 }),
    {
        FirBandpass { core: FirFilterCore::new(taps) }
    }

    /// Process a single audio sample through the filter
    pub fn process(&mut self, sample: Single) -> (output: Single)
        requires
            old(self).wf(),
        ensures
            final(self).wf(),
            final(self).coefficients() == old(self).coefficients(),
            final(self).history() == fir_core::shifted_in(old(self).history(), sample),
            output == fir_core::convolution(
                old(self).coefficients(),
                final(self).history(),
                old(self).coefficients().len() as int,
            ).to_single_spec(),
    {
        self.core.process(sample)
    }

    /// Process an entire buffer of audio samples in-place
    pub fn process_buffer(&mut self, buffer: &mut Vec<Single>)
        requires
            old(self).wf(),
        ensures
            final(self).wf(),
            final(self).coefficients() == old(self).coefficients(),
            final(self).history() == fir_core::history_after(
                old(self).history(),
                old(buffer)@,
                old(buffer)@.len() as int,
            ),
            final(buffer)@ == fir_core::filtered(
                old(self).coefficients(),
                old(self).history(),
                old(buffer)@,
            ),
    {
        self.core.process_buffer(buffer)
    }

    /// Get the number of taps (filter length)
    pub fn num_taps(&self) -> (n: usize)
        ensures
            n == self.coefficients().len(),
    {
        self.core.num_taps()
    }

    /// Get the group delay in samples (half the filter length for linear phase)
    pub fn group_delay_samples(&self) -> (n: usize)
        requires
            self.wf(),
        ensures
            n == (self.coefficients().len() - 1) / 2,
    {
        self.core.group_delay_samples()
    }
}

} // verus!
