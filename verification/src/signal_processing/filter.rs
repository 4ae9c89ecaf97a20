//! What every audio filter offers.
use crate::double::Double;
use crate::signal_processing::fir_bandpass::FirBandpass;
use crate::signal_processing::fir_core;
use crate::signal_processing::fir_highpass::FirHighpass;
use crate::single::Single;
use vstd::prelude::*;

verus! {

/// Common trait for audio filters
///
/// Implemented by FirBandpass and FirHighpass.
pub trait Filter {
    /// Whether the filter is in order.
    spec fn ready(&self) -> bool;

    /// The coefficients.
    spec fn weights(&self) -> Seq<Double>;

    /// The newest samples, the newest first.
    spec fn newest(&self) -> Seq<Double>;

    /// Process a single sample through the filter
    fn process(&mut self, sample: Single) -> (output: Single)
        requires
            old(self).ready(),
        ensures
            final(self).ready(),
            final(self).weights() == old(self).weights(),
            final(self).newest() == fir_core::shifted_in(old(self).newest(), sample),
            output == fir_core::convolution(
                old(self).weights(),
                final(self).newest(),
                old(self).weights().len() as int,
            ).to_single_spec(),
    ;

    /// Process a buffer of samples in-place
    fn process_buffer(&mut self, buffer: &mut Vec<Single>)
        requires
            old(self).ready(),
        ensures
            final(self).ready(),
            final(self).weights() == old(self).weights(),
            final(self).newest() == fir_core::history_after(
                old(self).newest(),
                old(buffer)@,
                old(buffer)@.len() as int,
            ),
            final(buffer)@ == fir_core::filtered(
                old(self).weights(),
                old(self).newest(),
                old(buffer)@,
            ),
    ;
}

impl Filter for FirBandpass {
    open spec fn ready(&self) -> bool {
        self.wf()
    }

    open spec fn weights(&self) -> Seq<Double> {
        self.coefficients()
    }

    open spec fn newest(&self) -> Seq<Double> {
        self.history()
    }

    fn process(&mut self, sample: Single) -> (output: Single) {
        FirBandpass::process(self, sample)
    }

    fn process_buffer(&mut self, buffer: &mut Vec<Single>) {
        FirBandpass::process_buffer(self, buffer)
    }
}

impl Filter for FirHighpass {
    open spec fn ready(&self) -> bool {
        self.wf()
    }

    open spec fn weights(&self) -> Seq<Double> {
        self.coefficients()
    }

    open spec fn newest(&self) -> Seq<Double> {
        self.history()
    }

    fn process(&mut self, sample: Single) -> (output: Single) {
        FirHighpass::process(self, sample)
    }

    fn process_buffer(&mut self, buffer: &mut Vec<Single>) {
        FirHighpass::process_buffer(self, buffer)
    }
}

} // verus!
