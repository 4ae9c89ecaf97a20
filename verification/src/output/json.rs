//! One JSON object per line.
use crate::output;
use crate::output::{BearingOutput, Formatter};
use crate::text;
use vstd::prelude::*;

verus! {

/// One JSON object per line. Bare NaN and Infinity are not JSON, so a number
/// that does not exist is written as `null`.
pub struct JsonFormatter;

/// The members of the object, in order.
pub open spec fn json_line(o: BearingOutput, stamp: Seq<char>) -> Seq<char> {
    let none = "null"@;
    "{\"ts\":\""@ + stamp + "\",\"bearing\":"@ + output::number_or(o.bearing, 1, none)
        + ",\"raw\":"@ + output::number_or(o.raw, 1, none) + ",\"confidence\":"@
        + output::number_or(o.confidence, 2, none) + ",\"snr_db\":"@ + output::number_or(
        o.snr_db,
        1,
        none,
    ) + ",\"bearing_uncertainty_deg\":"@ + output::optional_or(
        o.bearing_uncertainty_deg,
        2,
        none,
    ) + ",\"signal_strength\":"@ + output::number_or(o.signal_strength, 2, none)
        + ",\"signal_present\":"@ + output::bool_text(o.signal_present)
        + ",\"resultant_length\":"@ + output::number_or(o.resultant_length, 3, none)
        + ",\"tone_peak\":"@ + output::number_or(o.tone_peak, 4, none) + ",\"lock_quality\":"@
        + output::optional_or(o.lock_quality, 2, none) + ",\"phase_error_variance\":"@
        + output::optional_or(o.phase_error_variance, 4, none) + "}"@
}

impl Formatter for JsonFormatter {
    open spec fn line(&self, output: BearingOutput, stamp: Seq<char>, millis: nat) -> Seq<char> {
        json_line(output, stamp)
    }

    open spec fn heading(&self) -> Option<Seq<char>> {
        None
    }

    fn format_at(&self, output: &BearingOutput, stamp: &str, millis: u64) -> (s: String) {
        let mut s: String = text::owned("{\"ts\":\"");
        s.append(stamp);
        s.append("\",\"bearing\":");
        output::push_number_or(&mut s, output.bearing, 1, "null");
        s.append(",\"raw\":");
        output::push_number_or(&mut s, output.raw, 1, "null");
        s.append(",\"confidence\":");
        output::push_number_or(&mut s, output.confidence, 2, "null");
        s.append(",\"snr_db\":");
        output::push_number_or(&mut s, output.snr_db, 1, "null");
        s.append(",\"bearing_uncertainty_deg\":");
        output::push_optional_or(&mut s, output.bearing_uncertainty_deg, 2, "null");
        s.append(",\"signal_strength\":");
        output::push_number_or(&mut s, output.signal_strength, 2, "null");
        s.append(",\"signal_present\":");
        output::push_bool(&mut s, output.signal_present);
        s.append(",\"resultant_length\":");
        output::push_number_or(&mut s, output.resultant_length, 3, "null");
        s.append(",\"tone_peak\":");
        output::push_number_or(&mut s, output.tone_peak, 4, "null");
        s.append(",\"lock_quality\":");
        output::push_optional_or(&mut s, output.lock_quality, 2, "null");
        s.append(",\"phase_error_variance\":");
        output::push_optional_or(&mut s, output.phase_error_variance, 4, "null");
        s.append("}");
        s
    }

    fn format(&self, output: &BearingOutput) -> (s: String) {
        let stamp: String = output::iso8601_timestamp();
        let s: String = self.format_at(output, stamp.as_str(), 0);
        assert(s@ == self.line(*output, stamp@, 0));
        s
    }

    fn header(&self) -> (h: Option<&'static str>) {
        None
    }
}

} // verus!
