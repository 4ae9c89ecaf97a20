//! Comma separated values.
use crate::fields;
use crate::output;
use crate::output::{BearingOutput, Formatter};
use crate::single::Single;
use crate::text;
use vstd::prelude::*;

verus! {

/// Comma separated values, with a header line. A number that does not exist
/// leaves its cell empty.
pub struct CsvFormatter;

/// Cells of a line.
pub const CELLS: usize = 12;

/// The cells of a line, with commas between them.
pub open spec fn csv_line(o: BearingOutput, stamp: Seq<char>) -> Seq<char> {
    let none = ""@;
    let comma = ","@;
    stamp + comma + output::number_or(o.bearing, 1, none) + comma + output::number_or(
        o.raw,
        1,
        none,
    ) + comma + output::number_or(o.confidence, 2, none) + comma + output::number_or(
        o.snr_db,
        1,
        none,
    ) + comma + output::optional_or(o.bearing_uncertainty_deg, 2, none) + comma
        + output::number_or(o.signal_strength, 2, none) + comma + output::bool_text(
        o.signal_present,
    ) + comma + output::number_or(o.resultant_length, 3, none) + comma + output::number_or(
        o.tone_peak,
        4,
        none,
    ) + comma + output::optional_or(o.lock_quality, 2, none) + comma + output::optional_or(
        o.phase_error_variance,
        4,
        none,
    )
}

/// The cells of a line.
pub open spec fn csv_cells(o: BearingOutput, stamp: Seq<char>) -> Seq<Seq<char>> {
    let none = ""@;
    seq![
        stamp,
        output::number_or(o.bearing, 1, none),
        output::number_or(o.raw, 1, none),
        output::number_or(o.confidence, 2, none),
        output::number_or(o.snr_db, 1, none),
        output::optional_or(o.bearing_uncertainty_deg, 2, none),
        output::number_or(o.signal_strength, 2, none),
        output::bool_text(o.signal_present),
        output::number_or(o.resultant_length, 3, none),
        output::number_or(o.tone_peak, 4, none),
        output::optional_or(o.lock_quality, 2, none),
        output::optional_or(o.phase_error_variance, 4, none),
    ]
}

proof fn number_without_comma(x: Option<Single>, places: nat)
    ensures
        !output::optional_or(x, places, ""@).contains(','),
{
    reveal_strlit("");
    output::number_or_is_wire_safe(x, places, ""@);
    let s = output::optional_or(x, places, ""@);
    assert forall|i: int| 0 <= i < s.len() implies s[i] != ',' by {
        assert(text::is_number_char(s[i]));
    }
}

proof fn cells_hold_no_comma(o: BearingOutput, stamp: Seq<char>)
    requires
        output::is_stamp(stamp),
    ensures
        forall|i: int| 0 <= i < CELLS ==> !(#[trigger] csv_cells(o, stamp)[i]).contains(','),
{
    reveal_strlit("true");
    reveal_strlit("false");
    number_without_comma(Some(o.bearing), 1);
    number_without_comma(Some(o.raw), 1);
    number_without_comma(Some(o.confidence), 2);
    number_without_comma(Some(o.snr_db), 1);
    number_without_comma(o.bearing_uncertainty_deg, 2);
    number_without_comma(Some(o.signal_strength), 2);
    number_without_comma(Some(o.resultant_length), 3);
    number_without_comma(Some(o.tone_peak), 4);
    number_without_comma(o.lock_quality, 2);
    number_without_comma(o.phase_error_variance, 4);
    assert forall|i: int| 0 <= i < stamp.len() implies stamp[i] != ',' by {
        assert(output::is_stamp_char(stamp[i]));
    }
    assert(!output::bool_text(o.signal_present).contains(','));
}

proof fn line_joins_cells(o: BearingOutput, stamp: Seq<char>)
    ensures
        csv_line(o, stamp) == fields::joined(csv_cells(o, stamp), ","@),
{
    let c = csv_cells(o, stamp);
    fields::joined_more(c, ","@, 1);
    fields::joined_more(c, ","@, 2);
    fields::joined_more(c, ","@, 3);
    fields::joined_more(c, ","@, 4);
    fields::joined_more(c, ","@, 5);
    fields::joined_more(c, ","@, 6);
    fields::joined_more(c, ","@, 7);
    fields::joined_more(c, ","@, 8);
    fields::joined_more(c, ","@, 9);
    fields::joined_more(c, ","@, 10);
    fields::joined_more(c, ","@, 11);
    assert(c.take(1) =~= seq![stamp]);
    assert(c.take(12) =~= c);
    assert(fields::joined(c.take(1), ","@) == stamp);
}

/// A line splits into its cells, one for each name in the header: whatever the
/// numbers are, no cell holds a comma.
pub proof fn line_splits_into_cells(o: BearingOutput, stamp: Seq<char>)
    requires
        output::is_stamp(stamp),
    ensures
        fields::pieces(csv_line(o, stamp), ',') == csv_cells(o, stamp),
        csv_cells(o, stamp).len() == CELLS,
{
    reveal_strlit(",");
    assert(","@ =~= seq![',']);
    cells_hold_no_comma(o, stamp);
    line_joins_cells(o, stamp);
    fields::joined_splits(csv_cells(o, stamp), ',');
}

impl Formatter for CsvFormatter {
    open spec fn line(&self, output: BearingOutput, stamp: Seq<char>, millis: nat) -> Seq<char> {
        csv_line(output, stamp)
    }

    open spec fn heading(&self) -> Option<Seq<char>> {
        Some(
            "ts,bearing,raw,confidence,snr_db,bearing_uncertainty_deg,signal_strength,signal_present,resultant_length,tone_peak,lock_quality,phase_error_variance"@,
        )
    }

    fn format_at(&self, output: &BearingOutput, stamp: &str, millis: u64) -> (s: String) {
        let mut s: String = text::owned(stamp);
        s.append(",");
        output::push_number_or(&mut s, output.bearing, 1, "");
        s.append(",");
        output::push_number_or(&mut s, output.raw, 1, "");
        s.append(",");
        output::push_number_or(&mut s, output.confidence, 2, "");
        s.append(",");
        output::push_number_or(&mut s, output.snr_db, 1, "");
        s.append(",");
        output::push_optional_or(&mut s, output.bearing_uncertainty_deg, 2, "");
        s.append(",");
        output::push_number_or(&mut s, output.signal_strength, 2, "");
        s.append(",");
        output::push_bool(&mut s, output.signal_present);
        s.append(",");
        output::push_number_or(&mut s, output.resultant_length, 3, "");
        s.append(",");
        output::push_number_or(&mut s, output.tone_peak, 4, "");
        s.append(",");
        output::push_optional_or(&mut s, output.lock_quality, 2, "");
        s.append(",");
        output::push_optional_or(&mut s, output.phase_error_variance, 4, "");
        s
    }

    fn format(&self, output: &BearingOutput) -> (s: String)
        ensures
            fields::pieces(s@, ',').len() == CELLS,
    {
        let stamp: String = output::iso8601_timestamp();
        let s: String = self.format_at(output, stamp.as_str(), 0);
        assert(s@ == self.line(*output, stamp@, 0));
        proof {
            line_splits_into_cells(*output, stamp@);
        }
        s
    }

    fn header(&self) -> (h: Option<&'static str>) {
        Some(
            "ts,bearing,raw,confidence,snr_db,bearing_uncertainty_deg,signal_strength,signal_present,resultant_length,tone_peak,lock_quality,phase_error_variance",
        )
    }
}

} // verus!
