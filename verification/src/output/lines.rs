//! Lines for people to read, and the choice of a format.
use crate::output;
use crate::output::csv;
use crate::output::csv::CsvFormatter;
use crate::output::json;
use crate::output::json::JsonFormatter;
use crate::output::kn5r;
use crate::output::kn5r::Kn5rFormatter;
use crate::output::{BearingOutput, Formatter, OutputFormat};
use crate::single::Single;
use crate::text;
use vstd::prelude::*;

verus! {

/// Lines for people to read.
pub struct TextFormatter {
    verbose: bool,
}

/// A number with a number of decimals and a unit, or another text where there
/// is none.
pub open spec fn shown_or(
    x: Option<Single>,
    places: nat,
    unit: Seq<char>,
    otherwise: Seq<char>,
) -> Seq<char> {
    match x {
        Some(v) => text::fixed_text(v, places) + unit,
        None => otherwise,
    }
}

fn push_shown_or(s: &mut String, x: Option<Single>, places: u32, unit: &str, otherwise: &str)
    requires
        places <= 9,
    ensures
        final(s)@ == old(s)@ + shown_or(x, places as nat, unit@, otherwise@),
{
    match x {
        Some(v) => {
            text::push_fixed(s, v, places);
            s.append(unit);
            assert(s@ =~= old(s)@ + shown_or(x, places as nat, unit@, otherwise@));
        },
        None => {
            s.append(otherwise);
        },
    }
}

/// The line with the bearing and how far to trust it.
pub open spec fn short_line(o: BearingOutput) -> Seq<char> {
    "Bearing: "@ + text::fixed_text(o.bearing, 1) + "° (raw: "@ + text::fixed_text(o.raw, 1)
        + "°) confidence: "@ + text::fixed_text(o.confidence, 2) + if o.signal_present {
        ""@
    } else {
        "  [no signal]"@
    }
}

/// The line with everything that is known.
pub open spec fn verbose_line(o: BearingOutput) -> Seq<char> {
    "Bearing: "@ + text::padded(text::fixed_text(o.bearing, 1), 6) + "° (raw: "@ + text::padded(
        text::fixed_text(o.raw, 1),
        6,
    ) + "°) conf: "@ + text::fixed_text(o.confidence, 2) + " [SNR: "@ + text::padded(
        text::fixed_text(o.snr_db, 1),
        5,
    ) + " dB, +/-"@ + shown_or(o.bearing_uncertainty_deg, 1, "deg"@, "?"@) + ", str: "@
        + text::fixed_text(o.signal_strength, 2) + (if o.signal_present {
        ""@
    } else {
        " NO SIG"@
    }) + ", R: "@ + text::fixed_text(o.resultant_length, 2) + ", peak: "@ + text::fixed_text(
        o.tone_peak,
        3,
    ) + ", lock: "@ + shown_or(o.lock_quality, 2, ""@, "-"@) + ", pev: "@ + shown_or(
        o.phase_error_variance,
        4,
        ""@,
        "-"@,
    ) + "]"@
}

impl TextFormatter {
    pub closed spec fn is_verbose(&self) -> bool {
        self.verbose
    }

    pub fn new(verbose: bool) -> (f: TextFormatter)
        ensures
            f.is_verbose() == verbose,
    {
        TextFormatter { verbose }
    }
}

impl Formatter for TextFormatter {
    open spec fn line(&self, output: BearingOutput, stamp: Seq<char>, millis: nat) -> Seq<char> {
        if self.is_verbose() {
            verbose_line(output)
        } else {
            short_line(output)
        }
    }

    open spec fn heading(&self) -> Option<Seq<char>> {
        None
    }

    fn format_at(&self, output: &BearingOutput, stamp: &str, millis: u64) -> (s: String) {
        let mut s: String = text::owned("Bearing: ");
        if self.verbose {
            text::push_padded(&mut s, output.bearing, 1, 6);
            s.append("° (raw: ");
            text::push_padded(&mut s, output.raw, 1, 6);
            s.append("°) conf: ");
            text::push_fixed(&mut s, output.confidence, 2);
            s.append(" [SNR: ");
            text::push_padded(&mut s, output.snr_db, 1, 5);
            s.append(" dB, +/-");
            push_shown_or(&mut s, output.bearing_uncertainty_deg, 1, "deg", "?");
            s.append(", str: ");
            text::push_fixed(&mut s, output.signal_strength, 2);
            s.append(
                if output.signal_present {
                    ""
                } else {
                    " NO SIG"
                },
            );
            s.append(", R: ");
            text::push_fixed(&mut s, output.resultant_length, 2);
            s.append(", peak: ");
            text::push_fixed(&mut s, output.tone_peak, 3);
            s.append(", lock: ");
            push_shown_or(&mut s, output.lock_quality, 2, "", "-");
            s.append(", pev: ");
            push_shown_or(&mut s, output.phase_error_variance, 4, "", "-");
            s.append("]");
        } else {
            // The marker goes on the bearings that are not backed by a
            // signal, not on the ones that are: in service almost everything
            // has a signal behind it, and a word repeated on every good line
            // stops being read long before the one line that matters arrives.
            text::push_fixed(&mut s, output.bearing, 1);
            s.append("° (raw: ");
            text::push_fixed(&mut s, output.raw, 1);
            s.append("°) confidence: ");
            text::push_fixed(&mut s, output.confidence, 2);
            s.append(
                if output.signal_present {
                    ""
                } else {
                    "  [no signal]"
                },
            );
        }
        s
    }

    fn format(&self, output: &BearingOutput) -> (s: String) {
        let s: String = self.format_at(output, "", 0);
        proof {
            output::some_stamp();
        }
        assert(s@ == self.line(*output, "1970-01-01T00:00:00.000Z"@, 0));
        s
    }

    fn header(&self) -> (h: Option<&'static str>) {
        None
    }
}

/// A formatter of any of the formats.
pub enum AnyFormatter {
    Text(TextFormatter),
    Kn5r(Kn5rFormatter),
    Json(JsonFormatter),
    Csv(CsvFormatter),
}

impl Formatter for AnyFormatter {
    open spec fn line(&self, output: BearingOutput, stamp: Seq<char>, millis: nat) -> Seq<char> {
        match self {
            AnyFormatter::Text(f) => f.line(output, stamp, millis),
            AnyFormatter::Kn5r(f) => f.line(output, stamp, millis),
            AnyFormatter::Json(f) => f.line(output, stamp, millis),
            AnyFormatter::Csv(f) => f.line(output, stamp, millis),
        }
    }

    open spec fn heading(&self) -> Option<Seq<char>> {
        match self {
            AnyFormatter::Text(f) => f.heading(),
            AnyFormatter::Kn5r(f) => f.heading(),
            AnyFormatter::Json(f) => f.heading(),
            AnyFormatter::Csv(f) => f.heading(),
        }
    }

    fn format_at(&self, output: &BearingOutput, stamp: &str, millis: u64) -> (s: String) {
        match self {
            AnyFormatter::Text(f) => f.format_at(output, stamp, millis),
            AnyFormatter::Kn5r(f) => f.format_at(output, stamp, millis),
            AnyFormatter::Json(f) => f.format_at(output, stamp, millis),
            AnyFormatter::Csv(f) => f.format_at(output, stamp, millis),
        }
    }

    fn format(&self, output: &BearingOutput) -> (s: String) {
        let s: String = match self {
            AnyFormatter::Text(f) => f.format(output),
            AnyFormatter::Kn5r(f) => f.format(output),
            AnyFormatter::Json(f) => f.format(output),
            AnyFormatter::Csv(f) => f.format(output),
        };
        proof {
            let (stamp, millis) = match self {
                AnyFormatter::Text(f) => choose|stamp: Seq<char>, millis: nat|
                    output::is_stamp(stamp) && s@ == #[trigger] f.line(
                        *output,
                        stamp,
                        millis,
                    ),
                AnyFormatter::Kn5r(f) => choose|stamp: Seq<char>, millis: nat|
                    output::is_stamp(stamp) && s@ == #[trigger] f.line(
                        *output,
                        stamp,
                        millis,
                    ),
                AnyFormatter::Json(f) => choose|stamp: Seq<char>, millis: nat|
                    output::is_stamp(stamp) && s@ == #[trigger] f.line(
                        *output,
                        stamp,
                        millis,
                    ),
                AnyFormatter::Csv(f) => choose|stamp: Seq<char>, millis: nat|
                    output::is_stamp(stamp) && s@ == #[trigger] f.line(
                        *output,
                        stamp,
                        millis,
                    ),
            };
            assert(s@ == self.line(*output, stamp, millis));
        }
        s
    }

    fn header(&self) -> (h: Option<&'static str>) {
        match self {
            AnyFormatter::Text(f) => f.header(),
            AnyFormatter::Kn5r(f) => f.header(),
            AnyFormatter::Json(f) => f.header(),
            AnyFormatter::Csv(f) => f.header(),
        }
    }
}

/// The formatter for a format.
pub fn create_formatter(format: OutputFormat, verbose: bool) -> (f: AnyFormatter)
    ensures
        forall|o: BearingOutput, stamp: Seq<char>, millis: nat| #[trigger]
            f.line(o, stamp, millis) == line_in(format, verbose, o, stamp, millis),
        f.heading() == if format == OutputFormat::Csv {
            CsvFormatter.heading()
        } else {
            None
        },
{
    match format {
        OutputFormat::Text => AnyFormatter::Text(TextFormatter::new(verbose)),
        OutputFormat::Kn5r => AnyFormatter::Kn5r(Kn5rFormatter),
        OutputFormat::Json => AnyFormatter::Json(JsonFormatter),
        OutputFormat::Csv => AnyFormatter::Csv(CsvFormatter),
    }
}

/// The line for a bearing in a format.
pub open spec fn line_in(
    format: OutputFormat,
    verbose: bool,
    o: BearingOutput,
    stamp: Seq<char>,
    millis: nat,
) -> Seq<char> {
    match format {
        OutputFormat::Text => if verbose {
            verbose_line(o)
        } else {
            short_line(o)
        },
        OutputFormat::Kn5r => kn5r::sentence(o, millis),
        OutputFormat::Json => json::json_line(o, stamp),
        OutputFormat::Csv => csv::csv_line(o, stamp),
    }
}

} // verus!
