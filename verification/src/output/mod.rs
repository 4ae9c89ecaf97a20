//! Output of bearings as lines of text.
use crate::single::Single;
use crate::text;
use vstd::prelude::*;

pub mod csv;
pub mod json;
pub mod kn5r;
pub mod lines;

verus! {

/// The formats that bearings can be written in.
#[derive(Debug, Clone, Copy, PartialEq, Eq, Structural)]
pub enum OutputFormat {
    Text,
    Kn5r,
    Json,
    Csv,
}

/// One bearing to write out.
#[derive(Debug, Clone, Copy, PartialEq, Eq)]
pub struct BearingOutput {
    pub bearing: Single,
    pub raw: Single,
    pub confidence: Single,
    pub snr_db: Single,
    /// One-sigma bearing uncertainty in degrees, or None where it could not
    /// be estimated.
    pub bearing_uncertainty_deg: Option<Single>,
    pub signal_strength: Single,
    /// Whether the pipeline judged a signal to be present, by the threshold
    /// for the method in use. Reported rather than enforced: everything else
    /// in this struct is filled in either way.
    pub signal_present: bool,
    /// Largest positive sample of the filtered Doppler signal, in full-scale
    /// units. Unscaled: the KN5R sentence wants thousandths and does that
    /// conversion itself.
    pub tone_peak: Single,
    /// Mean resultant length of the Doppler phase, 0 to 1. Whether the looks
    /// agreed with each other, which is neither how strong they were nor how
    /// uncertain the answer is. Unscaled, as above.
    pub resultant_length: Single,
    pub lock_quality: Option<Single>,
    pub phase_error_variance: Option<Single>,
}

/// A text that has the layout of a time stamp.
pub proof fn some_stamp()
    ensures
        is_stamp("1970-01-01T00:00:00.000Z"@),
{
    reveal_strlit("1970-01-01T00:00:00.000Z");
}

/// Whether a character can stand in a time stamp.
pub open spec fn is_stamp_char(c: char) -> bool {
    '0' <= c <= '9' || c == '-' || c == '+' || c == 'T' || c == ':' || c == '.' || c == 'Z'
}

pub open spec fn is_digit(c: char) -> bool {
    '0' <= c <= '9'
}

/// Whether a text can be a time stamp in UTC: a year of at least four digits,
/// and behind it two digits each for month, day, hour, minute and second, with
/// three decimals of the second.
pub open spec fn is_stamp(s: Seq<char>) -> bool {
    let n = s.len() as int;
    &&& n >= 24
    &&& forall|i: int| 0 <= i < n ==> is_stamp_char(#[trigger] s[i])
    &&& s[n - 20] == '-'
    &&& is_digit(s[n - 19]) && is_digit(s[n - 18])
    &&& s[n - 17] == '-'
    &&& is_digit(s[n - 16]) && is_digit(s[n - 15])
    &&& s[n - 14] == 'T'
    &&& is_digit(s[n - 13]) && is_digit(s[n - 12])
    &&& s[n - 11] == ':'
    &&& is_digit(s[n - 10]) && is_digit(s[n - 9])
    &&& s[n - 8] == ':'
    &&& is_digit(s[n - 7]) && is_digit(s[n - 6])
    &&& s[n - 5] == '.'
    &&& is_digit(s[n - 4]) && is_digit(s[n - 3]) && is_digit(s[n - 2])
    &&& s[n - 1] == 'Z'
}

/// A way to write bearings out, one line each.
pub trait Formatter {
    /// The line for a bearing at a time, given as text and in milliseconds.
    spec fn line(&self, output: BearingOutput, stamp: Seq<char>, millis: nat) -> Seq<char>;

    spec fn heading(&self) -> Option<Seq<char>>;

    /// The line for a bearing at a given time.
    fn format_at(&self, output: &BearingOutput, stamp: &str, millis: u64) -> (s: String)
        ensures
            s@ == self.line(*output, stamp@, millis as nat),
    ;

    /// The line for a bearing now.
    fn format(&self, output: &BearingOutput) -> (s: String)
        ensures
            exists|stamp: Seq<char>, millis: nat|
                is_stamp(stamp) && s@ == #[trigger] self.line(*output, stamp, millis),
    ;

    /// The line ahead of all others, where the format has one.
    fn header(&self) -> (h: Option<&'static str>)
        ensures
            match h {
                Some(s) => self.heading() == Some(s@),
                None => self.heading() is None,
            },
    ;
}

/// The current time in UTC, by `chrono::Utc::now`, formatted with
/// `chrono::DateTime::format` as year, month, day, hour, minute and second with
/// three decimals. Of the text its layout is claimed: a year of at least four
/// digits, with a sign where it takes more, and the other parts with as many
/// digits as they have, between their separators and ahead of a closing `Z`.
/// Which time it tells depends on the clock. `Utc::now` panics where the clock
/// stands before 1970.
#[verifier::external_body]
pub fn iso8601_timestamp() -> (s: String)
    ensures
        is_stamp(s@),
{
    chrono::Utc::now().format("%Y-%m-%dT%H:%M:%S%.3fZ").to_string()
}

/// The current time in milliseconds since 1970, by `chrono::Utc::now` and
/// `chrono::DateTime::timestamp_millis`. Nothing is claimed of the number: it
/// depends on the clock. `Utc::now` panics where the clock stands before 1970.
#[verifier::external_body]
pub fn timestamp_millis() -> (ms: u64) {
    chrono::Utc::now().timestamp_millis() as u64
}

/// The number with a number of decimals, or another text where the number does
/// not exist.
pub open spec fn number_or(x: Single, places: nat, otherwise: Seq<char>) -> Seq<char> {
    if x.finite() {
        text::fixed_text(x, places)
    } else {
        otherwise
    }
}

/// The number with a number of decimals, or another text where there is none
/// or it does not exist.
pub open spec fn optional_or(x: Option<Single>, places: nat, otherwise: Seq<char>) -> Seq<char> {
    match x {
        Some(v) => number_or(v, places, otherwise),
        None => otherwise,
    }
}

/// Writes a number with a number of decimals at the end of a text, or another
/// text where the number does not exist.
pub fn push_number_or(out: &mut String, x: Single, places: u32, otherwise: &str)
    requires
        places <= 9,
    ensures
        final(out)@ == old(out)@ + number_or(x, places as nat, otherwise@),
{
    if x.is_finite() {
        text::push_fixed(out, x, places);
    } else {
        out.append(otherwise);
    }
}

/// Writes a number with a number of decimals at the end of a text, or another
/// text where there is none or it does not exist.
pub fn push_optional_or(out: &mut String, x: Option<Single>, places: u32, otherwise: &str)
    requires
        places <= 9,
    ensures
        final(out)@ == old(out)@ + optional_or(x, places as nat, otherwise@),
{
    match x {
        Some(v) => push_number_or(out, v, places, otherwise),
        None => out.append(otherwise),
    }
}

/// Whatever a number is, what stands for it is made of the characters of a
/// decimal number, or is the text for no number.
pub proof fn number_or_is_wire_safe(x: Option<Single>, places: nat, otherwise: Seq<char>)
    ensures
        text::is_number_text(optional_or(x, places, otherwise)) && optional_or(
            x,
            places,
            otherwise,
        ).len() > 0 || optional_or(x, places, otherwise) == otherwise,
{
    if let Some(v) = x {
        if v.finite() {
            text::finite_is_number_text(v, places);
        }
    }
}

pub open spec fn bool_text(b: bool) -> Seq<char> {
    if b {
        "true"@
    } else {
        "false"@
    }
}

/// Writes a truth value at the end of a text.
pub fn push_bool(out: &mut String, b: bool)
    ensures
        final(out)@ == old(out)@ + bool_text(b),
{
    if b {
        out.append("true");
    } else {
        out.append("false");
    }
}

} // verus!
