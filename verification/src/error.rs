//! Errors of the receiver.
use crate::single::Single;
use crate::text;
use vstd::prelude::*;

verus! {

/// A message with numbers in it. How a number is written is up to whoever
/// shows the message: the pieces of text stand around and between them.
#[derive(Debug)]
pub struct Template {
    pieces: Vec<String>,
    numbers: Vec<Single>,
}

/// The pieces of text, and the numbers between them.
pub ghost struct Layout {
    pub pieces: Seq<Seq<char>>,
    pub numbers: Seq<Single>,
}

/// The pieces with texts in between, from piece `k` on.
pub open spec fn woven(pieces: Seq<Seq<char>>, shown: Seq<Seq<char>>, k: int) -> Seq<char>
    decreases pieces.len() - k,
{
    if k >= pieces.len() {
        Seq::empty()
    } else if k < shown.len() {
        pieces[k] + shown[k] + woven(pieces, shown, k + 1)
    } else {
        pieces[k] + woven(pieces, shown, k + 1)
    }
}

pub open spec fn views(texts: Seq<String>) -> Seq<Seq<char>> {
    texts.map_values(|t: String| t@)
}

/// A message without numbers.
pub open spec fn plain(a: Seq<char>) -> Layout {
    Layout { pieces: seq![a], numbers: Seq::empty() }
}

/// A message with one number.
pub open spec fn with_one(a: Seq<char>, x: Single, b: Seq<char>) -> Layout {
    Layout { pieces: seq![a, b], numbers: seq![x] }
}

/// A message with two numbers.
pub open spec fn with_two(
    a: Seq<char>,
    x: Single,
    b: Seq<char>,
    y: Single,
    c: Seq<char>,
) -> Layout {
    Layout { pieces: seq![a, b, c], numbers: seq![x, y] }
}

/// A message with three numbers.
pub open spec fn with_three(
    a: Seq<char>,
    x: Single,
    b: Seq<char>,
    y: Single,
    c: Seq<char>,
    z: Single,
    d: Seq<char>,
) -> Layout {
    Layout { pieces: seq![a, b, c, d], numbers: seq![x, y, z] }
}

impl View for Template {
    type V = Layout;

    closed spec fn view(&self) -> Layout {
        Layout { pieces: views(self.pieces@), numbers: self.numbers@ }
    }
}

impl Template {
    /// A message without numbers.
    pub fn plain(a: &str) -> (t: Template)
        ensures
            t@ == plain(a@),
    {
        let pieces: Vec<String> = vec![text::owned(a)];
        let t: Template = Template { pieces, numbers: Vec::new() };
        assert(t@.pieces =~= plain(a@).pieces);
        t
    }

    /// A message with one number.
    pub fn with_one(a: &str, x: Single, b: &str) -> (t: Template)
        ensures
            t@ == with_one(a@, x, b@),
    {
        let pieces: Vec<String> = vec![text::owned(a), text::owned(b)];
        let numbers: Vec<Single> = vec![x];
        let t: Template = Template { pieces, numbers };
        assert(t@.pieces =~= with_one(a@, x, b@).pieces);
        assert(t@.numbers =~= with_one(a@, x, b@).numbers);
        t
    }

    /// A message with two numbers.
    pub fn with_two(a: &str, x: Single, b: &str, y: Single, c: &str) -> (t: Template)
        ensures
            t@ == with_two(a@, x, b@, y, c@),
    {
        let pieces: Vec<String> = vec![text::owned(a), text::owned(b), text::owned(c)];
        let numbers: Vec<Single> = vec![x, y];
        let t: Template = Template { pieces, numbers };
        assert(t@.pieces =~= with_two(a@, x, b@, y, c@).pieces);
        assert(t@.numbers =~= with_two(a@, x, b@, y, c@).numbers);
        t
    }

    /// A message with three numbers.
    pub fn with_three(
        a: &str,
        x: Single,
        b: &str,
        y: Single,
        c: &str,
        z: Single,
        d: &str,
    ) -> (t: Template)
        ensures
            t@ == with_three(a@, x, b@, y, c@, z, d@),
    {
        let pieces: Vec<String> = vec![
            text::owned(a),
            text::owned(b),
            text::owned(c),
            text::owned(d),
        ];
        let numbers: Vec<Single> = vec![x, y, z];
        let t: Template = Template { pieces, numbers };
        assert(t@.pieces =~= with_three(a@, x, b@, y, c@, z, d@).pieces);
        assert(t@.numbers =~= with_three(a@, x, b@, y, c@, z, d@).numbers);
        t
    }

    /// A message with four numbers.
    pub fn with_four(
        a: &str,
        w: Single,
        b: &str,
        x: Single,
        c: &str,
        y: Single,
        d: &str,
        z: Single,
        e: &str,
    ) -> (t: Template)
        ensures
            t@ == (Layout { pieces: seq![a@, b@, c@, d@, e@], numbers: seq![w, x, y, z] }),
    {
        let pieces: Vec<String> = vec![
            text::owned(a),
            text::owned(b),
            text::owned(c),
            text::owned(d),
            text::owned(e),
        ];
        let numbers: Vec<Single> = vec![w, x, y, z];
        let t: Template = Template { pieces, numbers };
        assert(t@.pieces =~= seq![a@, b@, c@, d@, e@]);
        assert(t@.numbers =~= seq![w, x, y, z]);
        t
    }

    /// The numbers in the message, in the order in which they appear.
    pub fn numbers(&self) -> (n: &[Single])
        ensures
            n@ == self@.numbers,
    {
        self.numbers.as_slice()
    }

    /// The message, with the numbers as they are to be shown.
    pub fn fill(&self, shown: &[String]) -> (s: String)
        ensures
            s@ == woven(self@.pieces, views(shown@), 0),
    {
        let mut s: String = String::new();
        let mut k: usize = 0;
        while k < self.pieces.len()
            invariant
                k <= self.pieces.len(),
                s@ + woven(self@.pieces, views(shown@), k as int) == woven(
                    self@.pieces,
                    views(shown@),
                    0,
                ),
            decreases self.pieces.len() - k,
        {
            let ghost before = s@;
            let ghost rest = woven(self@.pieces, views(shown@), k + 1);
            s.append(self.pieces[k].as_str());
            if k < shown.len() {
                s.append(shown[k].as_str());
                assert(s@ + rest =~= before + (self@.pieces[k as int] + views(shown@)[k as int]
                    + rest));
            } else {
                assert(s@ + rest =~= before + (self@.pieces[k as int] + rest));
            }
            k = k + 1;
        }
        assert(s@ + woven(self@.pieces, views(shown@), k as int) =~= s@);
        s
    }
}

/// What can go wrong between the sound card and a bearing.
#[derive(Debug)]
pub enum RdfError {
    AudioDevice(String),
    AudioStream(String),
    UnsupportedWav(String),
    FilterDesign(Template),
    /// Milliseconds without a tick.
    NoNorthTick(Single),
    InsufficientData { needed: usize, available: usize },
    Config(Template),
    PhaseError(String),
}

/// The text that an error shows, with the numbers of its message as they are
/// to be shown.
pub open spec fn error_text(e: RdfError, shown: Seq<Seq<char>>) -> Seq<char> {
    match e {
        RdfError::AudioDevice(s) => "Audio device error: "@ + s@,
        RdfError::AudioStream(s) => "Audio stream error: "@ + s@,
        RdfError::UnsupportedWav(s) => "Unsupported WAV file: "@ + s@,
        RdfError::FilterDesign(t) => "Filter design failed: "@ + woven(t@.pieces, shown, 0),
        RdfError::NoNorthTick(ms) => "No north tick detected for "@ + text::fixed_text(ms, 1)
            + "ms"@,
        RdfError::InsufficientData { needed, available } => "Insufficient data: need "@
            + text::decimal(needed as nat) + " samples, have "@ + text::decimal(available as nat),
        RdfError::Config(t) => "Configuration error: "@ + woven(t@.pieces, shown, 0),
        RdfError::PhaseError(s) => "Phase calculation failed: "@ + s@,
    }
}

impl RdfError {
    /// The text that the error shows, with the numbers of its message as they
    /// are to be shown.
    pub fn message(&self, shown: &[String]) -> (s: String)
        ensures
            s@ == error_text(*self, views(shown@)),
    {
        let mut s: String = String::new();
        match self {
            RdfError::AudioDevice(what) => {
                s.append("Audio device error: ");
                s.append(what.as_str());
            },
            RdfError::AudioStream(what) => {
                s.append("Audio stream error: ");
                s.append(what.as_str());
            },
            RdfError::UnsupportedWav(what) => {
                s.append("Unsupported WAV file: ");
                s.append(what.as_str());
            },
            RdfError::FilterDesign(what) => {
                s.append("Filter design failed: ");
                s.append(what.fill(shown).as_str());
            },
            RdfError::NoNorthTick(ms) => {
                s.append("No north tick detected for ");
                text::push_fixed(&mut s, *ms, 1);
                s.append("ms");
            },
            RdfError::InsufficientData { needed, available } => {
                s.append("Insufficient data: need ");
                text::push_decimal(&mut s, *needed as u128);
                s.append(" samples, have ");
                text::push_decimal(&mut s, *available as u128);
            },
            RdfError::Config(what) => {
                s.append("Configuration error: ");
                s.append(what.fill(shown).as_str());
            },
            RdfError::PhaseError(what) => {
                s.append("Phase calculation failed: ");
                s.append(what.as_str());
            },
        }
        assert(s@ =~= error_text(*self, views(shown@)));
        s
    }
}

} // verus!
