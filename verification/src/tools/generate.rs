//! Which test recordings to generate, and what to call them.
use crate::fields;
use crate::single::Single;
use crate::text;
use vstd::prelude::*;

verus! {

/// How far apart the seeds of trials are.
pub const TRIAL_STEP: u64 = 1000;

/// A request for bearings, taken apart: a range with a step, or a list.
pub enum Request {
    /// The ends of the range, and the step
    Steps(Vec<String>, String),
    Items(Vec<String>),
}

/// Why a range is refused.
pub open spec fn range_refusal() -> Seq<char> {
    "Invalid range format. Use 'start-end:step'"@
}

/// Whether a request is that of a text.
pub open spec fn is_request(s: Seq<char>, r: Request) -> bool {
    match r {
        Request::Steps(ends, step) => {
            &&& s.contains(':')
            &&& fields::pieces(s, ':').len() == 2
            &&& step@ == fields::pieces(s, ':')[1]
            &&& fields::contents(ends@) == fields::pieces(fields::pieces(s, ':')[0], '-')
        },
        Request::Items(items) => {
            &&& !s.contains(':')
            &&& fields::contents(items@) == fields::pieces(s, ',').map_values(
                |p: Seq<char>| text::trimmed(p),
            )
        },
    }
}

/// Take a request for bearings apart: comma-separated (`45,90,180`), or a
/// range (`0-360:15`).
pub fn split_bearings(s: &str) -> (r: Result<Request, String>)
    ensures
        match r {
            Ok(request) => is_request(s@, request),
            Err(m) => {
                &&& s@.contains(':')
                &&& fields::pieces(s@, ':').len() != 2
                &&& m@ == range_refusal()
            },
        },
{
    if fields::has_char(s, ':') {
        let parts: Vec<String> = fields::split(s, ':');
        assert(fields::contents(parts@).len() == parts@.len());
        if parts.len() != 2 {
            return Err(text::owned("Invalid range format. Use 'start-end:step'"));
        }
        assert(fields::contents(parts@)[0] == parts@[0]@);
        assert(fields::contents(parts@)[1] == parts@[1]@);
        let ends: Vec<String> = fields::split(parts[0].as_str(), '-');
        let step: String = text::owned(parts[1].as_str());
        Ok(Request::Steps(ends, step))
    } else {
        let parts: Vec<String> = fields::split(s, ',');
        let ghost all = fields::pieces(s@, ',').map_values(|p: Seq<char>| text::trimmed(p));
        let mut items: Vec<String> = Vec::new();
        let mut i: usize = 0;
        assert(fields::contents(parts@).len() == parts@.len());
        while i < parts.len()
            invariant
                i <= parts.len(),
                fields::contents(parts@) == fields::pieces(s@, ','),
                all == fields::pieces(s@, ',').map_values(|p: Seq<char>| text::trimmed(p)),
                all.len() == parts@.len(),
                fields::contents(items@) == all.take(i as int),
            decreases parts.len() - i,
        {
            let ghost before = fields::contents(items@);
            assert(fields::contents(parts@)[i as int] == parts@[i as int]@);
            items.push(text::owned(text::trim(parts[i].as_str())));
            i = i + 1;
            assert(fields::contents(items@) =~= before.push(items@.last()@));
            assert(fields::contents(items@) =~= all.take(i as int));
        }
        assert(fields::contents(items@) =~= all);
        Ok(Request::Items(items))
    }
}

/// How far a number lies from a limit that it does not exceed.
pub open spec fn room(x: Single, limit: Single) -> nat {
    if x.le_spec(limit) {
        (limit.rank() - x.rank() + 1) as nat
    } else {
        0
    }
}

/// Numbers a step apart, from a first one up to a last one, as long as the
/// steps advance.
pub open spec fn rungs(first: Single, step: Single, last: Single) -> Seq<Single>
    decreases room(first, last),
{
    if !first.le_spec(last) {
        Seq::empty()
    } else {
        let next = first.plus_spec(step);
        if first.lt_spec(next) {
            seq![first] + rungs(next, step, last)
        } else {
            seq![first]
        }
    }
}

/// The bearings of a range. A step that does not advance ends it.
pub fn range_bearings(first: Single, step: Single, last: Single) -> (r: Vec<Single>)
    ensures
        r@ == rungs(first, step, last),
{
    let mut r: Vec<Single> = Vec::new();
    let mut b: Single = first;
    let mut going: bool = true;
    let ghost whole = rungs(first, step, last);
    assert(r@ + whole =~= whole);
    while going && b.at_most(last)
        invariant
            going ==> r@ + rungs(b, step, last) == whole,
            !going ==> r@ == whole,
        decreases
            if going {
                1int
            } else {
                0int
            },
            room(b, last),
    {
        let ghost before = r@;
        let ghost rest = rungs(b, step, last);
        let next: Single = b.plus(step);
        r.push(b);
        if b.less_than(next) {
            assert(r@ + rungs(next, step, last) =~= before + rest);
            b = next;
        } else {
            assert(r@ =~= before + rest);
            going = false;
        }
    }
    assert(r@ =~= whole);
    r
}

/// No bearing of a range lies outside it.
pub proof fn range_is_within(first: Single, step: Single, last: Single, i: int)
    requires
        0 <= i < rungs(first, step, last).len(),
    ensures
        first.le_spec(rungs(first, step, last)[i]),
        rungs(first, step, last)[i].le_spec(last),
    decreases room(first, last),
{
    let next = first.plus_spec(step);
    if first.lt_spec(next) {
        let rest = rungs(next, step, last);
        if i > 0 {
            assert(rungs(first, step, last)[i] == rest[i - 1]);
            range_is_within(next, step, last, i - 1);
        }
    }
}

/// The bearings that a range asks for, from what its parts read as.
pub open spec fn range_spec(
    ends: Seq<Option<Single>>,
    step: Option<Single>,
) -> Result<Seq<Single>, Seq<char>> {
    match step {
        None => Err("Invalid step value"@),
        Some(step) => if ends.len() != 2 {
            Err(range_refusal())
        } else {
            match (ends[0], ends[1]) {
                (None, _) => Err("Invalid start value"@),
                (_, None) => Err("Invalid end value"@),
                (Some(first), Some(last)) => Ok(rungs(first, step, last)),
            }
        },
    }
}

/// Whether bearings, or the refusal of them, are as they should be.
pub open spec fn answers(
    r: Result<Vec<Single>, String>,
    wanted: Result<Seq<Single>, Seq<char>>,
) -> bool {
    match (r, wanted) {
        (Ok(b), Ok(w)) => b@ == w,
        (Err(m), Err(w)) => m@ == w,
        _ => false,
    }
}

/// The bearings that a range asks for.
///
/// # Arguments
/// * `ends`, `step` - what the parts of the range read as, where they read as
///   numbers
pub fn expand_range(ends: &[Option<Single>], step: Option<Single>) -> (r: Result<
    Vec<Single>,
    String,
>)
    ensures
        answers(r, range_spec(ends@, step)),
{
    match step {
        None => Err(text::owned("Invalid step value")),
        Some(step) => {
            if ends.len() != 2 {
                return Err(text::owned("Invalid range format. Use 'start-end:step'"));
            }
            match (ends[0], ends[1]) {
                (None, _) => Err(text::owned("Invalid start value")),
                (_, None) => Err(text::owned("Invalid end value")),
                (Some(first), Some(last)) => Ok(range_bearings(first, step, last)),
            }
        },
    }
}

/// The bearings that a list asks for, from what its items read as.
pub open spec fn list_spec(items: Seq<Option<Single>>) -> Result<Seq<Single>, Seq<char>> {
    if forall|i: int| 0 <= i < items.len() ==> (#[trigger] items[i]) is Some {
        Ok(Seq::new(items.len(), |i: int| items[i]->0))
    } else {
        Err("Invalid bearing value"@)
    }
}

/// The bearings that a list asks for.
pub fn list_bearings(items: &[Option<Single>]) -> (r: Result<Vec<Single>, String>)
    ensures
        answers(r, list_spec(items@)),
{
    let mut b: Vec<Single> = Vec::new();
    let mut i: usize = 0;
    while i < items.len()
        invariant
            i <= items.len(),
            b@.len() == i,
            forall|k: int|
                0 <= k < i ==> (#[trigger] items@[k]) is Some && b@[k] == items@[k]->0,
        decreases items.len() - i,
    {
        match items[i] {
            Some(x) => b.push(x),
            None => {
                assert(items@[i as int] is None);
                return Err(text::owned("Invalid bearing value"));
            },
        }
        i = i + 1;
    }
    assert(b@ =~= Seq::new(items@.len(), |i: int| items@[i]->0));
    Ok(b)
}

/// The seed of a recording.
pub open spec fn seed_spec(base: u64, trial: u32, bearing: Single) -> int {
    base + trial * TRIAL_STEP + bearing.to_count_spec()
}

/// The seed of a recording: its own for every trial and every whole degree.
pub fn seed(base: u64, trial: u32, bearing: Single) -> (s: u64)
    requires
        seed_spec(base, trial, bearing) <= u64::MAX,
    ensures
        s == seed_spec(base, trial, bearing),
{
    base + trial as u64 * TRIAL_STEP + bearing.to_count() as u64
}

/// Two recordings of a run have different seeds, where their trials or their
/// bearings differ and the bearings are whole degrees below the step.
pub proof fn seeds_differ(base: u64, t: u32, u: u32, b: Single, c: Single)
    requires
        b.to_count_spec() < TRIAL_STEP,
        c.to_count_spec() < TRIAL_STEP,
        t != u || b.to_count_spec() != c.to_count_spec(),
    ensures
        seed_spec(base, t, b) != seed_spec(base, u, c),
{
}

/// The whole degrees of a bearing, within 32 bits.
pub open spec fn whole_degrees(bearing: Single) -> int {
    if bearing.nan() {
        0
    } else if bearing.negative() {
        let n = bearing.neg_spec().to_count_spec();
        if n > 0x8000_0000 {
            -0x8000_0000
        } else {
            -(n as int)
        }
    } else {
        let n = bearing.to_count_spec();
        if n > 0x7fff_ffff {
            0x7fff_ffff
        } else {
            n as int
        }
    }
}

/// A number with zeros ahead of it, up to a width.
pub open spec fn zero_filled(n: nat, width: nat) -> Seq<char> {
    if n < text::pow10(width) {
        text::last_digits(n, width)
    } else {
        text::decimal(n)
    }
}

/// A whole number of degrees with zeros ahead of it: a minus sign takes a place
/// of the three.
pub open spec fn degrees_text(n: int) -> Seq<char> {
    if n < 0 {
        "-"@ + zero_filled((-n) as nat, 2)
    } else {
        zero_filled(n as nat, 3)
    }
}

fn push_zero_filled(out: &mut String, n: u64, width: u32)
    requires
        width == 2 || width == 3,
    ensures
        final(out)@ == old(out)@ + zero_filled(n as nat, width as nat),
{
    proof {
        reveal_with_fuel(text::pow10, 5);
    }
    let limit: u64 = if width == 2 {
        100
    } else {
        1000
    };
    assert(limit == text::pow10(width as nat));
    if n < limit {
        text::push_last_digits(out, n as u128, width);
    } else {
        text::push_decimal(out, n as u128);
    }
}

fn push_degrees(out: &mut String, bearing: Single)
    ensures
        final(out)@ == old(out)@ + degrees_text(whole_degrees(bearing)),
{
    proof {
        reveal_strlit("-");
    }
    if bearing.is_nan() {
        push_zero_filled(out, 0, 3);
    } else if bearing.is_negative() {
        let n: usize = bearing.negated().to_count();
        if n == 0 {
            push_zero_filled(out, 0, 3);
        } else {
            out.append("-");
            push_zero_filled(
                out,
                if n as u64 > 0x8000_0000 {
                    0x8000_0000
                } else {
                    n as u64
                },
                2,
            );
            assert(out@ =~= old(out)@ + degrees_text(whole_degrees(bearing)));
        }
    } else {
        let n: usize = bearing.to_count();
        push_zero_filled(
            out,
            if n as u64 > 0x7fff_ffff {
                0x7fff_ffff
            } else {
                n as u64
            },
            3,
        );
    }
}

/// The name of a recording.
pub fn file_name(prefix: &str, bearing: Single, trial: u32) -> (name: String)
    ensures
        name@ == prefix@ + "_b"@ + degrees_text(whole_degrees(bearing)) + "_t"@ + zero_filled(
            trial as nat,
            2,
        ) + ".wav"@,
{
    let mut name: String = text::owned(prefix);
    name.append("_b");
    push_degrees(&mut name, bearing);
    name.append("_t");
    push_zero_filled(&mut name, trial as u64, 2);
    name.append(".wav");
    name
}

} // verus!
