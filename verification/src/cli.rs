//! Argument checks shared by the programs.
use crate::constants;
use crate::single::Single;
use crate::text;
use vstd::prelude::*;

verus! {

/// One output per hour, in Hz.
pub const MIN_OUTPUT_RATE: u32 = 0x3991_a2b4;

/// Why an argument is refused.
pub open spec fn invalid_number(s: Seq<char>) -> Seq<char> {
    "invalid number: "@ + s
}

fn refuse_number(s: &str) -> (m: String)
    ensures
        m@ == invalid_number(s@),
{
    let mut m: String = text::owned("invalid number: ");
    m.append(s);
    m
}

/// Reject a non-finite north offset.
///
/// It reaches the bearing itself rather than a quality figure, so a NaN here
/// is not a confidence that reads badly: it is a bearing that is NaN. The
/// honest place to stop it is before it enters at all.
///
/// # Arguments
/// * `s` - the argument
/// * `parsed` - the number it reads as, where it reads as one
pub fn parse_north_offset(s: &str, parsed: Option<Single>) -> (r: Result<Single, String>)
    ensures
        match (parsed, r) {
            (None, Err(m)) => m@ == invalid_number(s@),
            (Some(x), Ok(y)) => x.finite() && x == y,
            (Some(x), Err(m)) => !x.finite() && m@
                == "north offset must be a finite number of degrees"@,
            _ => false,
        },
{
    match parsed {
        None => Err(refuse_number(s)),
        Some(offset) => {
            if offset.is_finite() {
                Ok(offset)
            } else {
                Err(text::owned("north offset must be a finite number of degrees"))
            }
        },
    }
}

/// Whether the pipeline can honor an output rate.
pub open spec fn honored_rate(rate: Single) -> bool {
    rate.finite() && constants::of(MIN_OUTPUT_RATE).le_spec(rate)
}

/// Reject an output rate the pipeline cannot honor. One output per hour is
/// already absurd.
///
/// # Arguments
/// * `s` - the argument
/// * `parsed` - the number it reads as, where it reads as one
pub fn parse_output_rate(s: &str, parsed: Option<Single>) -> (r: Result<Single, String>)
    ensures
        match (parsed, r) {
            (None, Err(m)) => m@ == invalid_number(s@),
            (Some(x), Ok(y)) => honored_rate(x) && x == y,
            (Some(x), Err(m)) => !honored_rate(x) && m@
                == "output rate must be a finite number of Hz, at least 1/3600"@,
            _ => false,
        },
{
    match parsed {
        None => Err(refuse_number(s)),
        Some(rate) => {
            if rate.is_finite() && rate.at_least(Single::from_bits(MIN_OUTPUT_RATE)) {
                Ok(rate)
            } else {
                Err(text::owned("output rate must be a finite number of Hz, at least 1/3600"))
            }
        },
    }
}

pub open spec fn log_level_spec(verbose: u8) -> Seq<char> {
    if verbose == 0 {
        "warn"@
    } else if verbose == 1 {
        "info"@
    } else if verbose == 2 {
        "debug"@
    } else {
        "trace"@
    }
}

/// The log level that a verbosity asks for.
pub fn log_level(verbose: u8) -> (s: &'static str)
    ensures
        s@ == log_level_spec(verbose),
{
    if verbose == 0 {
        "warn"
    } else if verbose == 1 {
        "info"
    } else if verbose == 2 {
        "debug"
    } else {
        "trace"
    }
}

/// What is known of whether two paths name the same file: their device and
/// inode, where both exist, and else their canonical spellings.
pub struct PathIdentity {
    pub inode: Option<(u64, u64)>,
    pub canonical: Option<String>,
}

/// Whether two paths name the same file, by device and inode where the
/// filesystem can say, falling back to canonical-path equality.
pub open spec fn same_file_spec(a: PathIdentity, b: PathIdentity) -> bool {
    match (a.inode, b.inode) {
        (Some(x), Some(y)) => x == y,
        _ => match (a.canonical, b.canonical) {
            (Some(x), Some(y)) => x@ == y@,
            _ => false,
        },
    }
}

/// Whether two paths name the same file.
///
/// Used to refuse a recording that would overwrite the input: the writer
/// truncates its path on creation, so that would destroy what is being read.
pub fn same_file(a: &PathIdentity, b: &PathIdentity) -> (same: bool)
    ensures
        same == same_file_spec(*a, *b),
{
    match (a.inode, b.inode) {
        (Some((dev_a, ino_a)), Some((dev_b, ino_b))) => {
            return dev_a == dev_b && ino_a == ino_b;
        },
        _ => {},
    }
    match (&a.canonical, &b.canonical) {
        (Some(x), Some(y)) => text::same(x.as_str(), y.as_str()),
        _ => false,
    }
}

} // verus!
