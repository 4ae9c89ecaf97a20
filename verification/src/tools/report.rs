//! The lines of an analysis report.
use crate::config::ChannelRole;
use crate::fields;
use crate::single::Single;
use crate::text;
use crate::tools::analyze;
use crate::tools::analyze::{FileAnalysis, StatsSummary, TrimmedRange};
use vstd::prelude::*;

verus! {

/// Where a line goes: results on one stream, notes on the other.
#[derive(Debug, Clone, Copy, PartialEq, Eq, Structural)]
pub enum Stream {
    Results,
    Notes,
}

/// A line of a report.
pub struct ReportLine {
    pub stream: Stream,
    pub text: String,
}

/// The contents of lines.
pub open spec fn shown(lines: Seq<ReportLine>) -> Seq<(Stream, Seq<char>)> {
    lines.map_values(|l: ReportLine| (l.stream, l.text@))
}

fn push_line(lines: &mut Vec<ReportLine>, stream: Stream, text: String)
    ensures
        shown(final(lines)@) == shown(old(lines)@).push((stream, text@)),
{
    lines.push(ReportLine { stream, text });
    assert(shown(lines@) =~= shown(old(lines)@).push((stream, text@)));
}

/// A number with decimals, or a text where there is none.
pub open spec fn figure(x: Option<Single>, places: nat, none: Seq<char>) -> Seq<char> {
    match x {
        Some(v) => text::fixed_text(v, places),
        None => none,
    }
}

fn figure_text(x: Option<Single>, places: u32, none: &str) -> (s: String)
    requires
        places <= 9,
    ensures
        s@ == figure(x, places as nat, none@),
{
    match x {
        Some(v) => {
            let mut s: String = text::owned("");
            text::push_fixed(&mut s, v, places);
            proof {
                reveal_strlit("");
            }
            assert(s@ =~= text::fixed_text(v, places as nat));
            s
        },
        None => text::owned(none),
    }
}

pub open spec fn mean_of(s: Option<StatsSummary>) -> Option<Single> {
    match s {
        Some(x) => Some(x.mean),
        None => None,
    }
}

pub open spec fn spread_of(s: Option<StatsSummary>) -> Option<Single> {
    match s {
        Some(x) => Some(x.std_dev),
        None => None,
    }
}

fn mean(s: &Option<StatsSummary>) -> (r: Option<Single>)
    ensures
        r == mean_of(*s),
{
    match s {
        Some(x) => Some(x.mean),
        None => None,
    }
}

fn spread(s: &Option<StatsSummary>) -> (r: Option<Single>)
    ensures
        r == spread_of(*s),
{
    match s {
        Some(x) => Some(x.std_dev),
        None => None,
    }
}

/// Six columns in a row.
pub open spec fn table_row(
    name: Seq<char>,
    a: Seq<char>,
    b: Seq<char>,
    c: Seq<char>,
    d: Seq<char>,
    e: Seq<char>,
) -> Seq<char> {
    fields::at_left(name, 60) + " "@ + fields::at_right(a, 12) + " "@ + fields::at_right(b, 8)
        + " "@ + fields::at_right(c, 10) + " "@ + fields::at_right(d, 10) + " "@
        + fields::at_right(e, 8)
}

fn table_row_text(name: &str, a: &str, b: &str, c: &str, d: &str, e: &str) -> (s: String)
    ensures
        s@ == table_row(name@, a@, b@, c@, d@, e@),
{
    let mut s: String = text::owned("");
    proof {
        reveal_strlit("");
    }
    fields::push_left(&mut s, name, 60);
    s.append(" ");
    fields::push_right(&mut s, a, 12);
    s.append(" ");
    fields::push_right(&mut s, b, 8);
    s.append(" ");
    fields::push_right(&mut s, c, 10);
    s.append(" ");
    fields::push_right(&mut s, d, 10);
    s.append(" ");
    fields::push_right(&mut s, e, 8);
    assert(s@ =~= table_row(name@, a@, b@, c@, d@, e@));
    s
}

pub open spec fn role_text(role: ChannelRole) -> Seq<char> {
    match role {
        ChannelRole::Left => "Left"@,
        ChannelRole::Right => "Right"@,
    }
}

fn push_role(s: &mut String, role: ChannelRole)
    ensures
        final(s)@ == old(s)@ + role_text(role),
{
    match role {
        ChannelRole::Left => s.append("Left"),
        ChannelRole::Right => s.append("Right"),
    }
}

/// The lines above the table.
pub open spec fn heading(doppler: ChannelRole, north: ChannelRole) -> Seq<
    (Stream, Seq<char>),
> {
    seq![
        (
            Stream::Notes,
            "Channels: Doppler="@ + role_text(doppler) + ", NorthTick="@ + role_text(north),
        ),
        (Stream::Notes, ""@),
        (
            Stream::Results,
            table_row("File"@, "Rotation"@, "Std"@, "LockQual"@, "PhaseVar"@, "Samples"@),
        ),
        (Stream::Results, rule_text()),
    ]
}

/// The line under the column names.
pub open spec fn rule_text() -> Seq<char> {
    Seq::new(113, |i: int| '-')
}

fn rule() -> (s: String)
    ensures
        s@ == rule_text(),
{
    let mut s: String = text::owned("");
    proof {
        reveal_strlit("");
        reveal_strlit("-");
    }
    let mut i: usize = 0;
    while i < 113
        invariant
            i <= 113,
            "-"@ == seq!['-'],
            s@ == Seq::new(i as nat, |i: int| '-'),
        decreases 113 - i,
    {
        s.append("-");
        i = i + 1;
        assert(s@ =~= Seq::new(i as nat, |i: int| '-'));
    }
    s
}

/// The row of a recording.
pub open spec fn row_of(r: FileAnalysis) -> Seq<char> {
    match r.error {
        Some(e) => fields::at_left(r.filename@, 60) + " ERROR: "@ + e@,
        None => table_row(
            r.filename@,
            figure(mean_of(r.rotation_freq), 4, "-"@),
            figure(spread_of(r.rotation_freq), 4, "-"@),
            figure(mean_of(r.lock_quality), 2, "-"@),
            figure(r.phase_error_variance, 6, "-"@),
            text::decimal(r.sample_count as nat),
        ),
    }
}

fn row(r: &FileAnalysis) -> (s: String)
    ensures
        s@ == row_of(*r),
{
    match &r.error {
        Some(e) => {
            let mut s: String = text::owned("");
            proof {
                reveal_strlit("");
            }
            fields::push_left(&mut s, r.filename.as_str(), 60);
            s.append(" ERROR: ");
            s.append(e.as_str());
            assert(s@ =~= row_of(*r));
            s
        },
        None => {
            let a: String = figure_text(mean(&r.rotation_freq), 4, "-");
            let b: String = figure_text(spread(&r.rotation_freq), 4, "-");
            let c: String = figure_text(mean(&r.lock_quality), 2, "-");
            let d: String = figure_text(r.phase_error_variance, 6, "-");
            let e: String = count_text(r.sample_count);
            table_row_text(
                r.filename.as_str(),
                a.as_str(),
                b.as_str(),
                c.as_str(),
                d.as_str(),
                e.as_str(),
            )
        },
    }
}

fn count_text(n: usize) -> (s: String)
    ensures
        s@ == text::decimal(n as nat),
{
    let mut s: String = text::owned("");
    proof {
        reveal_strlit("");
    }
    text::push_decimal(&mut s, n as u128);
    assert(s@ =~= text::decimal(n as nat));
    s
}

/// The rows of the first `k` recordings.
pub open spec fn rows_spec(results: Seq<FileAnalysis>, k: int) -> Seq<(Stream, Seq<char>)>
    decreases k,
{
    if k <= 0 {
        Seq::empty()
    } else {
        rows_spec(results, k - 1).push((Stream::Results, row_of(results[k - 1])))
    }
}

/// Numbers of percentages with commas between them.
pub open spec fn positions_spec(positions: Seq<Single>) -> Seq<char>
    decreases positions.len(),
{
    if positions.len() == 0 {
        Seq::empty()
    } else if positions.len() == 1 {
        text::fixed_text(positions[0], 1) + "%"@
    } else {
        positions_spec(positions.drop_last()) + ", "@ + (text::fixed_text(positions.last(), 1)
            + "%"@)
    }
}

fn push_positions(s: &mut String, positions: &[Single])
    ensures
        final(s)@ == old(s)@ + positions_spec(positions@),
{
    let mut i: usize = 0;
    assert(s@ =~= old(s)@ + positions_spec(positions@.take(0)));
    while i < positions.len()
        invariant
            i <= positions.len(),
            s@ == old(s)@ + positions_spec(positions@.take(i as int)),
        decreases positions.len() - i,
    {
        let ghost next = positions@.take(i + 1);
        assert(next.drop_last() =~= positions@.take(i as int));
        if i > 0 {
            s.append(", ");
        }
        text::push_fixed(s, positions[i], 1);
        s.append("%");
        i = i + 1;
        assert(s@ =~= old(s)@ + positions_spec(positions@.take(i as int)));
    }
    assert(positions@.take(i as int) =~= positions@);
}

/// What there is to say of a trimmed range.
pub open spec fn trim_lines(t: TrimmedRange) -> Seq<(Stream, Seq<char>)> {
    let total = t.total_ticks as nat;
    let region = (
        Stream::Notes,
        "  Lock region: "@ + text::fixed_text(analyze::percent_spec(t.start_tick as nat, total), 1)
            + "% - "@ + text::fixed_text(analyze::percent_spec(t.end_tick as nat, total), 1)
            + "% ("@ + text::decimal(t.used_ticks as nat) + " of "@ + text::decimal(total)
            + " ticks, "@ + text::decimal(t.dropouts as nat) + " dropouts)"@,
    );
    if t.dropouts > 0 {
        seq![
            region,
            (Stream::Notes, "  Dropout positions: "@ + positions_spec(t.dropout_positions@)),
        ]
    } else {
        seq![region]
    }
}

fn push_trim(lines: &mut Vec<ReportLine>, t: &TrimmedRange)
    ensures
        shown(final(lines)@) == shown(old(lines)@) + trim_lines(*t),
{
    let mut s: String = text::owned("  Lock region: ");
    text::push_fixed(&mut s, analyze::percent(t.start_tick, t.total_ticks), 1);
    s.append("% - ");
    text::push_fixed(&mut s, analyze::percent(t.end_tick, t.total_ticks), 1);
    s.append("% (");
    text::push_decimal(&mut s, t.used_ticks as u128);
    s.append(" of ");
    text::push_decimal(&mut s, t.total_ticks as u128);
    s.append(" ticks, ");
    text::push_decimal(&mut s, t.dropouts as u128);
    s.append(" dropouts)");
    push_line(lines, Stream::Notes, s);
    if t.dropouts > 0 {
        let mut p: String = text::owned("  Dropout positions: ");
        push_positions(&mut p, t.dropout_positions.as_slice());
        push_line(lines, Stream::Notes, p);
    }
    assert(shown(lines@) =~= shown(old(lines)@) + trim_lines(*t));
}

/// A line with a mean and a spread in it.
pub open spec fn timing_text(
    name: Seq<char>,
    s: StatsSummary,
    end: Seq<char>,
) -> (Stream, Seq<char>) {
    (
        Stream::Notes,
        name + text::fixed_text(s.mean, 2) + " ± "@ + text::fixed_text(s.std_dev, 2) + end,
    )
}

fn push_timing(lines: &mut Vec<ReportLine>, name: &str, x: &StatsSummary, end: &str)
    ensures
        shown(final(lines)@) == shown(old(lines)@).push(timing_text(name@, *x, end@)),
{
    let mut s: String = text::owned(name);
    text::push_fixed(&mut s, x.mean, 2);
    s.append(" ± ");
    text::push_fixed(&mut s, x.std_dev, 2);
    s.append(end);
    push_line(lines, Stream::Notes, s);
}

/// What there is to say of the rotation in a recording.
pub open spec fn timing_lines(r: FileAnalysis) -> Seq<(Stream, Seq<char>)> {
    if r.raw_period_us is None && r.dpll_period_us is None {
        Seq::empty()
    } else {
        let title = seq![
            (Stream::Notes, ""@),
            (Stream::Notes, "Rotation timing for "@ + r.filename@ + ":"@),
        ];
        let raw = match r.raw_period_us {
            Some(x) => seq![timing_text("  Raw period:  "@, x, " μs (jitter)"@)],
            None => Seq::empty(),
        };
        let dpll = match r.dpll_period_us {
            Some(x) => seq![timing_text("  DPLL period: "@, x, " μs"@)],
            None => Seq::empty(),
        };
        let trim = match r.trimmed_range {
            Some(t) => trim_lines(t),
            None => Seq::empty(),
        };
        title + raw + dpll + trim
    }
}

fn push_timings(lines: &mut Vec<ReportLine>, r: &FileAnalysis)
    ensures
        shown(final(lines)@) == shown(old(lines)@) + timing_lines(*r),
{
    if r.raw_period_us.is_none() && r.dpll_period_us.is_none() {
        assert(shown(lines@) =~= shown(old(lines)@) + timing_lines(*r));
        return;
    }
    push_line(lines, Stream::Notes, text::owned(""));
    let mut s: String = text::owned("Rotation timing for ");
    s.append(r.filename.as_str());
    s.append(":");
    push_line(lines, Stream::Notes, s);
    if let Some(x) = &r.raw_period_us {
        push_timing(lines, "  Raw period:  ", x, " μs (jitter)");
    }
    if let Some(x) = &r.dpll_period_us {
        push_timing(lines, "  DPLL period: ", x, " μs");
    }
    if let Some(t) = &r.trimmed_range {
        push_trim(lines, t);
    }
    assert(shown(lines@) =~= shown(old(lines)@) + timing_lines(*r));
}

/// A figure in degrees.
pub open spec fn degrees_text(name: Seq<char>, x: Single) -> (Stream, Seq<char>) {
    (Stream::Notes, name + text::fixed_text(x, 1) + "°"@)
}

fn push_degrees(lines: &mut Vec<ReportLine>, name: &str, x: Single)
    ensures
        shown(final(lines)@) == shown(old(lines)@).push(degrees_text(name@, x)),
{
    let mut s: String = text::owned(name);
    text::push_fixed(&mut s, x, 1);
    s.append("°");
    push_line(lines, Stream::Notes, s);
}

/// What there is to say of the bearing in a recording.
pub open spec fn bearing_lines(r: FileAnalysis) -> Seq<(Stream, Seq<char>)> {
    match r.bearing {
        Some(b) => seq![
            (Stream::Notes, ""@),
            (Stream::Notes, "Bearing statistics for "@ + r.filename@ + ":"@),
            degrees_text("  Mean: "@, b.mean),
            degrees_text("  Std dev: "@, b.std_dev),
            degrees_text("  Min: "@, b.min),
            degrees_text("  Max: "@, b.max),
            degrees_text("  Range: "@, b.max.minus_spec(b.min)),
        ],
        None => Seq::empty(),
    }
}

fn push_bearings(lines: &mut Vec<ReportLine>, r: &FileAnalysis)
    ensures
        shown(final(lines)@) == shown(old(lines)@) + bearing_lines(*r),
{
    if let Some(b) = &r.bearing {
        push_line(lines, Stream::Notes, text::owned(""));
        let mut s: String = text::owned("Bearing statistics for ");
        s.append(r.filename.as_str());
        s.append(":");
        push_line(lines, Stream::Notes, s);
        push_degrees(lines, "  Mean: ", b.mean);
        push_degrees(lines, "  Std dev: ", b.std_dev);
        push_degrees(lines, "  Min: ", b.min);
        push_degrees(lines, "  Max: ", b.max);
        push_degrees(lines, "  Range: ", b.max.minus(b.min));
    }
    assert(shown(lines@) =~= shown(old(lines)@) + bearing_lines(*r));
}

/// What there is to say of the first `k` recordings besides their rows. One
/// that could not be analyzed has nothing more.
pub open spec fn details_spec(results: Seq<FileAnalysis>, k: int) -> Seq<(Stream, Seq<char>)>
    decreases k,
{
    if k <= 0 {
        Seq::empty()
    } else {
        let r = results[k - 1];
        details_spec(results, k - 1) + if r.error is Some {
            Seq::empty()
        } else {
            timing_lines(r) + bearing_lines(r)
        }
    }
}

/// The report as a table, with the details of each recording behind it.
pub fn text_report(
    results: &[FileAnalysis],
    doppler: ChannelRole,
    north: ChannelRole,
) -> (lines: Vec<ReportLine>)
    ensures
        shown(lines@) == heading(doppler, north) + rows_spec(results@, results@.len() as int)
            + details_spec(results@, results@.len() as int),
{
    let mut lines: Vec<ReportLine> = Vec::new();
    let mut s: String = text::owned("Channels: Doppler=");
    push_role(&mut s, doppler);
    s.append(", NorthTick=");
    push_role(&mut s, north);
    push_line(&mut lines, Stream::Notes, s);
    push_line(&mut lines, Stream::Notes, text::owned(""));
    let names: String = table_row_text(
        "File",
        "Rotation",
        "Std",
        "LockQual",
        "PhaseVar",
        "Samples",
    );
    push_line(&mut lines, Stream::Results, names);
    let under: String = rule();
    push_line(&mut lines, Stream::Results, under);
    let ghost head = heading(doppler, north);
    assert(shown(lines@) =~= head);
    let mut i: usize = 0;
    assert(shown(lines@) =~= head + rows_spec(results@, 0));
    while i < results.len()
        invariant
            i <= results.len(),
            shown(lines@) == head + rows_spec(results@, i as int),
        decreases results.len() - i,
    {
        let r: String = row(&results[i]);
        push_line(&mut lines, Stream::Results, r);
        i = i + 1;
        assert(shown(lines@) =~= head + rows_spec(results@, i as int));
    }
    let ghost table = shown(lines@);
    let mut k: usize = 0;
    assert(shown(lines@) =~= table + details_spec(results@, 0));
    while k < results.len()
        invariant
            k <= results.len(),
            shown(lines@) == table + details_spec(results@, k as int),
        decreases results.len() - k,
    {
        let r: &FileAnalysis = &results[k];
        if r.error.is_none() {
            push_timings(&mut lines, r);
            push_bearings(&mut lines, r);
        }
        k = k + 1;
        assert(shown(lines@) =~= table + details_spec(results@, k as int));
    }
    lines
}

/// The line of a recording in the comma separated report.
pub open spec fn csv_row(r: FileAnalysis) -> Seq<char> {
    let none = ""@;
    let comma = ","@;
    r.filename@ + comma + figure(mean_of(r.rotation_freq), 6, none) + comma + figure(
        spread_of(r.rotation_freq),
        6,
        none,
    ) + comma + figure(mean_of(r.lock_quality), 4, none) + comma + figure(
        r.phase_error_variance,
        8,
        none,
    ) + comma + figure(mean_of(r.bearing), 2, none) + comma + figure(
        spread_of(r.bearing),
        2,
        none,
    ) + comma + figure(mean_of(r.raw_period_us), 2, none) + comma + figure(
        spread_of(r.raw_period_us),
        2,
        none,
    ) + comma + figure(mean_of(r.dpll_period_us), 2, none) + comma + figure(
        spread_of(r.dpll_period_us),
        2,
        none,
    ) + comma + text::decimal(r.sample_count as nat) + comma + match r.error {
        Some(e) => e@,
        None => none,
    }
}

fn push_cell(s: &mut String, x: Option<Single>, places: u32)
    requires
        places <= 9,
    ensures
        final(s)@ == old(s)@ + figure(x, places as nat, ""@) + ","@,
{
    let cell: String = figure_text(x, places, "");
    s.append(cell.as_str());
    s.append(",");
}

/// The line of a recording in the comma separated report.
pub fn csv_line(r: &FileAnalysis) -> (s: String)
    ensures
        s@ == csv_row(*r),
{
    let mut s: String = text::owned(r.filename.as_str());
    s.append(",");
    push_cell(&mut s, mean(&r.rotation_freq), 6);
    push_cell(&mut s, spread(&r.rotation_freq), 6);
    push_cell(&mut s, mean(&r.lock_quality), 4);
    push_cell(&mut s, r.phase_error_variance, 8);
    push_cell(&mut s, mean(&r.bearing), 2);
    push_cell(&mut s, spread(&r.bearing), 2);
    push_cell(&mut s, mean(&r.raw_period_us), 2);
    push_cell(&mut s, spread(&r.raw_period_us), 2);
    push_cell(&mut s, mean(&r.dpll_period_us), 2);
    push_cell(&mut s, spread(&r.dpll_period_us), 2);
    text::push_decimal(&mut s, r.sample_count as u128);
    s.append(",");
    match &r.error {
        Some(e) => s.append(e.as_str()),
        None => s.append(""),
    }
    s
}

/// The comma separated report.
pub fn csv_report(results: &[FileAnalysis]) -> (lines: Vec<ReportLine>)
    ensures
        shown(lines@) == seq![
            (
                Stream::Results,
                "filename,rotation_mean,rotation_std,lock_quality,phase_error_variance,bearing_mean,bearing_std,raw_period_us,raw_jitter_us,dpll_period_us,dpll_jitter_us,sample_count,error"@,
            ),
        ] + Seq::new(results@.len(), |i: int| (Stream::Results, csv_row(results@[i]))),
{
    let mut lines: Vec<ReportLine> = Vec::new();
    push_line(
        &mut lines,
        Stream::Results,
        text::owned(
            "filename,rotation_mean,rotation_std,lock_quality,phase_error_variance,bearing_mean,bearing_std,raw_period_us,raw_jitter_us,dpll_period_us,dpll_jitter_us,sample_count,error",
        ),
    );
    let ghost head = shown(lines@);
    let ghost all = Seq::new(results@.len(), |i: int| (Stream::Results, csv_row(results@[i])));
    let mut i: usize = 0;
    assert(shown(lines@) =~= head + all.take(0));
    while i < results.len()
        invariant
            i <= results.len(),
            all == Seq::new(
                results@.len(),
                |i: int| (Stream::Results, csv_row(results@[i])),
            ),
            shown(lines@) == head + all.take(i as int),
        decreases results.len() - i,
    {
        let line: String = csv_line(&results[i]);
        push_line(&mut lines, Stream::Results, line);
        i = i + 1;
        assert(shown(lines@) =~= head + all.take(i as int));
    }
    assert(all.take(i as int) =~= all);
    lines
}

} // verus!
