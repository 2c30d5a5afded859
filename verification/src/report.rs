//! Report lines: one for each line of a file that contains the pattern.

use vstd::prelude::*;
use crate::chars::{chars_of, push_char};
use crate::decimal::{decimal, push_decimal};
use crate::highlight::{highlight_chars, highlighted};
use crate::matching::{contains, find_from};

verus! {

/// The report line for line `number` of the file at `path`: the path, a
/// colon, the number, a colon and a space, then the line with its matches
/// highlighted.
pub open spec fn report_text(
    path: Seq<char>,
    number: nat,
    line: Seq<char>,
    pattern: Seq<char>,
) -> Seq<char> {
    path + seq![':'] + decimal(number) + seq![':', ' '] + highlighted(line, pattern)
}

/// A line is reported if it could be read as text and contains the pattern.
pub open spec fn is_reported(line: Option<Seq<char>>, pattern: Seq<char>) -> bool {
    match line {
        Some(text) => contains(text, pattern),
        None => false,
    }
}

/// What is reported for the line at `index`, counted from zero: nothing, or
/// its report line, numbered from one.
pub open spec fn line_report_text(
    path: Seq<char>,
    index: nat,
    line: Option<Seq<char>>,
    pattern: Seq<char>,
) -> Option<Seq<char>> {
    if is_reported(line, pattern) {
        Some(report_text(path, index + 1, line->0, pattern))
    } else {
        None
    }
}

/// The indices, in increasing order, of the reported lines among the first
/// `upto` lines.
pub open spec fn reported_indices(
    lines: Seq<Option<Seq<char>>>,
    pattern: Seq<char>,
    upto: nat,
) -> Seq<int>
    decreases upto,
{
    if upto == 0 {
        Seq::empty()
    } else if upto <= lines.len() && is_reported(lines[upto - 1], pattern) {
        reported_indices(lines, pattern, (upto - 1) as nat).push(upto - 1)
    } else {
        reported_indices(lines, pattern, (upto - 1) as nat)
    }
}

/// The report lines for the first `upto` lines of a file.
pub open spec fn reports_upto(
    path: Seq<char>,
    lines: Seq<Option<Seq<char>>>,
    pattern: Seq<char>,
    upto: nat,
) -> Seq<Seq<char>> {
    let indices = reported_indices(lines, pattern, upto);
    Seq::new(
        indices.len(),
        |k: int| report_text(path, (indices[k] + 1) as nat, lines[indices[k]]->0, pattern),
    )
}

/// The report lines for a file: one for each reported line, in the order of
/// the lines.
pub open spec fn file_reports(
    path: Seq<char>,
    lines: Seq<Option<Seq<char>>>,
    pattern: Seq<char>,
) -> Seq<Seq<char>> {
    reports_upto(path, lines, pattern, lines.len())
}

/// The report line for one line of a file, given as characters.
fn report_line(path: &str, number: usize, line: &[char], pattern: &[char]) -> (out: String)
    ensures
        out@ == report_text(path@, number as nat, line@, pattern@),
{
    let mut out = String::new();
    out.append(path);
    push_char(&mut out, ':');
    push_decimal(&mut out, number);
    push_char(&mut out, ':');
    push_char(&mut out, ' ');
    let marked = highlight_chars(line, pattern);
    out.append(marked.as_str());
    assert(out@ =~= report_text(path@, number as nat, line@, pattern@));
    out
}

/// The report for the line at `index`, with the pattern given as characters.
fn report_for(path: &str, index: usize, line: &str, pattern: &[char]) -> (report: Option<String>)
    requires
        index < usize::MAX,
    ensures
        report.deep_view() == line_report_text(path@, index as nat, Some(line@), pattern@),
{
    let line_chars = chars_of(line);
    if find_from(line_chars.as_slice(), pattern, 0).is_some() {
        Some(report_line(path, index + 1, line_chars.as_slice(), pattern))
    } else {
        None
    }
}

/// The report for the line at `index` of the file at `path`, counted from
/// zero: `None` if the line does not contain the pattern, else its report
/// line, numbered from one.
pub fn line_report(path: &str, index: usize, line: &str, pattern: &str) -> (report: Option<String>)
    requires
        index < usize::MAX,
    ensures
        report.deep_view() == line_report_text(path@, index as nat, Some(line@), pattern@),
{
    let pattern_chars = chars_of(pattern);
    report_for(path, index, line, pattern_chars.as_slice())
}

/// One more line adds its report, if it has one, behind those before it.
pub proof fn lemma_reports_step(
    path: Seq<char>,
    lines: Seq<Option<Seq<char>>>,
    pattern: Seq<char>,
    upto: nat,
)
    requires
        upto < lines.len(),
    ensures
        reports_upto(path, lines, pattern, upto + 1) == match line_report_text(
            path,
            upto,
            lines[upto as int],
            pattern,
        ) {
            Some(report) => reports_upto(path, lines, pattern, upto).push(report),
            None => reports_upto(path, lines, pattern, upto),
        },
{
    let before = reports_upto(path, lines, pattern, upto);
    let after = reports_upto(path, lines, pattern, upto + 1);
    if is_reported(lines[upto as int], pattern) {
        let report = report_text(path, upto + 1, lines[upto as int]->0, pattern);
        assert(reported_indices(lines, pattern, upto + 1) == reported_indices(
            lines,
            pattern,
            upto,
        ).push(upto as int));
        assert(after =~= before.push(report));
    } else {
        assert(after =~= before);
    }
}

/// The indices of the reported lines are exactly those of the lines that
/// contain the pattern, each once and in increasing order.
pub proof fn lemma_reported_indices(lines: Seq<Option<Seq<char>>>, pattern: Seq<char>, upto: nat)
    requires
        upto <= lines.len(),
    ensures
        forall|k: int|
            0 <= k < reported_indices(lines, pattern, upto).len() ==> {
                &&& 0 <= #[trigger] reported_indices(lines, pattern, upto)[k] < upto
                &&& is_reported(lines[reported_indices(lines, pattern, upto)[k]], pattern)
            },
        forall|j: int, k: int|
            0 <= j < k < reported_indices(lines, pattern, upto).len() ==> #[trigger] reported_indices(
                lines,
                pattern,
                upto,
            )[j] < #[trigger] reported_indices(lines, pattern, upto)[k],
        forall|i: int|
            0 <= i < upto && is_reported(#[trigger] lines[i], pattern) ==> reported_indices(
                lines,
                pattern,
                upto,
            ).contains(i),
    decreases upto,
{
    if upto > 0 {
        let before = reported_indices(lines, pattern, (upto - 1) as nat);
        let indices = reported_indices(lines, pattern, upto);
        lemma_reported_indices(lines, pattern, (upto - 1) as nat);
        assert forall|i: int|
            0 <= i < upto && is_reported(#[trigger] lines[i], pattern) implies indices.contains(
            i,
        ) by {
            if i < upto - 1 {
                let k = choose|k: int| 0 <= k < before.len() && before[k] == i;
                assert(indices[k] == i);
            } else {
                assert(indices[indices.len() - 1] == i);
            }
        }
    }
}

/// Each line that contains the pattern has one report line, which carries
/// the line's number counted from one; the report lines stand in the order
/// of their lines, and there are no others.
pub proof fn lemma_one_report_per_matching_line(
    path: Seq<char>,
    lines: Seq<Option<Seq<char>>>,
    pattern: Seq<char>,
)
    ensures
        file_reports(path, lines, pattern).len() == reported_indices(
            lines,
            pattern,
            lines.len(),
        ).len(),
        forall|i: int|
            0 <= i < lines.len() && is_reported(#[trigger] lines[i], pattern) ==> exists|k: int|
                {
                    &&& 0 <= k < file_reports(path, lines, pattern).len()
                    &&& reported_indices(lines, pattern, lines.len())[k] == i
                    &&& #[trigger] file_reports(path, lines, pattern)[k] == report_text(
                        path,
                        (i + 1) as nat,
                        lines[i]->0,
                        pattern,
                    )
                },
        forall|j: int, k: int|
            0 <= j < k < file_reports(path, lines, pattern).len() ==> #[trigger] reported_indices(
                lines,
                pattern,
                lines.len(),
            )[j] < #[trigger] reported_indices(lines, pattern, lines.len())[k],
{
    let indices = reported_indices(lines, pattern, lines.len());
    let reports = file_reports(path, lines, pattern);
    lemma_reported_indices(lines, pattern, lines.len());
    assert forall|i: int|
        0 <= i < lines.len() && is_reported(#[trigger] lines[i], pattern) implies exists|k: int|
        {
            &&& 0 <= k < reports.len()
            &&& indices[k] == i
            &&& #[trigger] reports[k] == report_text(path, (i + 1) as nat, lines[i]->0, pattern)
        } by {
        assert(indices.contains(i));
        let k = choose|k: int| 0 <= k < indices.len() && indices[k] == i;
        assert(reports[k] == report_text(path, (i + 1) as nat, lines[i]->0, pattern));
    }
}

/// A file none of whose lines contains the pattern has no report lines.
pub proof fn lemma_no_match_no_reports(
    path: Seq<char>,
    lines: Seq<Option<Seq<char>>>,
    pattern: Seq<char>,
)
    requires
        forall|i: int| 0 <= i < lines.len() ==> !is_reported(#[trigger] lines[i], pattern),
    ensures
        file_reports(path, lines, pattern) =~= Seq::<Seq<char>>::empty(),
{
    lemma_reported_indices(lines, pattern, lines.len());
    let indices = reported_indices(lines, pattern, lines.len());
    if indices.len() > 0 {
        assert(is_reported(lines[indices[0]], pattern));
    }
}

/// The report lines for a file whose lines are `lines`, a line that could
/// not be read as text being `None`: one for each line that contains the
/// pattern, in the order of the lines, each numbered by its place among all
/// the lines, counted from one.
pub fn scan_lines(path: &str, lines: &Vec<Option<String>>, pattern: &str) -> (reports: Vec<String>)
    ensures
        reports.deep_view() == file_reports(path@, lines.deep_view(), pattern@),
{
    let pattern_chars = chars_of(pattern);
    let mut reports: Vec<String> = Vec::new();
    let mut index: usize = 0;
    assert(reports.deep_view() =~= reports_upto(path@, lines.deep_view(), pattern@, 0));
    while index < lines.len()
        invariant
            index <= lines.len(),
            pattern_chars@ == pattern@,
            reports.deep_view() == reports_upto(path@, lines.deep_view(), pattern@, index as nat),
        decreases lines.len() - index,
    {
        let ghost before = reports.deep_view();
        proof {
            lemma_reports_step(path@, lines.deep_view(), pattern@, index as nat);
        }
        if let Some(line) = &lines[index] {
            if let Some(report) = report_for(path, index, line.as_str(), pattern_chars.as_slice()) {
                reports.push(report);
                assert(reports.deep_view() =~= before.push(report@));
            }
        }
        index += 1;
    }
    reports
}

} // verus!
