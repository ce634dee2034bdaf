//! The reports on who holds a port or a file.

use crate::holds::{Evidence, Holder, ScanStats};
use crate::number;
use crate::number::decimal_text;
use crate::process;
use crate::text;
use crate::text::{cat2, cat3, cat4, cat5, join_texts, no_texts, push_text};
use vstd::prelude::*;

verus! {

/// The word for one, or the word for another number.
pub open spec fn counted(count: int, singular: Seq<char>, many: Seq<char>) -> Seq<char> {
    if count == 1 {
        singular
    } else {
        many
    }
}

/// The word for one, or the word for another number.
pub fn plural<'a>(count: usize, singular: &'a str, many: &'a str) -> (r: &'a str)
    ensures
        r@ == counted(count as int, singular@, many@),
{
    if count == 1 {
        singular
    } else {
        many
    }
}

/// The branch of a tree in front of an entry.
pub open spec fn branch(last: bool) -> Seq<char> {
    if last {
        "└──"@
    } else {
        "├──"@
    }
}

/// The space below an entry of a tree.
pub open spec fn indent(last: bool) -> Seq<char> {
    if last {
        "    "@
    } else {
        "│   "@
    }
}

/// The line for a process.
pub open spec fn holder_line(holder: Holder, last: bool) -> Seq<char> {
    branch(last) + " "@ + holder.name@ + " pid="@ + number::decimal(holder.pid as int) + " user="@
        + holder.user@
}

/// The row for a working directory.
pub open spec fn cwd_row(cwd: Option<Seq<char>>) -> Seq<char> {
    match cwd {
        Some(path) => "cwd "@ + path,
        None => "cwd (unreadable)"@,
    }
}

/// The labels of a list of evidence.
pub open spec fn labels(evidence: Seq<Evidence>) -> Seq<Seq<char>> {
    evidence.map_values(|e: Evidence| e.words())
}

/// The rows below a process: its working directory, if asked for, and the evidence.
pub open spec fn rows(holder: Holder, show_cwd: bool) -> Seq<Seq<char>> {
    let evidence = labels(holder.evidence@);
    if show_cwd {
        seq![cwd_row(process::opt_view(holder.cwd))] + evidence
    } else {
        evidence
    }
}

/// The lines for the rows below a process.
pub open spec fn row_lines(rows: Seq<Seq<char>>, last: bool) -> Seq<Seq<char>> {
    Seq::new(
        rows.len(),
        |i: int| indent(last) + branch(i + 1 == rows.len()) + " "@ + rows[i],
    )
}

/// The tree of the first `n` holders.
pub open spec fn tree(holders: Seq<Holder>, show_cwd: bool, n: int) -> Seq<Seq<char>>
    decreases n,
{
    if n <= 0 {
        Seq::empty()
    } else {
        let last = n == holders.len();
        let holder = holders[n - 1];
        tree(holders, show_cwd, n - 1).push(holder_line(holder, last)) + row_lines(
            rows(holder, show_cwd),
            last,
        )
    }
}

/// The note that something could not be looked at.
pub open spec fn note(stats: ScanStats) -> Seq<Seq<char>> {
    if stats.missed_something() {
        seq![
            ""@,
            "note: some processes were not readable; try sudo for complete holder details"@,
        ]
    } else {
        Seq::empty()
    }
}

/// The line that counts the holders.
pub open spec fn count_line(n: int) -> Seq<char> {
    number::decimal(n) + " "@ + counted(n, "holder"@, "holders"@)
}

/// The lines of a report with the heading `heading`, or with the line `nothing` where
/// there are no holders.
pub open spec fn report_lines(
    heading: Seq<char>,
    nothing: Seq<char>,
    holders: Seq<Holder>,
    show_cwd: bool,
    stats: ScanStats,
) -> Seq<Seq<char>> {
    if holders.len() == 0 {
        seq![nothing] + note(stats)
    } else {
        (seq![heading] + tree(holders, show_cwd, holders.len() as int)).push(""@).push(
            count_line(holders.len() as int),
        ) + note(stats)
    }
}

/// The lines of the report on a port.
pub open spec fn port_lines(port: u16, holders: Seq<Holder>, stats: ScanStats) -> Seq<Seq<char>> {
    let shown = number::decimal(port as int);
    report_lines(":"@ + shown, "No holders found for port "@ + shown + "."@, holders, true, stats)
}

/// The lines of the report on a file.
pub open spec fn path_lines(
    path: Seq<char>,
    holders: Seq<Holder>,
    stats: ScanStats,
) -> Seq<Seq<char>> {
    report_lines(path, "No holders found for '"@ + path + "'."@, holders, false, stats)
}

/// The tree has a line for each row of each holder.
proof fn lemma_tree_shows(holders: Seq<Holder>, show_cwd: bool, n: int, i: int, k: int)
    requires
        0 <= i < n <= holders.len(),
        0 <= k < rows(holders[i], show_cwd).len(),
    ensures
        tree(holders, show_cwd, n).contains(
            row_lines(rows(holders[i], show_cwd), i + 1 == holders.len())[k],
        ),
    decreases n,
{
    let last = n == holders.len();
    let below = row_lines(rows(holders[n - 1], show_cwd), last);
    let above = tree(holders, show_cwd, n - 1).push(holder_line(holders[n - 1], last));
    let all = tree(holders, show_cwd, n);
    let line = row_lines(rows(holders[i], show_cwd), i + 1 == holders.len())[k];
    if i == n - 1 {
        assert(all[above.len() + k] == below[k]);
    } else {
        lemma_tree_shows(holders, show_cwd, n - 1, i, k);
        let earlier = tree(holders, show_cwd, n - 1);
        let at = choose|at: int| 0 <= at < earlier.len() && earlier[at] == line;
        assert(all[at] == line);
    }
}

/// The line for a piece of evidence, where `last_holder` and `last_row` say whether
/// something follows.
pub open spec fn evidence_line(e: Evidence, last_holder: bool, last_row: bool) -> Seq<char> {
    indent(last_holder) + branch(last_row) + " "@ + e.words()
}

/// A report on a port or a file shows each piece of evidence of each holder.
pub proof fn lemma_evidence_is_shown(
    heading: Seq<char>,
    nothing: Seq<char>,
    holders: Seq<Holder>,
    show_cwd: bool,
    stats: ScanStats,
    i: int,
    j: int,
)
    requires
        0 <= i < holders.len(),
        0 <= j < holders[i].evidence@.len(),
    ensures
        report_lines(heading, nothing, holders, show_cwd, stats).contains(
            evidence_line(
                holders[i].evidence@[j],
                i + 1 == holders.len(),
                j + 1 == holders[i].evidence@.len(),
            ),
        ),
{
    let n = holders.len() as int;
    let all = rows(holders[i], show_cwd);
    let k = if show_cwd {
        j + 1
    } else {
        j
    };
    assert(all[k] == holders[i].evidence@[j].words());
    let line = row_lines(all, i + 1 == holders.len())[k];
    lemma_tree_shows(holders, show_cwd, n, i, k);
    let shown = tree(holders, show_cwd, n);
    let at = choose|at: int| 0 <= at < shown.len() && shown[at] == line;
    let lines = report_lines(heading, nothing, holders, show_cwd, stats);
    assert(lines[at + 1] == line);
}

fn branch_text(last: bool) -> (r: &'static str)
    ensures
        r@ == branch(last),
{
    if last {
        "└──"
    } else {
        "├──"
    }
}

fn indent_text(last: bool) -> (r: &'static str)
    ensures
        r@ == indent(last),
{
    if last {
        "    "
    } else {
        "│   "
    }
}

/// The rows below a process.
pub fn holder_rows(holder: &Holder, show_cwd: bool) -> (r: Vec<String>)
    ensures
        text::views(r@) == rows(*holder, show_cwd),
{
    let mut list = no_texts();
    if show_cwd {
        match &holder.cwd {
            Some(cwd) => push_text(&mut list, cat2("cwd ", cwd.as_str())),
            None => push_text(&mut list, "cwd (unreadable)".to_owned()),
        }
    }
    let ghost first = text::views(list@);
    let ghost all = labels(holder.evidence@);
    let mut i: usize = 0;
    assert(first + all.take(0) =~= first);
    while i < holder.evidence.len()
        invariant
            i <= holder.evidence@.len(),
            all == labels(holder.evidence@),
            text::views(list@) == first + all.take(i as int),
        decreases holder.evidence@.len() - i,
    {
        push_text(&mut list, holder.evidence[i].label());
        assert((first + all.take(i as int)).push(all[i as int]) =~= first + all.take(i + 1));
        i += 1;
    }
    proof {
        assert(all.take(i as int) =~= all);
        assert(text::views(list@) =~= rows(*holder, show_cwd));
    }
    list
}

/// Appends the tree of the holders.
pub fn append_holder_lines(lines: &mut Vec<String>, holders: &Vec<Holder>, show_cwd: bool)
    ensures
        text::views(final(lines)@) == text::views(old(lines)@) + tree(
            holders@,
            show_cwd,
            holders@.len() as int,
        ),
{
    let ghost first = text::views(lines@);
    let mut i: usize = 0;
    assert(first + tree(holders@, show_cwd, 0) =~= first);
    while i < holders.len()
        invariant
            i <= holders@.len(),
            text::views(lines@) == first + tree(holders@, show_cwd, i as int),
        decreases holders@.len() - i,
    {
        let holder = &holders[i];
        let last: bool = i + 1 == holders.len();
        let head = cat3(branch_text(last), " ", holder.name.as_str());
        let pid = decimal_text(holder.pid as u64);
        let line = cat5(
            head.as_str(),
            " pid=",
            pid.as_str(),
            " user=",
            holder.user.as_str(),
        );
        assert(line@ == holder_line(*holder, last));
        push_text(lines, line);
        let sub_rows = holder_rows(holder, show_cwd);
        let ghost below = row_lines(rows(*holder, show_cwd), last);
        let ghost base = (first + tree(holders@, show_cwd, i as int)).push(
            holder_line(*holder, last),
        );
        let mut j: usize = 0;
        assert(base + below.take(0) =~= base);
        assert(text::views(sub_rows@).len() == sub_rows@.len());
        while j < sub_rows.len()
            invariant
                j <= sub_rows@.len(),
                text::views(sub_rows@) == rows(*holder, show_cwd),
                text::views(sub_rows@).len() == sub_rows@.len(),
                below == row_lines(rows(*holder, show_cwd), last),
                text::views(lines@) == base + below.take(j as int),
            decreases sub_rows@.len() - j,
        {
            let sub_last: bool = j + 1 == sub_rows.len();
            let row = cat4(indent_text(last), branch_text(sub_last), " ", sub_rows[j].as_str());
            proof {
                assert(text::views(sub_rows@)[j as int] == sub_rows@[j as int]@);
                assert(row@ == below[j as int]);
                assert((base + below.take(j as int)).push(below[j as int]) =~= base + below.take(
                    j + 1,
                ));
            }
            push_text(lines, row);
            j += 1;
        }
        proof {
            assert(below.take(j as int) =~= below);
            assert(base + below =~= first + tree(holders@, show_cwd, i + 1));
        }
        i += 1;
    }
}

/// Appends the note that something could not be looked at.
pub fn append_note(lines: &mut Vec<String>, stats: &ScanStats)
    ensures
        text::views(final(lines)@) == text::views(old(lines)@) + note(*stats),
{
    if stats.has_unreadable() {
        let ghost first = text::views(lines@);
        push_text(lines, "".to_owned());
        push_text(
            lines,
            "note: some processes were not readable; try sudo for complete holder details".to_owned(),
        );
        assert(text::views(lines@) =~= first + note(*stats));
    } else {
        assert(text::views(lines@) =~= text::views(lines@) + note(*stats));
    }
}

/// The report with a heading, or with a line of its own where there are no holders.
fn format_report(
    heading: String,
    nothing: String,
    holders: &Vec<Holder>,
    show_cwd: bool,
    stats: &ScanStats,
) -> (r: String)
    ensures
        r@ == text::join(report_lines(heading@, nothing@, holders@, show_cwd, *stats), "\n"@),
{
    let mut lines = no_texts();
    if holders.len() == 0 {
        push_text(&mut lines, nothing);
        append_note(&mut lines, stats);
        assert(text::views(lines@) =~= report_lines(
            heading@,
            nothing@,
            holders@,
            show_cwd,
            *stats,
        ));
        return join_texts(&lines, "\n");
    }
    push_text(&mut lines, heading);
    append_holder_lines(&mut lines, holders, show_cwd);
    push_text(&mut lines, "".to_owned());
    let count = decimal_text(holders.len() as u64);
    let noun = plural(holders.len(), "holder", "holders");
    push_text(&mut lines, cat3(count.as_str(), " ", noun));
    append_note(&mut lines, stats);
    assert(text::views(lines@) =~= report_lines(heading@, nothing@, holders@, show_cwd, *stats));
    join_texts(&lines, "\n")
}

/// The report on who holds a port.
pub fn format_port_report(port: u16, holders: &Vec<Holder>, stats: &ScanStats) -> (r: String)
    ensures
        r@ == text::join(port_lines(port, holders@, *stats), "\n"@),
{
    let shown = decimal_text(port as u64);
    let heading = cat2(":", shown.as_str());
    let nothing = cat3("No holders found for port ", shown.as_str(), ".");
    format_report(heading, nothing, holders, true, stats)
}

/// The report on who holds a file.
pub fn format_path_report(path: &str, holders: &Vec<Holder>, stats: &ScanStats) -> (r: String)
    ensures
        r@ == text::join(path_lines(path@, holders@, *stats), "\n"@),
{
    let heading = path.to_owned();
    let nothing = cat3("No holders found for '", path, "'.");
    format_report(heading, nothing, holders, false, stats)
}

} // verus!
