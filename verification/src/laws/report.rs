//! What the report of a scan is for: every holder has a line with its name, number and user,
//! with its evidence below it, and the count of the holders stands at the end.

use crate::holds::report;
use crate::holds::{Evidence, Holder, ScanStats};
use crate::laws::text::in_order;
use crate::number;
use vstd::prelude::*;

verus! {

/// What is shown of a holder: its name, number and user, then, set in below it, where it
/// works, if that is asked for, and its evidence. The last of each is drawn with a corner.
pub open spec fn holder_block(holder: Holder, show_cwd: bool, last: bool) -> Seq<Seq<char>> {
    let cwd = if show_cwd {
        seq![
            match holder.cwd {
                Some(path) => "cwd "@ + path@,
                None => "cwd (unreadable)"@,
            },
        ]
    } else {
        Seq::empty()
    };
    let rows = cwd + holder.evidence@.map_values(|e: Evidence| e.words());
    seq![
        (if last {
            "└──"@
        } else {
            "├──"@
        }) + " "@ + holder.name@ + " pid="@ + number::decimal(holder.pid as int) + " user="@
            + holder.user@,
    ] + Seq::new(
        rows.len(),
        |k: int|
            (if last {
                "    "@
            } else {
                "│   "@
            }) + (if k + 1 == rows.len() {
                "└──"@
            } else {
                "├──"@
            }) + " "@ + rows[k],
    )
}

/// The blocks of the first `n` holders.
pub open spec fn holder_blocks(holders: Seq<Holder>, show_cwd: bool, n: nat) -> Seq<
    Seq<Seq<char>>,
> {
    Seq::new(n, |i: int| holder_block(holders[i], show_cwd, i + 1 == holders.len()))
}

proof fn lemma_tree_has_holders(holders: Seq<Holder>, show_cwd: bool, n: nat)
    requires
        n <= holders.len(),
    ensures
        in_order(
            report::tree(holders, show_cwd, n as int),
            holder_blocks(holders, show_cwd, n),
        ),
    decreases n,
{
    if n == 0 {
        crate::laws::text::lemma_order_of_none(report::tree(holders, show_cwd, 0));
        assert(holder_blocks(holders, show_cwd, 0) =~= Seq::<Seq<Seq<char>>>::empty());
    } else {
        let m = (n - 1) as nat;
        lemma_tree_has_holders(holders, show_cwd, m);
        let holder = holders[n - 1];
        let last = n == holders.len();
        let before = report::tree(holders, show_cwd, n - 1);
        let block = holder_block(holder, show_cwd, last);
        let rows = report::rows(holder, show_cwd);
        assert(rows =~= (if show_cwd {
            seq![
                match holder.cwd {
                    Some(path) => "cwd "@ + path@,
                    None => "cwd (unreadable)"@,
                },
            ]
        } else {
            Seq::empty()
        }) + holder.evidence@.map_values(|e: Evidence| e.words()));
        assert(seq![report::holder_line(holder, last)] + report::row_lines(rows, last) =~= block);
        assert(report::tree(holders, show_cwd, n as int) =~= before + block);
        crate::laws::text::lemma_order_grows(before, holder_blocks(holders, show_cwd, m), block);
        assert(holder_blocks(holders, show_cwd, m).push(block) =~= holder_blocks(
            holders,
            show_cwd,
            n,
        ));
    }
}

proof fn lemma_report_has_holders(
    heading: Seq<char>,
    nothing: Seq<char>,
    holders: Seq<Holder>,
    show_cwd: bool,
    stats: ScanStats,
)
    ensures
        in_order(
            report::report_lines(heading, nothing, holders, show_cwd, stats),
            holder_blocks(holders, show_cwd, holders.len()),
        ),
{
    let lines = report::report_lines(heading, nothing, holders, show_cwd, stats);
    let blocks = holder_blocks(holders, show_cwd, holders.len());
    if holders.len() == 0 {
        assert(blocks =~= Seq::<Seq<Seq<char>>>::empty());
        crate::laws::text::lemma_order_of_none(lines);
    } else {
        lemma_tree_has_holders(holders, show_cwd, holders.len());
        let tree = report::tree(holders, show_cwd, holders.len() as int);
        let after = seq![""@, report::count_line(holders.len() as int)] + report::note(stats);
        assert(lines =~= seq![heading] + tree + after);
        crate::laws::text::lemma_order_inside(seq![heading], tree, after, blocks);
    }
}

/// The report on a port names every holder, in their order, each with where it works and with
/// all of its evidence.
pub proof fn lemma_port_report_names_holders(port: u16, holders: Seq<Holder>, stats: ScanStats)
    ensures
        in_order(
            report::port_lines(port, holders, stats),
            Seq::new(
                holders.len(),
                |i: int| holder_block(holders[i], true, i + 1 == holders.len()),
            ),
        ),
{
    let shown = number::decimal(port as int);
    lemma_report_has_holders(
        ":"@ + shown,
        "No holders found for port "@ + shown + "."@,
        holders,
        true,
        stats,
    );
}

/// The report on a path names every holder, in their order, each with all of its evidence.
pub proof fn lemma_path_report_names_holders(path: Seq<char>, holders: Seq<Holder>, stats: ScanStats)
    ensures
        in_order(
            report::path_lines(path, holders, stats),
            Seq::new(
                holders.len(),
                |i: int| holder_block(holders[i], false, i + 1 == holders.len()),
            ),
        ),
{
    lemma_report_has_holders(
        path,
        "No holders found for '"@ + path + "'."@,
        holders,
        false,
        stats,
    );
}

/// The note that stands behind a report where something could not be looked at.
pub open spec fn note_behind(stats: ScanStats) -> Seq<Seq<char>> {
    if stats.unreadable_processes > 0 || stats.unreadable_fds > 0 || stats.unreadable_maps > 0 {
        seq![
            ""@,
            "note: some processes were not readable; try sudo for complete holder details"@,
        ]
    } else {
        Seq::empty()
    }
}

proof fn lemma_tree_length(holders: Seq<Holder>, show_cwd: bool, n: nat)
    requires
        n <= holders.len(),
    ensures
        report::tree(holders, show_cwd, n as int).len() >= n,
    decreases n,
{
    if n > 0 {
        lemma_tree_length(holders, show_cwd, (n - 1) as nat);
    }
}

proof fn lemma_report_frame(
    heading: Seq<char>,
    nothing: Seq<char>,
    holders: Seq<Holder>,
    show_cwd: bool,
    stats: ScanStats,
)
    ensures
        ({
            let lines = report::report_lines(heading, nothing, holders, show_cwd, stats);
            let note = note_behind(stats);
            let n = lines.len() - note.len();
            &&& n >= 1
            &&& lines.skip(n) == note
            &&& holders.len() == 0 ==> n == 1 && lines[0] == nothing
            &&& holders.len() > 0 ==> n >= 4 && lines[0] == heading && lines[n - 2] == ""@
                && lines[n - 1] == number::decimal(holders.len() as int) + (if holders.len() == 1 {
                " holder"@
            } else {
                " holders"@
            })
        }),
{
    let lines = report::report_lines(heading, nothing, holders, show_cwd, stats);
    let note = note_behind(stats);
    let n = lines.len() - note.len();
    assert(report::note(stats) =~= note);
    assert(lines.skip(n) =~= note);
    if holders.len() > 0 {
        lemma_tree_length(holders, show_cwd, holders.len());
        reveal_strlit(" ");
        reveal_strlit("holder");
        reveal_strlit("holders");
        reveal_strlit(" holder");
        reveal_strlit(" holders");
        let count = number::decimal(holders.len() as int);
        assert(" "@ + "holder"@ =~= " holder"@);
        assert(" "@ + "holders"@ =~= " holders"@);
        assert(count + " "@ + "holder"@ =~= count + " holder"@);
        assert(count + " "@ + "holders"@ =~= count + " holders"@);
    }
}

/// The report on a port starts with the port and ends with the number of the holders, or says
/// that there are none; a note follows where something could not be looked at.
pub proof fn lemma_port_report_frame(port: u16, holders: Seq<Holder>, stats: ScanStats)
    ensures
        ({
            let lines = report::port_lines(port, holders, stats);
            let note = note_behind(stats);
            let n = lines.len() - note.len();
            &&& n >= 1
            &&& lines.skip(n) == note
            &&& holders.len() == 0 ==> n == 1 && lines[0] == "No holders found for port "@
                + number::decimal(port as int) + "."@
            &&& holders.len() > 0 ==> n >= 4 && lines[0] == ":"@ + number::decimal(port as int)
                && lines[n - 2] == ""@ && lines[n - 1] == number::decimal(holders.len() as int) + (
            if holders.len() == 1 {
                " holder"@
            } else {
                " holders"@
            })
        }),
{
    let shown = number::decimal(port as int);
    lemma_report_frame(
        ":"@ + shown,
        "No holders found for port "@ + shown + "."@,
        holders,
        true,
        stats,
    );
}

/// The report on a path starts with the path and ends with the number of the holders, or says
/// that there are none; a note follows where something could not be looked at.
pub proof fn lemma_path_report_frame(path: Seq<char>, holders: Seq<Holder>, stats: ScanStats)
    ensures
        ({
            let lines = report::path_lines(path, holders, stats);
            let note = note_behind(stats);
            let n = lines.len() - note.len();
            &&& n >= 1
            &&& lines.skip(n) == note
            &&& holders.len() == 0 ==> n == 1 && lines[0] == "No holders found for '"@ + path
                + "'."@
            &&& holders.len() > 0 ==> n >= 4 && lines[0] == path && lines[n - 2] == ""@ && lines[n
                - 1] == number::decimal(holders.len() as int) + (if holders.len() == 1 {
                " holder"@
            } else {
                " holders"@
            })
        }),
{
    lemma_report_frame(
        path,
        "No holders found for '"@ + path + "'."@,
        holders,
        false,
        stats,
    );
}

} // verus!
