//! What an explanation is for: it names every holder with its unit, command line and
//! evidence, sums them up in one line, and counts the reasons.

use crate::failure::{FailureKind, IoFailure};
use crate::holds::{Holder, HoldsError, ScanStats};
use crate::laws::text::{in_order, stacked};
use crate::number;
use crate::process;
use crate::text;
use crate::touch::{EvidenceSource, TouchInfo};
use crate::why;
use crate::why::{EnrichedHolder, HolderFiles, Told, WhyError};
use vstd::prelude::*;

verus! {

// ---------------------------------------------------------------------------
// Blocks
// ---------------------------------------------------------------------------

/// A holder in words: its name, number and user, and its unit where it has one.
pub open spec fn holder_text(t: Told) -> Seq<char> {
    t.holder.name@ + " pid="@ + number::decimal(t.holder.pid as int) + " user="@ + t.holder.user@
        + (match t.unit {
        Some(unit) => " unit="@ + unit,
        None => ""@,
    })
}

/// What the explanation of a port has on a holder: the holder, its command line where that
/// says more than the name, and where it works.
pub open spec fn port_block(t: Told) -> Seq<Seq<char>> {
    seq!["├── holder: "@ + holder_text(t)] + (match t.cmdline {
        Some(command) => if command.len() > 0 && command != t.holder.name@ {
            seq!["│   ├── cmd: "@ + command]
        } else {
            Seq::empty()
        },
        None => Seq::empty(),
    }) + (match t.holder.cwd {
        Some(cwd) => seq!["│   └── cwd "@ + cwd@],
        None => Seq::empty(),
    })
}

/// What the explanation of a path has on a holder: the holder and all of its evidence.
pub open spec fn path_block(t: Told) -> Seq<Seq<char>> {
    seq!["│   ├── "@ + holder_text(t)] + Seq::new(
        t.holder.evidence@.len(),
        |k: int| "│   │   ├── "@ + t.holder.evidence@[k].words(),
    )
}

/// The count of the reasons, with an empty line before it, and the note where something could
/// not be looked at.
pub open spec fn count_block(n: int, stats: ScanStats) -> Seq<Seq<char>> {
    seq![
        ""@,
        number::decimal(n) + " "@ + (if n == 1 {
            "reason"@
        } else {
            "reasons"@
        }),
    ] + (if stats.unreadable_processes > 0 || stats.unreadable_fds > 0 || stats.unreadable_maps
        > 0 {
        seq![
            ""@,
            "note: some processes were not readable; try sudo for complete explanation"@,
        ]
    } else {
        Seq::empty()
    })
}

proof fn lemma_holder_text(t: Told)
    ensures
        why::holder_words(t.holder) + why::unit_words(t.unit) == holder_text(t),
{
}

proof fn lemma_prefixed(prefix: Seq<char>, t: Told)
    ensures
        prefix + why::holder_words(t.holder) + why::unit_words(t.unit) == prefix + holder_text(t),
{
    lemma_holder_text(t);
    assert(prefix + why::holder_words(t.holder) + why::unit_words(t.unit) =~= prefix + (
    why::holder_words(t.holder) + why::unit_words(t.unit)));
}

proof fn lemma_port_block(t: Told)
    ensures
        why::port_holder_lines(t) == port_block(t),
{
    lemma_prefixed("├── holder: "@, t);
    assert(why::port_holder_lines(t) =~= port_block(t));
}

proof fn lemma_path_block(t: Told)
    ensures
        why::path_holder_lines(t) == path_block(t),
{
    lemma_prefixed("│   ├── "@, t);
    assert(why::path_holder_lines(t) =~= path_block(t));
}

/// The blocks of the first `n` holders of a port.
pub open spec fn port_blocks(holders: Seq<Told>, n: nat) -> Seq<Seq<Seq<char>>> {
    Seq::new(n, |i: int| port_block(holders[i]))
}

/// The blocks of the first `n` holders of a path.
pub open spec fn path_blocks(holders: Seq<Told>, n: nat) -> Seq<Seq<Seq<char>>> {
    Seq::new(n, |i: int| path_block(holders[i]))
}

proof fn lemma_port_details(holders: Seq<Told>, n: nat)
    requires
        n <= holders.len(),
    ensures
        why::port_details(holders, n as int) == stacked(port_blocks(holders, n)),
    decreases n,
{
    if n > 0 {
        let m = (n - 1) as nat;
        lemma_port_details(holders, m);
        lemma_port_block(holders[n - 1]);
        assert(port_blocks(holders, n).drop_last() =~= port_blocks(holders, m));
    }
}

proof fn lemma_path_details(holders: Seq<Told>, n: nat)
    requires
        n <= holders.len(),
    ensures
        why::path_details(holders, n as int) == stacked(path_blocks(holders, n)),
    decreases n,
{
    if n > 0 {
        let m = (n - 1) as nat;
        lemma_path_details(holders, m);
        lemma_path_block(holders[n - 1]);
        assert(path_blocks(holders, n).drop_last() =~= path_blocks(holders, m));
    }
}

// ---------------------------------------------------------------------------
// Ports
// ---------------------------------------------------------------------------

/// The explanation of a port has a line for every holder, with its name, number, user and unit,
/// in the order of the holders, and below it the command line and the place of that holder.
pub proof fn lemma_port_holders_are_named(port: u16, holders: Seq<Told>, stats: ScanStats)
    ensures
        in_order(
            why::port_synthesis(port, holders, stats),
            Seq::new(holders.len(), |i: int| port_block(holders[i])),
        ),
{
    let n = holders.len();
    lemma_port_is_explained(port, holders, stats);
    crate::laws::text::lemma_stacked_in_order(port_blocks(holders, n));
    let head = seq![
        ":"@ + number::decimal(port as int),
        "├── reason: "@ + why::port_explanation(holders),
    ];
    let tail = seq!["└── evidence: socket inode matched from /proc/<pid>/fd"@] + count_block(
        n as int,
        stats,
    );
    crate::laws::text::lemma_order_inside(
        head,
        stacked(port_blocks(holders, n)),
        tail,
        port_blocks(holders, n),
    );
    assert(why::port_synthesis(port, holders, stats) =~= head + stacked(port_blocks(holders, n))
        + tail);
}

/// Each holder of a port has its own line.
pub proof fn lemma_port_holder_has_line(port: u16, holders: Seq<Told>, stats: ScanStats, i: int)
    requires
        0 <= i < holders.len(),
    ensures
        why::port_synthesis(port, holders, stats).contains(
            "├── holder: "@ + holder_text(holders[i]),
        ),
{
    let blocks = port_blocks(holders, holders.len());
    lemma_port_holders_are_named(port, holders, stats);
    crate::laws::text::lemma_block_is_shown(
        why::port_synthesis(port, holders, stats),
        blocks,
        i,
        0,
    );
    assert(blocks[i][0] == "├── holder: "@ + holder_text(holders[i]));
}

/// Holders with the same name and user and with different numbers have different lines.
pub proof fn lemma_port_holders_differ(a: Told, b: Told)
    requires
        a.holder.name@ == b.holder.name@,
        a.holder.user@ == b.holder.user@,
        a.unit == b.unit,
        a.holder.pid != b.holder.pid,
    ensures
        holder_text(a) != holder_text(b),
{
    if holder_text(a) == holder_text(b) {
        let start = a.holder.name@ + " pid="@;
        let unit = match a.unit {
            Some(unit) => " unit="@ + unit,
            None => ""@,
        };
        let end = " user="@ + a.holder.user@ + unit;
        let one = number::decimal(a.holder.pid as int);
        let two = number::decimal(b.holder.pid as int);
        assert(holder_text(a) =~= start + one + end);
        assert(holder_text(b) =~= start + two + end);
        let n = start.len() as int;
        assert((start + one + end).len() == (start + two + end).len());
        assert(one =~= holder_text(a).subrange(n, (n + one.len()) as int));
        assert(two =~= holder_text(b).subrange(n, (n + two.len()) as int));
        crate::laws::number::lemma_decimal_tells_apart(
            a.holder.pid as int,
            b.holder.pid as int,
        );
    }
}

/// The explanation of a port has the port, the sum of it all, the holders, the evidence and
/// the count, and nothing else.
pub proof fn lemma_port_is_explained(port: u16, holders: Seq<Told>, stats: ScanStats)
    ensures
        why::port_synthesis(port, holders, stats) == seq![
            ":"@ + number::decimal(port as int),
            "├── reason: "@ + why::port_explanation(holders),
        ] + stacked(port_blocks(holders, holders.len())) + seq![
            "└── evidence: socket inode matched from /proc/<pid>/fd"@,
        ] + count_block(holders.len() as int, stats),
{
    lemma_port_details(holders, holders.len());
    assert(why::port_synthesis(port, holders, stats) =~= seq![
        ":"@ + number::decimal(port as int),
        "├── reason: "@ + why::port_explanation(holders),
    ] + stacked(port_blocks(holders, holders.len())) + seq![
        "└── evidence: socket inode matched from /proc/<pid>/fd"@,
    ] + count_block(holders.len() as int, stats));
}

/// The names, each once and in the order in which they come first.
pub open spec fn are_names(distinct: Seq<Seq<char>>, holders: Seq<Told>) -> bool {
    &&& distinct.no_duplicates()
    &&& forall|i: int| 0 <= i < holders.len() ==> distinct.contains(#[trigger] holders[i].holder.name@)
    &&& forall|k: int|
        0 <= k < distinct.len() ==> exists|i: int|
            0 <= i < holders.len() && #[trigger] holders[i].holder.name@ == #[trigger] distinct[k]
}

proof fn lemma_names(holders: Seq<Told>)
    ensures
        are_names(why::names(holders), holders),
        holders.len() > 0 ==> why::names(holders).len() > 0,
{
    let all = holders.map_values(|t: Told| t.holder.name@);
    let distinct = why::names(holders);
    text::lemma_first_occurrences(all);
    assert forall|i: int| 0 <= i < holders.len() implies distinct.contains(
        #[trigger] holders[i].holder.name@,
    ) by {
        assert(all[i] == holders[i].holder.name@);
        assert(all.contains(all[i]));
    }
    assert forall|k: int| 0 <= k < distinct.len() implies exists|i: int|
        0 <= i < holders.len() && #[trigger] holders[i].holder.name@ == #[trigger] distinct[k] by {
        assert(distinct.contains(distinct[k]));
        assert(all.contains(distinct[k]));
        let i = choose|i: int| 0 <= i < all.len() && all[i] == distinct[k];
        assert(holders[i].holder.name@ == distinct[k]);
    }
}

/// All holders have the same name.
pub open spec fn one_name(holders: Seq<Told>) -> bool {
    forall|i: int|
        0 <= i < holders.len() ==> #[trigger] holders[i].holder.name@ == holders[0].holder.name@
}

proof fn lemma_one_name(holders: Seq<Told>)
    requires
        holders.len() > 0,
    ensures
        one_name(holders) == (why::names(holders).len() == 1),
        one_name(holders) ==> why::names(holders)[0] == holders[0].holder.name@,
{
    lemma_names(holders);
    let distinct = why::names(holders);
    if one_name(holders) {
        let i = choose|i: int|
            0 <= i < holders.len() && #[trigger] holders[i].holder.name@ == distinct[0];
        assert(distinct[0] == holders[0].holder.name@);
        if distinct.len() > 1 {
            let j = choose|j: int|
                0 <= j < holders.len() && #[trigger] holders[j].holder.name@ == distinct[1];
            assert(distinct[1] == holders[0].holder.name@);
            assert(distinct[0] != distinct[1]);
        }
    } else if distinct.len() == 1 {
        assert forall|i: int| 0 <= i < holders.len() implies #[trigger] holders[i].holder.name@
            == holders[0].holder.name@ by {
            assert(distinct.contains(holders[i].holder.name@));
            assert(distinct.contains(holders[0].holder.name@));
        }
    }
}

/// One holder of a port is named with its number and unit; several are counted and named.
pub proof fn lemma_port_in_one_line(holders: Seq<Told>)
    ensures
        holders.len() == 0 ==> why::port_explanation(holders) == "no visible holder found"@,
        holders.len() == 1 ==> why::port_explanation(holders) == holders[0].holder.name@ + " (pid="@
            + number::decimal(holders[0].holder.pid as int) + ")"@ + (match holders[0].unit {
            Some(unit) => " owned by "@ + unit,
            None => ""@,
        }) + " owns this socket"@,
        holders.len() > 1 && one_name(holders) ==> why::port_explanation(holders)
            == number::decimal(holders.len() as int) + " processes named '"@
            + holders[0].holder.name@ + "' share this socket"@,
        holders.len() > 1 && !one_name(holders) ==> exists|distinct: Seq<Seq<char>>|
            are_names(distinct, holders) && why::port_explanation(holders) == number::decimal(
                holders.len() as int,
            ) + " processes ("@ + #[trigger] text::join(distinct, ", "@) + ") share this socket"@,
{
    if holders.len() == 1 {
        let only = holders[0];
        let first = only.holder.name@ + " (pid="@ + number::decimal(only.holder.pid as int) + ")"@;
        reveal_strlit(" ");
        reveal_strlit("");
        reveal_strlit("owned by ");
        reveal_strlit(" owned by ");
        reveal_strlit("owns this socket");
        reveal_strlit(" owns this socket");
        assert(" "@ + "owns this socket"@ =~= " owns this socket"@);
        assert(" "@ + "owned by "@ =~= " owned by "@);
        let none = Seq::<Seq<char>>::empty();
        crate::laws::text::lemma_join_grows(none, first, " "@);
        crate::laws::text::lemma_join_grows(seq![first], "owns this socket"@, " "@);
        match only.unit {
            Some(unit) => {
                let second = seq![first].push("owned by "@ + unit);
                crate::laws::text::lemma_join_grows(seq![first], "owned by "@ + unit, " "@);
                crate::laws::text::lemma_join_grows(second, "owns this socket"@, " "@);
                assert(why::port_explanation(holders) =~= first + (" owned by "@ + unit)
                    + " owns this socket"@);
            },
            None => {
                assert(why::port_explanation(holders) =~= first + ""@ + " owns this socket"@);
            },
        }
    } else if holders.len() > 1 {
        lemma_one_name(holders);
        lemma_names(holders);
        let distinct = why::names(holders);
        if !one_name(holders) {
            assert(why::port_explanation(holders) == number::decimal(holders.len() as int)
                + " processes ("@ + text::join(distinct, ", "@) + ") share this socket"@);
        }
    }
}

/// A port without holders has no reason, unless some processes could not be looked at, which
/// is said; one with holders is explained.
pub proof fn lemma_port_answers(
    port: u16,
    holders: Seq<Holder>,
    stats: ScanStats,
    files: Seq<HolderFiles>,
)
    ensures
        holders.len() == 0 && stats.unreadable_processes == 0 && stats.unreadable_fds == 0
            && stats.unreadable_maps == 0 ==> why::port_answer(port, holders, stats, files)
            == "No reason found for port "@ + number::decimal(port as int) + "."@,
        holders.len() == 0 && (stats.unreadable_processes > 0 || stats.unreadable_fds > 0
            || stats.unreadable_maps > 0) ==> why::port_answer(port, holders, stats, files)
            == text::join(
            seq![
                ":"@ + number::decimal(port as int),
                "├── reason: no visible holder found"@,
                "└── evidence: process details may be incomplete"@,
                ""@,
                "note: some processes were not readable; try sudo for complete explanation"@,
            ],
            "\n"@,
        ),
        holders.len() > 0 ==> why::port_answer(port, holders, stats, files) == text::join(
            why::port_synthesis(port, why::told_holders(holders, files), stats),
            "\n"@,
        ),
{
}

// ---------------------------------------------------------------------------
// What is told about a holder
// ---------------------------------------------------------------------------

/// The files of this process come first among those with its number.
pub open spec fn first_files(files: Seq<HolderFiles>, k: int, pid: u32) -> bool {
    &&& 0 <= k < files.len()
    &&& files[k].pid == pid
    &&& forall|j: int| 0 <= j < k ==> (#[trigger] files[j]).pid != pid
}

/// Each holder is told about from the files of its own process, and nothing is told about one
/// without files.
pub proof fn lemma_holders_are_told_about(
    holders: Seq<Holder>,
    files: Seq<HolderFiles>,
    i: int,
    k: int,
)
    requires
        0 <= i < holders.len(),
    ensures
        why::told_holders(holders, files).len() == holders.len(),
        why::told_holders(holders, files)[i].holder == holders[i],
        first_files(files, k, holders[i].pid) ==> {
            let t = why::told_holders(holders, files)[i];
            &&& match files[k].cgroup {
                Some(content) => t.unit == process::unit_of_process(content@),
                None => t.unit is None,
            }
            &&& match files[k].cmdline {
                Some(content) => t.cmdline == process::command_line(content@),
                None => t.cmdline is None,
            }
        },
        (forall|j: int| 0 <= j < files.len() ==> (#[trigger] files[j]).pid != holders[i].pid)
            ==> why::told_holders(holders, files)[i].unit is None && why::told_holders(
            holders,
            files,
        )[i].cmdline is None,
{
    let pid = holders[i].pid;
    if first_files(files, k, pid) {
        lemma_told_by_first(files, k, pid);
    }
    if forall|j: int| 0 <= j < files.len() ==> (#[trigger] files[j]).pid != pid {
        lemma_told_by_none(files, pid);
    }
}

proof fn lemma_told_by_first(files: Seq<HolderFiles>, k: int, pid: u32)
    requires
        first_files(files, k, pid),
    ensures
        why::told_by(files, pid) == (
            match files[k].cgroup {
                Some(content) => process::unit_of_process(content@),
                None => None,
            },
            match files[k].cmdline {
                Some(content) => process::command_line(content@),
                None => None,
            },
        ),
    decreases k,
{
    if k > 0 {
        assert(files[0].pid != pid);
        let more = files.skip(1);
        assert forall|j: int| 0 <= j < k - 1 implies (#[trigger] more[j]).pid != pid by {
            assert(more[j] == files[j + 1]);
        }
        lemma_told_by_first(more, k - 1, pid);
    }
}

proof fn lemma_told_by_none(files: Seq<HolderFiles>, pid: u32)
    requires
        forall|j: int| 0 <= j < files.len() ==> (#[trigger] files[j]).pid != pid,
    ensures
        why::told_by(files, pid) == (None::<Seq<char>>, None::<Seq<char>>),
    decreases files.len(),
{
    if files.len() > 0 {
        assert(files[0].pid != pid);
        let more = files.skip(1);
        assert forall|j: int| 0 <= j < more.len() implies (#[trigger] more[j]).pid != pid by {
            assert(more[j] == files[j + 1]);
        }
        lemma_told_by_none(more, pid);
    }
}

// ---------------------------------------------------------------------------
// Paths
// ---------------------------------------------------------------------------

/// What the explanation of a path has on what is recorded of it: its type, size and
/// permissions and its two times, or the one time that is known.
pub open spec fn record_block(info: TouchInfo) -> Seq<Seq<char>> {
    seq!["├── metadata:"@] + (match info.meta {
        Some(meta) => seq![
            "│   ├── type: "@ + meta.file_type@,
            "│   ├── size: "@ + number::decimal(meta.size as int) + " bytes"@,
            "│   ├── perms: "@ + meta.perms_octal@,
            "│   ├── modified: "@ + meta.modified.shown(),
            "│   └── changed:  "@ + meta.changed.shown(),
        ],
        None => seq!["│   └── modified: "@ + info.modified.shown()],
    })
}

/// What the explanation of a path has on who changed it, where logs tell that.
pub open spec fn actor_block(info: TouchInfo) -> Seq<Seq<char>> {
    match info.source {
        EvidenceSource::Metadata => Seq::empty(),
        _ => seq!["├── actor: "@ + info.actor@ + " ("@ + info.source.words() + ")"@] + (
        match info.process {
            Some(process) => seq![
                "│   └── process: "@ + process.name@ + (match process.pid {
                    Some(pid) => " pid="@ + number::decimal(pid as int),
                    None => ""@,
                }),
            ],
            None => Seq::empty(),
        }),
    }
}

proof fn lemma_touch_blocks(info: TouchInfo)
    ensures
        why::metadata_lines(info) == record_block(info),
        why::actor_lines(info) == actor_block(info),
{
    assert(why::metadata_lines(info) =~= record_block(info));
    if let Some(process) = info.process {
        reveal_strlit("");
        let start = "│   └── process: "@;
        match process.pid {
            Some(pid) => {
                assert(start + process.words() =~= start + process.name@ + (" pid="@
                    + number::decimal(pid as int)));
            },
            None => {
                assert(start + process.words() =~= start + process.name@ + ""@);
            },
        }
    }
    assert(why::actor_lines(info) =~= actor_block(info));
}

/// The section on the holders of a path.
pub open spec fn holders_block(holders: Seq<Told>) -> Seq<Seq<char>> {
    if holders.len() == 0 {
        Seq::empty()
    } else {
        seq!["├── holders ("@ + number::decimal(holders.len() as int) + "):"@] + stacked(
            path_blocks(holders, holders.len()),
        )
    }
}

/// The section on what is recorded of a path.
pub open spec fn touch_block(touch: Option<TouchInfo>) -> Seq<Seq<char>> {
    match touch {
        Some(info) => record_block(info) + actor_block(info),
        None => Seq::empty(),
    }
}

/// The explanation of a path has the path, the sum of it all, the holders, what is recorded,
/// the evidence and the count, in this order, and nothing else. Holders and a record are both
/// shown where there are both, and each holder and the record count as a reason.
pub proof fn lemma_path_is_explained(
    path: Seq<char>,
    holders: Seq<Told>,
    touch: Option<TouchInfo>,
    stats: ScanStats,
)
    ensures
        why::path_synthesis(path, holders, touch, stats) == seq![
            path,
            "├── reason: "@ + why::path_explanation(holders, touch),
        ] + holders_block(holders) + touch_block(touch) + seq![
            "└── evidence: "@ + (if holders.len() == 0 {
                "filesystem metadata"@
            } else {
                why::path_evidence(why::bare(holders))
            }),
        ] + count_block(
            holders.len() + (if touch is Some {
                1int
            } else {
                0
            }),
            stats,
        ),
{
    lemma_path_details(holders, holders.len());
    if let Some(info) = touch {
        lemma_touch_blocks(info);
    }
    assert(why::path_synthesis(path, holders, touch, stats) =~= seq![
        path,
        "├── reason: "@ + why::path_explanation(holders, touch),
    ] + holders_block(holders) + touch_block(touch) + seq![
        "└── evidence: "@ + (if holders.len() == 0 {
            "filesystem metadata"@
        } else {
            why::path_evidence(why::bare(holders))
        }),
    ] + count_block(
        holders.len() + (if touch is Some {
            1int
        } else {
            0
        }),
        stats,
    ));
}

/// The explanation of a path names every holder, in their order, each with its unit and with
/// all of its evidence below it.
pub proof fn lemma_path_holders_are_named(
    path: Seq<char>,
    holders: Seq<Told>,
    touch: Option<TouchInfo>,
    stats: ScanStats,
)
    ensures
        in_order(
            why::path_synthesis(path, holders, touch, stats),
            Seq::new(holders.len(), |i: int| path_block(holders[i])),
        ),
{
    let lines = why::path_synthesis(path, holders, touch, stats);
    let blocks = path_blocks(holders, holders.len());
    if holders.len() == 0 {
        crate::laws::text::lemma_order_of_none(lines);
        assert(blocks =~= Seq::<Seq<Seq<char>>>::empty());
    } else {
        lemma_path_is_explained(path, holders, touch, stats);
        crate::laws::text::lemma_stacked_in_order(blocks);
        let head = seq![
            path,
            "├── reason: "@ + why::path_explanation(holders, touch),
            "├── holders ("@ + number::decimal(holders.len() as int) + "):"@,
        ];
        let n = (head.len() + stacked(blocks).len()) as int;
        assert(lines =~= head + stacked(blocks) + lines.skip(n));
        crate::laws::text::lemma_order_inside(head, stacked(blocks), lines.skip(n), blocks);
    }
}

/// Who holds a path and who changed it is said in one line, both where both are known.
pub proof fn lemma_path_in_one_line(holders: Seq<Told>, info: TouchInfo)
    ensures
        why::path_explanation(Seq::<Told>::empty(), None) == "no evidence found"@,
        why::path_explanation(Seq::<Told>::empty(), Some(info)) == if info.actor@ != "unknown"@ {
            "last modified by "@ + info.actor@ + " ("@ + info.source.words() + ")"@
        } else {
            "path exists with filesystem metadata only"@
        },
        holders.len() > 0 ==> why::path_explanation(holders, Some(info)) == why::path_explanation(
            holders,
            None,
        ) + ", "@ + (if info.actor@ != "unknown"@ {
            "last modified by "@ + info.actor@
        } else {
            "modification time on record"@
        }),
        holders.len() > 0 && one_name(holders) ==> why::path_explanation(holders, None)
            == "currently held by "@ + holders[0].holder.name@ + " (pid="@ + number::decimal(
            holders[0].holder.pid as int,
        ) + ")"@,
        holders.len() > 0 && !one_name(holders) ==> exists|distinct: Seq<Seq<char>>|
            are_names(distinct, holders) && why::path_explanation(holders, None)
                == number::decimal(holders.len() as int) + " processes ("@ + #[trigger] text::join(
                distinct,
                ", "@,
            ) + ") hold this path"@,
{
    if holders.len() > 0 {
        lemma_one_name(holders);
        lemma_names(holders);
        let distinct = why::names(holders);
        if !one_name(holders) {
            assert(why::path_explanation(holders, None) == number::decimal(holders.len() as int)
                + " processes ("@ + text::join(distinct, ", "@) + ") hold this path"@);
        }
    }
}

/// One of the holders shows evidence of this kind.
pub open spec fn shows_kind(holders: Seq<Holder>, descriptor: bool) -> bool {
    exists|i: int, k: int|
        0 <= i < holders.len() && 0 <= k < holders[i].evidence@.len()
            && (#[trigger] holders[i].evidence@[k] is Fd) == descriptor
}

/// The evidence for a path is summed up by the kinds that the holders show.
pub proof fn lemma_evidence_in_one_line(holders: Seq<Holder>)
    ensures
        why::path_evidence(holders) == if shows_kind(holders, true) {
            if shows_kind(holders, false) {
                "/proc/<pid>/fd link or maps entry matched this path"@
            } else {
                "/proc/<pid>/fd link matched this path"@
            }
        } else if shows_kind(holders, false) {
            "/proc/<pid>/maps entry matched this path"@
        } else {
            "procfs matched this path"@
        },
{
    if why::any_fd(holders) {
        let i = choose|i: int| 0 <= i < holders.len() && why::shows_fd(#[trigger] holders[i]);
        let k = choose|k: int|
            0 <= k < holders[i].evidence@.len() && #[trigger] holders[i].evidence@[k] is Fd;
        assert((holders[i].evidence@[k] is Fd) == true);
        assert(shows_kind(holders, true));
    }
    if why::any_mmap(holders) {
        let i = choose|i: int| 0 <= i < holders.len() && why::shows_mmap(#[trigger] holders[i]);
        let k = choose|k: int|
            0 <= k < holders[i].evidence@.len() && #[trigger] holders[i].evidence@[k] is Mmap;
        assert((holders[i].evidence@[k] is Fd) == false);
        assert(shows_kind(holders, false));
    }
    if shows_kind(holders, true) {
        let (i, k) = choose|i: int, k: int|
            0 <= i < holders.len() && 0 <= k < holders[i].evidence@.len()
                && (#[trigger] holders[i].evidence@[k] is Fd) == true;
        assert(why::shows_fd(holders[i]));
    }
    if shows_kind(holders, false) {
        let (i, k) = choose|i: int, k: int|
            0 <= i < holders.len() && 0 <= k < holders[i].evidence@.len()
                && (#[trigger] holders[i].evidence@[k] is Fd) == false;
        assert(holders[i].evidence@[k] is Mmap);
        assert(why::shows_mmap(holders[i]));
    }
}

/// A path that does not exist is said not to be found, another failure is told as it is, and a
/// path without holders and without a record has no reason.
pub proof fn lemma_path_answers(
    r: Result<String, WhyError>,
    shown: Seq<char>,
    examined: Result<(), IoFailure>,
    scan: Result<(Vec<Holder>, ScanStats), HoldsError>,
    touch: Option<TouchInfo>,
    files: Seq<HolderFiles>,
)
    requires
        why::is_path_answer(r, shown, examined, scan, touch, files),
    ensures
        examined matches Err(error) ==> (r matches Err(e) && e.0@ == if error.kind
            == FailureKind::NotFound {
            "path not found: "@ + shown
        } else {
            shown + ": "@ + error.message@
        }),
        examined is Ok ==> (scan matches Err(error) ==> (r matches Err(e) && e.0@ == error.0@)),
        examined is Ok ==> (scan matches Ok((holders, stats)) ==> (r matches Ok(answer) && answer@
            == if holders@.len() == 0 && touch is None {
            "No reason found for '"@ + shown + "'."@
        } else {
            text::join(
                why::path_synthesis(shown, why::told_holders(holders@, files), touch, stats),
                "\n"@,
            )
        })),
{
}

// ---------------------------------------------------------------------------
// Plain reasons
// ---------------------------------------------------------------------------

/// A holder in words, without its unit.
pub open spec fn plain_text(holder: Holder) -> Seq<char> {
    holder.name@ + " pid="@ + number::decimal(holder.pid as int) + " user="@ + holder.user@
}

/// What a plain reason has on a holder: the holder, and below it where it works, or all of its
/// evidence.
pub open spec fn plain_block(holder: Holder, show_cwd: bool) -> Seq<Seq<char>> {
    seq!["├── holder: "@ + plain_text(holder)] + (if show_cwd {
        match holder.cwd {
            Some(cwd) => seq!["│   └── cwd "@ + cwd@],
            None => Seq::empty(),
        }
    } else {
        Seq::new(
            holder.evidence@.len(),
            |k: int|
                "│   "@ + (if k + 1 == holder.evidence@.len() {
                    "└──"@
                } else {
                    "├──"@
                }) + " "@ + holder.evidence@[k].words(),
        )
    })
}

/// The blocks of the first `n` holders in a plain reason.
pub open spec fn plain_blocks(holders: Seq<Holder>, show_cwd: bool, n: nat) -> Seq<
    Seq<Seq<char>>,
> {
    Seq::new(n, |i: int| plain_block(holders[i], show_cwd))
}

proof fn lemma_summaries(holders: Seq<Holder>, show_cwd: bool, n: nat)
    requires
        n <= holders.len(),
    ensures
        why::summaries(holders, show_cwd, n as int) == stacked(
            plain_blocks(holders, show_cwd, n),
        ),
    decreases n,
{
    if n > 0 {
        let m = (n - 1) as nat;
        lemma_summaries(holders, show_cwd, m);
        assert(why::summary_of(holders[n - 1], show_cwd) =~= plain_block(
            holders[n - 1],
            show_cwd,
        ));
        assert(plain_blocks(holders, show_cwd, n).drop_last() =~= plain_blocks(
            holders,
            show_cwd,
            m,
        ));
    }
}

/// A plain reason for a port has the port, each holder with where it works, the evidence and
/// the count.
pub proof fn lemma_plain_port_reason(port: u16, holders: Seq<Holder>, stats: ScanStats)
    ensures
        why::port_reason(port, holders, stats) == seq![
            ":"@ + number::decimal(port as int),
            "├── reason: "@ + "port is open because a process owns this socket"@,
        ] + stacked(plain_blocks(holders, true, holders.len())) + seq![
            "└── evidence: "@ + "socket inode matched from /proc"@,
        ] + count_block(holders.len() as int, stats),
{
    lemma_summaries(holders, true, holders.len());
    assert(why::port_reason(port, holders, stats) =~= seq![
        ":"@ + number::decimal(port as int),
        "├── reason: "@ + "port is open because a process owns this socket"@,
    ] + stacked(plain_blocks(holders, true, holders.len())) + seq![
        "└── evidence: "@ + "socket inode matched from /proc"@,
    ] + count_block(holders.len() as int, stats));
}

/// A plain reason for a path has the path, each holder with its evidence, the kinds of the
/// evidence and the count.
pub proof fn lemma_plain_path_reason(path: Seq<char>, holders: Seq<Holder>, stats: ScanStats)
    ensures
        why::path_reason(path, holders, stats) == seq![
            path,
            "├── reason: "@ + "path is open because a process references it"@,
        ] + stacked(plain_blocks(holders, false, holders.len())) + seq![
            "└── evidence: "@ + why::path_evidence(holders),
        ] + count_block(holders.len() as int, stats),
{
    lemma_summaries(holders, false, holders.len());
    assert(why::path_reason(path, holders, stats) =~= seq![
        path,
        "├── reason: "@ + "path is open because a process references it"@,
    ] + stacked(plain_blocks(holders, false, holders.len())) + seq![
        "└── evidence: "@ + why::path_evidence(holders),
    ] + count_block(holders.len() as int, stats));
}

/// A reason from what is recorded of a path tells the path, the time, the source and the
/// actor, the process where it is known, and what such a record is worth.
pub proof fn lemma_record_reason(info: TouchInfo)
    ensures
        ({
            let lines = why::touch_reason(info);
            let n = lines.len() as int;
            &&& n == if info.process is Some {
                8int
            } else {
                7
            }
            &&& lines[0] == info.path@
            &&& lines[1] == "├── reason: "@ + (if info.source == EvidenceSource::Metadata {
                "path exists and has modification evidence"@
            } else {
                "path has recent modification evidence"@
            })
            &&& lines[2] == "├── modified: "@ + info.modified.shown()
            &&& lines[3] == "├── source: "@ + info.source.words()
            &&& match info.process {
                Some(process) => lines[4] == "├── actor: "@ + info.actor@ && lines[5]
                    == "└── process: "@ + process.words(),
                None => lines[4] == "└── actor: "@ + info.actor@,
            }
            &&& lines[n - 2] == ""@
            &&& lines[n - 1] == if info.source == EvidenceSource::Metadata {
                "note: filesystem metadata shows when the path changed, not who changed it"@
            } else {
                "note: actor inference is best-effort and depends on available logs"@
            }
        }),
{
}

/// The words for where a record comes from.
pub proof fn lemma_sources()
    ensures
        EvidenceSource::Metadata.words() == "filesystem metadata"@,
        EvidenceSource::Audit.words() == "audit evidence"@,
        EvidenceSource::Journal.words() == "journal evidence"@,
{
}

/// What is told about holders is about each of them, in their order, with its unit and its
/// command line.
pub proof fn lemma_told_as_it_is(enriched: Seq<EnrichedHolder>, i: int)
    requires
        0 <= i < enriched.len(),
    ensures
        why::told(enriched).len() == enriched.len(),
        why::told(enriched)[i].holder == enriched[i].holder,
        match enriched[i].systemd_unit {
            Some(unit) => why::told(enriched)[i].unit == Some(unit@),
            None => why::told(enriched)[i].unit is None,
        },
        match enriched[i].cmdline {
            Some(command) => why::told(enriched)[i].cmdline == Some(command@),
            None => why::told(enriched)[i].cmdline is None,
        },
{
}

} // verus!
