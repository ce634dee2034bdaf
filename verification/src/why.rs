//! Why a port is open or a path is in use: the explanations that the evidence supports.

use crate::clock::format_system_time;
use crate::failure::{FailureKind, IoFailure};
use crate::filepath::FilePath;
use crate::holds;
use crate::holds::report;
use crate::holds::{Evidence, Holder, HoldsError, ScanStats, Target};
use crate::number;
use crate::number::{decimal_text, wide_text};
use crate::process;
use crate::process::{read_cmdline, read_systemd_unit};
use crate::text;
use crate::text::{
    cat2, cat3, cat4, cat5, join_texts, no_texts, push_text, text_eq, unique_texts,
};
use crate::touch::{EvidenceSource, TouchInfo};
use vstd::prelude::*;

verus! {

/// A question that cannot be answered.
#[derive(Debug, Clone, PartialEq, Eq)]
pub struct WhyError(pub String);

impl WhyError {
    /// The message.
    pub fn message(&self) -> (r: String)
        ensures
            r@ == self.0@,
    {
        self.0.clone()
    }
}

/// Reads a target: a text of digits is a port, any other text is a path.
pub fn parse_target(input: &str) -> (r: Result<Target, WhyError>)
    ensures
        match r {
            Ok(Target::Port(port)) => holds::all_digits(input@) && holds::port_of(input@) == Some(
                port as int,
            ),
            Ok(Target::Path(path)) => !holds::all_digits(input@) && path@
                == vstd::utf8::encode_utf8(input@),
            Err(error) => {
                &&& holds::all_digits(input@)
                &&& holds::port_of(input@) is None
                &&& error.0@ == holds::invalid_port(input@)
            },
        },
        forall|n: u16|
            n > 0 && input@ == #[trigger] number::decimal(n as int) ==> r == Ok::<Target, WhyError>(
                Target::Port(n),
            ),
{
    match holds::parse_target(input) {
        Ok(target) => Ok(target),
        Err(error) => Err(WhyError(error.0)),
    }
}

// ---------------------------------------------------------------------------
// Holders and what their processes tell
// ---------------------------------------------------------------------------

/// A holder with the unit and the command line of its process.
#[derive(Debug)]
pub struct EnrichedHolder {
    pub holder: Holder,
    pub systemd_unit: Option<String>,
    pub cmdline: Option<String>,
}

/// A holder as the explanations see it.
#[verifier::ext_equal]
pub struct Told {
    pub holder: Holder,
    pub unit: Option<Seq<char>>,
    pub cmdline: Option<Seq<char>>,
}

impl View for EnrichedHolder {
    type V = Told;

    open spec fn view(&self) -> Told {
        Told {
            holder: self.holder,
            unit: process::opt_view(self.systemd_unit),
            cmdline: process::opt_view(self.cmdline),
        }
    }
}

/// The holders as the explanations see them.
pub open spec fn told(enriched: Seq<EnrichedHolder>) -> Seq<Told> {
    enriched.map_values(|e: EnrichedHolder| e@)
}

/// What was read about the process of a holder.
#[derive(Debug)]
pub struct HolderFiles {
    pub pid: u32,
    /// The text of the `cgroup` file.
    pub cgroup: Option<String>,
    /// The bytes of the `cmdline` file.
    pub cmdline: Option<Vec<u8>>,
}

/// The unit and the command line that the first files of the process tell.
pub open spec fn told_by(files: Seq<HolderFiles>, pid: u32) -> (
    Option<Seq<char>>,
    Option<Seq<char>>,
)
    decreases files.len(),
{
    if files.len() == 0 {
        (None, None)
    } else if files[0].pid == pid {
        (
            match files[0].cgroup {
                Some(content) => process::unit_of_process(content@),
                None => None,
            },
            match files[0].cmdline {
                Some(content) => process::command_line(content@),
                None => None,
            },
        )
    } else {
        told_by(files.skip(1), pid)
    }
}

/// The holders with what the files of their processes tell.
pub open spec fn told_holders(holders: Seq<Holder>, files: Seq<HolderFiles>) -> Seq<Told> {
    holders.map_values(
        |h: Holder|
            Told { holder: h, unit: told_by(files, h.pid).0, cmdline: told_by(files, h.pid).1 },
    )
}

fn enrich_one(holder: Holder, files: &Vec<HolderFiles>) -> (r: EnrichedHolder)
    ensures
        r@ == (Told {
            holder,
            unit: told_by(files@, holder.pid).0,
            cmdline: told_by(files@, holder.pid).1,
        }),
{
    let mut i: usize = 0;
    assert(files@.skip(0) =~= files@);
    while i < files.len()
        invariant
            i <= files@.len(),
            told_by(files@.skip(i as int), holder.pid) == told_by(files@, holder.pid),
        decreases files@.len() - i,
    {
        proof {
            assert(files@.skip(i as int)[0] == files@[i as int]);
            assert(files@.skip(i as int).skip(1) =~= files@.skip(i + 1));
        }
        let entry = &files[i];
        if entry.pid == holder.pid {
            let systemd_unit: Option<String> = match &entry.cgroup {
                Some(content) => read_systemd_unit(content.as_str()),
                None => None,
            };
            let cmdline: Option<String> = match &entry.cmdline {
                Some(content) => read_cmdline(content),
                None => None,
            };
            return EnrichedHolder { holder, systemd_unit, cmdline };
        }
        i += 1;
    }
    EnrichedHolder { holder, systemd_unit: None, cmdline: None }
}

/// Adds to each holder what the files of its process tell.
pub fn enrich(holders: Vec<Holder>, files: &Vec<HolderFiles>) -> (r: Vec<EnrichedHolder>)
    ensures
        told(r@) == told_holders(holders@, files@),
{
    let ghost all = holders@;
    let ghost goal = told_holders(all, files@);
    let mut rest = holders;
    let mut enriched: Vec<EnrichedHolder> = Vec::new();
    let n: usize = rest.len();
    let mut i: usize = 0;
    assert(told(enriched@) =~= goal.take(0));
    while i < n
        invariant
            i <= n,
            n == all.len(),
            rest@ == all.skip(i as int),
            goal == told_holders(all, files@),
            told(enriched@) == goal.take(i as int),
        decreases n - i,
    {
        let ghost before = enriched@;
        let holder = rest.remove(0);
        proof {
            assert(holder == all[i as int]);
            assert(rest@ =~= all.skip(i + 1));
        }
        enriched.push(enrich_one(holder, files));
        proof {
            assert(told(enriched@) =~= told(before).push(enriched@.last()@));
            assert(goal.take(i + 1) =~= goal.take(i as int).push(goal[i as int]));
        }
        i += 1;
    }
    assert(goal.take(i as int) =~= goal);
    enriched
}

// ---------------------------------------------------------------------------
// Shared pieces
// ---------------------------------------------------------------------------

/// The note that something could not be looked at.
pub open spec fn incomplete_note(stats: ScanStats) -> Seq<Seq<char>> {
    if stats.missed_something() {
        seq![
            ""@,
            "note: some processes were not readable; try sudo for complete explanation"@,
        ]
    } else {
        Seq::empty()
    }
}

/// The line that counts the reasons.
pub open spec fn reasons(n: int) -> Seq<char> {
    number::decimal(n) + " "@ + report::counted(n, "reason"@, "reasons"@)
}

/// The lines of an explanation, with an empty line, the count of the reasons and the note
/// behind them.
pub open spec fn with_count(body: Seq<Seq<char>>, count: int, stats: ScanStats) -> Seq<
    Seq<char>,
> {
    body.push(""@).push(reasons(count)) + incomplete_note(stats)
}

/// What is said at the end of a text where something could not be looked at.
pub open spec fn note_text(stats: ScanStats) -> Seq<char> {
    if stats.missed_something() {
        "\n\nnote: some processes were not readable; try sudo for complete explanation"@
    } else {
        ""@
    }
}

/// The names of the holders, each once, in the order of their first occurrence.
pub open spec fn names(holders: Seq<Told>) -> Seq<Seq<char>> {
    text::first_occurrences(holders.map_values(|t: Told| t.holder.name@))
}

/// A holder with its number and user.
pub open spec fn holder_words(holder: Holder) -> Seq<char> {
    holder.name@ + " pid="@ + number::decimal(holder.pid as int) + " user="@ + holder.user@
}

/// The unit, where it is known.
pub open spec fn unit_words(unit: Option<Seq<char>>) -> Seq<char> {
    match unit {
        Some(unit) => " unit="@ + unit,
        None => ""@,
    }
}

/// Appends the note that something could not be looked at.
pub fn append_incomplete_note(lines: &mut Vec<String>, stats: &ScanStats)
    ensures
        text::views(final(lines)@) == text::views(old(lines)@) + incomplete_note(*stats),
{
    if stats.has_unreadable() {
        let ghost first = text::views(lines@);
        push_text(lines, "".to_owned());
        push_text(
            lines,
            "note: some processes were not readable; try sudo for complete explanation".to_owned(),
        );
        assert(text::views(lines@) =~= first + incomplete_note(*stats));
    } else {
        assert(text::views(lines@) =~= text::views(lines@) + incomplete_note(*stats));
    }
}

fn reasons_line(n: u128) -> (r: String)
    ensures
        r@ == reasons(n as int),
{
    let count = wide_text(n);
    let noun: &str = if n == 1 {
        "reason"
    } else {
        "reasons"
    };
    cat3(count.as_str(), " ", noun)
}

fn unique_names(enriched: &Vec<EnrichedHolder>) -> (r: Vec<String>)
    ensures
        text::views(r@) == names(told(enriched@)),
{
    let ghost all = told(enriched@).map_values(|t: Told| t.holder.name@);
    let mut list = no_texts();
    let mut i: usize = 0;
    assert(text::views(list@) =~= all.take(0));
    while i < enriched.len()
        invariant
            i <= enriched@.len(),
            all == told(enriched@).map_values(|t: Told| t.holder.name@),
            text::views(list@) == all.take(i as int),
        decreases enriched@.len() - i,
    {
        push_text(&mut list, enriched[i].holder.name.clone());
        assert(all.take(i + 1) =~= all.take(i as int).push(all[i as int]));
        i += 1;
    }
    assert(all.take(i as int) =~= all);
    unique_texts(&list)
}

fn holder_text(holder: &Holder) -> (r: String)
    ensures
        r@ == holder_words(*holder),
{
    let pid = decimal_text(holder.pid as u64);
    cat5(holder.name.as_str(), " pid=", pid.as_str(), " user=", holder.user.as_str())
}

fn unit_text(unit: &Option<String>) -> (r: String)
    ensures
        r@ == unit_words(process::opt_view(*unit)),
{
    match unit {
        Some(unit) => cat2(" unit=", unit.as_str()),
        None => "".to_owned(),
    }
}

// ---------------------------------------------------------------------------
// Ports
// ---------------------------------------------------------------------------

/// One sentence on why a port is open.
pub open spec fn port_explanation(holders: Seq<Told>) -> Seq<char> {
    if holders.len() == 0 {
        "no visible holder found"@
    } else if holders.len() == 1 {
        let only = holders[0];
        let first = seq![
            only.holder.name@ + " (pid="@ + number::decimal(only.holder.pid as int) + ")"@,
        ];
        let second = match only.unit {
            Some(unit) => first.push("owned by "@ + unit),
            None => first,
        };
        text::join(second.push("owns this socket"@), " "@)
    } else {
        let count = number::decimal(holders.len() as int);
        if names(holders).len() == 1 {
            count + " processes named '"@ + names(holders)[0] + "' share this socket"@
        } else {
            count + " processes ("@ + text::join(names(holders), ", "@) + ") share this socket"@
        }
    }
}

/// The command line is worth a line of its own: it says more than the name.
pub open spec fn shows_command(t: Told) -> bool {
    t.cmdline matches Some(command) && command.len() > 0 && command != t.holder.name@
}

/// The lines on one holder of a port.
pub open spec fn port_holder_lines(t: Told) -> Seq<Seq<char>> {
    let head = seq!["├── holder: "@ + holder_words(t.holder) + unit_words(t.unit)];
    let with_command = if shows_command(t) {
        head.push("│   ├── cmd: "@ + t.cmdline->0)
    } else {
        head
    };
    match process::opt_view(t.holder.cwd) {
        Some(cwd) => with_command.push("│   └── cwd "@ + cwd),
        None => with_command,
    }
}

/// The lines on the first `n` holders of a port.
pub open spec fn port_details(holders: Seq<Told>, n: int) -> Seq<Seq<char>>
    decreases n,
{
    if n <= 0 {
        Seq::empty()
    } else {
        port_details(holders, n - 1) + port_holder_lines(holders[n - 1])
    }
}

/// The lines that explain a port that is held, up to the evidence.
pub open spec fn port_body(port: u16, holders: Seq<Told>) -> Seq<Seq<char>> {
    let head = seq![
        ":"@ + number::decimal(port as int),
        "├── reason: "@ + port_explanation(holders),
    ];
    (head + port_details(holders, holders.len() as int)).push(
        "└── evidence: socket inode matched from /proc/<pid>/fd"@,
    )
}

/// The lines that explain a port that is held.
pub open spec fn port_synthesis(port: u16, holders: Seq<Told>, stats: ScanStats) -> Seq<
    Seq<char>,
> {
    with_count(port_body(port, holders), holders.len() as int, stats)
}

/// The lines on a port for which no holder is visible.
pub open spec fn no_visible_lines(port: u16) -> Seq<Seq<char>> {
    seq![
        ":"@ + number::decimal(port as int),
        "├── reason: no visible holder found"@,
        "└── evidence: process details may be incomplete"@,
        ""@,
        "note: some processes were not readable; try sudo for complete explanation"@,
    ]
}

/// The explanation of a port that is held by these processes.
pub open spec fn port_answer(
    port: u16,
    holders: Seq<Holder>,
    stats: ScanStats,
    files: Seq<HolderFiles>,
) -> Seq<char> {
    if holders.len() == 0 {
        if stats.missed_something() {
            text::join(no_visible_lines(port), "\n"@)
        } else {
            "No reason found for port "@ + number::decimal(port as int) + "."@
        }
    } else {
        text::join(port_synthesis(port, told_holders(holders, files), stats), "\n"@)
    }
}

/// One sentence on why a port is open.
pub fn synthesize_port_explanation(enriched: &Vec<EnrichedHolder>) -> (r: String)
    ensures
        r@ == port_explanation(told(enriched@)),
{
    if enriched.len() == 0 {
        return "no visible holder found".to_owned();
    }
    if enriched.len() == 1 {
        let only = &enriched[0];
        assert(told(enriched@)[0] == only@);
        let pid = decimal_text(only.holder.pid as u64);
        let mut parts = no_texts();
        let ghost first = only.holder.name@ + " (pid="@ + number::decimal(only.holder.pid as int)
            + ")"@;
        push_text(&mut parts, cat4(only.holder.name.as_str(), " (pid=", pid.as_str(), ")"));
        assert(text::views(parts@) =~= seq![first]);
        if let Some(unit) = &only.systemd_unit {
            push_text(&mut parts, cat2("owned by ", unit.as_str()));
        }
        push_text(&mut parts, "owns this socket".to_owned());
        return join_texts(&parts, " ");
    }
    let unique = unique_names(enriched);
    assert(text::views(unique@).len() == unique@.len());
    let count = decimal_text(enriched.len() as u64);
    if unique.len() == 1 {
        assert(text::views(unique@)[0] == unique@[0]@);
        cat4(
            count.as_str(),
            " processes named '",
            unique[0].as_str(),
            "' share this socket",
        )
    } else {
        let list = join_texts(&unique, ", ");
        cat4(count.as_str(), " processes (", list.as_str(), ") share this socket")
    }
}

/// Appends the lines on one holder of a port.
fn append_port_holder(lines: &mut Vec<String>, entry: &EnrichedHolder)
    ensures
        text::views(final(lines)@) == text::views(old(lines)@) + port_holder_lines(entry@),
{
    let ghost first = text::views(lines@);
    let words = holder_text(&entry.holder);
    let unit = unit_text(&entry.systemd_unit);
    push_text(lines, cat3("├── holder: ", words.as_str(), unit.as_str()));
    if let Some(command) = &entry.cmdline {
        if command.as_str().unicode_len() > 0 && !text_eq(
            command.as_str(),
            entry.holder.name.as_str(),
        ) {
            push_text(lines, cat2("│   ├── cmd: ", command.as_str()));
        }
    }
    if let Some(cwd) = &entry.holder.cwd {
        push_text(lines, cat2("│   └── cwd ", cwd.as_str()));
    }
    assert(text::views(lines@) =~= first + port_holder_lines(entry@));
}

/// The explanation of a port that is held.
pub fn format_port_synthesis(
    port: u16,
    enriched: &Vec<EnrichedHolder>,
    stats: &ScanStats,
) -> (r: String)
    ensures
        r@ == text::join(port_synthesis(port, told(enriched@), *stats), "\n"@),
{
    let ghost holders = told(enriched@);
    let mut lines = no_texts();
    let shown = decimal_text(port as u64);
    push_text(&mut lines, cat2(":", shown.as_str()));
    let synthesis = synthesize_port_explanation(enriched);
    push_text(&mut lines, cat2("├── reason: ", synthesis.as_str()));
    let ghost head = text::views(lines@);
    assert(head + port_details(holders, 0) =~= head);
    let mut i: usize = 0;
    while i < enriched.len()
        invariant
            i <= enriched@.len(),
            holders == told(enriched@),
            text::views(lines@) == head + port_details(holders, i as int),
        decreases enriched@.len() - i,
    {
        append_port_holder(&mut lines, &enriched[i]);
        proof {
            assert(holders[i as int] == enriched@[i as int]@);
            assert(text::views(lines@) =~= head + port_details(holders, i + 1));
        }
        i += 1;
    }
    push_text(&mut lines, "└── evidence: socket inode matched from /proc/<pid>/fd".to_owned());
    push_text(&mut lines, "".to_owned());
    push_text(&mut lines, reasons_line(enriched.len() as u128));
    append_incomplete_note(&mut lines, stats);
    assert(text::views(lines@) =~= port_synthesis(port, holders, *stats));
    join_texts(&lines, "\n")
}

/// The explanation of a port for which no holder is visible.
pub fn format_no_visible_port_reason(port: u16) -> (r: String)
    ensures
        r@ == text::join(no_visible_lines(port), "\n"@),
{
    let mut lines = no_texts();
    let shown = decimal_text(port as u64);
    push_text(&mut lines, cat2(":", shown.as_str()));
    push_text(&mut lines, "├── reason: no visible holder found".to_owned());
    push_text(&mut lines, "└── evidence: process details may be incomplete".to_owned());
    push_text(&mut lines, "".to_owned());
    push_text(
        &mut lines,
        "note: some processes were not readable; try sudo for complete explanation".to_owned(),
    );
    assert(text::views(lines@) =~= no_visible_lines(port));
    join_texts(&lines, "\n")
}

/// Why a port is open, from a scan for its holders and the files of their processes.
pub fn explain_port(
    port: u16,
    scan: Result<(Vec<Holder>, ScanStats), HoldsError>,
    files: &Vec<HolderFiles>,
) -> (r: Result<String, WhyError>)
    ensures
        match scan {
            Ok((holders, stats)) => r matches Ok(answer) && answer@ == port_answer(
                port,
                holders@,
                stats,
                files@,
            ),
            Err(error) => r matches Err(e) && e.0@ == error.0@,
        },
{
    let (holders, stats) = match scan {
        Ok((holders, stats)) => (holders, stats),
        Err(error) => return Err(WhyError(error.0)),
    };
    if holders.len() == 0 {
        if stats.has_unreadable() {
            return Ok(format_no_visible_port_reason(port));
        }
        let shown = decimal_text(port as u64);
        return Ok(cat3("No reason found for port ", shown.as_str(), "."));
    }
    let enriched = enrich(holders, files);
    Ok(format_port_synthesis(port, &enriched, &stats))
}

// ---------------------------------------------------------------------------
// Paths
// ---------------------------------------------------------------------------

/// A descriptor is among the evidence.
pub open spec fn shows_fd(holder: Holder) -> bool {
    exists|i: int| 0 <= i < holder.evidence@.len() && #[trigger] holder.evidence@[i] is Fd
}

/// A mapping is among the evidence.
pub open spec fn shows_mmap(holder: Holder) -> bool {
    exists|i: int| 0 <= i < holder.evidence@.len() && #[trigger] holder.evidence@[i] is Mmap
}

/// Some holder has a descriptor.
pub open spec fn any_fd(holders: Seq<Holder>) -> bool {
    exists|i: int| 0 <= i < holders.len() && shows_fd(#[trigger] holders[i])
}

/// Some holder has a mapping.
pub open spec fn any_mmap(holders: Seq<Holder>) -> bool {
    exists|i: int| 0 <= i < holders.len() && shows_mmap(#[trigger] holders[i])
}

/// Where the evidence on a path comes from.
pub open spec fn evidence_words(fd: bool, mmap: bool) -> Seq<char> {
    if fd && mmap {
        "/proc/<pid>/fd link or maps entry matched this path"@
    } else if fd {
        "/proc/<pid>/fd link matched this path"@
    } else if mmap {
        "/proc/<pid>/maps entry matched this path"@
    } else {
        "procfs matched this path"@
    }
}

/// Where the evidence of the holders comes from.
pub open spec fn path_evidence(holders: Seq<Holder>) -> Seq<char> {
    evidence_words(any_fd(holders), any_mmap(holders))
}

/// The holders alone.
pub open spec fn bare(holders: Seq<Told>) -> Seq<Holder> {
    holders.map_values(|t: Told| t.holder)
}

/// What is on record about who changed a path.
pub open spec fn actor_words(info: TouchInfo) -> Seq<char> {
    if info.has_actor() {
        "last modified by "@ + info.actor@
    } else {
        "modification time on record"@
    }
}

/// Who holds a path.
pub open spec fn holding_words(holders: Seq<Told>) -> Seq<char> {
    if names(holders).len() == 1 {
        "currently held by "@ + holders[0].holder.name@ + " (pid="@ + number::decimal(
            holders[0].holder.pid as int,
        ) + ")"@
    } else {
        number::decimal(holders.len() as int) + " processes ("@ + text::join(
            names(holders),
            ", "@,
        ) + ") hold this path"@
    }
}

/// One sentence on why a path is in use.
pub open spec fn path_explanation(holders: Seq<Told>, touch: Option<TouchInfo>) -> Seq<char> {
    if holders.len() > 0 {
        match touch {
            Some(info) => holding_words(holders) + ", "@ + actor_words(info),
            None => holding_words(holders),
        }
    } else {
        match touch {
            Some(info) => if info.has_actor() {
                "last modified by "@ + info.actor@ + " ("@ + info.source.words() + ")"@
            } else {
                "path exists with filesystem metadata only"@
            },
            None => "no evidence found"@,
        }
    }
}

/// The lines on one holder of a path.
pub open spec fn path_holder_lines(t: Told) -> Seq<Seq<char>> {
    seq!["│   ├── "@ + holder_words(t.holder) + unit_words(t.unit)]
        + t.holder.evidence@.map_values(|e: Evidence| "│   │   ├── "@ + e.words())
}

/// The lines on the first `n` holders of a path.
pub open spec fn path_details(holders: Seq<Told>, n: int) -> Seq<Seq<char>>
    decreases n,
{
    if n <= 0 {
        Seq::empty()
    } else {
        path_details(holders, n - 1) + path_holder_lines(holders[n - 1])
    }
}

/// The lines on the holders of a path.
pub open spec fn holders_section(holders: Seq<Told>) -> Seq<Seq<char>> {
    if holders.len() > 0 {
        seq!["├── holders ("@ + number::decimal(holders.len() as int) + "):"@] + path_details(
            holders,
            holders.len() as int,
        )
    } else {
        Seq::empty()
    }
}

/// The lines on what the filesystem says.
pub open spec fn metadata_lines(info: TouchInfo) -> Seq<Seq<char>> {
    match info.meta {
        Some(meta) => seq![
            "├── metadata:"@,
            "│   ├── type: "@ + meta.file_type@,
            "│   ├── size: "@ + number::decimal(meta.size as int) + " bytes"@,
            "│   ├── perms: "@ + meta.perms_octal@,
            "│   ├── modified: "@ + meta.modified.shown(),
            "│   └── changed:  "@ + meta.changed.shown(),
        ],
        None => seq!["├── metadata:"@, "│   └── modified: "@ + info.modified.shown()],
    }
}

/// The lines on who changed a path, where more than the metadata tells.
pub open spec fn actor_lines(info: TouchInfo) -> Seq<Seq<char>> {
    if info.source == EvidenceSource::Metadata {
        Seq::empty()
    } else {
        let actor = seq!["├── actor: "@ + info.actor@ + " ("@ + info.source.words() + ")"@];
        match info.process {
            Some(process) => actor.push("│   └── process: "@ + process.words()),
            None => actor,
        }
    }
}

/// The lines on the last change of a path.
pub open spec fn touch_section(touch: Option<TouchInfo>) -> Seq<Seq<char>> {
    match touch {
        Some(info) => metadata_lines(info) + actor_lines(info),
        None => Seq::empty(),
    }
}

/// How many reasons there are for a path: one for each holder, and one for its record.
pub open spec fn reason_count(holders: int, touch: Option<TouchInfo>) -> int {
    holders + (if touch is Some {
        1int
    } else {
        0
    })
}

/// The lines that explain a path, up to the evidence.
pub open spec fn path_body(
    path: Seq<char>,
    holders: Seq<Told>,
    touch: Option<TouchInfo>,
) -> Seq<Seq<char>> {
    let evidence = if holders.len() == 0 {
        "filesystem metadata"@
    } else {
        path_evidence(bare(holders))
    };
    (seq![path, "├── reason: "@ + path_explanation(holders, touch)] + holders_section(holders)
        + touch_section(touch)).push("└── evidence: "@ + evidence)
}

/// The lines that explain a path.
pub open spec fn path_synthesis(
    path: Seq<char>,
    holders: Seq<Told>,
    touch: Option<TouchInfo>,
    stats: ScanStats,
) -> Seq<Seq<char>> {
    with_count(
        path_body(path, holders, touch),
        reason_count(holders.len() as int, touch),
        stats,
    )
}

fn evidence_text(fd: bool, mmap: bool) -> (r: &'static str)
    ensures
        r@ == evidence_words(fd, mmap),
{
    match (fd, mmap) {
        (true, true) => "/proc/<pid>/fd link or maps entry matched this path",
        (true, false) => "/proc/<pid>/fd link matched this path",
        (false, true) => "/proc/<pid>/maps entry matched this path",
        (false, false) => "procfs matched this path",
    }
}

fn evidence_kinds(holder: &Holder) -> (r: (bool, bool))
    ensures
        r.0 == shows_fd(*holder),
        r.1 == shows_mmap(*holder),
{
    let mut fd: bool = false;
    let mut mmap: bool = false;
    let mut i: usize = 0;
    while i < holder.evidence.len()
        invariant
            i <= holder.evidence@.len(),
            fd == exists|k: int| 0 <= k < i && #[trigger] holder.evidence@[k] is Fd,
            mmap == exists|k: int| 0 <= k < i && #[trigger] holder.evidence@[k] is Mmap,
        decreases holder.evidence@.len() - i,
    {
        let item = holder.evidence[i];
        assert(holder.evidence@[i as int] == item);
        match item {
            Evidence::Fd(_, _) => {
                fd = true;
            },
            Evidence::Mmap(_) => {
                mmap = true;
            },
        }
        i += 1;
    }
    (fd, mmap)
}

/// Where the evidence of the holders of a path comes from.
pub fn summarize_path_evidence(holders: &Vec<Holder>) -> (r: &'static str)
    ensures
        r@ == path_evidence(holders@),
{
    let mut fd: bool = false;
    let mut mmap: bool = false;
    let mut i: usize = 0;
    while i < holders.len()
        invariant
            i <= holders@.len(),
            fd == exists|k: int| 0 <= k < i && shows_fd(#[trigger] holders@[k]),
            mmap == exists|k: int| 0 <= k < i && shows_mmap(#[trigger] holders@[k]),
        decreases holders@.len() - i,
    {
        let (one_fd, one_mmap) = evidence_kinds(&holders[i]);
        assert(one_fd == shows_fd(holders@[i as int]));
        fd = fd || one_fd;
        mmap = mmap || one_mmap;
        i += 1;
    }
    evidence_text(fd, mmap)
}

fn summarize_enriched_evidence(enriched: &Vec<EnrichedHolder>) -> (r: &'static str)
    ensures
        r@ == path_evidence(bare(told(enriched@))),
{
    let ghost holders = bare(told(enriched@));
    let mut fd: bool = false;
    let mut mmap: bool = false;
    let mut i: usize = 0;
    while i < enriched.len()
        invariant
            i <= enriched@.len(),
            holders == bare(told(enriched@)),
            fd == exists|k: int| 0 <= k < i && shows_fd(#[trigger] holders[k]),
            mmap == exists|k: int| 0 <= k < i && shows_mmap(#[trigger] holders[k]),
        decreases enriched@.len() - i,
    {
        let (one_fd, one_mmap) = evidence_kinds(&enriched[i].holder);
        assert(holders[i as int] == enriched@[i as int].holder);
        fd = fd || one_fd;
        mmap = mmap || one_mmap;
        i += 1;
    }
    evidence_text(fd, mmap)
}

fn actor_text(info: &TouchInfo) -> (r: String)
    ensures
        r@ == actor_words(*info),
{
    if text_eq(info.actor.as_str(), "unknown") {
        "modification time on record".to_owned()
    } else {
        cat2("last modified by ", info.actor.as_str())
    }
}

fn holding_text(enriched: &Vec<EnrichedHolder>) -> (r: String)
    requires
        enriched@.len() > 0,
    ensures
        r@ == holding_words(told(enriched@)),
{
    let unique = unique_names(enriched);
    assert(text::views(unique@).len() == unique@.len());
    if unique.len() == 1 {
        let first = &enriched[0].holder;
        assert(told(enriched@)[0].holder == first);
        let pid = decimal_text(first.pid as u64);
        cat5("currently held by ", first.name.as_str(), " (pid=", pid.as_str(), ")")
    } else {
        let count = decimal_text(enriched.len() as u64);
        let list = join_texts(&unique, ", ");
        cat4(count.as_str(), " processes (", list.as_str(), ") hold this path")
    }
}

/// One sentence on why a path is in use.
pub fn synthesize_path_explanation(
    enriched: &Vec<EnrichedHolder>,
    touch_info: &Option<TouchInfo>,
) -> (r: String)
    ensures
        r@ == path_explanation(told(enriched@), *touch_info),
{
    if enriched.len() > 0 {
        let holding = holding_text(enriched);
        match touch_info {
            Some(info) => {
                let actor = actor_text(info);
                cat3(holding.as_str(), ", ", actor.as_str())
            },
            None => holding,
        }
    } else {
        match touch_info {
            Some(info) => if text_eq(info.actor.as_str(), "unknown") {
                "path exists with filesystem metadata only".to_owned()
            } else {
                cat5("last modified by ", info.actor.as_str(), " (", info.source.label(), ")")
            },
            None => "no evidence found".to_owned(),
        }
    }
}

fn append_path_holder(lines: &mut Vec<String>, entry: &EnrichedHolder)
    ensures
        text::views(final(lines)@) == text::views(old(lines)@) + path_holder_lines(entry@),
{
    let ghost first = text::views(lines@);
    let words = holder_text(&entry.holder);
    let unit = unit_text(&entry.systemd_unit);
    push_text(lines, cat3("│   ├── ", words.as_str(), unit.as_str()));
    let ghost head = text::views(lines@);
    let ghost rows = entry.holder.evidence@.map_values(
        |e: Evidence| "│   │   ├── "@ + e.words(),
    );
    let mut i: usize = 0;
    assert(head + rows.take(0) =~= head);
    while i < entry.holder.evidence.len()
        invariant
            i <= entry.holder.evidence@.len(),
            rows == entry.holder.evidence@.map_values(
                |e: Evidence| "│   │   ├── "@ + e.words(),
            ),
            text::views(lines@) == head + rows.take(i as int),
        decreases entry.holder.evidence@.len() - i,
    {
        let label = entry.holder.evidence[i].label();
        push_text(lines, cat2("│   │   ├── ", label.as_str()));
        assert((head + rows.take(i as int)).push(rows[i as int]) =~= head + rows.take(i + 1));
        i += 1;
    }
    proof {
        assert(rows.take(i as int) =~= rows);
        assert(text::views(lines@) =~= first + path_holder_lines(entry@));
    }
}

fn append_holders_section(lines: &mut Vec<String>, enriched: &Vec<EnrichedHolder>)
    ensures
        text::views(final(lines)@) == text::views(old(lines)@) + holders_section(told(enriched@)),
{
    let ghost first = text::views(lines@);
    let ghost holders = told(enriched@);
    if enriched.len() > 0 {
        let count = decimal_text(enriched.len() as u64);
        push_text(lines, cat3("├── holders (", count.as_str(), "):"));
        let ghost head = text::views(lines@);
        let mut i: usize = 0;
        assert(head + path_details(holders, 0) =~= head);
        while i < enriched.len()
            invariant
                i <= enriched@.len(),
                holders == told(enriched@),
                text::views(lines@) == head + path_details(holders, i as int),
            decreases enriched@.len() - i,
        {
            append_path_holder(lines, &enriched[i]);
            proof {
                assert(holders[i as int] == enriched@[i as int]@);
                assert(text::views(lines@) =~= head + path_details(holders, i + 1));
            }
            i += 1;
        }
    }
    assert(text::views(lines@) =~= first + holders_section(holders));
}

fn append_touch_section(lines: &mut Vec<String>, info: &TouchInfo)
    requires
        info.is_valid(),
    ensures
        text::views(final(lines)@) == text::views(old(lines)@) + (metadata_lines(*info)
            + actor_lines(*info)),
{
    let ghost first = text::views(lines@);
    push_text(lines, "├── metadata:".to_owned());
    match &info.meta {
        Some(meta) => {
            push_text(lines, cat2("│   ├── type: ", meta.file_type.as_str()));
            let size = decimal_text(meta.size);
            push_text(lines, cat3("│   ├── size: ", size.as_str(), " bytes"));
            push_text(lines, cat2("│   ├── perms: ", meta.perms_octal.as_str()));
            let modified = format_system_time(meta.modified);
            push_text(lines, cat2("│   ├── modified: ", modified.as_str()));
            let changed = format_system_time(meta.changed);
            push_text(lines, cat2("│   └── changed:  ", changed.as_str()));
        },
        None => {
            let modified = format_system_time(info.modified);
            push_text(lines, cat2("│   └── modified: ", modified.as_str()));
        },
    }
    assert(text::views(lines@) =~= first + metadata_lines(*info));
    if info.source != EvidenceSource::Metadata {
        push_text(
            lines,
            cat5("├── actor: ", info.actor.as_str(), " (", info.source.label(), ")"),
        );
        if let Some(process) = &info.process {
            let label = process.label();
            push_text(lines, cat2("│   └── process: ", label.as_str()));
        }
    }
    assert(text::views(lines@) =~= first + (metadata_lines(*info) + actor_lines(*info)));
}

/// The explanation of a path, from its holders and the record of its last change.
pub fn format_path_synthesis(
    path: &str,
    enriched: &Vec<EnrichedHolder>,
    touch_info: &Option<TouchInfo>,
    stats: &ScanStats,
) -> (r: String)
    requires
        touch_info matches Some(info) ==> info.is_valid(),
    ensures
        r@ == text::join(path_synthesis(path@, told(enriched@), *touch_info, *stats), "\n"@),
{
    let ghost holders = told(enriched@);
    let mut lines = no_texts();
    push_text(&mut lines, path.to_owned());
    let synthesis = synthesize_path_explanation(enriched, touch_info);
    push_text(&mut lines, cat2("├── reason: ", synthesis.as_str()));
    append_holders_section(&mut lines, enriched);
    let mut count: u128 = enriched.len() as u128;
    if let Some(info) = touch_info {
        append_touch_section(&mut lines, info);
        count = count + 1;
    }
    let evidence: &str = if enriched.len() == 0 {
        "filesystem metadata"
    } else {
        summarize_enriched_evidence(enriched)
    };
    push_text(&mut lines, cat2("└── evidence: ", evidence));
    push_text(&mut lines, "".to_owned());
    push_text(&mut lines, reasons_line(count));
    append_incomplete_note(&mut lines, stats);
    assert(text::views(lines@) =~= path_synthesis(path@, holders, *touch_info, *stats));
    join_texts(&lines, "\n")
}

/// What is said about a path that cannot be examined, where `shown` is the path as shown.
pub open spec fn missing(shown: Seq<char>, error: IoFailure) -> Seq<char> {
    if error.kind == FailureKind::NotFound {
        "path not found: "@ + shown
    } else {
        shown + ": "@ + error.message@
    }
}

/// The explanation of a path that exists.
pub open spec fn path_answer(
    shown: Seq<char>,
    holders: Seq<Holder>,
    stats: ScanStats,
    touch: Option<TouchInfo>,
    files: Seq<HolderFiles>,
) -> Seq<char> {
    if holders.len() == 0 && touch is None {
        "No reason found for '"@ + shown + "'."@
    } else {
        text::join(path_synthesis(shown, told_holders(holders, files), touch, stats), "\n"@)
    }
}

/// The answer on a path: first it must exist, then the scan for its holders must succeed.
pub open spec fn is_path_answer(
    r: Result<String, WhyError>,
    shown: Seq<char>,
    examined: Result<(), IoFailure>,
    scan: Result<(Vec<Holder>, ScanStats), HoldsError>,
    touch: Option<TouchInfo>,
    files: Seq<HolderFiles>,
) -> bool {
    match examined {
        Err(error) => r matches Err(e) && e.0@ == missing(shown, error),
        Ok(_) => match scan {
            Err(error) => r matches Err(e) && e.0@ == error.0@,
            Ok((holders, stats)) => r matches Ok(answer) && answer@ == path_answer(
                shown,
                holders@,
                stats,
                touch,
                files,
            ),
        },
    }
}

/// Says what is wrong with a path that cannot be examined.
pub fn validate_path(shown: &str, examined: &Result<(), IoFailure>) -> (r: Result<(), WhyError>)
    ensures
        match examined {
            Ok(_) => r is Ok,
            Err(error) => r matches Err(e) && e.0@ == missing(shown@, *error),
        },
{
    match examined {
        Ok(_) => Ok(()),
        Err(error) => match error.kind {
            FailureKind::NotFound => Err(WhyError(cat2("path not found: ", shown))),
            _ => Err(WhyError(cat3(shown, ": ", error.message.as_str()))),
        },
    }
}

/// Why a path is in use, where `shown` is the path as shown.
pub fn explain_shown_path(
    shown: &str,
    examined: &Result<(), IoFailure>,
    scan: Result<(Vec<Holder>, ScanStats), HoldsError>,
    touch_info: &Option<TouchInfo>,
    files: &Vec<HolderFiles>,
) -> (r: Result<String, WhyError>)
    requires
        touch_info matches Some(info) ==> info.is_valid(),
    ensures
        is_path_answer(r, shown@, *examined, scan, *touch_info, files@),
{
    if let Err(error) = validate_path(shown, examined) {
        return Err(error);
    }
    let (holders, stats) = match scan {
        Ok((holders, stats)) => (holders, stats),
        Err(error) => return Err(WhyError(error.0)),
    };
    if holders.len() == 0 && touch_info.is_none() {
        return Ok(cat3("No reason found for '", shown, "'."));
    }
    let enriched = enrich(holders, files);
    Ok(format_path_synthesis(shown, &enriched, touch_info, &stats))
}

/// Why a path is in use, from whether it exists, a scan for its holders, the record of its
/// last change, and the files of the processes.
pub fn explain_path(
    path: &FilePath,
    examined: &Result<(), IoFailure>,
    scan: Result<(Vec<Holder>, ScanStats), HoldsError>,
    touch_info: &Option<TouchInfo>,
    files: &Vec<HolderFiles>,
) -> (r: Result<String, WhyError>)
    requires
        touch_info matches Some(info) ==> info.is_valid(),
    ensures
        is_path_answer(r, crate::bytes::lossy(path@), *examined, scan, *touch_info, files@),
{
    let shown = path.display();
    explain_shown_path(shown.as_str(), examined, scan, touch_info, files)
}

// ---------------------------------------------------------------------------
// Plain reasons
// ---------------------------------------------------------------------------

/// The rows of evidence below a holder.
pub open spec fn evidence_rows(evidence: Seq<Evidence>) -> Seq<Seq<char>> {
    Seq::new(
        evidence.len(),
        |i: int|
            "│   "@ + report::branch(i + 1 == evidence.len()) + " "@ + evidence[i].words(),
    )
}

/// The lines on a holder: with its working directory, or with its evidence.
pub open spec fn summary_of(holder: Holder, show_cwd: bool) -> Seq<Seq<char>> {
    let head = seq!["├── holder: "@ + holder_words(holder)];
    if show_cwd {
        match process::opt_view(holder.cwd) {
            Some(cwd) => head.push("│   └── cwd "@ + cwd),
            None => head,
        }
    } else {
        head + evidence_rows(holder.evidence@)
    }
}

/// The lines on the first `n` holders.
pub open spec fn summaries(holders: Seq<Holder>, show_cwd: bool, n: int) -> Seq<Seq<char>>
    decreases n,
{
    if n <= 0 {
        Seq::empty()
    } else {
        summaries(holders, show_cwd, n - 1) + summary_of(holders[n - 1], show_cwd)
    }
}

/// The lines of a plain reason: a heading, the reason, the holders and the evidence.
pub open spec fn reason_lines(
    heading: Seq<char>,
    reason: Seq<char>,
    holders: Seq<Holder>,
    show_cwd: bool,
    evidence: Seq<char>,
    stats: ScanStats,
) -> Seq<Seq<char>> {
    (seq![heading, "├── reason: "@ + reason] + summaries(
        holders,
        show_cwd,
        holders.len() as int,
    )).push("└── evidence: "@ + evidence).push(""@).push(reasons(holders.len() as int))
        + incomplete_note(stats)
}

/// The lines of the plain reason for a port.
pub open spec fn port_reason(port: u16, holders: Seq<Holder>, stats: ScanStats) -> Seq<
    Seq<char>,
> {
    reason_lines(
        ":"@ + number::decimal(port as int),
        "port is open because a process owns this socket"@,
        holders,
        true,
        "socket inode matched from /proc"@,
        stats,
    )
}

/// The lines of the plain reason for a path.
pub open spec fn path_reason(path: Seq<char>, holders: Seq<Holder>, stats: ScanStats) -> Seq<
    Seq<char>,
> {
    reason_lines(
        path,
        "path is open because a process references it"@,
        holders,
        false,
        path_evidence(holders),
        stats,
    )
}

/// The lines on what is on record about the last change of a path.
pub open spec fn touch_reason(info: TouchInfo) -> Seq<Seq<char>> {
    let plain = info.source == EvidenceSource::Metadata;
    let reason = if plain {
        "path exists and has modification evidence"@
    } else {
        "path has recent modification evidence"@
    };
    let head = seq![
        info.path@,
        "├── reason: "@ + reason,
        "├── modified: "@ + info.modified.shown(),
        "├── source: "@ + info.source.words(),
    ];
    let actor = match info.process {
        Some(process) => head.push("├── actor: "@ + info.actor@).push(
            "└── process: "@ + process.words(),
        ),
        None => head.push("└── actor: "@ + info.actor@),
    };
    actor.push(""@).push(
        if plain {
            "note: filesystem metadata shows when the path changed, not who changed it"@
        } else {
            "note: actor inference is best-effort and depends on available logs"@
        },
    )
}

fn append_holder_summary(lines: &mut Vec<String>, holder: &Holder, show_cwd: bool)
    ensures
        text::views(final(lines)@) == text::views(old(lines)@) + summary_of(*holder, show_cwd),
{
    let ghost first = text::views(lines@);
    let words = holder_text(holder);
    push_text(lines, cat2("├── holder: ", words.as_str()));
    if show_cwd {
        if let Some(cwd) = &holder.cwd {
            push_text(lines, cat2("│   └── cwd ", cwd.as_str()));
        }
    } else {
        let ghost head = text::views(lines@);
        let ghost rows = evidence_rows(holder.evidence@);
        let mut i: usize = 0;
        assert(head + rows.take(0) =~= head);
        while i < holder.evidence.len()
            invariant
                i <= holder.evidence@.len(),
                rows == evidence_rows(holder.evidence@),
                text::views(lines@) == head + rows.take(i as int),
            decreases holder.evidence@.len() - i,
        {
            let branch: &str = if i + 1 == holder.evidence.len() {
                "└──"
            } else {
                "├──"
            };
            let label = holder.evidence[i].label();
            push_text(lines, cat4("│   ", branch, " ", label.as_str()));
            assert((head + rows.take(i as int)).push(rows[i as int]) =~= head + rows.take(i + 1));
            i += 1;
        }
        assert(rows.take(i as int) =~= rows);
    }
    assert(text::views(lines@) =~= first + summary_of(*holder, show_cwd));
}

/// Appends the lines on the holders.
pub fn append_holder_summaries(lines: &mut Vec<String>, holders: &Vec<Holder>, show_cwd: bool)
    ensures
        text::views(final(lines)@) == text::views(old(lines)@) + summaries(
            holders@,
            show_cwd,
            holders@.len() as int,
        ),
{
    let ghost first = text::views(lines@);
    let mut i: usize = 0;
    assert(first + summaries(holders@, show_cwd, 0) =~= first);
    while i < holders.len()
        invariant
            i <= holders@.len(),
            text::views(lines@) == first + summaries(holders@, show_cwd, i as int),
        decreases holders@.len() - i,
    {
        append_holder_summary(lines, &holders[i], show_cwd);
        assert(text::views(lines@) =~= first + summaries(holders@, show_cwd, i + 1));
        i += 1;
    }
}

fn format_holder_reason(
    heading: String,
    reason: &str,
    holders: &Vec<Holder>,
    show_cwd: bool,
    evidence: &str,
    stats: &ScanStats,
) -> (r: String)
    ensures
        r@ == text::join(
            reason_lines(heading@, reason@, holders@, show_cwd, evidence@, *stats),
            "\n"@,
        ),
{
    let mut lines = no_texts();
    push_text(&mut lines, heading);
    push_text(&mut lines, cat2("├── reason: ", reason));
    append_holder_summaries(&mut lines, holders, show_cwd);
    push_text(&mut lines, cat2("└── evidence: ", evidence));
    push_text(&mut lines, "".to_owned());
    push_text(&mut lines, reasons_line(holders.len() as u128));
    append_incomplete_note(&mut lines, stats);
    assert(text::views(lines@) =~= reason_lines(
        heading@,
        reason@,
        holders@,
        show_cwd,
        evidence@,
        *stats,
    ));
    join_texts(&lines, "\n")
}

/// The plain reason for a port that is held.
pub fn format_port_holder_reason(port: u16, holders: &Vec<Holder>, stats: &ScanStats) -> (r:
    String)
    ensures
        r@ == text::join(port_reason(port, holders@, *stats), "\n"@),
{
    let shown = decimal_text(port as u64);
    format_holder_reason(
        cat2(":", shown.as_str()),
        "port is open because a process owns this socket",
        holders,
        true,
        "socket inode matched from /proc",
        stats,
    )
}

/// The plain reason for a path that is held.
pub fn format_path_holder_reason(path: &str, holders: &Vec<Holder>, stats: &ScanStats) -> (r:
    String)
    ensures
        r@ == text::join(path_reason(path@, holders@, *stats), "\n"@),
{
    format_holder_reason(
        path.to_owned(),
        "path is open because a process references it",
        holders,
        false,
        summarize_path_evidence(holders),
        stats,
    )
}

/// What is on record about the last change of a path.
pub fn format_path_touch_reason(info: &TouchInfo) -> (r: String)
    requires
        info.modified.is_valid(),
    ensures
        r@ == text::join(touch_reason(*info), "\n"@),
{
    let plain: bool = info.source == EvidenceSource::Metadata;
    let mut lines = no_texts();
    push_text(&mut lines, info.path.clone());
    let reason: &str = if plain {
        "path exists and has modification evidence"
    } else {
        "path has recent modification evidence"
    };
    push_text(&mut lines, cat2("├── reason: ", reason));
    let modified = format_system_time(info.modified);
    push_text(&mut lines, cat2("├── modified: ", modified.as_str()));
    push_text(&mut lines, cat2("├── source: ", info.source.label()));
    match &info.process {
        Some(process) => {
            push_text(&mut lines, cat2("├── actor: ", info.actor.as_str()));
            let label = process.label();
            push_text(&mut lines, cat2("└── process: ", label.as_str()));
        },
        None => push_text(&mut lines, cat2("└── actor: ", info.actor.as_str())),
    }
    push_text(&mut lines, "".to_owned());
    let note: &str = if plain {
        "note: filesystem metadata shows when the path changed, not who changed it"
    } else {
        "note: actor inference is best-effort and depends on available logs"
    };
    push_text(&mut lines, note.to_owned());
    assert(text::views(lines@) =~= touch_reason(*info));
    join_texts(&lines, "\n")
}

// ---------------------------------------------------------------------------
// How every explanation ends
// ---------------------------------------------------------------------------

/// Joined lines with one more line behind them.
proof fn lemma_join_push(lines: Seq<Seq<char>>, line: Seq<char>, sep: Seq<char>)
    requires
        lines.len() > 0,
    ensures
        text::join(lines.push(line), sep) == text::join(lines, sep) + sep + line,
{
    assert(lines.push(line).drop_last() =~= lines);
    assert(lines.push(line).last() == line);
}

/// An empty line and the note, as one text.
proof fn lemma_note_text()
    ensures
        "\n"@ + ""@ + "\n"@
            + "note: some processes were not readable; try sudo for complete explanation"@
            == "\n\nnote: some processes were not readable; try sudo for complete explanation"@,
{
    reveal_strlit("");
    reveal_strlit("\n");
    reveal_strlit("note: some processes were not readable; try sudo for complete explanation");
    reveal_strlit(
        "\n\nnote: some processes were not readable; try sudo for complete explanation",
    );
    assert("\n"@ + ""@ + "\n"@
        + "note: some processes were not readable; try sudo for complete explanation"@
        =~= "\n\nnote: some processes were not readable; try sudo for complete explanation"@);
}

/// The text of an explanation is that of its body, an empty line, the count of the reasons,
/// and the note where something could not be looked at.
pub proof fn lemma_explanation_ends(body: Seq<Seq<char>>, count: int, stats: ScanStats)
    requires
        body.len() > 0,
    ensures
        text::join(with_count(body, count, stats), "\n"@) == text::join(body, "\n"@) + "\n\n"@
            + reasons(count) + note_text(stats),
{
    let sep = "\n"@;
    let note = "note: some processes were not readable; try sudo for complete explanation"@;
    let gap = body.push(""@);
    let counted = gap.push(reasons(count));
    lemma_join_push(body, ""@, sep);
    lemma_join_push(gap, reasons(count), sep);
    reveal_strlit("");
    reveal_strlit("\n");
    reveal_strlit("\n\n");
    assert(text::join(counted, sep) =~= text::join(body, sep) + "\n\n"@ + reasons(count));
    if stats.missed_something() {
        lemma_join_push(counted, ""@, sep);
        lemma_join_push(counted.push(""@), note, sep);
        assert(with_count(body, count, stats) =~= counted.push(""@).push(note));
        lemma_note_text();
        assert(text::join(counted, sep) + sep + ""@ + sep + note =~= text::join(counted, sep) + (
        sep + ""@ + sep + note));
    } else {
        assert(with_count(body, count, stats) =~= counted);
        assert(text::join(counted, sep) + ""@ =~= text::join(counted, sep));
    }
}

/// The explanation of a path ends in an empty line and the count of its reasons; reads that
/// were missed add the note to it and change nothing else.
pub proof fn lemma_path_explanation_ends(
    path: Seq<char>,
    holders: Seq<Told>,
    touch: Option<TouchInfo>,
    stats: ScanStats,
)
    ensures
        text::join(path_synthesis(path, holders, touch, ScanStats::nothing_missed()), "\n"@)
            == text::join(path_body(path, holders, touch), "\n"@) + "\n\n"@ + reasons(
            reason_count(holders.len() as int, touch),
        ),
        text::join(path_synthesis(path, holders, touch, stats), "\n"@) == text::join(
            path_synthesis(path, holders, touch, ScanStats::nothing_missed()),
            "\n"@,
        ) + note_text(stats),
{
    let body = path_body(path, holders, touch);
    let count = reason_count(holders.len() as int, touch);
    lemma_explanation_ends(body, count, stats);
    lemma_explanation_ends(body, count, ScanStats::nothing_missed());
    lemma_nothing_added(text::join(body, "\n"@) + "\n\n"@ + reasons(count));
}

/// The explanation of a port that is held ends in an empty line and the count of its
/// reasons; reads that were missed add the note to it and change nothing else.
pub proof fn lemma_port_explanation_ends(port: u16, holders: Seq<Told>, stats: ScanStats)
    ensures
        text::join(port_synthesis(port, holders, ScanStats::nothing_missed()), "\n"@)
            == text::join(port_body(port, holders), "\n"@) + "\n\n"@ + reasons(
            holders.len() as int,
        ),
        text::join(port_synthesis(port, holders, stats), "\n"@) == text::join(
            port_synthesis(port, holders, ScanStats::nothing_missed()),
            "\n"@,
        ) + note_text(stats),
{
    let body = port_body(port, holders);
    let count = holders.len() as int;
    lemma_explanation_ends(body, count, stats);
    lemma_explanation_ends(body, count, ScanStats::nothing_missed());
    lemma_nothing_added(text::join(body, "\n"@) + "\n\n"@ + reasons(count));
}

/// The note of a scan that missed nothing adds nothing.
proof fn lemma_nothing_added(s: Seq<char>)
    ensures
        s + note_text(ScanStats::nothing_missed()) == s,
{
    reveal_strlit("");
    assert(s + ""@ =~= s);
}

} // verus!
