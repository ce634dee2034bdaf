//! The reports on a command and on the search path.

use crate::bytes;
use crate::clock::{format_system_time, Timestamp};
use crate::filepath;
use crate::filepath::FilePath;
use crate::number;
use crate::number::{decimal_text, octal4_text};
use crate::path;
use crate::path::packages::{package_owner_multi, PackageReplies};
use crate::path::{split_paths, PathMatch};
use crate::process;
use crate::process::lookup_username;
use crate::text;
use crate::text::{cat2, cat3, cat4, join_texts, no_texts, push_text};
use vstd::prelude::*;

verus! {

// ---------------------------------------------------------------------------
// What is known of a file
// ---------------------------------------------------------------------------

/// What the file system says about a file.
#[derive(Debug)]
pub struct FileFacts {
    pub size: u64,
    pub mode: u32,
    pub uid: u32,
    /// When the file was modified, where that is known.
    pub modified: Option<Timestamp>,
}

/// The metadata of a file, as shown.
#[derive(Debug, PartialEq, Eq)]
pub struct FileMeta {
    pub size: u64,
    pub owner: String,
    pub perms: String,
    pub mtime: String,
}

/// What is known of the file at a path.
#[derive(Debug)]
pub struct PathFacts {
    pub path: FilePath,
    pub packages: PackageReplies,
    pub file: Option<FileFacts>,
}

impl PathFacts {
    /// The time of modification has a date.
    pub open spec fn is_valid(self) -> bool {
        self.file matches Some(file) ==> file.modified matches Some(time) ==> time.is_valid()
    }
}

/// The metadata is what the file system says.
pub open spec fn is_meta(meta: FileMeta, facts: FileFacts, passwd: Option<Seq<char>>) -> bool {
    &&& facts.modified matches Some(time)
    &&& meta.size == facts.size
    &&& meta.owner@ == process::username(passwd, facts.uid as int)
    &&& meta.perms@ == number::octal4(facts.mode as int % 4096)
    &&& meta.mtime@ == time.shown()
}

/// The metadata of a file, if it could be examined and its time of modification is known.
pub fn file_metadata(facts: &Option<FileFacts>, passwd: &Option<String>) -> (r: Option<FileMeta>)
    requires
        facts matches Some(file) ==> file.modified matches Some(time) ==> time.is_valid(),
    ensures
        match r {
            Some(meta) => *facts matches Some(file) && is_meta(
                meta,
                file,
                process::opt_view(*passwd),
            ),
            None => facts matches Some(file) ==> file.modified is None,
        },
{
    let file = match facts {
        Some(file) => file,
        None => return None,
    };
    let modified: Timestamp = match file.modified {
        Some(time) => time,
        None => return None,
    };
    let mode: u32 = file.mode;
    assert(mode & 0o7777 == mode % 4096) by (bit_vector);
    let perms = octal4_text(mode & 0o7777);
    let owner = lookup_username(passwd, file.uid);
    let mtime = format_system_time(modified);
    Some(FileMeta { size: file.size, owner, perms, mtime })
}

// ---------------------------------------------------------------------------
// The report on a command
// ---------------------------------------------------------------------------

/// How many links of a chain are shown.
pub const MAX_DISPLAYED_SYMLINKS: usize = 3;

/// The first `n` links of a chain, each behind an arrow.
pub open spec fn arrows(chain: Seq<Seq<u8>>, n: int) -> Seq<char>
    decreases n,
{
    if n <= 0 {
        Seq::empty()
    } else {
        arrows(chain, n - 1) + " -> "@ + bytes::lossy(chain[n - 1])
    }
}

/// A match with the first links of its chain.
pub open spec fn match_text(found: PathMatch) -> Seq<char> {
    let chain = filepath::path_views(found.symlink_chain@);
    let path = bytes::lossy(found.path@);
    if chain.len() > MAX_DISPLAYED_SYMLINKS {
        path + arrows(chain, MAX_DISPLAYED_SYMLINKS as int) + " -> ..."@
    } else {
        path + arrows(chain, chain.len() as int)
    }
}

/// A yes or a no.
pub open spec fn yes_or_no(value: bool) -> Seq<char> {
    if value {
        "yes"@
    } else {
        "no"@
    }
}

/// What is known of the file at a path.
pub open spec fn facts_at(facts: Seq<PathFacts>, path: Seq<u8>) -> Option<PathFacts>
    decreases facts.len(),
{
    if facts.len() == 0 {
        None
    } else if facts[0].path@ == path {
        Some(facts[0])
    } else {
        facts_at(facts.skip(1), path)
    }
}

/// The package of the file at a path.
pub open spec fn package_at(facts: Seq<PathFacts>, path: Seq<u8>) -> Seq<char> {
    match facts_at(facts, path) {
        Some(known) => match known.packages.owner() {
            Some(package) => package,
            None => "unknown"@,
        },
        None => "unknown"@,
    }
}

/// The lines on the metadata of the file at a path, where it is known.
pub open spec fn meta_lines(
    facts: Seq<PathFacts>,
    path: Seq<u8>,
    passwd: Option<Seq<char>>,
) -> Seq<Seq<char>> {
    match facts_at(facts, path) {
        Some(known) => match known.file {
            Some(file) => match file.modified {
                Some(time) => seq![
                    "├── size: "@ + number::decimal(file.size as int) + " bytes"@,
                    "├── owner: "@ + process::username(passwd, file.uid as int),
                    "├── perms: "@ + number::octal4(file.mode as int % 4096),
                    "├── mtime: "@ + time.shown(),
                ],
                None => Seq::empty(),
            },
            None => Seq::empty(),
        },
        None => Seq::empty(),
    }
}

/// The lines on a match that is not the active one.
pub open spec fn duplicate_lines(
    found: PathMatch,
    facts: Seq<PathFacts>,
    last: bool,
) -> Seq<Seq<char>> {
    let prefix = if last {
        "    └──"@
    } else {
        "    ├──"@
    };
    let detail = if last {
        "       "@
    } else {
        "    │  "@
    };
    seq![
        prefix + " "@ + match_text(found),
        detail + "├── executable: "@ + yes_or_no(found.executable),
        detail + "└── package: "@ + package_at(facts, found.path@),
    ]
}

/// The lines on the matches from the second to the one at `n`, not with that one.
pub open spec fn duplicates(matches: Seq<PathMatch>, facts: Seq<PathFacts>, n: int) -> Seq<
    Seq<char>,
>
    decreases n,
{
    if n <= 1 {
        Seq::empty()
    } else {
        duplicates(matches, facts, n - 1) + duplicate_lines(
            matches[n - 1],
            facts,
            n == matches.len(),
        )
    }
}

/// The lines of the report on a command that was found.
pub open spec fn command_lines(
    command: Seq<char>,
    matches: Seq<PathMatch>,
    verbose: bool,
    facts: Seq<PathFacts>,
    passwd: Option<Seq<char>>,
) -> Seq<Seq<char>> {
    let active = matches[0];
    let head = seq![
        command,
        "├── active: "@ + match_text(active),
        "├── executable: "@ + yes_or_no(active.executable),
        "├── package: "@ + package_at(facts, active.path@),
    ];
    let told = if verbose {
        head + meta_lines(facts, active.path@, passwd)
    } else {
        head
    };
    if matches.len() == 1 {
        told.push("└── duplicates: none"@)
    } else {
        told.push("└── duplicates:"@) + duplicates(matches, facts, matches.len() as int)
    }
}

/// The report on a command.
pub open spec fn command_report(
    command: Seq<char>,
    matches: Seq<PathMatch>,
    verbose: bool,
    facts: Seq<PathFacts>,
    passwd: Option<Seq<char>>,
) -> Seq<char> {
    if matches.len() == 0 {
        "command not found in PATH: "@ + command
    } else {
        text::join(command_lines(command, matches, verbose, facts, passwd), "\n"@)
    }
}

/// All the times have dates.
pub open spec fn are_valid(facts: Seq<PathFacts>) -> bool {
    forall|i: int| 0 <= i < facts.len() ==> (#[trigger] facts[i]).is_valid()
}

/// A yes or a no.
pub fn yes_no(value: bool) -> (r: &'static str)
    ensures
        r@ == yes_or_no(value),
{
    if value {
        "yes"
    } else {
        "no"
    }
}

/// A match with the first links of its chain.
pub fn display_match_path(found: &PathMatch) -> (r: String)
    ensures
        r@ == match_text(*found),
{
    let ghost chain = filepath::path_views(found.symlink_chain@);
    let ghost path = bytes::lossy(found.path@);
    let mut value = found.path.display();
    let many: bool = found.symlink_chain.len() > MAX_DISPLAYED_SYMLINKS;
    let n: usize = if many {
        MAX_DISPLAYED_SYMLINKS
    } else {
        found.symlink_chain.len()
    };
    let mut i: usize = 0;
    assert(path + arrows(chain, 0) =~= path);
    while i < n
        invariant
            i <= n <= found.symlink_chain@.len(),
            chain == filepath::path_views(found.symlink_chain@),
            value@ == path + arrows(chain, i as int),
        decreases n - i,
    {
        let shown = found.symlink_chain[i].display();
        value = cat3(value.as_str(), " -> ", shown.as_str());
        proof {
            assert(chain[i as int] == found.symlink_chain@[i as int]@);
            assert(value@ =~= path + arrows(chain, i + 1));
        }
        i += 1;
    }
    assert(chain.len() == found.symlink_chain@.len());
    if many {
        value = cat2(value.as_str(), " -> ...");
    }
    value
}

fn find_facts<'a>(facts: &'a Vec<PathFacts>, path: &FilePath) -> (r: Option<&'a PathFacts>)
    ensures
        match r {
            Some(known) => facts_at(facts@, path@) == Some(*known) && facts@.contains(*known),
            None => facts_at(facts@, path@) is None,
        },
{
    let mut i: usize = 0;
    assert(facts@.skip(0) =~= facts@);
    while i < facts.len()
        invariant
            i <= facts@.len(),
            facts_at(facts@.skip(i as int), path@) == facts_at(facts@, path@),
        decreases facts@.len() - i,
    {
        proof {
            assert(facts@.skip(i as int)[0] == facts@[i as int]);
            assert(facts@.skip(i as int).skip(1) =~= facts@.skip(i + 1));
        }
        if facts[i].path.same(path) {
            return Some(&facts[i]);
        }
        i += 1;
    }
    None
}

fn package_text(facts: &Vec<PathFacts>, path: &FilePath) -> (r: String)
    ensures
        r@ == package_at(facts@, path@),
{
    match find_facts(facts, path) {
        Some(known) => match package_owner_multi(&known.packages) {
            Some(package) => package,
            None => "unknown".to_owned(),
        },
        None => "unknown".to_owned(),
    }
}

fn append_meta(
    lines: &mut Vec<String>,
    facts: &Vec<PathFacts>,
    path: &FilePath,
    passwd: &Option<String>,
)
    requires
        are_valid(facts@),
    ensures
        text::views(final(lines)@) == text::views(old(lines)@) + meta_lines(
            facts@,
            path@,
            process::opt_view(*passwd),
        ),
{
    let ghost first = text::views(lines@);
    if let Some(known) = find_facts(facts, path) {
        proof {
            let i = choose|i: int| 0 <= i < facts@.len() && facts@[i] == *known;
            assert(facts@[i].is_valid());
        }
        if let Some(meta) = file_metadata(&known.file, passwd) {
            let size = decimal_text(meta.size);
            push_text(lines, cat3("├── size: ", size.as_str(), " bytes"));
            push_text(lines, cat2("├── owner: ", meta.owner.as_str()));
            push_text(lines, cat2("├── perms: ", meta.perms.as_str()));
            push_text(lines, cat2("├── mtime: ", meta.mtime.as_str()));
        }
    }
    assert(text::views(lines@) =~= first + meta_lines(
        facts@,
        path@,
        process::opt_view(*passwd),
    ));
}

fn append_duplicate(lines: &mut Vec<String>, found: &PathMatch, facts: &Vec<PathFacts>, last: bool)
    ensures
        text::views(final(lines)@) == text::views(old(lines)@) + duplicate_lines(
            *found,
            facts@,
            last,
        ),
{
    let ghost first = text::views(lines@);
    let prefix: &str = if last {
        "    └──"
    } else {
        "    ├──"
    };
    let detail: &str = if last {
        "       "
    } else {
        "    │  "
    };
    let shown = display_match_path(found);
    push_text(lines, cat3(prefix, " ", shown.as_str()));
    push_text(lines, cat3(detail, "├── executable: ", yes_no(found.executable)));
    let package = package_text(facts, &found.path);
    push_text(lines, cat3(detail, "└── package: ", package.as_str()));
    assert(text::views(lines@) =~= first + duplicate_lines(*found, facts@, last));
}

/// The report on a command, from its matches and what is known of their files.
pub fn format_path_report(
    command: &str,
    matches: &Vec<PathMatch>,
    verbose: bool,
    facts: &Vec<PathFacts>,
    passwd: &Option<String>,
) -> (r: String)
    requires
        are_valid(facts@),
    ensures
        r@ == command_report(command@, matches@, verbose, facts@, process::opt_view(*passwd)),
{
    if matches.len() == 0 {
        return cat2("command not found in PATH: ", command);
    }
    let ghost names = process::opt_view(*passwd);
    let active = &matches[0];
    let mut lines = no_texts();
    push_text(&mut lines, command.to_owned());
    let shown = display_match_path(active);
    push_text(&mut lines, cat2("├── active: ", shown.as_str()));
    push_text(&mut lines, cat2("├── executable: ", yes_no(active.executable)));
    let package = package_text(facts, &active.path);
    push_text(&mut lines, cat2("├── package: ", package.as_str()));
    if verbose {
        append_meta(&mut lines, facts, &active.path, passwd);
    }
    if matches.len() == 1 {
        push_text(&mut lines, "└── duplicates: none".to_owned());
        assert(text::views(lines@) =~= command_lines(
            command@,
            matches@,
            verbose,
            facts@,
            names,
        ));
        return join_texts(&lines, "\n");
    }
    push_text(&mut lines, "└── duplicates:".to_owned());
    let ghost head = text::views(lines@);
    let mut i: usize = 1;
    assert(head + duplicates(matches@, facts@, 1) =~= head);
    while i < matches.len()
        invariant
            1 <= i <= matches@.len(),
            text::views(lines@) == head + duplicates(matches@, facts@, i as int),
        decreases matches@.len() - i,
    {
        let last: bool = i + 1 == matches.len();
        append_duplicate(&mut lines, &matches[i], facts, last);
        assert(text::views(lines@) =~= head + duplicates(matches@, facts@, i + 1));
        i += 1;
    }
    assert(text::views(lines@) =~= command_lines(command@, matches@, verbose, facts@, names));
    join_texts(&lines, "\n")
}

// ---------------------------------------------------------------------------
// The audit of the search path
// ---------------------------------------------------------------------------

/// A directory of the search path.
#[derive(Debug)]
pub struct DirFacts {
    pub path: FilePath,
    pub mode: u32,
    pub uid: u32,
}

/// What is known of the directory at a path; nothing is known of one that is missing.
pub open spec fn dir_at(dirs: Seq<DirFacts>, path: Seq<u8>) -> Option<DirFacts>
    decreases dirs.len(),
{
    if dirs.len() == 0 {
        None
    } else if dirs[0].path@ == path {
        Some(dirs[0])
    } else {
        dir_at(dirs.skip(1), path)
    }
}

/// Everybody may write to a directory with this mode.
pub open spec fn is_world_writable(mode: u32) -> bool {
    mode / 2 % 2 == 1
}

/// What is wrong with a directory.
pub open spec fn warnings(dir: DirFacts, passwd: Option<Seq<char>>) -> Seq<Seq<char>> {
    let writable = if is_world_writable(dir.mode) {
        seq!["world-writable"@]
    } else {
        Seq::empty()
    };
    if dir.uid != 0 {
        writable.push(
            "owned by "@ + process::username(passwd, dir.uid as int) + " (not root)"@,
        )
    } else {
        writable
    }
}

/// The line on a directory.
pub open spec fn audit_line(
    path: Seq<u8>,
    dirs: Seq<DirFacts>,
    passwd: Option<Seq<char>>,
) -> Seq<char> {
    let shown = bytes::lossy(path);
    match dir_at(dirs, path) {
        Some(dir) => if warnings(dir, passwd).len() == 0 {
            "  ✓ "@ + shown
        } else {
            "  ⚠ "@ + shown + " — "@ + text::join(warnings(dir, passwd), ", "@)
        },
        None => "  ✗ "@ + shown + " — missing"@,
    }
}

/// The lines of the audit of a search path.
pub open spec fn audit_lines(
    path_env: Seq<u8>,
    dirs: Seq<DirFacts>,
    passwd: Option<Seq<char>>,
) -> Seq<Seq<char>> {
    seq![""@, "PATH audit:"@] + path::directories(path_env).map_values(
        |directory: Seq<u8>| audit_line(directory, dirs, passwd),
    )
}

fn find_dir<'a>(dirs: &'a Vec<DirFacts>, path: &FilePath) -> (r: Option<&'a DirFacts>)
    ensures
        match r {
            Some(dir) => dir_at(dirs@, path@) == Some(*dir),
            None => dir_at(dirs@, path@) is None,
        },
{
    let mut i: usize = 0;
    assert(dirs@.skip(0) =~= dirs@);
    while i < dirs.len()
        invariant
            i <= dirs@.len(),
            dir_at(dirs@.skip(i as int), path@) == dir_at(dirs@, path@),
        decreases dirs@.len() - i,
    {
        proof {
            assert(dirs@.skip(i as int)[0] == dirs@[i as int]);
            assert(dirs@.skip(i as int).skip(1) =~= dirs@.skip(i + 1));
        }
        if dirs[i].path.same(path) {
            return Some(&dirs[i]);
        }
        i += 1;
    }
    None
}

/// The line on a directory.
pub fn audit_directory(path: &FilePath, dirs: &Vec<DirFacts>, passwd: &Option<String>) -> (r:
    String)
    ensures
        r@ == audit_line(path@, dirs@, process::opt_view(*passwd)),
{
    let shown = path.display();
    match find_dir(dirs, path) {
        Some(dir) => {
            let mode: u32 = dir.mode;
            let mut found = no_texts();
            assert((mode & 0o002 != 0) == (mode / 2 % 2 == 1)) by (bit_vector);
            if mode & 0o002 != 0 {
                push_text(&mut found, "world-writable".to_owned());
            }
            if dir.uid != 0 {
                let owner = lookup_username(passwd, dir.uid);
                push_text(&mut found, cat3("owned by ", owner.as_str(), " (not root)"));
            }
            proof {
                assert(text::views(found@) =~= warnings(*dir, process::opt_view(*passwd)));
                assert(text::views(found@).len() == found@.len());
            }
            if found.len() == 0 {
                cat2("  ✓ ", shown.as_str())
            } else {
                let list = join_texts(&found, ", ");
                cat4("  ⚠ ", shown.as_str(), " — ", list.as_str())
            }
        },
        None => cat3("  ✗ ", shown.as_str(), " — missing"),
    }
}

/// Audits the directories of a search path: those that everybody may write to, those that
/// root does not own, and those that are missing.
pub fn path_audit(path_env: &FilePath, dirs: &Vec<DirFacts>, passwd: &Option<String>) -> (r: Vec<
    String,
>)
    ensures
        text::views(r@) == audit_lines(path_env@, dirs@, process::opt_view(*passwd)),
{
    let ghost names = process::opt_view(*passwd);
    let ghost listed = path::directories(path_env@);
    let ghost goal = listed.map_values(
        |directory: Seq<u8>| audit_line(directory, dirs@, names),
    );
    let mut lines = no_texts();
    push_text(&mut lines, "".to_owned());
    push_text(&mut lines, "PATH audit:".to_owned());
    let ghost head = text::views(lines@);
    let list = split_paths(path_env);
    let mut i: usize = 0;
    assert(head + goal.take(0) =~= head);
    while i < list.len()
        invariant
            i <= list@.len(),
            names == process::opt_view(*passwd),
            listed == filepath::path_views(list@),
            goal == listed.map_values(
                |directory: Seq<u8>| audit_line(directory, dirs@, names),
            ),
            text::views(lines@) == head + goal.take(i as int),
        decreases list@.len() - i,
    {
        assert(listed[i as int] == list@[i as int]@);
        push_text(&mut lines, audit_directory(&list[i], dirs, passwd));
        assert((head + goal.take(i as int)).push(goal[i as int]) =~= head + goal.take(i + 1));
        i += 1;
    }
    proof {
        assert(listed.len() == list@.len());
        assert(goal.take(i as int) =~= goal);
        assert(text::views(lines@) =~= audit_lines(path_env@, dirs@, names));
    }
    lines
}

// ---------------------------------------------------------------------------
// The whole answer
// ---------------------------------------------------------------------------

/// What is printed about a command with these matches: the report, and if asked for the
/// audit of the search path.
pub open spec fn printed_lines(
    command: Seq<char>,
    path_env: Option<FilePath>,
    matches: Seq<PathMatch>,
    verbose: bool,
    facts: Seq<PathFacts>,
    dirs: Seq<DirFacts>,
    passwd: Option<Seq<char>>,
) -> Seq<Seq<char>> {
    let report = seq![command_report(command, matches, verbose, facts, passwd)];
    match path_env {
        Some(list) => if verbose {
            report + audit_lines(list@, dirs, passwd)
        } else {
            report
        },
        None => report,
    }
}

/// What is printed about a command with these matches.
pub fn describe_matches(
    command: &str,
    path_env: &Option<FilePath>,
    matches: &Vec<PathMatch>,
    verbose: bool,
    facts: &Vec<PathFacts>,
    dirs: &Vec<DirFacts>,
    passwd: &Option<String>,
) -> (r: Vec<String>)
    requires
        are_valid(facts@),
    ensures
        text::views(r@) == printed_lines(
            command@,
            *path_env,
            matches@,
            verbose,
            facts@,
            dirs@,
            process::opt_view(*passwd),
        ),
{
    let mut lines = no_texts();
    push_text(&mut lines, format_path_report(command, matches, verbose, facts, passwd));
    let ghost head = text::views(lines@);
    if let Some(list) = path_env {
        if verbose {
            let mut audit = path_audit(list, dirs, passwd);
            let ghost tail = text::views(audit@);
            lines.append(&mut audit);
            assert(text::views(lines@) =~= head + tail);
        }
    }
    assert(text::views(lines@) =~= printed_lines(
        command@,
        *path_env,
        matches@,
        verbose,
        facts@,
        dirs@,
        process::opt_view(*passwd),
    ));
    lines
}

} // verus!
