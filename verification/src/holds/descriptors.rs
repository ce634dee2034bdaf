//! What the descriptors and mappings of a process say about a target.

use crate::bytes;
use crate::failure;
use crate::failure::{FailureKind, FileLines, IoFailure, ProcRead};
use crate::filepath::FilePath;
use crate::holds::procfs;
use crate::holds::procfs::{parse_socket_inode, read_fd_mode, read_proc_maps};
use crate::holds::{FdMode, FileId, MapEntry, MmapPerms};
use crate::number;
use crate::number::parse_i32;
use crate::process;
use std::collections::BTreeSet;
use vstd::prelude::*;

verus! {

broadcast use vstd::std_specs::btree::group_btree_axioms;

// ---------------------------------------------------------------------------
// The descriptors of one process
// ---------------------------------------------------------------------------

/// An entry of the descriptor directory of a process, and what was found behind it.
#[derive(Debug)]
pub enum FdEntry<T> {
    /// The entry itself could not be read.
    Unreadable(FailureKind),
    /// The entry was read.
    Listed(FdLook<T>),
}

/// A descriptor that was looked at.
#[derive(Debug)]
pub struct FdLook<T> {
    /// The name of the entry, where it is UTF-8.
    pub name: Option<String>,
    /// What the descriptor refers to.
    pub target: Result<T, FailureKind>,
    /// The text of the `fdinfo` file of the descriptor.
    pub info: Option<String>,
}

/// What an entry says about the target.
#[derive(Debug, Clone, Copy, PartialEq, Eq, Structural)]
pub enum FdFinding {
    Nothing,
    Denied,
    Holds(i32, FdMode),
}

/// The number that the name of an entry writes.
pub open spec fn fd_number(name: Option<String>) -> Option<int> {
    match name {
        Some(text) => number::parse_int32(text@),
        None => None,
    }
}

/// What an entry says, where `hits` tells whether it refers to the target: entries whose
/// name is no number say nothing, and neither do targets that are gone.
pub open spec fn finding<T>(entry: FdEntry<T>, hits: spec_fn(T) -> bool) -> FdFinding {
    match entry {
        FdEntry::Unreadable(kind) => if kind == FailureKind::PermissionDenied {
            FdFinding::Denied
        } else {
            FdFinding::Nothing
        },
        FdEntry::Listed(look) => match fd_number(look.name) {
            Some(fd) => match look.target {
                Ok(target) => if hits(target) {
                    FdFinding::Holds(
                        fd as i32,
                        procfs::mode_of_info(process::opt_view(look.info)),
                    )
                } else {
                    FdFinding::Nothing
                },
                Err(kind) => if kind == FailureKind::PermissionDenied {
                    FdFinding::Denied
                } else {
                    FdFinding::Nothing
                },
            },
            None => FdFinding::Nothing,
        },
    }
}

/// The descriptors that the findings name, in order.
pub open spec fn holdings(findings: Seq<FdFinding>) -> Seq<(i32, FdMode)>
    decreases findings.len(),
{
    if findings.len() == 0 {
        Seq::empty()
    } else {
        let before = holdings(findings.drop_last());
        match findings.last() {
            FdFinding::Holds(fd, mode) => before.push((fd, mode)),
            _ => before,
        }
    }
}

/// What the descriptors of a process say about the target: which of them refer to it, or
/// why that could not be seen.
pub open spec fn fds_of<T>(
    listing: Result<Vec<FdEntry<T>>, IoFailure>,
    hits: spec_fn(T) -> bool,
) -> ProcRead<Seq<(i32, FdMode)>> {
    match listing {
        Ok(entries) => {
            let findings = entries@.map_values(|entry: FdEntry<T>| finding(entry, hits));
            if findings.contains(FdFinding::Denied) {
                ProcRead::PermissionDenied
            } else {
                ProcRead::Done(holdings(findings))
            }
        },
        Err(error) => failure::classified(error),
    }
}

/// The predicate "is this file".
pub open spec fn this_file(target: FileId) -> spec_fn(FileId) -> bool {
    |id: FileId| id == target
}

/// The predicate "is a link to a socket with one of these inodes".
pub open spec fn socket_among(inodes: Set<u64>) -> spec_fn(FilePath) -> bool {
    |link: FilePath|
        match procfs::socket_inode(bytes::lossy(link@)) {
            Some(inode) => inodes.contains(inode as u64),
            None => false,
        }
}

/// The descriptors are in ascending order.
pub open spec fn ascending_fds(fds: Seq<(i32, FdMode)>) -> bool {
    forall|i: int, j: int| 0 <= i < j < fds.len() ==> (#[trigger] fds[i]).0 <= (#[trigger] fds[j]).0
}

/// `r` holds what `outcome` says, with the descriptors in ascending order.
pub open spec fn reports_fds(
    r: ProcRead<Vec<(i32, FdMode)>>,
    outcome: ProcRead<Seq<(i32, FdMode)>>,
) -> bool {
    match outcome {
        ProcRead::Done(fds) => {
            &&& r matches ProcRead::Done(sorted)
            &&& ascending_fds(sorted@)
            &&& sorted@.to_multiset() == fds.to_multiset()
        },
        ProcRead::PermissionDenied => r is PermissionDenied,
        ProcRead::Gone => r is Gone,
        ProcRead::Fatal(error) => r == ProcRead::<Vec<(i32, FdMode)>>::Fatal(error),
    }
}

fn insert_fd(fds: &mut Vec<(i32, FdMode)>, fd: i32, mode: FdMode)
    requires
        ascending_fds(old(fds)@),
    ensures
        ascending_fds(final(fds)@),
        final(fds)@.to_multiset() == old(fds)@.to_multiset().insert((fd, mode)),
{
    let mut at: usize = fds.len();
    while at > 0 && fds[at - 1].0 > fd
        invariant
            at <= fds@.len(),
            fds@ == old(fds)@,
            ascending_fds(fds@),
            forall|k: int| at <= k < fds@.len() ==> (#[trigger] fds@[k]).0 > fd,
        decreases at,
    {
        at -= 1;
    }
    proof {
        vstd::seq_lib::to_multiset_insert(fds@, at as int, (fd, mode));
    }
    fds.insert(at, (fd, mode));
}

/// The descriptors that a list of findings names, in ascending order, unless one of the
/// findings is that it was denied.
fn collect_findings(findings: &Vec<FdFinding>) -> (r: ProcRead<Vec<(i32, FdMode)>>)
    ensures
        reports_fds(
            r,
            if findings@.contains(FdFinding::Denied) {
                ProcRead::PermissionDenied
            } else {
                ProcRead::Done(holdings(findings@))
            },
        ),
{
    let mut fds: Vec<(i32, FdMode)> = Vec::new();
    let mut i: usize = 0;
    assert(fds@ =~= holdings(findings@.take(0)));
    while i < findings.len()
        invariant
            i <= findings@.len(),
            forall|k: int| 0 <= k < i ==> findings@[k] != FdFinding::Denied,
            ascending_fds(fds@),
            fds@.to_multiset() == holdings(findings@.take(i as int)).to_multiset(),
        decreases findings@.len() - i,
    {
        let ghost before = holdings(findings@.take(i as int));
        proof {
            assert(findings@.take(i + 1).drop_last() =~= findings@.take(i as int));
            assert(findings@.take(i + 1).last() == findings@[i as int]);
        }
        match findings[i] {
            FdFinding::Denied => {
                assert(findings@[i as int] == FdFinding::Denied);
                return ProcRead::PermissionDenied;
            },
            FdFinding::Holds(fd, mode) => {
                insert_fd(&mut fds, fd, mode);
                proof {
                    vstd::seq_lib::to_multiset_build(before, (fd, mode));
                }
            },
            FdFinding::Nothing => {},
        }
        i += 1;
    }
    assert(findings@.take(i as int) =~= findings@);
    ProcRead::Done(fds)
}

fn parse_fd_name(name: &Option<String>) -> (r: Option<i32>)
    ensures
        match r {
            Some(fd) => fd_number(*name) == Some(fd as int),
            None => fd_number(*name) is None,
        },
{
    match name {
        Some(text) => parse_i32(text.as_str()),
        None => None,
    }
}

/// What an entry of the descriptor directory says about a file.
fn find_file(entry: &FdEntry<FileId>, target: FileId) -> (r: FdFinding)
    ensures
        r == finding(*entry, this_file(target)),
{
    match entry {
        FdEntry::Unreadable(kind) => match kind {
            FailureKind::PermissionDenied => FdFinding::Denied,
            _ => FdFinding::Nothing,
        },
        FdEntry::Listed(look) => {
            let fd: i32 = match parse_fd_name(&look.name) {
                Some(fd) => fd,
                None => return FdFinding::Nothing,
            };
            match &look.target {
                Ok(id) => if *id == target {
                    FdFinding::Holds(fd, read_fd_mode(&look.info))
                } else {
                    FdFinding::Nothing
                },
                Err(kind) => match kind {
                    FailureKind::PermissionDenied => FdFinding::Denied,
                    _ => FdFinding::Nothing,
                },
            }
        },
    }
}

/// What an entry of the descriptor directory says about sockets.
fn find_socket(entry: &FdEntry<FilePath>, inodes: &BTreeSet<u64>) -> (r: FdFinding)
    ensures
        r == finding(*entry, socket_among(inodes@)),
{
    match entry {
        FdEntry::Unreadable(kind) => match kind {
            FailureKind::PermissionDenied => FdFinding::Denied,
            _ => FdFinding::Nothing,
        },
        FdEntry::Listed(look) => {
            let fd: i32 = match parse_fd_name(&look.name) {
                Some(fd) => fd,
                None => return FdFinding::Nothing,
            };
            match &look.target {
                Ok(link) => match parse_socket_inode(link) {
                    Some(inode) => if inodes.contains(&inode) {
                        FdFinding::Holds(fd, read_fd_mode(&look.info))
                    } else {
                        FdFinding::Nothing
                    },
                    None => FdFinding::Nothing,
                },
                Err(kind) => match kind {
                    FailureKind::PermissionDenied => FdFinding::Denied,
                    _ => FdFinding::Nothing,
                },
            }
        },
    }
}

/// The descriptors of a process that refer to a file, with their modes.
pub fn scan_pid_fds_for_file(
    listing: &Result<Vec<FdEntry<FileId>>, IoFailure>,
    target: FileId,
) -> (r: ProcRead<Vec<(i32, FdMode)>>)
    ensures
        reports_fds(r, fds_of(*listing, this_file(target))),
{
    let entries = match listing {
        Ok(entries) => entries,
        Err(error) => return failure::classify_proc_error(error.clone()),
    };
    let ghost all = entries@.map_values(
        |entry: FdEntry<FileId>| finding(entry, this_file(target)),
    );
    let mut findings: Vec<FdFinding> = Vec::new();
    let mut i: usize = 0;
    while i < entries.len()
        invariant
            i <= entries@.len(),
            all == entries@.map_values(
                |entry: FdEntry<FileId>| finding(entry, this_file(target)),
            ),
            findings@ == all.take(i as int),
        decreases entries@.len() - i,
    {
        findings.push(find_file(&entries[i], target));
        assert(all.take(i + 1) =~= all.take(i as int).push(all[i as int]));
        i += 1;
    }
    assert(all.take(i as int) =~= all);
    collect_findings(&findings)
}

/// The descriptors of a process that refer to one of the sockets, with their modes.
pub fn scan_pid_fds_for_sockets(
    listing: &Result<Vec<FdEntry<FilePath>>, IoFailure>,
    target_inodes: &BTreeSet<u64>,
) -> (r: ProcRead<Vec<(i32, FdMode)>>)
    ensures
        reports_fds(r, fds_of(*listing, socket_among(target_inodes@))),
{
    let entries = match listing {
        Ok(entries) => entries,
        Err(error) => return failure::classify_proc_error(error.clone()),
    };
    let ghost all = entries@.map_values(
        |entry: FdEntry<FilePath>| finding(entry, socket_among(target_inodes@)),
    );
    let mut findings: Vec<FdFinding> = Vec::new();
    let mut i: usize = 0;
    while i < entries.len()
        invariant
            i <= entries@.len(),
            all == entries@.map_values(
                |entry: FdEntry<FilePath>| finding(entry, socket_among(target_inodes@)),
            ),
            findings@ == all.take(i as int),
        decreases entries@.len() - i,
    {
        findings.push(find_socket(&entries[i], target_inodes));
        assert(all.take(i + 1) =~= all.take(i as int).push(all[i as int]));
        i += 1;
    }
    assert(all.take(i as int) =~= all);
    collect_findings(&findings)
}

proof fn lemma_holdings(findings: Seq<FdFinding>, fd: i32, mode: FdMode)
    ensures
        holdings(findings).contains((fd, mode)) <==> findings.contains(FdFinding::Holds(fd, mode)),
    decreases findings.len(),
{
    let item = FdFinding::Holds(fd, mode);
    if findings.len() > 0 {
        let rest = findings.drop_last();
        let before = holdings(rest);
        let now = holdings(findings);
        lemma_holdings(rest, fd, mode);
        assert(findings[findings.len() - 1] == findings.last());
        if findings.contains(item) {
            let k = choose|k: int| 0 <= k < findings.len() && findings[k] == item;
            if k < rest.len() {
                assert(rest[k] == item);
                let j = choose|j: int| 0 <= j < before.len() && before[j] == (fd, mode);
                assert(now[j] == (fd, mode));
            } else {
                assert(now[before.len() as int] == (fd, mode));
            }
        }
        if now.contains((fd, mode)) {
            let j = choose|j: int| 0 <= j < now.len() && now[j] == (fd, mode);
            if j < before.len() {
                assert(before[j] == (fd, mode));
                let k = choose|k: int| 0 <= k < rest.len() && rest[k] == item;
                assert(findings[k] == item);
            }
        }
    }
}

/// Where nothing was denied, the descriptors of a process that refer to the target are
/// those of the entries that refer to it.
pub proof fn lemma_descriptor_is_seen<T>(
    entries: Vec<FdEntry<T>>,
    hits: spec_fn(T) -> bool,
    fd: i32,
    mode: FdMode,
)
    requires
        forall|k: int|
            0 <= k < entries@.len() ==> finding(#[trigger] entries@[k], hits) != FdFinding::Denied,
    ensures
        fds_of(Ok::<Vec<FdEntry<T>>, IoFailure>(entries), hits) matches ProcRead::Done(fds)
            && (fds.contains((fd, mode)) <==> exists|k: int|
            0 <= k < entries@.len() && finding(#[trigger] entries@[k], hits) == FdFinding::Holds(
                fd,
                mode,
            )),
{
    let findings = entries@.map_values(|entry: FdEntry<T>| finding(entry, hits));
    let item = FdFinding::Holds(fd, mode);
    assert(!findings.contains(FdFinding::Denied)) by {
        if findings.contains(FdFinding::Denied) {
            let k = choose|k: int| 0 <= k < findings.len() && findings[k] == FdFinding::Denied;
            assert(findings[k] == finding(entries@[k], hits));
        }
    }
    lemma_holdings(findings, fd, mode);
    if findings.contains(item) {
        let k = choose|k: int| 0 <= k < findings.len() && findings[k] == item;
        assert(finding(entries@[k], hits) == item);
    }
    if exists|k: int| 0 <= k < entries@.len() && finding(#[trigger] entries@[k], hits) == item {
        let k = choose|k: int|
            0 <= k < entries@.len() && finding(#[trigger] entries@[k], hits) == item;
        assert(findings[k] == item);
    }
}

// ---------------------------------------------------------------------------
// The mappings of one process
// ---------------------------------------------------------------------------

/// The mapping is of the file with this device and inode; inode 0 is no file.
pub open spec fn maps_file(entry: MapEntry, major: u32, minor: u32, inode: u64) -> bool {
    entry.inode != 0 && entry.inode == inode && entry.dev_major == major && entry.dev_minor == minor
}

/// The permissions of the first mapping of a file.
pub open spec fn first_mapping(
    maps: Seq<MapEntry>,
    major: u32,
    minor: u32,
    inode: u64,
) -> Option<MmapPerms>
    decreases maps.len(),
{
    if maps.len() == 0 {
        None
    } else if maps_file(maps[0], major, minor, inode) {
        Some(maps[0].perms)
    } else {
        first_mapping(maps.skip(1), major, minor, inode)
    }
}

/// What the mappings of a process say about a file.
pub open spec fn mapping_of(
    file: FileLines,
    major: u32,
    minor: u32,
    inode: u64,
) -> ProcRead<Option<MmapPerms>> {
    match procfs::maps_of(file) {
        ProcRead::Done(maps) => ProcRead::Done(first_mapping(maps, major, minor, inode)),
        ProcRead::PermissionDenied => ProcRead::PermissionDenied,
        ProcRead::Gone => ProcRead::Gone,
        ProcRead::Fatal(error) => ProcRead::Fatal(error),
    }
}

/// The permissions with which a process maps a file.
pub fn scan_pid_maps_for_file(
    file: &FileLines,
    target_major: u32,
    target_minor: u32,
    target_inode: u64,
) -> (r: ProcRead<Option<MmapPerms>>)
    ensures
        r == mapping_of(*file, target_major, target_minor, target_inode),
{
    let maps = match read_proc_maps(file) {
        ProcRead::Done(maps) => maps,
        ProcRead::PermissionDenied => return ProcRead::PermissionDenied,
        ProcRead::Gone => return ProcRead::Gone,
        ProcRead::Fatal(error) => return ProcRead::Fatal(error),
    };
    let mut i: usize = 0;
    assert(maps@.skip(0) =~= maps@);
    while i < maps.len()
        invariant
            i <= maps@.len(),
            procfs::maps_of(*file) == ProcRead::Done(maps@),
            first_mapping(maps@.skip(i as int), target_major, target_minor, target_inode)
                == first_mapping(maps@, target_major, target_minor, target_inode),
        decreases maps@.len() - i,
    {
        proof {
            assert(maps@.skip(i as int)[0] == maps@[i as int]);
            assert(maps@.skip(i as int).skip(1) =~= maps@.skip(i + 1));
        }
        let entry = maps[i];
        if entry.inode != 0 && entry.inode == target_inode && entry.dev_major == target_major
            && entry.dev_minor == target_minor {
            return ProcRead::Done(Some(entry.perms));
        }
        i += 1;
    }
    ProcRead::Done(None)
}

} // verus!
