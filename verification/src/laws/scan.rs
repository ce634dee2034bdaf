//! What a scan is for: whoever holds the target is reported, with the evidence, under the
//! right name and user, once, and what could not be looked at is counted.

use crate::bytes;
use crate::failure::{FailureKind, IoFailure, ProcRead};
use crate::filepath::FilePath;
use crate::holds;
use crate::holds::descriptors;
use crate::holds::descriptors::{FdEntry, FdFinding};
use crate::holds::evidence;
use crate::holds::holder;
use crate::holds::holder::HolderSource;
use crate::holds::procfs;
use crate::holds::scan;
use crate::holds::scan::{FileProcess, ProcessLook, SocketProcess};
use crate::holds::{Evidence, FdMode, FileId, Holder, HoldsError, MmapPerms, ScanStats, SocketEntry};
use crate::number;
use crate::process;
use crate::text;
use vstd::prelude::*;

verus! {

// ---------------------------------------------------------------------------
// What is asked
// ---------------------------------------------------------------------------

/// Digits ask for the port that they write, from 1 to 65535, whatever zeros stand before it;
/// no other number is a port.
pub proof fn lemma_ports(k: nat, n: int)
    requires
        0 <= n,
    ensures
        holds::all_digits(crate::laws::number::zeros(k) + number::decimal(n)),
        holds::port_of(crate::laws::number::zeros(k) + number::decimal(n)) == if 1 <= n && n
            <= 65535 {
            Some(n)
        } else {
            None::<int>
        },
        holds::all_digits(number::decimal(n)),
        holds::port_of(number::decimal(n)) == if 1 <= n && n <= 65535 {
            Some(n)
        } else {
            None::<int>
        },
{
    number::lemma_decimal_digits(n);
    let s = crate::laws::number::zeros(k) + number::decimal(n);
    assert forall|i: int| 0 <= i < s.len() implies '0' <= #[trigger] s[i] <= '9' by {
        if i >= k {
            assert(s[i] == number::decimal(n)[i - k]);
        }
    }
    crate::laws::number::lemma_decimal_is_read(k, n, u32::MAX as int);
}

/// A text with anything but digits in it does not ask for a port.
pub proof fn lemma_paths(s: Seq<char>, i: int)
    requires
        0 <= i < s.len(),
        !('0' <= s[i] <= '9'),
    ensures
        !holds::all_digits(s),
{
}

// ---------------------------------------------------------------------------
// Users and process numbers
// ---------------------------------------------------------------------------

/// The third field of the line of a passwd text is this text.
pub open spec fn has_uid_text(line: Seq<char>, uid: Seq<char>) -> bool {
    text::split(line, ':').len() >= 3 && text::split(line, ':')[2] == uid
}

/// The name of a user stands first on the first line of a passwd text that has the number of
/// the user in its third field; without such a line there is no name.
pub proof fn lemma_name_is_found(passwd: Seq<char>, k: int, uid: Seq<char>)
    requires
        0 <= k <= text::lines(passwd).len(),
        k < text::lines(passwd).len() ==> has_uid_text(text::lines(passwd)[k], uid),
        forall|j: int| 0 <= j < k ==> !has_uid_text(#[trigger] text::lines(passwd)[j], uid),
    ensures
        procfs::resolved_name(Some(passwd), uid) == if k < text::lines(passwd).len() {
            Some(text::split(text::lines(passwd)[k], ':')[0])
        } else {
            None::<Seq<char>>
        },
        procfs::resolved_name(None, uid) is None,
{
    lemma_name_on_line(text::lines(passwd), k, uid);
}

proof fn lemma_name_on_line(lines: Seq<Seq<char>>, k: int, uid: Seq<char>)
    requires
        0 <= k <= lines.len(),
        k < lines.len() ==> has_uid_text(lines[k], uid),
        forall|j: int| 0 <= j < k ==> !has_uid_text(#[trigger] lines[j], uid),
    ensures
        procfs::name_of_uid_text(lines, uid) == if k < lines.len() {
            Some(text::split(lines[k], ':')[0])
        } else {
            None::<Seq<char>>
        },
    decreases k,
{
    if k > 0 {
        assert(!has_uid_text(lines[0], uid));
        let more = lines.skip(1);
        assert forall|j: int| 0 <= j < k - 1 implies !has_uid_text(#[trigger] more[j], uid) by {
            assert(more[j] == lines[j + 1]);
        }
        lemma_name_on_line(more, k - 1, uid);
    }
}

/// Each entry of `/proc` that is named with a number is a process, and no other entry is.
pub proof fn lemma_process_numbers(names: Seq<Seq<char>>, pid: u32, other: Seq<char>)
    ensures
        procfs::pids_of(Seq::<Seq<char>>::empty()).len() == 0,
        procfs::pids_of(names.push(number::decimal(pid as int))) == procfs::pids_of(names).push(pid),
        number::parse_uint(other, 10, u32::MAX as int) is None ==> procfs::pids_of(
            names.push(other),
        ) == procfs::pids_of(names),
{
    let one = names.push(number::decimal(pid as int));
    assert(one.drop_last() =~= names);
    assert(names.push(other).drop_last() =~= names);
    crate::laws::number::lemma_decimal_is_read(0, pid as int, u32::MAX as int);
}

/// A list of process numbers that is ordered and has the same members is complete.
pub proof fn lemma_process_list(pids: Seq<u32>, names: Seq<Seq<char>>, i: int, pid: u32)
    requires
        procfs::ascending(pids),
        pids.to_multiset() == procfs::pids_of(names).to_multiset(),
        0 <= i < names.len(),
        names[i] == number::decimal(pid as int),
    ensures
        pids.contains(pid),
        pids.len() == procfs::pids_of(names).len(),
        forall|a: int, b: int|
            0 <= a < b < pids.len() ==> #[trigger] pids[a] <= #[trigger] pids[b],
{
    lemma_pid_is_listed(names, i, pid);
    pids.to_multiset_ensures();
    procfs::pids_of(names).to_multiset_ensures();
    assert(procfs::pids_of(names).to_multiset().count(pid) > 0);
    assert(pids.to_multiset().count(pid) > 0);
}

proof fn lemma_pid_is_listed(names: Seq<Seq<char>>, i: int, pid: u32)
    requires
        0 <= i < names.len(),
        names[i] == number::decimal(pid as int),
    ensures
        procfs::pids_of(names).contains(pid),
    decreases names.len(),
{
    let before = procfs::pids_of(names.drop_last());
    let now = procfs::pids_of(names);
    if i == names.len() - 1 {
        crate::laws::number::lemma_decimal_is_read(0, pid as int, u32::MAX as int);
        assert(now[before.len() as int] == pid);
    } else {
        lemma_pid_is_listed(names.drop_last(), i, pid);
        let k = choose|k: int| 0 <= k < before.len() && before[k] == pid;
        assert(now[k] == pid);
    }
}

// ---------------------------------------------------------------------------
// Holders
// ---------------------------------------------------------------------------

/// A holder is shown under the name of its process, with the name of its real user where that
/// has one and with the number of the user where not.
pub proof fn lemma_holder_is_described(
    status: Seq<char>,
    passwd: Option<Seq<char>>,
    name: Seq<char>,
    value: Seq<char>,
)
    ensures
        process::status_field(status, "Name"@) == Some(name) ==> holder::holder_name(status)
            == name,
        process::status_field(status, "Name"@) is None ==> holder::holder_name(status)
            == "unknown"@,
        process::status_field(status, "Uid"@) == Some(value) && text::words(value).len() > 0
            && procfs::resolved_name(passwd, text::words(value)[0]) == Some(name)
            ==> holder::holder_user(status, passwd) == name,
        process::status_field(status, "Uid"@) == Some(value) && text::words(value).len() > 0
            && procfs::resolved_name(passwd, text::words(value)[0]) is None
            ==> holder::holder_user(status, passwd) == "uid="@ + text::words(value)[0],
        process::status_field(status, "Uid"@) is None ==> holder::holder_user(status, passwd)
            == "uid=unknown"@,
{
}

/// What is known of a holder is about the process itself.
pub proof fn lemma_holder_is_the_process(
    found: Holder,
    pid: u32,
    shown: Seq<Evidence>,
    source: HolderSource,
    passwd: Option<Seq<char>>,
)
    requires
        holder::is_holder(found, pid, shown, source, passwd),
    ensures
        found.pid == pid,
        found.evidence@ == shown,
        source.status matches Ok(status) ==> found.name@ == holder::holder_name(status@)
            && found.user@ == holder::holder_user(status@, passwd),
        source.cwd matches Some(path) ==> (found.cwd matches Some(cwd) && cwd@ == bytes::lossy(
            path@,
        )),
        source.cwd is None ==> found.cwd is None,
        source.is_gone() == (source.status == Err::<String, FailureKind>(FailureKind::NotFound)),
{
}

/// The evidence is complete, holds nothing else and nothing twice, has the descriptors in the
/// order of their numbers, and a mapping behind all of them.
pub proof fn lemma_evidence_order(
    list: Seq<Evidence>,
    fds: Seq<(i32, FdMode)>,
    perms: Option<MmapPerms>,
    i: int,
    j: int,
)
    requires
        evidence::is_evidence(list, fds, perms),
        0 <= i < j < list.len(),
    ensures
        list[i] != list[j],
        list[i] is Fd,
        list[j] matches Evidence::Fd(second, _) ==> (list[i] matches Evidence::Fd(first, _) && first
            <= second),
        list[j] matches Evidence::Fd(fd, mode) ==> fds.contains((fd, mode)),
        list[j] matches Evidence::Mmap(p) ==> perms == Some(p),
        list[i] matches Evidence::Fd(fd, mode) ==> fds.contains((fd, mode)),
{
    assert(list.contains(list[i]));
    assert(list.contains(list[j]));
    assert(evidence::rank(list[i]) < evidence::rank(list[j]));
    if list[i] is Mmap && list[j] is Mmap {
        assert(evidence::shows(list[i], fds, perms));
        assert(evidence::shows(list[j], fds, perms));
    }
}

/// Every descriptor and the mapping are among the evidence.
pub proof fn lemma_evidence_is_complete(
    list: Seq<Evidence>,
    fds: Seq<(i32, FdMode)>,
    perms: Option<MmapPerms>,
    fd: i32,
    mode: FdMode,
)
    requires
        evidence::is_evidence(list, fds, perms),
    ensures
        fds.contains((fd, mode)) ==> list.contains(Evidence::Fd(fd, mode)),
        perms matches Some(p) ==> list.contains(Evidence::Mmap(p)),
        fds.len() == 0 && perms is None ==> list.len() == 0,
{
    assert(list.contains(Evidence::Fd(fd, mode)) <==> evidence::shows(
        Evidence::Fd(fd, mode),
        fds,
        perms,
    ));
    if let Some(p) = perms {
        assert(list.contains(Evidence::Mmap(p)) <==> evidence::shows(
            Evidence::Mmap(p),
            fds,
            perms,
        ));
    } else if fds.len() == 0 && list.len() > 0 {
        assert(list.contains(list[0]));
        assert(evidence::shows(list[0], fds, perms));
    }
}

// ---------------------------------------------------------------------------
// Scans
// ---------------------------------------------------------------------------

/// The descriptor leads to the socket with this inode.
pub open spec fn is_open_socket(entry: FdEntry<FilePath>, fd: i32, inode: u64) -> bool {
    &&& entry matches FdEntry::Listed(look)
    &&& look.name matches Some(name)
    &&& name@ == number::signed_decimal(fd as int)
    &&& look.target matches Ok(link)
    &&& bytes::lossy(link@) == "socket:["@ + number::decimal(inode as int) + "]"@
}

/// No descriptor of the process was denied.
pub open spec fn none_denied<T>(entries: Seq<FdEntry<T>>) -> bool {
    forall|k: int|
        0 <= k < entries.len() ==> match #[trigger] entries[k] {
            FdEntry::Unreadable(kind) => kind != FailureKind::PermissionDenied,
            FdEntry::Listed(look) => look.target != Err::<T, FailureKind>(
                FailureKind::PermissionDenied,
            ),
        }
}

/// A process that has a descriptor of a socket on the port is reported as a holder of the port,
/// with that descriptor and its mode, whatever else there is.
pub proof fn lemma_port_holder_is_reported(
    r: Result<(Vec<Holder>, ScanStats), HoldsError>,
    port: u16,
    sockets: Vec<SocketEntry>,
    processes: Vec<SocketProcess>,
    passwd: Option<Seq<char>>,
    s: int,
    i: int,
    k: int,
    fd: i32,
)
    requires
        scan::is_port_scan(
            r,
            port,
            Ok::<Vec<SocketEntry>, IoFailure>(sockets),
            Ok::<Vec<SocketProcess>, IoFailure>(processes),
            passwd,
        ),
        r is Ok,
        0 <= s < sockets@.len(),
        sockets@[s].port == port,
        0 <= i < processes@.len(),
        processes@[i].source.status != Err::<String, FailureKind>(FailureKind::NotFound),
        processes@[i].fds matches Ok(entries) && 0 <= k < entries@.len() && none_denied(entries@)
            && is_open_socket(entries@[k], fd, sockets@[s].inode),
    ensures
        scan::is_reported_with(
            r->Ok_0.0@,
            processes@[i].pid,
            Evidence::Fd(
                fd,
                procfs::mode_of_info(
                    process::opt_view(processes@[i].fds->Ok_0@[k]->Listed_0.info),
                ),
            ),
        ),
{
    let inodes = scan::inodes_on(sockets@, port);
    let inode = sockets@[s].inode;
    let entries = processes@[i].fds->Ok_0;
    let look = entries@[k]->Listed_0;
    let hits = descriptors::socket_among(inodes);
    let mode = procfs::mode_of_info(process::opt_view(look.info));
    assert(inodes.contains(inode));
    assert(inodes != Set::<u64>::empty());
    procfs::lemma_socket_link_reads_back(inode);
    assert(hits(look.target->Ok_0));
    crate::laws::holds::lemma_descriptor_is_found(look, hits, fd);
    lemma_findings(entries, hits);
    descriptors::lemma_descriptor_is_seen(entries, hits, fd, mode);
    assert(descriptors::finding(entries@[k], hits) == FdFinding::Holds(fd, mode));
    scan::lemma_open_socket_is_reported(r, processes@, inodes, passwd, i, fd, mode);
}

proof fn lemma_findings<T>(entries: Vec<FdEntry<T>>, hits: spec_fn(T) -> bool)
    requires
        none_denied(entries@),
    ensures
        forall|k: int|
            0 <= k < entries@.len() ==> descriptors::finding(#[trigger] entries@[k], hits)
                != FdFinding::Denied,
{
    assert forall|k: int| 0 <= k < entries@.len() implies descriptors::finding(
        #[trigger] entries@[k],
        hits,
    ) != FdFinding::Denied by {
    }
}

/// Without a socket on the port nobody holds it, and nobody needs to be looked at.
pub proof fn lemma_port_without_socket(
    r: Result<(Vec<Holder>, ScanStats), HoldsError>,
    port: u16,
    sockets: Vec<SocketEntry>,
    processes: Result<Vec<SocketProcess>, IoFailure>,
    passwd: Option<Seq<char>>,
)
    requires
        scan::is_port_scan(r, port, Ok::<Vec<SocketEntry>, IoFailure>(sockets), processes, passwd),
        forall|s: int| 0 <= s < sockets@.len() ==> (#[trigger] sockets@[s]).port != port,
    ensures
        r matches Ok((holders, stats)) && holders@.len() == 0 && stats.unreadable_processes == 0
            && stats.unreadable_fds == 0 && stats.unreadable_maps == 0,
{
    assert(scan::inodes_on(sockets@, port) =~= Set::<u64>::empty());
}

/// Who is reported as a holder of a port has a descriptor of a socket on it.
pub proof fn lemma_port_holder_has_socket(
    r: Result<(Vec<Holder>, ScanStats), HoldsError>,
    port: u16,
    sockets: Vec<SocketEntry>,
    processes: Vec<SocketProcess>,
    passwd: Option<Seq<char>>,
    k: int,
)
    requires
        scan::is_port_scan(
            r,
            port,
            Ok::<Vec<SocketEntry>, IoFailure>(sockets),
            Ok::<Vec<SocketProcess>, IoFailure>(processes),
            passwd,
        ),
        r is Ok,
        0 <= k < r->Ok_0.0@.len(),
    ensures
        exists|s: int| 0 <= s < sockets@.len() && (#[trigger] sockets@[s]).port == port,
        r->Ok_0.0@[k].evidence@.len() > 0,
        exists|i: int|
            0 <= i < processes@.len() && (#[trigger] processes@[i]).pid == r->Ok_0.0@[k].pid,
{
    let inodes = scan::inodes_on(sockets@, port);
    if inodes =~= Set::<u64>::empty() {
    } else {
        let inode = choose|inode: u64| inodes.contains(inode);
        assert(inodes.contains(inode));
        scan::lemma_reported_holds_socket(r, processes@, inodes, passwd, k);
    }
}

/// The descriptor leads to this file.
pub open spec fn is_open_file(entry: FdEntry<FileId>, fd: i32, target: FileId) -> bool {
    &&& entry matches FdEntry::Listed(look)
    &&& look.name matches Some(name)
    &&& name@ == number::signed_decimal(fd as int)
    &&& look.target matches Ok(id)
    &&& id.dev == target.dev
    &&& id.inode == target.inode
}

/// A process that has the file open is reported as its holder, with that descriptor and its
/// mode, unless its mappings are gone.
pub proof fn lemma_file_holder_is_reported(
    r: Result<(Vec<Holder>, ScanStats), HoldsError>,
    shown: Seq<char>,
    target: FileId,
    processes: Vec<FileProcess>,
    passwd: Option<Seq<char>>,
    i: int,
    k: int,
    fd: i32,
)
    requires
        scan::is_path_scan(
            r,
            shown,
            Ok::<FileId, IoFailure>(target),
            Ok::<Vec<FileProcess>, IoFailure>(processes),
            passwd,
        ),
        r is Ok,
        0 <= i < processes@.len(),
        processes@[i].source.status != Err::<String, FailureKind>(FailureKind::NotFound),
        !(procfs::maps_of(processes@[i].maps) is Gone),
        processes@[i].fds matches Ok(entries) && 0 <= k < entries@.len() && none_denied(entries@)
            && is_open_file(entries@[k], fd, target),
    ensures
        scan::is_reported_with(
            r->Ok_0.0@,
            processes@[i].pid,
            Evidence::Fd(
                fd,
                procfs::mode_of_info(
                    process::opt_view(processes@[i].fds->Ok_0@[k]->Listed_0.info),
                ),
            ),
        ),
{
    let entries = processes@[i].fds->Ok_0;
    let look = entries@[k]->Listed_0;
    let hits = descriptors::this_file(target);
    let mode = procfs::mode_of_info(process::opt_view(look.info));
    assert(hits(look.target->Ok_0));
    crate::laws::holds::lemma_descriptor_is_found(look, hits, fd);
    lemma_findings(entries, hits);
    descriptors::lemma_descriptor_is_seen(entries, hits, fd, mode);
    assert(descriptors::finding(entries@[k], hits) == FdFinding::Holds(fd, mode));
    scan::lemma_open_file_is_reported(
        r,
        processes@,
        target,
        passwd,
        i,
        Evidence::Fd(fd, mode),
    );
}

/// A process that has the file mapped, with the device numbers of the file, is reported as its
/// holder with the permissions of the first such mapping.
pub proof fn lemma_file_mapping_is_reported(
    r: Result<(Vec<Holder>, ScanStats), HoldsError>,
    shown: Seq<char>,
    target: FileId,
    processes: Vec<FileProcess>,
    passwd: Option<Seq<char>>,
    i: int,
    k: int,
)
    requires
        scan::is_path_scan(
            r,
            shown,
            Ok::<FileId, IoFailure>(target),
            Ok::<Vec<FileProcess>, IoFailure>(processes),
            passwd,
        ),
        r is Ok,
        target.inode != 0,
        0 <= i < processes@.len(),
        processes@[i].source.status != Err::<String, FailureKind>(FailureKind::NotFound),
        !(descriptors::fds_of(processes@[i].fds, descriptors::this_file(target)) is Gone),
        procfs::maps_of(processes@[i].maps) matches ProcRead::Done(maps) && 0 <= k < maps.len()
            && maps[k].dev_major == procfs::major_of(target.dev as int) as u32 && maps[k].dev_minor
            == procfs::minor_of(target.dev as int) as u32 && maps[k].inode == target.inode
            && forall|j: int|
            0 <= j < k ==> (#[trigger] maps[j]).dev_major != procfs::major_of(
                target.dev as int,
            ) as u32 || maps[j].dev_minor != procfs::minor_of(target.dev as int) as u32
                || maps[j].inode != target.inode,
    ensures
        scan::is_reported_with(
            r->Ok_0.0@,
            processes@[i].pid,
            Evidence::Mmap(procfs::maps_of(processes@[i].maps)->Done_0[k].perms),
        ),
{
    let maps = procfs::maps_of(processes@[i].maps)->Done_0;
    crate::laws::holds::lemma_mapping_is_found(
        maps,
        k,
        procfs::major_of(target.dev as int) as u32,
        procfs::minor_of(target.dev as int) as u32,
        target.inode,
    );
    scan::lemma_open_file_is_reported(
        r,
        processes@,
        target,
        passwd,
        i,
        Evidence::Mmap(maps[k].perms),
    );
}

/// A scan that fails says why, and one that cannot examine the path says so.
pub proof fn lemma_failed_scans(
    r: Result<(Vec<Holder>, ScanStats), HoldsError>,
    shown: Seq<char>,
    error: IoFailure,
    target: FileId,
    processes: Result<Vec<FileProcess>, IoFailure>,
    passwd: Option<Seq<char>>,
)
    ensures
        scan::is_path_scan(r, shown, Err::<FileId, IoFailure>(error), processes, passwd) ==> (
        r matches Err(e) && e.0@ == shown + (if error.kind == FailureKind::NotFound {
            ": no such file or directory"@
        } else {
            ": "@ + error.message@
        })),
        scan::is_path_scan(
            r,
            shown,
            Ok::<FileId, IoFailure>(target),
            Err::<Vec<FileProcess>, IoFailure>(error),
            passwd,
        ) ==> (r matches Err(e) && e.0@ == error.message@),
{
    assert(shown + ": "@ + error.message@ =~= shown + (": "@ + error.message@));
}

/// The holders stand in the order of their process numbers.
pub proof fn lemma_holders_are_ordered(
    r: Result<(Vec<Holder>, ScanStats), HoldsError>,
    looks: Seq<ProcessLook>,
    passwd: Option<Seq<char>>,
    i: int,
    j: int,
)
    requires
        scan::is_outcome(r, looks, passwd),
        r is Ok,
        0 <= i < j < r->Ok_0.0@.len(),
    ensures
        r->Ok_0.0@[i].pid <= r->Ok_0.0@[j].pid,
{
}

/// Each process is reported at most once.
pub proof fn lemma_holders_are_reported_once(
    r: Result<(Vec<Holder>, ScanStats), HoldsError>,
    looks: Seq<ProcessLook>,
    passwd: Option<Seq<char>>,
    i: int,
    j: int,
)
    requires
        scan::is_outcome(r, looks, passwd),
        r is Ok,
        forall|a: int, b: int|
            0 <= a < b < looks.len() ==> (#[trigger] looks[a]).pid != (#[trigger] looks[b]).pid,
        0 <= i < j < r->Ok_0.0@.len(),
    ensures
        r->Ok_0.0@[i].pid < r->Ok_0.0@[j].pid,
{
    let holders = r->Ok_0.0@;
    let found = choose|found: Seq<Holder>|
        #![trigger scan::are_found(found, looks, passwd)]
        scan::are_found(found, looks, passwd) && scan::is_sorted_by_pid(holders, found);
    if holders[i].pid == holders[j].pid {
        let keep = scan::with_pid(holders[i].pid);
        lemma_found_differ(found, looks, passwd);
        lemma_filter_of_one(found, keep);
        lemma_filter_of_two(holders, keep, i, j);
        assert(holders.filter(keep) == found.filter(keep));
    }
}

proof fn lemma_found_differ(found: Seq<Holder>, looks: Seq<ProcessLook>, passwd: Option<Seq<char>>)
    requires
        scan::are_found(found, looks, passwd),
        forall|a: int, b: int|
            0 <= a < b < looks.len() ==> (#[trigger] looks[a]).pid != (#[trigger] looks[b]).pid,
    ensures
        forall|a: int, b: int|
            0 <= a < b < found.len() ==> (#[trigger] found[a]).pid != (#[trigger] found[b]).pid,
        forall|a: int|
            0 <= a < found.len() ==> exists|k: int|
                0 <= k < looks.len() && (#[trigger] looks[k]).pid == (#[trigger] found[a]).pid,
    decreases looks.len(),
{
    if looks.len() > 0 {
        let rest = looks.drop_last();
        assert forall|a: int, b: int| 0 <= a < b < rest.len() implies (#[trigger] rest[a]).pid != (
        #[trigger] rest[b]).pid by {
            assert(rest[a] == looks[a] && rest[b] == looks[b]);
        }
        let last = looks.last();
        assert(last == looks[looks.len() - 1]);
        if last.is_reported() {
            let init = found.drop_last();
            lemma_found_differ(init, rest, passwd);
            assert forall|a: int| 0 <= a < found.len() implies exists|k: int|
                0 <= k < looks.len() && (#[trigger] looks[k]).pid == (#[trigger] found[a]).pid by {
                if a < init.len() {
                    assert(found[a] == init[a]);
                    let k = choose|k: int|
                        0 <= k < rest.len() && (#[trigger] rest[k]).pid == init[a].pid;
                    assert(looks[k].pid == found[a].pid);
                }
            }
            assert forall|a: int, b: int| 0 <= a < b < found.len() implies (
            #[trigger] found[a]).pid != (#[trigger] found[b]).pid by {
                assert(found[a] == init[a]);
                if b < init.len() {
                    assert(found[b] == init[b]);
                } else {
                    let k = choose|k: int|
                        0 <= k < rest.len() && (#[trigger] rest[k]).pid == init[a].pid;
                    assert(looks[k] == rest[k]);
                }
            }
        } else {
            lemma_found_differ(found, rest, passwd);
            assert forall|a: int| 0 <= a < found.len() implies exists|k: int|
                0 <= k < looks.len() && (#[trigger] looks[k]).pid == (#[trigger] found[a]).pid by {
                let k = choose|k: int|
                    0 <= k < rest.len() && (#[trigger] rest[k]).pid == found[a].pid;
                assert(looks[k].pid == found[a].pid);
            }
        }
    }
}

/// Of elements no two of which satisfy the predicate, at most one is left.
pub proof fn lemma_filter_of_one<T>(s: Seq<T>, keep: spec_fn(T) -> bool)
    requires
        forall|a: int, b: int|
            0 <= a < b < s.len() ==> !(keep(#[trigger] s[a]) && keep(#[trigger] s[b])),
    ensures
        s.filter(keep).len() <= 1,
    decreases s.len(),
{
    reveal(Seq::filter);
    if s.len() > 0 {
        let rest = s.drop_last();
        assert forall|a: int, b: int| 0 <= a < b < rest.len() implies !(keep(#[trigger] rest[a])
            && keep(#[trigger] rest[b])) by {
            assert(rest[a] == s[a] && rest[b] == s[b]);
        }
        lemma_filter_of_one(rest, keep);
        if keep(s.last()) {
            assert forall|a: int| 0 <= a < rest.len() implies !keep(#[trigger] rest[a]) by {
                assert(rest[a] == s[a]);
                assert(s[s.len() - 1] == s.last());
            }
            crate::order::lemma_filter_none(rest, keep);
        }
    }
}

/// Two elements that satisfy the predicate are both left.
pub proof fn lemma_filter_of_two<T>(s: Seq<T>, keep: spec_fn(T) -> bool, i: int, j: int)
    requires
        0 <= i < j < s.len(),
        keep(s[i]),
        keep(s[j]),
    ensures
        s.filter(keep).len() >= 2,
    decreases s.len(),
{
    reveal(Seq::filter);
    let rest = s.drop_last();
    if j < rest.len() {
        lemma_filter_of_two(rest, keep, i, j);
    } else {
        crate::order::lemma_filter_member(rest, keep, s[i]);
        assert(rest[i] == s[i]);
        assert(rest.contains(s[i]));
        assert(rest.filter(keep).len() >= 1);
    }
}

/// How many elements satisfy the predicate grows with each that does.
pub proof fn lemma_counting<T>(s: Seq<T>, x: T, p: spec_fn(T) -> bool)
    ensures
        scan::count(Seq::<T>::empty(), p) == 0,
        scan::count(s.push(x), p) == scan::count(s, p) + (if p(x) {
            1int
        } else {
            0
        }),
{
    assert(s.push(x).drop_last() =~= s);
}

proof fn lemma_counted<T>(s: Seq<T>, p: spec_fn(T) -> bool)
    ensures
        scan::count(s, p) > 0 <==> exists|i: int| 0 <= i < s.len() && p(#[trigger] s[i]),
    decreases s.len(),
{
    if s.len() > 0 {
        let rest = s.drop_last();
        lemma_counted(rest, p);
        assert(s[s.len() - 1] == s.last());
        if scan::count(rest, p) > 0 {
            let i = choose|i: int| 0 <= i < rest.len() && p(#[trigger] rest[i]);
            assert(p(s[i]));
        }
        if exists|i: int| 0 <= i < s.len() && p(#[trigger] s[i]) {
            let i = choose|i: int| 0 <= i < s.len() && p(#[trigger] s[i]);
            if i < rest.len() {
                assert(p(rest[i]));
            }
        }
    }
}

/// A scan for sockets has missed something exactly where the descriptors of a process were
/// denied, and counts those processes.
pub proof fn lemma_denied_processes_are_noted(
    r: Result<(Vec<Holder>, ScanStats), HoldsError>,
    processes: Seq<SocketProcess>,
    inodes: Set<u64>,
    passwd: Option<Seq<char>>,
)
    requires
        scan::is_socket_scan(r, processes, inodes, passwd),
        r is Ok,
    ensures
        r->Ok_0.1.missed_something() == exists|i: int|
            0 <= i < processes.len() && descriptors::fds_of(
                (#[trigger] processes[i]).fds,
                descriptors::socket_among(inodes),
            ) is PermissionDenied,
        r->Ok_0.1.unreadable_fds == 0,
        r->Ok_0.1.unreadable_maps == 0,
{
    let looks = choose|looks: Seq<ProcessLook>|
        #![trigger scan::are_socket_looks(looks, processes, inodes)]
        scan::are_socket_looks(looks, processes, inodes) && scan::is_outcome(r, looks, passwd);
    lemma_counted(looks, scan::fds_denied());
    lemma_counted(looks, scan::maps_denied());
    let denied = |i: int|
        descriptors::fds_of(processes[i].fds, descriptors::socket_among(inodes)) is PermissionDenied;
    assert forall|i: int| 0 <= i < looks.len() implies (#[trigger] looks[i]).fds_denied == denied(
        i,
    ) && !looks[i].maps_denied by {
        assert(scan::is_socket_look(looks[i], processes[i], inodes));
    }
    if r->Ok_0.1.missed_something() {
        let i = choose|i: int| 0 <= i < looks.len() && scan::fds_denied()(#[trigger] looks[i]);
        assert(looks[i].fds_denied);
        assert(denied(i));
        assert(descriptors::fds_of(processes[i].fds, descriptors::socket_among(inodes))
            is PermissionDenied);
    }
    if exists|i: int|
        0 <= i < processes.len() && descriptors::fds_of(
            (#[trigger] processes[i]).fds,
            descriptors::socket_among(inodes),
        ) is PermissionDenied {
        let i = choose|i: int|
            0 <= i < processes.len() && descriptors::fds_of(
                (#[trigger] processes[i]).fds,
                descriptors::socket_among(inodes),
            ) is PermissionDenied;
        assert(denied(i));
        assert(scan::fds_denied()(looks[i]));
    }
}

/// A scan for a file has missed something where the descriptors or the mappings of a process
/// were denied, and counts each.
pub proof fn lemma_denied_files_are_noted(
    r: Result<(Vec<Holder>, ScanStats), HoldsError>,
    processes: Seq<FileProcess>,
    target: FileId,
    passwd: Option<Seq<char>>,
    i: int,
)
    requires
        scan::is_file_scan(r, processes, target, passwd),
        r is Ok,
        0 <= i < processes.len(),
    ensures
        descriptors::fds_of(processes[i].fds, descriptors::this_file(target)) is PermissionDenied
            ==> r->Ok_0.1.unreadable_processes > 0,
        descriptors::fds_of(processes[i].fds, descriptors::this_file(target)) is Done
            && scan::mapping_in(processes[i], target) is PermissionDenied
            ==> r->Ok_0.1.unreadable_maps > 0,
        r->Ok_0.1.unreadable_fds == 0,
{
    let looks = choose|looks: Seq<ProcessLook>|
        #![trigger scan::are_file_looks(looks, processes, target)]
        scan::are_file_looks(looks, processes, target) && scan::is_outcome(r, looks, passwd);
    lemma_counted(looks, scan::fds_denied());
    lemma_counted(looks, scan::maps_denied());
    assert(scan::is_file_look(looks[i], processes[i], target));
    if looks[i].fds_denied {
        assert(scan::fds_denied()(looks[i]));
    }
    if looks[i].maps_denied {
        assert(scan::maps_denied()(looks[i]));
    }
}

/// Who is reported was there when it was looked at, and showed something.
pub proof fn lemma_reported_are_there(
    r: Result<(Vec<Holder>, ScanStats), HoldsError>,
    looks: Seq<ProcessLook>,
    passwd: Option<Seq<char>>,
    k: int,
)
    requires
        scan::is_outcome(r, looks, passwd),
        r is Ok,
        0 <= k < r->Ok_0.0@.len(),
    ensures
        exists|i: int|
            0 <= i < looks.len() && (#[trigger] looks[i]).pid == r->Ok_0.0@[k].pid
                && looks[i].source.status != Err::<String, FailureKind>(FailureKind::NotFound)
                && looks[i].evidence@.len() > 0 && r->Ok_0.0@[k].evidence@ == looks[i].evidence@,
{
    scan::lemma_scan_is_complete(r, looks, passwd);
    let holder = r->Ok_0.0@[k];
    assert(scan::has_look(holder, looks, passwd));
    let i = choose|i: int|
        0 <= i < looks.len() && scan::comes_from(holder, #[trigger] looks[i], passwd);
    assert(looks[i].pid == holder.pid);
}

/// A process that is gone, or whose mappings are, shows nothing.
pub proof fn lemma_gone_processes_show_nothing(
    look: ProcessLook,
    process: FileProcess,
    target: FileId,
)
    requires
        scan::is_file_look(look, process, target),
    ensures
        descriptors::fds_of(process.fds, descriptors::this_file(target)) is Gone
            ==> look.evidence@.len() == 0 && !look.fds_denied && !look.maps_denied && look.broken
            is None,
        procfs::maps_of(process.maps) is Gone ==> look.evidence@.len() == 0 && !look.maps_denied,
{
}

/// A process whose descriptors are denied still shows the mapping of the file.
pub proof fn lemma_denied_process_shows_mapping(
    look: ProcessLook,
    process: FileProcess,
    target: FileId,
    perms: MmapPerms,
)
    requires
        scan::is_file_look(look, process, target),
        descriptors::fds_of(process.fds, descriptors::this_file(target)) is PermissionDenied,
        scan::mapping_in(process, target) == ProcRead::Done(Some(perms)),
    ensures
        look.fds_denied,
        look.evidence@.contains(Evidence::Mmap(perms)),
        forall|e: Evidence| look.evidence@.contains(e) ==> e == Evidence::Mmap(perms),
{
    assert forall|e: Evidence| look.evidence@.contains(e) implies e == Evidence::Mmap(perms) by {
        assert(evidence::shows(e, Seq::empty(), Some(perms)));
    }
    assert(evidence::shows(Evidence::Mmap(perms), Seq::empty(), Some(perms)));
}

proof fn lemma_first_broken(looks: Seq<ProcessLook>, k: int)
    requires
        0 <= k < looks.len(),
        looks[k].broken is Some,
        forall|j: int| 0 <= j < k ==> (#[trigger] looks[j]).broken is None,
    ensures
        scan::first_broken(looks) == looks[k].broken,
    decreases k,
{
    if k > 0 {
        assert(looks[0].broken is None);
        let more = looks.skip(1);
        assert forall|j: int| 0 <= j < k - 1 implies (#[trigger] more[j]).broken is None by {
            assert(more[j] == looks[j + 1]);
        }
        lemma_first_broken(more, k - 1);
    }
}

proof fn lemma_none_broken(looks: Seq<ProcessLook>)
    requires
        forall|j: int| 0 <= j < looks.len() ==> (#[trigger] looks[j]).broken is None,
    ensures
        scan::first_broken(looks) is None,
    decreases looks.len(),
{
    if looks.len() > 0 {
        assert(looks[0].broken is None);
        let more = looks.skip(1);
        assert forall|j: int| 0 <= j < more.len() implies (#[trigger] more[j]).broken is None by {
            assert(more[j] == looks[j + 1]);
        }
        lemma_none_broken(more);
    }
}

/// The first process whose descriptors cannot be read, for another reason than that it is gone
/// or may not be looked at, ends the scan with that reason; without one the scan succeeds.
pub proof fn lemma_broken_process_ends_scan(
    r: Result<(Vec<Holder>, ScanStats), HoldsError>,
    processes: Seq<SocketProcess>,
    inodes: Set<u64>,
    passwd: Option<Seq<char>>,
    k: int,
)
    requires
        scan::is_socket_scan(r, processes, inodes, passwd),
        0 <= k <= processes.len(),
        k < processes.len() ==> (processes[k].fds matches Err(error) && error.kind
            == FailureKind::Other),
        forall|j: int|
            0 <= j < k ==> !((#[trigger] processes[j]).fds matches Err(error) && error.kind
                == FailureKind::Other),
    ensures
        k < processes.len() ==> (r matches Err(e) && processes[k].fds matches Err(error) && e.0@
            == error.message@),
        k == processes.len() ==> r is Ok,
{
    let looks = choose|looks: Seq<ProcessLook>|
        #![trigger scan::are_socket_looks(looks, processes, inodes)]
        scan::are_socket_looks(looks, processes, inodes) && scan::is_outcome(r, looks, passwd);
    assert forall|j: int| 0 <= j < k implies (#[trigger] looks[j]).broken is None by {
        assert(scan::is_socket_look(looks[j], processes[j], inodes));
        assert(!(processes[j].fds matches Err(error) && error.kind == FailureKind::Other));
    }
    if k < processes.len() {
        assert(scan::is_socket_look(looks[k], processes[k], inodes));
        lemma_first_broken(looks, k);
    } else {
        lemma_none_broken(looks);
    }
}

/// A failure to list the sockets or the processes ends the scan for a port with that failure.
pub proof fn lemma_failed_port_scans(
    r: Result<(Vec<Holder>, ScanStats), HoldsError>,
    port: u16,
    error: IoFailure,
    sockets: Vec<SocketEntry>,
    processes: Result<Vec<SocketProcess>, IoFailure>,
    passwd: Option<Seq<char>>,
    s: int,
)
    ensures
        scan::is_port_scan(r, port, Err::<Vec<SocketEntry>, IoFailure>(error), processes, passwd)
            ==> (r matches Err(e) && e.0@ == error.message@),
        0 <= s < sockets@.len() && sockets@[s].port == port && scan::is_port_scan(
            r,
            port,
            Ok::<Vec<SocketEntry>, IoFailure>(sockets),
            Err::<Vec<SocketProcess>, IoFailure>(error),
            passwd,
        ) ==> (r matches Err(e) && e.0@ == error.message@),
{
    if 0 <= s < sockets@.len() && sockets@[s].port == port {
        assert(scan::inodes_on(sockets@, port).contains(sockets@[s].inode));
    }
}

/// The inodes that count for a port are those of the sockets on it, and no others.
pub proof fn lemma_inodes_of_port(sockets: Seq<SocketEntry>, port: u16, inode: u64)
    ensures
        scan::inodes_on(sockets, port).contains(inode) == exists|s: int|
            0 <= s < sockets.len() && (#[trigger] sockets[s]).port == port && sockets[s].inode
                == inode,
{
}

/// The descriptors that are reported are those that were found, as often as they were found, in
/// the order of their numbers.
pub proof fn lemma_descriptors_are_listed(
    r: ProcRead<Vec<(i32, FdMode)>>,
    fds: Seq<(i32, FdMode)>,
    x: (i32, FdMode),
)
    requires
        descriptors::reports_fds(r, ProcRead::Done(fds)),
    ensures
        r matches ProcRead::Done(sorted) && sorted@.len() == fds.len() && sorted@.contains(x)
            == fds.contains(x) && forall|a: int, b: int|
            0 <= a < b < sorted@.len() ==> (#[trigger] sorted@[a]).0 <= (#[trigger] sorted@[b]).0,
{
    let sorted = r->Done_0@;
    sorted.to_multiset_ensures();
    fds.to_multiset_ensures();
    assert(sorted.to_multiset().count(x) == fds.to_multiset().count(x));
    assert(sorted.len() == sorted.to_multiset().len());
}

/// One of the descriptors of the process has this number and leads to a socket on the port.
pub open spec fn leads_to_port(
    process: SocketProcess,
    fd: i32,
    sockets: Seq<SocketEntry>,
    port: u16,
) -> bool {
    exists|n: int, s: int|
        #![trigger process.fds->Ok_0@[n], sockets[s]]
        process.fds is Ok && 0 <= n < process.fds->Ok_0@.len() && 0 <= s < sockets.len()
            && sockets[s].port == port && process.fds->Ok_0@[n] is Listed && (
        process.fds->Ok_0@[n]->Listed_0.name matches Some(name) && number::parse_int32(name@)
            == Some(fd as int)) && (process.fds->Ok_0@[n]->Listed_0.target matches Ok(link)
            && procfs::socket_inode(bytes::lossy(link@)) == Some(sockets[s].inode as int))
}

/// A process that is reported for a port shows only descriptors that lead to sockets on it.
pub proof fn lemma_reported_descriptors_lead_to_port(
    r: Result<(Vec<Holder>, ScanStats), HoldsError>,
    port: u16,
    sockets: Vec<SocketEntry>,
    processes: Vec<SocketProcess>,
    passwd: Option<Seq<char>>,
    k: int,
    e: Evidence,
)
    requires
        scan::is_port_scan(
            r,
            port,
            Ok::<Vec<SocketEntry>, IoFailure>(sockets),
            Ok::<Vec<SocketProcess>, IoFailure>(processes),
            passwd,
        ),
        r is Ok,
        0 <= k < r->Ok_0.0@.len(),
        r->Ok_0.0@[k].evidence@.contains(e),
    ensures
        e matches Evidence::Fd(fd, _) && exists|i: int|
            0 <= i < processes@.len() && (#[trigger] processes@[i]).pid == r->Ok_0.0@[k].pid
                && leads_to_port(processes@[i], fd, sockets@, port),
{
    let inodes = scan::inodes_on(sockets@, port);
    let hits = descriptors::socket_among(inodes);
    if inodes =~= Set::<u64>::empty() {
    } else {
        scan::lemma_reported_holds_socket(r, processes@, inodes, passwd, k);
        let i = choose|i: int|
            0 <= i < processes@.len() && (#[trigger] processes@[i]).pid == r->Ok_0.0@[k].pid
                && forall|e: Evidence| #[trigger]
                r->Ok_0.0@[k].evidence@.contains(e) ==> evidence::shows(
                    e,
                    scan::seen_fds(descriptors::fds_of(processes@[i].fds, hits)),
                    None,
                );
        let outcome = descriptors::fds_of(processes@[i].fds, hits);
        assert(evidence::shows(e, scan::seen_fds(outcome), None));
        if let Evidence::Fd(fd, mode) = e {
            lemma_descriptor_leads_to_port(processes@[i], fd, mode, sockets@, port);
            assert(processes@[i].pid == r->Ok_0.0@[k].pid);
        }
    }
}

proof fn lemma_descriptor_leads_to_port(
    process: SocketProcess,
    fd: i32,
    mode: FdMode,
    sockets: Seq<SocketEntry>,
    port: u16,
)
    requires
        scan::seen_fds(
            descriptors::fds_of(
                process.fds,
                descriptors::socket_among(scan::inodes_on(sockets, port)),
            ),
        ).contains((fd, mode)),
    ensures
        leads_to_port(process, fd, sockets, port),
{
    let inodes = scan::inodes_on(sockets, port);
    let hits = descriptors::socket_among(inodes);
    let entries = process.fds->Ok_0;
    let findings = entries@.map_values(
        |entry: FdEntry<FilePath>| descriptors::finding(entry, hits),
    );
    assert(process.fds is Ok);
    assert forall|n: int| 0 <= n < entries@.len() implies descriptors::finding(
        #[trigger] entries@[n],
        hits,
    ) != FdFinding::Denied by {
        assert(findings[n] == descriptors::finding(entries@[n], hits));
        if findings[n] == FdFinding::Denied {
            assert(findings.contains(FdFinding::Denied));
        }
    }
    descriptors::lemma_descriptor_is_seen(entries, hits, fd, mode);
    let n = choose|n: int|
        0 <= n < entries@.len() && descriptors::finding(#[trigger] entries@[n], hits)
            == FdFinding::Holds(fd, mode);
    let look = entries@[n]->Listed_0;
    let link = look.target->Ok_0;
    assert(hits(link));
    let inode = procfs::socket_inode(bytes::lossy(link@))->0;
    assert(inodes.contains(inode as u64));
    let s = choose|s: int|
        0 <= s < sockets.len() && (#[trigger] sockets[s]).port == port && sockets[s].inode
            == inode as u64;
    lemma_inode_fits(bytes::lossy(link@));
    lemma_number_fits(look.name->0@);
    assert(sockets[s].port == port);
    assert(process.fds->Ok_0@[n] == entries@[n]);
}

proof fn lemma_inode_fits(link: Seq<char>)
    requires
        procfs::socket_inode(link) is Some,
    ensures
        0 <= procfs::socket_inode(link)->0 <= u64::MAX,
{
    let rest = link.skip("socket:["@.len() as int);
    crate::laws::number::lemma_only_digits_are_read(rest.drop_last(), 10, u64::MAX as int);
}

proof fn lemma_number_fits(name: Seq<char>)
    requires
        number::parse_int32(name) is Some,
    ensures
        i32::MIN <= number::parse_int32(name)->0 <= i32::MAX,
{
    if name.len() > 0 && name[0] == '-' {
        crate::laws::number::lemma_not_negative(name.skip(1), 10);
    } else {
        crate::laws::number::lemma_only_digits_are_read(name, 10, i32::MAX as int);
    }
}

/// How many processes had their descriptors denied.
pub open spec fn denied_descriptors(looks: Seq<ProcessLook>) -> int
    decreases looks.len(),
{
    if looks.len() == 0 {
        0
    } else {
        denied_descriptors(looks.drop_last()) + (if looks.last().fds_denied {
            1int
        } else {
            0
        })
    }
}

/// How many processes had their mappings denied.
pub open spec fn denied_mappings(looks: Seq<ProcessLook>) -> int
    decreases looks.len(),
{
    if looks.len() == 0 {
        0
    } else {
        denied_mappings(looks.drop_last()) + (if looks.last().maps_denied {
            1int
        } else {
            0
        })
    }
}

proof fn lemma_denied_counts(looks: Seq<ProcessLook>)
    ensures
        scan::count(looks, scan::fds_denied()) == denied_descriptors(looks),
        scan::count(looks, scan::maps_denied()) == denied_mappings(looks),
    decreases looks.len(),
{
    if looks.len() > 0 {
        lemma_denied_counts(looks.drop_last());
    }
}

/// What could not be looked at is counted process by process.
pub proof fn lemma_denied_are_counted(
    r: Result<(Vec<Holder>, ScanStats), HoldsError>,
    looks: Seq<ProcessLook>,
    passwd: Option<Seq<char>>,
)
    requires
        scan::is_outcome(r, looks, passwd),
        r is Ok,
    ensures
        r->Ok_0.1.unreadable_processes == denied_descriptors(looks),
        r->Ok_0.1.unreadable_maps == denied_mappings(looks),
        r->Ok_0.1.unreadable_fds == 0,
{
    lemma_denied_counts(looks);
}

/// What a look at the files of a process says about denials and failures.
pub proof fn lemma_file_look(look: ProcessLook, process: FileProcess, target: FileId)
    requires
        scan::is_file_look(look, process, target),
    ensures
        ({
            let fds = descriptors::fds_of(process.fds, descriptors::this_file(target));
            let maps = procfs::maps_of(process.maps);
            &&& look.pid == process.pid
            &&& look.source == process.source
            &&& look.fds_denied == (fds is PermissionDenied)
            &&& fds is Done && maps is PermissionDenied ==> look.maps_denied
            &&& fds is PermissionDenied && maps is PermissionDenied ==> look.maps_denied
            &&& !(maps is PermissionDenied) ==> !look.maps_denied
            &&& fds matches ProcRead::Fatal(error) ==> look.broken == Some(error)
            &&& fds is Done ==> (maps matches ProcRead::Fatal(error) ==> look.broken == Some(error))
            &&& fds is PermissionDenied ==> (maps matches ProcRead::Fatal(error) ==> look.broken
                == Some(error))
            &&& !(fds is Fatal) && !(maps is Fatal) ==> look.broken is None
        }),
{
}

/// The first process that breaks ends the scan with its failure; without one it succeeds.
pub proof fn lemma_broken_look_ends_scan(
    r: Result<(Vec<Holder>, ScanStats), HoldsError>,
    looks: Seq<ProcessLook>,
    passwd: Option<Seq<char>>,
    k: int,
)
    requires
        scan::is_outcome(r, looks, passwd),
        0 <= k <= looks.len(),
        k < looks.len() ==> looks[k].broken is Some,
        forall|j: int| 0 <= j < k ==> (#[trigger] looks[j]).broken is None,
    ensures
        k < looks.len() ==> (r matches Err(e) && looks[k].broken matches Some(error) && e.0@
            == error.message@),
        k == looks.len() ==> r is Ok,
{
    if k < looks.len() {
        lemma_first_broken(looks, k);
    } else {
        lemma_none_broken(looks);
    }
}

/// Digits that write no port, and no digits at all, are refused with the text itself.
pub proof fn lemma_refused_ports(s: Seq<char>)
    ensures
        holds::invalid_port(s) == "invalid port: "@ + s,
        holds::all_digits(Seq::<char>::empty()),
        holds::port_of(Seq::<char>::empty()) is None,
        holds::port_of(s) matches Some(port) ==> 1 <= port <= 65535 && number::parse_uint(
            s,
            10,
            u32::MAX as int,
        ) == Some(port),
{
}

} // verus!
