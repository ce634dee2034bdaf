//! Going through the processes to find the holders.

use crate::bytes;
use crate::failure::{FailureKind, FileLines, IoFailure, ProcRead};
use crate::filepath::FilePath;
use crate::holds::descriptors;
use crate::holds::descriptors::{
    scan_pid_fds_for_file, scan_pid_fds_for_sockets, scan_pid_maps_for_file, FdEntry,
};
use crate::holds::evidence;
use crate::holds::evidence::{copy_evidence, order_evidence};
use crate::holds::holder;
use crate::holds::holder::{read_holder, HolderSource};
use crate::holds::procfs;
use crate::holds::procfs::dev_major_minor;
use crate::holds::{
    Evidence, FdMode, FileId, Holder, HoldsError, MmapPerms, ScanStats, SocketEntry,
};
use crate::order;
use crate::process;
use crate::text::{cat2, cat3};
use std::collections::BTreeSet;
use vstd::prelude::*;

verus! {

broadcast use vstd::std_specs::btree::group_btree_axioms;

// ---------------------------------------------------------------------------
// Going through the processes
// ---------------------------------------------------------------------------

/// What looking at one process gave.
#[derive(Debug)]
pub struct ProcessLook {
    pub pid: u32,
    /// A read that is broken, which ends the whole scan.
    pub broken: Option<IoFailure>,
    /// The descriptors could not be looked at.
    pub fds_denied: bool,
    /// The mappings could not be looked at.
    pub maps_denied: bool,
    /// What shows that the process holds the target.
    pub evidence: Vec<Evidence>,
    /// What the process tells about itself.
    pub source: HolderSource,
}

impl ProcessLook {
    /// The process is reported as a holder.
    pub open spec fn is_reported(self) -> bool {
        self.evidence@.len() > 0 && !self.source.is_gone()
    }
}

/// The first broken read.
pub open spec fn first_broken(looks: Seq<ProcessLook>) -> Option<IoFailure>
    decreases looks.len(),
{
    if looks.len() == 0 {
        None
    } else {
        match looks[0].broken {
            Some(error) => Some(error),
            None => first_broken(looks.skip(1)),
        }
    }
}

/// The predicate "its descriptors could not be looked at".
pub open spec fn fds_denied() -> spec_fn(ProcessLook) -> bool {
    |look: ProcessLook| look.fds_denied
}

/// The predicate "its mappings could not be looked at".
pub open spec fn maps_denied() -> spec_fn(ProcessLook) -> bool {
    |look: ProcessLook| look.maps_denied
}

/// How many elements satisfy a predicate.
pub open spec fn count<T>(s: Seq<T>, p: spec_fn(T) -> bool) -> nat
    decreases s.len(),
{
    if s.len() == 0 {
        0
    } else {
        count(s.drop_last(), p) + (if p(s.last()) {
            1nat
        } else {
            0
        })
    }
}

proof fn lemma_count_bound<T>(s: Seq<T>, p: spec_fn(T) -> bool)
    ensures
        count(s, p) <= s.len(),
    decreases s.len(),
{
    if s.len() > 0 {
        lemma_count_bound(s.drop_last(), p);
    }
}

/// What the scan could not look at.
pub open spec fn is_tally(stats: ScanStats, looks: Seq<ProcessLook>) -> bool {
    &&& stats.unreadable_processes == count(looks, fds_denied())
    &&& stats.unreadable_fds == 0
    &&& stats.unreadable_maps == count(looks, maps_denied())
}

/// `found` lists the reported processes, in the order in which they were looked at.
pub open spec fn are_found(
    found: Seq<Holder>,
    looks: Seq<ProcessLook>,
    passwd: Option<Seq<char>>,
) -> bool
    decreases looks.len(),
{
    if looks.len() == 0 {
        found.len() == 0
    } else if looks.last().is_reported() {
        &&& found.len() > 0
        &&& holder::is_holder(
            found.last(),
            looks.last().pid,
            looks.last().evidence@,
            looks.last().source,
            passwd,
        )
        &&& are_found(found.drop_last(), looks.drop_last(), passwd)
    } else {
        are_found(found, looks.drop_last(), passwd)
    }
}

/// The predicate "is the process `pid`".
pub open spec fn with_pid(pid: u32) -> spec_fn(Holder) -> bool {
    |holder: Holder| holder.pid == pid
}

/// The holders are in ascending order of their process numbers.
pub open spec fn by_pid(holders: Seq<Holder>) -> bool {
    forall|i: int, j: int|
        0 <= i < j < holders.len() ==> (#[trigger] holders[i]).pid <= (#[trigger] holders[j]).pid
}

/// `sorted` holds what `found` holds, in ascending order of the process numbers; holders
/// with the same number keep their order.
pub open spec fn is_sorted_by_pid(sorted: Seq<Holder>, found: Seq<Holder>) -> bool {
    &&& by_pid(sorted)
    &&& forall|pid: u32| #[trigger] sorted.filter(with_pid(pid)) == found.filter(with_pid(pid))
}

/// The outcome of a scan in which the processes gave these looks.
pub open spec fn is_outcome(
    r: Result<(Vec<Holder>, ScanStats), HoldsError>,
    looks: Seq<ProcessLook>,
    passwd: Option<Seq<char>>,
) -> bool {
    match first_broken(looks) {
        Some(error) => r matches Err(e) && e.0@ == error.message@,
        None => {
            &&& r matches Ok((holders, stats))
            &&& is_tally(stats, looks)
            &&& exists|found: Seq<Holder>|
                #![trigger are_found(found, looks, passwd)]
                are_found(found, looks, passwd) && is_sorted_by_pid(holders@, found)
        },
    }
}

/// Sorts holders by their process numbers.
pub fn sort_holders(found: Vec<Holder>) -> (r: Vec<Holder>)
    ensures
        is_sorted_by_pid(r@, found@),
{
    let ghost all = found@;
    let mut rest = found;
    let mut sorted: Vec<Holder> = Vec::new();
    proof {
        assert forall|pid: u32| #[trigger] sorted@.filter(with_pid(pid)) == all.skip(
            all.len() as int,
        ).filter(with_pid(pid)) by {
            assert(sorted@ =~= all.skip(all.len() as int));
        }
    }
    assert(all.take(all.len() as int) =~= all);
    while rest.len() > 0
        invariant
            rest@.len() <= all.len(),
            rest@ == all.take(rest@.len() as int),
            by_pid(sorted@),
            forall|pid: u32| #[trigger]
                sorted@.filter(with_pid(pid)) == all.skip(rest@.len() as int).filter(
                    with_pid(pid),
                ),
        decreases rest@.len(),
    {
        let ghost before = rest@;
        let item: Holder = match rest.pop() {
            Some(item) => item,
            None => return sorted,
        };
        let ghost n = rest@.len() as int;
        assert(item == all[n]);
        assert(rest@ =~= all.take(n));
        let mut at: usize = 0;
        while at < sorted.len() && sorted[at].pid < item.pid
            invariant
                at <= sorted@.len(),
                by_pid(sorted@),
                forall|k: int| 0 <= k < at ==> (#[trigger] sorted@[k]).pid < item.pid,
            decreases sorted@.len() - at,
        {
            at += 1;
        }
        let ghost older = sorted@;
        proof {
            assert forall|pid: u32| #[trigger] older.insert(at as int, item).filter(with_pid(pid))
                == all.skip(n).filter(with_pid(pid)) by {
                let keep = with_pid(pid);
                order::lemma_insert_first(older, at as int, item, keep);
                let later = all.skip(n + 1);
                assert(all.skip(n) =~= later.insert(0, item));
                order::lemma_insert_first(later, 0, item, keep);
                assert(older.filter(keep) == later.filter(keep));
            }
        }
        sorted.insert(at, item);
        proof {
            assert forall|i: int, j: int| 0 <= i < j < sorted@.len() implies (
            #[trigger] sorted@[i]).pid <= (#[trigger] sorted@[j]).pid by {
                if i != at {
                    assert(sorted@[i] == older[if i < at {
                        i
                    } else {
                        i - 1
                    }]);
                }
                if j != at {
                    assert(sorted@[j] == older[if j < at {
                        j
                    } else {
                        j - 1
                    }]);
                }
            }
        }
    }
    assert(all.skip(0) =~= all);
    sorted
}

/// Gathers the holders that the processes gave, and counts what could not be looked at.
pub fn collect_holders(looks: &Vec<ProcessLook>, passwd: &Option<String>) -> (r: Result<
    (Vec<Holder>, ScanStats),
    HoldsError,
>)
    ensures
        is_outcome(r, looks@, process::opt_view(*passwd)),
{
    let ghost names = process::opt_view(*passwd);
    let mut found: Vec<Holder> = Vec::new();
    let mut stats = ScanStats { unreadable_processes: 0, unreadable_fds: 0, unreadable_maps: 0 };
    let mut i: usize = 0;
    assert(looks@.skip(0) =~= looks@);
    while i < looks.len()
        invariant
            i <= looks@.len(),
            names == process::opt_view(*passwd),
            first_broken(looks@.skip(i as int)) == first_broken(looks@),
            is_tally(stats, looks@.take(i as int)),
            are_found(found@, looks@.take(i as int), names),
        decreases looks@.len() - i,
    {
        let ghost now = looks@.take(i + 1);
        proof {
            assert(looks@.skip(i as int)[0] == looks@[i as int]);
            assert(looks@.skip(i as int).skip(1) =~= looks@.skip(i + 1));
            assert(now.drop_last() =~= looks@.take(i as int));
            assert(now.last() == looks@[i as int]);
            lemma_count_bound(looks@.take(i as int), fds_denied());
            lemma_count_bound(looks@.take(i as int), maps_denied());
        }
        let look = &looks[i];
        if let Some(error) = &look.broken {
            return Err(HoldsError(error.message.clone()));
        }
        if look.fds_denied {
            stats.unreadable_processes = stats.unreadable_processes + 1;
        }
        if look.maps_denied {
            stats.unreadable_maps = stats.unreadable_maps + 1;
        }
        if look.evidence.len() > 0 {
            let evidence = copy_evidence(&look.evidence);
            if let Some(holder) = read_holder(look.pid, evidence, &look.source, passwd) {
                let ghost before = found@;
                found.push(holder);
                assert(found@.drop_last() =~= before);
            }
        }
        i += 1;
    }
    proof {
        assert(looks@.take(i as int) =~= looks@);
        assert(looks@.skip(i as int).len() == 0);
        assert(are_found(found@, looks@, names));
    }
    let holders = sort_holders(found);
    Ok((holders, stats))
}

// ---------------------------------------------------------------------------
// Scanning for sockets
// ---------------------------------------------------------------------------

/// A process as far as sockets are concerned.
#[derive(Debug)]
pub struct SocketProcess {
    pub pid: u32,
    /// The descriptors, each with the place that its link leads to.
    pub fds: Result<Vec<FdEntry<FilePath>>, IoFailure>,
    pub source: HolderSource,
}

/// The look says what the descriptors of the process say about the sockets. A process
/// that has ended says nothing.
pub open spec fn is_socket_look(
    look: ProcessLook,
    process: SocketProcess,
    inodes: Set<u64>,
) -> bool {
    &&& look.pid == process.pid
    &&& look.source == process.source
    &&& !look.maps_denied
    &&& match descriptors::fds_of(process.fds, descriptors::socket_among(inodes)) {
        ProcRead::Done(fds) => {
            &&& look.broken is None
            &&& !look.fds_denied
            &&& evidence::is_evidence(look.evidence@, fds, None)
        },
        ProcRead::PermissionDenied => {
            &&& look.broken is None
            &&& look.fds_denied
            &&& look.evidence@.len() == 0
        },
        ProcRead::Gone => {
            &&& look.broken is None
            &&& !look.fds_denied
            &&& look.evidence@.len() == 0
        },
        ProcRead::Fatal(error) => {
            &&& look.broken == Some(error)
            &&& !look.fds_denied
            &&& look.evidence@.len() == 0
        },
    }
}

/// Each look is at the process in the same place.
pub open spec fn are_socket_looks(
    looks: Seq<ProcessLook>,
    processes: Seq<SocketProcess>,
    inodes: Set<u64>,
) -> bool {
    &&& looks.len() == processes.len()
    &&& forall|i: int|
        0 <= i < looks.len() ==> is_socket_look(#[trigger] looks[i], processes[i], inodes)
}

fn empty_look(pid: u32, source: HolderSource) -> (r: ProcessLook)
    ensures
        r.pid == pid,
        r.source == source,
        r.broken is None,
        !r.fds_denied,
        !r.maps_denied,
        r.evidence@.len() == 0,
{
    ProcessLook {
        pid,
        broken: None,
        fds_denied: false,
        maps_denied: false,
        evidence: Vec::new(),
        source,
    }
}

fn look_for_sockets(process: SocketProcess, inodes: &BTreeSet<u64>) -> (r: ProcessLook)
    ensures
        is_socket_look(r, process, inodes@),
{
    let SocketProcess { pid, fds, source } = process;
    let ghost outcome = descriptors::fds_of(fds, descriptors::socket_among(inodes@));
    let mut look = empty_look(pid, source);
    match scan_pid_fds_for_sockets(&fds, inodes) {
        ProcRead::Done(found) => {
            look.evidence = order_evidence(&found, None);
            proof {
                if let ProcRead::Done(seen) = outcome {
                    evidence::lemma_same_evidence(look.evidence@, found@, seen, None);
                }
            }
        },
        ProcRead::PermissionDenied => {
            look.fds_denied = true;
        },
        ProcRead::Gone => {},
        ProcRead::Fatal(error) => {
            look.broken = Some(error);
        },
    }
    look
}

/// Looks at each process for descriptors of the sockets.
pub fn look_at_sockets(processes: Vec<SocketProcess>, inodes: &BTreeSet<u64>) -> (r: Vec<
    ProcessLook,
>)
    ensures
        are_socket_looks(r@, processes@, inodes@),
{
    let ghost all = processes@;
    let mut rest = processes;
    let mut looks: Vec<ProcessLook> = Vec::new();
    let mut i: usize = 0;
    let n: usize = rest.len();
    while i < n
        invariant
            i <= n,
            n == all.len(),
            rest@ == all.skip(i as int),
            are_socket_looks(looks@, all.take(i as int), inodes@),
        decreases n - i,
    {
        let process = rest.remove(0);
        proof {
            assert(process == all[i as int]);
            assert(rest@ =~= all.skip(i + 1));
        }
        let look = look_for_sockets(process, inodes);
        looks.push(look);
        i += 1;
    }
    assert(all.take(i as int) =~= all);
    looks
}

/// The outcome of a scan for sockets.
pub open spec fn is_socket_scan(
    r: Result<(Vec<Holder>, ScanStats), HoldsError>,
    processes: Seq<SocketProcess>,
    inodes: Set<u64>,
    passwd: Option<Seq<char>>,
) -> bool {
    exists|looks: Seq<ProcessLook>|
        #![trigger are_socket_looks(looks, processes, inodes)]
        are_socket_looks(looks, processes, inodes) && is_outcome(r, looks, passwd)
}

/// The processes that hold one of the sockets.
pub fn scan_socket_holders(
    processes: Vec<SocketProcess>,
    target_inodes: &BTreeSet<u64>,
    passwd: &Option<String>,
) -> (r: Result<(Vec<Holder>, ScanStats), HoldsError>)
    ensures
        is_socket_scan(r, processes@, target_inodes@, process::opt_view(*passwd)),
{
    let looks = look_at_sockets(processes, target_inodes);
    collect_holders(&looks, passwd)
}

/// The numbers of the sockets on a port.
pub open spec fn inodes_on(sockets: Seq<SocketEntry>, port: u16) -> Set<u64> {
    Set::new(
        |inode: u64|
            exists|i: int|
                0 <= i < sockets.len() && (#[trigger] sockets[i]).port == port && sockets[i].inode
                    == inode,
    )
}

/// The numbers of the sockets on a port.
pub fn target_inodes(sockets: &Vec<SocketEntry>, port: u16) -> (r: BTreeSet<u64>)
    ensures
        r@ == inodes_on(sockets@, port),
{
    let mut inodes: BTreeSet<u64> = BTreeSet::new();
    let mut i: usize = 0;
    assert(inodes@ =~= inodes_on(sockets@.take(0), port));
    while i < sockets.len()
        invariant
            i <= sockets@.len(),
            inodes@ == inodes_on(sockets@.take(i as int), port),
        decreases sockets@.len() - i,
    {
        let socket = sockets[i];
        let ghost before = inodes@;
        if socket.port == port {
            inodes.insert(socket.inode);
        }
        proof {
            let prefix = sockets@.take(i as int);
            let next = sockets@.take(i + 1);
            assert(next[i as int] == socket);
            assert forall|inode: u64| inodes@.contains(inode) <==> inodes_on(next, port).contains(
                inode,
            ) by {
                if before.contains(inode) {
                    let k = choose|k: int|
                        0 <= k < prefix.len() && (#[trigger] prefix[k]).port == port
                            && prefix[k].inode == inode;
                    assert(next[k] == prefix[k]);
                }
                if inodes_on(next, port).contains(inode) {
                    let k = choose|k: int|
                        0 <= k < next.len() && (#[trigger] next[k]).port == port && next[k].inode
                            == inode;
                    if k < i {
                        assert(prefix[k] == next[k]);
                    }
                }
            }
            assert(inodes@ =~= inodes_on(next, port));
        }
        i += 1;
    }
    assert(sockets@.take(i as int) =~= sockets@);
    inodes
}

/// The outcome of asking who holds a port. With no socket on the port nothing is held,
/// whatever the processes are.
pub open spec fn is_port_scan(
    r: Result<(Vec<Holder>, ScanStats), HoldsError>,
    port: u16,
    sockets: Result<Vec<SocketEntry>, IoFailure>,
    processes: Result<Vec<SocketProcess>, IoFailure>,
    passwd: Option<Seq<char>>,
) -> bool {
    match sockets {
        Err(error) => r matches Err(e) && e.0@ == error.message@,
        Ok(entries) => if inodes_on(entries@, port) == Set::<u64>::empty() {
            &&& r matches Ok((holders, stats))
            &&& holders@.len() == 0
            &&& stats == ScanStats::nothing_missed()
        } else {
            match processes {
                Err(error) => r matches Err(e) && e.0@ == error.message@,
                Ok(list) => is_socket_scan(r, list@, inodes_on(entries@, port), passwd),
            }
        },
    }
}

/// The processes that hold a port.
pub fn scan_port_holders(
    port: u16,
    sockets: &Result<Vec<SocketEntry>, IoFailure>,
    processes: Result<Vec<SocketProcess>, IoFailure>,
    passwd: &Option<String>,
) -> (r: Result<(Vec<Holder>, ScanStats), HoldsError>)
    ensures
        is_port_scan(r, port, *sockets, processes, process::opt_view(*passwd)),
{
    let entries = match sockets {
        Ok(entries) => entries,
        Err(error) => return Err(HoldsError(error.message.clone())),
    };
    let inodes = target_inodes(entries, port);
    if inodes.is_empty() {
        assert(inodes@ =~= Set::<u64>::empty());
        return Ok((Vec::new(), ScanStats::default()));
    }
    match processes {
        Ok(list) => scan_socket_holders(list, &inodes, passwd),
        Err(error) => Err(HoldsError(error.message)),
    }
}

// ---------------------------------------------------------------------------
// Scanning for a file
// ---------------------------------------------------------------------------

/// A process as far as files are concerned.
#[derive(Debug)]
pub struct FileProcess {
    pub pid: u32,
    /// The descriptors, each with the file behind it.
    pub fds: Result<Vec<FdEntry<FileId>>, IoFailure>,
    /// The lines of the `maps` file.
    pub maps: FileLines,
    pub source: HolderSource,
}

/// The mappings of a process, as far as they matter for a file.
pub open spec fn mapping_in(process: FileProcess, target: FileId) -> ProcRead<
    Option<MmapPerms>,
> {
    descriptors::mapping_of(
        process.maps,
        procfs::major_of(target.dev as int) as u32,
        procfs::minor_of(target.dev as int) as u32,
        target.inode,
    )
}

/// The descriptors that could be seen.
pub open spec fn seen_fds(outcome: ProcRead<Seq<(i32, FdMode)>>) -> Seq<(i32, FdMode)> {
    match outcome {
        ProcRead::Done(fds) => fds,
        _ => Seq::empty(),
    }
}

/// The look says what the descriptors and mappings of the process say about the file.
/// Descriptors that may not be looked at still leave the mappings. A process that ends
/// meanwhile says nothing.
pub open spec fn is_file_look(look: ProcessLook, process: FileProcess, target: FileId) -> bool {
    let fds = descriptors::fds_of(process.fds, descriptors::this_file(target));
    let mapping = mapping_in(process, target);
    &&& look.pid == process.pid
    &&& look.source == process.source
    &&& match fds {
        ProcRead::Fatal(error) => look.broken == Some(error),
        ProcRead::Gone => look.broken is None,
        _ => match mapping {
            ProcRead::Fatal(error) => look.broken == Some(error),
            _ => look.broken is None,
        },
    }
    &&& look.fds_denied == (fds is PermissionDenied)
    &&& look.maps_denied == ((fds is Done || fds is PermissionDenied) && mapping
        is PermissionDenied)
    &&& if fds is Done || fds is PermissionDenied {
        match mapping {
            ProcRead::Done(perms) => evidence::is_evidence(look.evidence@, seen_fds(fds), perms),
            ProcRead::PermissionDenied => evidence::is_evidence(look.evidence@, seen_fds(fds), None),
            _ => look.evidence@.len() == 0,
        }
    } else {
        look.evidence@.len() == 0
    }
}

/// Each look is at the process in the same place.
pub open spec fn are_file_looks(
    looks: Seq<ProcessLook>,
    processes: Seq<FileProcess>,
    target: FileId,
) -> bool {
    &&& looks.len() == processes.len()
    &&& forall|i: int|
        0 <= i < looks.len() ==> is_file_look(#[trigger] looks[i], processes[i], target)
}

fn look_for_file(process: FileProcess, target: FileId) -> (r: ProcessLook)
    ensures
        is_file_look(r, process, target),
{
    let (major, minor) = dev_major_minor(target.dev);
    let ghost outcome = descriptors::fds_of(process.fds, descriptors::this_file(target));
    let ghost mapping = mapping_in(process, target);
    let FileProcess { pid, fds, maps, source } = process;
    assert(mapping == descriptors::mapping_of(maps, major, minor, target.inode));
    let mut look = empty_look(pid, source);
    let found: Vec<(i32, FdMode)> = match scan_pid_fds_for_file(&fds, target) {
        ProcRead::Done(found) => found,
        ProcRead::PermissionDenied => {
            look.fds_denied = true;
            Vec::new()
        },
        ProcRead::Gone => return look,
        ProcRead::Fatal(error) => {
            look.broken = Some(error);
            return look;
        },
    };
    assert(found@.to_multiset() == seen_fds(outcome).to_multiset()) by {
        if outcome is PermissionDenied {
            assert(found@ =~= seen_fds(outcome));
        }
    }
    let perms: Option<MmapPerms> = match scan_pid_maps_for_file(
        &maps,
        major,
        minor,
        target.inode,
    ) {
        ProcRead::Done(perms) => perms,
        ProcRead::PermissionDenied => {
            look.maps_denied = true;
            None
        },
        ProcRead::Gone => return look,
        ProcRead::Fatal(error) => {
            look.broken = Some(error);
            return look;
        },
    };
    look.evidence = order_evidence(&found, perms);
    proof {
        evidence::lemma_same_evidence(look.evidence@, found@, seen_fds(outcome), perms);
    }
    look
}

/// Looks at each process for descriptors and mappings of the file.
pub fn look_at_files(processes: Vec<FileProcess>, target: FileId) -> (r: Vec<ProcessLook>)
    ensures
        are_file_looks(r@, processes@, target),
{
    let ghost all = processes@;
    let mut rest = processes;
    let mut looks: Vec<ProcessLook> = Vec::new();
    let mut i: usize = 0;
    let n: usize = rest.len();
    while i < n
        invariant
            i <= n,
            n == all.len(),
            rest@ == all.skip(i as int),
            are_file_looks(looks@, all.take(i as int), target),
        decreases n - i,
    {
        let process = rest.remove(0);
        proof {
            assert(process == all[i as int]);
            assert(rest@ =~= all.skip(i + 1));
        }
        let look = look_for_file(process, target);
        looks.push(look);
        i += 1;
    }
    assert(all.take(i as int) =~= all);
    looks
}

/// The outcome of a scan for a file.
pub open spec fn is_file_scan(
    r: Result<(Vec<Holder>, ScanStats), HoldsError>,
    processes: Seq<FileProcess>,
    target: FileId,
    passwd: Option<Seq<char>>,
) -> bool {
    exists|looks: Seq<ProcessLook>|
        #![trigger are_file_looks(looks, processes, target)]
        are_file_looks(looks, processes, target) && is_outcome(r, looks, passwd)
}

/// What is said about a path that could not be examined, where `shown` is the path as
/// shown.
pub open spec fn unexamined(shown: Seq<char>, error: IoFailure) -> Seq<char> {
    if error.kind == FailureKind::NotFound {
        shown + ": no such file or directory"@
    } else {
        shown + ": "@ + error.message@
    }
}

/// What is said about a path that could not be examined.
pub fn path_error(shown: &str, error: &IoFailure) -> (r: HoldsError)
    ensures
        r.0@ == unexamined(shown@, *error),
{
    match error.kind {
        FailureKind::NotFound => HoldsError(cat2(shown, ": no such file or directory")),
        _ => HoldsError(cat3(shown, ": ", error.message.as_str())),
    }
}

/// The outcome of asking who holds a file, where `shown` is its path as shown.
pub open spec fn is_path_scan(
    r: Result<(Vec<Holder>, ScanStats), HoldsError>,
    shown: Seq<char>,
    file: Result<FileId, IoFailure>,
    processes: Result<Vec<FileProcess>, IoFailure>,
    passwd: Option<Seq<char>>,
) -> bool {
    match file {
        Err(error) => r matches Err(e) && e.0@ == unexamined(shown, error),
        Ok(target) => match processes {
            Err(error) => r matches Err(e) && e.0@ == error.message@,
            Ok(list) => is_file_scan(r, list@, target, passwd),
        },
    }
}

/// The processes that hold the file that was found at a path, where `shown` is the path
/// as shown.
pub fn scan_file_holders(
    shown: &str,
    file: &Result<FileId, IoFailure>,
    processes: Result<Vec<FileProcess>, IoFailure>,
    passwd: &Option<String>,
) -> (r: Result<(Vec<Holder>, ScanStats), HoldsError>)
    ensures
        is_path_scan(r, shown@, *file, processes, process::opt_view(*passwd)),
{
    let target: FileId = match file {
        Ok(target) => *target,
        Err(error) => return Err(path_error(shown, error)),
    };
    match processes {
        Ok(list) => {
            let looks = look_at_files(list, target);
            collect_holders(&looks, passwd)
        },
        Err(error) => Err(HoldsError(error.message)),
    }
}

/// The processes that hold the file at a path.
pub fn scan_path_holders(
    path: &FilePath,
    file: &Result<FileId, IoFailure>,
    processes: Result<Vec<FileProcess>, IoFailure>,
    passwd: &Option<String>,
) -> (r: Result<(Vec<Holder>, ScanStats), HoldsError>)
    ensures
        is_path_scan(r, bytes::lossy(path@), *file, processes, process::opt_view(*passwd)),
{
    let shown = path.display();
    scan_file_holders(shown.as_str(), file, processes, passwd)
}

// ---------------------------------------------------------------------------
// What every scan keeps
// ---------------------------------------------------------------------------

/// The holder is what the look at a process gave.
pub open spec fn comes_from(
    holder: Holder,
    look: ProcessLook,
    passwd: Option<Seq<char>>,
) -> bool {
    look.is_reported() && holder::is_holder(holder, look.pid, look.evidence@, look.source, passwd)
}

/// Some look gave the holder.
pub open spec fn has_look(
    holder: Holder,
    looks: Seq<ProcessLook>,
    passwd: Option<Seq<char>>,
) -> bool {
    exists|i: int| 0 <= i < looks.len() && comes_from(holder, #[trigger] looks[i], passwd)
}

/// The look gave one of the holders.
pub open spec fn has_holder(
    look: ProcessLook,
    holders: Seq<Holder>,
    passwd: Option<Seq<char>>,
) -> bool {
    exists|i: int| 0 <= i < holders.len() && comes_from(#[trigger] holders[i], look, passwd)
}

proof fn lemma_found(found: Seq<Holder>, looks: Seq<ProcessLook>, passwd: Option<Seq<char>>)
    requires
        are_found(found, looks, passwd),
    ensures
        forall|i: int| 0 <= i < found.len() ==> has_look(#[trigger] found[i], looks, passwd),
        forall|i: int|
            0 <= i < looks.len() && (#[trigger] looks[i]).is_reported() ==> has_holder(
                looks[i],
                found,
                passwd,
            ),
    decreases looks.len(),
{
    if looks.len() > 0 {
        let last = looks.len() - 1;
        let old_found = if looks.last().is_reported() {
            found.drop_last()
        } else {
            found
        };
        lemma_found(old_found, looks.drop_last(), passwd);
        assert forall|i: int| 0 <= i < found.len() implies has_look(
            #[trigger] found[i],
            looks,
            passwd,
        ) by {
            if i < old_found.len() {
                assert(old_found[i] == found[i]);
                let k = choose|k: int|
                    0 <= k < looks.drop_last().len() && comes_from(
                        found[i],
                        #[trigger] looks.drop_last()[k],
                        passwd,
                    );
                assert(comes_from(found[i], looks[k], passwd));
            } else {
                assert(comes_from(found[i], looks[last], passwd));
            }
        }
        assert forall|i: int|
            0 <= i < looks.len() && (#[trigger] looks[i]).is_reported() implies has_holder(
            looks[i],
            found,
            passwd,
        ) by {
            if i < last {
                assert(looks.drop_last()[i] == looks[i]);
                let k = choose|k: int|
                    0 <= k < old_found.len() && comes_from(
                        #[trigger] old_found[k],
                        looks[i],
                        passwd,
                    );
                assert(found[k] == old_found[k]);
            } else {
                assert(comes_from(found[found.len() - 1], looks[i], passwd));
            }
        }
    }
}

proof fn lemma_sorted_members(sorted: Seq<Holder>, found: Seq<Holder>)
    requires
        is_sorted_by_pid(sorted, found),
    ensures
        forall|h: Holder| sorted.contains(h) <==> found.contains(h),
{
    assert forall|h: Holder| sorted.contains(h) <==> found.contains(h) by {
        let keep = with_pid(h.pid);
        assert(sorted.filter(keep) == found.filter(keep));
        order::lemma_filter_member(sorted, keep, h);
        order::lemma_filter_member(found, keep, h);
    }
}

/// A scan that ends well reports a holder for each process with evidence that is still
/// there, nothing else, and each with the evidence that the process gave.
pub proof fn lemma_scan_is_complete(
    r: Result<(Vec<Holder>, ScanStats), HoldsError>,
    looks: Seq<ProcessLook>,
    passwd: Option<Seq<char>>,
)
    requires
        is_outcome(r, looks, passwd),
        r is Ok,
    ensures
        forall|i: int|
            0 <= i < looks.len() && (#[trigger] looks[i]).is_reported() ==> has_holder(
                looks[i],
                r->Ok_0.0@,
                passwd,
            ),
        forall|i: int|
            0 <= i < r->Ok_0.0@.len() ==> has_look(#[trigger] r->Ok_0.0@[i], looks, passwd),
{
    let holders = r->Ok_0.0@;
    let found = choose|found: Seq<Holder>|
        #![trigger are_found(found, looks, passwd)]
        are_found(found, looks, passwd) && is_sorted_by_pid(holders, found);
    lemma_found(found, looks, passwd);
    lemma_sorted_members(holders, found);
    assert forall|i: int|
        0 <= i < looks.len() && (#[trigger] looks[i]).is_reported() implies has_holder(
        looks[i],
        holders,
        passwd,
    ) by {
        let k = choose|k: int|
            0 <= k < found.len() && comes_from(#[trigger] found[k], looks[i], passwd);
        assert(found.contains(found[k]));
        assert(holders.contains(found[k]));
    }
    assert forall|i: int| 0 <= i < holders.len() implies has_look(
        #[trigger] holders[i],
        looks,
        passwd,
    ) by {
        assert(holders.contains(holders[i]));
        assert(found.contains(holders[i]));
    }
}

/// One of the holders is this process, and the evidence against it is among what it shows.
pub open spec fn is_reported_with(holders: Seq<Holder>, pid: u32, e: Evidence) -> bool {
    exists|k: int|
        0 <= k < holders.len() && (#[trigger] holders[k]).pid == pid
            && holders[k].evidence@.contains(e)
}

proof fn lemma_look_is_reported(
    r: Result<(Vec<Holder>, ScanStats), HoldsError>,
    looks: Seq<ProcessLook>,
    passwd: Option<Seq<char>>,
    i: int,
    e: Evidence,
)
    requires
        is_outcome(r, looks, passwd),
        r is Ok,
        0 <= i < looks.len(),
        looks[i].evidence@.contains(e),
        !looks[i].source.is_gone(),
    ensures
        is_reported_with(r->Ok_0.0@, looks[i].pid, e),
{
    lemma_scan_is_complete(r, looks, passwd);
    assert(looks[i].is_reported());
    assert(has_holder(looks[i], r->Ok_0.0@, passwd));
}

proof fn lemma_nothing_broken(looks: Seq<ProcessLook>, i: int)
    requires
        first_broken(looks) is None,
        0 <= i < looks.len(),
    ensures
        looks[i].broken is None,
    decreases looks.len(),
{
    if i > 0 {
        lemma_nothing_broken(looks.skip(1), i - 1);
        assert(looks.skip(1)[i - 1] == looks[i]);
    }
}

/// A scan for a port that ends well reports every process that has a descriptor of one of
/// the sockets and is still there, with that descriptor.
pub proof fn lemma_open_socket_is_reported(
    r: Result<(Vec<Holder>, ScanStats), HoldsError>,
    processes: Seq<SocketProcess>,
    inodes: Set<u64>,
    passwd: Option<Seq<char>>,
    i: int,
    fd: i32,
    mode: FdMode,
)
    requires
        is_socket_scan(r, processes, inodes, passwd),
        r is Ok,
        0 <= i < processes.len(),
        !processes[i].source.is_gone(),
        descriptors::fds_of(processes[i].fds, descriptors::socket_among(inodes)) matches ProcRead::Done(fds)
            && fds.contains((fd, mode)),
    ensures
        is_reported_with(r->Ok_0.0@, processes[i].pid, Evidence::Fd(fd, mode)),
{
    let looks = choose|looks: Seq<ProcessLook>|
        #![trigger are_socket_looks(looks, processes, inodes)]
        are_socket_looks(looks, processes, inodes) && is_outcome(r, looks, passwd);
    let e = Evidence::Fd(fd, mode);
    assert(is_socket_look(looks[i], processes[i], inodes));
    assert(looks[i].evidence@.contains(e));
    lemma_look_is_reported(r, looks, passwd, i, e);
}

/// A scan for a file that ends well reports every process that has the file open or mapped
/// and is still there, with that descriptor or mapping.
pub proof fn lemma_open_file_is_reported(
    r: Result<(Vec<Holder>, ScanStats), HoldsError>,
    processes: Seq<FileProcess>,
    target: FileId,
    passwd: Option<Seq<char>>,
    i: int,
    e: Evidence,
)
    requires
        is_file_scan(r, processes, target, passwd),
        r is Ok,
        0 <= i < processes.len(),
        !processes[i].source.is_gone(),
        !(descriptors::fds_of(processes[i].fds, descriptors::this_file(target)) is Gone),
        !(mapping_in(processes[i], target) is Gone),
        evidence::shows(
            e,
            seen_fds(descriptors::fds_of(processes[i].fds, descriptors::this_file(target))),
            match mapping_in(processes[i], target) {
                ProcRead::Done(perms) => perms,
                _ => None,
            },
        ),
    ensures
        is_reported_with(r->Ok_0.0@, processes[i].pid, e),
{
    let looks = choose|looks: Seq<ProcessLook>|
        #![trigger are_file_looks(looks, processes, target)]
        are_file_looks(looks, processes, target) && is_outcome(r, looks, passwd);
    assert(is_file_look(looks[i], processes[i], target));
    lemma_nothing_broken(looks, i);
    assert(looks[i].evidence@.contains(e));
    lemma_look_is_reported(r, looks, passwd, i, e);
}

/// A holder that a scan for a file reports is one of the processes, and each piece of its
/// evidence is a descriptor or mapping of the file in that process.
pub proof fn lemma_reported_holds_file(
    r: Result<(Vec<Holder>, ScanStats), HoldsError>,
    processes: Seq<FileProcess>,
    target: FileId,
    passwd: Option<Seq<char>>,
    k: int,
)
    requires
        is_file_scan(r, processes, target, passwd),
        r is Ok,
        0 <= k < r->Ok_0.0@.len(),
    ensures
        r->Ok_0.0@[k].evidence@.len() > 0,
        exists|i: int|
            0 <= i < processes.len() && (#[trigger] processes[i]).pid == r->Ok_0.0@[k].pid
                && forall|e: Evidence| #[trigger]
                r->Ok_0.0@[k].evidence@.contains(e) ==> evidence::shows(
                    e,
                    seen_fds(descriptors::fds_of(processes[i].fds, descriptors::this_file(target))),
                    match mapping_in(processes[i], target) {
                        ProcRead::Done(perms) => perms,
                        _ => None,
                    },
                ),
{
    let looks = choose|looks: Seq<ProcessLook>|
        #![trigger are_file_looks(looks, processes, target)]
        are_file_looks(looks, processes, target) && is_outcome(r, looks, passwd);
    lemma_scan_is_complete(r, looks, passwd);
    let holder = r->Ok_0.0@[k];
    assert(has_look(holder, looks, passwd));
    let i = choose|i: int| 0 <= i < looks.len() && comes_from(holder, #[trigger] looks[i], passwd);
    assert(is_file_look(looks[i], processes[i], target));
    assert(processes[i].pid == holder.pid);
}

/// A holder that a scan for sockets reports is one of the processes, and each piece of its
/// evidence is a descriptor of one of the sockets in that process.
pub proof fn lemma_reported_holds_socket(
    r: Result<(Vec<Holder>, ScanStats), HoldsError>,
    processes: Seq<SocketProcess>,
    inodes: Set<u64>,
    passwd: Option<Seq<char>>,
    k: int,
)
    requires
        is_socket_scan(r, processes, inodes, passwd),
        r is Ok,
        0 <= k < r->Ok_0.0@.len(),
    ensures
        r->Ok_0.0@[k].evidence@.len() > 0,
        exists|i: int|
            0 <= i < processes.len() && (#[trigger] processes[i]).pid == r->Ok_0.0@[k].pid
                && forall|e: Evidence| #[trigger]
                r->Ok_0.0@[k].evidence@.contains(e) ==> evidence::shows(
                    e,
                    seen_fds(descriptors::fds_of(processes[i].fds, descriptors::socket_among(inodes))),
                    None,
                ),
{
    let looks = choose|looks: Seq<ProcessLook>|
        #![trigger are_socket_looks(looks, processes, inodes)]
        are_socket_looks(looks, processes, inodes) && is_outcome(r, looks, passwd);
    lemma_scan_is_complete(r, looks, passwd);
    let holder = r->Ok_0.0@[k];
    assert(has_look(holder, looks, passwd));
    let i = choose|i: int| 0 <= i < looks.len() && comes_from(holder, #[trigger] looks[i], passwd);
    assert(is_socket_look(looks[i], processes[i], inodes));
    assert(processes[i].pid == holder.pid);
}

} // verus!
