//! What the search for holders is for: every socket, descriptor and mapping that the kernel
//! lists is read for what it is, and whoever holds the target is reported.

use crate::bytes;
use crate::failure::{FailureKind, FileLines, IoFailure, ProcRead};
use crate::filepath::FilePath;
use crate::holds;
use crate::holds::descriptors;
use crate::holds::descriptors::{FdEntry, FdFinding, FdLook};
use crate::holds::evidence;
use crate::holds::procfs;
use crate::holds::{Evidence, FdMode, FileId, MapEntry, MmapPerms, Protocol, SocketEntry};
use crate::laws::number::{hex, zeros};
use crate::laws::text::blank;
use crate::number;
use crate::process;
use crate::text;
use vstd::prelude::*;

verus! {

// ---------------------------------------------------------------------------
// Sockets
// ---------------------------------------------------------------------------

/// A line of a table under `/proc/net` is the socket with the port behind the address and the
/// inode in the tenth column, whatever the address is and however long it is.
pub proof fn lemma_socket_line_is_read(
    line: Seq<char>,
    protocol: Protocol,
    address: Seq<char>,
    k: nat,
    port: u16,
    capitals: bool,
    inode: u64,
)
    requires
        text::words(line).len() >= 10,
        !address.contains(':'),
        text::words(line)[1] == address.push(':') + (zeros(k) + hex(port as int, capitals)),
        text::words(line)[9] == number::decimal(inode as int),
    ensures
        procfs::socket_of_line(line, protocol) == Some(SocketEntry { protocol, port, inode }),
{
    let digits = zeros(k) + hex(port as int, capitals);
    crate::laws::text::lemma_split_once_at(address, ':', digits);
    crate::laws::number::lemma_hex_is_read(k, port as int, capitals, u16::MAX as int);
    crate::laws::number::lemma_decimal_is_read(0, inode as int, u64::MAX as int);
}

/// A line of a table under `/proc/net`, as the kernel writes it: the number of the row, the
/// local and the remote address, six more columns, the inode, and whatever follows.
pub proof fn lemma_kernel_line_is_read(
    row: Seq<char>,
    address: Seq<char>,
    k: nat,
    port: u16,
    more: Seq<Seq<char>>,
    inode: u64,
    rest: Seq<Seq<char>>,
    protocol: Protocol,
)
    requires
        crate::laws::text::is_word(row),
        crate::laws::text::is_word(address),
        !address.contains(':'),
        more.len() == 7,
        crate::laws::text::all_words(more),
        crate::laws::text::all_words(rest),
    ensures
        procfs::socket_of_line(
            text::join(
                seq![row, address.push(':') + (zeros(k) + hex(port as int, true))] + more
                    + seq![number::decimal(inode as int)] + rest,
                seq![' '],
            ),
            protocol,
        ) == Some(SocketEntry { protocol, port, inode }),
{
    let digits = zeros(k) + hex(port as int, true);
    let local = address.push(':') + digits;
    let columns = seq![row, local] + more + seq![number::decimal(inode as int)] + rest;
    crate::laws::number::lemma_hex_characters(port as int, true);
    assert forall|i: int| 0 <= i < local.len() implies !text::is_space(#[trigger] local[i]) by {
        if i < address.len() {
            assert(local[i] == address[i]);
        } else if i > address.len() + k {
            let c = hex(port as int, true)[i - address.len() - 1 - k];
            assert(local[i] == c);
        }
    }
    crate::laws::text::lemma_digits_are_a_word(0, inode as int);
    assert forall|i: int| 0 <= i < columns.len() implies crate::laws::text::is_word(
        #[trigger] columns[i],
    ) by {
        if 2 <= i < 9 {
            assert(columns[i] == more[i - 2]);
        } else if i > 9 {
            assert(columns[i] == rest[i - 10]);
        }
    }
    crate::laws::text::lemma_words_joined(columns);
    lemma_socket_line_is_read(
        text::join(columns, seq![' ']),
        protocol,
        address,
        k,
        port,
        true,
        inode,
    );
}

/// A line with fewer than ten columns, without a colon in its second column, or with something
/// else than numbers for the port and the inode is no socket.
pub proof fn lemma_other_lines_are_no_sockets(line: Seq<char>, protocol: Protocol)
    ensures
        text::words(line).len() < 10 ==> procfs::socket_of_line(line, protocol) is None,
        procfs::socket_of_line(line, protocol) matches Some(socket) ==> {
            &&& socket.protocol == protocol
            &&& text::words(line)[1].contains(':')
            &&& number::parse_uint(text::words(line)[9], 10, u64::MAX as int) == Some(
                socket.inode as int,
            )
        },
{
    if let Some(socket) = procfs::socket_of_line(line, protocol) {
        let column = text::words(line)[1];
        let last = text::words(line)[9];
        crate::laws::number::lemma_only_digits_are_read(last, 10, u64::MAX as int);
        if !column.contains(':') {
            crate::laws::text::lemma_split_once_at(column, ':', Seq::empty());
        }
    }
}

/// All lines of the file were read.
pub open spec fn all_read(lines: Seq<Result<String, IoFailure>>) -> bool {
    forall|i: int| 0 <= i < lines.len() ==> #[trigger] lines[i] is Ok
}

proof fn lemma_no_failure(lines: Seq<Result<String, IoFailure>>)
    requires
        all_read(lines),
    ensures
        procfs::first_failure(lines) is None,
    decreases lines.len(),
{
    if lines.len() > 0 {
        let init = lines.drop_last();
        assert forall|i: int| 0 <= i < init.len() implies #[trigger] init[i] is Ok by {
            assert(lines[i] is Ok);
        }
        lemma_no_failure(init);
        assert(lines[lines.len() - 1] is Ok);
    }
}

proof fn lemma_sockets_grow(
    lines: Seq<Result<String, IoFailure>>,
    protocol: Protocol,
    n: int,
    i: int,
)
    requires
        1 <= i < n <= lines.len(),
    ensures
        match procfs::socket_of_line(lines[i]->Ok_0@, protocol) {
            Some(socket) => procfs::sockets_of_lines(lines, protocol, n).contains(socket),
            None => true,
        },
    decreases n,
{
    let now = procfs::sockets_of_lines(lines, protocol, n);
    let before = procfs::sockets_of_lines(lines, protocol, n - 1);
    if let Some(socket) = procfs::socket_of_line(lines[i]->Ok_0@, protocol) {
        if i == n - 1 {
            assert(now[before.len() as int] == socket);
        } else {
            lemma_sockets_grow(lines, protocol, n - 1, i);
            let k = choose|k: int| 0 <= k < before.len() && before[k] == socket;
            assert(now[k] == socket);
        }
    }
}

/// Each line of a table but its heading gives its socket, and no socket comes from elsewhere.
pub proof fn lemma_table_is_read(lines: Vec<Result<String, IoFailure>>, protocol: Protocol, i: int)
    requires
        all_read(lines@),
    ensures
        procfs::table_of(Ok::<Vec<Result<String, IoFailure>>, IoFailure>(lines), protocol) is Ok,
        1 <= i < lines@.len() ==> match procfs::socket_of_line(lines@[i]->Ok_0@, protocol) {
            Some(socket) => procfs::table_of(
                Ok::<Vec<Result<String, IoFailure>>, IoFailure>(lines),
                protocol,
            )->Ok_0.contains(socket),
            None => true,
        },
        forall|k: int|
            0 <= k < procfs::table_of(
                Ok::<Vec<Result<String, IoFailure>>, IoFailure>(lines),
                protocol,
            )->Ok_0.len() ==> is_from_line(
                #[trigger] procfs::table_of(
                    Ok::<Vec<Result<String, IoFailure>>, IoFailure>(lines),
                    protocol,
                )->Ok_0[k],
                lines@,
                protocol,
            ),
{
    lemma_no_failure(lines@);
    if 1 <= i < lines@.len() {
        lemma_sockets_grow(lines@, protocol, lines@.len() as int, i);
    }
    lemma_sockets_come_from_lines(lines@, protocol, lines@.len() as int);
}

/// One of the lines behind the heading is the socket.
pub open spec fn is_from_line(
    socket: SocketEntry,
    lines: Seq<Result<String, IoFailure>>,
    protocol: Protocol,
) -> bool {
    exists|i: int|
        1 <= i < lines.len() && procfs::socket_of_line((#[trigger] lines[i])->Ok_0@, protocol)
            == Some(socket)
}

proof fn lemma_sockets_come_from_lines(
    lines: Seq<Result<String, IoFailure>>,
    protocol: Protocol,
    n: int,
)
    requires
        0 <= n <= lines.len(),
    ensures
        forall|k: int|
            0 <= k < procfs::sockets_of_lines(lines, protocol, n).len() ==> is_from_line(
                #[trigger] procfs::sockets_of_lines(lines, protocol, n)[k],
                lines,
                protocol,
            ),
        n >= 1 ==> procfs::sockets_of_lines(lines, protocol, n).len() < n,
    decreases n,
{
    if n > 1 {
        lemma_sockets_come_from_lines(lines, protocol, n - 1);
        let now = procfs::sockets_of_lines(lines, protocol, n);
        let before = procfs::sockets_of_lines(lines, protocol, n - 1);
        assert forall|k: int| 0 <= k < now.len() implies is_from_line(
            #[trigger] now[k],
            lines,
            protocol,
        ) by {
            if k < before.len() {
                assert(now[k] == before[k]);
            } else {
                assert(procfs::socket_of_line(lines[n - 1]->Ok_0@, protocol) == Some(now[k]));
            }
        }
    }
}

/// The sockets of a table that was read, or none where it does not exist.
pub open spec fn sockets_in(file: FileLines, protocol: Protocol) -> Seq<SocketEntry> {
    match procfs::table_of(file, protocol) {
        Ok(sockets) => sockets,
        Err(_) => Seq::empty(),
    }
}

/// The table was read, or does not exist.
pub open spec fn is_usable(file: FileLines, protocol: Protocol) -> bool {
    procfs::table_of(file, protocol) matches Err(error) ==> error.kind == FailureKind::NotFound
}

/// The sockets of all four tables are found, those of the first two for TCP and those of the
/// others for UDP. A table that does not exist is passed over, and one that cannot be read ends
/// the search with its failure.
pub proof fn lemma_all_tables_are_read(
    tcp: FileLines,
    tcp6: FileLines,
    udp: FileLines,
    udp6: FileLines,
)
    ensures
        is_usable(tcp, Protocol::Tcp) && is_usable(tcp6, Protocol::Tcp) && is_usable(
            udp,
            Protocol::Udp,
        ) && is_usable(udp6, Protocol::Udp) ==> procfs::all_sockets(tcp, tcp6, udp, udp6) == Ok::<
            Seq<SocketEntry>,
            IoFailure,
        >(
            sockets_in(tcp, Protocol::Tcp) + sockets_in(tcp6, Protocol::Tcp) + sockets_in(
                udp,
                Protocol::Udp,
            ) + sockets_in(udp6, Protocol::Udp),
        ),
        !is_usable(tcp, Protocol::Tcp) ==> procfs::all_sockets(tcp, tcp6, udp, udp6)
            == procfs::table_of(tcp, Protocol::Tcp),
        is_usable(tcp, Protocol::Tcp) && !is_usable(tcp6, Protocol::Tcp) ==> procfs::all_sockets(
            tcp,
            tcp6,
            udp,
            udp6,
        ) == procfs::table_of(tcp6, Protocol::Tcp),
        is_usable(tcp, Protocol::Tcp) && is_usable(tcp6, Protocol::Tcp) && !is_usable(
            udp,
            Protocol::Udp,
        ) ==> procfs::all_sockets(tcp, tcp6, udp, udp6) == procfs::table_of(udp, Protocol::Udp),
        is_usable(tcp, Protocol::Tcp) && is_usable(tcp6, Protocol::Tcp) && is_usable(
            udp,
            Protocol::Udp,
        ) && !is_usable(udp6, Protocol::Udp) ==> procfs::all_sockets(tcp, tcp6, udp, udp6)
            == procfs::table_of(udp6, Protocol::Udp),
{
    let none = Seq::<SocketEntry>::empty();
    let a = sockets_in(tcp, Protocol::Tcp);
    let b = sockets_in(tcp6, Protocol::Tcp);
    let c = sockets_in(udp, Protocol::Udp);
    let d = sockets_in(udp6, Protocol::Udp);
    assert(none + a =~= a);
    assert(a + none =~= a);
    assert((a + b) + none =~= a + b);
    assert((a + b + c) + none =~= a + b + c);
}

/// A link of a descriptor leads to a socket exactly where it is the inode between the words
/// that the kernel has for it.
pub proof fn lemma_socket_links(link: Seq<char>, inode: u64)
    ensures
        procfs::socket_inode("socket:["@ + number::decimal(inode as int) + "]"@) == Some(
            inode as int,
        ),
        procfs::socket_inode(link) matches Some(n) ==> link == "socket:["@ + link.subrange(
            "socket:["@.len() as int,
            link.len() - 1,
        ) + "]"@ && number::parse_uint(
            link.subrange("socket:["@.len() as int, link.len() - 1),
            10,
            u64::MAX as int,
        ) == Some(n),
{
    procfs::lemma_socket_link_reads_back(inode);
    reveal_strlit("]");
    if procfs::socket_inode(link) is Some {
        let start = "socket:["@;
        let rest = link.skip(start.len() as int);
        assert(start.is_prefix_of(link));
        assert(link =~= start + rest);
        let inner = link.subrange(start.len() as int, link.len() - 1);
        assert(rest.drop_last() =~= inner);
        assert(link =~= start + inner + "]"@);
    }
}

// ---------------------------------------------------------------------------
// Descriptors
// ---------------------------------------------------------------------------

/// The mode of the lowest two bits of the flags of a descriptor.
pub open spec fn mode_bits(n: int) -> FdMode {
    if n % 4 == 0 {
        FdMode::Read
    } else if n % 4 == 1 {
        FdMode::Write
    } else if n % 4 == 2 {
        FdMode::ReadWrite
    } else {
        FdMode::Unknown
    }
}

/// The number on the first `flags:` line of what is told about a descriptor gives its mode,
/// whatever its size, with white space around it and zeros before it.
pub proof fn lemma_mode_is_read(
    info: Seq<char>,
    k: int,
    before: Seq<char>,
    z: nat,
    n: u64,
    after: Seq<char>,
)
    requires
        0 <= k < text::lines(info).len(),
        text::lines(info)[k] == "flags:"@ + (before + (zeros(z) + number::decimal(n as int))
            + after),
        blank(before),
        blank(after),
        forall|j: int|
            0 <= j < k ==> !"flags:"@.is_prefix_of(#[trigger] text::lines(info)[j]),
    ensures
        procfs::mode_of_info(Some(info)) == mode_bits(n as int),
{
    let digits = zeros(z) + number::decimal(n as int);
    crate::laws::text::lemma_digits_are_a_word(z, n as int);
    assert(!text::is_space(digits[0]));
    assert(!text::is_space(digits[digits.len() - 1]));
    crate::laws::process::lemma_first_line_counts(
        text::lines(info),
        "flags:"@,
        k,
        before + digits + after,
    );
    crate::laws::text::lemma_trim_around(before, digits, after);
    crate::laws::number::lemma_decimal_is_read(z, n as int, u64::MAX as int);
}

/// Without a `flags:` line, or where nothing could be read, the mode is not known.
pub proof fn lemma_mode_is_unknown(info: Seq<char>)
    requires
        forall|j: int|
            0 <= j < text::lines(info).len() ==> !"flags:"@.is_prefix_of(
                #[trigger] text::lines(info)[j],
            ),
    ensures
        procfs::mode_of_info(Some(info)) == FdMode::Unknown,
        procfs::mode_of_info(None) == FdMode::Unknown,
{
    crate::laws::process::lemma_no_line_no_value(text::lines(info), "flags:"@);
}

/// A descriptor is shown with its number and its mode.
pub proof fn lemma_descriptor_words(fd: i32, n: int)
    ensures
        Evidence::Fd(fd, mode_bits(n)).words() == "fd "@ + number::signed_decimal(fd as int)
            + " ("@ + (if n % 4 == 0 {
            "r"@
        } else if n % 4 == 1 {
            "w"@
        } else if n % 4 == 2 {
            "rw"@
        } else {
            "?"@
        }) + ")"@,
{
}

/// A descriptor that leads to the target is found with its number and its mode.
pub proof fn lemma_descriptor_is_found<T>(look: FdLook<T>, hits: spec_fn(T) -> bool, fd: i32)
    requires
        look.name matches Some(name) && name@ == number::signed_decimal(fd as int),
        look.target is Ok,
    ensures
        descriptors::finding(FdEntry::Listed(look), hits) == if hits(look.target->Ok_0) {
            FdFinding::Holds(fd, procfs::mode_of_info(process::opt_view(look.info)))
        } else {
            FdFinding::Nothing
        },
{
    number::lemma_signed_reads_back(fd);
}

/// A descriptor that may not be looked at is no reason to say that a process holds nothing:
/// all of its descriptors count as denied. One that is gone or has no number is passed over.
pub proof fn lemma_denied_descriptors<T>(
    entries: Vec<FdEntry<T>>,
    hits: spec_fn(T) -> bool,
    k: int,
    look: FdLook<T>,
)
    requires
        0 <= k < entries@.len(),
    ensures
        entries@[k] == FdEntry::<T>::Unreadable(FailureKind::PermissionDenied) ==> descriptors::fds_of(
            Ok::<Vec<FdEntry<T>>, IoFailure>(entries),
            hits,
        ) is PermissionDenied,
        entries@[k] == FdEntry::Listed(look) && descriptors::fd_number(look.name) is Some
            && look.target == Err::<T, FailureKind>(FailureKind::PermissionDenied)
            ==> descriptors::fds_of(
            Ok::<Vec<FdEntry<T>>, IoFailure>(entries),
            hits,
        ) is PermissionDenied,
        descriptors::finding(FdEntry::<T>::Unreadable(FailureKind::NotFound), hits)
            == FdFinding::Nothing,
        look.target == Err::<T, FailureKind>(FailureKind::NotFound) ==> descriptors::finding(
            FdEntry::Listed(look),
            hits,
        ) == FdFinding::Nothing,
        look.name is None ==> descriptors::finding(FdEntry::Listed(look), hits)
            == FdFinding::Nothing,
{
    let findings = entries@.map_values(|entry: FdEntry<T>| descriptors::finding(entry, hits));
    assert(findings[k] == descriptors::finding(entries@[k], hits));
}

/// A listing that cannot be read says what its failure says.
pub proof fn lemma_failed_listings<T>(error: IoFailure, hits: spec_fn(T) -> bool)
    ensures
        error.kind == FailureKind::NotFound ==> descriptors::fds_of(
            Err::<Vec<FdEntry<T>>, IoFailure>(error),
            hits,
        ) is Gone,
        error.kind == FailureKind::PermissionDenied ==> descriptors::fds_of(
            Err::<Vec<FdEntry<T>>, IoFailure>(error),
            hits,
        ) is PermissionDenied,
        error.kind == FailureKind::Other ==> descriptors::fds_of(
            Err::<Vec<FdEntry<T>>, IoFailure>(error),
            hits,
        ) == ProcRead::<Seq<(i32, FdMode)>>::Fatal(error),
        error.kind == FailureKind::NotFound ==> procfs::maps_of(
            Err::<Vec<Result<String, IoFailure>>, IoFailure>(error),
        ) is Gone,
        error.kind == FailureKind::PermissionDenied ==> procfs::maps_of(
            Err::<Vec<Result<String, IoFailure>>, IoFailure>(error),
        ) is PermissionDenied,
        error.kind == FailureKind::Other ==> procfs::maps_of(
            Err::<Vec<Result<String, IoFailure>>, IoFailure>(error),
        ) == ProcRead::<Seq<MapEntry>>::Fatal(error),
{
}

// ---------------------------------------------------------------------------
// Mappings
// ---------------------------------------------------------------------------

/// The permissions of a mapping are a letter each.
pub proof fn lemma_permission_letters(perms: MmapPerms)
    ensures
        perms.letters().len() == 4,
        perms.letters()[0] == if perms.read {
            'r'
        } else {
            '-'
        },
        perms.letters()[1] == if perms.write {
            'w'
        } else {
            '-'
        },
        perms.letters()[2] == if perms.execute {
            'x'
        } else {
            '-'
        },
        perms.letters()[3] == if perms.private {
            'p'
        } else {
            's'
        },
        Evidence::Mmap(perms).words() == "mmap "@ + perms.letters(),
{
}

/// A line of the mappings of a process gives the permissions, the device and the inode of the
/// file that is mapped.
pub proof fn lemma_map_line_is_read(
    line: Seq<char>,
    perms: MmapPerms,
    a: nat,
    major: u32,
    b: nat,
    minor: u32,
    inode: u64,
)
    requires
        text::words(line).len() >= 5,
        text::words(line)[1] == perms.letters(),
        text::words(line)[3] == (zeros(a) + hex(major as int, false)).push(':') + (zeros(b) + hex(
            minor as int,
            false,
        )),
        text::words(line)[4] == number::decimal(inode as int),
    ensures
        procfs::map_of_line(line) == Some(
            MapEntry { dev_major: major, dev_minor: minor, inode, perms },
        ),
{
    let front = zeros(a) + hex(major as int, false);
    crate::laws::number::lemma_hex_characters(major as int, false);
    assert(!front.contains(':')) by {
        if front.contains(':') {
            let i = choose|i: int| 0 <= i < front.len() && front[i] == ':';
            if i >= a {
                let c = hex(major as int, false)[i - a];
                assert(c == ':');
            }
        }
    }
    crate::laws::text::lemma_split_once_at(front, ':', zeros(b) + hex(minor as int, false));
    crate::laws::number::lemma_hex_is_read(a, major as int, false, u32::MAX as int);
    crate::laws::number::lemma_hex_is_read(b, minor as int, false, u32::MAX as int);
    crate::laws::number::lemma_decimal_is_read(0, inode as int, u64::MAX as int);
    holds::lemma_perms_read_back(perms);
}

proof fn lemma_maps_grow(lines: Seq<Result<String, IoFailure>>, n: int, i: int)
    requires
        0 <= i < n <= lines.len(),
    ensures
        match procfs::map_of_line(lines[i]->Ok_0@) {
            Some(entry) => procfs::maps_of_lines(lines, n).contains(entry),
            None => true,
        },
    decreases n,
{
    let now = procfs::maps_of_lines(lines, n);
    let before = procfs::maps_of_lines(lines, n - 1);
    if let Some(entry) = procfs::map_of_line(lines[i]->Ok_0@) {
        if i == n - 1 {
            assert(now[before.len() as int] == entry);
        } else {
            lemma_maps_grow(lines, n - 1, i);
            let k = choose|k: int| 0 <= k < before.len() && before[k] == entry;
            assert(now[k] == entry);
        }
    }
}

/// Each line of the mappings of a process gives its mapping; there is no heading.
pub proof fn lemma_maps_are_read(lines: Vec<Result<String, IoFailure>>, i: int)
    requires
        all_read(lines@),
        0 <= i < lines@.len(),
    ensures
        procfs::maps_of(Ok::<Vec<Result<String, IoFailure>>, IoFailure>(lines)) matches ProcRead::Done(
            maps,
        ) && match procfs::map_of_line(lines@[i]->Ok_0@) {
            Some(entry) => maps.contains(entry),
            None => true,
        },
{
    lemma_no_failure(lines@);
    lemma_maps_grow(lines@, lines@.len() as int, i);
}

/// The first mapping of the file on the same device with the same inode gives the
/// permissions; without one there are none. An inode of zero is no file.
pub proof fn lemma_mapping_is_found(
    maps: Seq<MapEntry>,
    k: int,
    major: u32,
    minor: u32,
    inode: u64,
)
    requires
        0 <= k <= maps.len(),
        inode != 0,
        k < maps.len() ==> maps[k].dev_major == major && maps[k].dev_minor == minor
            && maps[k].inode == inode,
        forall|j: int|
            0 <= j < k ==> (#[trigger] maps[j]).dev_major != major || maps[j].dev_minor != minor
                || maps[j].inode != inode,
    ensures
        descriptors::first_mapping(maps, major, minor, inode) == if k < maps.len() {
            Some(maps[k].perms)
        } else {
            None::<MmapPerms>
        },
    decreases k,
{
    if k > 0 {
        assert(maps[0].dev_major != major || maps[0].dev_minor != minor || maps[0].inode != inode);
        let more = maps.skip(1);
        assert forall|j: int| 0 <= j < k - 1 implies (#[trigger] more[j]).dev_major != major
            || more[j].dev_minor != minor || more[j].inode != inode by {
            assert(more[j] == maps[j + 1]);
        }
        lemma_mapping_is_found(more, k - 1, major, minor, inode);
    }
}

/// Nothing is a mapping of a file with the inode zero.
pub proof fn lemma_no_mapping_of_nothing(maps: Seq<MapEntry>, major: u32, minor: u32)
    ensures
        descriptors::first_mapping(maps, major, minor, 0) is None,
    decreases maps.len(),
{
    if maps.len() > 0 {
        lemma_no_mapping_of_nothing(maps.skip(1), major, minor);
    }
}

/// The number of a device keeps the lowest eight bits of its minor number first, then twelve
/// bits of its major number, then the rest of the minor and the rest of the major number.
pub proof fn lemma_device_numbers(dev: int, major: int, minor: int)
    requires
        0 <= major <= u32::MAX,
        0 <= minor < 0x10_0000,
        dev == minor % 0x100 + major % 0x1000 * 0x100 + minor / 0x100 * 0x10_0000 + major / 0x1000
            * 0x1000_0000_0000,
    ensures
        procfs::major_of(dev) == major,
        procfs::minor_of(dev) == minor,
{
    procfs::lemma_device_reads_back(major, minor);
}

/// Flags that are no number count as none at all, which is reading.
pub proof fn lemma_mode_of_no_number(info: Seq<char>, k: int, rest: Seq<char>)
    requires
        0 <= k < text::lines(info).len(),
        text::lines(info)[k] == "flags:"@ + rest,
        forall|j: int|
            0 <= j < k ==> !"flags:"@.is_prefix_of(#[trigger] text::lines(info)[j]),
        number::parse_uint(text::trim(rest), 10, u64::MAX as int) is None,
    ensures
        procfs::mode_of_info(Some(info)) == FdMode::Read,
{
    crate::laws::process::lemma_first_line_counts(text::lines(info), "flags:"@, k, rest);
}

/// Of four bytes each tells one permission, by its own letter; another number of bytes tells
/// none.
pub proof fn lemma_permission_bytes(b: Seq<u8>)
    ensures
        b.len() == 4 ==> MmapPerms::of_bytes(b) == Some(
            MmapPerms {
                read: b[0] == 'r' as u8,
                write: b[1] == 'w' as u8,
                execute: b[2] == 'x' as u8,
                private: b[3] == 'p' as u8,
            },
        ),
        b.len() != 4 ==> MmapPerms::of_bytes(b) is None,
{
}

/// A mapping whose permissions are not four letters is private and otherwise without any.
pub proof fn lemma_map_without_permissions(line: Seq<char>)
    requires
        text::words(line).len() >= 5,
        vstd::utf8::encode_utf8(text::words(line)[1]).len() != 4,
    ensures
        procfs::map_of_line(line) matches Some(entry) ==> !entry.perms.read && !entry.perms.write
            && !entry.perms.execute && entry.perms.private,
{
}

/// A line with fewer than five columns is no mapping, and neither is one without a device or
/// without an inode.
pub proof fn lemma_other_lines_are_no_mappings(line: Seq<char>)
    ensures
        text::words(line).len() < 5 ==> procfs::map_of_line(line) is None,
        text::words(line).len() >= 5 && !text::words(line)[3].contains(':') ==> procfs::map_of_line(
            line,
        ) is None,
        text::words(line).len() >= 5 && number::parse_uint(
            text::words(line)[4],
            10,
            u64::MAX as int,
        ) is None ==> procfs::map_of_line(line) is None,
{
    if text::words(line).len() >= 5 && !text::words(line)[3].contains(':') {
        crate::laws::text::lemma_split_once_at(text::words(line)[3], ':', Seq::empty());
    }
}

/// A file is the target exactly where both its device and its number there are those of the
/// target.
pub proof fn lemma_same_file(target: FileId, id: FileId)
    ensures
        descriptors::this_file(target)(id) == (id.dev == target.dev && id.inode == target.inode),
{
}

/// A link counts exactly where it leads to one of the sockets.
pub proof fn lemma_same_socket(inodes: Set<u64>, link: FilePath, inode: u64)
    ensures
        bytes::lossy(link@) == "socket:["@ + number::decimal(inode as int) + "]"@
            ==> descriptors::socket_among(inodes)(link) == inodes.contains(inode),
        !"socket:["@.is_prefix_of(bytes::lossy(link@)) ==> !descriptors::socket_among(inodes)(link),
{
    procfs::lemma_socket_link_reads_back(inode);
}

/// Of two ways to have the same descriptor, reading comes before writing, writing before both,
/// and both before what is not known.
pub proof fn lemma_mode_order(fd: i32)
    ensures
        evidence::rank(Evidence::Fd(fd, FdMode::Read)) < evidence::rank(
            Evidence::Fd(fd, FdMode::Write),
        ),
        evidence::rank(Evidence::Fd(fd, FdMode::Write)) < evidence::rank(
            Evidence::Fd(fd, FdMode::ReadWrite),
        ),
        evidence::rank(Evidence::Fd(fd, FdMode::ReadWrite)) < evidence::rank(
            Evidence::Fd(fd, FdMode::Unknown),
        ),
{
}

/// An entry whose name is no number is no descriptor, whatever it leads to.
pub proof fn lemma_other_entries<T>(look: FdLook<T>, hits: spec_fn(T) -> bool)
    requires
        look.name matches Some(name) ==> number::parse_int32(name@) is None,
    ensures
        descriptors::finding(FdEntry::Listed(look), hits) == FdFinding::Nothing,
{
}

/// A line whose local address has no number in base 16 behind its first colon, or one that is
/// too great for a port, is no socket.
pub proof fn lemma_lines_without_port(
    line: Seq<char>,
    protocol: Protocol,
    address: Seq<char>,
    digits: Seq<char>,
)
    requires
        text::words(line).len() >= 10,
        !address.contains(':'),
        text::words(line)[1] == address.push(':') + digits,
        number::parse_uint(digits, 16, u16::MAX as int) is None,
    ensures
        procfs::socket_of_line(line, protocol) is None,
{
    crate::laws::text::lemma_split_once_at(address, ':', digits);
}

/// A line whose device is not two numbers in base 16 is no mapping.
pub proof fn lemma_lines_without_device(line: Seq<char>, front: Seq<char>, tail: Seq<char>)
    requires
        text::words(line).len() >= 5,
        !front.contains(':'),
        text::words(line)[3] == front.push(':') + tail,
        number::parse_uint(front, 16, u32::MAX as int) is None || number::parse_uint(
            tail,
            16,
            u32::MAX as int,
        ) is None,
    ensures
        procfs::map_of_line(line) is None,
{
    crate::laws::text::lemma_split_once_at(front, ':', tail);
}

/// A table or a list of mappings that fails at a line fails with the first such failure.
pub proof fn lemma_failed_lines(lines: Vec<Result<String, IoFailure>>, protocol: Protocol, k: int)
    requires
        0 <= k < lines@.len(),
        lines@[k] is Err,
        forall|j: int| 0 <= j < k ==> #[trigger] lines@[j] is Ok,
    ensures
        procfs::table_of(Ok::<Vec<Result<String, IoFailure>>, IoFailure>(lines), protocol) == Err::<
            Seq<SocketEntry>,
            IoFailure,
        >(lines@[k]->Err_0),
        lines@[k]->Err_0.kind == FailureKind::Other ==> procfs::maps_of(
            Ok::<Vec<Result<String, IoFailure>>, IoFailure>(lines),
        ) == ProcRead::<Seq<MapEntry>>::Fatal(lines@[k]->Err_0),
        lines@[k]->Err_0.kind == FailureKind::PermissionDenied ==> procfs::maps_of(
            Ok::<Vec<Result<String, IoFailure>>, IoFailure>(lines),
        ) is PermissionDenied,
        lines@[k]->Err_0.kind == FailureKind::NotFound ==> procfs::maps_of(
            Ok::<Vec<Result<String, IoFailure>>, IoFailure>(lines),
        ) is Gone,
{
    lemma_first_failed(lines@, k);
}

proof fn lemma_first_failed(lines: Seq<Result<String, IoFailure>>, k: int)
    requires
        0 <= k < lines.len(),
        lines[k] is Err,
        forall|j: int| 0 <= j < k ==> #[trigger] lines[j] is Ok,
    ensures
        procfs::first_failure(lines) == Some(lines[k]->Err_0),
    decreases lines.len(),
{
    let init = lines.drop_last();
    if k < init.len() {
        assert forall|j: int| 0 <= j < k implies #[trigger] init[j] is Ok by {
            assert(lines[j] is Ok);
        }
        lemma_first_failed(init, k);
    } else {
        assert forall|j: int| 0 <= j < init.len() implies #[trigger] init[j] is Ok by {
            assert(lines[j] is Ok);
        }
        lemma_no_failure(init);
    }
}

} // verus!
