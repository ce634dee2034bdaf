//! The tables under `/proc` that tell who holds what.

use crate::bytes;
use crate::failure;
use crate::failure::{classify_proc_error, FailureKind, FileLines, IoFailure, ProcRead};
use crate::filepath::FilePath;
use crate::holds::{FdMode, MapEntry, MmapPerms, Protocol, SocketEntry};
use crate::number;
use crate::number::{parse_u32, parse_u64, parse_uint_text};
use crate::process;
use crate::process::parse_status_field;
use crate::text;
use crate::text::{
    chars_of, split_lines, split_on, split_once_on, split_words, strip_prefix_text, text_eq, text_of,
    trim_text,
};
use vstd::prelude::*;

verus! {

// ---------------------------------------------------------------------------
// Sockets
// ---------------------------------------------------------------------------

/// The socket of a line of a table under `/proc/net`: the local port is the hexadecimal
/// number behind the colon of the second column, the inode is the tenth column.
pub open spec fn socket_of_line(line: Seq<char>, protocol: Protocol) -> Option<SocketEntry> {
    let columns = text::words(line);
    if columns.len() < 10 {
        None
    } else {
        match (
            number::parse_uint(columns[9], 10, u64::MAX as int),
            text::split_once(columns[1], ':'),
        ) {
            (Some(inode), Some(local)) => match number::parse_uint(local.1, 16, u16::MAX as int) {
                Some(port) => Some(
                    SocketEntry { protocol, port: port as u16, inode: inode as u64 },
                ),
                None => None,
            },
            _ => None,
        }
    }
}

/// The socket of a line of a table under `/proc/net`.
pub fn parse_proc_net_line(line: &str, protocol: Protocol) -> (r: Option<SocketEntry>)
    ensures
        r == socket_of_line(line@, protocol),
{
    let columns = split_words(line);
    assert(text::views(columns@).len() == columns@.len());
    if columns.len() < 10 {
        return None;
    }
    assert(text::views(columns@)[1] == columns@[1]@);
    assert(text::views(columns@)[9] == columns@[9]@);
    let inode: u64 = match parse_u64(columns[9].as_str()) {
        Some(inode) => inode,
        None => return None,
    };
    let local = match split_once_on(columns[1].as_str(), ':') {
        Some(local) => local,
        None => return None,
    };
    match parse_uint_text(local.1.as_str(), 16, u16::MAX as u64) {
        Some(port) => Some(SocketEntry { protocol, port: port as u16, inode }),
        None => None,
    }
}

/// Why the first line that could not be read failed.
pub open spec fn first_failure(lines: Seq<Result<String, IoFailure>>) -> Option<IoFailure>
    decreases lines.len(),
{
    if lines.len() == 0 {
        None
    } else {
        match first_failure(lines.drop_last()) {
            Some(error) => Some(error),
            None => match lines.last() {
                Ok(_) => None,
                Err(error) => Some(error),
            },
        }
    }
}

/// A failure among the first lines is the first among all.
proof fn lemma_first_failure(lines: Seq<Result<String, IoFailure>>, n: int)
    requires
        0 <= n <= lines.len(),
        first_failure(lines.take(n)) is Some,
    ensures
        first_failure(lines) == first_failure(lines.take(n)),
    decreases lines.len(),
{
    if n == lines.len() {
        assert(lines.take(n) =~= lines);
    } else {
        assert(lines.drop_last().take(n) =~= lines.take(n));
        lemma_first_failure(lines.drop_last(), n);
    }
}

/// The sockets of the first `n` lines of a table; the first line is a heading.
pub open spec fn sockets_of_lines(
    lines: Seq<Result<String, IoFailure>>,
    protocol: Protocol,
    n: int,
) -> Seq<SocketEntry>
    decreases n,
{
    if n <= 1 {
        Seq::empty()
    } else {
        let before = sockets_of_lines(lines, protocol, n - 1);
        match socket_of_line(lines[n - 1]->Ok_0@, protocol) {
            Some(socket) => before.push(socket),
            None => before,
        }
    }
}

/// What reading a table gives: its sockets, or the failure that ended the reading.
pub open spec fn table_of(file: FileLines, protocol: Protocol) -> Result<
    Seq<SocketEntry>,
    IoFailure,
> {
    match file {
        Ok(lines) => match first_failure(lines@) {
            Some(error) => Err(error),
            None => Ok(sockets_of_lines(lines@, protocol, lines@.len() as int)),
        },
        Err(error) => Err(error),
    }
}

/// The sockets of a table under `/proc/net`.
pub fn parse_proc_net_file(file: &FileLines, protocol: Protocol) -> (r: Result<
    Vec<SocketEntry>,
    IoFailure,
>)
    ensures
        match r {
            Ok(sockets) => table_of(*file, protocol) == Ok::<Seq<SocketEntry>, IoFailure>(sockets@),
            Err(error) => table_of(*file, protocol) == Err::<Seq<SocketEntry>, IoFailure>(error),
        },
{
    let lines = match file {
        Ok(lines) => lines,
        Err(error) => return Err(error.clone()),
    };
    let mut entries: Vec<SocketEntry> = Vec::new();
    let mut i: usize = 0;
    assert(lines@.take(0).len() == 0);
    while i < lines.len()
        invariant
            i <= lines@.len(),
            file matches Ok(all) && all@ == lines@,
            first_failure(lines@.take(i as int)) is None,
            entries@ == sockets_of_lines(lines@, protocol, i as int),
        decreases lines@.len() - i,
    {
        assert(lines@.take(i + 1).drop_last() =~= lines@.take(i as int));
        assert(lines@.take(i + 1).last() == lines@[i as int]);
        match &lines[i] {
            Ok(line) => {
                if i > 0 {
                    if let Some(entry) = parse_proc_net_line(line.as_str(), protocol) {
                        entries.push(entry);
                    }
                }
            },
            Err(error) => {
                proof {
                    lemma_first_failure(lines@, i + 1);
                }
                return Err(error.clone());
            },
        }
        i += 1;
    }
    assert(lines@.take(i as int) =~= lines@);
    Ok(entries)
}

/// The sockets of a table behind those of the tables before it. A table that does not
/// exist has none; a failure stands.
pub open spec fn with_table(
    before: Result<Seq<SocketEntry>, IoFailure>,
    file: FileLines,
    protocol: Protocol,
) -> Result<Seq<SocketEntry>, IoFailure> {
    match before {
        Ok(sockets) => match table_of(file, protocol) {
            Ok(more) => Ok(sockets + more),
            Err(error) => if error.kind == FailureKind::NotFound {
                Ok(sockets)
            } else {
                Err(error)
            },
        },
        Err(error) => Err(error),
    }
}

fn append_table(sockets: &mut Vec<SocketEntry>, file: &FileLines, protocol: Protocol) -> (r: Result<
    (),
    IoFailure,
>)
    ensures
        match r {
            Ok(_) => with_table(Ok(old(sockets)@), *file, protocol) == Ok::<
                Seq<SocketEntry>,
                IoFailure,
            >(final(sockets)@),
            Err(error) => with_table(Ok(old(sockets)@), *file, protocol) == Err::<
                Seq<SocketEntry>,
                IoFailure,
            >(error),
        },
{
    match parse_proc_net_file(file, protocol) {
        Ok(mut entries) => {
            sockets.append(&mut entries);
            Ok(())
        },
        Err(error) => match error.kind {
            FailureKind::NotFound => Ok(()),
            _ => Err(error),
        },
    }
}

/// The sockets of the four tables, one after the other.
pub open spec fn all_sockets(
    tcp: FileLines,
    tcp6: FileLines,
    udp: FileLines,
    udp6: FileLines,
) -> Result<Seq<SocketEntry>, IoFailure> {
    let a = with_table(Ok(Seq::empty()), tcp, Protocol::Tcp);
    let b = with_table(a, tcp6, Protocol::Tcp);
    let c = with_table(b, udp, Protocol::Udp);
    with_table(c, udp6, Protocol::Udp)
}

/// The sockets of the four tables under `/proc/net`. A table that does not exist counts
/// as empty; the first one that cannot be read for another reason ends the reading.
pub fn read_proc_net_sockets(
    tcp: &FileLines,
    tcp6: &FileLines,
    udp: &FileLines,
    udp6: &FileLines,
) -> (r: Result<Vec<SocketEntry>, IoFailure>)
    ensures
        match r {
            Ok(sockets) => all_sockets(*tcp, *tcp6, *udp, *udp6) == Ok::<
                Seq<SocketEntry>,
                IoFailure,
            >(sockets@),
            Err(error) => all_sockets(*tcp, *tcp6, *udp, *udp6) == Err::<
                Seq<SocketEntry>,
                IoFailure,
            >(error),
        },
{
    let mut sockets: Vec<SocketEntry> = Vec::new();
    match append_table(&mut sockets, tcp, Protocol::Tcp) {
        Ok(_) => {},
        Err(error) => return Err(error),
    }
    match append_table(&mut sockets, tcp6, Protocol::Tcp) {
        Ok(_) => {},
        Err(error) => return Err(error),
    }
    match append_table(&mut sockets, udp, Protocol::Udp) {
        Ok(_) => {},
        Err(error) => return Err(error),
    }
    match append_table(&mut sockets, udp6, Protocol::Udp) {
        Ok(_) => {},
        Err(error) => return Err(error),
    }
    Ok(sockets)
}

/// The inode that the text of a descriptor link names: `socket:[12345]`.
pub open spec fn socket_inode(link: Seq<char>) -> Option<int> {
    match text::strip_prefix(link, "socket:["@) {
        Some(rest) => if rest.len() > 0 && rest.last() == ']' {
            number::parse_uint(rest.drop_last(), 10, u64::MAX as int)
        } else {
            None
        },
        None => None,
    }
}

/// The inode that the text of a descriptor link names.
pub fn parse_socket_text(link: &str) -> (r: Option<u64>)
    ensures
        match r {
            Some(inode) => socket_inode(link@) == Some(inode as int),
            None => socket_inode(link@) is None,
        },
{
    let rest = match strip_prefix_text(link, "socket:[") {
        Some(rest) => rest,
        None => return None,
    };
    let cs = chars_of(rest.as_str());
    if cs.len() == 0 || cs[cs.len() - 1] != ']' {
        return None;
    }
    let inner = text_of(cs.as_slice(), 0, cs.len() - 1);
    assert(inner@ =~= rest@.drop_last());
    parse_u64(inner.as_str())
}

/// The inode that a descriptor link names.
pub fn parse_socket_inode(path: &FilePath) -> (r: Option<u64>)
    ensures
        match r {
            Some(inode) => socket_inode(bytes::lossy(path@)) == Some(inode as int),
            None => socket_inode(bytes::lossy(path@)) is None,
        },
{
    let link = path.display();
    parse_socket_text(link.as_str())
}

/// The link that the kernel gives a descriptor of a socket names the inode of that socket.
pub proof fn lemma_socket_link_reads_back(inode: u64)
    ensures
        socket_inode("socket:["@ + number::decimal(inode as int) + "]"@) == Some(inode as int),
{
    let digits = number::decimal(inode as int);
    let link = "socket:["@ + digits + "]"@;
    reveal_strlit("]");
    assert("]"@ =~= seq![']']);
    assert("socket:["@.is_prefix_of(link));
    let rest = link.skip("socket:["@.len() as int);
    assert(rest =~= digits.push(']'));
    assert(rest.drop_last() =~= digits);
    number::lemma_decimal_reads_back(inode as int, u64::MAX as int);
}

// ---------------------------------------------------------------------------
// Mappings
// ---------------------------------------------------------------------------

/// The major and minor number of a device, both hexadecimal, with a colon between them.
pub open spec fn dev_of_hex(dev: Seq<char>) -> Option<(int, int)> {
    match text::split_once(dev, ':') {
        Some(parts) => match (
            number::parse_uint(parts.0, 16, u32::MAX as int),
            number::parse_uint(parts.1, 16, u32::MAX as int),
        ) {
            (Some(major), Some(minor)) => Some((major, minor)),
            _ => None,
        },
        None => None,
    }
}

/// The major and minor number that a column of `/proc/<pid>/maps` writes.
pub fn parse_dev_hex(dev: &str) -> (r: Option<(u32, u32)>)
    ensures
        match r {
            Some(pair) => dev_of_hex(dev@) == Some((pair.0 as int, pair.1 as int)),
            None => dev_of_hex(dev@) is None,
        },
{
    match split_once_on(dev, ':') {
        Some(parts) => match (parse_u32(parts.0.as_str(), 16), parse_u32(parts.1.as_str(), 16)) {
            (Some(major), Some(minor)) => Some((major, minor)),
            _ => None,
        },
        None => None,
    }
}

/// The major number of a device: the twelve bits from the eighth on, and above them the
/// bits from the forty-fourth on.
pub open spec fn major_of(dev: int) -> int {
    dev / 0x100 % 0x1000 + dev / 0x1000_0000_0000 * 0x1000
}

/// The minor number of a device: the lowest eight bits, and above them the twelve from
/// the twentieth on.
pub open spec fn minor_of(dev: int) -> int {
    dev % 0x100 + dev / 0x10_0000 % 0x1000 * 0x100
}

/// The number of the device with this major and minor number.
pub open spec fn device(major: int, minor: int) -> int {
    minor % 0x100 + major % 0x1000 * 0x100 + minor / 0x100 * 0x10_0000 + major / 0x1000
        * 0x1000_0000_0000
}

/// The major and minor number of a device are found again in its number.
pub proof fn lemma_device_reads_back(major: int, minor: int)
    requires
        0 <= major <= u32::MAX,
        0 <= minor < 0x10_0000,
    ensures
        0 <= device(major, minor) <= u64::MAX,
        major_of(device(major, minor)) == major,
        minor_of(device(major, minor)) == minor,
{
    let dev = device(major, minor);
    let a = minor % 0x100;
    let b = major % 0x1000;
    let c = minor / 0x100;
    let d = major / 0x1000;
    assert(dev / 0x100 == b + 0x1000 * (c + 0x100_0000 * d));
    assert(dev / 0x100 % 0x1000 == b);
    assert(dev / 0x1000_0000_0000 == d);
    assert(dev % 0x100 == a);
    assert(dev / 0x10_0000 == c + 0x1000 * (0x1000 * d));
    assert(dev / 0x10_0000 % 0x1000 == c);
}

/// The major and minor number of a device.
pub fn dev_major_minor(dev: u64) -> (r: (u32, u32))
    ensures
        r.0 == major_of(dev as int),
        r.1 == minor_of(dev as int),
{
    let major: u64 = ((dev & 0x0000_0000_000f_ff00) >> 8) | ((dev & 0xffff_f000_0000_0000) >> 32);
    let minor: u64 = (dev & 0x0000_0000_0000_00ff) | ((dev & 0x0000_0000_fff0_0000) >> 12);
    assert(major == dev / 0x100 % 0x1000 + dev / 0x1000_0000_0000 * 0x1000) by (bit_vector)
        requires
            major == ((dev & 0x0000_0000_000f_ff00) >> 8) | ((dev & 0xffff_f000_0000_0000) >> 32),
    ;
    assert(minor == dev % 0x100 + dev / 0x10_0000 % 0x1000 * 0x100) by (bit_vector)
        requires
            minor == (dev & 0x0000_0000_0000_00ff) | ((dev & 0x0000_0000_fff0_0000) >> 12),
    ;
    (major as u32, minor as u32)
}

/// What a mapping without legible permissions counts as.
pub open spec fn no_perms() -> MmapPerms {
    MmapPerms { read: false, write: false, execute: false, private: true }
}

/// The mapping of a line of `/proc/<pid>/maps`: the second column holds the permissions,
/// the fourth the device, the fifth the inode.
pub open spec fn map_of_line(line: Seq<char>) -> Option<MapEntry> {
    let columns = text::words(line);
    if columns.len() < 5 {
        None
    } else {
        match (number::parse_uint(columns[4], 10, u64::MAX as int), dev_of_hex(columns[3])) {
            (Some(inode), Some(dev)) => Some(
                MapEntry {
                    dev_major: dev.0 as u32,
                    dev_minor: dev.1 as u32,
                    inode: inode as u64,
                    perms: match MmapPerms::of_bytes(vstd::utf8::encode_utf8(columns[1])) {
                        Some(perms) => perms,
                        None => no_perms(),
                    },
                },
            ),
            _ => None,
        }
    }
}

fn parse_map_line(line: &str) -> (r: Option<MapEntry>)
    ensures
        r == map_of_line(line@),
{
    let columns = split_words(line);
    assert(text::views(columns@).len() == columns@.len());
    if columns.len() < 5 {
        return None;
    }
    assert(text::views(columns@)[1] == columns@[1]@);
    assert(text::views(columns@)[3] == columns@[3]@);
    assert(text::views(columns@)[4] == columns@[4]@);
    let inode: u64 = match parse_u64(columns[4].as_str()) {
        Some(inode) => inode,
        None => return None,
    };
    let (dev_major, dev_minor) = match parse_dev_hex(columns[3].as_str()) {
        Some(dev) => dev,
        None => return None,
    };
    let perms = match MmapPerms::parse(columns[1].as_str()) {
        Some(perms) => perms,
        None => MmapPerms { read: false, write: false, execute: false, private: true },
    };
    Some(MapEntry { dev_major, dev_minor, inode, perms })
}

/// The mappings of the first `n` lines.
pub open spec fn maps_of_lines(lines: Seq<Result<String, IoFailure>>, n: int) -> Seq<MapEntry>
    decreases n,
{
    if n <= 0 {
        Seq::empty()
    } else {
        let before = maps_of_lines(lines, n - 1);
        match map_of_line(lines[n - 1]->Ok_0@) {
            Some(entry) => before.push(entry),
            None => before,
        }
    }
}

/// What reading the mappings of a process gives: all of them, or what the failure that
/// ended the reading says about the process.
pub open spec fn maps_of(file: FileLines) -> ProcRead<Seq<MapEntry>> {
    match file {
        Ok(lines) => match first_failure(lines@) {
            Some(error) => failure::classified(error),
            None => ProcRead::Done(maps_of_lines(lines@, lines@.len() as int)),
        },
        Err(error) => failure::classified(error),
    }
}

/// The mappings of a process.
pub fn read_proc_maps(file: &FileLines) -> (r: ProcRead<Vec<MapEntry>>)
    ensures
        match r {
            ProcRead::Done(maps) => maps_of(*file) == ProcRead::Done(maps@),
            ProcRead::PermissionDenied => maps_of(*file) == ProcRead::<
                Seq<MapEntry>,
            >::PermissionDenied,
            ProcRead::Gone => maps_of(*file) == ProcRead::<Seq<MapEntry>>::Gone,
            ProcRead::Fatal(error) => maps_of(*file) == ProcRead::<Seq<MapEntry>>::Fatal(error),
        },
{
    let lines = match file {
        Ok(lines) => lines,
        Err(error) => return classify_proc_error(error.clone()),
    };
    let mut entries: Vec<MapEntry> = Vec::new();
    let mut i: usize = 0;
    assert(lines@.take(0).len() == 0);
    while i < lines.len()
        invariant
            i <= lines@.len(),
            file matches Ok(all) && all@ == lines@,
            first_failure(lines@.take(i as int)) is None,
            entries@ == maps_of_lines(lines@, i as int),
        decreases lines@.len() - i,
    {
        assert(lines@.take(i + 1).drop_last() =~= lines@.take(i as int));
        assert(lines@.take(i + 1).last() == lines@[i as int]);
        match &lines[i] {
            Ok(line) => {
                if let Some(entry) = parse_map_line(line.as_str()) {
                    entries.push(entry);
                }
            },
            Err(error) => {
                proof {
                    lemma_first_failure(lines@, i + 1);
                }
                return classify_proc_error(error.clone());
            },
        }
        i += 1;
    }
    assert(lines@.take(i as int) =~= lines@);
    ProcRead::Done(entries)
}

// ---------------------------------------------------------------------------
// Descriptors, users, process numbers
// ---------------------------------------------------------------------------

/// The mode that the `flags` line of a `fdinfo` text gives. Flags that are no number
/// count as 0; without such a line the mode is unknown.
pub open spec fn mode_of_info(content: Option<Seq<char>>) -> FdMode {
    match content {
        Some(info) => match process::first_value(text::lines(info), "flags:"@) {
            Some(value) => match number::parse_uint(value, 10, u64::MAX as int) {
                Some(flags) => FdMode::of_flags(flags),
                None => FdMode::of_flags(0),
            },
            None => FdMode::Unknown,
        },
        None => FdMode::Unknown,
    }
}

/// The mode of a descriptor from the text of its `fdinfo` file.
pub fn read_fd_mode(info: &Option<String>) -> (r: FdMode)
    ensures
        r == mode_of_info(process::opt_view(*info)),
{
    let content = match info {
        Some(content) => content,
        None => return FdMode::Unknown,
    };
    let lines = split_lines(content.as_str());
    let ghost all = text::lines(content@);
    let mut i: usize = 0;
    assert(all.skip(0) =~= all);
    while i < lines.len()
        invariant
            i <= lines@.len(),
            text::views(lines@) == all,
            all == text::lines(content@),
            process::opt_view(*info) == Some(content@),
            process::first_value(all.skip(i as int), "flags:"@) == process::first_value(
                all,
                "flags:"@,
            ),
        decreases lines@.len() - i,
    {
        proof {
            assert(all.skip(i as int)[0] == lines@[i as int]@);
            assert(all.skip(i as int).skip(1) =~= all.skip(i + 1));
        }
        if let Some(rest) = strip_prefix_text(lines[i].as_str(), "flags:") {
            let value = trim_text(rest.as_str());
            let flags: u64 = match parse_u64(value.as_str()) {
                Some(flags) => flags,
                None => 0,
            };
            return FdMode::from_flags(flags);
        }
        i += 1;
    }
    FdMode::Unknown
}

/// The value of the field `key` of a status text.
pub fn parse_status_value(status: &str, key: &str) -> (r: Option<String>)
    ensures
        match r {
            Some(value) => process::status_field(status@, key@) == Some(value@),
            None => process::status_field(status@, key@) is None,
        },
{
    parse_status_field(status, key)
}

/// The name on the first line of a passwd text whose third field is the text `uid`.
pub open spec fn name_of_uid_text(lines: Seq<Seq<char>>, uid: Seq<char>) -> Option<Seq<char>>
    decreases lines.len(),
{
    if lines.len() == 0 {
        None
    } else {
        let fields = text::split(lines[0], ':');
        if fields.len() >= 3 && fields[2] == uid {
            Some(fields[0])
        } else {
            name_of_uid_text(lines.skip(1), uid)
        }
    }
}

/// The name that a passwd text gives for a user.
pub open spec fn resolved_name(passwd: Option<Seq<char>>, uid: Seq<char>) -> Option<Seq<char>> {
    match passwd {
        Some(content) => name_of_uid_text(text::lines(content), uid),
        None => None,
    }
}

/// The name that the text of `/etc/passwd` gives for a user.
pub fn resolve_username(passwd: &Option<String>, uid: &str) -> (r: Option<String>)
    ensures
        match r {
            Some(name) => resolved_name(process::opt_view(*passwd), uid@) == Some(name@),
            None => resolved_name(process::opt_view(*passwd), uid@) is None,
        },
{
    let content = match passwd {
        Some(content) => content,
        None => return None,
    };
    let lines = split_lines(content.as_str());
    let ghost all = text::lines(content@);
    let mut i: usize = 0;
    assert(all.skip(0) =~= all);
    while i < lines.len()
        invariant
            i <= lines@.len(),
            text::views(lines@) == all,
            all == text::lines(content@),
            process::opt_view(*passwd) == Some(content@),
            name_of_uid_text(all.skip(i as int), uid@) == name_of_uid_text(all, uid@),
        decreases lines@.len() - i,
    {
        proof {
            assert(all.skip(i as int)[0] == lines@[i as int]@);
            assert(all.skip(i as int).skip(1) =~= all.skip(i + 1));
        }
        let fields = split_on(lines[i].as_str(), ':');
        assert(text::views(fields@).len() == fields@.len());
        if fields.len() >= 3 {
            assert(text::views(fields@)[0] == fields@[0]@);
            assert(text::views(fields@)[2] == fields@[2]@);
            if text_eq(fields[2].as_str(), uid) {
                return Some(fields[0].clone());
            }
        }
        i += 1;
    }
    None
}

/// The process numbers among the names of the entries of `/proc`, in the order of the
/// names.
pub open spec fn pids_of(names: Seq<Seq<char>>) -> Seq<u32>
    decreases names.len(),
{
    if names.len() == 0 {
        Seq::empty()
    } else {
        let before = pids_of(names.drop_last());
        match number::parse_uint(names.last(), 10, u32::MAX as int) {
            Some(pid) => before.push(pid as u32),
            None => before,
        }
    }
}

/// Each number is at least as great as the one before it.
pub open spec fn ascending(s: Seq<u32>) -> bool {
    forall|i: int, j: int| 0 <= i < j < s.len() ==> #[trigger] s[i] <= #[trigger] s[j]
}

fn insert_pid(pids: &mut Vec<u32>, pid: u32)
    requires
        ascending(old(pids)@),
    ensures
        ascending(final(pids)@),
        final(pids)@.to_multiset() == old(pids)@.to_multiset().insert(pid),
{
    let mut at: usize = pids.len();
    while at > 0 && pids[at - 1] > pid
        invariant
            at <= pids@.len(),
            pids@ == old(pids)@,
            ascending(pids@),
            forall|k: int| at <= k < pids@.len() ==> pids@[k] > pid,
        decreases at,
    {
        at -= 1;
    }
    proof {
        vstd::seq_lib::to_multiset_insert(pids@, at as int, pid);
    }
    pids.insert(at, pid);
}

/// The process numbers among the names of the entries of `/proc`, in ascending order.
pub fn list_pids(names: &Vec<String>) -> (r: Vec<u32>)
    ensures
        ascending(r@),
        r@.to_multiset() == pids_of(text::views(names@)).to_multiset(),
{
    let ghost all = text::views(names@);
    let mut pids: Vec<u32> = Vec::new();
    let mut i: usize = 0;
    assert(pids@ =~= pids_of(all.take(0)));
    while i < names.len()
        invariant
            i <= names@.len(),
            all == text::views(names@),
            ascending(pids@),
            pids@.to_multiset() == pids_of(all.take(i as int)).to_multiset(),
        decreases names@.len() - i,
    {
        let ghost before = pids_of(all.take(i as int));
        proof {
            let next = all.take(i + 1);
            assert(next.drop_last() =~= all.take(i as int));
            assert(next.last() == names@[i as int]@);
        }
        if let Some(pid) = parse_u32(names[i].as_str(), 10) {
            insert_pid(&mut pids, pid);
            proof {
                vstd::seq_lib::to_multiset_build(before, pid);
            }
        }
        i += 1;
    }
    assert(all.take(i as int) =~= all);
    pids
}

} // verus!
