//! Who holds a port or a path open.

pub mod descriptors;
pub mod evidence;
pub mod holder;
pub mod procfs;
pub mod report;
pub mod scan;

use crate::filepath::FilePath;
use crate::number;
use crate::number::{parse_u32, signed_text};
use crate::text;
use crate::text::{cat2, cat5, chars_of};
use vstd::prelude::*;

verus! {

/// What is asked about: a port or a path.
#[derive(Debug, Clone, PartialEq, Eq)]
pub enum Target {
    Port(u16),
    Path(FilePath),
}

/// The search for holders failed.
#[derive(Debug, Clone, PartialEq, Eq)]
pub struct HoldsError(pub String);

impl HoldsError {
    /// The message of the error.
    pub fn message(&self) -> (r: String)
        ensures
            r@ == self.0@,
    {
        self.0.clone()
    }
}

/// A process that holds the target, and what shows it.
#[derive(Debug, Clone, PartialEq, Eq)]
pub struct Holder {
    pub pid: u32,
    pub name: String,
    pub user: String,
    pub cwd: Option<String>,
    pub evidence: Vec<Evidence>,
}

/// What shows that a process holds the target: an open descriptor or a mapping.
#[derive(Debug, Clone, Copy, PartialEq, Eq, PartialOrd, Ord, Structural)]
pub enum Evidence {
    Fd(i32, FdMode),
    Mmap(MmapPerms),
}

/// How a descriptor may be used, from the `flags` field of `/proc/<pid>/fdinfo/<fd>`.
#[derive(Debug, Clone, Copy, PartialEq, Eq, PartialOrd, Ord, Structural)]
pub enum FdMode {
    Read,
    Write,
    ReadWrite,
    Unknown,
}

/// How a mapping may be used, from the second column of `/proc/<pid>/maps`.
#[derive(Debug, Clone, Copy, PartialEq, Eq, PartialOrd, Ord, Structural)]
pub struct MmapPerms {
    pub read: bool,
    pub write: bool,
    pub execute: bool,
    pub private: bool,
}

/// How much could not be looked at.
#[derive(Debug, Clone, Copy, PartialEq, Eq, Structural)]
pub struct ScanStats {
    pub unreadable_processes: usize,
    pub unreadable_fds: usize,
    pub unreadable_maps: usize,
}

/// What identifies a file: its device and its number there.
#[derive(Debug, Clone, Copy, PartialEq, Eq, Hash, Structural)]
pub struct FileId {
    pub dev: u64,
    pub inode: u64,
}

/// The protocol of a socket.
#[derive(Debug, Clone, Copy, PartialEq, Eq, Structural)]
pub enum Protocol {
    Tcp,
    Udp,
}

/// A socket of the tables under `/proc/net`.
#[derive(Debug, Clone, Copy, PartialEq, Eq, Structural)]
pub struct SocketEntry {
    pub protocol: Protocol,
    pub port: u16,
    pub inode: u64,
}

/// A mapping of `/proc/<pid>/maps`.
#[derive(Debug, Clone, Copy, PartialEq, Eq, Structural)]
pub struct MapEntry {
    pub dev_major: u32,
    pub dev_minor: u32,
    pub inode: u64,
    pub perms: MmapPerms,
}

impl FdMode {
    /// The short form of the mode.
    pub open spec fn short(self) -> Seq<char> {
        match self {
            FdMode::Read => "r"@,
            FdMode::Write => "w"@,
            FdMode::ReadWrite => "rw"@,
            FdMode::Unknown => "?"@,
        }
    }

    /// The mode that the two lowest bits of the flags give.
    pub open spec fn of_flags(flags: int) -> FdMode {
        if flags % 4 == 0 {
            FdMode::Read
        } else if flags % 4 == 1 {
            FdMode::Write
        } else if flags % 4 == 2 {
            FdMode::ReadWrite
        } else {
            FdMode::Unknown
        }
    }

    /// The short form of the mode.
    pub fn label(self) -> (r: &'static str)
        ensures
            r@ == self.short(),
    {
        match self {
            FdMode::Read => "r",
            FdMode::Write => "w",
            FdMode::ReadWrite => "rw",
            FdMode::Unknown => "?",
        }
    }

    /// The mode that the flags give.
    pub fn from_flags(flags: u64) -> (r: Self)
        ensures
            r == FdMode::of_flags(flags as int),
    {
        assert(flags & 3 == flags % 4) by (bit_vector);
        match flags & 3 {
            0 => FdMode::Read,
            1 => FdMode::Write,
            2 => FdMode::ReadWrite,
            _ => FdMode::Unknown,
        }
    }
}

impl MmapPerms {
    /// The four letters of the permissions.
    pub open spec fn letters(self) -> Seq<char> {
        seq![
            if self.read {
                'r'
            } else {
                '-'
            },
            if self.write {
                'w'
            } else {
                '-'
            },
            if self.execute {
                'x'
            } else {
                '-'
            },
            if self.private {
                'p'
            } else {
                's'
            },
        ]
    }

    /// The permissions that four bytes give.
    pub open spec fn of_bytes(b: Seq<u8>) -> Option<MmapPerms> {
        if b.len() != 4 {
            None
        } else {
            Some(
                MmapPerms {
                    read: b[0] == 0x72,
                    write: b[1] == 0x77,
                    execute: b[2] == 0x78,
                    private: b[3] == 0x70,
                },
            )
        }
    }

    /// The four letters of the permissions.
    pub fn label(&self) -> (r: String)
        ensures
            r@ == self.letters(),
    {
        let mut s = String::new();
        s.push(
            if self.read {
                'r'
            } else {
                '-'
            },
        );
        s.push(
            if self.write {
                'w'
            } else {
                '-'
            },
        );
        s.push(
            if self.execute {
                'x'
            } else {
                '-'
            },
        );
        s.push(
            if self.private {
                'p'
            } else {
                's'
            },
        );
        assert(s@ =~= self.letters());
        s
    }

    /// The permissions that a text of four bytes gives.
    pub fn parse(s: &str) -> (r: Option<Self>)
        ensures
            r == MmapPerms::of_bytes(vstd::utf8::encode_utf8(s@)),
    {
        let bytes = s.as_bytes();
        if bytes.len() != 4 {
            return None;
        }
        Some(
            MmapPerms {
                read: bytes[0] == 0x72,
                write: bytes[1] == 0x77,
                execute: bytes[2] == 0x78,
                private: bytes[3] == 0x70,
            },
        )
    }
}

/// Reading back the letters of permissions gives the permissions.
pub proof fn lemma_perms_read_back(perms: MmapPerms)
    ensures
        MmapPerms::of_bytes(vstd::utf8::encode_utf8(perms.letters())) == Some(perms),
{
    let s = perms.letters();
    assert(vstd::utf8::is_ascii_chars(s));
    vstd::utf8::is_ascii_chars_encode_utf8(s);
}

impl Evidence {
    /// The evidence in words.
    pub open spec fn words(self) -> Seq<char> {
        match self {
            Evidence::Fd(fd, mode) => "fd "@ + number::signed_decimal(fd as int) + " ("@
                + mode.short() + ")"@,
            Evidence::Mmap(perms) => "mmap "@ + perms.letters(),
        }
    }

    /// The evidence in words.
    pub fn label(&self) -> (r: String)
        ensures
            r@ == self.words(),
    {
        match self {
            Evidence::Fd(fd, mode) => cat5(
                "fd ",
                signed_text(*fd).as_str(),
                " (",
                mode.label(),
                ")",
            ),
            Evidence::Mmap(perms) => cat2("mmap ", perms.label().as_str()),
        }
    }
}

impl ScanStats {
    /// Nothing that could not be looked at.
    pub open spec fn nothing_missed() -> ScanStats {
        ScanStats { unreadable_processes: 0, unreadable_fds: 0, unreadable_maps: 0 }
    }

    /// Something could not be looked at.
    pub open spec fn missed_something(self) -> bool {
        self.unreadable_processes > 0 || self.unreadable_fds > 0 || self.unreadable_maps > 0
    }

    /// Whether something could not be looked at.
    pub fn has_unreadable(self) -> (r: bool)
        ensures
            r == self.missed_something(),
    {
        self.unreadable_processes > 0 || self.unreadable_fds > 0 || self.unreadable_maps > 0
    }
}

impl Default for ScanStats {
    fn default() -> (r: Self)
        ensures
            r == ScanStats::nothing_missed(),
    {
        ScanStats { unreadable_processes: 0, unreadable_fds: 0, unreadable_maps: 0 }
    }
}

/// All characters are decimal digits.
pub open spec fn all_digits(s: Seq<char>) -> bool {
    forall|i: int| 0 <= i < s.len() ==> '0' <= #[trigger] s[i] <= '9'
}

/// The port that a text of digits writes: 1 to 65535.
pub open spec fn port_of(s: Seq<char>) -> Option<int> {
    match number::parse_uint(s, 10, u32::MAX as int) {
        Some(n) => if 1 <= n <= u16::MAX {
            Some(n)
        } else {
            None
        },
        None => None,
    }
}

/// The message for a text of digits that writes no port.
pub open spec fn invalid_port(s: Seq<char>) -> Seq<char> {
    "invalid port: "@ + s
}

/// Whether all characters of a text are decimal digits.
pub fn is_all_digits(s: &str) -> (r: bool)
    ensures
        r == all_digits(s@),
{
    let cs = chars_of(s);
    let mut i: usize = 0;
    while i < cs.len()
        invariant
            i <= cs@.len(),
            cs@ == s@,
            forall|k: int| 0 <= k < i ==> '0' <= #[trigger] cs@[k] <= '9',
        decreases cs@.len() - i,
    {
        if !('0' <= cs[i] && cs[i] <= '9') {
            assert(!('0' <= s@[i as int] <= '9'));
            return false;
        }
        i += 1;
    }
    true
}

/// The port that a text of digits writes.
pub fn parse_port(s: &str) -> (r: Option<u16>)
    ensures
        match r {
            Some(port) => port_of(s@) == Some(port as int),
            None => port_of(s@) is None,
        },
{
    match parse_u32(s, 10) {
        Some(n) => if 1 <= n && n <= 65535 {
            Some(n as u16)
        } else {
            None
        },
        None => None,
    }
}

/// What a text asks about: a text of digits is a port and must be a valid one, anything
/// else is a path.
pub fn parse_target(input: &str) -> (r: Result<Target, HoldsError>)
    ensures
        match r {
            Ok(Target::Port(port)) => all_digits(input@) && port_of(input@) == Some(port as int),
            Ok(Target::Path(path)) => !all_digits(input@) && path@ == vstd::utf8::encode_utf8(
                input@,
            ),
            Err(error) => all_digits(input@) && port_of(input@) is None && error.0@ == invalid_port(
                input@,
            ),
        },
        forall|n: u16|
            n > 0 && input@ == #[trigger] number::decimal(n as int) ==> r == Ok::<
                Target,
                HoldsError,
            >(Target::Port(n)),
{
    proof {
        assert forall|n: u16| n > 0 && input@ == #[trigger] number::decimal(n as int) implies {
            &&& all_digits(input@)
            &&& port_of(input@) == Some(n as int)
        } by {
            lemma_port_reads_back(n);
        }
    }
    if is_all_digits(input) {
        match parse_port(input) {
            Some(port) => Ok(Target::Port(port)),
            None => Err(HoldsError(cat2("invalid port: ", input))),
        }
    } else {
        Ok(Target::Path(FilePath::new(input)))
    }
}

/// The decimal text of every port is read as that port.
pub proof fn lemma_port_reads_back(port: u16)
    requires
        port > 0,
    ensures
        all_digits(number::decimal(port as int)),
        port_of(number::decimal(port as int)) == Some(port as int),
{
    number::lemma_decimal_digits(port as int);
    number::lemma_decimal_reads_back(port as int, u32::MAX as int);
}

} // verus!
