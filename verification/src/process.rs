//! What is known about one process, read from its files under `/proc`.

use crate::bytes;
use crate::bytes::{bytes_of, exact_text, split_bytes};
use crate::number;
use crate::number::{decimal_text, human_kb, parse_u32, parse_u64};
use crate::text;
use crate::text::{
    after_last_of, cat2, cat3, cat5, cat6, cat7, chars_of, contains_char, ends_with, join_texts,
    push_text, split_lines, split_on, split_words, strip_prefix_text, trim_text,
};
use vstd::prelude::*;
use vstd::utf8;

verus! {

/// The state of a process, as the third field of `/proc/<pid>/stat` gives it.
#[derive(Debug, Clone, Copy, PartialEq, Eq, Structural)]
pub enum ProcState {
    Running,
    Sleep,
    Uninterruptible,
    Zombie,
    Traced,
    Stopped,
    Paging,
    Dead,
    Idle,
    Unknown,
}

impl ProcState {
    /// The state that a letter stands for.
    pub open spec fn of_letter(c: char) -> ProcState {
        if c == 'R' {
            ProcState::Running
        } else if c == 'S' {
            ProcState::Sleep
        } else if c == 'D' {
            ProcState::Uninterruptible
        } else if c == 'Z' {
            ProcState::Zombie
        } else if c == 'T' {
            ProcState::Traced
        } else if c == 't' {
            ProcState::Stopped
        } else if c == 'P' {
            ProcState::Paging
        } else if c == 'X' || c == 'x' {
            ProcState::Dead
        } else if c == 'I' {
            ProcState::Idle
        } else {
            ProcState::Unknown
        }
    }

    /// The letter that stands for the state.
    pub open spec fn letter(self) -> Seq<char> {
        match self {
            ProcState::Running => "R"@,
            ProcState::Sleep => "S"@,
            ProcState::Uninterruptible => "D"@,
            ProcState::Zombie => "Z"@,
            ProcState::Traced => "T"@,
            ProcState::Stopped => "t"@,
            ProcState::Paging => "P"@,
            ProcState::Dead => "X"@,
            ProcState::Idle => "I"@,
            ProcState::Unknown => "?"@,
        }
    }

    /// The state in words.
    pub open spec fn words(self) -> Seq<char> {
        match self {
            ProcState::Running => "running"@,
            ProcState::Sleep => "sleeping"@,
            ProcState::Uninterruptible => "uninterruptible-disk-sleep"@,
            ProcState::Zombie => "zombie"@,
            ProcState::Traced => "traced/stopped"@,
            ProcState::Stopped => "stopped"@,
            ProcState::Paging => "paging"@,
            ProcState::Dead => "dead"@,
            ProcState::Idle => "idle"@,
            ProcState::Unknown => "unknown"@,
        }
    }

    /// The state that a letter stands for.
    pub fn from_char(c: char) -> (r: Self)
        ensures
            r == ProcState::of_letter(c),
    {
        match c {
            'R' => ProcState::Running,
            'S' => ProcState::Sleep,
            'D' => ProcState::Uninterruptible,
            'Z' => ProcState::Zombie,
            'T' => ProcState::Traced,
            't' => ProcState::Stopped,
            'P' => ProcState::Paging,
            'X' | 'x' => ProcState::Dead,
            'I' => ProcState::Idle,
            _ => ProcState::Unknown,
        }
    }

    /// The letter that stands for the state.
    pub fn label(self) -> (r: &'static str)
        ensures
            r@ == self.letter(),
    {
        match self {
            ProcState::Running => "R",
            ProcState::Sleep => "S",
            ProcState::Uninterruptible => "D",
            ProcState::Zombie => "Z",
            ProcState::Traced => "T",
            ProcState::Stopped => "t",
            ProcState::Paging => "P",
            ProcState::Dead => "X",
            ProcState::Idle => "I",
            ProcState::Unknown => "?",
        }
    }

    /// The state in words.
    pub fn description(self) -> (r: &'static str)
        ensures
            r@ == self.words(),
    {
        match self {
            ProcState::Running => "running",
            ProcState::Sleep => "sleeping",
            ProcState::Uninterruptible => "uninterruptible-disk-sleep",
            ProcState::Zombie => "zombie",
            ProcState::Traced => "traced/stopped",
            ProcState::Stopped => "stopped",
            ProcState::Paging => "paging",
            ProcState::Dead => "dead",
            ProcState::Idle => "idle",
            ProcState::Unknown => "unknown",
        }
    }
}

/// The label of every state is one letter, and that letter stands for the state.
pub proof fn lemma_label_reads_back(state: ProcState)
    ensures
        state.letter().len() == 1,
        ProcState::of_letter(state.letter()[0]) == state,
{
    reveal_strlit("R");
    reveal_strlit("S");
    reveal_strlit("D");
    reveal_strlit("Z");
    reveal_strlit("T");
    reveal_strlit("t");
    reveal_strlit("P");
    reveal_strlit("X");
    reveal_strlit("I");
    reveal_strlit("?");
}

// ---------------------------------------------------------------------------
// /proc/<pid>/status
// ---------------------------------------------------------------------------

/// What follows `prefix` on the first line that starts with it, without white space at
/// its ends.
pub open spec fn first_value(lines: Seq<Seq<char>>, prefix: Seq<char>) -> Option<Seq<char>>
    decreases lines.len(),
{
    if lines.len() == 0 {
        None
    } else {
        match text::strip_prefix(lines[0], prefix) {
            Some(rest) => Some(text::trim(rest)),
            None => first_value(lines.skip(1), prefix),
        }
    }
}

/// The value of the field `key` of a status text; an empty value counts as none.
pub open spec fn status_field(status: Seq<char>, key: Seq<char>) -> Option<Seq<char>> {
    match first_value(text::lines(status), key + ":"@) {
        Some(value) => if value.len() > 0 {
            Some(value)
        } else {
            None
        },
        None => None,
    }
}

/// The number that the field `key` starts with.
pub open spec fn status_number(status: Seq<char>, key: Seq<char>) -> Option<int> {
    match status_field(status, key) {
        Some(value) => if text::words(value).len() > 0 {
            number::parse_uint(text::words(value)[0], 10, u64::MAX as int)
        } else {
            None
        },
        None => None,
    }
}

/// The number that the field `key` starts with, where it is of the range of `u32`.
pub open spec fn status_number_u32(status: Seq<char>, key: Seq<char>) -> Option<int> {
    match status_number(status, key) {
        Some(n) => if n <= u32::MAX {
            Some(n)
        } else {
            None
        },
        None => None,
    }
}

/// The real and the effective user of a status text. An effective user that is missing
/// or no number counts as 0.
pub open spec fn uid_pair(status: Seq<char>) -> Option<(int, int)> {
    match status_field(status, "Uid"@) {
        Some(value) => {
            let fields = text::words(value);
            if fields.len() == 0 {
                None
            } else {
                match number::parse_uint(fields[0], 10, u32::MAX as int) {
                    Some(owner) => {
                        let effective = if fields.len() > 1 {
                            number::parse_uint(fields[1], 10, u32::MAX as int)
                        } else {
                            None
                        };
                        match effective {
                            Some(e) => Some((owner, e)),
                            None => Some((owner, 0)),
                        }
                    },
                    None => None,
                }
            }
        },
        None => None,
    }
}

/// The value of the field `key` of a status text.
pub fn parse_status_field(status: &str, key: &str) -> (r: Option<String>)
    ensures
        match r {
            Some(value) => status_field(status@, key@) == Some(value@),
            None => status_field(status@, key@) is None,
        },
{
    let prefix = cat2(key, ":");
    let lines = split_lines(status);
    let ghost all = text::lines(status@);
    let mut i: usize = 0;
    assert(all.skip(0) =~= all);
    while i < lines.len()
        invariant
            i <= lines@.len(),
            text::views(lines@) == all,
            all == text::lines(status@),
            prefix@ == key@ + ":"@,
            first_value(all.skip(i as int), prefix@) == first_value(all, prefix@),
        decreases lines@.len() - i,
    {
        proof {
            assert(all.skip(i as int)[0] == lines@[i as int]@);
            assert(all.skip(i as int).skip(1) =~= all.skip(i + 1));
        }
        if let Some(rest) = strip_prefix_text(lines[i].as_str(), prefix.as_str()) {
            let value = trim_text(rest.as_str());
            if value.as_str().is_empty() {
                return None;
            }
            return Some(value);
        }
        i += 1;
    }
    None
}

/// The number that the field `key` of a status text starts with.
pub fn parse_status_number(status: &str, key: &str) -> (r: Option<u64>)
    ensures
        match r {
            Some(n) => status_number(status@, key@) == Some(n as int),
            None => status_number(status@, key@) is None,
        },
{
    let value = match parse_status_field(status, key) {
        Some(value) => value,
        None => return None,
    };
    let parts = split_words(value.as_str());
    assert(text::views(parts@).len() == parts@.len());
    if parts.len() == 0 {
        return None;
    }
    assert(text::views(parts@)[0] == parts@[0]@);
    parse_u64(parts[0].as_str())
}

/// The number that the field `key` of a status text starts with, of the range of `u32`.
pub fn parse_status_number_u32(status: &str, key: &str) -> (r: Option<u32>)
    ensures
        match r {
            Some(n) => status_number_u32(status@, key@) == Some(n as int),
            None => status_number_u32(status@, key@) is None,
        },
{
    match parse_status_number(status, key) {
        Some(n) => if n <= u32::MAX as u64 {
            Some(n as u32)
        } else {
            None
        },
        None => None,
    }
}

/// The real and the effective user of a status text.
pub fn parse_uid_pair(status: &str) -> (r: Option<(u32, u32)>)
    ensures
        match r {
            Some(pair) => uid_pair(status@) == Some((pair.0 as int, pair.1 as int)),
            None => uid_pair(status@) is None,
        },
{
    let value = match parse_status_field(status, "Uid") {
        Some(value) => value,
        None => return None,
    };
    let parts = split_words(value.as_str());
    assert(text::views(parts@).len() == parts@.len());
    if parts.len() == 0 {
        return None;
    }
    assert(text::views(parts@)[0] == parts@[0]@);
    let owner: u32 = match parse_u32(parts[0].as_str(), 10) {
        Some(owner) => owner,
        None => return None,
    };
    if parts.len() > 1 {
        assert(text::views(parts@)[1] == parts@[1]@);
        if let Some(effective) = parse_u32(parts[1].as_str(), 10) {
            return Some((owner, effective));
        }
    }
    Some((owner, 0))
}

// ---------------------------------------------------------------------------
// The other files of a process
// ---------------------------------------------------------------------------

/// The state that a stat text gives behind the last closing parenthesis.
pub open spec fn stat_state(stat: Seq<char>) -> Option<ProcState> {
    let after = text::trim_start(text::after_last(stat, ')'));
    if stat.contains(')') && after.len() > 0 {
        Some(ProcState::of_letter(after[0]))
    } else {
        None
    }
}

/// The state of a process from the text of its `stat` file.
pub fn read_stat_state(stat: &str) -> (r: Option<ProcState>)
    ensures
        r == stat_state(stat@),
{
    if !contains_char(stat, ')') {
        return None;
    }
    let after = after_last_of(stat, ')');
    let cs = chars_of(after.as_str());
    let mut i: usize = 0;
    while i < cs.len() && text::is_whitespace(cs[i])
        invariant
            i <= cs@.len(),
            forall|k: int| 0 <= k < i ==> text::is_space(#[trigger] cs@[k]),
        decreases cs@.len() - i,
    {
        i += 1;
    }
    proof {
        text::lemma_prefix_len_is(cs@, text::space(), i as int);
    }
    if i == cs.len() {
        return None;
    }
    Some(ProcState::from_char(cs[i]))
}

/// The last line that is not blank.
pub open spec fn last_visible_line(lines: Seq<Seq<char>>) -> Option<Seq<char>>
    decreases lines.len(),
{
    if lines.len() == 0 {
        None
    } else if text::trim(lines.last()).len() > 0 {
        Some(lines.last())
    } else {
        last_visible_line(lines.drop_last())
    }
}

/// The last line of a text that is not blank.
fn find_last_visible_line(content: &str) -> (r: Option<String>)
    ensures
        match r {
            Some(line) => last_visible_line(text::lines(content@)) == Some(line@),
            None => last_visible_line(text::lines(content@)) is None,
        },
{
    let lines = split_lines(content);
    let ghost all = text::lines(content@);
    let mut n: usize = lines.len();
    assert(all.take(n as int) =~= all);
    while n > 0
        invariant
            n <= lines@.len(),
            text::views(lines@) == all,
            last_visible_line(all.take(n as int)) == last_visible_line(all),
            all == text::lines(content@),
        decreases n,
    {
        assert(all.take(n as int).last() == lines@[n - 1]@);
        assert(all.take(n as int).drop_last() =~= all.take(n - 1));
        let trimmed = trim_text(lines[n - 1].as_str());
        if !trimmed.as_str().is_empty() {
            return Some(lines[n - 1].clone());
        }
        n -= 1;
    }
    None
}

/// The control group of a process: the last line of its `cgroup` file that is not blank.
pub open spec fn cgroup_line(content: Seq<char>) -> Option<Seq<char>> {
    match last_visible_line(text::lines(content)) {
        Some(line) => Some(text::trim(line)),
        None => None,
    }
}

/// The control group of a process from the text of its `cgroup` file.
pub fn read_cgroup(content: &str) -> (r: Option<String>)
    ensures
        match r {
            Some(line) => cgroup_line(content@) == Some(line@),
            None => cgroup_line(content@) is None,
        },
{
    match find_last_visible_line(content) {
        Some(line) => Some(trim_text(line.as_str())),
        None => None,
    }
}

/// The endings of the names of systemd units.
pub open spec fn unit_suffixes() -> Seq<Seq<char>> {
    seq![
        ".service"@,
        ".socket"@,
        ".scope"@,
        ".mount"@,
        ".swap"@,
        ".timer"@,
        ".target"@,
    ]
}

/// The text ends in one of the endings of unit names.
pub open spec fn is_unit(component: Seq<char>) -> bool {
    exists|i: int|
        0 <= i < unit_suffixes().len() && (#[trigger] unit_suffixes()[i]).is_suffix_of(component)
}

/// The last of the components that is the name of a unit.
pub open spec fn last_unit(components: Seq<Seq<char>>) -> Option<Seq<char>>
    decreases components.len(),
{
    if components.len() == 0 {
        None
    } else if is_unit(components.last()) {
        Some(components.last())
    } else {
        last_unit(components.drop_last())
    }
}

/// The unit that a control group path names.
pub open spec fn systemd_unit(cgroup: Seq<char>) -> Option<Seq<char>> {
    last_unit(text::split(cgroup, '/'))
}

/// Whether a component of a control group path is the name of a unit.
fn names_unit(component: &str) -> (r: bool)
    ensures
        r == is_unit(component@),
{
    let r = ends_with(component, ".service") || ends_with(component, ".socket") || ends_with(
        component,
        ".scope",
    ) || ends_with(component, ".mount") || ends_with(component, ".swap") || ends_with(
        component,
        ".timer",
    ) || ends_with(component, ".target");
    proof {
        let c = component@;
        let all = unit_suffixes();
        assert(all[0] == ".service"@ && all[1] == ".socket"@ && all[2] == ".scope"@ && all[3]
            == ".mount"@ && all[4] == ".swap"@ && all[5] == ".timer"@ && all[6] == ".target"@);
        if is_unit(c) {
            let i = choose|i: int| 0 <= i < all.len() && (#[trigger] all[i]).is_suffix_of(c);
            assert(i == 0 || i == 1 || i == 2 || i == 3 || i == 4 || i == 5 || i == 6);
        }
    }
    r
}

/// The unit that a control group path names: its last component with the ending of a
/// unit.
pub fn extract_systemd_unit(cgroup: &str) -> (r: Option<String>)
    ensures
        match r {
            Some(unit) => systemd_unit(cgroup@) == Some(unit@),
            None => systemd_unit(cgroup@) is None,
        },
{
    let components = split_on(cgroup, '/');
    let ghost all = text::split(cgroup@, '/');
    let mut n: usize = components.len();
    assert(all.take(n as int) =~= all);
    while n > 0
        invariant
            n <= components@.len(),
            text::views(components@) == all,
            last_unit(all.take(n as int)) == last_unit(all),
            all == text::split(cgroup@, '/'),
        decreases n,
    {
        assert(all.take(n as int).last() == components@[n - 1]@);
        assert(all.take(n as int).drop_last() =~= all.take(n - 1));
        if names_unit(components[n - 1].as_str()) {
            return Some(components[n - 1].clone());
        }
        n -= 1;
    }
    None
}

/// The unit of a process: what its control group names behind the last colon.
pub open spec fn unit_of_process(content: Seq<char>) -> Option<Seq<char>> {
    match last_visible_line(text::lines(content)) {
        Some(line) => systemd_unit(text::after_last(line, ':')),
        None => None,
    }
}

/// The unit of a process from the text of its `cgroup` file.
pub fn read_systemd_unit(content: &str) -> (r: Option<String>)
    ensures
        match r {
            Some(unit) => unit_of_process(content@) == Some(unit@),
            None => unit_of_process(content@) is None,
        },
{
    match find_last_visible_line(content) {
        Some(line) => {
            let path = after_last_of(line.as_str(), ':');
            extract_systemd_unit(path.as_str())
        },
        None => None,
    }
}

/// ASCII white space.
pub open spec fn is_ascii_space(b: u8) -> bool {
    b == 0x20 || b == 0x09 || b == 0x0a || b == 0x0c || b == 0x0d
}

/// A byte string without the ASCII white space at its end.
pub open spec fn trim_ascii_end(b: Seq<u8>) -> Seq<u8>
    decreases b.len(),
{
    if b.len() > 0 && is_ascii_space(b.last()) {
        trim_ascii_end(b.drop_last())
    } else {
        b
    }
}

/// The predicate "is UTF-8 and not empty".
pub open spec fn argument() -> spec_fn(Seq<u8>) -> bool {
    |piece: Seq<u8>| piece.len() > 0 && utf8::valid_utf8(piece)
}

/// The arguments that a `cmdline` file holds, each ended by a zero byte; empty ones and
/// ones that are not UTF-8 are left out.
pub open spec fn arguments(content: Seq<u8>) -> Seq<Seq<char>> {
    text::split(trim_ascii_end(content), 0u8).filter(argument()).map_values(
        |piece: Seq<u8>| utf8::decode_utf8(piece),
    )
}

/// The command line of a process: its arguments with a blank between each two, or `None`
/// where it has none.
pub open spec fn command_line(content: Seq<u8>) -> Option<Seq<char>> {
    if arguments(content).len() == 0 {
        None
    } else {
        Some(text::join(arguments(content), " "@))
    }
}

/// The command line of a process from the bytes of its `cmdline` file.
pub fn read_cmdline(content: &Vec<u8>) -> (r: Option<String>)
    ensures
        match r {
            Some(line) => command_line(content@) == Some(line@),
            None => command_line(content@) is None,
        },
{
    let mut end: usize = content.len();
    assert(content@.take(end as int) =~= content@);
    while end > 0 && (content[end - 1] == 0x20 || content[end - 1] == 0x09 || content[end - 1]
        == 0x0a || content[end - 1] == 0x0c || content[end - 1] == 0x0d)
        invariant
            end <= content@.len(),
            trim_ascii_end(content@.take(end as int)) == trim_ascii_end(content@),
        decreases end,
    {
        assert(content@.take(end as int).drop_last() =~= content@.take(end - 1));
        end -= 1;
    }
    let trimmed = bytes_of(content.as_slice(), 0, end);
    assert(trimmed@ =~= content@.take(end as int));
    let pieces = split_bytes(trimmed.as_slice(), 0);
    let ghost all = bytes::byte_views(pieces@);
    let ghost decode = |piece: Seq<u8>| utf8::decode_utf8(piece);
    let mut tokens: Vec<String> = Vec::new();
    let mut i: usize = 0;
    proof {
        reveal(Seq::filter);
        assert(all.take(0).filter(argument()).map_values(decode) =~= text::views(tokens@));
    }
    while i < pieces.len()
        invariant
            i <= pieces@.len(),
            all == bytes::byte_views(pieces@),
            decode == (|piece: Seq<u8>| utf8::decode_utf8(piece)),
            text::views(tokens@) == all.take(i as int).filter(argument()).map_values(decode),
        decreases pieces@.len() - i,
    {
        let ghost before = all.take(i as int).filter(argument());
        proof {
            reveal(Seq::filter);
            let next = all.take(i + 1);
            assert(next.drop_last() =~= all.take(i as int));
            assert(next.last() == pieces@[i as int]@);
            if argument()(next.last()) {
                assert(before.push(next.last()).map_values(decode) =~= before.map_values(
                    decode,
                ).push(decode(next.last())));
            }
        }
        if pieces[i].len() > 0 {
            if let Some(token) = exact_text(pieces[i].as_slice()) {
                push_text(&mut tokens, token);
            }
        }
        i += 1;
    }
    assert(all.take(i as int) =~= all);
    assert(text::views(tokens@).len() == tokens@.len());
    assert(text::views(tokens@) == arguments(content@));
    if tokens.len() == 0 {
        None
    } else {
        Some(join_texts(&tokens, " "))
    }
}

// ---------------------------------------------------------------------------
// User names
// ---------------------------------------------------------------------------

/// The name on the first line of a passwd text whose third field is the number `uid`.
pub open spec fn name_of_uid(lines: Seq<Seq<char>>, uid: int) -> Option<Seq<char>>
    decreases lines.len(),
{
    if lines.len() == 0 {
        None
    } else {
        let fields = text::split(lines[0], ':');
        if fields.len() >= 3 && number::parse_uint(fields[2], 10, u32::MAX as int) == Some(uid) {
            Some(fields[0])
        } else {
            name_of_uid(lines.skip(1), uid)
        }
    }
}

/// The name of a user, or the number where no line gives a name.
pub open spec fn username(passwd: Option<Seq<char>>, uid: int) -> Seq<char> {
    match passwd {
        Some(content) => match name_of_uid(text::lines(content), uid) {
            Some(name) => name,
            None => number::decimal(uid),
        },
        None => number::decimal(uid),
    }
}

/// The text of an optional string.
pub open spec fn opt_view(s: Option<String>) -> Option<Seq<char>> {
    match s {
        Some(t) => Some(t@),
        None => None,
    }
}

/// The name of a user from the text of `/etc/passwd`, or the number where that text is
/// missing or gives no name.
pub fn lookup_username(passwd: &Option<String>, uid: u32) -> (r: String)
    ensures
        r@ == username(opt_view(*passwd), uid as int),
{
    let content = match passwd {
        Some(content) => content,
        None => return decimal_text(uid as u64),
    };
    let lines = split_lines(content.as_str());
    let ghost all = text::lines(content@);
    let mut i: usize = 0;
    assert(all.skip(0) =~= all);
    while i < lines.len()
        invariant
            i <= lines@.len(),
            text::views(lines@) == all,
            name_of_uid(all.skip(i as int), uid as int) == name_of_uid(all, uid as int),
            opt_view(*passwd) == Some(content@),
            all == text::lines(content@),
        decreases lines@.len() - i,
    {
        proof {
            assert(all.skip(i as int)[0] == lines@[i as int]@);
            assert(all.skip(i as int).skip(1) =~= all.skip(i + 1));
        }
        let fields = split_on(lines[i].as_str(), ':');
        assert(text::views(fields@).len() == fields@.len());
        if fields.len() >= 3 {
            assert(text::views(fields@)[0] == fields@[0]@);
            assert(text::views(fields@)[2] == fields@[2]@);
            if let Some(parsed) = parse_u32(fields[2].as_str(), 10) {
                if parsed == uid {
                    return fields[0].clone();
                }
            }
        }
        i += 1;
    }
    decimal_text(uid as u64)
}

// ---------------------------------------------------------------------------
// The context of a process
// ---------------------------------------------------------------------------

/// What is known about one process.
#[derive(Debug, Clone)]
pub struct ProcessContext {
    pub pid: u32,
    pub ppid: u32,
    pub name: String,
    pub cmdline: Option<String>,
    pub uid: u32,
    pub euid: u32,
    pub state: ProcState,
    pub vm_rss_kb: u64,
    pub vm_size_kb: u64,
    pub vm_swap_kb: u64,
    pub threads: u64,
    pub cgroup: Option<String>,
    pub netns_inode: Option<u64>,
    pub pidns_inode: Option<u64>,
}

/// `s` with a backslash before every double quote.
pub open spec fn escaped(s: Seq<char>) -> Seq<char>
    decreases s.len(),
{
    if s.len() == 0 {
        Seq::empty()
    } else if s.last() == '"' {
        escaped(s.drop_last()).push('\\').push('"')
    } else {
        escaped(s.drop_last()).push(s.last())
    }
}

/// `s` in quotes where it holds a blank or a quote: single ones, or, where it holds a
/// single quote itself, double ones.
pub open spec fn quoted(s: Seq<char>) -> Seq<char> {
    if s.contains(' ') || s.contains('"') || s.contains('\'') {
        if !s.contains('\'') {
            "'"@ + s + "'"@
        } else {
            "\""@ + escaped(s) + "\""@
        }
    } else {
        s
    }
}

/// A text in quotes where it needs them.
pub fn quote_if_needed(s: &str) -> (r: String)
    ensures
        r@ == quoted(s@),
{
    if contains_char(s, ' ') || contains_char(s, '"') || contains_char(s, '\'') {
        if !contains_char(s, '\'') {
            cat3("'", s, "'")
        } else {
            let cs = chars_of(s);
            let mut inner = String::new();
            let mut i: usize = 0;
            assert(inner@ =~= escaped(cs@.take(0)));
            while i < cs.len()
                invariant
                    i <= cs@.len(),
                    inner@ == escaped(cs@.take(i as int)),
                decreases cs@.len() - i,
            {
                proof {
                    let next = cs@.take(i + 1);
                    assert(next.drop_last() =~= cs@.take(i as int));
                    assert(next.last() == cs@[i as int]);
                }
                if cs[i] == '"' {
                    inner.push('\\');
                }
                inner.push(cs[i]);
                i += 1;
            }
            assert(cs@.take(i as int) =~= s@);
            cat3("\"", inner.as_str(), "\"")
        }
    } else {
        s.to_owned()
    }
}

impl ProcessContext {
    /// The parts of the one-line summary.
    pub open spec fn summary_parts(self, username: Seq<char>) -> Seq<Seq<char>> {
        let start = seq![
            self.name@,
            "pid="@ + number::decimal(self.pid as int),
            "user="@ + username,
            "state="@ + self.state.letter(),
        ];
        let with_memory = if self.vm_rss_kb > 0 {
            start.push("rss="@ + number::human_kb_text(self.vm_rss_kb as int))
        } else {
            start
        };
        match self.cmdline {
            Some(cmd) => with_memory.push("cmd="@ + quoted(cmd@)),
            None => with_memory.push("cmd="@ + self.name@),
        }
    }

    /// The lines of the evidence block.
    pub open spec fn evidence_lines(self, username: Seq<char>) -> Seq<Seq<char>> {
        let l0 = seq!["name: "@ + self.name@];
        let l1 = match self.cmdline {
            Some(cmd) => l0.push("cmdline: "@ + cmd@),
            None => l0,
        };
        let l2 = l1.push(
            "pid: "@ + number::decimal(self.pid as int) + " (ppid="@ + number::decimal(
                self.ppid as int,
            ) + ")"@,
        );
        let l3 = l2.push(
            "user: "@ + username + " (uid="@ + number::decimal(self.uid as int) + " euid="@
                + number::decimal(self.euid as int) + ")"@,
        );
        let l4 = l3.push("state: "@ + self.state.letter() + " ("@ + self.state.words() + ")"@);
        let l5 = if self.vm_rss_kb > 0 || self.vm_size_kb > 0 {
            l4.push(
                "memory: rss="@ + number::human_kb_text(self.vm_rss_kb as int) + " vsize="@
                    + number::human_kb_text(self.vm_size_kb as int) + " swap="@
                    + number::human_kb_text(self.vm_swap_kb as int),
            )
        } else {
            l4
        };
        let l6 = if self.threads > 1 {
            l5.push("threads: "@ + number::decimal(self.threads as int))
        } else {
            l5
        };
        let l7 = match self.cgroup {
            Some(cg) => l6.push("cgroup: "@ + cg@),
            None => l6,
        };
        let l8 = match self.netns_inode {
            Some(ns) => l7.push("netns: inode="@ + number::decimal(ns as int)),
            None => l7,
        };
        match self.pidns_inode {
            Some(ns) => l8.push("pidns: inode="@ + number::decimal(ns as int)),
            None => l8,
        }
    }

    /// The process on one line, for the leaf of a tree:
    /// `nginx pid=1234 user=www-data state=R rss=8MB cmd="nginx -g 'daemon off;'"`.
    pub fn summary_line(&self, username: &str) -> (r: String)
        ensures
            r@ == text::join(self.summary_parts(username@), " "@),
    {
        let mut parts = text::no_texts();
        push_text(&mut parts, self.name.clone());
        push_text(&mut parts, cat2("pid=", decimal_text(self.pid as u64).as_str()));
        push_text(&mut parts, cat2("user=", username));
        push_text(&mut parts, cat2("state=", self.state.label()));
        if self.vm_rss_kb > 0 {
            push_text(&mut parts, cat2("rss=", human_kb(self.vm_rss_kb).as_str()));
        }
        match &self.cmdline {
            Some(cmd) => {
                push_text(&mut parts, cat2("cmd=", quote_if_needed(cmd.as_str()).as_str()));
            },
            None => {
                push_text(&mut parts, cat2("cmd=", self.name.as_str()));
            },
        }
        assert(text::views(parts@) =~= self.summary_parts(username@));
        join_texts(&parts, " ")
    }

    /// The process on several lines, one for each thing that is known.
    pub fn evidence_block(&self, username: &str) -> (r: Vec<String>)
        ensures
            text::views(r@) == self.evidence_lines(username@),
    {
        let mut lines = text::no_texts();
        push_text(&mut lines, cat2("name: ", self.name.as_str()));
        if let Some(cmd) = &self.cmdline {
            push_text(&mut lines, cat2("cmdline: ", cmd.as_str()));
        }
        push_text(
            &mut lines,
            cat5(
                "pid: ",
                decimal_text(self.pid as u64).as_str(),
                " (ppid=",
                decimal_text(self.ppid as u64).as_str(),
                ")",
            ),
        );
        push_text(
            &mut lines,
            cat7(
                "user: ",
                username,
                " (uid=",
                decimal_text(self.uid as u64).as_str(),
                " euid=",
                decimal_text(self.euid as u64).as_str(),
                ")",
            ),
        );
        push_text(
            &mut lines,
            cat5("state: ", self.state.label(), " (", self.state.description(), ")"),
        );
        if self.vm_rss_kb > 0 || self.vm_size_kb > 0 {
            push_text(
                &mut lines,
                cat6(
                    "memory: rss=",
                    human_kb(self.vm_rss_kb).as_str(),
                    " vsize=",
                    human_kb(self.vm_size_kb).as_str(),
                    " swap=",
                    human_kb(self.vm_swap_kb).as_str(),
                ),
            );
        }
        if self.threads > 1 {
            push_text(&mut lines, cat2("threads: ", decimal_text(self.threads).as_str()));
        }
        if let Some(cg) = &self.cgroup {
            push_text(&mut lines, cat2("cgroup: ", cg.as_str()));
        }
        if let Some(ns) = self.netns_inode {
            push_text(&mut lines, cat2("netns: inode=", decimal_text(ns).as_str()));
        }
        if let Some(ns) = self.pidns_inode {
            push_text(&mut lines, cat2("pidns: inode=", decimal_text(ns).as_str()));
        }
        lines
    }
}

/// What was read of the files of one process; a file that could not be read is `None`.
#[derive(Debug, Clone)]
pub struct ProcessRecord {
    pub status: Option<String>,
    pub stat: Option<String>,
    pub cmdline: Option<Vec<u8>>,
    pub cgroup: Option<String>,
    pub netns_inode: Option<u64>,
    pub pidns_inode: Option<u64>,
}

/// The number of a field, or `default` where the field gives none.
pub open spec fn number_or(status: Seq<char>, key: Seq<char>, default: int) -> int {
    match status_number(status, key) {
        Some(n) => n,
        None => default,
    }
}

impl ProcessRecord {
    /// The record tells enough: its status text gives the name, the parent and the users.
    pub open spec fn is_readable(self) -> bool {
        match self.status {
            Some(status) => {
                &&& status_field(status@, "Name"@) is Some
                &&& status_number_u32(status@, "PPid"@) is Some
                &&& uid_pair(status@) is Some
            },
            None => false,
        }
    }

    /// `context` holds what the record of the process `pid` tells.
    pub open spec fn tells(self, pid: u32, context: ProcessContext) -> bool {
        let status = self.status->0@;
        &&& context.pid == pid
        &&& status_number_u32(status, "PPid"@) == Some(context.ppid as int)
        &&& status_field(status, "Name"@) == Some(context.name@)
        &&& uid_pair(status) == Some((context.uid as int, context.euid as int))
        &&& context.vm_rss_kb == number_or(status, "VmRSS"@, 0)
        &&& context.vm_size_kb == number_or(status, "VmSize"@, 0)
        &&& context.vm_swap_kb == number_or(status, "VmSwap"@, 0)
        &&& context.threads == number_or(status, "Threads"@, 1)
        &&& context.state == (match self.stat {
            Some(stat) => match stat_state(stat@) {
                Some(state) => state,
                None => ProcState::Unknown,
            },
            None => ProcState::Unknown,
        })
        &&& opt_view(context.cmdline) == (match self.cmdline {
            Some(content) => command_line(content@),
            None => None,
        })
        &&& opt_view(context.cgroup) == (match self.cgroup {
            Some(content) => cgroup_line(content@),
            None => None,
        })
        &&& context.netns_inode == self.netns_inode
        &&& context.pidns_inode == self.pidns_inode
    }
}

fn number_of(status: &str, key: &str, default: u64) -> (r: u64)
    ensures
        r == number_or(status@, key@, default as int),
{
    match parse_status_number(status, key) {
        Some(n) => n,
        None => default,
    }
}

/// The context of the process `pid`. Without a status text that gives the name, the
/// parent and the users there is none; everything else may be missing.
pub fn read_context(pid: u32, record: &ProcessRecord) -> (r: Option<ProcessContext>)
    ensures
        match r {
            Some(context) => record.is_readable() && record.tells(pid, context),
            None => !record.is_readable(),
        },
{
    let status = match &record.status {
        Some(status) => status.as_str(),
        None => return None,
    };
    let name = match parse_status_field(status, "Name") {
        Some(name) => name,
        None => return None,
    };
    let ppid: u32 = match parse_status_number_u32(status, "PPid") {
        Some(ppid) => ppid,
        None => return None,
    };
    let (uid, euid) = match parse_uid_pair(status) {
        Some(pair) => pair,
        None => return None,
    };
    let state = match &record.stat {
        Some(stat) => match read_stat_state(stat.as_str()) {
            Some(state) => state,
            None => ProcState::Unknown,
        },
        None => ProcState::Unknown,
    };
    let cmdline = match &record.cmdline {
        Some(content) => read_cmdline(content),
        None => None,
    };
    let cgroup = match &record.cgroup {
        Some(content) => read_cgroup(content.as_str()),
        None => None,
    };
    let vm_rss_kb: u64 = number_of(status, "VmRSS", 0);
    let vm_size_kb: u64 = number_of(status, "VmSize", 0);
    let vm_swap_kb: u64 = number_of(status, "VmSwap", 0);
    let threads: u64 = number_of(status, "Threads", 1);
    Some(
        ProcessContext {
            pid,
            ppid,
            name,
            cmdline,
            uid,
            euid,
            state,
            vm_rss_kb,
            vm_size_kb,
            vm_swap_kb,
            threads,
            cgroup,
            netns_inode: record.netns_inode,
            pidns_inode: record.pidns_inode,
        },
    )
}

// ---------------------------------------------------------------------------
// The way up to the first process
// ---------------------------------------------------------------------------

/// The record of a process with its number.
#[derive(Debug, Clone)]
pub struct ProcessEntry {
    pub pid: u32,
    pub record: ProcessRecord,
}

/// Where the first entry of the process `pid` stands in a table.
pub open spec fn find_entry(table: Seq<ProcessEntry>, pid: u32) -> Option<int>
    decreases table.len(),
{
    if table.len() == 0 {
        None
    } else {
        match find_entry(table.drop_last(), pid) {
            Some(k) => Some(k),
            None => if table.last().pid == pid {
                Some(table.len() - 1)
            } else {
                None
            },
        }
    }
}

/// The table has a record of the process `pid` that tells enough.
pub open spec fn is_known(table: Seq<ProcessEntry>, pid: u32) -> bool {
    match find_entry(table, pid) {
        Some(k) => table[k].record.is_readable(),
        None => false,
    }
}

/// The way up ends at this process: it is the first one, has no parent, or is its own.
pub open spec fn ends_chain(context: ProcessContext) -> bool {
    context.pid == 1 || context.ppid == 0 || context.ppid == context.pid
}

/// The process `pid` is on the chain.
pub open spec fn on_chain(chain: Seq<ProcessContext>, pid: u32) -> bool {
    exists|j: int| 0 <= j < chain.len() && (#[trigger] chain[j]).pid == pid
}

/// Each process on the chain but the first is the parent of the one before it, the way
/// up ends at none but the last, and none is on it twice.
pub open spec fn is_linked(chain: Seq<ProcessContext>, start: u32) -> bool {
    &&& chain.len() > 0 ==> chain[0].pid == start
    &&& forall|j: int| 0 < j < chain.len() ==> #[trigger] follows(chain, j)
    &&& forall|i: int, j: int|
        0 <= i < j < chain.len() ==> (#[trigger] chain[i]).pid != (#[trigger] chain[j]).pid
}

/// The way up goes on from the process before `j`, and leads to the one at `j`.
pub open spec fn follows(chain: Seq<ProcessContext>, j: int) -> bool {
    chain[j].pid == chain[j - 1].ppid && !ends_chain(chain[j - 1])
}

/// The process after the last on the chain.
pub open spec fn next_pid(chain: Seq<ProcessContext>, start: u32) -> u32 {
    if chain.len() == 0 {
        start
    } else {
        chain.last().ppid
    }
}

/// The chain is the way up from `start` as the table tells it, as far as it goes: to a
/// process where it ends, to one that the table does not know, or to one that is on it
/// already.
pub open spec fn is_parent_chain(
    table: Seq<ProcessEntry>,
    start: u32,
    chain: Seq<ProcessContext>,
) -> bool {
    &&& is_linked(chain, start)
    &&& forall|j: int| 0 <= j < chain.len() ==> is_told(table, #[trigger] chain[j])
    &&& {
        ||| chain.len() > 0 && ends_chain(chain.last())
        ||| !is_known(table, next_pid(chain, start))
        ||| on_chain(chain, next_pid(chain, start))
    }
}

/// The context is what the table tells of its process.
pub open spec fn is_told(table: Seq<ProcessEntry>, context: ProcessContext) -> bool {
    is_known(table, context.pid) && table[find_entry(table, context.pid)->0].record.tells(
        context.pid,
        context,
    )
}

proof fn lemma_find_entry(table: Seq<ProcessEntry>, pid: u32)
    ensures
        match find_entry(table, pid) {
            Some(k) => 0 <= k < table.len() && table[k].pid == pid && forall|j: int|
                0 <= j < k ==> (#[trigger] table[j]).pid != pid,
            None => forall|j: int| 0 <= j < table.len() ==> (#[trigger] table[j]).pid != pid,
        },
    decreases table.len(),
{
    if table.len() > 0 {
        let init = table.drop_last();
        lemma_find_entry(init, pid);
        match find_entry(init, pid) {
            Some(k) => {
                assert(table[k] == init[k]);
                assert forall|j: int| 0 <= j < k implies (#[trigger] table[j]).pid != pid by {
                    assert(table[j] == init[j]);
                }
            },
            None => {
                assert forall|j: int| 0 <= j < table.len() - 1 implies (
                #[trigger] table[j]).pid != pid by {
                    assert(table[j] == init[j]);
                }
            },
        }
    }
}

/// A chain without repetition is no longer than the table that tells of all on it.
proof fn lemma_chain_bounded(table: Seq<ProcessEntry>, start: u32, chain: Seq<ProcessContext>)
    requires
        is_linked(chain, start),
        forall|j: int| 0 <= j < chain.len() ==> is_told(table, #[trigger] chain[j]),
    ensures
        chain.len() <= table.len(),
{
    let places = Seq::new(chain.len(), |j: int| find_entry(table, chain[j].pid)->0);
    assert forall|j: int| 0 <= j < places.len() implies 0 <= #[trigger] places[j] < table.len()
        && table[places[j]].pid == chain[j].pid by {
        assert(is_told(table, chain[j]));
        lemma_find_entry(table, chain[j].pid);
    }
    assert(places.no_duplicates()) by {
        assert forall|i: int, j: int|
            0 <= i < places.len() && 0 <= j < places.len() && i != j implies places[i]
            != places[j] by {
            if i < j {
                assert(chain[i].pid != chain[j].pid);
            } else {
                assert(chain[j].pid != chain[i].pid);
            }
        }
    }
    places.unique_seq_to_set();
    vstd::set_lib::lemma_int_range(0, table.len() as int);
    let range = vstd::set_lib::set_int_range(0, table.len() as int);
    assert(places.to_set().subset_of(range)) by {
        assert forall|x: int| places.to_set().contains(x) implies range.contains(x) by {
            assert(places.contains(x));
        }
    }
    vstd::set_lib::lemma_len_subset(places.to_set(), range);
}

/// The table leaves no choice: two ways up from the same process are the same.
pub proof fn lemma_parent_chain_unique(
    table: Seq<ProcessEntry>,
    start: u32,
    one: Seq<ProcessContext>,
    two: Seq<ProcessContext>,
)
    requires
        is_parent_chain(table, start, one),
        is_parent_chain(table, start, two),
    ensures
        one.len() == two.len(),
        forall|j: int| 0 <= j < one.len() ==> (#[trigger] one[j]).pid == two[j].pid,
{
    lemma_chain_is_longest(table, start, one, two);
    lemma_chain_is_longest(table, start, two, one);
    assert forall|j: int| 0 <= j < one.len() implies (#[trigger] one[j]).pid == two[j].pid by {
        lemma_chains_agree(table, start, one, two, j);
    }
}

/// The table tells one parent of a process.
proof fn lemma_one_parent(table: Seq<ProcessEntry>, one: ProcessContext, two: ProcessContext)
    requires
        is_told(table, one),
        is_told(table, two),
        one.pid == two.pid,
    ensures
        one.ppid == two.ppid,
{
}

/// Two ways up that go through the same process and go on, go on to the same process.
proof fn lemma_same_step(
    table: Seq<ProcessEntry>,
    one: Seq<ProcessContext>,
    two: Seq<ProcessContext>,
    j: int,
)
    requires
        0 < j < one.len(),
        j < two.len(),
        follows(one, j),
        follows(two, j),
        is_told(table, one[j]),
        is_told(table, two[j]),
        one[j - 1].ppid == two[j - 1].ppid,
    ensures
        one[j].pid == two[j].pid,
        one[j].ppid == two[j].ppid,
{
    lemma_one_parent(table, one[j], two[j]);
}

/// Two ways up from the same process have the same process in each place that both have.
proof fn lemma_chains_agree(
    table: Seq<ProcessEntry>,
    start: u32,
    one: Seq<ProcessContext>,
    two: Seq<ProcessContext>,
    j: int,
)
    requires
        is_parent_chain(table, start, one),
        is_parent_chain(table, start, two),
        0 <= j < one.len(),
        j < two.len(),
    ensures
        one[j].pid == two[j].pid,
        one[j].ppid == two[j].ppid,
    decreases j,
{
    assert(is_told(table, one[j]));
    assert(is_told(table, two[j]));
    if j == 0 {
        lemma_one_parent(table, one[0], two[0]);
    } else {
        lemma_chains_agree(table, start, one, two, j - 1);
        assert(follows(one, j));
        assert(follows(two, j));
        lemma_same_step(table, one, two, j);
    }
}

/// No way up from the same process is longer than another.
proof fn lemma_chain_is_longest(
    table: Seq<ProcessEntry>,
    start: u32,
    one: Seq<ProcessContext>,
    two: Seq<ProcessContext>,
)
    requires
        is_parent_chain(table, start, one),
        is_parent_chain(table, start, two),
    ensures
        two.len() <= one.len(),
{
    if one.len() < two.len() {
        let n = one.len() as int;
        let next = next_pid(one, start);
        if n > 0 {
            lemma_chains_agree(table, start, one, two, n - 1);
            assert(follows(two, n));
        }
        assert(two[n].pid == next);
        assert(is_told(table, two[n]));
        if on_chain(one, next) {
            let j = choose|j: int| 0 <= j < one.len() && (#[trigger] one[j]).pid == next;
            lemma_chains_agree(table, start, one, two, j);
            assert(two[j].pid != two[n].pid);
        }
    }
}

/// A way up that is being walked: the processes so far, and the one to look at next.
#[derive(Debug)]
pub struct ParentWalk {
    pub chain: Vec<ProcessContext>,
    pub next: Option<u32>,
}

impl ParentWalk {
    /// The processes so far are linked, and the next one is the parent of the last.
    pub open spec fn well_formed(self, start: u32) -> bool {
        &&& is_linked(self.chain@, start)
        &&& match self.next {
            Some(pid) => pid == next_pid(self.chain@, start) && (self.chain@.len() > 0
                ==> !ends_chain(self.chain@.last())),
            None => true,
        }
    }

    /// The walk that is about to look at `start`.
    pub fn start(start: u32) -> (r: ParentWalk)
        ensures
            r.well_formed(start),
            r.chain@.len() == 0,
            r.next == Some(start),
    {
        let chain: Vec<ProcessContext> = Vec::new();
        ParentWalk { chain, next: Some(start) }
    }

    /// Whether the process `pid` has been looked at.
    fn has_seen(&self, pid: u32) -> (r: bool)
        ensures
            r == on_chain(self.chain@, pid),
    {
        let mut i: usize = 0;
        while i < self.chain.len()
            invariant
                i <= self.chain@.len(),
                forall|j: int| 0 <= j < i ==> (#[trigger] self.chain@[j]).pid != pid,
            decreases self.chain@.len() - i,
        {
            if self.chain[i].pid == pid {
                assert(self.chain@[i as int].pid == pid);
                return true;
            }
            i += 1;
        }
        false
    }

    /// Takes in what was read of the next process. The walk ends where nothing could be
    /// read, where the process was seen before, and where the way up ends.
    pub fn advance(&mut self, record: Option<&ProcessRecord>)
        ensures
            forall|start: u32|
                old(self).well_formed(start) ==> #[trigger] final(self).well_formed(start),
            match old(self).next {
                None => *final(self) == *old(self),
                Some(pid) => if record is None || !record->0.is_readable() || on_chain(
                    old(self).chain@,
                    pid,
                ) {
                    final(self).chain@ == old(self).chain@ && final(self).next is None
                } else {
                    &&& final(self).chain@.len() == old(self).chain@.len() + 1
                    &&& final(self).chain@.drop_last() == old(self).chain@
                    &&& record->0.tells(pid, final(self).chain@.last())
                    &&& final(self).next == (if ends_chain(final(self).chain@.last()) {
                        None
                    } else {
                        Some(final(self).chain@.last().ppid)
                    })
                },
            },
    {
        let pid: u32 = match self.next {
            Some(pid) => pid,
            None => return ,
        };
        let found = match record {
            Some(record) => read_context(pid, record),
            None => None,
        };
        match found {
            Some(context) => {
                if self.has_seen(pid) {
                    self.next = None;
                } else {
                    let parent: u32 = context.ppid;
                    self.chain.push(context);
                    assert(self.chain@.drop_last() =~= old(self).chain@);
                    self.next = if pid == 1 || parent == 0 || parent == pid {
                        None
                    } else {
                        Some(parent)
                    };
                    assert forall|start: u32| old(self).well_formed(start) implies
                        #[trigger] self.well_formed(start) by {
                        let n = old(self).chain@.len() as int;
                        assert forall|i: int, j: int| 0 <= i < j < self.chain@.len() implies (
                        #[trigger] self.chain@[i]).pid != (#[trigger] self.chain@[j]).pid by {
                            assert(self.chain@[i] == old(self).chain@[i]);
                            if j < n {
                                assert(self.chain@[j] == old(self).chain@[j]);
                            }
                        }
                        assert forall|j: int| 0 < j < self.chain@.len() implies #[trigger] follows(
                            self.chain@,
                            j,
                        ) by {
                            assert(self.chain@[j - 1] == old(self).chain@[j - 1]);
                            if j < n {
                                assert(self.chain@[j] == old(self).chain@[j]);
                                assert(follows(old(self).chain@, j));
                            }
                        }
                    }
                }
            },
            None => {
                self.next = None;
            },
        }
    }
}

fn lookup_entry(table: &Vec<ProcessEntry>, pid: u32) -> (r: Option<usize>)
    ensures
        match r {
            Some(k) => find_entry(table@, pid) == Some(k as int) && k < table@.len(),
            None => find_entry(table@, pid) is None,
        },
{
    let mut i: usize = 0;
    while i < table.len()
        invariant
            i <= table@.len(),
            forall|j: int| 0 <= j < i ==> (#[trigger] table@[j]).pid != pid,
        decreases table@.len() - i,
    {
        if table[i].pid == pid {
            proof {
                lemma_find_entry(table@, pid);
                assert(table@[i as int].pid == pid);
            }
            return Some(i);
        }
        i += 1;
    }
    proof {
        lemma_find_entry(table@, pid);
    }
    None
}

/// The processes from `start_pid` up to the first one, or as far as the table tells.
pub fn parent_chain(table: &Vec<ProcessEntry>, start_pid: u32) -> (r: Vec<ProcessContext>)
    ensures
        is_parent_chain(table@, start_pid, r@),
{
    let mut walk = ParentWalk::start(start_pid);
    loop
        invariant
            walk.well_formed(start_pid),
            forall|j: int| 0 <= j < walk.chain@.len() ==> is_told(table@, #[trigger] walk.chain@[j]),
            walk.chain@.len() <= table@.len(),
            walk.next is None ==> is_parent_chain(table@, start_pid, walk.chain@),
        decreases
                if walk.next is Some {
                    1 + table@.len() - walk.chain@.len()
                } else {
                    0
                },
    {
        let pid: u32 = match walk.next {
            Some(pid) => pid,
            None => return walk.chain,
        };
        let ghost before = walk;
        match lookup_entry(table, pid) {
            Some(k) => {
                let record = &table[k].record;
                walk.advance(Some(record));
            },
            None => {
                walk.advance(None);
            },
        }
        proof {
            assert(before.well_formed(start_pid));
            assert(walk.well_formed(start_pid));
            if walk.chain@.len() > before.chain@.len() {
                assert forall|j: int| 0 <= j < walk.chain@.len() implies is_told(
                    table@,
                    #[trigger] walk.chain@[j],
                ) by {
                    if j < before.chain@.len() {
                        assert(walk.chain@[j] == walk.chain@.drop_last()[j]);
                    }
                }
                lemma_chain_bounded(table@, start_pid, walk.chain@);
            }
        }
    }
}

} // verus!
