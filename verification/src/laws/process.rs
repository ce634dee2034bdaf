//! What reading about processes is for: what the kernel writes about a process is found again
//! in its context, and the way up leads through its parents.

use crate::bytes;
use crate::laws::text::blank;
use crate::number;
use crate::process;
use crate::process::{ProcState, ProcessContext, ProcessEntry, ProcessRecord};
use crate::text;
use vstd::prelude::*;
use vstd::utf8;

verus! {

// ---------------------------------------------------------------------------
// Status texts
// ---------------------------------------------------------------------------

/// The first line with the prefix gives the value, without the white space around it.
pub proof fn lemma_first_line_counts(
    lines: Seq<Seq<char>>,
    prefix: Seq<char>,
    k: int,
    rest: Seq<char>,
)
    requires
        0 <= k < lines.len(),
        lines[k] == prefix + rest,
        forall|j: int| 0 <= j < k ==> !prefix.is_prefix_of(#[trigger] lines[j]),
    ensures
        process::first_value(lines, prefix) == Some(text::trim(rest)),
    decreases k,
{
    if k == 0 {
        crate::laws::text::lemma_strip_prefix(rest, prefix);
    } else {
        assert(!prefix.is_prefix_of(lines[0]));
        let more = lines.skip(1);
        assert forall|j: int| 0 <= j < k - 1 implies !prefix.is_prefix_of(#[trigger] more[j]) by {
            assert(more[j] == lines[j + 1]);
        }
        lemma_first_line_counts(more, prefix, k - 1, rest);
    }
}

/// Without a line with the prefix there is no value.
pub proof fn lemma_no_line_no_value(lines: Seq<Seq<char>>, prefix: Seq<char>)
    requires
        forall|j: int| 0 <= j < lines.len() ==> !prefix.is_prefix_of(#[trigger] lines[j]),
    ensures
        process::first_value(lines, prefix) is None,
    decreases lines.len(),
{
    if lines.len() > 0 {
        assert(!prefix.is_prefix_of(lines[0]));
        let more = lines.skip(1);
        assert forall|j: int| 0 <= j < more.len() implies !prefix.is_prefix_of(
            #[trigger] more[j],
        ) by {
            assert(more[j] == lines[j + 1]);
        }
        lemma_no_line_no_value(more, prefix);
    }
}

/// The line is the first of the status text with this key, and has this behind the colon.
pub open spec fn first_with_key(
    status: Seq<char>,
    key: Seq<char>,
    k: int,
    rest: Seq<char>,
) -> bool {
    let lines = text::lines(status);
    &&& 0 <= k < lines.len()
    &&& lines[k] == key + ":"@ + rest
    &&& forall|j: int| 0 <= j < k ==> !(key + ":"@).is_prefix_of(#[trigger] lines[j])
}

/// The value of a field is what stands behind its key and the colon, on the first line with
/// that key, without the white space around it; an empty value is none.
pub proof fn lemma_field_is_read(
    status: Seq<char>,
    key: Seq<char>,
    k: int,
    before: Seq<char>,
    value: Seq<char>,
    after: Seq<char>,
)
    requires
        first_with_key(status, key, k, before + value + after),
        blank(before),
        blank(after),
        value.len() > 0 ==> !text::is_space(value[0]) && !text::is_space(value.last()),
    ensures
        process::status_field(status, key) == if value.len() > 0 {
            Some(value)
        } else {
            None::<Seq<char>>
        },
{
    lemma_first_line_counts(text::lines(status), key + ":"@, k, before + value + after);
    crate::laws::text::lemma_trim_around(before, value, after);
}

/// A field without a line has no value.
pub proof fn lemma_missing_field(status: Seq<char>, key: Seq<char>)
    requires
        forall|j: int|
            0 <= j < text::lines(status).len() ==> !(key + ":"@).is_prefix_of(
                #[trigger] text::lines(status)[j],
            ),
    ensures
        process::status_field(status, key) is None,
        process::status_number(status, key) is None,
        process::status_number_u32(status, key) is None,
{
    lemma_no_line_no_value(text::lines(status), key + ":"@);
}

/// The number of a field is read from the decimal digits behind its key, whatever unit stands
/// behind them.
pub proof fn lemma_field_number_is_read(
    status: Seq<char>,
    key: Seq<char>,
    k: int,
    gap: Seq<char>,
    n: int,
    rest: Seq<char>,
)
    requires
        first_with_key(status, key, k, gap + number::decimal(n) + rest),
        blank(gap),
        0 <= n,
        rest.len() == 0 || text::is_space(rest[0]),
    ensures
        process::status_number(status, key) == if n <= u64::MAX {
            Some(n)
        } else {
            None::<int>
        },
        process::status_number_u32(status, key) == if n <= u32::MAX {
            Some(n)
        } else {
            None::<int>
        },
{
    let digits = number::decimal(n);
    let behind = gap + digits + rest;
    crate::laws::text::lemma_digits_are_a_word(0, n);
    lemma_first_line_counts(text::lines(status), key + ":"@, k, behind);
    assert(!text::is_space(digits[0]));
    assert(behind =~= gap + (digits + rest));
    assert((digits + rest)[0] == digits[0]);
    crate::laws::text::lemma_trim_keeps_visible(gap, digits + rest);
    crate::laws::text::lemma_words_of_trimmed(behind);
    crate::laws::text::lemma_words_first(gap, digits, rest);
    crate::laws::number::lemma_decimal_is_read(0, n, u64::MAX as int);
}

/// The real and the effective user of a process are the first and the second number of its
/// `Uid` line.
pub proof fn lemma_users_are_read(
    status: Seq<char>,
    k: int,
    gap: Seq<char>,
    owner: u32,
    between: Seq<char>,
    effective: u32,
    rest: Seq<char>,
)
    requires
        first_with_key(
            status,
            "Uid"@,
            k,
            gap + number::decimal(owner as int) + (between + number::decimal(effective as int)
                + rest),
        ),
        blank(gap),
        blank(between),
        between.len() > 0,
        rest.len() == 0 || text::is_space(rest[0]),
    ensures
        process::uid_pair(status) == Some((owner as int, effective as int)),
{
    let one = number::decimal(owner as int);
    let two = number::decimal(effective as int);
    let tail = between + two + rest;
    let behind = gap + one + tail;
    crate::laws::text::lemma_digits_are_a_word(0, owner as int);
    crate::laws::text::lemma_digits_are_a_word(0, effective as int);
    lemma_first_line_counts(text::lines(status), "Uid"@ + ":"@, k, behind);
    assert(!text::is_space(one[0]));
    assert(behind =~= gap + (one + tail));
    assert((one + tail)[0] == one[0]);
    crate::laws::text::lemma_trim_keeps_visible(gap, one + tail);
    crate::laws::text::lemma_words_of_trimmed(behind);
    assert(tail[0] == between[0]);
    crate::laws::text::lemma_words_first(gap, one, tail);
    crate::laws::text::lemma_words_first(between, two, rest);
    assert(text::words(behind)[0] == one);
    assert(text::words(behind)[1] == two);
    crate::laws::number::lemma_decimal_is_read(0, owner as int, u32::MAX as int);
    crate::laws::number::lemma_decimal_is_read(0, effective as int, u32::MAX as int);
}

// ---------------------------------------------------------------------------
// States, control groups, command lines, users
// ---------------------------------------------------------------------------

/// The letters that the kernel has for the states of a process.
pub proof fn lemma_state_letters()
    ensures
        ProcState::of_letter('R') == ProcState::Running,
        ProcState::of_letter('S') == ProcState::Sleep,
        ProcState::of_letter('D') == ProcState::Uninterruptible,
        ProcState::of_letter('Z') == ProcState::Zombie,
        ProcState::of_letter('T') == ProcState::Traced,
        ProcState::of_letter('t') == ProcState::Stopped,
        ProcState::of_letter('P') == ProcState::Paging,
        ProcState::of_letter('X') == ProcState::Dead,
        ProcState::of_letter('x') == ProcState::Dead,
        ProcState::of_letter('I') == ProcState::Idle,
        forall|c: char|
            #![trigger ProcState::of_letter(c)]
            ProcState::of_letter(c) != ProcState::Unknown ==> "RSDZTtPXxI"@.contains(c),
        ProcState::Zombie.words() == "zombie"@,
        ProcState::Running.words() == "running"@,
        ProcState::Sleep.words() == "sleeping"@,
        ProcState::Uninterruptible.words() == "uninterruptible-disk-sleep"@,
        ProcState::Traced.words() == "traced/stopped"@,
        ProcState::Stopped.words() == "stopped"@,
        ProcState::Paging.words() == "paging"@,
        ProcState::Dead.words() == "dead"@,
        ProcState::Idle.words() == "idle"@,
        ProcState::Unknown.words() == "unknown"@,
{
    reveal_strlit("RSDZTtPXxI");
    let letters = "RSDZTtPXxI"@;
    assert(letters[0] == 'R' && letters[1] == 'S' && letters[2] == 'D' && letters[3] == 'Z'
        && letters[4] == 'T' && letters[5] == 't' && letters[6] == 'P' && letters[7] == 'X'
        && letters[8] == 'x' && letters[9] == 'I');
}

/// The state is the first visible character behind the name, which ends at the last bracket.
pub proof fn lemma_state_is_read(
    front: Seq<char>,
    gap: Seq<char>,
    letter: char,
    rest: Seq<char>,
)
    requires
        blank(gap),
        !text::is_space(letter),
        letter != ')',
        !rest.contains(')'),
    ensures
        process::stat_state(front.push(')') + (gap.push(letter) + rest)) == Some(
            ProcState::of_letter(letter),
        ),
{
    let tail = gap.push(letter) + rest;
    let stat = front.push(')') + tail;
    assert forall|i: int| 0 <= i < tail.len() implies tail[i] != ')' by {
        if i < gap.len() {
            assert(tail[i] == gap[i]);
            assert(text::is_space(gap[i]));
        } else if i > gap.len() {
            assert(tail[i] == rest[i - gap.len() - 1]);
            assert(rest.contains(rest[i - gap.len() - 1]));
        }
    }
    crate::laws::text::lemma_after_last(front, ')', tail);
    assert(stat[front.len() as int] == ')');
    text::lemma_prefix_len_is(tail, text::space(), gap.len() as int);
    assert(text::trim_start(tail)[0] == letter);
}

/// Behind the last line with something visible on it, no line counts.
pub proof fn lemma_last_line_counts(lines: Seq<Seq<char>>, k: int)
    requires
        0 <= k < lines.len(),
        text::trim(lines[k]).len() > 0,
        forall|j: int| k < j < lines.len() ==> text::trim(#[trigger] lines[j]).len() == 0,
    ensures
        process::last_visible_line(lines) == Some(lines[k]),
    decreases lines.len(),
{
    if k < lines.len() - 1 {
        assert(text::trim(lines[lines.len() - 1]).len() == 0);
        assert forall|j: int| k < j < lines.len() - 1 implies text::trim(
            #[trigger] lines.drop_last()[j],
        ).len() == 0 by {
            assert(lines.drop_last()[j] == lines[j]);
        }
        lemma_last_line_counts(lines.drop_last(), k);
    }
}

/// The control group of a process is the last line with something on it, and its unit is
/// what the path behind the last colon of that line names.
pub proof fn lemma_control_group_is_read(content: Seq<char>, k: int, front: Seq<char>, path: Seq<
    char,
>)
    requires
        0 <= k < text::lines(content).len(),
        text::lines(content)[k] == front.push(':') + path,
        !path.contains(':'),
        forall|j: int|
            k < j < text::lines(content).len() ==> text::trim(
                #[trigger] text::lines(content)[j],
            ).len() == 0,
    ensures
        process::cgroup_line(content) == Some(text::trim(front.push(':') + path)),
        process::unit_of_process(content) == process::systemd_unit(path),
{
    let line = front.push(':') + path;
    lemma_visible_inside(front, ':', path);
    lemma_last_line_counts(text::lines(content), k);
    crate::laws::text::lemma_after_last(front, ':', path);
}

proof fn lemma_visible_inside(front: Seq<char>, c: char, tail: Seq<char>)
    requires
        !text::is_space(c),
    ensures
        text::trim(front.push(c) + tail).len() > 0,
{
    let s = front.push(c) + tail;
    let space = text::space();
    text::lemma_prefix_len(s, space);
    let m = text::prefix_len(s, space);
    assert(s[front.len() as int] == c);
    if m > front.len() {
        assert(space(s[front.len() as int]));
    }
    let gap = s.take(m);
    assert forall|i: int| 0 <= i < gap.len() implies text::is_space(#[trigger] gap[i]) by {
        assert(space(s[i]));
    }
    assert(s =~= gap + s.skip(m));
    crate::laws::text::lemma_trim_keeps_visible(gap, s.skip(m));
}

/// The text ends as the name of a systemd unit does.
pub open spec fn ends_as_unit(s: Seq<char>) -> bool {
    ||| ".service"@.is_suffix_of(s)
    ||| ".socket"@.is_suffix_of(s)
    ||| ".scope"@.is_suffix_of(s)
    ||| ".mount"@.is_suffix_of(s)
    ||| ".swap"@.is_suffix_of(s)
    ||| ".timer"@.is_suffix_of(s)
    ||| ".target"@.is_suffix_of(s)
}

proof fn lemma_unit_endings(s: Seq<char>)
    ensures
        process::is_unit(s) == ends_as_unit(s),
{
    let all = process::unit_suffixes();
    assert(all[0] == ".service"@ && all[1] == ".socket"@ && all[2] == ".scope"@ && all[3]
        == ".mount"@ && all[4] == ".swap"@ && all[5] == ".timer"@ && all[6] == ".target"@);
    if process::is_unit(s) {
        let i = choose|i: int| 0 <= i < all.len() && (#[trigger] all[i]).is_suffix_of(s);
        assert(i == 0 || i == 1 || i == 2 || i == 3 || i == 4 || i == 5 || i == 6);
    }
}

proof fn lemma_last_unit(components: Seq<Seq<char>>, k: int)
    requires
        0 <= k < components.len(),
        ends_as_unit(components[k]),
        forall|j: int| k < j < components.len() ==> !ends_as_unit(#[trigger] components[j]),
    ensures
        process::last_unit(components) == Some(components[k]),
    decreases components.len(),
{
    lemma_unit_endings(components.last());
    if k < components.len() - 1 {
        assert(!ends_as_unit(components[components.len() - 1]));
        let rest = components.drop_last();
        assert forall|j: int| k < j < rest.len() implies !ends_as_unit(#[trigger] rest[j]) by {
            assert(rest[j] == components[j]);
        }
        lemma_last_unit(rest, k);
    }
}

proof fn lemma_no_unit(components: Seq<Seq<char>>)
    requires
        forall|j: int| 0 <= j < components.len() ==> !ends_as_unit(#[trigger] components[j]),
    ensures
        process::last_unit(components) is None,
    decreases components.len(),
{
    if components.len() > 0 {
        lemma_unit_endings(components.last());
        assert(!ends_as_unit(components[components.len() - 1]));
        let rest = components.drop_last();
        assert forall|j: int| 0 <= j < rest.len() implies !ends_as_unit(#[trigger] rest[j]) by {
            assert(rest[j] == components[j]);
        }
        lemma_no_unit(rest);
    }
}

/// The unit of a control group is the last component of its path with the ending of a unit,
/// and there is none where no component has one.
pub proof fn lemma_unit_is_read(components: Seq<Seq<char>>, k: int)
    requires
        components.len() > 0,
        forall|i: int| 0 <= i < components.len() ==> !(#[trigger] components[i]).contains('/'),
        -1 <= k < components.len(),
        k >= 0 ==> ends_as_unit(components[k]),
        forall|j: int| k < j < components.len() ==> !ends_as_unit(#[trigger] components[j]),
    ensures
        process::systemd_unit(text::join(components, seq!['/'])) == if k >= 0 {
            Some(components[k])
        } else {
            None::<Seq<char>>
        },
{
    bytes::lemma_join_splits(components, '/');
    if k >= 0 {
        lemma_last_unit(components, k);
    } else {
        lemma_no_unit(components);
    }
}

/// The arguments of a process are found again, each behind a zero byte, and are shown with
/// blanks between them.
pub proof fn lemma_arguments_are_read(args: Seq<Seq<u8>>)
    requires
        args.len() > 0,
        forall|i: int|
            0 <= i < args.len() ==> (#[trigger] args[i]).len() > 0 && utf8::valid_utf8(args[i])
                && !args[i].contains(0u8),
    ensures
        process::command_line(text::join(args, seq![0u8]).push(0u8)) == Some(
            text::join(args.map_values(|arg: Seq<u8>| utf8::decode_utf8(arg)), " "@),
        ),
{
    let content = text::join(args, seq![0u8]).push(0u8);
    let keep = process::argument();
    assert(process::trim_ascii_end(content) == content);
    let none = Seq::<u8>::empty();
    let whole = args.push(none);
    crate::laws::text::lemma_join_grows(args, none, seq![0u8]);
    assert(text::join(whole, seq![0u8]) =~= content);
    assert forall|i: int| 0 <= i < whole.len() implies !(#[trigger] whole[i]).contains(0u8) by {
        if i < args.len() {
            assert(whole[i] == args[i]);
        }
    }
    bytes::lemma_join_splits(whole, 0u8);
    assert(whole.drop_last() =~= args);
    assert(whole.filter(keep) == args) by {
        reveal(Seq::filter);
        lemma_filter_keeps_all(args, keep);
    }
    assert(process::arguments(content) =~= args.map_values(
        |arg: Seq<u8>| utf8::decode_utf8(arg),
    ));
}

proof fn lemma_filter_keeps_all<T>(s: Seq<T>, keep: spec_fn(T) -> bool)
    requires
        forall|i: int| 0 <= i < s.len() ==> keep(#[trigger] s[i]),
    ensures
        s.filter(keep) == s,
    decreases s.len(),
{
    reveal(Seq::filter);
    if s.len() > 0 {
        let rest = s.drop_last();
        assert forall|i: int| 0 <= i < rest.len() implies keep(#[trigger] rest[i]) by {
            assert(rest[i] == s[i]);
        }
        lemma_filter_keeps_all(rest, keep);
        assert(keep(s[s.len() - 1]));
        assert(rest.push(s.last()) =~= s);
    }
}

/// A process without arguments has no command line.
pub proof fn lemma_no_arguments()
    ensures
        process::command_line(Seq::<u8>::empty()) is None,
{
    let none = Seq::<u8>::empty();
    crate::laws::text::lemma_split_first(none, 0u8, none);
    crate::order::lemma_filter_one(none, process::argument());
    assert(text::split(none, 0u8).filter(process::argument()).len() == 0);
}

/// The fields of a line of a passwd text give this name to this user.
pub open spec fn names_user(line: Seq<char>, uid: int) -> bool {
    let fields = text::split(line, ':');
    fields.len() >= 3 && number::parse_uint(fields[2], 10, u32::MAX as int) == Some(uid)
}

/// The name of a user stands first on the first line that has its number in the third field;
/// a user without a line is shown as the number.
pub proof fn lemma_user_is_named(
    passwd: Seq<char>,
    k: int,
    name: Seq<char>,
    secret: Seq<char>,
    uid: u32,
    rest: Seq<char>,
)
    requires
        !name.contains(':'),
        !secret.contains(':'),
        0 <= k <= text::lines(passwd).len(),
        k < text::lines(passwd).len() ==> text::lines(passwd)[k] == name.push(':') + (secret.push(
            ':',
        ) + (number::decimal(uid as int).push(':') + rest)),
        forall|j: int| 0 <= j < k ==> !names_user(#[trigger] text::lines(passwd)[j], uid as int),
    ensures
        process::username(Some(passwd), uid as int) == if k < text::lines(passwd).len() {
            name
        } else {
            number::decimal(uid as int)
        },
        process::username(None, uid as int) == number::decimal(uid as int),
{
    if k < text::lines(passwd).len() {
        lemma_passwd_fields(name, secret, number::decimal(uid as int), rest, uid as int);
    }
    lemma_name_found(text::lines(passwd), k, name, uid as int);
}

/// The first three fields of a line of a passwd text.
pub proof fn lemma_passwd_fields(
    name: Seq<char>,
    secret: Seq<char>,
    digits: Seq<char>,
    rest: Seq<char>,
    uid: int,
)
    requires
        !name.contains(':'),
        !secret.contains(':'),
        digits == number::decimal(uid),
        0 <= uid <= u32::MAX,
    ensures
        ({
            let fields = text::split(
                name.push(':') + (secret.push(':') + (digits.push(':') + rest)),
                ':',
            );
            &&& fields.len() >= 3
            &&& fields[0] == name
            &&& fields[1] == secret
            &&& fields[2] == digits
            &&& number::parse_uint(fields[2], 10, u32::MAX as int) == Some(uid)
        }),
{
    number::lemma_decimal_digits(uid);
    assert(!digits.contains(':')) by {
        if digits.contains(':') {
            let i = choose|i: int| 0 <= i < digits.len() && digits[i] == ':';
            assert('0' <= digits[i] <= '9');
        }
    }
    crate::laws::number::lemma_decimal_is_read(0, uid, u32::MAX as int);
    crate::laws::text::lemma_split_first(name, ':', secret.push(':') + (digits.push(':') + rest));
    crate::laws::text::lemma_split_first(secret, ':', digits.push(':') + rest);
    crate::laws::text::lemma_split_first(digits, ':', rest);
}

proof fn lemma_name_found(lines: Seq<Seq<char>>, k: int, name: Seq<char>, uid: int)
    requires
        0 <= k <= lines.len(),
        k < lines.len() ==> names_user(lines[k], uid) && text::split(lines[k], ':')[0] == name,
        forall|j: int| 0 <= j < k ==> !names_user(#[trigger] lines[j], uid),
    ensures
        process::name_of_uid(lines, uid) == if k < lines.len() {
            Some(name)
        } else {
            None::<Seq<char>>
        },
    decreases k,
{
    if k > 0 {
        assert(!names_user(lines[0], uid));
        let more = lines.skip(1);
        assert forall|j: int| 0 <= j < k - 1 implies !names_user(#[trigger] more[j], uid) by {
            assert(more[j] == lines[j + 1]);
        }
        lemma_name_found(more, k - 1, name, uid);
    }
}

// ---------------------------------------------------------------------------
// What is shown of a process
// ---------------------------------------------------------------------------

/// A command is shown as it is unless it has a blank or a quotation mark in it; with these it
/// stands between marks that it does not have itself, or with a backslash before each of them.
pub proof fn lemma_quotation(s: Seq<char>)
    ensures
        !s.contains(' ') && !s.contains('"') && !s.contains('\'') ==> process::quoted(s) == s,
        !s.contains('\'') && (s.contains(' ') || s.contains('"')) ==> process::quoted(s) == seq![
            '\'',
        ] + s + seq!['\''],
        s.contains('\'') ==> process::quoted(s) == seq!['"'] + process::escaped(s) + seq!['"'],
{
    reveal_strlit("'");
    reveal_strlit("\"");
    assert("'"@ =~= seq!['\'']);
    assert("\""@ =~= seq!['"']);
}

/// Each double quotation mark, and nothing else, gets a backslash.
pub proof fn lemma_escaping(s: Seq<char>, c: char)
    ensures
        process::escaped(Seq::<char>::empty()).len() == 0,
        c == '"' ==> process::escaped(s.push(c)) == process::escaped(s) + seq!['\\', '"'],
        c != '"' ==> process::escaped(s.push(c)) == process::escaped(s).push(c),
{
    assert(s.push(c).drop_last() =~= s);
    assert(process::escaped(s).push('\\').push('"') =~= process::escaped(s) + seq!['\\', '"']);
}

/// The summary of a process starts with its name and has its number, user and state, and its
/// memory and command where they are known.
pub proof fn lemma_summary_tells(context: ProcessContext, username: Seq<char>)
    ensures
        ({
            let parts = context.summary_parts(username);
            let n = parts.len() as int;
            &&& n == if context.vm_rss_kb > 0 {
                6int
            } else {
                5
            }
            &&& parts[0] == context.name@
            &&& parts[1] == "pid="@ + number::decimal(context.pid as int)
            &&& parts[2] == "user="@ + username
            &&& parts[3] == "state="@ + context.state.letter()
            &&& context.vm_rss_kb > 0 ==> parts[4] == "rss="@ + number::human_kb_text(
                context.vm_rss_kb as int,
            )
            &&& parts[n - 1] == "cmd="@ + (match context.cmdline {
                Some(command) => process::quoted(command@),
                None => context.name@,
            })
        }),
{
}

/// What is shown of a process has its name on the first line, and a line for its number and
/// that of its parent, for its users, for its state, and for each thing that is known of it.
pub proof fn lemma_evidence_tells(context: ProcessContext, username: Seq<char>)
    ensures
        ({
            let lines = context.evidence_lines(username);
            &&& lines.len() > 0
            &&& lines[0] == "name: "@ + context.name@
            &&& context.cmdline matches Some(command) ==> lines.len() > 1 && lines[1]
                == "cmdline: "@ + command@
            &&& lines.contains(
                "pid: "@ + number::decimal(context.pid as int) + " (ppid="@ + number::decimal(
                    context.ppid as int,
                ) + ")"@,
            )
            &&& lines.contains(
                "user: "@ + username + " (uid="@ + number::decimal(context.uid as int) + " euid="@
                    + number::decimal(context.euid as int) + ")"@,
            )
            &&& lines.contains(
                "state: "@ + context.state.letter() + " ("@ + context.state.words() + ")"@,
            )
            &&& context.vm_rss_kb > 0 || context.vm_size_kb > 0 ==> lines.contains(
                "memory: rss="@ + number::human_kb_text(context.vm_rss_kb as int) + " vsize="@
                    + number::human_kb_text(context.vm_size_kb as int) + " swap="@
                    + number::human_kb_text(context.vm_swap_kb as int),
            )
            &&& context.threads > 1 ==> lines.contains(
                "threads: "@ + number::decimal(context.threads as int),
            )
            &&& context.cgroup matches Some(group) ==> lines.contains("cgroup: "@ + group@)
            &&& context.netns_inode matches Some(inode) ==> lines.contains(
                "netns: inode="@ + number::decimal(inode as int),
            )
            &&& context.pidns_inode matches Some(inode) ==> lines.contains(
                "pidns: inode="@ + number::decimal(inode as int),
            )
            &&& lines.len() == 4 + (if context.cmdline is Some {
                1int
            } else {
                0
            }) + (if context.vm_rss_kb > 0 || context.vm_size_kb > 0 {
                1int
            } else {
                0
            }) + (if context.threads > 1 {
                1int
            } else {
                0
            }) + (if context.cgroup is Some {
                1int
            } else {
                0
            }) + (if context.netns_inode is Some {
                1int
            } else {
                0
            }) + (if context.pidns_inode is Some {
                1int
            } else {
                0
            })
        }),
{
    let lines = context.evidence_lines(username);
    let a = if context.cmdline is Some {
        2int
    } else {
        1
    };
    let b = a + 3 + (if context.vm_rss_kb > 0 || context.vm_size_kb > 0 {
        1int
    } else {
        0
    });
    let c = b + (if context.threads > 1 {
        1int
    } else {
        0
    });
    let d = c + (if context.cgroup is Some {
        1int
    } else {
        0
    });
    let e = d + (if context.netns_inode is Some {
        1int
    } else {
        0
    });
    assert(lines.contains(lines[a]));
    assert(lines.contains(lines[a + 1]));
    assert(lines.contains(lines[a + 2]));
    if context.vm_rss_kb > 0 || context.vm_size_kb > 0 {
        assert(lines.contains(lines[a + 3]));
    }
    if context.threads > 1 {
        assert(lines.contains(lines[b]));
    }
    if context.cgroup is Some {
        assert(lines.contains(lines[c]));
    }
    if context.netns_inode is Some {
        assert(lines.contains(lines[d]));
    }
    if context.pidns_inode is Some {
        assert(lines.contains(lines[e]));
    }
}

// ---------------------------------------------------------------------------
// The context of a process
// ---------------------------------------------------------------------------

/// A process has a context exactly where its status text tells its name, its parent and its
/// user.
pub proof fn lemma_readable_records(record: ProcessRecord)
    ensures
        record.is_readable() == (record.status matches Some(status) && process::status_field(
            status@,
            "Name"@,
        ) is Some && process::status_number_u32(status@, "PPid"@) is Some && process::uid_pair(
            status@,
        ) is Some),
{
}

/// Each part of the context of a process comes from the line or file that is about it, and
/// from no other.
pub proof fn lemma_context_is_read(record: ProcessRecord, pid: u32, context: ProcessContext, n: int)
    requires
        record.is_readable(),
        record.tells(pid, context),
    ensures
        context.pid == pid,
        process::status_field(record.status->0@, "Name"@) == Some(context.name@),
        process::status_number_u32(record.status->0@, "PPid"@) == Some(n) ==> context.ppid == n,
        process::uid_pair(record.status->0@) == Some((context.uid as int, context.euid as int)),
        process::status_number(record.status->0@, "VmRSS"@) == Some(n) ==> context.vm_rss_kb == n,
        process::status_number(record.status->0@, "VmSize"@) == Some(n) ==> context.vm_size_kb == n,
        process::status_number(record.status->0@, "VmSwap"@) == Some(n) ==> context.vm_swap_kb == n,
        process::status_number(record.status->0@, "Threads"@) == Some(n) ==> context.threads == n,
        process::status_number(record.status->0@, "VmRSS"@) is None ==> context.vm_rss_kb == 0,
        process::status_number(record.status->0@, "VmSize"@) is None ==> context.vm_size_kb == 0,
        process::status_number(record.status->0@, "VmSwap"@) is None ==> context.vm_swap_kb == 0,
        process::status_number(record.status->0@, "Threads"@) is None ==> context.threads == 1,
        match record.stat {
            Some(stat) => match process::stat_state(stat@) {
                Some(state) => context.state == state,
                None => context.state == ProcState::Unknown,
            },
            None => context.state == ProcState::Unknown,
        },
        match record.cmdline {
            Some(content) => process::opt_view(context.cmdline) == process::command_line(content@),
            None => context.cmdline is None,
        },
        match record.cgroup {
            Some(content) => process::opt_view(context.cgroup) == process::cgroup_line(content@),
            None => context.cgroup is None,
        },
        context.netns_inode == record.netns_inode,
        context.pidns_inode == record.pidns_inode,
{
}

// ---------------------------------------------------------------------------
// The way up
// ---------------------------------------------------------------------------

/// The table has a record of the process, and its first record tells the name, the parent and
/// the user.
pub open spec fn has_record(table: Seq<ProcessEntry>, pid: u32) -> bool {
    exists|k: int|
        0 <= k < table.len() && (#[trigger] table[k]).pid == pid && table[k].record.is_readable()
            && forall|j: int| 0 <= j < k ==> (#[trigger] table[j]).pid != pid
}

/// A process with a record is known, and no other.
pub proof fn lemma_known_processes(table: Seq<ProcessEntry>, pid: u32)
    ensures
        process::is_known(table, pid) == has_record(table, pid),
{
    lemma_first_entry(table, pid);
    if has_record(table, pid) {
        let k = choose|k: int|
            0 <= k < table.len() && (#[trigger] table[k]).pid == pid
                && table[k].record.is_readable() && forall|j: int|
                0 <= j < k ==> (#[trigger] table[j]).pid != pid;
        assert(table[k].pid == pid);
        let m = process::find_entry(table, pid)->0;
        assert(table[m].pid == pid);
        assert(m == k);
    }
}

proof fn lemma_first_entry(table: Seq<ProcessEntry>, pid: u32)
    ensures
        match process::find_entry(table, pid) {
            Some(k) => 0 <= k < table.len() && table[k].pid == pid && forall|j: int|
                0 <= j < k ==> (#[trigger] table[j]).pid != pid,
            None => forall|j: int| 0 <= j < table.len() ==> (#[trigger] table[j]).pid != pid,
        },
    decreases table.len(),
{
    if table.len() > 0 {
        let init = table.drop_last();
        lemma_first_entry(init, pid);
        assert forall|j: int| 0 <= j < init.len() implies #[trigger] table[j] == init[j] by {
        }
    }
}

/// A process of the table is the first on the way up from it.
pub proof fn lemma_chain_starts(table: Seq<ProcessEntry>, start: u32, chain: Seq<ProcessContext>)
    requires
        process::is_parent_chain(table, start, chain),
    ensures
        has_record(table, start) == (chain.len() > 0),
        chain.len() > 0 ==> chain[0].pid == start,
{
    lemma_known_processes(table, start);
    if chain.len() > 0 {
        assert(process::is_told(table, chain[0]));
    }
}

/// The way up goes on to the parent of each process, unless the process is the first one of
/// the system, has no parent or is its own, or unless the table tells nothing about the parent
/// or the way has been there. Nothing else that is known of a process ends it.
pub proof fn lemma_chain_goes_on(
    table: Seq<ProcessEntry>,
    start: u32,
    chain: Seq<ProcessContext>,
    j: int,
)
    requires
        process::is_parent_chain(table, start, chain),
        0 <= j < chain.len(),
        chain[j].pid != 1,
        chain[j].ppid != 0,
        chain[j].ppid != chain[j].pid,
        has_record(table, chain[j].ppid),
        forall|i: int| 0 <= i <= j ==> (#[trigger] chain[i]).pid != chain[j].ppid,
    ensures
        j + 1 < chain.len(),
        chain[j + 1].pid == chain[j].ppid,
{
    lemma_known_processes(table, chain[j].ppid);
    if j + 1 < chain.len() {
        assert(process::follows(chain, j + 1));
    } else if process::on_chain(chain, chain[j].ppid) {
        let i = choose|i: int| 0 <= i < chain.len() && (#[trigger] chain[i]).pid == chain[j].ppid;
        assert(chain[i].pid != chain[j].ppid);
    }
}

/// The way up never goes on from the first process of the system, from one without a parent,
/// to a process that the table tells nothing about, or to one where it has been.
pub proof fn lemma_chain_ends(
    table: Seq<ProcessEntry>,
    start: u32,
    chain: Seq<ProcessContext>,
    j: int,
)
    requires
        process::is_parent_chain(table, start, chain),
        0 <= j < chain.len() - 1,
    ensures
        chain[j].pid != 1,
        chain[j].ppid != 0,
        chain[j].ppid != chain[j].pid,
        chain[j + 1].pid == chain[j].ppid,
        has_record(table, chain[j].ppid),
        forall|i: int| 0 <= i <= j ==> (#[trigger] chain[i]).pid != chain[j + 1].pid,
{
    assert(process::follows(chain, j + 1));
    assert(process::is_told(table, chain[j + 1]));
    lemma_known_processes(table, chain[j + 1].pid);
}

/// What stands on the way up is what the table tells about each process.
pub proof fn lemma_chain_is_told(
    table: Seq<ProcessEntry>,
    start: u32,
    chain: Seq<ProcessContext>,
    j: int,
    k: int,
)
    requires
        process::is_parent_chain(table, start, chain),
        0 <= j < chain.len(),
        0 <= k < table.len(),
        table[k].pid == chain[j].pid,
        forall|i: int| 0 <= i < k ==> (#[trigger] table[i]).pid != chain[j].pid,
    ensures
        table[k].record.is_readable(),
        table[k].record.tells(chain[j].pid, chain[j]),
{
    lemma_first_entry(table, chain[j].pid);
    assert(process::is_told(table, chain[j]));
    let m = process::find_entry(table, chain[j].pid)->0;
    assert(table[m].pid == chain[j].pid);
    assert(table[k].pid == chain[j].pid);
    assert(m == k);
}

// ---------------------------------------------------------------------------
// Odd command lines
// ---------------------------------------------------------------------------

/// A blank, a tabulator, a line feed, a form feed and a carriage return at the end of a command
/// line are left out, and no other byte is.
pub proof fn lemma_end_of_command_line(content: Seq<u8>, b: u8)
    ensures
        b == 0x20 || b == 0x09 || b == 0x0a || b == 0x0c || b == 0x0d ==> process::command_line(
            content.push(b),
        ) == process::command_line(content),
        !(b == 0x20 || b == 0x09 || b == 0x0a || b == 0x0c || b == 0x0d)
            ==> process::trim_ascii_end(content.push(b)) == content.push(b),
{
    assert(content.push(b).drop_last() =~= content);
    assert(content.push(b).last() == b);
}

/// One more argument of a process is shown behind the others, unless it is empty or no text.
pub proof fn lemma_arguments_grow(content: Seq<u8>, piece: Seq<u8>)
    requires
        !piece.contains(0u8),
    ensures
        process::arguments(content.push(0u8) + piece.push(0u8)) == if piece.len() > 0
            && utf8::valid_utf8(piece) {
            process::arguments(content.push(0u8)).push(utf8::decode_utf8(piece))
        } else {
            process::arguments(content.push(0u8))
        },
{
    let keep = process::argument();
    let none = Seq::<u8>::empty();
    let old_content = content.push(0u8);
    let new_content = old_content + piece.push(0u8);
    assert(new_content.last() == 0u8);
    assert(process::trim_ascii_end(new_content) == new_content);
    assert(process::trim_ascii_end(old_content) == old_content);
    crate::laws::text::lemma_split_first(none, 0u8, none);
    crate::laws::text::lemma_split_first(piece, 0u8, none);
    bytes::lemma_split_concat(content, none, 0u8);
    assert(content.push(0u8) + none =~= old_content);
    bytes::lemma_split_concat(content, piece.push(0u8) + none, 0u8);
    assert(content.push(0u8) + (piece.push(0u8) + none) =~= new_content);
    let first = text::split(content, 0u8);
    assert(text::split(old_content, 0u8) =~= first + seq![none]);
    assert(text::split(new_content, 0u8) =~= first + (seq![piece] + seq![none]));
    Seq::filter_distributes_over_add(first, seq![none], keep);
    Seq::filter_distributes_over_add(first, seq![piece] + seq![none], keep);
    Seq::filter_distributes_over_add(seq![piece], seq![none], keep);
    crate::order::lemma_filter_one(none, keep);
    crate::order::lemma_filter_one(piece, keep);
    let kept = first.filter(keep);
    assert(first.filter(keep) + seq![none].filter(keep) =~= kept);
    if piece.len() > 0 && utf8::valid_utf8(piece) {
        assert(kept + (seq![piece].filter(keep) + seq![none].filter(keep)) =~= kept.push(piece));
        assert(process::arguments(new_content) =~= process::arguments(old_content).push(
            utf8::decode_utf8(piece),
        ));
    } else {
        assert(kept + (seq![piece].filter(keep) + seq![none].filter(keep)) =~= kept);
    }
}

// ---------------------------------------------------------------------------
// What is not there
// ---------------------------------------------------------------------------

/// A field whose first word is no number has no number, and neither has one without a value.
pub proof fn lemma_field_without_number(status: Seq<char>, key: Seq<char>, value: Seq<char>)
    ensures
        process::status_field(status, key) is None ==> process::status_number(status, key) is None,
        process::status_field(status, key) == Some(value) && text::words(value).len() > 0
            && number::parse_uint(text::words(value)[0], 10, u64::MAX as int) is None
            ==> process::status_number(status, key) is None && process::status_number_u32(
            status,
            key,
        ) is None,
{
}

/// Without a `Uid` line, or with something else than a number on it, the users are not known;
/// without an effective user on it that is root.
pub proof fn lemma_users_are_incomplete(status: Seq<char>, value: Seq<char>, owner: u32)
    ensures
        process::status_field(status, "Uid"@) is None ==> process::uid_pair(status) is None,
        process::status_field(status, "Uid"@) == Some(value) && text::words(value).len() > 0
            && number::parse_uint(text::words(value)[0], 10, u32::MAX as int) is None
            ==> process::uid_pair(status) is None,
        process::status_field(status, "Uid"@) == Some(value) && text::words(value) == seq![
            number::decimal(owner as int),
        ] ==> process::uid_pair(status) == Some((owner as int, 0int)),
        process::status_field(status, "Uid"@) == Some(value) && text::words(value).len() > 1
            && text::words(value)[0] == number::decimal(owner as int) && number::parse_uint(
            text::words(value)[1],
            10,
            u32::MAX as int,
        ) is None ==> process::uid_pair(status) == Some((owner as int, 0int)),
{
    crate::laws::number::lemma_decimal_is_read(0, owner as int, u32::MAX as int);
}

/// Without the bracket behind the name, or with nothing behind it, there is no state.
pub proof fn lemma_no_state(stat: Seq<char>, front: Seq<char>, gap: Seq<char>)
    requires
        blank(gap),
    ensures
        !stat.contains(')') ==> process::stat_state(stat) is None,
        process::stat_state(front.push(')') + gap) is None,
{
    assert(!gap.contains(')')) by {
        if gap.contains(')') {
            let i = choose|i: int| 0 <= i < gap.len() && gap[i] == ')';
            assert(text::is_space(gap[i]));
        }
    }
    crate::laws::text::lemma_after_last(front, ')', gap);
    text::lemma_prefix_len_is(gap, text::space(), gap.len() as int);
}

/// A control group without a colon is a path as a whole, and a file with nothing visible in it
/// names none.
pub proof fn lemma_odd_control_groups(content: Seq<char>, k: int)
    ensures
        0 <= k < text::lines(content).len() && !text::lines(content)[k].contains(':') && text::trim(
            text::lines(content)[k],
        ).len() > 0 && (forall|j: int|
            k < j < text::lines(content).len() ==> text::trim(
                #[trigger] text::lines(content)[j],
            ).len() == 0) ==> process::unit_of_process(content) == process::systemd_unit(
            text::lines(content)[k],
        ) && process::cgroup_line(content) == Some(text::trim(text::lines(content)[k])),
        (forall|j: int|
            0 <= j < text::lines(content).len() ==> text::trim(
                #[trigger] text::lines(content)[j],
            ).len() == 0) ==> process::unit_of_process(content) is None && process::cgroup_line(
            content,
        ) is None,
{
    let lines = text::lines(content);
    if 0 <= k < lines.len() && !lines[k].contains(':') && text::trim(lines[k]).len() > 0 && (
    forall|j: int| k < j < lines.len() ==> text::trim(#[trigger] lines[j]).len() == 0) {
        lemma_last_line_counts(lines, k);
        crate::laws::text::lemma_after_last(Seq::empty(), ':', lines[k]);
    }
    if forall|j: int| 0 <= j < lines.len() ==> text::trim(#[trigger] lines[j]).len() == 0 {
        lemma_no_line_counts(lines);
    }
}

proof fn lemma_no_line_counts(lines: Seq<Seq<char>>)
    requires
        forall|j: int| 0 <= j < lines.len() ==> text::trim(#[trigger] lines[j]).len() == 0,
    ensures
        process::last_visible_line(lines) is None,
    decreases lines.len(),
{
    if lines.len() > 0 {
        assert(text::trim(lines[lines.len() - 1]).len() == 0);
        let rest = lines.drop_last();
        assert forall|j: int| 0 <= j < rest.len() implies text::trim(#[trigger] rest[j]).len()
            == 0 by {
            assert(rest[j] == lines[j]);
        }
        lemma_no_line_counts(rest);
    }
}

} // verus!
