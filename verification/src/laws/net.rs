//! What reading the network is for: each value of an interface comes from the file of its own
//! name, and every address, neighbor, route and server that the system lists is found.

use crate::bytes;
use crate::laws::number::{hex, zeros};
use crate::laws::text::{blank, is_word};
use crate::net;
use crate::net::sort;
use crate::net::{
    ArpEntry, InterfaceEntry, InterfaceFiles, NetFiles, NetReport, ResolverConfig, RouteEntry,
};
use crate::number;
use crate::process;
use crate::text;
use vstd::prelude::*;

verus! {

// ---------------------------------------------------------------------------
// Single values
// ---------------------------------------------------------------------------

/// The file was read and holds this text, with nothing but white space around it.
pub open spec fn holds_text(
    file: Option<String>,
    before: Seq<char>,
    s: Seq<char>,
    after: Seq<char>,
) -> bool {
    &&& file matches Some(content)
    &&& content@ == before + s + after
    &&& blank(before)
    &&& blank(after)
}

/// A line end is white space.
pub proof fn lemma_line_end(s: Seq<char>)
    ensures
        blank(seq!['\n']),
        blank(Seq::<char>::empty()),
        Seq::<char>::empty() + s + seq!['\n'] == s.push('\n'),
{
    assert(Seq::<char>::empty() + s + seq!['\n'] =~= s.push('\n'));
}

/// The number in a file is read from its decimal digits, and one that is too great is none.
pub proof fn lemma_number_is_read(
    file: Option<String>,
    before: Seq<char>,
    n: int,
    after: Seq<char>,
    max: int,
)
    requires
        0 <= n,
        holds_text(file, before, number::decimal(n), after),
    ensures
        net::number_of(process::opt_view(file), max) == if n <= max {
            Some(n)
        } else {
            None::<int>
        },
{
    let digits = number::decimal(n);
    crate::laws::text::lemma_digits_are_a_word(0, n);
    assert(!text::is_space(digits[0]));
    assert(!text::is_space(digits[digits.len() - 1]));
    crate::laws::text::lemma_trim_around(before, digits, after);
    crate::laws::number::lemma_decimal_is_read(0, n, max);
}

/// The text in a file is read without the white space around it; an empty text and a file that
/// cannot be read say nothing.
pub proof fn lemma_line_is_read(
    file: Option<String>,
    before: Seq<char>,
    s: Seq<char>,
    after: Seq<char>,
)
    requires
        holds_text(file, before, s, after),
        s.len() > 0 ==> !text::is_space(s[0]) && !text::is_space(s.last()),
    ensures
        net::line_of(process::opt_view(file)) == if s.len() > 0 {
            Some(s)
        } else {
            None::<Seq<char>>
        },
        net::line_of(None) is None,
{
    crate::laws::text::lemma_trim_around(before, s, after);
}

/// The flags of an interface are read from the digits in base 16 that the kernel writes.
pub proof fn lemma_flags_are_read(
    file: Option<String>,
    before: Seq<char>,
    k: nat,
    n: u32,
    capitals: bool,
    after: Seq<char>,
)
    requires
        holds_text(file, before, "0x"@ + (zeros(k) + hex(n as int, capitals)), after),
    ensures
        net::flags_of(process::opt_view(file)) == Some(n as int),
{
    let digits = zeros(k) + hex(n as int, capitals);
    let s = "0x"@ + digits;
    reveal_strlit("0x");
    crate::laws::number::lemma_hex_characters(n as int, capitals);
    crate::laws::number::lemma_hex_is_read(k, n as int, capitals, u32::MAX as int);
    let h = hex(n as int, capitals);
    assert(h.len() > 0);
    let c = h[h.len() - 1];
    assert(s.last() == c);
    assert(s[0] == '0');
    crate::laws::text::lemma_trim_around(before, s, after);
    crate::laws::text::lemma_strip_prefix(digits, "0x"@);
}

// ---------------------------------------------------------------------------
// Interfaces
// ---------------------------------------------------------------------------

/// Each number of an interface is that in the file of its own name, whatever the other files
/// hold.
pub proof fn lemma_interface_numbers(
    entry: InterfaceEntry,
    files: InterfaceFiles,
    fib_trie: Option<Seq<char>>,
    if_inet6: Option<Seq<char>>,
    before: Seq<char>,
    n: u64,
    after: Seq<char>,
)
    requires
        net::is_interface(entry, files, fib_trie, if_inet6),
    ensures
        holds_text(files.rx_bytes, before, number::decimal(n as int), after) ==> entry.rx_bytes
            == Some(n),
        holds_text(files.tx_bytes, before, number::decimal(n as int), after) ==> entry.tx_bytes
            == Some(n),
        holds_text(files.rx_packets, before, number::decimal(n as int), after) ==> entry.rx_packets
            == Some(n),
        holds_text(files.tx_packets, before, number::decimal(n as int), after) ==> entry.tx_packets
            == Some(n),
        holds_text(files.rx_errors, before, number::decimal(n as int), after) ==> entry.rx_errors
            == Some(n),
        holds_text(files.tx_errors, before, number::decimal(n as int), after) ==> entry.tx_errors
            == Some(n),
        holds_text(files.rx_dropped, before, number::decimal(n as int), after) ==> entry.rx_dropped
            == Some(n),
        holds_text(files.tx_dropped, before, number::decimal(n as int), after) ==> entry.tx_dropped
            == Some(n),
        n <= u32::MAX && holds_text(files.mtu, before, number::decimal(n as int), after)
            ==> entry.mtu == Some(n as u32),
        n <= u32::MAX && holds_text(files.iftype, before, number::decimal(n as int), after)
            ==> entry.iftype == Some(n as u32),
        files.rx_bytes is None ==> entry.rx_bytes is None,
        files.tx_bytes is None ==> entry.tx_bytes is None,
        files.rx_packets is None ==> entry.rx_packets is None,
        files.tx_packets is None ==> entry.tx_packets is None,
        files.rx_errors is None ==> entry.rx_errors is None,
        files.tx_errors is None ==> entry.tx_errors is None,
        files.rx_dropped is None ==> entry.rx_dropped is None,
        files.tx_dropped is None ==> entry.tx_dropped is None,
        files.mtu is None ==> entry.mtu is None,
        files.iftype is None ==> entry.iftype is None,
        files.flags is None ==> entry.flags is None,
{
    let d = number::decimal(n as int);
    let big = u64::MAX as int;
    let small = u32::MAX as int;
    if holds_text(files.rx_bytes, before, d, after) {
        lemma_number_is_read(files.rx_bytes, before, n as int, after, big);
    }
    if holds_text(files.tx_bytes, before, d, after) {
        lemma_number_is_read(files.tx_bytes, before, n as int, after, big);
    }
    if holds_text(files.rx_packets, before, d, after) {
        lemma_number_is_read(files.rx_packets, before, n as int, after, big);
    }
    if holds_text(files.tx_packets, before, d, after) {
        lemma_number_is_read(files.tx_packets, before, n as int, after, big);
    }
    if holds_text(files.rx_errors, before, d, after) {
        lemma_number_is_read(files.rx_errors, before, n as int, after, big);
    }
    if holds_text(files.tx_errors, before, d, after) {
        lemma_number_is_read(files.tx_errors, before, n as int, after, big);
    }
    if holds_text(files.rx_dropped, before, d, after) {
        lemma_number_is_read(files.rx_dropped, before, n as int, after, big);
    }
    if holds_text(files.tx_dropped, before, d, after) {
        lemma_number_is_read(files.tx_dropped, before, n as int, after, big);
    }
    if holds_text(files.mtu, before, d, after) {
        lemma_number_is_read(files.mtu, before, n as int, after, small);
    }
    if holds_text(files.iftype, before, d, after) {
        lemma_number_is_read(files.iftype, before, n as int, after, small);
    }
}

/// The texts of an interface are those in the files of their own names, its flags are those of
/// the file for them, and its name is the name of its directory.
pub proof fn lemma_interface_texts(
    entry: InterfaceEntry,
    files: InterfaceFiles,
    fib_trie: Option<Seq<char>>,
    if_inet6: Option<Seq<char>>,
    before: Seq<char>,
    s: Seq<char>,
    after: Seq<char>,
    flags: u32,
)
    requires
        net::is_interface(entry, files, fib_trie, if_inet6),
        s.len() > 0,
        !text::is_space(s[0]),
        !text::is_space(s.last()),
    ensures
        entry.name@ == bytes::lossy(files.name@),
        holds_text(files.operstate, before, s, after) ==> (entry.state matches Some(state)
            && state@ == s),
        holds_text(files.address, before, s, after) ==> (entry.mac matches Some(mac) && mac@ == s),
        files.operstate is None ==> entry.state is None,
        files.address is None ==> entry.mac is None,
        holds_text(files.flags, before, "0x"@ + hex(flags as int, false), after) ==> entry.flags
            == Some(flags),
{
    if holds_text(files.operstate, before, s, after) {
        lemma_line_is_read(files.operstate, before, s, after);
    }
    if holds_text(files.address, before, s, after) {
        lemma_line_is_read(files.address, before, s, after);
    }
    if holds_text(files.flags, before, "0x"@ + hex(flags as int, false), after) {
        assert(zeros(0) + hex(flags as int, false) =~= hex(flags as int, false));
        lemma_flags_are_read(files.flags, before, 0, flags, false, after);
    }
}

/// One of the entries is what these files say.
pub open spec fn is_reported(
    files: InterfaceFiles,
    entries: Seq<InterfaceEntry>,
    fib_trie: Option<Seq<char>>,
    if_inet6: Option<Seq<char>>,
) -> bool {
    exists|k: int|
        0 <= k < entries.len() && net::is_interface(
            #[trigger] entries[k],
            files,
            fib_trie,
            if_inet6,
        )
}

/// The entry is what the files of one of the interfaces say.
pub open spec fn is_there(
    entry: InterfaceEntry,
    files: Seq<InterfaceFiles>,
    fib_trie: Option<Seq<char>>,
    if_inet6: Option<Seq<char>>,
) -> bool {
    exists|i: int|
        0 <= i < files.len() && net::is_interface(entry, #[trigger] files[i], fib_trie, if_inet6)
}

/// Every interface of the system is reported, none that it does not have, and they stand in
/// the order of their names.
pub proof fn lemma_interfaces_are_reported(
    entries: Seq<InterfaceEntry>,
    files: Seq<InterfaceFiles>,
    fib_trie: Option<Seq<char>>,
    if_inet6: Option<Seq<char>>,
)
    requires
        net::are_sorted_interfaces(entries, files, fib_trie, if_inet6),
    ensures
        forall|i: int|
            0 <= i < files.len() ==> is_reported(
                #[trigger] files[i],
                entries,
                fib_trie,
                if_inet6,
            ),
        forall|k: int|
            0 <= k < entries.len() ==> is_there(
                #[trigger] entries[k],
                files,
                fib_trie,
                if_inet6,
            ),
        forall|i: int, j: int|
            0 <= i < j < entries.len() ==> sort::precedes(
                (#[trigger] entries[i]).name@,
                (#[trigger] entries[j]).name@,
            ),
{
    let found = choose|found: Seq<InterfaceEntry>|
        #![trigger net::are_interfaces(found, files, fib_trie, if_inet6)]
        net::are_interfaces(found, files, fib_trie, if_inet6) && sort::is_sorted_by_name(
            entries,
            found,
        );
    assert forall|i: int| 0 <= i < files.len() implies is_reported(
        #[trigger] files[i],
        entries,
        fib_trie,
        if_inet6,
    ) by {
        let keep = sort::named(found[i].name@);
        assert(net::is_interface(found[i], files[i], fib_trie, if_inet6));
        crate::order::lemma_filter_member(found, keep, found[i]);
        crate::order::lemma_filter_member(entries, keep, found[i]);
        assert(found.contains(found[i]));
        assert(entries.filter(keep) == found.filter(keep));
        assert(entries.contains(found[i]));
        let k = choose|k: int| 0 <= k < entries.len() && entries[k] == found[i];
        assert(net::is_interface(entries[k], files[i], fib_trie, if_inet6));
    }
    assert forall|k: int| 0 <= k < entries.len() implies is_there(
        #[trigger] entries[k],
        files,
        fib_trie,
        if_inet6,
    ) by {
        let keep = sort::named(entries[k].name@);
        crate::order::lemma_filter_member(found, keep, entries[k]);
        crate::order::lemma_filter_member(entries, keep, entries[k]);
        assert(entries.contains(entries[k]));
        assert(entries.filter(keep) == found.filter(keep));
        let i = choose|i: int| 0 <= i < found.len() && found[i] == entries[k];
        assert(net::is_interface(found[i], files[i], fib_trie, if_inet6));
    }
}

/// A name comes before another where it is its start or has the smaller character at the first
/// place where they differ.
pub proof fn lemma_name_order(start: Seq<char>, a: char, one: Seq<char>, b: char, two: Seq<char>)
    ensures
        sort::precedes(start, start.push(b) + two),
        a < b ==> sort::precedes(start.push(a) + one, start.push(b) + two),
        a < b ==> !sort::precedes(start.push(b) + two, start.push(a) + one),
    decreases start.len(),
{
    let left = start.push(a) + one;
    let right = start.push(b) + two;
    if start.len() > 0 {
        let rest = start.skip(1);
        assert(left.skip(1) =~= rest.push(a) + one);
        assert(right.skip(1) =~= rest.push(b) + two);
        lemma_name_order(rest, a, one, b, two);
    }
}

// ---------------------------------------------------------------------------
// IPv6
// ---------------------------------------------------------------------------

/// Groups of four characters.
pub open spec fn by_four(groups: Seq<Seq<char>>) -> bool {
    forall|i: int| 0 <= i < groups.len() ==> (#[trigger] groups[i]).len() == 4
}

/// The characters of the groups.
pub open spec fn ungrouped(groups: Seq<Seq<char>>) -> Seq<char> {
    text::join(groups, Seq::empty())
}

proof fn lemma_ungrouped(groups: Seq<Seq<char>>)
    requires
        by_four(groups),
    ensures
        ungrouped(groups).len() == 4 * groups.len(),
        groups.len() > 0 ==> ungrouped(groups) == ungrouped(groups.drop_last()) + groups.last(),
    decreases groups.len(),
{
    if groups.len() > 0 {
        let init = groups.drop_last();
        assert forall|i: int| 0 <= i < init.len() implies (#[trigger] init[i]).len() == 4 by {
            assert(init[i] == groups[i]);
        }
        lemma_ungrouped(init);
        assert(groups[groups.len() - 1].len() == 4);
        assert(ungrouped(groups) =~= ungrouped(init) + groups.last());
    }
}

/// An address is shown with a colon between each four of its characters.
pub proof fn lemma_address_groups(groups: Seq<Seq<char>>)
    requires
        by_four(groups),
        groups.len() > 0,
    ensures
        net::grouped(ungrouped(groups)) == text::join(groups, seq![':']),
    decreases groups.len(),
{
    let init = groups.drop_last();
    let g = groups.last();
    assert(groups[groups.len() - 1].len() == 4);
    assert forall|i: int| 0 <= i < init.len() implies (#[trigger] init[i]).len() == 4 by {
        assert(init[i] == groups[i]);
    }
    lemma_ungrouped(groups);
    lemma_ungrouped(init);
    let s = ungrouped(init);
    let s1 = s.push(g[0]);
    let s2 = s1.push(g[1]);
    let s3 = s2.push(g[2]);
    let s4 = s3.push(g[3]);
    assert(ungrouped(groups) =~= s4);
    assert(s1.drop_last() =~= s);
    assert(s2.drop_last() =~= s1);
    assert(s3.drop_last() =~= s2);
    assert(s4.drop_last() =~= s3);
    assert(net::grouped(s2) == net::grouped(s1).push(g[1]));
    assert(net::grouped(s3) == net::grouped(s2).push(g[2]));
    assert(net::grouped(s4) == net::grouped(s3).push(g[3]));
    if init.len() > 0 {
        lemma_address_groups(init);
        assert(net::grouped(s1) == net::grouped(s).push(':').push(g[0]));
        assert(net::grouped(s4) =~= text::join(init, seq![':']) + seq![':'] + g);
    } else {
        assert(net::grouped(s).len() == 0);
        assert(net::grouped(s1) == net::grouped(s).push(g[0]));
        assert(net::grouped(s4) =~= g);
    }
}

/// A line of the list of IPv6 addresses gives an address to the interface in its sixth column
/// and to no other.
pub proof fn lemma_inet6_line_is_read(line: Seq<char>, groups: Seq<Seq<char>>, iface: Seq<char>)
    requires
        text::words(line).len() >= 6,
        by_four(groups),
        groups.len() == 8,
        text::words(line)[0] == ungrouped(groups),
        vstd::utf8::is_ascii_chars(ungrouped(groups)),
    ensures
        net::inet6_of_line(line, iface) == if text::words(line)[5] == iface {
            Some(text::join(groups, seq![':']))
        } else {
            None::<Seq<char>>
        },
{
    lemma_ungrouped(groups);
    lemma_address_groups(groups);
    vstd::utf8::is_ascii_chars_encode_utf8(ungrouped(groups));
}

/// The addresses of an interface are those of the lines that are its own, in their order.
pub proof fn lemma_inet6_lines(lines: Seq<Seq<char>>, line: Seq<char>, iface: Seq<char>)
    ensures
        net::inet6_of_lines(lines, iface, 0).len() == 0,
        net::inet6_of_lines(lines.push(line), iface, (lines.len() + 1) as int) == match net::inet6_of_line(
            line,
            iface,
        ) {
            Some(address) => net::inet6_of_lines(lines, iface, lines.len() as int).push(address),
            None => net::inet6_of_lines(lines, iface, lines.len() as int),
        },
{
    lemma_inet6_prefix(lines, line, iface, lines.len() as int);
}

proof fn lemma_inet6_prefix(lines: Seq<Seq<char>>, line: Seq<char>, iface: Seq<char>, n: int)
    requires
        0 <= n <= lines.len(),
    ensures
        net::inet6_of_lines(lines.push(line), iface, n) == net::inet6_of_lines(lines, iface, n),
    decreases n,
{
    if n > 0 {
        lemma_inet6_prefix(lines, line, iface, n - 1);
        assert(lines.push(line)[n - 1] == lines[n - 1]);
    }
}

/// The IPv6 addresses of an interface are read from the lines of the list.
pub proof fn lemma_interface_addresses(
    entry: InterfaceEntry,
    files: InterfaceFiles,
    fib_trie: Seq<char>,
    if_inet6: Seq<char>,
)
    requires
        net::is_interface(entry, files, Some(fib_trie), Some(if_inet6)),
    ensures
        text::views(entry.ipv6@) == net::inet6_of_lines(
            text::lines(if_inet6),
            bytes::lossy(files.name@),
            text::lines(if_inet6).len() as int,
        ),
        text::views(entry.ipv4@) == net::local_ips(
            text::lines(fib_trie),
            text::lines(fib_trie).len() as int,
        ),
{
}

// ---------------------------------------------------------------------------
// IPv4
// ---------------------------------------------------------------------------

/// An address in four numbers with points between them.
pub open spec fn dotted(a: int, b: int, c: int, d: int) -> Seq<char> {
    number::decimal(a) + "."@ + number::decimal(b) + "."@ + number::decimal(c) + "."@
        + number::decimal(d)
}

proof fn lemma_digits_without(n: int, c: char)
    requires
        0 <= n,
        !('0' <= c <= '9'),
    ensures
        !number::decimal(n).contains(c),
{
    number::lemma_decimal_digits(n);
    if number::decimal(n).contains(c) {
        let i = choose|i: int| 0 <= i < number::decimal(n).len() && number::decimal(n)[i] == c;
        assert('0' <= number::decimal(n)[i] <= '9');
    }
}

proof fn lemma_dotted(a: int, b: int, c: int, d: int)
    requires
        0 <= a <= 255,
        0 <= b <= 255,
        0 <= c <= 255,
        0 <= d <= 255,
    ensures
        net::is_ipv4(dotted(a, b, c, d)),
        is_word(dotted(a, b, c, d)),
        '0' <= dotted(a, b, c, d)[0] <= '9',
{
    let s = dotted(a, b, c, d);
    let w = number::decimal(a);
    let x = number::decimal(b);
    let y = number::decimal(c);
    let z = number::decimal(d);
    reveal_strlit(".");
    assert("."@ =~= seq!['.']);
    lemma_digits_without(a, '.');
    lemma_digits_without(b, '.');
    lemma_digits_without(c, '.');
    lemma_digits_without(d, '.');
    crate::laws::text::lemma_split_first(z, '.', Seq::empty());
    crate::laws::text::lemma_split_first(y, '.', z);
    crate::laws::text::lemma_split_first(x, '.', y.push('.') + z);
    crate::laws::text::lemma_split_first(w, '.', x.push('.') + (y.push('.') + z));
    assert(s =~= w.push('.') + (x.push('.') + (y.push('.') + z)));
    let parts = text::split(s, '.');
    assert(parts =~= seq![w, x, y, z]);
    crate::laws::number::lemma_decimal_is_read(0, a, 255);
    crate::laws::number::lemma_decimal_is_read(0, b, 255);
    crate::laws::number::lemma_decimal_is_read(0, c, 255);
    crate::laws::number::lemma_decimal_is_read(0, d, 255);
    assert forall|i: int| 0 <= i < 4 implies number::parse_uint(#[trigger] parts[i], 10, 255)
        is Some by {
        assert(i == 0 || i == 1 || i == 2 || i == 3);
    }
    crate::laws::text::lemma_digits_are_a_word(0, a);
    crate::laws::text::lemma_digits_are_a_word(0, b);
    crate::laws::text::lemma_digits_are_a_word(0, c);
    crate::laws::text::lemma_digits_are_a_word(0, d);
    number::lemma_decimal_digits(a);
    assert(s[0] == w[0]);
    assert forall|i: int| 0 <= i < s.len() implies !text::is_space(#[trigger] s[i]) by {
        let m = w.len();
        let n = w.len() + 1 + x.len();
        let o = n + 1 + y.len();
        if i < m {
            assert(s[i] == w[i]);
        } else if i == m {
        } else if i < n {
            assert(s[i] == x[i - m - 1]);
        } else if i == n {
        } else if i < o {
            assert(s[i] == y[i - n - 1]);
        } else if i > o {
            assert(s[i] == z[i - o - 1]);
        }
    }
}

proof fn lemma_no_prefix(s: Seq<char>, prefix: Seq<char>)
    requires
        s.len() > 0,
        prefix.len() > 0,
        s[0] != prefix[0],
    ensures
        net::without_prefixes(s, prefix) == s,
{
    if prefix.is_prefix_of(s) {
        assert(s.take(prefix.len() as int)[0] == prefix[0]);
    }
}

/// The address on a branch of the list of addresses is found behind the signs that draw the
/// branch.
pub proof fn lemma_branch_is_read(a: int, b: int, c: int, d: int, rest: Seq<char>)
    requires
        0 <= a <= 255,
        0 <= b <= 255,
        0 <= c <= 255,
        0 <= d <= 255,
        rest.len() == 0 || text::is_space(rest[0]),
    ensures
        net::ip_of_line("|-- "@ + dotted(a, b, c, d) + rest) == Some(dotted(a, b, c, d)),
{
    let ip = dotted(a, b, c, d);
    let line = "|-- "@ + ip + rest;
    reveal_strlit("|-- ");
    reveal_strlit("|--");
    reveal_strlit("|");
    lemma_dotted(a, b, c, d);
    let tail = seq![' '] + ip + rest;
    assert("|--"@.is_prefix_of(line)) by {
        assert(line.take(3) =~= "|--"@);
    }
    assert(line.skip(3) =~= tail);
    assert(tail[0] == ' ');
    lemma_no_prefix(tail, "|--"@);
    lemma_no_prefix(tail, "|"@);
    assert(net::without_prefixes(line, "|--"@) == tail);
    crate::laws::text::lemma_words_of_trimmed(tail);
    assert(blank(seq![' ']));
    crate::laws::text::lemma_words_first(seq![' '], ip, rest);
}

/// The line says that the address on the line before it is one of the system itself.
pub proof fn lemma_local_mark(
    line: Seq<char>,
    before: Seq<char>,
    between: Seq<char>,
    after: Seq<char>,
)
    requires
        text::trim(line) == before + "32 host"@ + between + "LOCAL"@ + after,
    ensures
        net::is_local_line(line),
{
    let s = text::trim(line);
    assert(s =~= before + "32 host"@ + (between + "LOCAL"@ + after));
    crate::laws::text::lemma_occurs(s, "32 host"@, before, between + "LOCAL"@ + after);
    assert(s =~= (before + "32 host"@ + between) + "LOCAL"@ + after);
    crate::laws::text::lemma_occurs(s, "LOCAL"@, before + "32 host"@ + between, after);
}

/// An address whose branch is marked as the system's own is among its addresses, unless it is
/// that of the loopback or no address.
pub proof fn lemma_local_address_is_found(
    lines: Seq<Seq<char>>,
    n: int,
    k: int,
    a: int,
    b: int,
    c: int,
    d: int,
    rest: Seq<char>,
)
    requires
        0 < k < n <= lines.len(),
        net::is_local_line(lines[k]),
        0 <= a <= 255,
        0 <= b <= 255,
        0 <= c <= 255,
        0 <= d <= 255,
        rest.len() == 0 || text::is_space(rest[0]),
        text::trim(lines[k - 1]) == "|-- "@ + dotted(a, b, c, d) + rest,
        dotted(a, b, c, d) != "127.0.0.1"@,
        dotted(a, b, c, d) != "0.0.0.0"@,
    ensures
        net::local_ips(lines, n).contains(dotted(a, b, c, d)),
{
    lemma_branch_is_read(a, b, c, d, rest);
    lemma_local_ip_is_kept(lines, n, k, dotted(a, b, c, d));
}

proof fn lemma_local_ip_is_kept(lines: Seq<Seq<char>>, n: int, k: int, ip: Seq<char>)
    requires
        0 < k < n <= lines.len(),
        net::local_ip(lines, k) == Some(ip),
    ensures
        net::local_ips(lines, n).contains(ip),
    decreases n,
{
    let now = net::local_ips(lines, n);
    let before = net::local_ips(lines, n - 1);
    if k == n - 1 {
        if !before.contains(ip) {
            assert(now[before.len() as int] == ip);
        }
    } else {
        lemma_local_ip_is_kept(lines, n - 1, k, ip);
        let i = choose|i: int| 0 <= i < before.len() && before[i] == ip;
        assert(now[i] == ip);
    }
}

/// Only addresses whose branch is marked as the system's own are among its addresses.
pub proof fn lemma_local_addresses_are_marked(lines: Seq<Seq<char>>, n: int, i: int)
    requires
        0 <= n <= lines.len(),
        0 <= i < net::local_ips(lines, n).len(),
    ensures
        exists|k: int|
            0 < k < n && net::is_local_line(#[trigger] lines[k]) && net::ip_of_line(
                text::trim(lines[k - 1]),
            ) == Some(net::local_ips(lines, n)[i]),
    decreases n,
{
    let now = net::local_ips(lines, n);
    let before = net::local_ips(lines, n - 1);
    if i < before.len() {
        lemma_local_addresses_are_marked(lines, n - 1, i);
        assert(now[i] == before[i]);
    } else {
        assert(net::is_local_line(lines[n - 1]));
    }
}

// ---------------------------------------------------------------------------
// Tables
// ---------------------------------------------------------------------------

proof fn lemma_row_is_kept(lines: Seq<Seq<char>>, min: int, n: int, k: int) -> (at: int)
    requires
        1 <= k < n <= lines.len(),
        text::words(lines[k]).len() >= min,
    ensures
        0 <= at < net::table_rows(lines, min, n).len(),
        net::table_rows(lines, min, n)[at] == text::words(lines[k]),
    decreases n,
{
    let before = net::table_rows(lines, min, n - 1);
    if k == n - 1 {
        before.len() as int
    } else {
        lemma_row_is_kept(lines, min, n - 1, k)
    }
}

proof fn lemma_row_has_line(lines: Seq<Seq<char>>, min: int, n: int, at: int) -> (k: int)
    requires
        n <= lines.len(),
        0 <= at < net::table_rows(lines, min, n).len(),
    ensures
        1 <= k < n,
        net::table_rows(lines, min, n)[at] == text::words(lines[k]),
        text::words(lines[k]).len() >= min,
    decreases n,
{
    let before = net::table_rows(lines, min, n - 1);
    if at < before.len() {
        lemma_row_has_line(lines, min, n - 1, at)
    } else {
        n - 1
    }
}

/// The neighbor is what the columns of the line say.
pub open spec fn neighbor_on(entry: ArpEntry, columns: Seq<Seq<char>>) -> bool {
    &&& entry.ip@ == columns[0]
    &&& entry.hw_type@ == columns[1]
    &&& entry.flags@ == columns[2]
    &&& entry.mac@ == columns[3]
    &&& entry.iface@ == columns[5]
}

/// Every line of the table of neighbors but its heading is a neighbor, with its address,
/// hardware address and interface, and no neighbor comes from elsewhere.
pub proof fn lemma_neighbors_are_read(entries: Seq<ArpEntry>, content: Seq<char>, k: int, i: int)
    requires
        net::are_neighbors(entries, net::rows_of(Some(content), 6)),
        1 <= k < text::lines(content).len(),
        text::words(text::lines(content)[k]).len() >= 6,
        0 <= i < entries.len(),
    ensures
        exists|e: int|
            0 <= e < entries.len() && neighbor_on(
                #[trigger] entries[e],
                text::words(text::lines(content)[k]),
            ),
        exists|j: int|
            1 <= j < text::lines(content).len() && neighbor_on(
                entries[i],
                text::words(#[trigger] text::lines(content)[j]),
            ),
{
    let lines = text::lines(content);
    let n = lines.len() as int;
    let at = lemma_row_is_kept(lines, 6, n, k);
    assert(net::is_neighbor(entries[at], net::rows_of(Some(content), 6)[at]));
    assert(neighbor_on(entries[at], text::words(lines[k])));
    let j = lemma_row_has_line(lines, 6, n, i);
    assert(net::is_neighbor(entries[i], net::rows_of(Some(content), 6)[i]));
    assert(neighbor_on(entries[i], text::words(lines[j])));
}

proof fn lemma_bytes_of(n: int, a: int, b: int, c: int, d: int)
    requires
        0 <= a <= 255,
        0 <= b <= 255,
        0 <= c <= 255,
        0 <= d <= 255,
        n == a + 256 * b + 65536 * c + 16777216 * d,
    ensures
        0 <= n <= u32::MAX,
        n % 256 == a,
        n / 256 % 256 == b,
        n / 65536 % 256 == c,
        n / 16777216 == d,
{
    assert(n / 256 == b + 256 * c + 65536 * d);
    assert(n / 65536 == c + 256 * d);
}

/// The routing table holds the bytes of an address in the order in which the machine has them:
/// the lowest is the first of the four numbers.
pub proof fn lemma_route_address(k: nat, capitals: bool, a: int, b: int, c: int, d: int)
    requires
        0 <= a <= 255,
        0 <= b <= 255,
        0 <= c <= 255,
        0 <= d <= 255,
        (zeros(k) + hex(a + 256 * b + 65536 * c + 16777216 * d, capitals)).len() == 8,
    ensures
        net::ipv4_of_hex(zeros(k) + hex(a + 256 * b + 65536 * c + 16777216 * d, capitals)) == Some(
            dotted(a, b, c, d),
        ),
{
    let n = a + 256 * b + 65536 * c + 16777216 * d;
    crate::laws::number::lemma_hex_is_read(k, n, capitals, u32::MAX as int);
    lemma_bytes_of(n, a, b, c, d);
}

/// The route is what the columns of the line say.
pub open spec fn route_on(entry: RouteEntry, columns: Seq<Seq<char>>) -> bool {
    &&& entry.iface@ == columns[0]
    &&& columns[1] == "00000000"@ ==> entry.destination@ == "default"@
    &&& columns[1] != "00000000"@ ==> entry.destination@ == (match net::ipv4_of_hex(columns[1]) {
        Some(address) => address,
        None => columns[1],
    })
    &&& columns[2] == "00000000"@ ==> entry.gateway@ == "0.0.0.0"@
    &&& columns[2] != "00000000"@ ==> entry.gateway@ == (match net::ipv4_of_hex(columns[2]) {
        Some(address) => address,
        None => columns[2],
    })
    &&& entry.flags@ == columns[3]
    &&& match number::parse_uint(columns[6], 10, u32::MAX as int) {
        Some(metric) => entry.metric == Some(metric as u32),
        None => entry.metric is None,
    }
}

/// Every line of the routing table but its heading is a route, with its interface,
/// destination, gateway and metric, and no route comes from elsewhere.
pub proof fn lemma_routes_are_read(entries: Seq<RouteEntry>, content: Seq<char>, k: int, i: int)
    requires
        net::are_routes(entries, net::rows_of(Some(content), 8)),
        1 <= k < text::lines(content).len(),
        text::words(text::lines(content)[k]).len() >= 8,
        0 <= i < entries.len(),
    ensures
        exists|e: int|
            0 <= e < entries.len() && route_on(
                #[trigger] entries[e],
                text::words(text::lines(content)[k]),
            ),
        exists|j: int|
            1 <= j < text::lines(content).len() && route_on(
                entries[i],
                text::words(#[trigger] text::lines(content)[j]),
            ),
{
    let lines = text::lines(content);
    let n = lines.len() as int;
    let rows = net::rows_of(Some(content), 8);
    let at = lemma_row_is_kept(lines, 8, n, k);
    assert(net::is_route(entries[at], rows[at]));
    assert(route_on(entries[at], text::words(lines[k])));
    let j = lemma_row_has_line(lines, 8, n, i);
    assert(net::is_route(entries[i], rows[i]));
    assert(route_on(entries[i], text::words(lines[j])));
}

/// The number of neighbors and routes is that of the lines that have enough columns.
pub proof fn lemma_rows_grow(lines: Seq<Seq<char>>, line: Seq<char>, min: int)
    requires
        lines.len() > 0,
    ensures
        net::table_rows(lines.push(line), min, (lines.len() + 1) as int) == if text::words(line).len()
            >= min {
            net::table_rows(lines, min, lines.len() as int).push(text::words(line))
        } else {
            net::table_rows(lines, min, lines.len() as int)
        },
        net::table_rows(lines, min, 1).len() == 0,
{
    lemma_rows_prefix(lines, line, min, lines.len() as int);
}

proof fn lemma_rows_prefix(lines: Seq<Seq<char>>, line: Seq<char>, min: int, n: int)
    requires
        n <= lines.len(),
    ensures
        net::table_rows(lines.push(line), min, n) == net::table_rows(lines, min, n),
    decreases n,
{
    if n > 1 {
        lemma_rows_prefix(lines, line, min, n - 1);
        assert(lines.push(line)[n - 1] == lines[n - 1]);
    }
}

/// The default route leads through the interface of the first route whose destination is the
/// default.
pub proof fn lemma_default_route(routes: Seq<RouteEntry>, k: int)
    requires
        0 <= k <= routes.len(),
        k < routes.len() ==> routes[k].destination@ == "default"@,
        forall|j: int| 0 <= j < k ==> (#[trigger] routes[j]).destination@ != "default"@,
    ensures
        net::default_of(routes) == if k < routes.len() {
            Some(routes[k].iface@)
        } else {
            None::<Seq<char>>
        },
    decreases k,
{
    if k > 0 {
        assert(routes[0].destination@ != "default"@);
        let more = routes.skip(1);
        assert forall|j: int| 0 <= j < k - 1 implies (#[trigger] more[j]).destination@
            != "default"@ by {
            assert(more[j] == routes[j + 1]);
        }
        lemma_default_route(more, k - 1);
    }
}

// ---------------------------------------------------------------------------
// The resolver
// ---------------------------------------------------------------------------

/// The first word behind each `nameserver` is a server; the words behind each `search` and
/// each `options` are all kept. Each list has the order of the lines.
pub proof fn lemma_resolver_lines(lines: Seq<Seq<char>>, line: Seq<char>, key: Seq<char>, args: Seq<
    Seq<char>,
>)
    requires
        text::words(line) == seq![key] + args,
    ensures
        net::all_arguments(lines.push(line), key, (lines.len() + 1) as int) == net::all_arguments(
            lines,
            key,
            lines.len() as int,
        ) + args,
        net::first_arguments(lines.push(line), key, (lines.len() + 1) as int) == if args.len() > 0 {
            net::first_arguments(lines, key, lines.len() as int).push(args[0])
        } else {
            net::first_arguments(lines, key, lines.len() as int)
        },
{
    lemma_resolver_prefix(lines, line, key, lines.len() as int);
    let fields = text::words(line);
    assert(fields[0] == key);
    assert(fields.skip(1) =~= args);
}

/// A line with another word at its start, or with none, says nothing about the key.
pub proof fn lemma_resolver_other_lines(lines: Seq<Seq<char>>, line: Seq<char>, key: Seq<char>)
    requires
        text::words(line).len() == 0 || text::words(line)[0] != key,
    ensures
        net::all_arguments(lines.push(line), key, (lines.len() + 1) as int) == net::all_arguments(
            lines,
            key,
            lines.len() as int,
        ),
        net::first_arguments(lines.push(line), key, (lines.len() + 1) as int) == net::first_arguments(
            lines,
            key,
            lines.len() as int,
        ),
        net::all_arguments(Seq::empty(), key, 0).len() == 0,
        net::first_arguments(Seq::empty(), key, 0).len() == 0,
{
    lemma_resolver_prefix(lines, line, key, lines.len() as int);
    let before = net::all_arguments(lines, key, lines.len() as int);
    assert(before + Seq::<Seq<char>>::empty() =~= before);
}

proof fn lemma_resolver_prefix(lines: Seq<Seq<char>>, line: Seq<char>, key: Seq<char>, n: int)
    requires
        0 <= n <= lines.len(),
    ensures
        net::all_arguments(lines.push(line), key, n) == net::all_arguments(lines, key, n),
        net::first_arguments(lines.push(line), key, n) == net::first_arguments(lines, key, n),
    decreases n,
{
    if n > 0 {
        lemma_resolver_prefix(lines, line, key, n - 1);
        assert(lines.push(line)[n - 1] == lines[n - 1]);
    }
}

/// The servers, the domains to search and the options come from the lines that start with
/// their own words.
pub proof fn lemma_resolver_is_read(config: ResolverConfig, content: Seq<char>)
    requires
        net::is_resolver(config, content),
    ensures
        ({
            let lines = text::lines(content);
            let n = lines.len() as int;
            &&& text::views(config.nameservers@) == net::first_arguments(lines, "nameserver"@, n)
            &&& text::views(config.search@) == net::all_arguments(lines, "search"@, n)
            &&& text::views(config.options@) == net::all_arguments(lines, "options"@, n)
        }),
{
}

/// A line that says nothing of a host, or nothing of being local, marks no address.
pub proof fn lemma_other_marks(line: Seq<char>)
    ensures
        !text::occurs(text::trim(line), "32 host"@) ==> !net::is_local_line(line),
        !text::occurs(text::trim(line), "LOCAL"@) ==> !net::is_local_line(line),
{
}

/// Four numbers with points between them are an address exactly where none is above 255, and
/// another number of parts is none.
pub proof fn lemma_addresses(a: int, b: int, c: int, d: int, s: Seq<char>)
    requires
        0 <= a,
        0 <= b,
        0 <= c,
        0 <= d,
    ensures
        net::is_ipv4(dotted(a, b, c, d)) == (a <= 255 && b <= 255 && c <= 255 && d <= 255),
        text::split(s, '.').len() != 4 ==> !net::is_ipv4(s),
{
    let w = number::decimal(a);
    let x = number::decimal(b);
    let y = number::decimal(c);
    let z = number::decimal(d);
    reveal_strlit(".");
    assert("."@ =~= seq!['.']);
    lemma_digits_without(a, '.');
    lemma_digits_without(b, '.');
    lemma_digits_without(c, '.');
    lemma_digits_without(d, '.');
    crate::laws::text::lemma_split_first(z, '.', Seq::empty());
    crate::laws::text::lemma_split_first(y, '.', z);
    crate::laws::text::lemma_split_first(x, '.', y.push('.') + z);
    crate::laws::text::lemma_split_first(w, '.', x.push('.') + (y.push('.') + z));
    assert(dotted(a, b, c, d) =~= w.push('.') + (x.push('.') + (y.push('.') + z)));
    let parts = text::split(dotted(a, b, c, d), '.');
    assert(parts =~= seq![w, x, y, z]);
    crate::laws::number::lemma_decimal_is_read(0, a, 255);
    crate::laws::number::lemma_decimal_is_read(0, b, 255);
    crate::laws::number::lemma_decimal_is_read(0, c, 255);
    crate::laws::number::lemma_decimal_is_read(0, d, 255);
    if a <= 255 && b <= 255 && c <= 255 && d <= 255 {
        lemma_dotted(a, b, c, d);
    } else if net::is_ipv4(dotted(a, b, c, d)) {
        assert(number::parse_uint(parts[0], 10, 255) is Some);
        assert(number::parse_uint(parts[1], 10, 255) is Some);
        assert(number::parse_uint(parts[2], 10, 255) is Some);
        assert(number::parse_uint(parts[3], 10, 255) is Some);
    }
}

/// Each part of the report comes from the file that is about it, and the default route from the
/// routes.
pub proof fn lemma_report_is_collected(report: NetReport, files: NetFiles)
    requires
        net::is_report(report, files),
    ensures
        net::are_sorted_interfaces(
            report.interfaces@,
            files.interfaces@,
            process::opt_view(files.fib_trie),
            process::opt_view(files.if_inet6),
        ),
        files.arp matches Some(content) ==> net::are_neighbors(
            report.arp_neighbors@,
            net::rows_of(Some(content@), 6),
        ),
        files.arp is None ==> report.arp_neighbors@.len() == 0,
        files.route matches Some(content) ==> net::are_routes(
            report.routes@,
            net::rows_of(Some(content@), 8),
        ),
        files.route is None ==> report.routes@.len() == 0 && report.default_route is None,
        match report.default_route {
            Some(iface) => net::default_of(report.routes@) == Some(iface@),
            None => net::default_of(report.routes@) is None,
        },
        files.resolv_conf matches Some(content) ==> (report.resolver matches Some(config)
            && net::is_resolver(config, content@)),
        files.resolv_conf is None ==> report.resolver is None,
{
}

/// Interfaces with different names are reported once each.
pub proof fn lemma_interfaces_are_reported_once(
    entries: Seq<InterfaceEntry>,
    files: Seq<InterfaceFiles>,
    fib_trie: Option<Seq<char>>,
    if_inet6: Option<Seq<char>>,
    i: int,
    j: int,
)
    requires
        net::are_sorted_interfaces(entries, files, fib_trie, if_inet6),
        forall|a: int, b: int|
            0 <= a < b < files.len() ==> bytes::lossy((#[trigger] files[a]).name@) != bytes::lossy(
                (#[trigger] files[b]).name@,
            ),
        0 <= i < j < entries.len(),
    ensures
        entries[i].name@ != entries[j].name@,
{
    let found = choose|found: Seq<InterfaceEntry>|
        #![trigger net::are_interfaces(found, files, fib_trie, if_inet6)]
        net::are_interfaces(found, files, fib_trie, if_inet6) && sort::is_sorted_by_name(
            entries,
            found,
        );
    if entries[i].name@ == entries[j].name@ {
        let keep = sort::named(entries[i].name@);
        assert forall|a: int, b: int| 0 <= a < b < found.len() implies !(keep(#[trigger] found[a])
            && keep(#[trigger] found[b])) by {
            assert(net::is_interface(found[a], files[a], fib_trie, if_inet6));
            assert(net::is_interface(found[b], files[b], fib_trie, if_inet6));
            assert(bytes::lossy(files[a].name@) != bytes::lossy(files[b].name@));
        }
        crate::laws::scan::lemma_filter_of_one(found, keep);
        crate::laws::scan::lemma_filter_of_two(entries, keep, i, j);
        assert(entries.filter(keep) == found.filter(keep));
    }
}

/// A file that is not read, or that holds something else than digits, has no number.
pub proof fn lemma_no_number(s: Seq<char>, max: int)
    ensures
        net::number_of(None, max) is None,
        net::flags_of(None) is None,
        net::number_of(Some(s), max) is Some ==> forall|i: int|
            0 < i < text::trim(s).len() ==> '0' <= #[trigger] text::trim(s)[i] <= '9',
        text::trim(s).len() == 0 ==> net::number_of(Some(s), max) is None && net::flags_of(
            Some(s),
        ) is None,
        !"0x"@.is_prefix_of(text::trim(s)) ==> net::flags_of(Some(s)) == net::number_of(
            Some(s),
            u32::MAX as int,
        ),
{
    reveal_strlit("0x");
    if net::number_of(Some(s), max) is Some {
        crate::laws::number::lemma_only_digits_are_read(text::trim(s), 10, max);
    }
}

/// Another number of digits than eight, or something else than digits, is no address of a
/// route.
pub proof fn lemma_no_route_address(s: Seq<char>)
    ensures
        s.len() != 8 ==> net::ipv4_of_hex(s) is None,
        number::parse_uint(s, 16, u32::MAX as int) is None ==> net::ipv4_of_hex(s) is None,
{
}

/// A line with fewer than six columns, or with an address that does not have 32 characters,
/// gives no address.
pub proof fn lemma_other_inet6_lines(line: Seq<char>, iface: Seq<char>)
    ensures
        text::words(line).len() < 6 ==> net::inet6_of_line(line, iface) is None,
        text::words(line).len() >= 6 && vstd::utf8::encode_utf8(text::words(line)[0]).len() != 32
            ==> net::inet6_of_line(line, iface) is None,
{
}

/// A line whose first word is no address is no branch with one.
pub proof fn lemma_other_branches(line: Seq<char>)
    requires
        line.len() > 0,
        line[0] != '|',
    ensures
        net::ip_of_line(line) matches Some(ip) ==> text::words(line).len() > 0 && ip
            == text::words(line)[0] && net::is_ipv4(ip),
{
    reveal_strlit("|--");
    reveal_strlit("|");
    lemma_no_prefix(line, "|--"@);
    lemma_no_prefix(line, "|"@);
    crate::laws::text::lemma_words_of_trimmed(line);
}

} // verus!
