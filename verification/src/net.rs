//! Network interfaces, addresses, statistics, routes and the resolver.

pub mod render;
pub mod sort;

use crate::bytes;
use crate::filepath::FilePath;
use crate::number;
use crate::number::{decimal_text, parse_u32, parse_u64, parse_uint_text};
use crate::process;
use crate::text;
use crate::text::{
    cat7, chars_of, contains_text, holds_text, no_texts, push_text, split_lines, split_on,
    split_words, strip_prefix_text, text_eq, trim_text,
};
use vstd::prelude::*;

verus! {

/// A network interface.
#[derive(Debug, Clone, PartialEq, Eq)]
pub struct InterfaceEntry {
    pub name: String,
    pub state: Option<String>,
    pub mtu: Option<u32>,
    pub mac: Option<String>,
    pub flags: Option<u32>,
    pub iftype: Option<u32>,
    pub ipv4: Vec<String>,
    pub ipv6: Vec<String>,
    pub rx_bytes: Option<u64>,
    pub tx_bytes: Option<u64>,
    pub rx_packets: Option<u64>,
    pub tx_packets: Option<u64>,
    pub rx_errors: Option<u64>,
    pub tx_errors: Option<u64>,
    pub rx_dropped: Option<u64>,
    pub tx_dropped: Option<u64>,
}

/// A neighbor on a link.
#[derive(Debug, Clone, PartialEq, Eq)]
pub struct ArpEntry {
    pub ip: String,
    pub hw_type: String,
    pub flags: String,
    pub mac: String,
    pub iface: String,
}

/// A route.
#[derive(Debug, Clone, PartialEq, Eq)]
pub struct RouteEntry {
    pub iface: String,
    pub destination: String,
    pub gateway: String,
    pub flags: String,
    pub metric: Option<u32>,
}

/// How names are resolved.
#[derive(Debug, Clone, PartialEq, Eq)]
pub struct ResolverConfig {
    pub nameservers: Vec<String>,
    pub search: Vec<String>,
    pub options: Vec<String>,
}

/// All that is reported on the network.
#[derive(Debug, Clone, PartialEq, Eq)]
pub struct NetReport {
    pub interfaces: Vec<InterfaceEntry>,
    pub arp_neighbors: Vec<ArpEntry>,
    pub routes: Vec<RouteEntry>,
    pub default_route: Option<String>,
    pub resolver: Option<ResolverConfig>,
}

// ---------------------------------------------------------------------------
// Single values
// ---------------------------------------------------------------------------

/// The text of a file of one line; an empty one says nothing.
pub open spec fn line_of(content: Option<Seq<char>>) -> Option<Seq<char>> {
    match content {
        Some(s) => if text::trim(s).len() > 0 {
            Some(text::trim(s))
        } else {
            None
        },
        None => None,
    }
}

/// The number in a file of one line.
pub open spec fn number_of(content: Option<Seq<char>>, max: int) -> Option<int> {
    match content {
        Some(s) => number::parse_uint(text::trim(s), 10, max),
        None => None,
    }
}

/// The number in a file of one line that the system writes in base 16, behind `0x`, or in
/// base 10.
pub open spec fn flags_of(content: Option<Seq<char>>) -> Option<int> {
    match content {
        Some(s) => match text::strip_prefix(text::trim(s), "0x"@) {
            Some(digits) => number::parse_uint(digits, 16, u32::MAX as int),
            None => number::parse_uint(text::trim(s), 10, u32::MAX as int),
        },
        None => None,
    }
}

/// The numbers are the same.
pub open spec fn same_u32(value: Option<u32>, number: Option<int>) -> bool {
    match value {
        Some(v) => number == Some(v as int),
        None => number is None,
    }
}

/// The numbers are the same.
pub open spec fn same_u64(value: Option<u64>, number: Option<int>) -> bool {
    match value {
        Some(v) => number == Some(v as int),
        None => number is None,
    }
}

/// The text of a file of one line.
pub fn read_sysfs_str(content: &Option<String>) -> (r: Option<String>)
    ensures
        process::opt_view(r) == line_of(process::opt_view(*content)),
{
    match content {
        Some(s) => {
            let trimmed = trim_text(s.as_str());
            if trimmed.as_str().is_empty() {
                None
            } else {
                Some(trimmed)
            }
        },
        None => None,
    }
}

/// The number in a file of one line.
pub fn read_sysfs_u32(content: &Option<String>) -> (r: Option<u32>)
    ensures
        same_u32(r, number_of(process::opt_view(*content), u32::MAX as int)),
{
    match content {
        Some(s) => {
            let trimmed = trim_text(s.as_str());
            parse_u32(trimmed.as_str(), 10)
        },
        None => None,
    }
}

/// The number in a file of one line, in base 16 behind `0x`, else in base 10.
pub fn read_sysfs_flags(content: &Option<String>) -> (r: Option<u32>)
    ensures
        same_u32(r, flags_of(process::opt_view(*content))),
{
    match content {
        Some(s) => {
            let trimmed = trim_text(s.as_str());
            match strip_prefix_text(trimmed.as_str(), "0x") {
                Some(digits) => parse_u32(digits.as_str(), 16),
                None => parse_u32(trimmed.as_str(), 10),
            }
        },
        None => None,
    }
}

/// The number in a file of one line.
pub fn read_sysfs_u64(content: &Option<String>) -> (r: Option<u64>)
    ensures
        same_u64(r, number_of(process::opt_view(*content), u64::MAX as int)),
{
    match content {
        Some(s) => {
            let trimmed = trim_text(s.as_str());
            parse_u64(trimmed.as_str())
        },
        None => None,
    }
}

// ---------------------------------------------------------------------------
// IPv6 addresses
// ---------------------------------------------------------------------------

/// The characters in groups of four with colons between them.
pub open spec fn grouped(s: Seq<char>) -> Seq<char>
    decreases s.len(),
{
    if s.len() == 0 {
        Seq::empty()
    } else {
        let before = grouped(s.drop_last());
        let i = s.len() - 1;
        if i > 0 && i % 4 == 0 {
            before.push(':').push(s.last())
        } else {
            before.push(s.last())
        }
    }
}

/// The address that a line of `/proc/net/if_inet6` gives for an interface.
pub open spec fn inet6_of_line(line: Seq<char>, iface: Seq<char>) -> Option<Seq<char>> {
    let fields = text::words(line);
    if fields.len() >= 6 && fields[5] == iface && vstd::utf8::encode_utf8(fields[0]).len() == 32 {
        Some(grouped(fields[0]))
    } else {
        None
    }
}

/// The addresses that the first `n` lines of `/proc/net/if_inet6` give for an interface.
pub open spec fn inet6_of_lines(lines: Seq<Seq<char>>, iface: Seq<char>, n: int) -> Seq<Seq<char>>
    decreases n,
{
    if n <= 0 {
        Seq::empty()
    } else {
        let before = inet6_of_lines(lines, iface, n - 1);
        match inet6_of_line(lines[n - 1], iface) {
            Some(address) => before.push(address),
            None => before,
        }
    }
}

/// The IPv6 addresses of an interface.
pub open spec fn ipv6_of(content: Option<Seq<char>>, iface: Seq<char>) -> Seq<Seq<char>> {
    match content {
        Some(s) => inet6_of_lines(text::lines(s), iface, text::lines(s).len() as int),
        None => Seq::empty(),
    }
}

fn group_text(s: &str) -> (r: String)
    ensures
        r@ == grouped(s@),
{
    let cs = chars_of(s);
    let mut r = String::new();
    let mut i: usize = 0;
    assert(r@ =~= grouped(s@.take(0)));
    while i < cs.len()
        invariant
            i <= cs@.len(),
            cs@ == s@,
            r@ == grouped(s@.take(i as int)),
        decreases cs@.len() - i,
    {
        proof {
            assert(s@.take(i + 1).drop_last() =~= s@.take(i as int));
            assert(s@.take(i + 1).last() == s@[i as int]);
        }
        if i > 0 && i % 4 == 0 {
            r.push(':');
        }
        r.push(cs[i]);
        i += 1;
    }
    assert(s@.take(i as int) =~= s@);
    r
}

fn read_inet6_line(line: &str, iface: &str) -> (r: Option<String>)
    ensures
        process::opt_view(r) == inet6_of_line(line@, iface@),
{
    let fields = split_words(line);
    assert(text::views(fields@).len() == fields@.len());
    if fields.len() < 6 {
        return None;
    }
    proof {
        assert(text::views(fields@)[0] == fields@[0]@);
        assert(text::views(fields@)[5] == fields@[5]@);
    }
    if !text_eq(fields[5].as_str(), iface) || fields[0].as_str().as_bytes().len() != 32 {
        return None;
    }
    Some(group_text(fields[0].as_str()))
}

/// The IPv6 addresses of an interface, from the text of `/proc/net/if_inet6`.
pub fn read_ipv6_addresses(content: &Option<String>, iface_name: &str) -> (r: Vec<String>)
    ensures
        text::views(r@) == ipv6_of(process::opt_view(*content), iface_name@),
{
    let mut addrs = no_texts();
    let content = match content {
        Some(content) => content,
        None => return addrs,
    };
    let lines = split_lines(content.as_str());
    let ghost all = text::lines(content@);
    let mut i: usize = 0;
    assert(text::views(addrs@) =~= inet6_of_lines(all, iface_name@, 0));
    while i < lines.len()
        invariant
            i <= lines@.len(),
            all == text::views(lines@),
            text::views(addrs@) == inet6_of_lines(all, iface_name@, i as int),
        decreases lines@.len() - i,
    {
        assert(all[i as int] == lines@[i as int]@);
        if let Some(address) = read_inet6_line(lines[i].as_str(), iface_name) {
            push_text(&mut addrs, address);
        }
        i += 1;
    }
    assert(all.len() == lines@.len());
    addrs
}

// ---------------------------------------------------------------------------
// IPv4 addresses
// ---------------------------------------------------------------------------

/// The text without repetitions of `prefix` at its start.
pub open spec fn without_prefixes(s: Seq<char>, prefix: Seq<char>) -> Seq<char>
    decreases s.len(),
{
    if prefix.len() > 0 && prefix.is_prefix_of(s) {
        without_prefixes(s.skip(prefix.len() as int), prefix)
    } else {
        s
    }
}

/// The text is an IPv4 address: four numbers below 256 with full stops between them.
pub open spec fn is_ipv4(token: Seq<char>) -> bool {
    let parts = text::split(token, '.');
    &&& parts.len() == 4
    &&& forall|i: int| 0 <= i < 4 ==> number::parse_uint(#[trigger] parts[i], 10, 255) is Some
}

/// The IPv4 address that a line of `/proc/net/fib_trie` starts with, behind the branches of
/// the tree.
pub open spec fn ip_of_line(line: Seq<char>) -> Option<Seq<char>> {
    let tokens = text::words(
        text::trim(without_prefixes(without_prefixes(line, "|--"@), "|"@)),
    );
    if tokens.len() > 0 && is_ipv4(tokens[0]) {
        Some(tokens[0])
    } else {
        None
    }
}

/// The line says that the address before it is one of this host.
pub open spec fn is_local_line(line: Seq<char>) -> bool {
    text::occurs(text::trim(line), "32 host"@) && text::occurs(text::trim(line), "LOCAL"@)
}

/// The address that the lines `n - 1` and `n` give for this host.
pub open spec fn local_ip(lines: Seq<Seq<char>>, n: int) -> Option<Seq<char>> {
    if is_local_line(lines[n]) {
        match ip_of_line(text::trim(lines[n - 1])) {
            Some(ip) => if ip == "127.0.0.1"@ || ip == "0.0.0.0"@ {
                None
            } else {
                Some(ip)
            },
            None => None,
        }
    } else {
        None
    }
}

/// The addresses of this host on the first `n` lines, each once.
pub open spec fn local_ips(lines: Seq<Seq<char>>, n: int) -> Seq<Seq<char>>
    decreases n,
{
    if n <= 1 {
        Seq::empty()
    } else {
        let before = local_ips(lines, n - 1);
        match local_ip(lines, n - 1) {
            Some(ip) => if before.contains(ip) {
                before
            } else {
                before.push(ip)
            },
            None => before,
        }
    }
}

/// The IPv4 addresses of this host.
pub open spec fn ipv4_of(content: Option<Seq<char>>) -> Seq<Seq<char>> {
    match content {
        Some(s) => local_ips(text::lines(s), text::lines(s).len() as int),
        None => Seq::empty(),
    }
}

/// Each address of this host is listed once, and is neither the loopback address nor the
/// unspecified one.
pub proof fn lemma_local_ips_once(lines: Seq<Seq<char>>, n: int)
    ensures
        forall|i: int, j: int|
            0 <= i < j < local_ips(lines, n).len() ==> #[trigger] local_ips(lines, n)[i]
                != #[trigger] local_ips(lines, n)[j],
        forall|i: int|
            0 <= i < local_ips(lines, n).len() ==> is_ipv4(#[trigger] local_ips(lines, n)[i])
                && local_ips(lines, n)[i] != "127.0.0.1"@ && local_ips(lines, n)[i] != "0.0.0.0"@,
    decreases n,
{
    if n > 1 {
        lemma_local_ips_once(lines, n - 1);
        let before = local_ips(lines, n - 1);
        if let Some(ip) = local_ip(lines, n - 1) {
            if !before.contains(ip) {
                assert forall|i: int| 0 <= i < before.len() implies before[i] != ip by {
                    assert(before.contains(before[i]));
                }
            }
        }
    }
}

fn strip_prefixes(s: &str, prefix: &str) -> (r: String)
    requires
        prefix@.len() > 0,
    ensures
        r@ == without_prefixes(s@, prefix@),
{
    let mut rest = s.to_owned();
    loop
        invariant
            prefix@.len() > 0,
            without_prefixes(rest@, prefix@) == without_prefixes(s@, prefix@),
        decreases rest@.len(),
    {
        match strip_prefix_text(rest.as_str(), prefix) {
            Some(shorter) => {
                rest = shorter;
            },
            None => return rest,
        }
    }
}

fn is_ipv4_text(token: &str) -> (r: bool)
    ensures
        r == is_ipv4(token@),
{
    let parts = split_on(token, '.');
    let ghost all = text::split(token@, '.');
    assert(all.len() == parts@.len());
    if parts.len() != 4 {
        return false;
    }
    let mut i: usize = 0;
    while i < 4
        invariant
            i <= 4,
            parts@.len() == 4,
            all == text::views(parts@),
            all == text::split(token@, '.'),
            forall|k: int| 0 <= k < i ==> number::parse_uint(#[trigger] all[k], 10, 255) is Some,
        decreases 4 - i,
    {
        assert(all[i as int] == parts@[i as int]@);
        if parse_uint_text(parts[i].as_str(), 10, 255).is_none() {
            return false;
        }
        i += 1;
    }
    true
}

/// The IPv4 address that a line of `/proc/net/fib_trie` starts with.
pub fn extract_ip_from_fib_line(line: &str) -> (r: Option<String>)
    ensures
        process::opt_view(r) == ip_of_line(line@),
{
    proof {
        reveal_strlit("|--");
        reveal_strlit("|");
    }
    let branch = strip_prefixes(line, "|--");
    let bare = strip_prefixes(branch.as_str(), "|");
    let trimmed = trim_text(bare.as_str());
    let mut tokens = split_words(trimmed.as_str());
    assert(text::views(tokens@).len() == tokens@.len());
    if tokens.len() == 0 {
        return None;
    }
    assert(text::views(tokens@)[0] == tokens@[0]@);
    if is_ipv4_text(tokens[0].as_str()) {
        Some(tokens.remove(0))
    } else {
        None
    }
}

fn is_local_text(line: &str) -> (r: bool)
    ensures
        r == is_local_line(line@),
{
    let trimmed = trim_text(line);
    contains_text(trimmed.as_str(), "32 host") && contains_text(trimmed.as_str(), "LOCAL")
}

/// The IPv4 addresses of this host, from the text of `/proc/net/fib_trie`: those on a line
/// directly before a line that marks a local address.
pub fn read_ipv4_addresses(content: &Option<String>) -> (r: Vec<String>)
    ensures
        text::views(r@) == ipv4_of(process::opt_view(*content)),
{
    let mut addrs = no_texts();
    let content = match content {
        Some(content) => content,
        None => return addrs,
    };
    let lines = split_lines(content.as_str());
    let ghost all = text::lines(content@);
    assert(all.len() == lines@.len());
    assert(text::views(addrs@) =~= local_ips(all, 1));
    if lines.len() == 0 {
        return addrs;
    }
    let mut i: usize = 1;
    while i < lines.len()
        invariant
            1 <= i <= lines@.len(),
            all == text::views(lines@),
            text::views(addrs@) == local_ips(all, i as int),
        decreases lines@.len() - i,
    {
        proof {
            assert(all[i as int] == lines@[i as int]@);
            assert(all[i - 1] == lines@[i - 1]@);
        }
        if is_local_text(lines[i].as_str()) {
            let candidate = trim_text(lines[i - 1].as_str());
            if let Some(ip) = extract_ip_from_fib_line(candidate.as_str()) {
                if !holds_text(&addrs, ip.as_str()) && !text_eq(ip.as_str(), "127.0.0.1")
                    && !text_eq(ip.as_str(), "0.0.0.0") {
                    push_text(&mut addrs, ip);
                }
            }
        }
        i += 1;
    }
    addrs
}

// ---------------------------------------------------------------------------
// Neighbors and routes
// ---------------------------------------------------------------------------

/// The fields of a table below its heading, without the rows that have fewer than `min`.
pub open spec fn table_rows(lines: Seq<Seq<char>>, min: int, n: int) -> Seq<Seq<Seq<char>>>
    decreases n,
{
    if n <= 1 {
        Seq::empty()
    } else {
        let before = table_rows(lines, min, n - 1);
        let fields = text::words(lines[n - 1]);
        if fields.len() >= min {
            before.push(fields)
        } else {
            before
        }
    }
}

/// The rows of a table.
pub open spec fn rows_of(content: Option<Seq<char>>, min: int) -> Seq<Seq<Seq<char>>> {
    match content {
        Some(s) => table_rows(text::lines(s), min, text::lines(s).len() as int),
        None => Seq::empty(),
    }
}

/// The rows as lists of strings.
pub open spec fn row_views(rows: Seq<Vec<String>>) -> Seq<Seq<Seq<char>>> {
    rows.map_values(|row: Vec<String>| text::views(row@))
}

/// The rows of a table below its heading.
fn read_rows(content: &Option<String>, min: usize) -> (r: Vec<Vec<String>>)
    ensures
        row_views(r@) == rows_of(process::opt_view(*content), min as int),
        forall|i: int| 0 <= i < r@.len() ==> (#[trigger] r@[i])@.len() >= min,
{
    let mut rows: Vec<Vec<String>> = Vec::new();
    let content = match content {
        Some(content) => content,
        None => {
            assert(row_views(rows@) =~= Seq::empty());
            return rows;
        },
    };
    let lines = split_lines(content.as_str());
    let ghost all = text::lines(content@);
    assert(all.len() == lines@.len());
    assert(row_views(rows@) =~= table_rows(all, min as int, 1));
    if lines.len() == 0 {
        return rows;
    }
    let mut i: usize = 1;
    while i < lines.len()
        invariant
            1 <= i <= lines@.len(),
            all == text::views(lines@),
            row_views(rows@) == table_rows(all, min as int, i as int),
            forall|k: int| 0 <= k < rows@.len() ==> (#[trigger] rows@[k])@.len() >= min,
        decreases lines@.len() - i,
    {
        assert(all[i as int] == lines@[i as int]@);
        let fields = split_words(lines[i].as_str());
        assert(text::views(fields@).len() == fields@.len());
        if fields.len() >= min {
            let ghost before = rows@;
            let ghost views = text::views(fields@);
            rows.push(fields);
            assert(row_views(rows@) =~= row_views(before).push(views));
        }
        i += 1;
    }
    rows
}

/// The neighbor is what a row says.
pub open spec fn is_neighbor(entry: ArpEntry, row: Seq<Seq<char>>) -> bool {
    &&& entry.ip@ == row[0]
    &&& entry.hw_type@ == row[1]
    &&& entry.flags@ == row[2]
    &&& entry.mac@ == row[3]
    &&& entry.iface@ == row[5]
}

/// The neighbors are what the rows say.
pub open spec fn are_neighbors(entries: Seq<ArpEntry>, rows: Seq<Seq<Seq<char>>>) -> bool {
    &&& entries.len() == rows.len()
    &&& forall|i: int| 0 <= i < entries.len() ==> is_neighbor(#[trigger] entries[i], rows[i])
}

/// The neighbors, from the text of `/proc/net/arp`.
pub fn read_arp(content: &Option<String>) -> (r: Vec<ArpEntry>)
    ensures
        are_neighbors(r@, rows_of(process::opt_view(*content), 6)),
{
    let rows = read_rows(content, 6);
    let ghost all = row_views(rows@);
    let mut entries: Vec<ArpEntry> = Vec::new();
    let mut i: usize = 0;
    while i < rows.len()
        invariant
            i <= rows@.len(),
            all == row_views(rows@),
            forall|k: int| 0 <= k < rows@.len() ==> (#[trigger] rows@[k])@.len() >= 6,
            entries@.len() == i,
            forall|k: int| 0 <= k < i ==> is_neighbor(#[trigger] entries@[k], all[k]),
        decreases rows@.len() - i,
    {
        let row = &rows[i];
        assert(rows@[i as int]@.len() >= 6);
        assert(all[i as int] == text::views(row@));
        entries.push(
            ArpEntry {
                ip: row[0].clone(),
                hw_type: row[1].clone(),
                flags: row[2].clone(),
                mac: row[3].clone(),
                iface: row[5].clone(),
            },
        );
        i += 1;
    }
    assert(all.len() == rows@.len());
    entries
}

/// The address that eight hexadecimal digits give, the lowest byte first.
pub open spec fn ipv4_of_hex(hex: Seq<char>) -> Option<Seq<char>> {
    if hex.len() == 8 {
        match number::parse_uint(hex, 16, u32::MAX as int) {
            Some(n) => Some(
                number::decimal(n % 256) + "."@ + number::decimal(n / 256 % 256) + "."@
                    + number::decimal(n / 65536 % 256) + "."@ + number::decimal(n / 16777216),
            ),
            None => None,
        }
    } else {
        None
    }
}

/// The address that eight hexadecimal digits give, the lowest byte first.
pub fn hex_to_ipv4(hex: &str) -> (r: Option<String>)
    ensures
        process::opt_view(r) == ipv4_of_hex(hex@),
{
    if hex.unicode_len() != 8 {
        return None;
    }
    let n: u32 = match parse_u32(hex, 16) {
        Some(n) => n,
        None => return None,
    };
    assert(n & 0xff == n % 256) by (bit_vector);
    assert((n >> 8) & 0xff == n / 256 % 256) by (bit_vector);
    assert((n >> 16) & 0xff == n / 65536 % 256) by (bit_vector);
    assert((n >> 24) & 0xff == n / 16777216) by (bit_vector);
    let a = decimal_text((n & 0xff) as u64);
    let b = decimal_text(((n >> 8) & 0xff) as u64);
    let c = decimal_text(((n >> 16) & 0xff) as u64);
    let d = decimal_text(((n >> 24) & 0xff) as u64);
    Some(cat7(a.as_str(), ".", b.as_str(), ".", c.as_str(), ".", d.as_str()))
}

/// An address as shown: what is not an address is shown as it is.
pub open spec fn shown_address(hex: Seq<char>, zero: Seq<char>) -> Seq<char> {
    if hex == "00000000"@ {
        zero
    } else {
        match ipv4_of_hex(hex) {
            Some(address) => address,
            None => hex,
        }
    }
}

fn show_address(hex: &str, zero: &str) -> (r: String)
    ensures
        r@ == shown_address(hex@, zero@),
{
    if text_eq(hex, "00000000") {
        return zero.to_owned();
    }
    match hex_to_ipv4(hex) {
        Some(address) => address,
        None => hex.to_owned(),
    }
}

/// The route is what a row says.
pub open spec fn is_route(entry: RouteEntry, row: Seq<Seq<char>>) -> bool {
    &&& entry.iface@ == row[0]
    &&& entry.destination@ == shown_address(row[1], "default"@)
    &&& entry.gateway@ == shown_address(row[2], "0.0.0.0"@)
    &&& entry.flags@ == row[3]
    &&& same_u32(entry.metric, number::parse_uint(row[6], 10, u32::MAX as int))
}

/// The routes are what the rows say.
pub open spec fn are_routes(entries: Seq<RouteEntry>, rows: Seq<Seq<Seq<char>>>) -> bool {
    &&& entries.len() == rows.len()
    &&& forall|i: int| 0 <= i < entries.len() ==> is_route(#[trigger] entries[i], rows[i])
}

/// The routes, from the text of `/proc/net/route`.
pub fn read_routes(content: &Option<String>) -> (r: Vec<RouteEntry>)
    ensures
        are_routes(r@, rows_of(process::opt_view(*content), 8)),
{
    let rows = read_rows(content, 8);
    let ghost all = row_views(rows@);
    let mut entries: Vec<RouteEntry> = Vec::new();
    let mut i: usize = 0;
    while i < rows.len()
        invariant
            i <= rows@.len(),
            all == row_views(rows@),
            forall|k: int| 0 <= k < rows@.len() ==> (#[trigger] rows@[k])@.len() >= 8,
            entries@.len() == i,
            forall|k: int| 0 <= k < i ==> is_route(#[trigger] entries@[k], all[k]),
        decreases rows@.len() - i,
    {
        let row = &rows[i];
        assert(rows@[i as int]@.len() >= 8);
        assert(all[i as int] == text::views(row@));
        entries.push(
            RouteEntry {
                iface: row[0].clone(),
                destination: show_address(row[1].as_str(), "default"),
                gateway: show_address(row[2].as_str(), "0.0.0.0"),
                flags: row[3].clone(),
                metric: parse_u32(row[6].as_str(), 10),
            },
        );
        i += 1;
    }
    assert(all.len() == rows@.len());
    entries
}

// ---------------------------------------------------------------------------
// The resolver
// ---------------------------------------------------------------------------

/// The arguments of a line that gives the directive `key`.
pub open spec fn arguments(line: Seq<char>, key: Seq<char>) -> Seq<Seq<char>> {
    let fields = text::words(line);
    if fields.len() > 0 && fields[0] == key {
        fields.skip(1)
    } else {
        Seq::empty()
    }
}

/// All the arguments of a directive on the first `n` lines.
pub open spec fn all_arguments(lines: Seq<Seq<char>>, key: Seq<char>, n: int) -> Seq<Seq<char>>
    decreases n,
{
    if n <= 0 {
        Seq::empty()
    } else {
        all_arguments(lines, key, n - 1) + arguments(lines[n - 1], key)
    }
}

/// The first argument of each directive on the first `n` lines.
pub open spec fn first_arguments(lines: Seq<Seq<char>>, key: Seq<char>, n: int) -> Seq<Seq<char>>
    decreases n,
{
    if n <= 0 {
        Seq::empty()
    } else {
        let before = first_arguments(lines, key, n - 1);
        let here = arguments(lines[n - 1], key);
        if here.len() > 0 {
            before.push(here[0])
        } else {
            before
        }
    }
}

/// The configuration is what the text says.
pub open spec fn is_resolver(config: ResolverConfig, content: Seq<char>) -> bool {
    let lines = text::lines(content);
    let n = lines.len() as int;
    &&& text::views(config.nameservers@) == first_arguments(lines, "nameserver"@, n)
    &&& text::views(config.search@) == all_arguments(lines, "search"@, n)
    &&& text::views(config.options@) == all_arguments(lines, "options"@, n)
}

fn read_arguments(line: &str, key: &str) -> (r: Vec<String>)
    ensures
        text::views(r@) == arguments(line@, key@),
{
    let mut fields = split_words(line);
    let ghost all = text::views(fields@);
    assert(all.len() == fields@.len());
    if fields.len() > 0 {
        assert(all[0] == fields@[0]@);
        if text_eq(fields[0].as_str(), key) {
            let first = fields.remove(0);
            assert(text::views(fields@) =~= all.skip(1));
            return fields;
        }
    }
    no_texts()
}

fn append_texts(list: &mut Vec<String>, more: Vec<String>)
    ensures
        text::views(final(list)@) == text::views(old(list)@) + text::views(more@),
{
    let ghost first = text::views(list@);
    let ghost added = text::views(more@);
    let mut rest = more;
    list.append(&mut rest);
    assert(text::views(list@) =~= first + added);
}

/// How names are resolved, from the text of `/etc/resolv.conf`. Comments and lines with
/// other directives say nothing.
pub fn read_resolver_config(content: &Option<String>) -> (r: Option<ResolverConfig>)
    ensures
        match *content {
            Some(s) => r matches Some(config) && is_resolver(config, s@),
            None => r is None,
        },
{
    let content = match content {
        Some(content) => content,
        None => return None,
    };
    let lines = split_lines(content.as_str());
    let ghost all = text::lines(content@);
    assert(all.len() == lines@.len());
    let mut nameservers = no_texts();
    let mut search = no_texts();
    let mut options = no_texts();
    let mut i: usize = 0;
    while i < lines.len()
        invariant
            i <= lines@.len(),
            all == text::views(lines@),
            text::views(nameservers@) == first_arguments(all, "nameserver"@, i as int),
            text::views(search@) == all_arguments(all, "search"@, i as int),
            text::views(options@) == all_arguments(all, "options"@, i as int),
        decreases lines@.len() - i,
    {
        assert(all[i as int] == lines@[i as int]@);
        let line = lines[i].as_str();
        let mut servers = read_arguments(line, "nameserver");
        assert(text::views(servers@).len() == servers@.len());
        if servers.len() > 0 {
            assert(text::views(servers@)[0] == servers@[0]@);
            push_text(&mut nameservers, servers.remove(0));
        }
        append_texts(&mut search, read_arguments(line, "search"));
        append_texts(&mut options, read_arguments(line, "options"));
        i += 1;
    }
    Some(ResolverConfig { nameservers, search, options })
}

// ---------------------------------------------------------------------------
// Interfaces
// ---------------------------------------------------------------------------

/// The files that the system keeps on an interface, as far as they could be read.
#[derive(Debug)]
pub struct InterfaceFiles {
    pub name: FilePath,
    pub operstate: Option<String>,
    pub mtu: Option<String>,
    pub address: Option<String>,
    pub flags: Option<String>,
    pub iftype: Option<String>,
    pub rx_bytes: Option<String>,
    pub tx_bytes: Option<String>,
    pub rx_packets: Option<String>,
    pub tx_packets: Option<String>,
    pub rx_errors: Option<String>,
    pub tx_errors: Option<String>,
    pub rx_dropped: Option<String>,
    pub tx_dropped: Option<String>,
}

/// The value is the 32-bit number that a file holds.
pub open spec fn holds_u32(value: Option<u32>, file: Option<String>) -> bool {
    same_u32(value, number_of(process::opt_view(file), u32::MAX as int))
}

/// The value is the 64-bit number that a file holds.
pub open spec fn holds_u64(value: Option<u64>, file: Option<String>) -> bool {
    same_u64(value, number_of(process::opt_view(file), u64::MAX as int))
}

/// The interface is what its files, and the files on all the addresses, say.
pub open spec fn is_interface(
    entry: InterfaceEntry,
    files: InterfaceFiles,
    fib_trie: Option<Seq<char>>,
    if_inet6: Option<Seq<char>>,
) -> bool {
    &&& entry.name@ == bytes::lossy(files.name@)
    &&& process::opt_view(entry.state) == line_of(process::opt_view(files.operstate))
    &&& holds_u32(entry.mtu, files.mtu)
    &&& process::opt_view(entry.mac) == line_of(process::opt_view(files.address))
    &&& same_u32(entry.flags, flags_of(process::opt_view(files.flags)))
    &&& holds_u32(entry.iftype, files.iftype)
    &&& text::views(entry.ipv4@) == ipv4_of(fib_trie)
    &&& text::views(entry.ipv6@) == ipv6_of(if_inet6, entry.name@)
    &&& holds_u64(entry.rx_bytes, files.rx_bytes)
    &&& holds_u64(entry.tx_bytes, files.tx_bytes)
    &&& holds_u64(entry.rx_packets, files.rx_packets)
    &&& holds_u64(entry.tx_packets, files.tx_packets)
    &&& holds_u64(entry.rx_errors, files.rx_errors)
    &&& holds_u64(entry.tx_errors, files.tx_errors)
    &&& holds_u64(entry.rx_dropped, files.rx_dropped)
    &&& holds_u64(entry.tx_dropped, files.tx_dropped)
}

/// The interfaces are what their files say, in the same order.
pub open spec fn are_interfaces(
    entries: Seq<InterfaceEntry>,
    files: Seq<InterfaceFiles>,
    fib_trie: Option<Seq<char>>,
    if_inet6: Option<Seq<char>>,
) -> bool {
    &&& entries.len() == files.len()
    &&& forall|i: int|
        0 <= i < entries.len() ==> is_interface(
            #[trigger] entries[i],
            files[i],
            fib_trie,
            if_inet6,
        )
}

/// The interfaces are what their files say, in the order of their names.
pub open spec fn are_sorted_interfaces(
    entries: Seq<InterfaceEntry>,
    files: Seq<InterfaceFiles>,
    fib_trie: Option<Seq<char>>,
    if_inet6: Option<Seq<char>>,
) -> bool {
    exists|found: Seq<InterfaceEntry>|
        #![trigger are_interfaces(found, files, fib_trie, if_inet6)]
        are_interfaces(found, files, fib_trie, if_inet6) && sort::is_sorted_by_name(
            entries,
            found,
        )
}

fn read_interface(
    files: &InterfaceFiles,
    fib_trie: &Option<String>,
    if_inet6: &Option<String>,
) -> (r: InterfaceEntry)
    ensures
        is_interface(r, *files, process::opt_view(*fib_trie), process::opt_view(*if_inet6)),
{
    let name = files.name.display();
    let ipv6 = read_ipv6_addresses(if_inet6, name.as_str());
    InterfaceEntry {
        name,
        state: read_sysfs_str(&files.operstate),
        mtu: read_sysfs_u32(&files.mtu),
        mac: read_sysfs_str(&files.address),
        flags: read_sysfs_flags(&files.flags),
        iftype: read_sysfs_u32(&files.iftype),
        ipv4: read_ipv4_addresses(fib_trie),
        ipv6,
        rx_bytes: read_sysfs_u64(&files.rx_bytes),
        tx_bytes: read_sysfs_u64(&files.tx_bytes),
        rx_packets: read_sysfs_u64(&files.rx_packets),
        tx_packets: read_sysfs_u64(&files.tx_packets),
        rx_errors: read_sysfs_u64(&files.rx_errors),
        tx_errors: read_sysfs_u64(&files.tx_errors),
        rx_dropped: read_sysfs_u64(&files.rx_dropped),
        tx_dropped: read_sysfs_u64(&files.tx_dropped),
    }
}

/// The interfaces in the order of their names.
pub fn read_interfaces(
    files: &Vec<InterfaceFiles>,
    fib_trie: &Option<String>,
    if_inet6: &Option<String>,
) -> (r: Vec<InterfaceEntry>)
    ensures
        are_sorted_interfaces(
            r@,
            files@,
            process::opt_view(*fib_trie),
            process::opt_view(*if_inet6),
        ),
{
    let ghost fib = process::opt_view(*fib_trie);
    let ghost inet6 = process::opt_view(*if_inet6);
    let mut entries: Vec<InterfaceEntry> = Vec::new();
    let mut i: usize = 0;
    while i < files.len()
        invariant
            i <= files@.len(),
            fib == process::opt_view(*fib_trie),
            inet6 == process::opt_view(*if_inet6),
            entries@.len() == i,
            forall|k: int|
                0 <= k < i ==> is_interface(#[trigger] entries@[k], files@[k], fib, inet6),
        decreases files@.len() - i,
    {
        entries.push(read_interface(&files[i], fib_trie, if_inet6));
        i += 1;
    }
    assert(are_interfaces(entries@, files@, fib, inet6));
    sort::sort_interfaces(entries)
}

// ---------------------------------------------------------------------------
// The whole report
// ---------------------------------------------------------------------------

/// The files that the report is made from, as far as they could be read.
#[derive(Debug)]
pub struct NetFiles {
    pub interfaces: Vec<InterfaceFiles>,
    pub fib_trie: Option<String>,
    pub if_inet6: Option<String>,
    pub arp: Option<String>,
    pub route: Option<String>,
    pub resolv_conf: Option<String>,
}

/// The interface of the first default route.
pub open spec fn default_of(routes: Seq<RouteEntry>) -> Option<Seq<char>>
    decreases routes.len(),
{
    if routes.len() == 0 {
        None
    } else if routes[0].destination@ == "default"@ {
        Some(routes[0].iface@)
    } else {
        default_of(routes.skip(1))
    }
}

/// The report is what the files say.
pub open spec fn is_report(report: NetReport, files: NetFiles) -> bool {
    &&& are_sorted_interfaces(
        report.interfaces@,
        files.interfaces@,
        process::opt_view(files.fib_trie),
        process::opt_view(files.if_inet6),
    )
    &&& are_neighbors(report.arp_neighbors@, rows_of(process::opt_view(files.arp), 6))
    &&& are_routes(report.routes@, rows_of(process::opt_view(files.route), 8))
    &&& process::opt_view(report.default_route) == default_of(report.routes@)
    &&& match files.resolv_conf {
        Some(content) => report.resolver matches Some(config) && is_resolver(config, content@),
        None => report.resolver is None,
    }
}

/// The interface of the first default route.
pub fn find_default_route(routes: &Vec<RouteEntry>) -> (r: Option<String>)
    ensures
        process::opt_view(r) == default_of(routes@),
{
    let mut i: usize = 0;
    assert(routes@.skip(0) =~= routes@);
    while i < routes.len()
        invariant
            i <= routes@.len(),
            default_of(routes@.skip(i as int)) == default_of(routes@),
        decreases routes@.len() - i,
    {
        proof {
            assert(routes@.skip(i as int)[0] == routes@[i as int]);
            assert(routes@.skip(i as int).skip(1) =~= routes@.skip(i + 1));
        }
        if text_eq(routes[i].destination.as_str(), "default") {
            return Some(routes[i].iface.clone());
        }
        i += 1;
    }
    None
}

/// The report on the network, from the files of the system.
pub fn collect_report(files: &NetFiles) -> (r: NetReport)
    ensures
        is_report(r, *files),
{
    let interfaces = read_interfaces(&files.interfaces, &files.fib_trie, &files.if_inet6);
    let arp_neighbors = read_arp(&files.arp);
    let routes = read_routes(&files.route);
    let default_route = find_default_route(&routes);
    let resolver = read_resolver_config(&files.resolv_conf);
    NetReport { interfaces, arp_neighbors, routes, default_route, resolver }
}

} // verus!
