//! The report on the network as text.

use crate::net::{ArpEntry, InterfaceEntry, NetReport, ResolverConfig, RouteEntry};
use crate::number;
use crate::number::{decimal_text, human_bytes};
use crate::text;
use crate::text::{cat2, cat3, cat4, cat5, join_texts, no_texts, push_text, text_eq};
use vstd::prelude::*;

verus! {

// ---------------------------------------------------------------------------
// Trees
// ---------------------------------------------------------------------------

/// The corner of a branch.
pub open spec fn corner(last: bool) -> Seq<char> {
    if last {
        "└"@
    } else {
        "├"@
    }
}

/// The line that goes on below a branch.
pub open spec fn rail(last: bool) -> Seq<char> {
    if last {
        " "@
    } else {
        "│"@
    }
}

/// The rows below an entry, each on a branch behind `prefix`.
pub open spec fn branches(prefix: Seq<char>, rows: Seq<Seq<char>>) -> Seq<Seq<char>> {
    Seq::new(
        rows.len(),
        |i: int| prefix + corner(i + 1 == rows.len()) + "── "@ + rows[i],
    )
}

/// The heading of a section.
pub open spec fn section(has_more: bool, title: Seq<char>) -> Seq<char> {
    corner(!has_more) + "── "@ + title
}

/// The space before the rows of a section.
pub open spec fn margin(has_more: bool) -> Seq<char> {
    rail(!has_more) + "   "@
}

/// The row of a section with nothing in it.
pub open spec fn nothing_visible(has_more: bool) -> Seq<char> {
    rail(!has_more) + "   └── none visible"@
}

fn corner_text(last: bool) -> (r: &'static str)
    ensures
        r@ == corner(last),
{
    if last {
        "└"
    } else {
        "├"
    }
}

fn rail_text(last: bool) -> (r: &'static str)
    ensures
        r@ == rail(last),
{
    if last {
        " "
    } else {
        "│"
    }
}

fn append_branches(lines: &mut Vec<String>, prefix: &str, rows: &Vec<String>)
    ensures
        text::views(final(lines)@) == text::views(old(lines)@) + branches(
            prefix@,
            text::views(rows@),
        ),
{
    let ghost first = text::views(lines@);
    let ghost all = branches(prefix@, text::views(rows@));
    let mut i: usize = 0;
    assert(first + all.take(0) =~= first);
    while i < rows.len()
        invariant
            i <= rows@.len(),
            all == branches(prefix@, text::views(rows@)),
            text::views(lines@) == first + all.take(i as int),
        decreases rows@.len() - i,
    {
        let last: bool = i + 1 == rows.len();
        let line = cat4(prefix, corner_text(last), "── ", rows[i].as_str());
        proof {
            assert(text::views(rows@)[i as int] == rows@[i as int]@);
            assert(line@ == all[i as int]);
            assert((first + all.take(i as int)).push(all[i as int]) =~= first + all.take(i + 1));
        }
        push_text(lines, line);
        i += 1;
    }
    assert(all.take(i as int) =~= all);
}

// ---------------------------------------------------------------------------
// Interfaces
// ---------------------------------------------------------------------------

/// The bit with the value `value` is set.
pub open spec fn has_bit(flags: u32, value: u32) -> bool {
    flags / value % 2 == 1
}

/// The names of the flags of an interface.
pub open spec fn flag_names(flags: u32) -> Seq<Seq<char>> {
    let l0 = Seq::<Seq<char>>::empty();
    let l1 = if has_bit(flags, 0x1) {
        l0.push("UP"@)
    } else {
        l0
    };
    let l2 = if has_bit(flags, 0x2) {
        l1.push("BROADCAST"@)
    } else {
        l1
    };
    let l3 = if has_bit(flags, 0x8) {
        l2.push("LOOPBACK"@)
    } else {
        l2
    };
    let l4 = if has_bit(flags, 0x10) {
        l3.push("POINTOPOINT"@)
    } else {
        l3
    };
    let l5 = if has_bit(flags, 0x40) {
        l4.push("RUNNING"@)
    } else {
        l4
    };
    let l6 = if has_bit(flags, 0x100) {
        l5.push("PROMISC"@)
    } else {
        l5
    };
    if has_bit(flags, 0x1000) {
        l6.push("MULTICAST"@)
    } else {
        l6
    }
}

/// The flags of an interface in words.
pub open spec fn flag_text(flags: u32) -> Seq<char> {
    text::join(flag_names(flags), ","@)
}

/// The flags of an interface in words.
pub fn decode_flags(flags: u32) -> (r: String)
    ensures
        r@ == flag_text(flags),
{
    assert((flags & 0x1 != 0) == (flags / 0x1 % 2 == 1)) by (bit_vector);
    assert((flags & 0x2 != 0) == (flags / 0x2 % 2 == 1)) by (bit_vector);
    assert((flags & 0x8 != 0) == (flags / 0x8 % 2 == 1)) by (bit_vector);
    assert((flags & 0x10 != 0) == (flags / 0x10 % 2 == 1)) by (bit_vector);
    assert((flags & 0x40 != 0) == (flags / 0x40 % 2 == 1)) by (bit_vector);
    assert((flags & 0x100 != 0) == (flags / 0x100 % 2 == 1)) by (bit_vector);
    assert((flags & 0x1000 != 0) == (flags / 0x1000 % 2 == 1)) by (bit_vector);
    let mut parts = no_texts();
    if flags & 0x1 != 0 {
        push_text(&mut parts, "UP".to_owned());
    }
    if flags & 0x2 != 0 {
        push_text(&mut parts, "BROADCAST".to_owned());
    }
    if flags & 0x8 != 0 {
        push_text(&mut parts, "LOOPBACK".to_owned());
    }
    if flags & 0x10 != 0 {
        push_text(&mut parts, "POINTOPOINT".to_owned());
    }
    if flags & 0x40 != 0 {
        push_text(&mut parts, "RUNNING".to_owned());
    }
    if flags & 0x100 != 0 {
        push_text(&mut parts, "PROMISC".to_owned());
    }
    if flags & 0x1000 != 0 {
        push_text(&mut parts, "MULTICAST".to_owned());
    }
    assert(text::views(parts@) =~= flag_names(flags));
    join_texts(&parts, ",")
}

/// The line on an interface: its name, state, packet size and hardware address. The zero
/// address of the loopback interface is left out.
pub open spec fn summary_parts(iface: InterfaceEntry) -> Seq<Seq<char>> {
    let l0 = seq![iface.name@];
    let l1 = match iface.state {
        Some(state) => l0.push(state@),
        None => l0,
    };
    let l2 = match iface.mtu {
        Some(mtu) => l1.push("mtu="@ + number::decimal(mtu as int)),
        None => l1,
    };
    match iface.mac {
        Some(mac) => if mac@ == "00:00:00:00:00:00"@ {
            l2
        } else {
            l2.push("mac="@ + mac@)
        },
        None => l2,
    }
}

/// The line on an interface.
pub fn format_iface_summary(iface: &InterfaceEntry) -> (r: String)
    ensures
        r@ == text::join(summary_parts(*iface), " "@),
{
    let mut parts = no_texts();
    push_text(&mut parts, iface.name.clone());
    assert(text::views(parts@) =~= seq![iface.name@]);
    if let Some(state) = &iface.state {
        push_text(&mut parts, state.clone());
    }
    if let Some(mtu) = iface.mtu {
        let shown = decimal_text(mtu as u64);
        push_text(&mut parts, cat2("mtu=", shown.as_str()));
    }
    if let Some(mac) = &iface.mac {
        if !text_eq(mac.as_str(), "00:00:00:00:00:00") {
            push_text(&mut parts, cat2("mac=", mac.as_str()));
        }
    }
    join_texts(&parts, " ")
}

/// The number, or zero where there is none.
pub open spec fn or_zero(value: Option<u64>) -> int {
    match value {
        Some(v) => v as int,
        None => 0,
    }
}

/// The errors in both directions.
pub open spec fn total_errors(iface: InterfaceEntry) -> int {
    or_zero(iface.rx_errors) + or_zero(iface.tx_errors)
}

/// The dropped packets in both directions.
pub open spec fn total_drops(iface: InterfaceEntry) -> int {
    or_zero(iface.rx_dropped) + or_zero(iface.tx_dropped)
}

/// The sums of the counters of an interface fit in 64 bits.
pub open spec fn sums_fit(iface: InterfaceEntry) -> bool {
    total_errors(iface) <= u64::MAX && total_drops(iface) <= u64::MAX
}

/// The rows on the addresses of an interface.
pub open spec fn address_rows(iface: InterfaceEntry) -> Seq<Seq<char>> {
    text::views(iface.ipv4@).map_values(|ip: Seq<char>| "ipv4 "@ + ip) + text::views(
        iface.ipv6@,
    ).map_values(|ip: Seq<char>| "ipv6 "@ + ip)
}

/// The rows on the flags of an interface.
pub open spec fn flag_rows(iface: InterfaceEntry) -> Seq<Seq<char>> {
    match iface.flags {
        Some(flags) => {
            let named = if flag_text(flags).len() > 0 {
                seq!["flags "@ + flag_text(flags)]
            } else {
                Seq::empty()
            };
            if has_bit(flags, 0x100) {
                named.push("⚠ promiscuous-mode"@)
            } else {
                named
            }
        },
        None => Seq::empty(),
    }
}

/// The rows on the counters of an interface.
pub open spec fn counter_rows(iface: InterfaceEntry) -> Seq<Seq<char>> {
    let l0 = Seq::<Seq<char>>::empty();
    let l1 = if iface.rx_bytes is Some && iface.tx_bytes is Some {
        l0.push(
            "rx "@ + number::human_bytes_text(iface.rx_bytes->0 as int) + " tx "@
                + number::human_bytes_text(iface.tx_bytes->0 as int),
        )
    } else {
        l0
    };
    let l2 = if iface.rx_packets is Some && iface.tx_packets is Some {
        l1.push(
            "pkts rx="@ + number::decimal(iface.rx_packets->0 as int) + " tx="@ + number::decimal(
                iface.tx_packets->0 as int,
            ),
        )
    } else {
        l1
    };
    if total_errors(iface) > 0 || total_drops(iface) > 0 {
        l2.push(
            "errors="@ + number::decimal(total_errors(iface)) + " drops="@ + number::decimal(
                total_drops(iface),
            ),
        )
    } else {
        l2
    }
}

/// The rows below an interface.
pub open spec fn detail_rows(iface: InterfaceEntry) -> Seq<Seq<char>> {
    address_rows(iface) + flag_rows(iface) + counter_rows(iface)
}

fn append_prefixed(rows: &mut Vec<String>, prefix: &str, list: &Vec<String>)
    ensures
        text::views(final(rows)@) == text::views(old(rows)@) + text::views(list@).map_values(
            |item: Seq<char>| prefix@ + item,
        ),
{
    let ghost first = text::views(rows@);
    let ghost all = text::views(list@).map_values(|item: Seq<char>| prefix@ + item);
    let mut i: usize = 0;
    assert(first + all.take(0) =~= first);
    while i < list.len()
        invariant
            i <= list@.len(),
            all == text::views(list@).map_values(|item: Seq<char>| prefix@ + item),
            text::views(rows@) == first + all.take(i as int),
        decreases list@.len() - i,
    {
        push_text(rows, cat2(prefix, list[i].as_str()));
        proof {
            assert(text::views(list@)[i as int] == list@[i as int]@);
            assert((first + all.take(i as int)).push(all[i as int]) =~= first + all.take(i + 1));
        }
        i += 1;
    }
    assert(all.take(i as int) =~= all);
}

fn value_or_zero(value: Option<u64>) -> (r: u64)
    ensures
        r == or_zero(value),
{
    match value {
        Some(v) => v,
        None => 0,
    }
}

fn append_address_rows(rows: &mut Vec<String>, iface: &InterfaceEntry)
    ensures
        text::views(final(rows)@) == text::views(old(rows)@) + address_rows(*iface),
{
    let ghost first = text::views(rows@);
    append_prefixed(rows, "ipv4 ", &iface.ipv4);
    append_prefixed(rows, "ipv6 ", &iface.ipv6);
    let ghost four = text::views(iface.ipv4@).map_values(|ip: Seq<char>| "ipv4 "@ + ip);
    let ghost six = text::views(iface.ipv6@).map_values(|ip: Seq<char>| "ipv6 "@ + ip);
    assert(text::views(iface.ipv4@).map_values(|item: Seq<char>| "ipv4 "@ + item) =~= four);
    assert(text::views(iface.ipv6@).map_values(|item: Seq<char>| "ipv6 "@ + item) =~= six);
    assert(text::views(rows@) =~= first + (four + six));
}

fn append_flag_rows(rows: &mut Vec<String>, iface: &InterfaceEntry)
    ensures
        text::views(final(rows)@) == text::views(old(rows)@) + flag_rows(*iface),
{
    let ghost first = text::views(rows@);
    if let Some(flags) = iface.flags {
        let decoded = decode_flags(flags);
        if !decoded.as_str().is_empty() {
            push_text(rows, cat2("flags ", decoded.as_str()));
        }
        assert((flags & 0x100 != 0) == (flags / 0x100 % 2 == 1)) by (bit_vector);
        if flags & 0x100 != 0 {
            push_text(rows, "⚠ promiscuous-mode".to_owned());
        }
    }
    assert(text::views(rows@) =~= first + flag_rows(*iface));
}

fn append_counter_rows(rows: &mut Vec<String>, iface: &InterfaceEntry)
    requires
        sums_fit(*iface),
    ensures
        text::views(final(rows)@) == text::views(old(rows)@) + counter_rows(*iface),
{
    let ghost first = text::views(rows@);
    if let Some(rx) = iface.rx_bytes {
        if let Some(tx) = iface.tx_bytes {
            let received = human_bytes(rx);
            let sent = human_bytes(tx);
            push_text(rows, cat4("rx ", received.as_str(), " tx ", sent.as_str()));
        }
    }
    if let Some(rx) = iface.rx_packets {
        if let Some(tx) = iface.tx_packets {
            let received = decimal_text(rx);
            let sent = decimal_text(tx);
            push_text(rows, cat4("pkts rx=", received.as_str(), " tx=", sent.as_str()));
        }
    }
    let errors: u64 = value_or_zero(iface.rx_errors) + value_or_zero(iface.tx_errors);
    let drops: u64 = value_or_zero(iface.rx_dropped) + value_or_zero(iface.tx_dropped);
    if errors > 0 || drops > 0 {
        let failed = decimal_text(errors);
        let dropped = decimal_text(drops);
        push_text(rows, cat4("errors=", failed.as_str(), " drops=", dropped.as_str()));
    }
    assert(text::views(rows@) =~= first + counter_rows(*iface));
}

/// Appends the rows on an interface.
pub fn render_iface_details(lines: &mut Vec<String>, iface: &InterfaceEntry, prefix: &str)
    requires
        sums_fit(*iface),
    ensures
        text::views(final(lines)@) == text::views(old(lines)@) + branches(
            prefix@,
            detail_rows(*iface),
        ),
{
    let mut rows = no_texts();
    append_address_rows(&mut rows, iface);
    append_flag_rows(&mut rows, iface);
    append_counter_rows(&mut rows, iface);
    assert(text::views(rows@) =~= detail_rows(*iface));
    append_branches(lines, prefix, &rows);
}

/// The lines on the first `n` interfaces.
pub open spec fn interface_lines(
    interfaces: Seq<InterfaceEntry>,
    has_more: bool,
    n: int,
) -> Seq<Seq<char>>
    decreases n,
{
    if n <= 0 {
        Seq::empty()
    } else {
        let last = n == interfaces.len();
        let iface = interfaces[n - 1];
        interface_lines(interfaces, has_more, n - 1).push(
            margin(has_more) + corner(last) + "── "@ + text::join(summary_parts(iface), " "@),
        ) + branches(margin(has_more) + rail(last) + "   "@, detail_rows(iface))
    }
}

/// The section on the interfaces.
pub open spec fn interfaces_section(interfaces: Seq<InterfaceEntry>, has_more: bool) -> Seq<
    Seq<char>,
> {
    let head = seq![section(has_more, "interfaces"@)];
    if interfaces.len() == 0 {
        head.push(nothing_visible(has_more))
    } else {
        head + interface_lines(interfaces, has_more, interfaces.len() as int)
    }
}

/// The sums of the counters of all interfaces fit in 64 bits.
pub open spec fn all_sums_fit(interfaces: Seq<InterfaceEntry>) -> bool {
    forall|i: int| 0 <= i < interfaces.len() ==> sums_fit(#[trigger] interfaces[i])
}

fn section_text(has_more: bool, title: &str) -> (r: String)
    ensures
        r@ == section(has_more, title@),
{
    cat3(corner_text(!has_more), "── ", title)
}

fn nothing_text(has_more: bool) -> (r: String)
    ensures
        r@ == nothing_visible(has_more),
{
    cat2(rail_text(!has_more), "   └── none visible")
}

/// Appends the section on the interfaces.
pub fn render_interfaces_section(lines: &mut Vec<String>, report: &NetReport, has_more: bool)
    requires
        all_sums_fit(report.interfaces@),
    ensures
        text::views(final(lines)@) == text::views(old(lines)@) + interfaces_section(
            report.interfaces@,
            has_more,
        ),
{
    let ghost first = text::views(lines@);
    let interfaces = &report.interfaces;
    push_text(lines, section_text(has_more, "interfaces"));
    if interfaces.len() == 0 {
        push_text(lines, nothing_text(has_more));
        assert(text::views(lines@) =~= first + interfaces_section(interfaces@, has_more));
        return ;
    }
    let ghost head = text::views(lines@);
    let margin = cat2(rail_text(!has_more), "   ");
    let mut i: usize = 0;
    assert(head + interface_lines(interfaces@, has_more, 0) =~= head);
    while i < interfaces.len()
        invariant
            i <= interfaces@.len(),
            all_sums_fit(interfaces@),
            margin@ == self::margin(has_more),
            text::views(lines@) == head + interface_lines(interfaces@, has_more, i as int),
        decreases interfaces@.len() - i,
    {
        let iface = &interfaces[i];
        assert(sums_fit(interfaces@[i as int]));
        let last: bool = i + 1 == interfaces.len();
        let summary = format_iface_summary(iface);
        push_text(
            lines,
            cat4(margin.as_str(), corner_text(last), "── ", summary.as_str()),
        );
        let prefix = cat3(margin.as_str(), rail_text(last), "   ");
        render_iface_details(lines, iface, prefix.as_str());
        assert(text::views(lines@) =~= head + interface_lines(interfaces@, has_more, i + 1));
        i += 1;
    }
    assert(text::views(lines@) =~= first + interfaces_section(interfaces@, has_more));
}

// ---------------------------------------------------------------------------
// Neighbors, routes and the resolver
// ---------------------------------------------------------------------------

/// The row on a neighbor.
pub open spec fn neighbor_row(entry: ArpEntry) -> Seq<char> {
    entry.ip@ + " "@ + entry.mac@ + " "@ + entry.iface@
}

/// The row on a route.
pub open spec fn route_row(route: RouteEntry) -> Seq<char> {
    let row = route.destination@ + " via "@ + route.gateway@ + " "@ + route.iface@;
    match route.metric {
        Some(metric) => row + " metric="@ + number::decimal(metric as int),
        None => row,
    }
}

/// A section with a row for each entry.
pub open spec fn list_section(title: Seq<char>, rows: Seq<Seq<char>>, has_more: bool) -> Seq<
    Seq<char>,
> {
    let head = seq![section(has_more, title)];
    if rows.len() == 0 {
        head.push(nothing_visible(has_more))
    } else {
        head + branches(margin(has_more), rows)
    }
}

/// The rows on the neighbors.
pub open spec fn neighbor_rows(entries: Seq<ArpEntry>) -> Seq<Seq<char>> {
    entries.map_values(|entry: ArpEntry| neighbor_row(entry))
}

/// The rows on the routes.
pub open spec fn route_rows(routes: Seq<RouteEntry>) -> Seq<Seq<char>> {
    routes.map_values(|route: RouteEntry| route_row(route))
}

fn append_list(lines: &mut Vec<String>, title: &str, rows: &Vec<String>, has_more: bool)
    ensures
        text::views(final(lines)@) == text::views(old(lines)@) + list_section(
            title@,
            text::views(rows@),
            has_more,
        ),
{
    let ghost first = text::views(lines@);
    assert(text::views(rows@).len() == rows@.len());
    push_text(lines, section_text(has_more, title));
    if rows.len() == 0 {
        push_text(lines, nothing_text(has_more));
    } else {
        let margin = cat2(rail_text(!has_more), "   ");
        append_branches(lines, margin.as_str(), rows);
    }
    assert(text::views(lines@) =~= first + list_section(title@, text::views(rows@), has_more));
}

/// Appends the section on the neighbors.
pub fn render_arp_section(lines: &mut Vec<String>, report: &NetReport, has_more: bool)
    ensures
        text::views(final(lines)@) == text::views(old(lines)@) + list_section(
            "arp-neighbors"@,
            neighbor_rows(report.arp_neighbors@),
            has_more,
        ),
{
    let ghost all = neighbor_rows(report.arp_neighbors@);
    let mut rows = no_texts();
    let mut i: usize = 0;
    assert(text::views(rows@) =~= all.take(0));
    while i < report.arp_neighbors.len()
        invariant
            i <= report.arp_neighbors@.len(),
            all == neighbor_rows(report.arp_neighbors@),
            text::views(rows@) == all.take(i as int),
        decreases report.arp_neighbors@.len() - i,
    {
        let entry = &report.arp_neighbors[i];
        push_text(
            &mut rows,
            cat5(entry.ip.as_str(), " ", entry.mac.as_str(), " ", entry.iface.as_str()),
        );
        assert(all.take(i + 1) =~= all.take(i as int).push(all[i as int]));
        i += 1;
    }
    assert(all.take(i as int) =~= all);
    append_list(lines, "arp-neighbors", &rows, has_more);
}

fn route_text(route: &RouteEntry) -> (r: String)
    ensures
        r@ == route_row(*route),
{
    let row = cat5(
        route.destination.as_str(),
        " via ",
        route.gateway.as_str(),
        " ",
        route.iface.as_str(),
    );
    match route.metric {
        Some(metric) => {
            let shown = decimal_text(metric as u64);
            cat3(row.as_str(), " metric=", shown.as_str())
        },
        None => row,
    }
}

/// Appends the section on the routes.
pub fn render_routes_section(lines: &mut Vec<String>, report: &NetReport, has_more: bool)
    ensures
        text::views(final(lines)@) == text::views(old(lines)@) + list_section(
            "routes"@,
            route_rows(report.routes@),
            has_more,
        ),
{
    let ghost all = route_rows(report.routes@);
    let mut rows = no_texts();
    let mut i: usize = 0;
    assert(text::views(rows@) =~= all.take(0));
    while i < report.routes.len()
        invariant
            i <= report.routes@.len(),
            all == route_rows(report.routes@),
            text::views(rows@) == all.take(i as int),
        decreases report.routes@.len() - i,
    {
        push_text(&mut rows, route_text(&report.routes[i]));
        assert(all.take(i + 1) =~= all.take(i as int).push(all[i as int]));
        i += 1;
    }
    assert(all.take(i as int) =~= all);
    append_list(lines, "routes", &rows, has_more);
}

/// The rows on the resolver.
pub open spec fn resolver_rows(config: ResolverConfig) -> Seq<Seq<char>> {
    let l0 = text::views(config.nameservers@).map_values(|ns: Seq<char>| "nameserver "@ + ns);
    let l1 = if config.search@.len() > 0 {
        l0.push("search "@ + text::join(text::views(config.search@), " "@))
    } else {
        l0
    };
    if config.options@.len() > 0 {
        l1.push("options "@ + text::join(text::views(config.options@), " "@))
    } else {
        l1
    }
}

/// The section on the resolver.
pub open spec fn resolver_section(resolver: Option<ResolverConfig>) -> Seq<Seq<char>> {
    let head = seq!["└── resolver"@];
    match resolver {
        None => head.push("    └── /etc/resolv.conf missing"@),
        Some(config) => if resolver_rows(config).len() == 0 {
            head.push("    └── /etc/resolv.conf empty"@)
        } else {
            head + branches("    "@, resolver_rows(config))
        },
    }
}

/// Appends the section on the resolver.
pub fn render_resolver_section(lines: &mut Vec<String>, report: &NetReport)
    ensures
        text::views(final(lines)@) == text::views(old(lines)@) + resolver_section(
            report.resolver,
        ),
{
    let ghost first = text::views(lines@);
    push_text(lines, "└── resolver".to_owned());
    match &report.resolver {
        None => push_text(lines, "    └── /etc/resolv.conf missing".to_owned()),
        Some(config) => {
            let mut rows = no_texts();
            let ghost servers = text::views(config.nameservers@).map_values(
                |ns: Seq<char>| "nameserver "@ + ns,
            );
            append_prefixed(&mut rows, "nameserver ", &config.nameservers);
            assert(text::views(rows@) =~= servers);
            if config.search.len() > 0 {
                let list = join_texts(&config.search, " ");
                push_text(&mut rows, cat2("search ", list.as_str()));
            }
            if config.options.len() > 0 {
                let list = join_texts(&config.options, " ");
                push_text(&mut rows, cat2("options ", list.as_str()));
            }
            assert(text::views(rows@) =~= resolver_rows(*config));
            assert(text::views(rows@).len() == rows@.len());
            if rows.len() == 0 {
                push_text(lines, "    └── /etc/resolv.conf empty".to_owned());
            } else {
                append_branches(lines, "    ", &rows);
            }
        },
    }
    assert(text::views(lines@) =~= first + resolver_section(report.resolver));
}

// ---------------------------------------------------------------------------
// The whole report
// ---------------------------------------------------------------------------

/// The lines of the report on the network.
pub open spec fn report_lines(report: NetReport) -> Seq<Seq<char>> {
    let has_arp = report.arp_neighbors@.len() > 0;
    let has_routes = report.routes@.len() > 0;
    let has_resolver = report.resolver is Some;
    seq!["net"@] + interfaces_section(
        report.interfaces@,
        has_arp || has_routes || has_resolver,
    ) + list_section(
        "arp-neighbors"@,
        neighbor_rows(report.arp_neighbors@),
        has_routes || has_resolver,
    ) + list_section("routes"@, route_rows(report.routes@), has_resolver) + resolver_section(
        report.resolver,
    )
}

/// The report on the network as text.
pub fn render_report(report: &NetReport) -> (r: String)
    requires
        all_sums_fit(report.interfaces@),
    ensures
        r@ == text::join(report_lines(*report), "\n"@),
{
    let has_arp: bool = report.arp_neighbors.len() > 0;
    let has_routes: bool = report.routes.len() > 0;
    let has_resolver: bool = report.resolver.is_some();
    let mut lines = no_texts();
    push_text(&mut lines, "net".to_owned());
    assert(text::views(lines@) =~= seq!["net"@]);
    render_interfaces_section(&mut lines, report, has_arp || has_routes || has_resolver);
    render_arp_section(&mut lines, report, has_routes || has_resolver);
    render_routes_section(&mut lines, report, has_resolver);
    render_resolver_section(&mut lines, report);
    join_texts(&lines, "\n")
}

} // verus!
