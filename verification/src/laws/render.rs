//! What the report on the network is for: every interface is shown with its addresses, flags
//! and counters, and every neighbor, route and server has its line.

use crate::laws::text::{in_order, stacked};
use crate::net::render;
use crate::net::{ArpEntry, InterfaceEntry, NetReport, ResolverConfig, RouteEntry};
use crate::number;
use crate::text;
use vstd::prelude::*;

verus! {

/// The row where the condition holds.
pub open spec fn row_if(condition: bool, row: Seq<char>) -> Seq<Seq<char>> {
    if condition {
        seq![row]
    } else {
        Seq::empty()
    }
}

/// The rows of a tree below a prefix; the last one is drawn with a corner.
pub open spec fn drawn(prefix: Seq<char>, rows: Seq<Seq<char>>) -> Seq<Seq<char>> {
    Seq::new(
        rows.len(),
        |i: int|
            prefix + (if i + 1 == rows.len() {
                "└"@
            } else {
                "├"@
            }) + "── "@ + rows[i],
    )
}

proof fn lemma_drawn(prefix: Seq<char>, rows: Seq<Seq<char>>)
    ensures
        render::branches(prefix, rows) == drawn(prefix, rows),
{
    assert(render::branches(prefix, rows) =~= drawn(prefix, rows));
}

proof fn lemma_bits(flags: u32)
    ensures
        render::has_bit(flags, 0x1) == ((flags & 0x1) != 0),
        render::has_bit(flags, 0x2) == ((flags & 0x2) != 0),
        render::has_bit(flags, 0x8) == ((flags & 0x8) != 0),
        render::has_bit(flags, 0x10) == ((flags & 0x10) != 0),
        render::has_bit(flags, 0x40) == ((flags & 0x40) != 0),
        render::has_bit(flags, 0x100) == ((flags & 0x100) != 0),
        render::has_bit(flags, 0x1000) == ((flags & 0x1000) != 0),
{
    assert((flags & 0x1 != 0) == (flags / 0x1 % 2 == 1) && (flags & 0x2 != 0) == (flags / 0x2 % 2
        == 1) && (flags & 0x8 != 0) == (flags / 0x8 % 2 == 1) && (flags & 0x10 != 0) == (flags
        / 0x10 % 2 == 1) && (flags & 0x40 != 0) == (flags / 0x40 % 2 == 1) && (flags & 0x100 != 0)
        == (flags / 0x100 % 2 == 1) && (flags & 0x1000 != 0) == (flags / 0x1000 % 2 == 1))
        by (bit_vector);
}

/// The names of the flags of an interface that are set, in the order of their bits.
pub open spec fn set_flags(flags: u32) -> Seq<Seq<char>> {
    row_if(flags & 0x1 != 0, "UP"@) + row_if(flags & 0x2 != 0, "BROADCAST"@) + row_if(
        flags & 0x8 != 0,
        "LOOPBACK"@,
    ) + row_if(flags & 0x10 != 0, "POINTOPOINT"@) + row_if(flags & 0x40 != 0, "RUNNING"@) + row_if(
        flags & 0x100 != 0,
        "PROMISC"@,
    ) + row_if(flags & 0x1000 != 0, "MULTICAST"@)
}

proof fn lemma_row_added(rows: Seq<Seq<char>>, condition: bool, row: Seq<char>)
    ensures
        rows + row_if(condition, row) == if condition {
            rows.push(row)
        } else {
            rows
        },
{
    assert(rows + row_if(condition, row) =~= if condition {
        rows.push(row)
    } else {
        rows
    });
}

/// Each flag of an interface that is set is named, with commas between the names.
pub proof fn lemma_flags_are_named(flags: u32)
    ensures
        render::flag_text(flags) == text::join(set_flags(flags), ","@),
{
    lemma_bits(flags);
    let l0 = Seq::<Seq<char>>::empty();
    lemma_row_added(l0, flags & 0x1 != 0, "UP"@);
    let l1 = row_if(flags & 0x1 != 0, "UP"@);
    assert(l0 + l1 =~= l1);
    lemma_row_added(l1, flags & 0x2 != 0, "BROADCAST"@);
    let l2 = l1 + row_if(flags & 0x2 != 0, "BROADCAST"@);
    lemma_row_added(l2, flags & 0x8 != 0, "LOOPBACK"@);
    let l3 = l2 + row_if(flags & 0x8 != 0, "LOOPBACK"@);
    lemma_row_added(l3, flags & 0x10 != 0, "POINTOPOINT"@);
    let l4 = l3 + row_if(flags & 0x10 != 0, "POINTOPOINT"@);
    lemma_row_added(l4, flags & 0x40 != 0, "RUNNING"@);
    let l5 = l4 + row_if(flags & 0x40 != 0, "RUNNING"@);
    lemma_row_added(l5, flags & 0x100 != 0, "PROMISC"@);
    let l6 = l5 + row_if(flags & 0x100 != 0, "PROMISC"@);
    lemma_row_added(l6, flags & 0x1000 != 0, "MULTICAST"@);
}

/// An interface is shown with its name, and with its state, size limit and hardware address
/// where they are known.
pub proof fn lemma_interface_summary(iface: InterfaceEntry)
    ensures
        render::summary_parts(iface) == seq![iface.name@] + (match iface.state {
            Some(state) => seq![state@],
            None => Seq::empty(),
        }) + (match iface.mtu {
            Some(mtu) => seq!["mtu="@ + number::decimal(mtu as int)],
            None => Seq::empty(),
        }) + (match iface.mac {
            Some(mac) => row_if(mac@ != "00:00:00:00:00:00"@, "mac="@ + mac@),
            None => Seq::empty(),
        }),
{
    assert(render::summary_parts(iface) =~= seq![iface.name@] + (match iface.state {
        Some(state) => seq![state@],
        None => Seq::empty(),
    }) + (match iface.mtu {
        Some(mtu) => seq!["mtu="@ + number::decimal(mtu as int)],
        None => Seq::empty(),
    }) + (match iface.mac {
        Some(mac) => row_if(mac@ != "00:00:00:00:00:00"@, "mac="@ + mac@),
        None => Seq::empty(),
    }));
}

/// The value, or zero where it is not known.
pub open spec fn counted(value: Option<u64>) -> int {
    match value {
        Some(n) => n as int,
        None => 0,
    }
}

/// The rows below an interface: its addresses, its flags, and its counters.
pub open spec fn interface_rows(iface: InterfaceEntry) -> Seq<Seq<char>> {
    let errors = counted(iface.rx_errors) + counted(iface.tx_errors);
    let drops = counted(iface.rx_dropped) + counted(iface.tx_dropped);
    Seq::new(iface.ipv4@.len(), |i: int| "ipv4 "@ + iface.ipv4@[i]@) + Seq::new(
        iface.ipv6@.len(),
        |i: int| "ipv6 "@ + iface.ipv6@[i]@,
    ) + (match iface.flags {
        Some(flags) => row_if(
            render::flag_text(flags).len() > 0,
            "flags "@ + render::flag_text(flags),
        ) + row_if(flags & 0x100 != 0, "⚠ promiscuous-mode"@),
        None => Seq::empty(),
    }) + (match (iface.rx_bytes, iface.tx_bytes) {
        (Some(rx), Some(tx)) => seq![
            "rx "@ + number::human_bytes_text(rx as int) + " tx "@ + number::human_bytes_text(
                tx as int,
            ),
        ],
        _ => Seq::empty(),
    }) + (match (iface.rx_packets, iface.tx_packets) {
        (Some(rx), Some(tx)) => seq![
            "pkts rx="@ + number::decimal(rx as int) + " tx="@ + number::decimal(tx as int),
        ],
        _ => Seq::empty(),
    }) + row_if(
        errors > 0 || drops > 0,
        "errors="@ + number::decimal(errors) + " drops="@ + number::decimal(drops),
    )
}

/// Below an interface stand all of its addresses, its flags with a warning where it listens to
/// everything, what came in and what went out, and its errors and drops where there are any.
pub proof fn lemma_interface_details(iface: InterfaceEntry)
    ensures
        render::detail_rows(iface) == interface_rows(iface),
{
    if let Some(flags) = iface.flags {
        lemma_bits(flags);
    }
    assert(render::address_rows(iface) =~= Seq::new(
        iface.ipv4@.len(),
        |i: int| "ipv4 "@ + iface.ipv4@[i]@,
    ) + Seq::new(iface.ipv6@.len(), |i: int| "ipv6 "@ + iface.ipv6@[i]@));
    assert(render::detail_rows(iface) =~= interface_rows(iface));
}

/// What the report has on an interface, where more sections follow or not.
pub open spec fn interface_block(iface: InterfaceEntry, more: bool, last: bool) -> Seq<Seq<char>> {
    let margin = (if more {
        "│"@
    } else {
        " "@
    }) + "   "@;
    seq![
        margin + (if last {
            "└"@
        } else {
            "├"@
        }) + "── "@ + text::join(render::summary_parts(iface), " "@),
    ] + drawn(
        margin + (if last {
            " "@
        } else {
            "│"@
        }) + "   "@,
        interface_rows(iface),
    )
}

/// The blocks of the first `n` interfaces.
pub open spec fn interface_blocks(interfaces: Seq<InterfaceEntry>, more: bool, n: nat) -> Seq<
    Seq<Seq<char>>,
> {
    Seq::new(n, |i: int| interface_block(interfaces[i], more, i + 1 == interfaces.len()))
}

proof fn lemma_interface_lines(interfaces: Seq<InterfaceEntry>, more: bool, n: nat)
    requires
        n <= interfaces.len(),
    ensures
        render::interface_lines(interfaces, more, n as int) == stacked(
            interface_blocks(interfaces, more, n),
        ),
    decreases n,
{
    if n > 0 {
        let m = (n - 1) as nat;
        let iface = interfaces[n - 1];
        let last = n == interfaces.len();
        lemma_interface_lines(interfaces, more, m);
        lemma_interface_details(iface);
        lemma_drawn(
            render::margin(more) + render::rail(last) + "   "@,
            render::detail_rows(iface),
        );
        let block = interface_block(iface, more, last);
        let before = render::interface_lines(interfaces, more, m as int);
        assert(interface_blocks(interfaces, more, n).drop_last() =~= interface_blocks(
            interfaces,
            more,
            m,
        ));
        assert(interface_blocks(interfaces, more, n).last() == block);
        assert(render::interface_lines(interfaces, more, n as int) =~= before + block);
    }
}

/// The section on something that is listed row by row.
pub open spec fn listing(title: Seq<char>, rows: Seq<Seq<char>>, more: bool) -> Seq<Seq<char>> {
    let bar = if more {
        "│"@
    } else {
        " "@
    };
    seq![
        (if more {
            "├"@
        } else {
            "└"@
        }) + "── "@ + title,
    ] + (if rows.len() == 0 {
        seq![bar + "   └── none visible"@]
    } else {
        drawn(bar + "   "@, rows)
    })
}

/// The section on the interfaces.
pub open spec fn interface_listing(interfaces: Seq<InterfaceEntry>, more: bool) -> Seq<Seq<char>> {
    if interfaces.len() == 0 {
        listing("interfaces"@, Seq::empty(), more)
    } else {
        seq![
            (if more {
                "├"@
            } else {
                "└"@
            }) + "── "@ + "interfaces"@,
        ] + stacked(interface_blocks(interfaces, more, interfaces.len()))
    }
}

/// A neighbor in words.
pub open spec fn neighbor_words(entry: ArpEntry) -> Seq<char> {
    entry.ip@ + " "@ + entry.mac@ + " "@ + entry.iface@
}

/// A route in words.
pub open spec fn route_words(route: RouteEntry) -> Seq<char> {
    route.destination@ + " via "@ + route.gateway@ + " "@ + route.iface@ + (match route.metric {
        Some(metric) => " metric="@ + number::decimal(metric as int),
        None => ""@,
    })
}

/// The rows on the resolver.
pub open spec fn server_rows(config: ResolverConfig) -> Seq<Seq<char>> {
    Seq::new(
        config.nameservers@.len(),
        |i: int| "nameserver "@ + config.nameservers@[i]@,
    ) + row_if(
        config.search@.len() > 0,
        "search "@ + text::join(text::views(config.search@), " "@),
    ) + row_if(
        config.options@.len() > 0,
        "options "@ + text::join(text::views(config.options@), " "@),
    )
}

/// The section on the resolver.
pub open spec fn resolver_listing(resolver: Option<ResolverConfig>) -> Seq<Seq<char>> {
    seq!["└── resolver"@] + (match resolver {
        None => seq!["    └── /etc/resolv.conf missing"@],
        Some(config) => if server_rows(config).len() == 0 {
            seq!["    └── /etc/resolv.conf empty"@]
        } else {
            drawn("    "@, server_rows(config))
        },
    })
}

proof fn lemma_list_section(title: Seq<char>, rows: Seq<Seq<char>>, more: bool)
    ensures
        render::list_section(title, rows, more) == listing(title, rows, more),
{
    lemma_drawn(render::margin(more), rows);
    assert(render::list_section(title, rows, more) =~= listing(title, rows, more));
}

proof fn lemma_route_words(route: RouteEntry)
    ensures
        render::route_row(route) == route_words(route),
{
    reveal_strlit("");
    let row = route.destination@ + " via "@ + route.gateway@ + " "@ + route.iface@;
    match route.metric {
        Some(metric) => {
            assert(row + " metric="@ + number::decimal(metric as int) =~= row + (" metric="@
                + number::decimal(metric as int)));
        },
        None => {
            assert(row + ""@ =~= row);
        },
    }
}

/// The report on the network has its four sections one after the other: the interfaces, the
/// neighbors, the routes and the resolver, each with all that was found, and nothing else.
pub proof fn lemma_report_has_all(report: NetReport)
    ensures
        ({
            let neighbors = report.arp_neighbors@.len() > 0;
            let routes = report.routes@.len() > 0;
            let resolver = report.resolver is Some;
            render::report_lines(report) == seq!["net"@] + interface_listing(
                report.interfaces@,
                neighbors || routes || resolver,
            ) + listing(
                "arp-neighbors"@,
                Seq::new(
                    report.arp_neighbors@.len(),
                    |i: int| neighbor_words(report.arp_neighbors@[i]),
                ),
                routes || resolver,
            ) + listing(
                "routes"@,
                Seq::new(report.routes@.len(), |i: int| route_words(report.routes@[i])),
                resolver,
            ) + resolver_listing(report.resolver)
        }),
{
    let neighbors = report.arp_neighbors@.len() > 0;
    let routes = report.routes@.len() > 0;
    let resolver = report.resolver is Some;
    let more = neighbors || routes || resolver;
    lemma_interface_lines(report.interfaces@, more, report.interfaces@.len());
    assert(render::interfaces_section(report.interfaces@, more) =~= interface_listing(
        report.interfaces@,
        more,
    ));
    let near = Seq::new(
        report.arp_neighbors@.len(),
        |i: int| neighbor_words(report.arp_neighbors@[i]),
    );
    assert(render::neighbor_rows(report.arp_neighbors@) =~= near);
    lemma_list_section("arp-neighbors"@, near, routes || resolver);
    let ways = Seq::new(report.routes@.len(), |i: int| route_words(report.routes@[i]));
    assert forall|i: int| 0 <= i < report.routes@.len() implies render::route_row(
        #[trigger] report.routes@[i],
    ) == route_words(report.routes@[i]) by {
        lemma_route_words(report.routes@[i]);
    }
    assert(render::route_rows(report.routes@) =~= ways);
    lemma_list_section("routes"@, ways, resolver);
    if let Some(config) = report.resolver {
        assert(render::resolver_rows(config) =~= server_rows(config));
        lemma_drawn("    "@, server_rows(config));
    }
    assert(render::resolver_section(report.resolver) =~= resolver_listing(report.resolver));
}

/// Every interface is shown in the report, in their order, each with its own rows below it.
pub proof fn lemma_interfaces_are_shown(report: NetReport)
    ensures
        in_order(
            render::report_lines(report),
            Seq::new(
                report.interfaces@.len(),
                |i: int|
                    interface_block(
                        report.interfaces@[i],
                        report.arp_neighbors@.len() > 0 || report.routes@.len() > 0
                            || report.resolver is Some,
                        i + 1 == report.interfaces@.len(),
                    ),
            ),
        ),
{
    let lines = render::report_lines(report);
    let more = report.arp_neighbors@.len() > 0 || report.routes@.len() > 0 || report.resolver
        is Some;
    let blocks = interface_blocks(report.interfaces@, more, report.interfaces@.len());
    if report.interfaces@.len() == 0 {
        crate::laws::text::lemma_order_of_none(lines);
        assert(blocks =~= Seq::<Seq<Seq<char>>>::empty());
    } else {
        lemma_report_has_all(report);
        crate::laws::text::lemma_stacked_in_order(blocks);
        let head = lines.take(2);
        let n = (2 + stacked(blocks).len()) as int;
        assert(lines =~= head + stacked(blocks) + lines.skip(n));
        crate::laws::text::lemma_order_inside(head, stacked(blocks), lines.skip(n), blocks);
    }
}

} // verus!
