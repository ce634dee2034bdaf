use zejtron::filepath::FilePath;
use zejtron::net::render::{decode_flags, format_iface_summary, render_report};
use zejtron::net::sort::sort_interfaces;
use zejtron::net::{
    collect_report, extract_ip_from_fib_line, find_default_route, hex_to_ipv4, read_arp,
    read_interfaces, read_ipv4_addresses, read_ipv6_addresses, read_resolver_config, read_routes,
    read_sysfs_flags, read_sysfs_str, read_sysfs_u32, read_sysfs_u64, ArpEntry, InterfaceEntry, InterfaceFiles,
    NetFiles, NetReport, ResolverConfig, RouteEntry,
};
use zejtron::number::human_bytes;

fn some(text: &str) -> Option<String> {
    Some(text.to_owned())
}

fn bare(name: &str) -> InterfaceEntry {
    InterfaceEntry {
        name: name.to_owned(),
        state: None,
        mtu: None,
        mac: None,
        flags: None,
        iftype: None,
        ipv4: vec![],
        ipv6: vec![],
        rx_bytes: None,
        tx_bytes: None,
        rx_packets: None,
        tx_packets: None,
        rx_errors: None,
        tx_errors: None,
        rx_dropped: None,
        tx_dropped: None,
    }
}

fn files(name: &str) -> InterfaceFiles {
    InterfaceFiles {
        name: FilePath::new(name),
        operstate: some("up\n"),
        mtu: some("1500\n"),
        address: some("aa:bb:cc:dd:ee:ff\n"),
        flags: some("0x1003\n"),
        iftype: some("1\n"),
        rx_bytes: some("10\n"),
        tx_bytes: some("20\n"),
        rx_packets: some("1\n"),
        tx_packets: some("2\n"),
        rx_errors: some("0\n"),
        tx_errors: None,
        rx_dropped: some("junk\n"),
        tx_dropped: some("4\n"),
    }
}

#[test]
fn hex_to_ipv4_decodes_little_endian() {
    // 0x0100007F in little-endian = 127.0.0.1
    assert_eq!(hex_to_ipv4("0100007F"), Some("127.0.0.1".to_owned()));
    // 0x00000000 = 0.0.0.0
    assert_eq!(hex_to_ipv4("00000000"), Some("0.0.0.0".to_owned()));
    // Invalid length
    assert_eq!(hex_to_ipv4("abc"), None);
}

#[test]
fn hex_to_ipv4_rejects_other_digits() {
    assert_eq!(hex_to_ipv4("0100007G"), None);
    assert_eq!(hex_to_ipv4("FE01A8C0"), Some("192.168.1.254".to_owned()));
    assert_eq!(hex_to_ipv4("ffffffff"), Some("255.255.255.255".to_owned()));
}

#[test]
fn decode_flags_includes_up_and_promisc() {
    let flags = 0x1 | 0x100; // UP | PROMISC
    let decoded = decode_flags(flags);
    assert!(decoded.contains("UP"));
    assert!(decoded.contains("PROMISC"));
}

#[test]
fn decode_flags_loopback_only() {
    let decoded = decode_flags(0x8 | 0x1 | 0x40); // LOOPBACK | UP | RUNNING
    assert!(decoded.contains("LOOPBACK"));
    assert!(decoded.contains("UP"));
    assert!(decoded.contains("RUNNING"));
    assert!(!decoded.contains("PROMISC"));
}

#[test]
fn decode_flags_names_every_bit_in_order() {
    assert_eq!(
        decode_flags(u32::MAX),
        "UP,BROADCAST,LOOPBACK,POINTOPOINT,RUNNING,PROMISC,MULTICAST"
    );
    assert_eq!(decode_flags(0), "");
    assert_eq!(decode_flags(0x4 | 0x20 | 0x80), "");
}

#[test]
fn human_bytes_formats_correctly() {
    assert_eq!(human_bytes(0), "0B");
    assert_eq!(human_bytes(512), "512B");
    assert_eq!(human_bytes(1024), "1.0KB");
    assert_eq!(human_bytes(1024 * 1024), "1.0MB");
    assert_eq!(human_bytes(1024 * 1024 * 1024), "1.00GB");
}

#[test]
fn format_iface_summary_skips_zero_mac() {
    let iface = InterfaceEntry {
        name: "lo".to_owned(),
        state: Some("unknown".to_owned()),
        mtu: Some(65536),
        mac: Some("00:00:00:00:00:00".to_owned()),
        flags: None,
        iftype: None,
        ipv4: vec![],
        ipv6: vec![],
        rx_bytes: None,
        tx_bytes: None,
        rx_packets: None,
        tx_packets: None,
        rx_errors: None,
        tx_errors: None,
        rx_dropped: None,
        tx_dropped: None,
    };
    let s = format_iface_summary(&iface);
    assert!(!s.contains("mac="));
    assert!(s.contains("lo unknown mtu=65536"));
}

#[test]
fn render_full_report_has_all_sections() {
    let report = NetReport {
        interfaces: vec![InterfaceEntry {
            name: "eth0".to_owned(),
            state: Some("up".to_owned()),
            mtu: Some(1500),
            mac: Some("aa:bb:cc:dd:ee:ff".to_owned()),
            flags: Some(0x1 | 0x40 | 0x100), // UP | RUNNING | PROMISC
            iftype: Some(1),
            ipv4: vec!["10.0.0.5".to_owned()],
            ipv6: vec!["fe80::1".to_owned()],
            rx_bytes: Some(123456),
            tx_bytes: Some(654321),
            rx_packets: Some(100),
            tx_packets: Some(200),
            rx_errors: Some(0),
            tx_errors: Some(0),
            rx_dropped: Some(0),
            tx_dropped: Some(0),
        }],
        arp_neighbors: vec![ArpEntry {
            ip: "10.0.0.1".to_owned(),
            hw_type: "0x1".to_owned(),
            flags: "0x2".to_owned(),
            mac: "ff:ff:ff:ff:ff:ff".to_owned(),
            iface: "eth0".to_owned(),
        }],
        routes: vec![RouteEntry {
            iface: "eth0".to_owned(),
            destination: "default".to_owned(),
            gateway: "10.0.0.1".to_owned(),
            flags: "0003".to_owned(),
            metric: Some(100),
        }],
        default_route: Some("eth0".to_owned()),
        resolver: Some(ResolverConfig {
            nameservers: vec!["8.8.8.8".to_owned()],
            search: vec!["example.com".to_owned()],
            options: vec!["timeout:5".to_owned()],
        }),
    };
    let out = render_report(&report);
    assert!(out.contains("interfaces"));
    assert!(out.contains("eth0 up mtu=1500 mac=aa:bb:cc:dd:ee:ff"));
    assert!(out.contains("ipv4 10.0.0.5"));
    assert!(out.contains("ipv6 fe80::1"));
    assert!(out.contains("PROMISC"));
    assert!(out.contains("rx 120.6KB tx 639.0KB"));
    assert!(out.contains("pkts rx=100 tx=200"));
    assert!(out.contains("arp-neighbors"));
    assert!(out.contains("10.0.0.1 ff:ff:ff:ff:ff:ff eth0"));
    assert!(out.contains("routes"));
    assert!(out.contains("default via 10.0.0.1 eth0 metric=100"));
    assert!(out.contains("resolver"));
    assert!(out.contains("nameserver 8.8.8.8"));
    assert!(out.contains("search example.com"));
    assert!(out.contains("options timeout:5"));
    assert_eq!(
        out,
        "net\n\
         ├── interfaces\n\
         │   └── eth0 up mtu=1500 mac=aa:bb:cc:dd:ee:ff\n\
         │       ├── ipv4 10.0.0.5\n\
         │       ├── ipv6 fe80::1\n\
         │       ├── flags UP,RUNNING,PROMISC\n\
         │       ├── ⚠ promiscuous-mode\n\
         │       ├── rx 120.6KB tx 639.0KB\n\
         │       └── pkts rx=100 tx=200\n\
         ├── arp-neighbors\n\
         │   └── 10.0.0.1 ff:ff:ff:ff:ff:ff eth0\n\
         ├── routes\n\
         │   └── default via 10.0.0.1 eth0 metric=100\n\
         └── resolver\n    \
             ├── nameserver 8.8.8.8\n    \
             ├── search example.com\n    \
             └── options timeout:5"
    );
}

#[test]
fn render_empty_report() {
    let report = NetReport {
        interfaces: vec![],
        arp_neighbors: vec![],
        routes: vec![],
        default_route: None,
        resolver: None,
    };
    let out = render_report(&report);
    assert!(out.contains("interfaces"));
    assert!(out.contains("none visible"));
    assert!(out.contains("resolver"));
    assert!(out.contains("missing"));
    assert_eq!(
        out,
        "net\n\
         └── interfaces\n    \
             └── none visible\n\
         └── arp-neighbors\n    \
             └── none visible\n\
         └── routes\n    \
             └── none visible\n\
         └── resolver\n    \
             └── /etc/resolv.conf missing"
    );
}

#[test]
fn render_counts_errors_and_empty_resolver() {
    let mut first = bare("a");
    first.rx_errors = Some(2);
    first.tx_dropped = Some(3);
    let report = NetReport {
        interfaces: vec![first, bare("b")],
        arp_neighbors: vec![],
        routes: vec![],
        default_route: None,
        resolver: Some(ResolverConfig {
            nameservers: vec![],
            search: vec![],
            options: vec![],
        }),
    };
    let out = render_report(&report);
    assert!(out.contains("│   ├── a\n│   │   └── errors=2 drops=3\n│   └── b\n"));
    assert!(out.ends_with("└── resolver\n    └── /etc/resolv.conf empty"));
}

#[test]
fn sysfs_values_are_trimmed() {
    assert_eq!(read_sysfs_str(&some("  up \n")), some("up"));
    assert_eq!(read_sysfs_str(&some(" \n")), None);
    assert_eq!(read_sysfs_str(&None), None);
    assert_eq!(read_sysfs_u32(&some("1500\n")), Some(1500));
    assert_eq!(read_sysfs_u32(&some("15a\n")), None);
    assert_eq!(read_sysfs_u32(&some("4294967296\n")), None);
    assert_eq!(read_sysfs_u64(&some("4294967296\n")), Some(4294967296));
    assert_eq!(read_sysfs_u64(&some("-1\n")), None);
}

#[test]
fn interface_flags_are_read_in_base_sixteen() {
    assert_eq!(read_sysfs_flags(&some("0x1003\n")), Some(0x1003));
    assert_eq!(read_sysfs_flags(&some("0xFFffFFff")), Some(u32::MAX));
    assert_eq!(read_sysfs_flags(&some("0x100000000")), None);
    assert_eq!(read_sysfs_flags(&some("0x0\n")), Some(0));
    assert_eq!(read_sysfs_flags(&some("4099\n")), Some(4099));
    assert_eq!(read_sysfs_flags(&some("1003x")), None);
    assert_eq!(read_sysfs_flags(&some("0x")), None);
    assert_eq!(read_sysfs_flags(&some("\n")), None);
    assert_eq!(read_sysfs_flags(&None), None);
}

#[test]
fn interface_flags_are_decoded_from_files() {
    let mut eth = files("eth0");
    eth.flags = some("0x1103\n");
    let net = NetFiles {
        interfaces: vec![eth],
        fib_trie: None,
        if_inet6: None,
        arp: None,
        route: None,
        resolv_conf: None,
    };
    let out = render_report(&collect_report(&net));
    assert!(out.contains("flags UP"));
    assert!(out.contains("BROADCAST"));
    assert!(out.contains("MULTICAST"));
    assert!(out.contains("PROMISC"));
}

#[test]
fn ipv6_addresses_are_grouped_by_four() {
    let table = some(
        "00000000000000000000000000000001 01 80 10 80       lo\n\
         fe80000000000000021122fffe334455 02 40 20 80     eth0\n\
         fe80 02 40 20 80     eth0\n\
         short line\n",
    );
    assert_eq!(
        read_ipv6_addresses(&table, "eth0"),
        vec!["fe80:0000:0000:0000:0211:22ff:fe33:4455".to_owned()]
    );
    assert_eq!(
        read_ipv6_addresses(&table, "lo"),
        vec!["0000:0000:0000:0000:0000:0000:0000:0001".to_owned()]
    );
    assert!(read_ipv6_addresses(&table, "wlan0").is_empty());
    assert!(read_ipv6_addresses(&None, "lo").is_empty());
}

#[test]
fn ip_is_taken_from_a_fib_line() {
    assert_eq!(extract_ip_from_fib_line("|-- 127.0.0.1"), some("127.0.0.1"));
    assert_eq!(extract_ip_from_fib_line("|--10.0.0.5"), some("10.0.0.5"));
    assert_eq!(extract_ip_from_fib_line("||10.0.0.5 x"), some("10.0.0.5"));
    assert_eq!(extract_ip_from_fib_line("10.0.0.256"), None);
    assert_eq!(extract_ip_from_fib_line("10.0.0"), None);
    assert_eq!(extract_ip_from_fib_line("|-- "), None);
}

#[test]
fn ipv4_addresses_stand_before_their_local_line() {
    let trie = some(
        "Main:\n\
         \x20 +-- 0.0.0.0/0 3 0 5\n\
         \x20    |-- 0.0.0.0\n\
         \x20       /0 universe UNICAST\n\
         \x20    +-- 10.0.0.0/24 2 0 2\n\
         \x20       |-- 10.0.0.0\n\
         \x20          /24 link UNICAST\n\
         \x20       |-- 10.0.0.5\n\
         \x20          /32 host LOCAL\n\
         \x20       |-- 10.0.0.255\n\
         \x20          /32 link BROADCAST\n\
         \x20    |-- 127.0.0.1\n\
         \x20       /32 host LOCAL\n\
         Local:\n\
         \x20       |-- 10.0.0.5\n\
         \x20          /32 host LOCAL\n\
         \x20       |-- 192.168.1.9\n\
         \x20          /32 host LOCAL\n",
    );
    assert_eq!(
        read_ipv4_addresses(&trie),
        vec!["10.0.0.5".to_owned(), "192.168.1.9".to_owned()]
    );
    assert!(read_ipv4_addresses(&None).is_empty());
    assert!(read_ipv4_addresses(&some("")).is_empty());
    assert!(read_ipv4_addresses(&some("/32 host LOCAL")).is_empty());
}

#[test]
fn arp_table_is_read_below_its_heading() {
    let table = some(
        "IP address       HW type     Flags       HW address            Mask     Device\n\
         10.0.0.1         0x1         0x2         ff:ff:ff:ff:ff:ff     *        eth0\n\
         short line\n",
    );
    assert_eq!(
        read_arp(&table),
        vec![ArpEntry {
            ip: "10.0.0.1".to_owned(),
            hw_type: "0x1".to_owned(),
            flags: "0x2".to_owned(),
            mac: "ff:ff:ff:ff:ff:ff".to_owned(),
            iface: "eth0".to_owned(),
        }]
    );
    assert!(read_arp(&None).is_empty());
}

const ROUTES: &str = "Iface\tDestination\tGateway\tFlags\tRefCnt\tUse\tMetric\tMask\n\
    eth0\t0000000A\t00000000\t0001\t0\t0\t100\t00FFFFFF\n\
    eth0\t00000000\t0100000A\t0003\t0\t0\t100\t00000000\n\
    wg0\tjunk\tnone\t0001\t0\t0\tx\t0\n\
    eth1\t00000000\t0100000B\t0003\t0\t0\t200\t00000000\n";

#[test]
fn routes_are_decoded() {
    let routes = read_routes(&some(ROUTES));
    assert_eq!(routes.len(), 4);
    assert_eq!(routes[0].destination, "10.0.0.0");
    assert_eq!(routes[0].gateway, "0.0.0.0");
    assert_eq!(
        routes[1],
        RouteEntry {
            iface: "eth0".to_owned(),
            destination: "default".to_owned(),
            gateway: "10.0.0.1".to_owned(),
            flags: "0003".to_owned(),
            metric: Some(100),
        }
    );
    assert_eq!(routes[2].destination, "junk");
    assert_eq!(routes[2].gateway, "none");
    assert_eq!(routes[2].metric, None);
    assert_eq!(find_default_route(&routes), some("eth0"));
    assert_eq!(find_default_route(&vec![]), None);
}

#[test]
fn resolver_directives_are_collected() {
    let config = read_resolver_config(&some(
        "# comment\n\
         nameserver 8.8.8.8 ignored\n\
         ; other\n\
         search example.com corp.example\n\
         \n\
         nameserver\n\
         options timeout:5\n\
         #nameserver 9.9.9.9\n\
         \x20 nameserver 1.1.1.1\n\
         options rotate ndots:2\n",
    ))
    .unwrap();
    assert_eq!(config.nameservers, vec!["8.8.8.8", "1.1.1.1"]);
    assert_eq!(config.search, vec!["example.com", "corp.example"]);
    assert_eq!(config.options, vec!["timeout:5", "rotate", "ndots:2"]);
    assert_eq!(read_resolver_config(&None), None);
}

#[test]
fn interfaces_are_sorted_by_name() {
    let listed = vec![files("wlan0"), files("eth0"), files("eth10"), files("eth1")];
    let entries = read_interfaces(&listed, &None, &None);
    let names: Vec<&str> = entries.iter().map(|entry| entry.name.as_str()).collect();
    assert_eq!(names, vec!["eth0", "eth1", "eth10", "wlan0"]);
}

#[test]
fn sorting_keeps_the_order_of_equal_names() {
    let mut first = bare("b");
    first.mtu = Some(1);
    let mut second = bare("b");
    second.mtu = Some(2);
    let mut expected = vec![first.clone(), bare("é"), second.clone(), bare("a"), bare("z")];
    let sorted = sort_interfaces(expected.clone());
    expected.sort_by(|a, b| a.name.cmp(&b.name));
    assert_eq!(sorted, expected);
}

#[test]
fn report_is_collected_from_files() {
    let net = NetFiles {
        interfaces: vec![files("eth0")],
        fib_trie: some("  |-- 10.0.0.5\n    /32 host LOCAL\n"),
        if_inet6: some("fe80000000000000021122fffe334455 02 40 20 80     eth0\n"),
        arp: None,
        route: some(ROUTES),
        resolv_conf: some("nameserver 8.8.8.8\n"),
    };
    let report = collect_report(&net);
    let entry = &report.interfaces[0];
    assert_eq!(entry.name, "eth0");
    assert_eq!(entry.state, some("up"));
    assert_eq!(entry.mtu, Some(1500));
    assert_eq!(entry.flags, Some(0x1003));
    assert_eq!(entry.iftype, Some(1));
    assert_eq!(entry.ipv4, vec!["10.0.0.5"]);
    assert_eq!(entry.ipv6, vec!["fe80:0000:0000:0000:0211:22ff:fe33:4455"]);
    assert_eq!(entry.rx_bytes, Some(10));
    assert_eq!(entry.rx_dropped, None);
    assert_eq!(entry.tx_dropped, Some(4));
    assert_eq!(report.default_route, some("eth0"));
    assert_eq!(report.resolver.unwrap().nameservers, vec!["8.8.8.8"]);
}
