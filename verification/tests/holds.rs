use std::collections::BTreeSet;

use zejtron::failure::{classify_proc_error, FailureKind, FileLines, IoFailure, ProcRead};
use zejtron::filepath::FilePath;
use zejtron::holds::descriptors::{
    scan_pid_fds_for_file, scan_pid_fds_for_sockets, scan_pid_maps_for_file, FdEntry, FdLook,
};
use zejtron::holds::evidence::order_evidence;
use zejtron::holds::holder::{read_holder, HolderSource};
use zejtron::holds::procfs::{
    dev_major_minor, list_pids, parse_dev_hex, parse_proc_net_file, parse_proc_net_line,
    parse_socket_inode, read_fd_mode, read_proc_maps, read_proc_net_sockets, resolve_username,
};
use zejtron::holds::report::{format_path_report, format_port_report};
use zejtron::holds::scan::{
    scan_path_holders, scan_port_holders, scan_socket_holders, target_inodes, FileProcess,
    SocketProcess,
};
use zejtron::holds::{
    parse_target, Evidence, FdMode, FileId, Holder, HoldsError, MapEntry, MmapPerms, Protocol,
    ScanStats, SocketEntry, Target,
};

fn holder(pid: u32, name: &str, evidence: Vec<Evidence>) -> Holder {
    Holder {
        pid,
        name: name.to_owned(),
        user: "rezky".to_owned(),
        cwd: None,
        evidence,
    }
}

fn failure(kind: FailureKind, message: &str) -> IoFailure {
    IoFailure {
        kind,
        message: message.to_owned(),
    }
}

fn lines(content: &str) -> FileLines {
    Ok(content.lines().map(|line| Ok(line.to_owned())).collect())
}

fn listed<T>(name: &str, target: Result<T, FailureKind>, info: Option<&str>) -> FdEntry<T> {
    FdEntry::Listed(FdLook {
        name: Some(name.to_owned()),
        target,
        info: info.map(str::to_owned),
    })
}

fn source(name: &str, uid: &str) -> HolderSource {
    HolderSource {
        status: Ok(format!("Name:\t{name}\nUid:\t{uid}\t{uid}\t{uid}\t{uid}\n")),
        cwd: Some(FilePath::new("/srv")),
    }
}

const PASSWD: &str = "root:x:0:0:root:/root:/bin/bash\nrezky:x:1000:1000::/home/rezky:/bin/zsh\n";

fn passwd() -> Option<String> {
    Some(PASSWD.to_owned())
}

#[test]
fn holds_target_detection_valid_port() {
    assert_eq!(parse_target("3000").unwrap(), Target::Port(3000));
    assert_eq!(parse_target("65535").unwrap(), Target::Port(65535));
}

#[test]
fn holds_target_detection_invalid_port() {
    assert_eq!(parse_target("0").unwrap_err().message(), "invalid port: 0");
    assert_eq!(
        parse_target("65536").unwrap_err().message(),
        "invalid port: 65536"
    );
}

#[test]
fn holds_target_detection_path() {
    assert_eq!(
        parse_target("/tmp/file with spaces").unwrap(),
        Target::Path(FilePath::new("/tmp/file with spaces"))
    );
}

#[test]
fn empty_target_is_an_invalid_port() {
    assert_eq!(parse_target("").unwrap_err().message(), "invalid port: ");
    assert_eq!(
        parse_target("99999999999999999999").unwrap_err().message(),
        "invalid port: 99999999999999999999"
    );
}

#[test]
fn every_port_reads_back() {
    for port in [1u16, 9, 10, 80, 443, 1024, 65535] {
        assert_eq!(
            parse_target(&port.to_string()).unwrap(),
            Target::Port(port)
        );
    }
}

#[test]
fn renders_one_port_holder() {
    let mut row = holder(1234, "bun", vec![Evidence::Fd(8, FdMode::Read)]);
    row.cwd = Some("/home/rezky/project".to_owned());

    assert_eq!(
        format_port_report(3000, &vec![row], &ScanStats::default()),
        ":3000\n└── bun pid=1234 user=rezky\n    ├── cwd /home/rezky/project\n    └── fd 8 (r)\n\n1 holder"
    );
}

#[test]
fn renders_multiple_port_holders() {
    let mut first = holder(1234, "bun", vec![Evidence::Fd(8, FdMode::Read)]);
    first.cwd = Some("/home/rezky/project".to_owned());
    let mut second = holder(2222, "node", vec![Evidence::Fd(9, FdMode::Read)]);
    second.cwd = Some("/home/rezky/other".to_owned());

    assert_eq!(
        format_port_report(3000, &vec![first, second], &ScanStats::default()),
        ":3000\n├── bun pid=1234 user=rezky\n│   ├── cwd /home/rezky/project\n│   └── fd 8 (r)\n└── node pid=2222 user=rezky\n    ├── cwd /home/rezky/other\n    └── fd 9 (r)\n\n2 holders"
    );
}

#[test]
fn renders_unreadable_working_directory() {
    assert_eq!(
        format_port_report(
            22,
            &vec![holder(1, "sshd", vec![Evidence::Fd(3, FdMode::ReadWrite)])],
            &ScanStats::default()
        ),
        ":22\n└── sshd pid=1 user=rezky\n    ├── cwd (unreadable)\n    └── fd 3 (rw)\n\n1 holder"
    );
}

#[test]
fn renders_no_port_holders() {
    assert_eq!(
        format_port_report(3000, &vec![], &ScanStats::default()),
        "No holders found for port 3000."
    );
}

#[test]
fn renders_path_holder() {
    assert_eq!(
        format_path_report(
            "/tmp/file with spaces",
            &vec![holder(1234, "cat", vec![Evidence::Fd(12, FdMode::Read)])],
            &ScanStats::default()
        ),
        "/tmp/file with spaces\n└── cat pid=1234 user=rezky\n    └── fd 12 (r)\n\n1 holder"
    );
}

#[test]
fn renders_path_holder_with_multiple_evidence() {
    assert_eq!(
        format_path_report(
            "/tmp/lib.so",
            &vec![holder(
                1234,
                "app",
                vec![
                    Evidence::Fd(4, FdMode::Read),
                    Evidence::Mmap(MmapPerms {
                        read: true,
                        write: false,
                        execute: false,
                        private: true
                    })
                ]
            )],
            &ScanStats::default()
        ),
        "/tmp/lib.so\n└── app pid=1234 user=rezky\n    ├── fd 4 (r)\n    └── mmap r--p\n\n1 holder"
    );
}

#[test]
fn renders_no_path_holders() {
    assert_eq!(
        format_path_report("/tmp/empty", &vec![], &ScanStats::default()),
        "No holders found for '/tmp/empty'."
    );
}

#[test]
fn holds_missing_path_error_is_clean() {
    let missing = FilePath::new("/tmp/scratch/missing file");
    let metadata = Err(failure(
        FailureKind::NotFound,
        "No such file or directory (os error 2)",
    ));

    assert_eq!(
        scan_path_holders(&missing, &metadata, Ok(vec![]), &passwd())
            .unwrap_err()
            .message(),
        format!("{}: no such file or directory", missing.display())
    );
}

#[test]
fn holds_broken_symlink_error_is_clean() {
    let link = FilePath::new("/tmp/scratch/broken link");
    let metadata = Err(failure(
        FailureKind::NotFound,
        "No such file or directory (os error 2)",
    ));

    assert_eq!(
        scan_path_holders(&link, &metadata, Ok(vec![]), &passwd())
            .unwrap_err()
            .message(),
        format!("{}: no such file or directory", link.display())
    );
}

#[test]
fn other_path_errors_keep_their_message() {
    let path = FilePath::new("/root/secret");
    let metadata = Err(failure(
        FailureKind::PermissionDenied,
        "Permission denied (os error 13)",
    ));
    assert_eq!(
        scan_path_holders(&path, &metadata, Ok(vec![]), &passwd())
            .unwrap_err()
            .message(),
        "/root/secret: Permission denied (os error 13)"
    );
}

#[test]
fn path_that_is_not_utf8_is_shown_with_replacement() {
    let path = FilePath {
        bytes: vec![b'/', b'a', 0xff, b'b'],
    };
    let metadata = Err(failure(FailureKind::NotFound, "gone"));
    assert_eq!(
        scan_path_holders(&path, &metadata, Ok(vec![]), &None)
            .unwrap_err()
            .message(),
        "/a\u{fffd}b: no such file or directory"
    );
}

#[test]
fn vanished_holder_is_skipped() {
    let gone = HolderSource {
        status: Err(FailureKind::NotFound),
        cwd: None,
    };
    assert!(read_holder(
        u32::MAX,
        vec![Evidence::Fd(1, FdMode::Read)],
        &gone,
        &passwd()
    )
    .is_none());
}

#[test]
fn holder_is_told_by_its_files() {
    let found = read_holder(
        77,
        vec![Evidence::Fd(1, FdMode::Read)],
        &source("vim", "1000"),
        &passwd(),
    )
    .unwrap();
    assert_eq!(
        found,
        Holder {
            pid: 77,
            name: "vim".to_owned(),
            user: "rezky".to_owned(),
            cwd: Some("/srv".to_owned()),
            evidence: vec![Evidence::Fd(1, FdMode::Read)],
        }
    );
}

#[test]
fn holder_falls_back_to_numbers_and_unknown() {
    let numbered = read_holder(1, vec![], &source("x", "4242"), &passwd()).unwrap();
    assert_eq!(numbered.user, "uid=4242");

    let unread = HolderSource {
        status: Err(FailureKind::PermissionDenied),
        cwd: None,
    };
    let unknown = read_holder(1, vec![], &unread, &passwd()).unwrap();
    assert_eq!(unknown.name, "unknown");
    assert_eq!(unknown.user, "uid=unknown");
    assert_eq!(unknown.cwd, None);
}

#[test]
fn unreadable_note_appears_only_when_relevant() {
    assert!(!format_port_report(53, &vec![], &ScanStats::default()).contains("note:"));
    assert!(format_port_report(
        53,
        &vec![],
        &ScanStats {
            unreadable_processes: 1,
            unreadable_fds: 0,
            unreadable_maps: 0,
        },
    )
    .contains("note: some processes were not readable"));
}

#[test]
fn stable_summary_counts() {
    let holders = vec![
        holder(1, "one", vec![Evidence::Fd(1, FdMode::Read)]),
        holder(2, "two", vec![Evidence::Fd(2, FdMode::Read)]),
    ];

    assert!(format_path_report("/tmp/x", &holders, &ScanStats::default()).contains("2 holders"));
}

#[test]
fn proc_net_line_parses_local_port_and_inode() {
    let line = "0: 0100007F:0BB8 00000000:0000 0A 00000000:00000000 00:00000000 00000000 1000 0 12345 1 0000000000000000 100 0 0 10 0";
    assert_eq!(
        parse_proc_net_line(line, Protocol::Tcp),
        Some(SocketEntry {
            protocol: Protocol::Tcp,
            port: 3000,
            inode: 12345,
        })
    );
}

#[test]
fn proc_net_line_rejects_short_or_bad_lines() {
    assert_eq!(parse_proc_net_line("", Protocol::Udp), None);
    assert_eq!(parse_proc_net_line("0: 0100007F:0BB8", Protocol::Udp), None);
    assert_eq!(
        parse_proc_net_line("0: 0100007F:10000 a 0A b c d 1000 0 12345", Protocol::Tcp),
        None
    );
    assert_eq!(
        parse_proc_net_line("0: 0100007F a 0A b c d 1000 0 12345", Protocol::Tcp),
        None
    );
}

#[test]
fn parse_socket_inode_from_fd_link() {
    assert_eq!(
        parse_socket_inode(&FilePath::new("socket:[12345]")),
        Some(12345)
    );
    assert_eq!(parse_socket_inode(&FilePath::new("pipe:[12345]")), None);
}

#[test]
fn socket_links_read_back() {
    for inode in [0u64, 7, 10, 4026531992, u64::MAX] {
        assert_eq!(
            parse_socket_inode(&FilePath::new(&format!("socket:[{inode}]"))),
            Some(inode)
        );
    }
    assert_eq!(parse_socket_inode(&FilePath::new("socket:[]")), None);
    assert_eq!(parse_socket_inode(&FilePath::new("socket:[12")), None);
}

#[test]
fn classifies_vanished_proc_errors() {
    match classify_proc_error::<()>(failure(FailureKind::NotFound, "gone")) {
        ProcRead::Gone => {}
        _ => panic!("expected gone"),
    }
}

#[test]
fn classifies_other_proc_errors() {
    assert!(matches!(
        classify_proc_error::<()>(failure(FailureKind::PermissionDenied, "no")),
        ProcRead::PermissionDenied
    ));
    assert!(matches!(
        classify_proc_error::<()>(failure(FailureKind::Other, "bad")),
        ProcRead::Fatal(error) if error.message == "bad"
    ));
}

#[test]
fn fd_modes_follow_the_lowest_bits() {
    assert_eq!(FdMode::from_flags(0), FdMode::Read);
    assert_eq!(FdMode::from_flags(0o100001), FdMode::Write);
    assert_eq!(FdMode::from_flags(2), FdMode::ReadWrite);
    assert_eq!(FdMode::from_flags(3), FdMode::Unknown);
    assert_eq!(FdMode::from_flags(u64::MAX), FdMode::Unknown);
    assert_eq!(
        [
            FdMode::Read.label(),
            FdMode::Write.label(),
            FdMode::ReadWrite.label(),
            FdMode::Unknown.label()
        ],
        ["r", "w", "rw", "?"]
    );
}

#[test]
fn fd_mode_is_read_from_the_flags_line() {
    assert_eq!(read_fd_mode(&None), FdMode::Unknown);
    assert_eq!(read_fd_mode(&Some("pos:\t0\n".to_owned())), FdMode::Unknown);
    assert_eq!(
        read_fd_mode(&Some("pos:\t0\nflags:\t0100002\nmnt_id:\t9\n".to_owned())),
        FdMode::ReadWrite
    );
    assert_eq!(
        read_fd_mode(&Some("flags:\tgarbage\n".to_owned())),
        FdMode::Read
    );
}

#[test]
fn mmap_permissions_read_back() {
    for bits in 0..16u8 {
        let perms = MmapPerms {
            read: bits & 8 != 0,
            write: bits & 4 != 0,
            execute: bits & 2 != 0,
            private: bits & 1 != 0,
        };
        assert_eq!(MmapPerms::parse(&perms.label()), Some(perms));
    }
    assert_eq!(MmapPerms::parse("r-x"), None);
    assert_eq!(MmapPerms::parse("r-xps"), None);
    // Two characters of two bytes each are four bytes.
    assert_eq!(
        MmapPerms::parse("éé"),
        Some(MmapPerms {
            read: false,
            write: false,
            execute: false,
            private: false
        })
    );
}

#[test]
fn evidence_labels() {
    assert_eq!(Evidence::Fd(-1, FdMode::Unknown).label(), "fd -1 (?)");
    assert_eq!(
        Evidence::Mmap(MmapPerms {
            read: true,
            write: false,
            execute: true,
            private: false
        })
        .label(),
        "mmap r-xs"
    );
}

#[test]
fn maps_are_read_line_by_line() {
    let file = lines(
        "55d0-55d1 r-xp 00000000 08:02 131 /usr/bin/cat\n\
         7f00-7f01 rw-p 00000000 00:00 0\n\
         short line\n\
         7f02-7f03 bad? 00000000 fd:1a 9 /x\n\
         7f02-7f03 r--p 00000000 nodev 9 /x",
    );
    match read_proc_maps(&file) {
        ProcRead::Done(maps) => assert_eq!(
            maps,
            vec![
                MapEntry {
                    dev_major: 8,
                    dev_minor: 2,
                    inode: 131,
                    perms: MmapPerms {
                        read: true,
                        write: false,
                        execute: true,
                        private: true
                    },
                },
                MapEntry {
                    dev_major: 0,
                    dev_minor: 0,
                    inode: 0,
                    perms: MmapPerms {
                        read: true,
                        write: true,
                        execute: false,
                        private: true
                    },
                },
                MapEntry {
                    dev_major: 0xfd,
                    dev_minor: 0x1a,
                    inode: 9,
                    perms: MmapPerms {
                        read: false,
                        write: false,
                        execute: false,
                        private: false
                    },
                },
            ]
        ),
        _ => panic!("expected maps"),
    }
}

#[test]
fn maps_find_the_first_mapping_of_a_file() {
    let file = lines(
        "55d0-55d1 r--p 00000000 08:02 131 /usr/bin/cat\n\
         55d1-55d2 r-xp 00001000 08:02 131 /usr/bin/cat\n\
         7f00-7f01 rw-p 00000000 00:00 0",
    );
    match scan_pid_maps_for_file(&file, 8, 2, 131) {
        ProcRead::Done(Some(perms)) => assert_eq!(perms.label(), "r--p"),
        _ => panic!("expected a mapping"),
    }
    assert!(matches!(
        scan_pid_maps_for_file(&file, 8, 3, 131),
        ProcRead::Done(None)
    ));
    // Inode 0 is no file.
    assert!(matches!(
        scan_pid_maps_for_file(&file, 0, 0, 0),
        ProcRead::Done(None)
    ));
    let denied: FileLines = Err(failure(FailureKind::PermissionDenied, "no"));
    assert!(matches!(
        scan_pid_maps_for_file(&denied, 8, 2, 131),
        ProcRead::PermissionDenied
    ));
    let broken: FileLines = Ok(vec![
        Ok("55d0-55d1 r--p 00000000 08:02 131 /x".to_owned()),
        Err(failure(FailureKind::NotFound, "gone")),
    ]);
    assert!(matches!(
        scan_pid_maps_for_file(&broken, 8, 2, 131),
        ProcRead::Gone
    ));
}

#[test]
fn device_numbers_split_and_read_back() {
    assert_eq!(parse_dev_hex("fd:1a"), Some((0xfd, 0x1a)));
    assert_eq!(parse_dev_hex("fd"), None);
    assert_eq!(parse_dev_hex("fd:xyz"), None);
    assert_eq!(dev_major_minor(0x803), (8, 3));
    for (major, minor) in [(8u64, 2u64), (0xfd, 0x1a), (0xfff, 0xfffff), (0x12345, 0x6789)] {
        let dev = ((major & 0xfff) << 8)
            | ((major & !0xfff) << 32)
            | (minor & 0xff)
            | ((minor & !0xff) << 12);
        assert_eq!(dev_major_minor(dev), (major as u32, minor as u32));
    }
}

#[test]
fn pids_are_the_numeric_names_in_order() {
    let names: Vec<String> = ["self", "20", "3", "100", "net", "+7", "4294967296", "3"]
        .iter()
        .map(|name| name.to_string())
        .collect();
    assert_eq!(list_pids(&names), vec![3, 3, 7, 20, 100]);
}

#[test]
fn names_are_resolved_by_the_third_field() {
    assert_eq!(resolve_username(&passwd(), "1000"), Some("rezky".to_owned()));
    assert_eq!(resolve_username(&passwd(), "01000"), None);
    assert_eq!(resolve_username(&None, "0"), None);
}

const TCP: &str = "  sl  local_address rem_address   st\n\
   0: 0100007F:0BB8 00000000:0000 0A 0:0 00:0 0 1000 0 111 1\n\
   1: 0100007F:0050 00000000:0000 0A 0:0 00:0 0 1000 0 222 1\n";

#[test]
fn socket_tables_skip_their_heading() {
    let sockets = parse_proc_net_file(&lines(TCP), Protocol::Tcp).unwrap();
    assert_eq!(sockets.len(), 2);
    assert_eq!(sockets[0].inode, 111);
    assert_eq!(sockets[1].port, 80);
}

#[test]
fn missing_socket_tables_are_passed_over() {
    let missing: FileLines = Err(failure(FailureKind::NotFound, "no table"));
    let sockets = read_proc_net_sockets(
        &lines(TCP),
        &missing,
        &lines("heading\n 0: 0:0BB8 0 0 0 0 0 0 0 333"),
        &missing,
    )
    .unwrap();
    assert_eq!(
        sockets
            .iter()
            .map(|socket| (socket.protocol, socket.inode))
            .collect::<Vec<_>>(),
        vec![
            (Protocol::Tcp, 111),
            (Protocol::Tcp, 222),
            (Protocol::Udp, 333)
        ]
    );
    assert_eq!(
        target_inodes(&sockets, 3000)
            .into_iter()
            .collect::<Vec<_>>(),
        vec![111, 333]
    );

    let denied: FileLines = Err(failure(FailureKind::PermissionDenied, "denied"));
    assert_eq!(
        read_proc_net_sockets(&lines(TCP), &denied, &missing, &missing)
            .unwrap_err()
            .message,
        "denied"
    );
}

#[test]
fn descriptors_of_a_file_are_sorted() {
    let target = FileId { dev: 5, inode: 6 };
    let other = FileId { dev: 5, inode: 7 };
    let listing = Ok(vec![
        listed("9", Ok(target), Some("flags:\t1\n")),
        listed("4", Ok(target), Some("flags:\t2\n")),
        listed("5", Ok(other), None),
        listed("x", Ok(target), None),
        listed("6", Err(FailureKind::NotFound), None),
        FdEntry::Unreadable(FailureKind::Other),
    ]);
    match scan_pid_fds_for_file(&listing, target) {
        ProcRead::Done(fds) => {
            assert_eq!(fds, vec![(4, FdMode::ReadWrite), (9, FdMode::Write)])
        }
        _ => panic!("expected descriptors"),
    }
}

#[test]
fn a_denied_descriptor_hides_all() {
    let target = FileId { dev: 5, inode: 6 };
    let listing = Ok(vec![
        listed("9", Ok(target), None),
        listed("4", Err(FailureKind::PermissionDenied), None),
    ]);
    assert!(matches!(
        scan_pid_fds_for_file(&listing, target),
        ProcRead::PermissionDenied
    ));
    assert!(matches!(
        scan_pid_fds_for_file(&Err(failure(FailureKind::NotFound, "gone")), target),
        ProcRead::Gone
    ));
}

#[test]
fn descriptors_of_sockets_are_found_by_their_links() {
    let inodes: BTreeSet<u64> = [111, 333].into_iter().collect();
    let listing = Ok(vec![
        listed("7", Ok(FilePath::new("socket:[333]")), Some("flags:\t2\n")),
        listed("3", Ok(FilePath::new("socket:[112]")), None),
        listed("2", Ok(FilePath::new("/dev/null")), None),
    ]);
    match scan_pid_fds_for_sockets(&listing, &inodes) {
        ProcRead::Done(fds) => assert_eq!(fds, vec![(7, FdMode::ReadWrite)]),
        _ => panic!("expected descriptors"),
    }
}

#[test]
fn evidence_is_ordered_without_repetition() {
    let perms = MmapPerms {
        read: true,
        write: false,
        execute: false,
        private: true,
    };
    let evidence = order_evidence(
        &vec![
            (9, FdMode::Read),
            (4, FdMode::Write),
            (9, FdMode::Read),
            (4, FdMode::Read),
        ],
        Some(perms),
    );
    assert_eq!(
        evidence,
        vec![
            Evidence::Fd(4, FdMode::Read),
            Evidence::Fd(4, FdMode::Write),
            Evidence::Fd(9, FdMode::Read),
            Evidence::Mmap(perms),
        ]
    );
    let mut sorted = evidence.clone();
    sorted.sort();
    sorted.dedup();
    assert_eq!(evidence, sorted);
}

fn socket_process(pid: u32, link: &str) -> SocketProcess {
    SocketProcess {
        pid,
        fds: Ok(vec![listed(
            "8",
            Ok(FilePath::new(link)),
            Some("flags:\t2\n"),
        )]),
        source: source("node", "1000"),
    }
}

#[test]
fn port_scan_reports_each_holder_once_in_order() {
    let sockets = parse_proc_net_file(&lines(TCP), Protocol::Tcp);
    let processes = vec![
        socket_process(30, "socket:[111]"),
        socket_process(20, "socket:[222]"),
        SocketProcess {
            pid: 25,
            fds: Err(failure(FailureKind::PermissionDenied, "no")),
            source: source("x", "0"),
        },
        socket_process(10, "socket:[111]"),
    ];
    let (holders, stats) = scan_port_holders(3000, &sockets, Ok(processes), &passwd()).unwrap();
    assert_eq!(
        holders.iter().map(|holder| holder.pid).collect::<Vec<_>>(),
        vec![10, 30]
    );
    assert_eq!(holders[0].evidence, vec![Evidence::Fd(8, FdMode::ReadWrite)]);
    assert_eq!(
        stats,
        ScanStats {
            unreadable_processes: 1,
            unreadable_fds: 0,
            unreadable_maps: 0
        }
    );
}

#[test]
fn port_without_sockets_has_no_holders() {
    let sockets = parse_proc_net_file(&lines(TCP), Protocol::Tcp);
    let broken = Err(failure(FailureKind::Other, "never looked at"));
    let (holders, stats) = scan_port_holders(9, &sockets, broken, &passwd()).unwrap();
    assert!(holders.is_empty());
    assert!(!stats.has_unreadable());
}

#[test]
fn port_scan_hands_errors_on() {
    let sockets = Err(failure(FailureKind::Other, "no tables"));
    assert_eq!(
        scan_port_holders(9, &sockets, Ok(vec![]), &None),
        Err(HoldsError("no tables".to_owned()))
    );
    let sockets = parse_proc_net_file(&lines(TCP), Protocol::Tcp);
    assert_eq!(
        scan_port_holders(
            80,
            &sockets,
            Err(failure(FailureKind::Other, "no processes")),
            &None
        ),
        Err(HoldsError("no processes".to_owned()))
    );
    let fatal = SocketProcess {
        pid: 4,
        fds: Err(failure(FailureKind::Other, "input/output error")),
        source: source("x", "0"),
    };
    let inodes: BTreeSet<u64> = [222].into_iter().collect();
    assert_eq!(
        scan_socket_holders(vec![fatal], &inodes, &None),
        Err(HoldsError("input/output error".to_owned()))
    );
}

fn file_process(
    pid: u32,
    fds: Result<Vec<FdEntry<FileId>>, IoFailure>,
    maps: FileLines,
) -> FileProcess {
    FileProcess {
        pid,
        fds,
        maps,
        source: source("app", "0"),
    }
}

#[test]
fn path_scan_joins_descriptors_and_mappings() {
    // Device 8:2, inode 131.
    let target = FileId {
        dev: 0x802,
        inode: 131,
    };
    let mapped = "55d0-55d1 r--p 00000000 08:02 131 /x";
    let processes = vec![
        file_process(
            5,
            Ok(vec![listed("3", Ok(target), Some("flags:\t0\n"))]),
            lines(mapped),
        ),
        // Denied descriptors still leave the mappings.
        file_process(
            4,
            Err(failure(FailureKind::PermissionDenied, "no")),
            lines(mapped),
        ),
        // Denied mappings still leave the descriptors.
        file_process(
            3,
            Ok(vec![listed("7", Ok(target), None)]),
            Err(failure(FailureKind::PermissionDenied, "no")),
        ),
        // A process that ends meanwhile says nothing.
        file_process(
            2,
            Ok(vec![listed("7", Ok(target), None)]),
            Err(failure(FailureKind::NotFound, "gone")),
        ),
        file_process(1, Ok(vec![]), lines("")),
    ];
    let (holders, stats) =
        scan_path_holders(&FilePath::new("/x"), &Ok(target), Ok(processes), &passwd()).unwrap();
    let shown: Vec<(u32, Vec<String>)> = holders
        .iter()
        .map(|holder| {
            (
                holder.pid,
                holder.evidence.iter().map(|e| e.label()).collect(),
            )
        })
        .collect();
    assert_eq!(
        shown,
        vec![
            (3, vec!["fd 7 (?)".to_owned()]),
            (4, vec!["mmap r--p".to_owned()]),
            (5, vec!["fd 3 (r)".to_owned(), "mmap r--p".to_owned()]),
        ]
    );
    assert_eq!(holders[0].user, "root");
    assert_eq!(
        stats,
        ScanStats {
            unreadable_processes: 1,
            unreadable_fds: 0,
            unreadable_maps: 1
        }
    );
}
