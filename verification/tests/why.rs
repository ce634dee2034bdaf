use zejtron::clock::Timestamp;
use zejtron::failure::{FailureKind, IoFailure};
use zejtron::filepath::FilePath;
use zejtron::holds::{Evidence, FdMode, Holder, HoldsError, MmapPerms, ScanStats, Target};
use zejtron::touch::{EvidenceSource, ProcessEvidence, TouchInfo, TouchMeta};
use zejtron::why::{
    enrich, explain_path, explain_port, format_no_visible_port_reason, format_path_holder_reason,
    format_path_synthesis, format_path_touch_reason, format_port_holder_reason,
    format_port_synthesis, parse_target, summarize_path_evidence, synthesize_path_explanation,
    synthesize_port_explanation, EnrichedHolder, HolderFiles, WhyError,
};

fn holder(pid: u32, name: &str, evidence: Vec<Evidence>) -> Holder {
    Holder {
        pid,
        name: name.to_owned(),
        user: "rezky".to_owned(),
        cwd: Some("/home/rezky/project".to_owned()),
        evidence,
    }
}

fn quiet_stats() -> ScanStats {
    ScanStats::default()
}

fn loud_stats() -> ScanStats {
    ScanStats {
        unreadable_processes: 1,
        unreadable_fds: 0,
        unreadable_maps: 0,
    }
}

fn moment() -> Timestamp {
    Timestamp::new(1_700_000_000, 0).unwrap()
}

fn touched(source: EvidenceSource, actor: &str, process: Option<ProcessEvidence>) -> TouchInfo {
    TouchInfo {
        path: "/tmp/example".to_owned(),
        modified: moment(),
        source,
        actor: actor.to_owned(),
        process,
        meta: None,
    }
}

fn enriched(holder: Holder, unit: Option<&str>, cmdline: Option<&str>) -> EnrichedHolder {
    EnrichedHolder {
        holder,
        systemd_unit: unit.map(str::to_owned),
        cmdline: cmdline.map(str::to_owned),
    }
}

#[test]
fn why_target_detection_valid_port() {
    assert_eq!(parse_target("53").unwrap(), Target::Port(53));
    assert_eq!(parse_target("65535").unwrap(), Target::Port(65535));
}

#[test]
fn why_target_detection_invalid_port() {
    assert_eq!(parse_target("0").unwrap_err().message(), "invalid port: 0");
    assert_eq!(
        parse_target("65536").unwrap_err().message(),
        "invalid port: 65536"
    );
}

#[test]
fn why_target_detection_path() {
    assert_eq!(
        parse_target("/tmp/file with spaces").unwrap(),
        Target::Path(FilePath::new("/tmp/file with spaces"))
    );
    assert_eq!(
        parse_target("abc").unwrap(),
        Target::Path(FilePath::new("abc"))
    );
}

#[test]
fn renders_port_reason_with_holder() {
    let output =
        format_port_holder_reason(3000, &vec![holder(1234, "node", vec![])], &quiet_stats());

    assert!(output.contains(":3000"));
    assert!(output.contains("reason: port is open because a process owns this socket"));
    assert!(output.contains("holder: node pid=1234 user=rezky"));
    assert!(output.contains("cwd /home/rezky/project"));
    assert!(output.contains("evidence: socket inode matched from /proc"));
    assert!(output.contains("1 reason"));
}

#[test]
fn renders_port_no_visible_holder_with_unreadable_note() {
    let output = format_no_visible_port_reason(53);

    assert!(output.contains(":53"));
    assert!(output.contains("reason: no visible holder found"));
    assert!(output.contains("process details may be incomplete"));
    assert!(output.contains("try sudo for complete explanation"));
}

#[test]
fn renders_no_port_reason() {
    assert_eq!(
        explain_port(3000, Ok((vec![], quiet_stats())), &vec![]).unwrap(),
        "No reason found for port 3000."
    );
}

#[test]
fn renders_path_reason_with_holder_evidence() {
    let output = format_path_holder_reason(
        "/tmp/example",
        &vec![holder(1234, "nano", vec![Evidence::Fd(12, FdMode::Read)])],
        &quiet_stats(),
    );

    assert!(output.contains("reason: path is open because a process references it"));
    assert!(output.contains("holder: nano pid=1234 user=rezky"));
    assert!(output.contains("fd 12"));
    assert!(output.contains("evidence: /proc/<pid>/fd link matched this path"));
    assert!(output.contains("1 reason"));
    assert_eq!(
        output,
        "/tmp/example\n├── reason: path is open because a process references it\n├── holder: nano pid=1234 user=rezky\n│   └── fd 12 (r)\n└── evidence: /proc/<pid>/fd link matched this path\n\n1 reason"
    );
}

#[test]
fn renders_path_metadata_fallback() {
    let output =
        format_path_touch_reason(&touched(EvidenceSource::Metadata, "unknown", None));

    assert!(output.contains("reason: path exists and has modification evidence"));
    assert!(output.contains("source: filesystem metadata"));
    assert!(output.contains("actor: unknown"));
    assert!(output.contains("not who changed it"));
    assert!(!output.contains("try sudo for complete explanation"));
}

#[test]
fn renders_path_journal_evidence() {
    let output = format_path_touch_reason(&touched(
        EvidenceSource::Journal,
        "rezky",
        Some(ProcessEvidence {
            name: "sudo".to_owned(),
            pid: Some(230261),
        }),
    ));

    assert!(output.contains("reason: path has recent modification evidence"));
    assert!(output.contains("source: journal evidence"));
    assert!(output.contains("process: sudo pid=230261"));
    assert!(output.contains("best-effort"));
}

#[test]
fn touch_reason_shows_the_local_time() {
    let mut info = touched(EvidenceSource::Audit, "rezky", None);
    info.modified = Timestamp::new(1_700_000_000, -3600).unwrap();
    let output = format_path_touch_reason(&info);
    assert!(output.contains("├── modified: 2023-11-14 21:13:20\n"));
    assert!(output.contains("└── actor: rezky\n"));
}

fn missing() -> Result<(), IoFailure> {
    Err(IoFailure {
        kind: FailureKind::NotFound,
        message: "No such file or directory (os error 2)".to_owned(),
    })
}

#[test]
fn why_missing_path_error_is_clean() {
    let path = FilePath::new("/tmp/scratch/missing");

    assert_eq!(
        explain_path(
            &path,
            &missing(),
            Ok((vec![], quiet_stats())),
            &None,
            &vec![]
        )
        .unwrap_err()
        .message(),
        format!("path not found: {}", path.display())
    );
}

#[test]
fn why_broken_symlink_error_is_clean() {
    let link = FilePath::new("/tmp/scratch/broken");

    assert_eq!(
        explain_path(
            &link,
            &missing(),
            Ok((vec![], quiet_stats())),
            &None,
            &vec![]
        )
        .unwrap_err()
        .message(),
        format!("path not found: {}", link.display())
    );
}

#[test]
fn other_failures_keep_their_message() {
    let path = FilePath::new("/root/x");
    let denied = Err(IoFailure {
        kind: FailureKind::PermissionDenied,
        message: "Permission denied (os error 13)".to_owned(),
    });
    assert_eq!(
        explain_path(&path, &denied, Ok((vec![], quiet_stats())), &None, &vec![]),
        Err(WhyError(
            "/root/x: Permission denied (os error 13)".to_owned()
        ))
    );
    assert_eq!(
        explain_path(
            &path,
            &Ok(()),
            Err(HoldsError("scan failed".to_owned())),
            &None,
            &vec![]
        ),
        Err(WhyError("scan failed".to_owned()))
    );
    assert_eq!(
        explain_port(1, Err(HoldsError("scan failed".to_owned())), &vec![]),
        Err(WhyError("scan failed".to_owned()))
    );
}

#[test]
fn path_with_spaces_works() {
    let path = FilePath::new("/tmp/scratch/file with spaces");
    let touch = Some(touched(EvidenceSource::Metadata, "unknown", None));

    let output = explain_path(
        &path,
        &Ok(()),
        Ok((vec![], quiet_stats())),
        &touch,
        &vec![],
    )
    .unwrap();

    assert!(output.contains(&path.display()));
}

#[test]
fn path_without_evidence_has_no_reason() {
    let path = FilePath::new("/tmp/x");
    assert_eq!(
        explain_path(&path, &Ok(()), Ok((vec![], loud_stats())), &None, &vec![]).unwrap(),
        "No reason found for '/tmp/x'."
    );
}

#[test]
fn wording_does_not_overclaim() {
    let output =
        format_path_touch_reason(&touched(EvidenceSource::Metadata, "unknown", None));

    assert!(!output.contains("definitely"));
    assert!(!output.contains("malicious"));
}

#[test]
fn permission_note_is_not_added_to_metadata_explanation() {
    let output =
        format_path_touch_reason(&touched(EvidenceSource::Metadata, "unknown", None));

    assert!(!output.contains("try sudo for complete explanation"));
}

#[test]
fn permission_note_is_added_once_for_holder_explanation() {
    let stats = ScanStats {
        unreadable_processes: 1,
        unreadable_fds: 2,
        unreadable_maps: 3,
    };
    let output = format_path_holder_reason(
        "/tmp/example",
        &vec![holder(1234, "nano", vec![Evidence::Fd(12, FdMode::Read)])],
        &stats,
    );

    assert_eq!(
        output
            .matches("note: some processes were not readable; try sudo for complete explanation")
            .count(),
        1
    );
}

#[test]
fn stable_summary_count_for_multiple_holders() {
    let output = format_path_holder_reason(
        "/tmp/example",
        &vec![
            holder(1111, "nano", vec![Evidence::Fd(4, FdMode::Read)]),
            holder(
                2222,
                "vim",
                vec![Evidence::Mmap(MmapPerms {
                    read: true,
                    write: false,
                    execute: false,
                    private: true,
                })],
            ),
        ],
        &quiet_stats(),
    );

    assert!(output.contains("2 reasons"));
    assert!(output.contains("/proc/<pid>/fd link or maps entry matched this path"));
}

#[test]
fn port_with_unreadable_processes_says_so() {
    assert_eq!(
        explain_port(53, Ok((vec![], loud_stats())), &vec![]).unwrap(),
        format_no_visible_port_reason(53)
    );
}

#[test]
fn port_is_explained_from_unit_and_command_line() {
    let files = vec![HolderFiles {
        pid: 10,
        cgroup: Some("0::/system.slice/nginx.service\n".to_owned()),
        cmdline: Some(b"nginx\0-g\0daemon off;\0".to_vec()),
    }];
    let output = explain_port(
        80,
        Ok((vec![holder(10, "nginx", vec![])], loud_stats())),
        &files,
    )
    .unwrap();
    assert_eq!(
        output,
        ":80\n├── reason: nginx (pid=10) owned by nginx.service owns this socket\n├── holder: nginx pid=10 user=rezky unit=nginx.service\n│   ├── cmd: nginx -g daemon off;\n│   └── cwd /home/rezky/project\n└── evidence: socket inode matched from /proc/<pid>/fd\n\n1 reason\n\nnote: some processes were not readable; try sudo for complete explanation"
    );
}

#[test]
fn command_that_is_the_name_is_not_repeated() {
    let list = vec![enriched(holder(1, "init", vec![]), None, Some("init"))];
    assert!(!format_port_synthesis(1, &list, &quiet_stats()).contains("cmd:"));
    let list = vec![enriched(holder(1, "init", vec![]), None, Some(""))];
    assert!(!format_port_synthesis(1, &list, &quiet_stats()).contains("cmd:"));
}

#[test]
fn several_holders_are_summed_up() {
    let node = |pid| enriched(holder(pid, "node", vec![]), None, None);
    assert_eq!(synthesize_port_explanation(&vec![]), "no visible holder found");
    assert_eq!(
        synthesize_port_explanation(&vec![node(1)]),
        "node (pid=1) owns this socket"
    );
    assert_eq!(
        synthesize_port_explanation(&vec![node(1), node(2)]),
        "2 processes named 'node' share this socket"
    );
    let bun = enriched(holder(3, "bun", vec![]), None, None);
    assert_eq!(
        synthesize_port_explanation(&vec![node(1), bun, node(2)]),
        "3 processes (node, bun) share this socket"
    );
}

#[test]
fn path_explanations_combine_holders_and_records() {
    let nano = |pid| enriched(holder(pid, "nano", vec![]), None, None);
    let vim = enriched(holder(7, "vim", vec![]), None, None);
    let known = Some(touched(EvidenceSource::Audit, "rezky", None));
    let unknown = Some(touched(EvidenceSource::Metadata, "unknown", None));
    assert_eq!(
        synthesize_path_explanation(&vec![nano(1), nano(2)], &known),
        "currently held by nano (pid=1), last modified by rezky"
    );
    assert_eq!(
        synthesize_path_explanation(&vec![nano(1)], &unknown),
        "currently held by nano (pid=1), modification time on record"
    );
    assert_eq!(
        synthesize_path_explanation(&vec![nano(1)], &None),
        "currently held by nano (pid=1)"
    );
    assert_eq!(
        synthesize_path_explanation(&vec![nano(1), vim], &None),
        "2 processes (nano, vim) hold this path"
    );
    assert_eq!(
        synthesize_path_explanation(&vec![], &known),
        "last modified by rezky (audit evidence)"
    );
    assert_eq!(
        synthesize_path_explanation(&vec![], &unknown),
        "path exists with filesystem metadata only"
    );
    assert_eq!(
        synthesize_path_explanation(&vec![], &None),
        "no evidence found"
    );
}

#[test]
fn path_synthesis_shows_everything() {
    let mut info = touched(
        EvidenceSource::Journal,
        "rezky",
        Some(ProcessEvidence {
            name: "sudo".to_owned(),
            pid: None,
        }),
    );
    info.meta = Some(TouchMeta {
        file_type: "file".to_owned(),
        size: 12,
        perms_octal: "0644".to_owned(),
        modified: moment(),
        changed: Timestamp::new(0, 0).unwrap(),
    });
    let list = vec![enriched(
        holder(9, "nano", vec![Evidence::Fd(3, FdMode::Write)]),
        Some("session-1.scope"),
        None,
    )];
    assert_eq!(
        format_path_synthesis("/tmp/example", &list, &Some(info), &quiet_stats()),
        "/tmp/example\n├── reason: currently held by nano (pid=9), last modified by rezky\n├── holders (1):\n│   ├── nano pid=9 user=rezky unit=session-1.scope\n│   │   ├── fd 3 (w)\n├── metadata:\n│   ├── type: file\n│   ├── size: 12 bytes\n│   ├── perms: 0644\n│   ├── modified: 2023-11-14 22:13:20\n│   └── changed:  1970-01-01 00:00:00\n├── actor: rezky (journal evidence)\n│   └── process: sudo\n└── evidence: /proc/<pid>/fd link matched this path\n\n2 reasons"
    );
}

#[test]
fn path_synthesis_without_holders_rests_on_metadata() {
    let info = touched(EvidenceSource::Metadata, "unknown", None);
    assert_eq!(
        format_path_synthesis("/tmp/example", &vec![], &Some(info), &quiet_stats()),
        "/tmp/example\n├── reason: path exists with filesystem metadata only\n├── metadata:\n│   └── modified: 2023-11-14 22:13:20\n└── evidence: filesystem metadata\n\n1 reason"
    );
}

#[test]
fn evidence_is_summed_up_by_kind() {
    let mmap = Evidence::Mmap(MmapPerms {
        read: true,
        write: true,
        execute: false,
        private: false,
    });
    let fd = Evidence::Fd(1, FdMode::Read);
    assert_eq!(
        summarize_path_evidence(&vec![holder(1, "a", vec![mmap])]),
        "/proc/<pid>/maps entry matched this path"
    );
    assert_eq!(
        summarize_path_evidence(&vec![holder(1, "a", vec![fd])]),
        "/proc/<pid>/fd link matched this path"
    );
    assert_eq!(
        summarize_path_evidence(&vec![holder(1, "a", vec![])]),
        "procfs matched this path"
    );
}

#[test]
fn holders_are_enriched_by_their_number() {
    let files = vec![
        HolderFiles {
            pid: 2,
            cgroup: None,
            cmdline: Some(b"b\0".to_vec()),
        },
        HolderFiles {
            pid: 2,
            cgroup: Some("0::/x.service".to_owned()),
            cmdline: None,
        },
    ];
    let list = enrich(vec![holder(1, "a", vec![]), holder(2, "b", vec![])], &files);
    assert_eq!(list[0].systemd_unit, None);
    assert_eq!(list[0].cmdline, None);
    assert_eq!(list[1].systemd_unit, None);
    assert_eq!(list[1].cmdline.as_deref(), Some("b"));
}

#[test]
fn missed_reads_add_the_note_to_a_path_explanation() {
    let note = "\n\nnote: some processes were not readable; try sudo for complete explanation";
    let info = || touched(EvidenceSource::Metadata, "unknown", None);
    let one = vec![enriched(
        holder(9, "nano", vec![Evidence::Fd(3, FdMode::Write)]),
        None,
        None,
    )];
    for (list, touch, count) in [
        (&vec![], Some(info()), "\n\n1 reason"),
        (&one, None, "\n\n1 reason"),
        (&one, Some(info()), "\n\n2 reasons"),
    ] {
        let quiet = format_path_synthesis("/tmp/example", list, &touch, &quiet_stats());
        let loud = format_path_synthesis("/tmp/example", list, &touch, &loud_stats());
        assert!(quiet.ends_with(count));
        assert_eq!(loud, format!("{quiet}{note}"));
    }
}

#[test]
fn missed_reads_add_the_note_to_a_port_explanation() {
    let note = "\n\nnote: some processes were not readable; try sudo for complete explanation";
    let list = vec![
        enriched(holder(9, "nginx", vec![]), None, None),
        enriched(holder(10, "nginx", vec![]), None, None),
    ];
    let quiet = format_port_synthesis(80, &list, &quiet_stats());
    let loud = format_port_synthesis(80, &list, &loud_stats());
    assert!(quiet.ends_with("\n\n2 reasons"));
    assert_eq!(loud, format!("{quiet}{note}"));
}
