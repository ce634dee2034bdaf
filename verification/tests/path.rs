use zejtron::clock::Timestamp;
use zejtron::failure::{FailureKind, IoFailure};
use zejtron::filepath::FilePath;
use zejtron::path::packages::{
    package_owner_multi, try_apk, try_dpkg, try_pacman, try_rpm, CommandOutput, PackageReplies,
};
use zejtron::path::report::{
    audit_directory, describe_matches, display_match_path, file_metadata, format_path_report,
    path_audit, DirFacts, FileFacts, FileMeta, PathFacts,
};
use zejtron::path::{
    command_places, find_in_path, is_executable, resolve_symlink_chain, EntryKind, FileMode, Link,
    PathMatch, Probe, SymlinkWalk,
};

fn path(text: &str) -> FilePath {
    FilePath::new(text)
}

fn file(at: &str, canonical: &str) -> Probe {
    Probe {
        path: path(at),
        entry: Ok(EntryKind::File),
        canonical: Some(path(canonical)),
        target: Some(FileMode {
            is_file: true,
            mode: 0o100755,
        }),
        links: vec![],
    }
}

fn link(at: &str, target: &str) -> Link {
    Link {
        path: path(at),
        target: path(target),
    }
}

fn found(at: &str) -> PathMatch {
    PathMatch {
        path: path(at),
        executable: true,
        symlink_chain: Vec::new(),
    }
}

fn ran(success: bool, stdout: &str) -> Option<CommandOutput> {
    Some(CommandOutput {
        success,
        stdout: stdout.as_bytes().to_vec(),
    })
}

fn no_replies() -> PackageReplies {
    PackageReplies {
        pacman: None,
        dpkg: None,
        rpm: None,
        apk: None,
    }
}

fn passwd() -> Option<String> {
    Some("root:x:0:0::/root:/bin/sh\nrezky:x:1000:1000::/home/rezky:/bin/sh\n".to_owned())
}

#[test]
fn finds_all_path_matches_in_order() {
    let path_env = Some(path("/first:/second"));
    let probes = vec![
        file("/second/tool", "/second/tool"),
        file("/first/tool", "/first/tool"),
    ];
    let matches = find_in_path("tool", &path_env, &probes).unwrap();

    assert_eq!(matches.len(), 2);
    assert_eq!(matches[0].path, path("/first/tool"));
    assert_eq!(matches[1].path, path("/second/tool"));
    assert!(matches.iter().all(|path_match| path_match.executable));
}

#[test]
fn duplicate_path_directories_do_not_create_duplicate_matches() {
    let path_env = Some(path("/bin:/bin"));
    let probes = vec![file("/bin/tool", "/usr/bin/tool")];
    let matches = find_in_path("tool", &path_env, &probes).unwrap();

    assert_eq!(matches.len(), 1);
    assert_eq!(matches[0].path, path("/bin/tool"));
}

#[test]
fn equivalent_path_directories_keep_first_display_path() {
    let path_env = Some(path("/root/linked:/root/real"));
    let probes = vec![
        file("/root/linked/tool", "/root/real/tool"),
        file("/root/real/tool", "/root/real/tool"),
    ];
    let matches = find_in_path("tool", &path_env, &probes).unwrap();

    assert_eq!(matches.len(), 1);
    assert_eq!(matches[0].path, path("/root/linked/tool"));
}

#[test]
fn report_uses_duplicates_none_for_single_match() {
    let matches = vec![found("/usr/bin/tool")];

    assert_eq!(
        format_path_report("tool", &matches, false, &vec![], &None),
        "tool\n├── active: /usr/bin/tool\n├── executable: yes\n├── package: unknown\n└── duplicates: none"
    );
}

#[test]
fn report_lists_only_non_active_duplicates() {
    let matches = vec![found("/usr/bin/tool"), found("/home/rezky/.local/bin/tool")];

    assert_eq!(
        format_path_report("tool", &matches, false, &vec![], &None),
        "tool\n├── active: /usr/bin/tool\n├── executable: yes\n├── package: unknown\n└── duplicates:\n    └── /home/rezky/.local/bin/tool\n       ├── executable: yes\n       └── package: unknown"
    );
}

#[test]
fn report_draws_several_duplicates() {
    let mut second = found("/b/tool");
    second.executable = false;
    let matches = vec![found("/a/tool"), second, found("/c/tool")];
    assert_eq!(
        format_path_report("tool", &matches, false, &vec![], &None),
        "tool\n├── active: /a/tool\n├── executable: yes\n├── package: unknown\n└── duplicates:\n    ├── /b/tool\n    │  ├── executable: no\n    │  └── package: unknown\n    └── /c/tool\n       ├── executable: yes\n       └── package: unknown"
    );
}

#[test]
fn resolves_symlink_chain() {
    let path_env = Some(path("/opt/bin"));
    let probes = vec![Probe {
        path: path("/opt/bin/tool"),
        entry: Ok(EntryKind::Symlink),
        canonical: Some(path("/opt/bin/tool-real")),
        target: Some(FileMode {
            is_file: true,
            mode: 0o100755,
        }),
        links: vec![link("/opt/bin/tool", "tool-real")],
    }];
    let matches = find_in_path("tool", &path_env, &probes).unwrap();

    assert_eq!(matches.len(), 1);
    assert_eq!(matches[0].symlink_chain, vec![path("tool-real")]);
    assert!(matches[0].executable);
}

#[test]
fn empty_directories_are_left_out() {
    let places = command_places("tool", &Some(path(":/a::b/:")));
    assert_eq!(places, vec![path("/a/tool"), path("b/tool")]);
    assert!(command_places("tool", &None).is_empty());
    assert!(command_places("tool", &Some(path(""))).is_empty());
    assert_eq!(
        command_places("/bin/sh", &Some(path("/a"))),
        vec![path("/bin/sh")]
    );
}

#[test]
fn search_passes_over_other_entries_and_reports_errors() {
    let path_env = Some(path("/a:/b:/c"));
    let directory = Probe {
        path: path("/a/tool"),
        entry: Ok(EntryKind::Other),
        canonical: None,
        target: None,
        links: vec![],
    };
    let gone = Probe {
        path: path("/b/tool"),
        entry: Err(IoFailure {
            kind: FailureKind::NotFound,
            message: "gone".to_owned(),
        }),
        canonical: None,
        target: None,
        links: vec![],
    };
    assert_eq!(
        find_in_path("tool", &path_env, &vec![directory, gone]),
        Ok(vec![])
    );
    let denied = Probe {
        path: path("/b/tool"),
        entry: Err(IoFailure {
            kind: FailureKind::PermissionDenied,
            message: "denied".to_owned(),
        }),
        canonical: None,
        target: None,
        links: vec![],
    };
    let probes = vec![file("/a/tool", "/a/tool"), denied];
    assert_eq!(
        find_in_path("tool", &path_env, &probes)
            .unwrap_err()
            .message,
        "denied"
    );
}

#[test]
fn broken_links_are_found_and_not_executable() {
    let probe = Probe {
        path: path("/a/tool"),
        entry: Ok(EntryKind::Symlink),
        canonical: None,
        target: None,
        links: vec![link("/a/tool", "/nowhere")],
    };
    let matches = find_in_path("tool", &Some(path("/a")), &vec![probe]).unwrap();
    assert_eq!(matches.len(), 1);
    assert!(!matches[0].executable);
    assert_eq!(matches[0].symlink_chain, vec![path("/nowhere")]);
}

fn dangling(at: &str) -> Probe {
    Probe {
        path: path(at),
        entry: Ok(EntryKind::Symlink),
        canonical: None,
        target: None,
        links: vec![link(at, "gone")],
    }
}

#[test]
fn one_path_in_several_spellings_is_one_match() {
    for (path_env, first, second) in [
        ("/x:/x/.", "/x/t", "/x/./t"),
        ("/x://x", "/x/t", "//x/t"),
        ("//x/./:/x", "//x/./t", "/x/t"),
        ("./x:.//x", "./x/t", ".//x/t"),
    ] {
        let probes = vec![dangling(first), dangling(second)];
        let matches = find_in_path("t", &Some(path(path_env)), &probes).unwrap();
        assert_eq!(matches.len(), 1);
        assert_eq!(matches[0].path.display(), first);
        assert!(!matches[0].executable);
        assert_eq!(matches[0].symlink_chain, vec![path("gone")]);
    }
}

#[test]
fn different_paths_are_different_matches() {
    for (path_env, first, second) in [
        ("/x:/x/y/..", "/x/t", "/x/y/../t"),
        ("x:/x", "x/t", "/x/t"),
        ("x:./x", "x/t", "./x/t"),
        ("/x:/y", "/x/t", "/y/t"),
    ] {
        let probes = vec![dangling(first), dangling(second)];
        let matches = find_in_path("t", &Some(path(path_env)), &probes).unwrap();
        assert_eq!(matches.len(), 2);
        assert_eq!(matches[0].path.display(), first);
        assert_eq!(matches[1].path.display(), second);
    }
}

#[test]
fn paths_are_equal_by_their_names() {
    assert_eq!(path("/x/t"), path("//x/./t/"));
    assert_eq!(path("./x"), path(".//x/."));
    assert_eq!(path(""), path(""));
    assert_ne!(path("x"), path("./x"));
    assert_ne!(path("x"), path("/x"));
    assert_ne!(path("/x"), path("/x/y/.."));
    assert_ne!(path("/x"), path("/x/y"));
    assert!(!path("/x").same(&path("//x")));
}

#[test]
fn execute_bits() {
    assert!(is_executable(0o100));
    assert!(is_executable(0o010));
    assert!(is_executable(0o001));
    assert!(!is_executable(0o100644));
    for mode in 0..0o10000u32 {
        assert_eq!(is_executable(mode), mode & 0o111 != 0);
    }
}

#[test]
fn chains_follow_relative_and_absolute_targets() {
    let links = vec![
        link("/usr/bin/vi", "../lib/vi"),
        link("/usr/bin/../lib/vi", "/opt/vi"),
        link("/opt/vi", "vim"),
    ];
    assert_eq!(
        resolve_symlink_chain(&path("/usr/bin/vi"), &links),
        vec![path("../lib/vi"), path("/opt/vi"), path("vim")]
    );
    assert!(resolve_symlink_chain(&path("/bin/cat"), &links).is_empty());
}

#[test]
fn circular_links_end_after_sixteen() {
    let links = vec![link("/a", "/b"), link("/b", "/a")];
    let chain = resolve_symlink_chain(&path("/a"), &links);
    assert_eq!(chain.len(), 16);
    assert_eq!(chain[0], path("/b"));
    assert_eq!(chain[15], path("/a"));
}

#[test]
fn walk_goes_step_by_step() {
    let mut walk = SymlinkWalk::start(&path("/usr/bin/vi"));
    assert!(walk.is_open());
    walk.follow(path("vim"));
    assert_eq!(walk.current, path("/usr/bin/vim"));
    walk.follow(path("/etc/vim"));
    assert_eq!(walk.current, path("/etc/vim"));
    assert_eq!(walk.chain, vec![path("vim"), path("/etc/vim")]);
}

#[test]
fn long_chains_are_cut_when_shown() {
    let mut shown = found("/a");
    shown.symlink_chain = vec![path("/b"), path("/c"), path("/d")];
    assert_eq!(display_match_path(&shown), "/a -> /b -> /c -> /d");
    shown.symlink_chain.push(path("/e"));
    assert_eq!(display_match_path(&shown), "/a -> /b -> /c -> /d -> ...");
    shown.symlink_chain.clear();
    assert_eq!(display_match_path(&shown), "/a");
}

#[test]
fn package_answers() {
    assert_eq!(try_pacman(&ran(true, "bash\n")), Some("bash".to_owned()));
    assert_eq!(try_pacman(&ran(false, "bash\n")), None);
    assert_eq!(try_pacman(&None), None);
    assert_eq!(
        try_dpkg(&ran(true, "coreutils: /bin/ls\nother: /x\n")),
        Some("coreutils".to_owned())
    );
    assert_eq!(try_dpkg(&ran(true, "")), None);
    assert_eq!(try_dpkg(&ran(true, "\n")), Some(String::new()));
    assert_eq!(try_rpm(&ran(true, "bash")), Some("bash".to_owned()));
    assert_eq!(try_rpm(&ran(true, "package x is not installed")), None);
    assert_eq!(try_rpm(&ran(true, " \n")), None);
    assert_eq!(try_apk(&ran(true, "busybox\n")), Some("busybox".to_owned()));
    let bad = Some(CommandOutput {
        success: true,
        stdout: vec![b'x', 0xc3, b'\n'],
    });
    assert_eq!(try_apk(&bad), Some("x\u{fffd}".to_owned()));
}

#[test]
fn first_package_manager_wins() {
    let mut replies = no_replies();
    assert_eq!(package_owner_multi(&replies), None);
    replies.apk = ran(true, "busybox");
    assert_eq!(
        package_owner_multi(&replies),
        Some("busybox (apk)".to_owned())
    );
    replies.rpm = ran(true, "bash");
    assert_eq!(package_owner_multi(&replies), Some("bash (rpm)".to_owned()));
    replies.dpkg = ran(true, "coreutils: /bin/ls");
    assert_eq!(
        package_owner_multi(&replies),
        Some("coreutils (dpkg)".to_owned())
    );
    replies.pacman = ran(true, "filesystem\n");
    assert_eq!(
        package_owner_multi(&replies),
        Some("filesystem (pacman)".to_owned())
    );
    replies.pacman = ran(false, "error");
    assert_eq!(
        package_owner_multi(&replies),
        Some("coreutils (dpkg)".to_owned())
    );
}

fn facts() -> FileFacts {
    FileFacts {
        size: 1234,
        mode: 0o104755,
        uid: 1000,
        modified: Timestamp::new(1_700_000_000, 3600),
    }
}

#[test]
fn metadata_is_shown() {
    assert_eq!(
        file_metadata(&Some(facts()), &passwd()),
        Some(FileMeta {
            size: 1234,
            owner: "rezky".to_owned(),
            perms: "4755".to_owned(),
            mtime: "2023-11-14 23:13:20".to_owned(),
        })
    );
    assert_eq!(file_metadata(&None, &passwd()), None);
    let mut timeless = facts();
    timeless.modified = None;
    assert_eq!(file_metadata(&Some(timeless), &passwd()), None);
}

#[test]
fn verbose_report_has_metadata_of_the_active_match() {
    let mut replies = no_replies();
    replies.pacman = ran(true, "tools\n");
    let known = vec![PathFacts {
        path: path("/usr/bin/tool"),
        packages: replies,
        file: Some(facts()),
    }];
    let matches = vec![found("/usr/bin/tool")];
    assert_eq!(
        format_path_report("tool", &matches, true, &known, &passwd()),
        "tool\n├── active: /usr/bin/tool\n├── executable: yes\n├── package: tools (pacman)\n├── size: 1234 bytes\n├── owner: rezky\n├── perms: 4755\n├── mtime: 2023-11-14 23:13:20\n└── duplicates: none"
    );
    assert!(!format_path_report("tool", &matches, false, &known, &passwd()).contains("size"));
}

#[test]
fn missing_command_is_reported() {
    assert_eq!(
        format_path_report("tool", &vec![], true, &vec![], &None),
        "command not found in PATH: tool"
    );
}

fn dir(at: &str, mode: u32, uid: u32) -> DirFacts {
    DirFacts {
        path: path(at),
        mode,
        uid,
    }
}

#[test]
fn audit_flags_directories() {
    let dirs = vec![
        dir("/usr/bin", 0o40755, 0),
        dir("/tmp", 0o41777, 0),
        dir("/home/rezky/bin", 0o40755, 1000),
        dir("/shared", 0o40777, 4242),
    ];
    assert_eq!(
        path_audit(
            &path("/usr/bin:/tmp::/home/rezky/bin:/shared:/gone"),
            &dirs,
            &passwd()
        ),
        vec![
            "",
            "PATH audit:",
            "  ✓ /usr/bin",
            "  ⚠ /tmp — world-writable",
            "  ⚠ /home/rezky/bin — owned by rezky (not root)",
            "  ⚠ /shared — world-writable, owned by 4242 (not root)",
            "  ✗ /gone — missing",
        ]
    );
    assert_eq!(
        audit_directory(&path("/usr/bin"), &dirs, &passwd()),
        "  ✓ /usr/bin"
    );
}

#[test]
fn answer_has_the_audit_only_when_verbose() {
    let env = Some(path("/bin"));
    let quiet = describe_matches("x", &env, &vec![], false, &vec![], &vec![], &None);
    assert_eq!(quiet, vec!["command not found in PATH: x"]);
    let verbose = describe_matches("x", &env, &vec![], true, &vec![], &vec![], &None);
    assert_eq!(
        verbose,
        vec![
            "command not found in PATH: x",
            "",
            "PATH audit:",
            "  ✗ /bin — missing"
        ]
    );
    let unset = describe_matches("x", &None, &vec![], true, &vec![], &vec![], &None);
    assert_eq!(unset.len(), 1);
}
