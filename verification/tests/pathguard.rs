use zejtron::filepath::FilePath;
use zejtron::pathguard::{
    canonical_for_compare, is_dangerous, is_in_directory, lexical_normalize, resolve_state_dir,
    state_base, state_candidate, OnDisk,
};

fn path(text: &str) -> FilePath {
    FilePath::new(text)
}

fn some(text: &str) -> Option<FilePath> {
    Some(FilePath::new(text))
}

const HOME: &str = "/home/testuser";

/// Nothing exists on disk.
fn nothing() -> OnDisk {
    OnDisk {
        home: None,
        base: None,
        directory: None,
    }
}

/// The base directory and the state directory resolve to these paths.
fn resolving(base: &str, directory: &str) -> OnDisk {
    OnDisk {
        home: some(HOME),
        base: some(base),
        directory: some(directory),
    }
}

#[test]
fn test_lexical_normalize_collapses_dots() {
    let n = lexical_normalize(&path("/home/user/.local/share/zejtron/../other")).unwrap();
    assert_eq!(n, path("/home/user/.local/share/other"));
}

#[test]
fn test_default_state_dir_under_home() {
    let dir = resolve_state_dir(&None, &some(HOME), &nothing()).unwrap();
    assert_eq!(dir, path("/home/testuser/.local/share/zejtron"));
}

#[test]
fn test_xdg_data_home_respected_when_safe() {
    let dir = resolve_state_dir(&some("/custom/xdg"), &some(HOME), &nothing()).unwrap();
    assert_eq!(dir, path("/custom/xdg/zejtron"));
}

#[test]
fn test_xdg_to_etc_is_blocked() {
    let r = resolve_state_dir(&some("/etc"), &some(HOME), &nothing());
    assert!(r.is_err(), "XDG_DATA_HOME=/etc must be blocked");
    assert!(r.unwrap_err().contains("pathguard"));
}

#[test]
fn test_xdg_to_user_ssh_is_blocked() {
    let r = resolve_state_dir(&some("/home/testuser/.ssh"), &some(HOME), &nothing());
    assert!(r.is_err(), "XDG_DATA_HOME=~/.ssh must be blocked");
}

#[test]
fn test_xdg_to_var_is_blocked() {
    assert!(resolve_state_dir(&some("/var/lib"), &some(HOME), &nothing()).is_err());
}

#[test]
fn test_xdg_to_proc_sys_dev_blocked() {
    for p in [
        "/proc", "/sys", "/dev", "/boot", "/root", "/usr", "/bin", "/sbin", "/lib",
    ] {
        assert!(
            resolve_state_dir(&some(p), &some(HOME), &nothing()).is_err(),
            "XDG_DATA_HOME={p} must be blocked"
        );
    }
}

#[test]
fn test_dangerous_paths_detected() {
    let home = some(HOME);
    assert!(is_dangerous(&path("/etc/passwd"), &home));
    assert!(is_dangerous(&path("/etc/zejtron/env/x.env"), &home));
    assert!(is_dangerous(&path("/usr/bin/bash"), &home));
    assert!(is_dangerous(&path("/var/log/x"), &home));
    assert!(is_dangerous(&path("/boot/vmlinuz"), &home));
    assert!(is_dangerous(&path("/root/.bashrc"), &home));
    assert!(is_dangerous(&path("/proc/self/status"), &home));
    assert!(is_dangerous(&path("/sys/kernel"), &home));
    assert!(is_dangerous(&path("/dev/null"), &home));
    assert!(is_dangerous(&path("/home/testuser/.ssh/id_rsa"), &home));
    assert!(is_dangerous(
        &path("/home/testuser/.gnupg/secring.gpg"),
        &home
    ));
    // Not dangerous — valid state location
    assert!(!is_dangerous(
        &path("/home/testuser/.local/share/zejtron/env/x.env"),
        &home
    ));
    assert!(!is_dangerous(&path("/custom/xdg/zejtron"), &home));
}

#[test]
fn test_missing_home_without_xdg_errors() {
    let r = resolve_state_dir(&None, &None, &nothing());
    assert!(r.is_err());
    assert!(r.unwrap_err().contains("HOME is required"));
}

#[test]
fn empty_variables_are_unset() {
    assert_eq!(
        state_base(&some(""), &some(HOME)),
        Ok(path("/home/testuser/.local/share"))
    );
    assert_eq!(
        state_base(&some(""), &some("")),
        Err("HOME is required when XDG_DATA_HOME is not set".to_owned())
    );
    assert_eq!(state_base(&some("/x/"), &None), Ok(path("/x/")));
    assert_eq!(state_candidate(&path("/x/")).display(), "/x/zejtron");
}

#[test]
fn protected_place_on_disk_is_refused() {
    for place in ["/etc/zejtron", "/etc", "/usr", "/home/testuser/.ssh"] {
        assert_eq!(
            resolve_state_dir(&some("/tmp/x"), &some(HOME), &resolving("/tmp/x", place)),
            Err(format!(
                "zejtron state directory resolves to a protected path (blocked by pathguard): {place}"
            ))
        );
    }
}

#[test]
fn protected_place_is_refused_though_it_leads_elsewhere() {
    assert_eq!(
        resolve_state_dir(
            &some("/etc"),
            &some(HOME),
            &resolving("/data", "/data/zejtron")
        ),
        Err(
            "zejtron state directory resolves to a protected path (blocked by pathguard): /etc/zejtron"
                .to_owned()
        )
    );
}

#[test]
fn base_that_leads_to_a_protected_place_is_refused() {
    let disk = OnDisk {
        home: None,
        base: some("/etc"),
        directory: None,
    };
    assert_eq!(
        resolve_state_dir(&some("/tmp/x"), &some(HOME), &disk),
        Err(
            "zejtron state directory resolves to a protected path (blocked by pathguard): /etc/zejtron"
                .to_owned()
        )
    );
}

#[test]
fn directory_that_leads_elsewhere_is_refused() {
    assert_eq!(
        resolve_state_dir(
            &some("/custom"),
            &some(HOME),
            &resolving("/custom", "/mnt/e")
        ),
        Err(
            "zejtron state directory resolves to an unexpected path (blocked by pathguard): /mnt/e"
                .to_owned()
        )
    );
}

#[test]
fn directory_where_its_base_resolves_to_is_accepted() {
    assert_eq!(
        resolve_state_dir(
            &some("/custom"),
            &some(HOME),
            &resolving("/mnt/data", "/mnt/data/zejtron")
        ),
        Ok(path("/mnt/data/zejtron"))
    );
}

#[test]
fn home_that_is_a_link_still_protects_its_stores() {
    let disk = OnDisk {
        home: some("/data/u"),
        base: some("/data/u/.ssh"),
        directory: None,
    };
    assert!(resolve_state_dir(&some("/data/u/.ssh"), &some("/home/u"), &disk).is_err());
    assert!(resolve_state_dir(&some("/home/u/.ssh"), &some("/home/u"), &disk).is_err());
}

#[test]
fn dots_do_not_lead_around_the_guard() {
    assert!(resolve_state_dir(&some("/custom/../etc"), &some(HOME), &nothing()).is_err());
    assert!(resolve_state_dir(&some("/../..//etc/."), &some(HOME), &nothing()).is_err());
}

#[test]
fn normal_forms() {
    let normal = |text: &str| lexical_normalize(&path(text)).map(|p| p.display());
    assert_eq!(normal("/"), Some("/".to_owned()));
    assert_eq!(normal("/.."), Some("/".to_owned()));
    assert_eq!(normal("//a//b/"), Some("/a/b".to_owned()));
    assert_eq!(normal("./a/./b/.."), Some("a".to_owned()));
    assert_eq!(normal("../a"), Some("a".to_owned()));
    assert_eq!(normal("a/.."), None);
    assert_eq!(normal(""), None);
    assert_eq!(normal("."), None);
    assert_eq!(normal("/a/...b"), Some("/a/...b".to_owned()));
}

#[test]
fn normal_forms_stay_as_they_are() {
    for text in ["/", "/a/b/../c", "x/./y//z/../..", "/a/../../b", "...", "//"] {
        let once = lexical_normalize(&path(text)).unwrap();
        assert!(lexical_normalize(&once).unwrap().same(&once));
    }
}

#[test]
fn relative_path_without_a_normal_form_is_kept() {
    assert_eq!(canonical_for_compare(&path("a/.."), &None).display(), "a/..");
    assert_eq!(canonical_for_compare(&path("a/./b"), &None).display(), "a/b");
    assert_eq!(
        canonical_for_compare(&path("a"), &some("/r/a")).display(),
        "/r/a"
    );
}

#[test]
fn credential_stores_need_a_home() {
    let dangerous = |text: &str, home: &str| is_dangerous(&path(text), &some(home));
    assert!(dangerous("/h/.local/share/keyrings/x", "/h"));
    assert!(dangerous("/h/.kwallet/x", "/h"));
    assert!(!dangerous("/.ssh/x", ""));
    assert!(!is_dangerous(&path("/h/.ssh/x"), &None));
    assert!(dangerous("/lib64/x", ""));
    assert!(!dangerous("relative/etc/", "/h"));
    assert!(!dangerous("/h/.sshd/x", "/h"));
    assert!(!dangerous("/etcetera/x", "/h"));
    assert!(!dangerous("/h/.local/share/x", "/h"));
}

#[test]
fn protected_directories_themselves_are_protected() {
    for dir in [
        "/etc", "/usr", "/var", "/bin", "/sbin", "/lib", "/lib64", "/boot", "/root", "/proc",
        "/sys", "/dev",
    ] {
        assert!(is_dangerous(&path(dir), &None));
        assert!(is_dangerous(&path(&format!("{dir}/")), &None));
        assert!(is_dangerous(&path(&format!("{dir}/../x")), &None));
    }
    for sub in [".ssh", ".gnupg", ".kwallet", ".local/share/keyrings"] {
        assert!(is_dangerous(&path(&format!("/h/{sub}")), &some("/h")));
    }
}

#[test]
fn home_protects_however_it_is_written() {
    for home in [
        "/home/testuser",
        "/home/testuser/",
        "/home//testuser",
        "/home/./testuser/.",
        "/home/other/../testuser",
    ] {
        assert!(is_dangerous(
            &path("/home/testuser/.ssh/id_rsa"),
            &some(home)
        ));
        assert!(resolve_state_dir(&some("/home/testuser/.gnupg"), &some(home), &nothing()).is_err());
    }
}

#[test]
fn directories_hold_what_is_below() {
    assert!(is_in_directory(&path("/a/b"), &path("/a")));
    assert!(is_in_directory(&path("/a"), &path("/a/")));
    assert!(is_in_directory(&path("/x/../a/b"), &path("/a")));
    assert!(!is_in_directory(&path("/ab"), &path("/a")));
    assert!(!is_in_directory(&path("a/b"), &path("/a")));
    assert!(!is_in_directory(&path("/"), &path("/a")));
}

#[test]
fn state_directory_is_named_after_the_program() {
    for base in ["/a", "/a/", "a/../..", "/..", "./x//", "/a/b/.."] {
        let dir = resolve_state_dir(&some(base), &some(HOME), &nothing()).unwrap();
        assert!(dir.display().ends_with("zejtron"));
        assert!(!dir.display().contains(".."));
    }
}
