use zejtron::version::{build_label, version_text, BuildTarget, TargetArch, TargetEnv, TargetOs};

fn target() -> BuildTarget {
    BuildTarget {
        os: TargetOs::Linux,
        arch: TargetArch::X86_64,
        env: TargetEnv::Gnu,
    }
}

#[test]
fn formats_version_with_hash() {
    assert_eq!(
        version_text("abc123", target()),
        format!(
            "Version: v{}\nBuild: {} (abc123)\nCopyright: (c) 2026 rezky_nightky (oxyzenQ)\nLicense: GPL-3.0-only\nSource: https://github.com/oxyzenQ/zejtron",
            "11.0.0",
            build_label(target())
        )
    );
}

#[test]
fn has_five_lines() {
    assert_eq!(version_text("abc123", target()).lines().count(), 5);
}

#[test]
fn falls_back_to_unknown_for_empty_hash() {
    assert_eq!(
        version_text("  ", target()),
        format!(
            "Version: v{}\nBuild: {} (unknown)\nCopyright: (c) 2026 rezky_nightky (oxyzenQ)\nLicense: GPL-3.0-only\nSource: https://github.com/oxyzenQ/zejtron",
            "11.0.0",
            build_label(target())
        )
    );
}

#[test]
fn build_label_detects_libc_variant() {
    let label = build_label(target());
    assert!(
        label.ends_with("-gnu") || label.ends_with("-musl"),
        "build_label must include libc variant (-gnu/-musl), got: {label}"
    );
}

#[test]
fn build_labels() {
    let label = |os, arch, env| build_label(BuildTarget { os, arch, env });
    assert_eq!(
        label(TargetOs::Linux, TargetArch::X86_64, TargetEnv::Musl),
        "linux-amd64-musl"
    );
    assert_eq!(
        label(TargetOs::Linux, TargetArch::X86_64, TargetEnv::Gnu),
        "linux-amd64-gnu"
    );
    assert_eq!(
        label(TargetOs::Linux, TargetArch::X86_64, TargetEnv::Other),
        "linux-amd64"
    );
    assert_eq!(
        label(TargetOs::Linux, TargetArch::Aarch64, TargetEnv::Musl),
        "linux-aarch64-musl"
    );
    assert_eq!(
        label(TargetOs::Linux, TargetArch::Aarch64, TargetEnv::Gnu),
        "linux-aarch64-gnu"
    );
    assert_eq!(
        label(TargetOs::Linux, TargetArch::Aarch64, TargetEnv::Other),
        "linux-aarch64"
    );
    assert_eq!(
        label(TargetOs::Linux, TargetArch::Other, TargetEnv::Gnu),
        "unknown"
    );
    assert_eq!(
        label(TargetOs::Macos, TargetArch::Aarch64, TargetEnv::Other),
        "darwin"
    );
    assert_eq!(
        label(TargetOs::Other, TargetArch::X86_64, TargetEnv::Gnu),
        "unknown"
    );
}

#[test]
fn hash_is_trimmed() {
    assert!(version_text(" \tdeadbeef\n", target()).contains(" (deadbeef)\n"));
}
