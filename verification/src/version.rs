//! The version text.

use crate::text;
use crate::text::{cat6, trim_text};
use vstd::prelude::*;

verus! {

/// The operating system of a build.
#[derive(Debug, Clone, Copy, PartialEq, Eq, Structural)]
pub enum TargetOs {
    Linux,
    Macos,
    Other,
}

/// The processor of a build.
#[derive(Debug, Clone, Copy, PartialEq, Eq, Structural)]
pub enum TargetArch {
    X86_64,
    Aarch64,
    Other,
}

/// The C library of a build.
#[derive(Debug, Clone, Copy, PartialEq, Eq, Structural)]
pub enum TargetEnv {
    Gnu,
    Musl,
    Other,
}

/// What a build is made for.
#[derive(Debug, Clone, Copy, PartialEq, Eq, Structural)]
pub struct BuildTarget {
    pub os: TargetOs,
    pub arch: TargetArch,
    pub env: TargetEnv,
}

impl BuildTarget {
    /// The short name of the target: on Linux with the processor and, where it is known, the
    /// C library.
    pub open spec fn name(self) -> Seq<char> {
        match (self.os, self.arch, self.env) {
            (TargetOs::Linux, TargetArch::X86_64, TargetEnv::Musl) => "linux-amd64-musl"@,
            (TargetOs::Linux, TargetArch::X86_64, TargetEnv::Gnu) => "linux-amd64-gnu"@,
            (TargetOs::Linux, TargetArch::X86_64, TargetEnv::Other) => "linux-amd64"@,
            (TargetOs::Linux, TargetArch::Aarch64, TargetEnv::Musl) => "linux-aarch64-musl"@,
            (TargetOs::Linux, TargetArch::Aarch64, TargetEnv::Gnu) => "linux-aarch64-gnu"@,
            (TargetOs::Linux, TargetArch::Aarch64, TargetEnv::Other) => "linux-aarch64"@,
            (TargetOs::Linux, TargetArch::Other, _) => "unknown"@,
            (TargetOs::Macos, _, _) => "darwin"@,
            (TargetOs::Other, _, _) => "unknown"@,
        }
    }
}

/// The short name of what a build is made for.
pub fn build_label(target: BuildTarget) -> (r: &'static str)
    ensures
        r@ == target.name(),
{
    match (target.os, target.arch, target.env) {
        (TargetOs::Linux, TargetArch::X86_64, TargetEnv::Musl) => "linux-amd64-musl",
        (TargetOs::Linux, TargetArch::X86_64, TargetEnv::Gnu) => "linux-amd64-gnu",
        (TargetOs::Linux, TargetArch::X86_64, TargetEnv::Other) => "linux-amd64",
        (TargetOs::Linux, TargetArch::Aarch64, TargetEnv::Musl) => "linux-aarch64-musl",
        (TargetOs::Linux, TargetArch::Aarch64, TargetEnv::Gnu) => "linux-aarch64-gnu",
        (TargetOs::Linux, TargetArch::Aarch64, TargetEnv::Other) => "linux-aarch64",
        (TargetOs::Linux, TargetArch::Other, _) => "unknown",
        (TargetOs::Macos, _, _) => "darwin",
        (TargetOs::Other, _, _) => "unknown",
    }
}

/// The hash of the build as shown.
pub open spec fn shown_hash(hash: Seq<char>) -> Seq<char> {
    if text::trim(hash).len() == 0 {
        "unknown"@
    } else {
        text::trim(hash)
    }
}

/// The version text of the build with this hash.
pub open spec fn version_lines(hash: Seq<char>, target: BuildTarget) -> Seq<char> {
    "Version: v11.0.0"@ + "\nBuild: "@ + target.name() + " ("@ + shown_hash(hash)
        + ")\nCopyright: (c) 2026 rezky_nightky (oxyzenQ)\nLicense: GPL-3.0-only\nSource: https://github.com/oxyzenQ/zejtron"@
}

/// The version text of the build with this hash.
pub fn version_text(hash: &str, target: BuildTarget) -> (r: String)
    ensures
        r@ == version_lines(hash@, target),
{
    let trimmed = trim_text(hash);
    let shown: &str = if trimmed.as_str().is_empty() {
        "unknown"
    } else {
        trimmed.as_str()
    };
    cat6(
        "Version: v11.0.0",
        "\nBuild: ",
        build_label(target),
        " (",
        shown,
        ")\nCopyright: (c) 2026 rezky_nightky (oxyzenQ)\nLicense: GPL-3.0-only\nSource: https://github.com/oxyzenQ/zejtron",
    )
}

} // verus!
