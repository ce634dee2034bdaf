//! Which package a file belongs to, from what the package managers answer.

use crate::bytes;
use crate::bytes::lossy_text;
use crate::process;
use crate::text;
use crate::text::{cat2, contains_text, split_lines, split_on, trim_text};
use vstd::prelude::*;

verus! {

/// What a command that ran has left behind.
#[derive(Debug)]
pub struct CommandOutput {
    pub success: bool,
    pub stdout: Vec<u8>,
}

/// The text that a command printed, if it ran and succeeded.
pub open spec fn printed(output: Option<CommandOutput>) -> Option<Seq<char>> {
    match output {
        Some(out) => if out.success {
            Some(bytes::lossy(out.stdout@))
        } else {
            None
        },
        None => None,
    }
}

/// What the package managers answer about a file; a manager that is not there or was not
/// asked has no answer.
#[derive(Debug)]
pub struct PackageReplies {
    /// The answer of `pacman -Qo --quiet`.
    pub pacman: Option<CommandOutput>,
    /// The answer of `dpkg -S --`.
    pub dpkg: Option<CommandOutput>,
    /// The answer of `rpm -qf --queryformat %{NAME}`.
    pub rpm: Option<CommandOutput>,
    /// The answer of `apk info --who-owns --quiet`.
    pub apk: Option<CommandOutput>,
}

/// The package in an answer that is its name and nothing else.
pub open spec fn whole_answer(answer: Option<Seq<char>>) -> Option<Seq<char>> {
    match answer {
        Some(s) => Some(text::trim(s)),
        None => None,
    }
}

/// The package in an answer of the form `package: path`: what stands before the first colon
/// of the first line.
pub open spec fn first_field(answer: Option<Seq<char>>) -> Option<Seq<char>> {
    match answer {
        Some(s) => if text::lines(s).len() > 0 {
            Some(text::trim(text::split(text::lines(s)[0], ':')[0]))
        } else {
            None
        },
        None => None,
    }
}

/// The package in an answer that can also be a remark that there is none.
pub open spec fn installed(answer: Option<Seq<char>>) -> Option<Seq<char>> {
    match answer {
        Some(s) => if text::trim(s).len() == 0 || text::occurs(
            text::trim(s),
            "not installed"@,
        ) {
            None
        } else {
            Some(text::trim(s))
        },
        None => None,
    }
}

impl PackageReplies {
    /// The package and its manager, from the first manager that names one.
    pub open spec fn owner(self) -> Option<Seq<char>> {
        match whole_answer(printed(self.pacman)) {
            Some(package) => Some(package + " (pacman)"@),
            None => match first_field(printed(self.dpkg)) {
                Some(package) => Some(package + " (dpkg)"@),
                None => match installed(printed(self.rpm)) {
                    Some(package) => Some(package + " (rpm)"@),
                    None => match whole_answer(printed(self.apk)) {
                        Some(package) => Some(package + " (apk)"@),
                        None => None,
                    },
                },
            },
        }
    }
}

fn printed_text(output: &Option<CommandOutput>) -> (r: Option<String>)
    ensures
        process::opt_view(r) == printed(*output),
{
    match output {
        Some(out) => if out.success {
            Some(lossy_text(out.stdout.as_slice()))
        } else {
            None
        },
        None => None,
    }
}

/// The package that pacman names.
pub fn try_pacman(output: &Option<CommandOutput>) -> (r: Option<String>)
    ensures
        process::opt_view(r) == whole_answer(printed(*output)),
{
    match printed_text(output) {
        Some(stdout) => Some(trim_text(stdout.as_str())),
        None => None,
    }
}

/// The package that dpkg names.
pub fn try_dpkg(output: &Option<CommandOutput>) -> (r: Option<String>)
    ensures
        process::opt_view(r) == first_field(printed(*output)),
{
    match printed_text(output) {
        Some(stdout) => {
            let lines = split_lines(stdout.as_str());
            assert(text::views(lines@).len() == lines@.len());
            if lines.len() == 0 {
                return None;
            }
            assert(text::views(lines@)[0] == lines@[0]@);
            let fields = split_on(lines[0].as_str(), ':');
            assert(text::views(fields@).len() == fields@.len());
            assert(text::views(fields@)[0] == fields@[0]@);
            Some(trim_text(fields[0].as_str()))
        },
        None => None,
    }
}

/// The package that rpm names.
pub fn try_rpm(output: &Option<CommandOutput>) -> (r: Option<String>)
    ensures
        process::opt_view(r) == installed(printed(*output)),
{
    match printed_text(output) {
        Some(stdout) => {
            let package = trim_text(stdout.as_str());
            if package.as_str().unicode_len() == 0 || contains_text(
                package.as_str(),
                "not installed",
            ) {
                None
            } else {
                Some(package)
            }
        },
        None => None,
    }
}

/// The package that apk names.
pub fn try_apk(output: &Option<CommandOutput>) -> (r: Option<String>)
    ensures
        process::opt_view(r) == whole_answer(printed(*output)),
{
    match printed_text(output) {
        Some(stdout) => Some(trim_text(stdout.as_str())),
        None => None,
    }
}

/// The package and its manager, from the first of pacman, dpkg, rpm and apk that names one.
pub fn package_owner_multi(replies: &PackageReplies) -> (r: Option<String>)
    ensures
        process::opt_view(r) == replies.owner(),
{
    if let Some(package) = try_pacman(&replies.pacman) {
        return Some(cat2(package.as_str(), " (pacman)"));
    }
    if let Some(package) = try_dpkg(&replies.dpkg) {
        return Some(cat2(package.as_str(), " (dpkg)"));
    }
    if let Some(package) = try_rpm(&replies.rpm) {
        return Some(cat2(package.as_str(), " (rpm)"));
    }
    if let Some(package) = try_apk(&replies.apk) {
        return Some(cat2(package.as_str(), " (apk)"));
    }
    None
}

} // verus!
