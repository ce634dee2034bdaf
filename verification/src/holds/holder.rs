//! What a process that holds the target tells about itself.

use crate::bytes;
use crate::failure::FailureKind;
use crate::filepath::FilePath;
use crate::holds::procfs;
use crate::holds::procfs::{parse_status_value, resolve_username};
use crate::holds::{Evidence, Holder};
use crate::process;
use crate::text;
use crate::text::{cat2, split_words};
use vstd::prelude::*;

verus! {

/// What is read about a process that holds the target.
#[derive(Debug)]
pub struct HolderSource {
    /// The text of the `status` file, or why it could not be read.
    pub status: Result<String, FailureKind>,
    /// Where the `cwd` link leads.
    pub cwd: Option<FilePath>,
}

impl HolderSource {
    /// The process has ended meanwhile.
    pub open spec fn is_gone(self) -> bool {
        self.status == Err::<String, FailureKind>(FailureKind::NotFound)
    }

    /// The text that stands for the status: an unreadable one tells nothing.
    pub open spec fn status_text(self) -> Seq<char> {
        match self.status {
            Ok(status) => status@,
            Err(_) => Seq::empty(),
        }
    }

    /// The working directory as shown.
    pub open spec fn cwd_text(self) -> Option<Seq<char>> {
        match self.cwd {
            Some(path) => Some(bytes::lossy(path@)),
            None => None,
        }
    }
}

/// The name of a process, from its status text.
pub open spec fn holder_name(status: Seq<char>) -> Seq<char> {
    match process::status_field(status, "Name"@) {
        Some(name) => name,
        None => "unknown"@,
    }
}

/// The first user number of a status text.
pub open spec fn holder_uid(status: Seq<char>) -> Option<Seq<char>> {
    match process::status_field(status, "Uid"@) {
        Some(value) => if text::words(value).len() > 0 {
            Some(text::words(value)[0])
        } else {
            None
        },
        None => None,
    }
}

/// How the user of a process is shown: by name, else by number.
pub open spec fn holder_user(status: Seq<char>, passwd: Option<Seq<char>>) -> Seq<char> {
    match holder_uid(status) {
        Some(uid) => match procfs::resolved_name(passwd, uid) {
            Some(name) => name,
            None => "uid="@ + uid,
        },
        None => "uid=unknown"@,
    }
}

/// The holder is the process `pid` as its files tell, with this evidence.
pub open spec fn is_holder(
    holder: Holder,
    pid: u32,
    evidence: Seq<Evidence>,
    source: HolderSource,
    passwd: Option<Seq<char>>,
) -> bool {
    &&& holder.pid == pid
    &&& holder.name@ == holder_name(source.status_text())
    &&& holder.user@ == holder_user(source.status_text(), passwd)
    &&& process::opt_view(holder.cwd) == source.cwd_text()
    &&& holder.evidence@ == evidence
}

fn read_uid(status: &str) -> (r: Option<String>)
    ensures
        process::opt_view(r) == holder_uid(status@),
{
    match parse_status_value(status, "Uid") {
        Some(value) => {
            let mut words = split_words(value.as_str());
            assert(text::views(words@).len() == words@.len());
            if words.len() > 0 {
                assert(text::views(words@)[0] == words@[0]@);
                Some(words.remove(0))
            } else {
                None
            }
        },
        None => None,
    }
}

/// What is told about a process that holds the target, or nothing if it has ended.
pub fn read_holder(
    pid: u32,
    evidence: Vec<Evidence>,
    source: &HolderSource,
    passwd: &Option<String>,
) -> (r: Option<Holder>)
    ensures
        match r {
            Some(holder) => !source.is_gone() && is_holder(
                holder,
                pid,
                evidence@,
                *source,
                process::opt_view(*passwd),
            ),
            None => source.is_gone(),
        },
{
    let unread = "";
    proof {
        reveal_strlit("");
        assert(unread@ =~= Seq::empty());
    }
    let status: &str = match &source.status {
        Ok(status) => status.as_str(),
        Err(kind) => match kind {
            FailureKind::NotFound => return None,
            _ => unread,
        },
    };
    let name: String = match parse_status_value(status, "Name") {
        Some(name) => name,
        None => "unknown".to_owned(),
    };
    let user: String = match read_uid(status) {
        Some(uid) => match resolve_username(passwd, uid.as_str()) {
            Some(name) => name,
            None => cat2("uid=", uid.as_str()),
        },
        None => "uid=unknown".to_owned(),
    };
    let cwd: Option<String> = match &source.cwd {
        Some(path) => Some(path.display()),
        None => None,
    };
    Some(Holder { pid, name, user, cwd, evidence })
}

} // verus!
