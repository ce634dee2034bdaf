//! Who touched a file last, as far as that is on record.

use crate::clock::Timestamp;
use crate::number;
use crate::number::decimal_text;
use crate::text::cat3;
use vstd::prelude::*;

verus! {

/// Where the record comes from.
#[derive(Debug, Clone, Copy, PartialEq, Eq, Structural)]
pub enum EvidenceSource {
    Metadata,
    Audit,
    Journal,
}

impl EvidenceSource {
    /// The source in words.
    pub open spec fn words(self) -> Seq<char> {
        match self {
            EvidenceSource::Metadata => "filesystem metadata"@,
            EvidenceSource::Audit => "audit evidence"@,
            EvidenceSource::Journal => "journal evidence"@,
        }
    }

    /// The source in words.
    pub fn label(self) -> (r: &'static str)
        ensures
            r@ == self.words(),
    {
        match self {
            EvidenceSource::Metadata => "filesystem metadata",
            EvidenceSource::Audit => "audit evidence",
            EvidenceSource::Journal => "journal evidence",
        }
    }
}

/// A process that a record names.
#[derive(Debug, PartialEq, Eq)]
pub struct ProcessEvidence {
    pub name: String,
    pub pid: Option<u32>,
}

impl ProcessEvidence {
    /// The process in words: its name, and its number if that is known.
    pub open spec fn words(self) -> Seq<char> {
        match self.pid {
            Some(pid) => self.name@ + " pid="@ + number::decimal(pid as int),
            None => self.name@,
        }
    }

    /// The process in words.
    pub fn label(&self) -> (r: String)
        ensures
            r@ == self.words(),
    {
        match self.pid {
            Some(pid) => {
                let shown = decimal_text(pid as u64);
                cat3(self.name.as_str(), " pid=", shown.as_str())
            },
            None => self.name.clone(),
        }
    }
}

/// What the filesystem says about a file.
#[derive(Debug, PartialEq, Eq)]
pub struct TouchMeta {
    pub file_type: String,
    pub size: u64,
    pub perms_octal: String,
    pub modified: Timestamp,
    pub changed: Timestamp,
}

/// What is on record about the last change of a file.
#[derive(Debug, PartialEq, Eq)]
pub struct TouchInfo {
    /// The path as shown.
    pub path: String,
    pub modified: Timestamp,
    pub source: EvidenceSource,
    pub actor: String,
    pub process: Option<ProcessEvidence>,
    pub meta: Option<TouchMeta>,
}

impl TouchInfo {
    /// All the times have dates.
    pub open spec fn is_valid(self) -> bool {
        &&& self.modified.is_valid()
        &&& self.meta matches Some(meta) ==> meta.modified.is_valid() && meta.changed.is_valid()
    }

    /// It is known who changed the file.
    pub open spec fn has_actor(self) -> bool {
        self.actor@ != "unknown"@
    }
}

} // verus!
