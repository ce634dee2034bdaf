//! Failed reads, and what they say about a process.

use vstd::prelude::*;

verus! {

/// Why a read failed, as far as it matters here.
#[derive(Debug, Clone, Copy, PartialEq, Eq, Structural)]
pub enum FailureKind {
    NotFound,
    PermissionDenied,
    Other,
}

/// A failed read with the message that goes with it.
#[derive(Debug, PartialEq, Eq)]
pub struct IoFailure {
    pub kind: FailureKind,
    pub message: String,
}

impl Clone for IoFailure {
    fn clone(&self) -> (r: Self)
        ensures
            r == *self,
    {
        IoFailure { kind: self.kind, message: self.message.clone() }
    }
}

/// A file that was read line by line: opening it can fail, and so can each line.
pub type FileLines = Result<Vec<Result<String, IoFailure>>, IoFailure>;

/// The outcome of reading something about one process.
#[derive(Debug, PartialEq, Eq)]
pub enum ProcRead<T> {
    Done(T),
    PermissionDenied,
    Gone,
    Fatal(IoFailure),
}

/// What a failed read says: the process has ended, it may not be looked at, or the read
/// itself is broken.
pub open spec fn classified<T>(error: IoFailure) -> ProcRead<T> {
    match error.kind {
        FailureKind::NotFound => ProcRead::Gone,
        FailureKind::PermissionDenied => ProcRead::PermissionDenied,
        FailureKind::Other => ProcRead::Fatal(error),
    }
}

/// Tells apart a process that has ended, one that may not be looked at, and a read that
/// is broken.
pub fn classify_proc_error<T>(error: IoFailure) -> (r: ProcRead<T>)
    ensures
        r == classified::<T>(error),
{
    match error.kind {
        FailureKind::NotFound => ProcRead::Gone,
        FailureKind::PermissionDenied => ProcRead::PermissionDenied,
        FailureKind::Other => ProcRead::Fatal(error),
    }
}

} // verus!
