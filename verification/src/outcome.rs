//! What the engine reports: progress while it works, and how it ended.

use vstd::prelude::*;

verus! {

/// What the removed target was.
#[derive(Clone, Copy, Debug, PartialEq, Eq, Structural)]
pub enum TargetKind {
    File,
    Directory,
}

/// Why a removal stopped without an error.
#[derive(Clone, Copy, Debug, PartialEq, Eq, Structural)]
pub enum AbortReason {
    /// A read-only file was met and the policy does not force deletion.
    ReadOnly,
}

/// The single terminal result of a removal.
#[derive(Clone, Debug, PartialEq, Eq)]
pub enum Outcome {
    /// The target is gone; `bytes` is the size of the files deleted.
    Deleted { kind: TargetKind, bytes: u64 },
    /// The removal stopped at `path`; nothing after it was touched.
    Aborted { path: String, reason: AbortReason },
    /// There is nothing at `path`.
    NotFound { path: String },
}

/// The exit code of a process whose removal ended in a scan or deletion
/// error.
pub const EXIT_FAILURE: u8 = 1;

impl Outcome {
    /// The exit code that stands for an outcome: zero for a finished removal,
    /// and a code of its own, different from [`EXIT_FAILURE`], for a missing
    /// target and for an aborted removal.
    pub open spec fn code(self) -> u8 {
        match self {
            Outcome::Deleted { .. } => 0,
            Outcome::NotFound { .. } => 2,
            Outcome::Aborted { .. } => 3,
        }
    }

    /// The exit code a command-line front end reports for this outcome.
    pub fn exit_code(&self) -> (code: u8)
        ensures
            code == self.code(),
            code == 0 <==> self is Deleted,
            code != EXIT_FAILURE,
    {
        match self {
            Outcome::Deleted { .. } => 0,
            Outcome::NotFound { .. } => 2,
            Outcome::Aborted { .. } => 3,
        }
    }
}

/// Emitted for each deleted file.
#[derive(Clone, Debug, PartialEq, Eq)]
pub struct ProgressEvent {
    /// Bytes deleted so far, this file included.
    pub deleted: u64,
    /// The size the tree was measured at before the removal began.
    pub total: u64,
    /// The file just deleted.
    pub path: String,
}

/// What went wrong at a path.
#[derive(Clone, Copy, Debug, PartialEq, Eq, Structural)]
pub enum Cause {
    /// The metadata of the path could not be read.
    Unreadable,
    /// With this file the byte count no longer fits in 64 bits.
    TooLarge,
}

/// A fatal failure while sizing a tree. Nothing has been deleted.
#[derive(Clone, Debug, PartialEq, Eq)]
pub struct ScanError {
    pub path: String,
    pub cause: Cause,
}

/// A fatal failure during a removal. Files deleted before it stay deleted.
#[derive(Clone, Debug, PartialEq, Eq)]
pub struct DeletionError {
    pub path: String,
    pub cause: Cause,
}

} // verus!
