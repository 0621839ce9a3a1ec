//! The errors of the sandbox.

use vstd::prelude::*;

verus! {

/// What kind of failure a filesystem operation met.
#[derive(Clone, Copy, Debug, PartialEq, Eq, Structural)]
pub enum ErrorKind {
    /// The path does not exist, or appears not to.
    NotFound,
    /// The operation is not permitted on the path.
    PermissionDenied,
    /// The path exists already.
    AlreadyExists,
    /// A directory was expected.
    NotADirectory,
    /// A file was expected.
    IsADirectory,
    /// The arguments are not usable.
    InvalidInput,
    /// The file would exceed a size limit.
    FileTooLarge,
    /// The storage limit is reached.
    StorageFull,
    /// Any other failure of the host.
    Other,
}

/// A failed filesystem operation.
#[derive(Debug)]
pub struct FsError {
    /// The kind of failure.
    pub kind: ErrorKind,
    /// What failed, for people; empty when the kind says it all.
    pub message: String,
}

impl FsError {
    /// A failure that its kind describes.
    pub fn from_kind(kind: ErrorKind) -> (r: FsError)
        ensures
            r.kind == kind,
            r.message@ == Seq::<char>::empty(),
    {
        FsError { kind, message: String::new() }
    }

    /// The kind of failure.
    pub fn kind(&self) -> (r: ErrorKind)
        ensures
            r == self.kind,
    {
        self.kind
    }
}

/// Why a sandbox could not be built or used.
#[derive(Debug)]
pub enum SandboxError {
    /// The policy is not usable.
    InvalidPolicy(String),
    /// The platform has no confinement layer.
    UnsupportedPlatform(String),
    /// The host failed an operation.
    Io(FsError),
    /// A decision could not be recorded.
    Publish(String),
}

} // verus!
