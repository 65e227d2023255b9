use vstd::prelude::*;

verus! {

/// The error kinds surfaced by the synchronization engine.
///
/// `NotFound` covers path or handle resolution failures, `RemoteOperationFailed`
/// an opaque failure reported by the remote storage client, `LocalIOFailed` a
/// local filesystem failure, and `CastOverflow` a defensive numeric conversion
/// that did not fit the platform's integer width.
#[derive(Debug, Clone, Copy, PartialEq, Eq, Structural)]
pub enum SyncError {
    NotFound,
    RemoteOperationFailed,
    LocalIOFailed,
    CastOverflow,
}

impl SyncError {
    /// A short human-readable description of the error.
    pub fn message(&self) -> (r: &'static str)
        ensures
            r@ == self.spec_message(),
    {
        match self {
            SyncError::NotFound => "could not find node",
            SyncError::RemoteOperationFailed => "remote operation failed",
            SyncError::LocalIOFailed => "local I/O operation failed",
            SyncError::CastOverflow => "numeric conversion overflowed",
        }
    }

    pub open spec fn spec_message(self) -> Seq<char> {
        match self {
            SyncError::NotFound => "could not find node"@,
            SyncError::RemoteOperationFailed => "remote operation failed"@,
            SyncError::LocalIOFailed => "local I/O operation failed"@,
            SyncError::CastOverflow => "numeric conversion overflowed"@,
        }
    }
}

} // verus!
