//! Error taxonomy of the sync engine.

use vstd::prelude::*;

verus! {

/// Why a sync stage failed.
#[derive(Clone, Copy, Debug, PartialEq, Eq, Structural)]
pub enum SyncError {
    /// Filesystem or process-level I/O failed.
    Io,
    /// A single artifact could not be fetched: transport error, non-success
    /// status, or hash mismatch after exhausting retries.
    Download,
    /// A manifest or history document is malformed.
    Parse,
    /// The history ledger could not be serialized.
    Serialize,
    /// A discovered file's path cannot be expressed relative to the mirror root.
    StripPrefix,
    /// One or more artifacts of a batch could not be fetched despite retries.
    FailedDownloads(usize),
}

impl SyncError {
    /// A short diagnostic name for the error.
    pub fn describe(&self) -> (r: &'static str)
        ensures
            (*self is Io) ==> r@ == "i/o failure"@,
            (*self is Download) ==> r@ == "download failure"@,
            (*self is Parse) ==> r@ == "manifest parse failure"@,
            (*self is Serialize) ==> r@ == "history serialization failure"@,
            (*self is StripPrefix) ==> r@ == "path outside mirror root"@,
            (*self is FailedDownloads) ==> r@ == "failed downloads"@,
    {
        match self {
            SyncError::Io => "i/o failure",
            SyncError::Download => "download failure",
            SyncError::Parse => "manifest parse failure",
            SyncError::Serialize => "history serialization failure",
            SyncError::StripPrefix => "path outside mirror root",
            SyncError::FailedDownloads(_) => "failed downloads",
        }
    }
}

} // verus!
