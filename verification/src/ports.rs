//! Boundary contracts for the external collaborators: the deletion
//! backend, the live analyzer probe, and the events the background
//! walker streams to the foreground. Implementations live outside the
//! core; nothing is assumed about what their calls return.

use vstd::prelude::*;

use crate::entities::FileStats;
use crate::entities::Recommendation;

verus! {

/// A failed attempt to delete a filesystem entry.
#[derive(Debug)]
pub struct DeletionError {
    pub message: String,
}

impl Clone for DeletionError {
    fn clone(&self) -> (res: Self)
        ensures
            res == *self,
    {
        DeletionError { message: self.message.clone() }
    }
}

/// A failure of the external analyzer or its remediation action.
#[derive(Debug)]
pub struct AnalyzerError {
    pub message: String,
}

impl Clone for AnalyzerError {
    fn clone(&self) -> (res: Self)
        ensures
            res == *self,
    {
        AnalyzerError { message: self.message.clone() }
    }
}

/// One event of the background scan stream.
///
/// `Complete` arrives exactly once, after every `NewEntry` of the scan;
/// `Error` reports one unreadable path and never aborts the traversal.
#[derive(Debug)]
pub enum ScanEvent {
    Progress { total_size: u64, files_scanned: usize },
    NewEntry(FileStats),
    Complete,
    Error(String),
}

/// The deletion collaborator: removes one filesystem entry and reports
/// the bytes freed, or fails without a consistent partial report.
pub trait Cleaner {
    fn delete_item(&self, path: &str) -> Result<u64, DeletionError>;
}

/// The live analyzer collaborator (a container-runtime usage probe).
/// `analyze` returns `Ok(None)` when the external system is not
/// applicable or unavailable; `prune` remediates out-of-band.
pub trait Analyzer {
    fn analyze(&self) -> Result<Option<Recommendation>, AnalyzerError>;

    fn prune(&self) -> Result<(), AnalyzerError>;
}

} // verus!
