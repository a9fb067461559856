//! Core data types: discovered filesystem entries, their classification,
//! cleanup recommendations, and the sort order of the aggregate view.

use vstd::prelude::*;

verus! {

/// The kind of reclaimable data an entry represents, assigned once at
/// discovery time by the classifier and never re-derived implicitly.
#[derive(Debug, Clone, Copy, PartialEq, Eq, Structural)]
pub enum FileType {
    Normal,
    Log,
    Cache,
    NpmCache,
    ComposerCache,
    AptCache,
    Docker,
}

/// One filesystem object discovered by a scan.
///
/// `path` is the unique key within a scan session; `modified` is a
/// best-effort timestamp in seconds since the epoch (0 when unreadable).
#[derive(Debug)]
pub struct FileStats {
    pub path: String,
    pub size: u64,
    pub is_dir: bool,
    pub modified: u64,
    pub children_count: Option<usize>,
    pub file_type: FileType,
}

impl Clone for FileStats {
    fn clone(&self) -> (res: Self)
        ensures
            res == *self,
    {
        FileStats {
            path: self.path.clone(),
            size: self.size,
            is_dir: self.is_dir,
            modified: self.modified,
            children_count: self.children_count,
            file_type: self.file_type,
        }
    }
}

/// The category of a cleanup recommendation, in fixed priority order.
#[derive(Debug, Clone, Copy, PartialEq, Eq, Structural)]
pub enum RecommendationCategory {
    Docker,
    Log,
    Cache,
    Trash,
    Other,
}

/// A proposed cleanup action: a category with the aggregate size of the
/// matching entries, an optional target path, and an optional opaque
/// command for out-of-band remediation.
#[derive(Debug)]
pub struct Recommendation {
    pub category: RecommendationCategory,
    pub description: String,
    pub size: u64,
    pub path: Option<String>,
    pub action_command: Option<String>,
}

impl Clone for Recommendation {
    fn clone(&self) -> (res: Self)
        ensures
            res == *self,
    {
        Recommendation {
            category: self.category,
            description: self.description.clone(),
            size: self.size,
            path: match &self.path {
                Some(p) => Some(p.clone()),
                None => None,
            },
            action_command: match &self.action_command {
                Some(c) => Some(c.clone()),
                None => None,
            },
        }
    }
}

/// Direction of the size ordering of the aggregate view.
#[derive(Debug, Clone, Copy, PartialEq, Eq, Structural)]
pub enum SortOrder {
    Desc,
    Asc,
}

/// Why the aggregate store refused or could not perform an operation.
///
/// `NotFound` is returned when removal is requested for a path that is
/// not present. `DuplicatePath` is returned by ingestion for a path that
/// is already present: duplicates are rejected and the first entry kept,
/// so sizes are never double counted. `CounterOverflow` is returned when
/// an ingestion would overflow the running total or the scanned counter.
#[derive(Debug, Clone, Copy, PartialEq, Eq, Structural)]
pub enum StoreError {
    NotFound,
    DuplicatePath,
    CounterOverflow,
}

} // verus!
