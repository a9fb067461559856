//! The foreground application state: the aggregate store of discovered
//! entries with its running totals, the navigation view, the sort
//! order, and the confirmation flows for destructive actions.
//!
//! The store owns one flat list of entries, keyed by path; parent/child
//! relationships are computed on demand from the path strings, never
//! cached. `total_size` always equals the sum of the sizes of the
//! entries currently present (`wf`), and every operation preserves
//! that invariant together with path uniqueness. Duplicate paths are
//! rejected at ingestion and the first entry kept, so sizes are never
//! double counted.

use vstd::prelude::*;
use vstd::relations::sorted_by;

use crate::entities::FileStats;
use crate::entities::Recommendation;
use crate::entities::SortOrder;
use crate::entities::StoreError;
use crate::ordering::file_le_rel;
use crate::ordering::opposite;
use crate::ordering::sort_entries;
use crate::ports::Analyzer;
use crate::ports::Cleaner;
use crate::ports::DeletionError;
use crate::ports::ScanEvent;
use crate::sums::lemma_sum_push;
use crate::sums::lemma_sum_remove;
use crate::sums::lemma_multiset_sum_eq;
use crate::sums::lemma_multiset_unique_paths;
use crate::sums::sum_sizes;
use crate::sums::unique_paths;
use crate::textutil::parent_of;
use crate::textutil::parent_seq;
use crate::textutil::str_eq;

verus! {

/// The interaction mode of the application. Destructive actions are
/// reachable only through their confirmation modes: there is no
/// transition from browsing straight to applying a deletion.
#[derive(Debug, Clone, Copy, PartialEq, Eq, Structural)]
pub enum AppMode {
    Scanning,
    Browsing,
    DeleteConfirmation,
    Dashboard,
    DashboardCleanupConfirmation,
    About,
}

/// An entry of `s` has this path.
pub open spec fn has_path(s: Seq<FileStats>, p: Seq<char>) -> bool {
    exists|k: int| 0 <= k < s.len() && #[trigger] s[k].path@ == p
}

/// The entry is a direct child of the directory `dir`.
pub open spec fn is_child_of(f: FileStats, dir: Seq<char>) -> bool {
    parent_seq(f.path@) == Some(dir)
}

/// The navigation view: the entries whose path's parent is `dir`, in
/// the order they stand in the store.
pub open spec fn children_view(files: Seq<FileStats>, dir: Seq<char>) -> Seq<FileStats> {
    files.filter(|f: FileStats| is_child_of(f, dir))
}

/// A scan event that warrants re-sorting the store once scanning is
/// done: one that added an entry, or the completion itself.
pub open spec fn spec_event_triggers_sort(event: ScanEvent) -> bool {
    match event {
        ScanEvent::NewEntry(_) => true,
        ScanEvent::Complete => true,
        _ => false,
    }
}

/// Whether this event warrants a re-sort of the settled store.
pub fn event_triggers_sort(event: &ScanEvent) -> (r: bool)
    ensures
        r == spec_event_triggers_sort(*event),
{
    match event {
        ScanEvent::NewEntry(_) => true,
        ScanEvent::Complete => true,
        ScanEvent::Progress { total_size: _, files_scanned: _ } => false,
        ScanEvent::Error(_) => false,
    }
}

/// A selection index clamped to the view that remains after a
/// mutation: the last valid index, or 0 when the view is empty.
pub open spec fn clamp_index(sel: int, len: int) -> int {
    if len == 0 {
        0
    } else if sel >= len {
        len - 1
    } else {
        sel
    }
}

/// The foreground application state, generic over the injected
/// deletion and analyzer collaborators.
pub struct App<C: Cleaner, A: Analyzer> {
    pub current_path: String,
    pub mode: AppMode,
    pub files: Vec<FileStats>,
    pub total_size: u64,
    pub scanned_count: usize,
    pub is_scanning: bool,
    pub sort_order: SortOrder,
    pub selection: usize,
    pub item_to_delete: Option<String>,
    pub recommendations: Vec<Recommendation>,
    pub recommendation_selection: usize,
    pub cleaner: C,
    pub analyzer: A,
}

/// Index of the first entry with this path.
fn find_path_index(files: &Vec<FileStats>, path: &str) -> (r: Option<usize>)
    ensures
        match r {
            Some(i) => i < files@.len() && files@[i as int].path@ == path@ && forall|k: int|
                0 <= k < i ==> files@[k].path@ != path@,
            None => !has_path(files@, path@),
        },
{
    let n = files.len();
    let mut i: usize = 0;
    while i < n
        invariant
            n == files@.len(),
            i <= n,
            forall|k: int| 0 <= k < i ==> files@[k].path@ != path@,
        decreases n - i,
    {
        if str_eq(files[i].path.as_str(), path) {
            return Some(i);
        }
        i += 1;
    }
    None
}

impl<C: Cleaner, A: Analyzer> App<C, A> {
    /// The store invariant: the running total equals the sum of the
    /// sizes of the entries present, and paths are unique.
    pub open spec fn wf(self) -> bool {
        &&& self.total_size as int == sum_sizes(self.files@)
        &&& unique_paths(self.files@)
    }

    /// The collaborators are untouched.
    pub open spec fn same_collab(self, other: Self) -> bool {
        &&& self.cleaner == other.cleaner
        &&& self.analyzer == other.analyzer
    }

    /// Store contents and counters are untouched.
    pub open spec fn same_store(self, other: Self) -> bool {
        &&& self.files == other.files
        &&& self.total_size == other.total_size
        &&& self.scanned_count == other.scanned_count
    }

    /// Navigation position and sort state are untouched.
    pub open spec fn same_nav(self, other: Self) -> bool {
        &&& self.current_path == other.current_path
        &&& self.selection == other.selection
        &&& self.sort_order == other.sort_order
        &&& self.is_scanning == other.is_scanning
    }

    /// Recommendations and their cursor are untouched.
    pub open spec fn same_recs(self, other: Self) -> bool {
        &&& self.recommendations == other.recommendations
        &&& self.recommendation_selection == other.recommendation_selection
    }

    /// The confirmation-flow state is untouched.
    pub open spec fn same_flow(self, other: Self) -> bool {
        &&& self.mode == other.mode
        &&& self.item_to_delete == other.item_to_delete
    }

    /// A fresh session rooted at `path`, scanning, with an empty store.
    pub fn new(path: String, cleaner: C, analyzer: A) -> (app: Self)
        ensures
            app.wf(),
            app.current_path == path,
            app.mode == AppMode::Scanning,
            app.files@ =~= Seq::<FileStats>::empty(),
            app.total_size == 0,
            app.scanned_count == 0,
            app.is_scanning,
            app.sort_order == SortOrder::Desc,
            app.selection == 0,
            app.item_to_delete is None,
            app.recommendations@ =~= Seq::<Recommendation>::empty(),
            app.recommendation_selection == 0,
            app.cleaner == cleaner,
            app.analyzer == analyzer,
    {
        App {
            current_path: path,
            mode: AppMode::Scanning,
            files: Vec::new(),
            total_size: 0,
            scanned_count: 0,
            is_scanning: true,
            sort_order: SortOrder::Desc,
            selection: 0,
            item_to_delete: None,
            recommendations: Vec::new(),
            recommendation_selection: 0,
            cleaner,
            analyzer,
        }
    }

    /// Appends a discovered entry, adding its size to the running
    /// total and counting it as scanned. A duplicate path is rejected
    /// and the first entry kept; an entry whose size or count would
    /// overflow the counters is rejected. Total and counter move
    /// together: no observer sees one updated without the other.
    pub fn ingest(&mut self, entry: FileStats) -> (r: Result<(), StoreError>)
        requires
            old(self).wf(),
        ensures
            final(self).wf(),
            final(self).same_nav(*old(self)),
            final(self).same_recs(*old(self)),
            final(self).same_flow(*old(self)),
            final(self).same_collab(*old(self)),
            match r {
                Ok(()) => {
                    &&& !has_path(old(self).files@, entry.path@)
                    &&& old(self).total_size + entry.size <= u64::MAX
                    &&& old(self).scanned_count < usize::MAX
                    &&& final(self).files@ == old(self).files@.push(entry)
                    &&& final(self).total_size == old(self).total_size + entry.size
                    &&& final(self).scanned_count == old(self).scanned_count + 1
                },
                Err(e) => {
                    &&& final(self).same_store(*old(self))
                    &&& (e == StoreError::DuplicatePath <==> has_path(
                        old(self).files@,
                        entry.path@,
                    ))
                    &&& (e == StoreError::DuplicatePath || e == StoreError::CounterOverflow)
                    &&& (e == StoreError::CounterOverflow ==> old(self).total_size + entry.size
                        > u64::MAX || old(self).scanned_count == usize::MAX)
                },
            },
    {
        if find_path_index(&self.files, entry.path.as_str()).is_some() {
            return Err(StoreError::DuplicatePath);
        }
        if self.scanned_count == usize::MAX {
            return Err(StoreError::CounterOverflow);
        }
        match self.total_size.checked_add(entry.size) {
            None => Err(StoreError::CounterOverflow),
            Some(new_total) => {
                proof {
                    lemma_sum_push(self.files@, entry);
                }
                self.files.push(entry);
                self.total_size = new_total;
                self.scanned_count = self.scanned_count + 1;
                Ok(())
            },
        }
    }

    /// Removes the entry with this path and subtracts its recorded
    /// size from the running total; the scanned counter reflects what
    /// was ever discovered and stays. Fails with `NotFound` exactly
    /// when no entry has the path.
    pub fn remove(&mut self, path: &str) -> (r: Result<u64, StoreError>)
        requires
            old(self).wf(),
        ensures
            final(self).wf(),
            final(self).same_nav(*old(self)),
            final(self).same_recs(*old(self)),
            final(self).same_flow(*old(self)),
            final(self).same_collab(*old(self)),
            final(self).scanned_count == old(self).scanned_count,
            match r {
                Ok(freed) => {
                    &&& exists|i: int|
                        {
                            &&& 0 <= i < old(self).files@.len()
                            &&& #[trigger] old(self).files@[i].path@ == path@
                            &&& old(self).files@[i].size == freed
                            &&& final(self).files@ == old(self).files@.remove(i)
                        }
                    &&& final(self).total_size == old(self).total_size - freed
                    &&& !has_path(final(self).files@, path@)
                },
                Err(e) => {
                    &&& e == StoreError::NotFound
                    &&& !has_path(old(self).files@, path@)
                    &&& final(self).same_store(*old(self))
                },
            },
    {
        match find_path_index(&self.files, path) {
            None => Err(StoreError::NotFound),
            Some(i) => {
                proof {
                    lemma_sum_remove(self.files@, i as int);
                    crate::sums::lemma_sum_nonneg(self.files@.remove(i as int));
                }
                let entry = self.files.remove(i);
                self.total_size = self.total_size - entry.size;
                proof {
                    let s = old(self).files@;
                    assert(unique_paths(s.remove(i as int))) by {
                        assert(forall|k: int|
                            0 <= k < i ==> s.remove(i as int)[k] == s[k]);
                        assert(forall|k: int|
                            i <= k < s.len() - 1 ==> s.remove(i as int)[k] == s[k + 1]);
                    }
                    assert(!has_path(self.files@, path@)) by {
                        assert(forall|k: int|
                            0 <= k < i ==> self.files@[k] == s[k]);
                        assert(forall|k: int|
                            i <= k < self.files@.len() ==> self.files@[k] == s[k + 1]);
                    }
                }
                Ok(entry.size)
            },
        }
    }

    /// Applies one event of the scan stream: a discovered entry is
    /// ingested, completion ends the scanning phase and moves to
    /// browsing, progress hints and per-path traversal errors change
    /// nothing here.
    pub fn apply_scan_event(&mut self, event: ScanEvent) -> (r: Result<(), StoreError>)
        requires
            old(self).wf(),
        ensures
            final(self).wf(),
            final(self).same_recs(*old(self)),
            final(self).same_collab(*old(self)),
            final(self).current_path == old(self).current_path,
            final(self).selection == old(self).selection,
            final(self).sort_order == old(self).sort_order,
            final(self).item_to_delete == old(self).item_to_delete,
            match event {
                ScanEvent::NewEntry(entry) => final(self).is_scanning == old(self).is_scanning
                    && final(self).mode == old(self).mode && (match r {
                    Ok(()) => {
                        &&& !has_path(old(self).files@, entry.path@)
                        &&& old(self).total_size + entry.size <= u64::MAX
                        &&& old(self).scanned_count < usize::MAX
                        &&& final(self).files@ == old(self).files@.push(entry)
                        &&& final(self).total_size == old(self).total_size + entry.size
                        &&& final(self).scanned_count == old(self).scanned_count + 1
                    },
                    Err(e) => {
                        &&& final(self).same_store(*old(self))
                        &&& (e == StoreError::DuplicatePath <==> has_path(
                            old(self).files@,
                            entry.path@,
                        ))
                        &&& (e == StoreError::DuplicatePath || e == StoreError::CounterOverflow)
                        &&& (e == StoreError::CounterOverflow ==> old(self).total_size + entry.size
                            > u64::MAX || old(self).scanned_count == usize::MAX)
                    },
                }),
                ScanEvent::Complete => {
                    &&& !final(self).is_scanning
                    &&& final(self).mode == AppMode::Browsing
                    &&& final(self).same_store(*old(self))
                    &&& r is Ok
                },
                _ => final(self).is_scanning == old(self).is_scanning && final(self).mode == old(self).mode && final(self).same_store(*old(self)) && r is Ok,
            },
    {
        match event {
            ScanEvent::NewEntry(entry) => self.ingest(entry),
            ScanEvent::Complete => {
                self.is_scanning = false;
                self.mode = AppMode::Browsing;
                Ok(())
            },
            ScanEvent::Progress { total_size: _, files_scanned: _ } => Ok(()),
            ScanEvent::Error(_) => Ok(()),
        }
    }

    /// Settles the store after a drained batch of scan events: a batch
    /// that changed the store or ended the scan warrants one re-order,
    /// but only once scanning has completed — sorting is deferred
    /// while entries are still streaming in. Otherwise nothing moves.
    pub fn settle_after_batch(&mut self, needs_sort: bool)
        requires
            old(self).wf(),
        ensures
            final(self).wf(),
            final(self).same_nav(*old(self)),
            final(self).same_recs(*old(self)),
            final(self).same_flow(*old(self)),
            final(self).same_collab(*old(self)),
            final(self).total_size == old(self).total_size,
            final(self).scanned_count == old(self).scanned_count,
            if needs_sort && !old(self).is_scanning {
                final(self).files@.to_multiset() == old(self).files@.to_multiset() && sorted_by(
                    final(self).files@,
                    file_le_rel(old(self).sort_order),
                )
            } else {
                *final(self) == *old(self)
            },
    {
        if needs_sort && !self.is_scanning {
            self.sort_files();
        }
    }

    /// Re-orders the whole store by size under the current order, ties
    /// broken by path for determinism.
    pub fn sort_files(&mut self)
        requires
            old(self).wf(),
        ensures
            final(self).wf(),
            final(self).same_nav(*old(self)),
            final(self).same_recs(*old(self)),
            final(self).same_flow(*old(self)),
            final(self).same_collab(*old(self)),
            final(self).total_size == old(self).total_size,
            final(self).scanned_count == old(self).scanned_count,
            final(self).files@.to_multiset() == old(self).files@.to_multiset(),
            sorted_by(final(self).files@, file_le_rel(old(self).sort_order)),
    {
        let ghost before = self.files@;
        sort_entries(&mut self.files, self.sort_order);
        proof {
            lemma_multiset_sum_eq(before, self.files@);
            lemma_multiset_unique_paths(before, self.files@);
        }
    }

    /// Flips the sort direction and re-orders the store.
    pub fn toggle_sort(&mut self)
        requires
            old(self).wf(),
        ensures
            final(self).wf(),
            final(self).sort_order == opposite(old(self).sort_order),
            final(self).current_path == old(self).current_path,
            final(self).selection == old(self).selection,
            final(self).is_scanning == old(self).is_scanning,
            final(self).same_recs(*old(self)),
            final(self).same_flow(*old(self)),
            final(self).same_collab(*old(self)),
            final(self).total_size == old(self).total_size,
            final(self).scanned_count == old(self).scanned_count,
            final(self).files@.to_multiset() == old(self).files@.to_multiset(),
            sorted_by(final(self).files@, file_le_rel(opposite(old(self).sort_order))),
    {
        self.sort_order = match self.sort_order {
            SortOrder::Desc => SortOrder::Asc,
            SortOrder::Asc => SortOrder::Desc,
        };
        self.sort_files();
    }

    /// Sets the sort direction and re-orders the store under it.
    pub fn set_sort_order(&mut self, order: SortOrder)
        requires
            old(self).wf(),
        ensures
            final(self).wf(),
            final(self).sort_order == order,
            final(self).current_path == old(self).current_path,
            final(self).selection == old(self).selection,
            final(self).is_scanning == old(self).is_scanning,
            final(self).same_recs(*old(self)),
            final(self).same_flow(*old(self)),
            final(self).same_collab(*old(self)),
            final(self).total_size == old(self).total_size,
            final(self).scanned_count == old(self).scanned_count,
            final(self).files@.to_multiset() == old(self).files@.to_multiset(),
            sorted_by(final(self).files@, file_le_rel(order)),
    {
        self.sort_order = order;
        self.sort_files();
    }

    /// The current navigation view: the entries whose parent is the
    /// current path, in store order. Always computed fresh from the
    /// present entries, never cached.
    pub fn get_current_files(&self) -> (r: Vec<FileStats>)
        ensures
            r@ == children_view(self.files@, self.current_path@),
    {
        let n = self.files.len();
        let mut acc: Vec<FileStats> = Vec::new();
        let ghost pred = |f: FileStats| is_child_of(f, self.current_path@);
        proof {
            assert(self.files@.subrange(0, 0).filter(pred) =~= acc@) by {
                reveal(Seq::filter);
            }
        }
        let mut i: usize = 0;
        while i < n
            invariant
                n == self.files@.len(),
                i <= n,
                pred == (|f: FileStats| is_child_of(f, self.current_path@)),
                acc@ == self.files@.subrange(0, i as int).filter(pred),
            decreases n - i,
        {
            let keep = match parent_of(self.files[i].path.as_str()) {
                Some(parent) => str_eq(parent.as_str(), self.current_path.as_str()),
                None => false,
            };
            if keep {
                acc.push(self.files[i].clone());
            }
            proof {
                reveal(Seq::filter);
                let prefix = self.files@.subrange(0, i as int);
                let next = self.files@.subrange(0, i + 1);
                assert(next.drop_last() =~= prefix);
                assert(next.last() == self.files@[i as int]);
                assert(keep == pred(self.files@[i as int]));
            }
            i += 1;
        }
        proof {
            assert(self.files@.subrange(0, n as int) =~= self.files@);
        }
        acc
    }

    /// Descends into the selected entry when it is a directory; the
    /// selection restarts at the top of the new view.
    pub fn enter_dir(&mut self)
        ensures
            final(self).same_store(*old(self)),
            final(self).same_recs(*old(self)),
            final(self).same_flow(*old(self)),
            final(self).same_collab(*old(self)),
            final(self).sort_order == old(self).sort_order,
            final(self).is_scanning == old(self).is_scanning,
            ({
                let view = children_view(old(self).files@, old(self).current_path@);
                if old(self).selection < view.len() && view[old(self).selection as int].is_dir {
                    final(self).current_path == view[old(self).selection as int].path
                        && final(self).selection == 0
                } else {
                    final(self).current_path == old(self).current_path && final(self).selection
                        == old(self).selection
                }
            }),
    {
        let view = self.get_current_files();
        if self.selection < view.len() {
            let chosen = &view[self.selection];
            if chosen.is_dir {
                self.current_path = chosen.path.clone();
                self.selection = 0;
            }
        }
    }

    /// Moves the view to the parent of the current path, when there is
    /// one; the selection restarts at the top.
    pub fn go_up(&mut self)
        ensures
            final(self).same_store(*old(self)),
            final(self).same_recs(*old(self)),
            final(self).same_flow(*old(self)),
            final(self).same_collab(*old(self)),
            final(self).sort_order == old(self).sort_order,
            final(self).is_scanning == old(self).is_scanning,
            match parent_seq(old(self).current_path@) {
                Some(p) => final(self).current_path@ == p && final(self).selection == 0,
                None => final(self).current_path == old(self).current_path && final(self).selection == old(self).selection,
            },
    {
        match parent_of(self.current_path.as_str()) {
            Some(parent) => {
                self.current_path = parent;
                self.selection = 0;
            },
            None => {},
        }
    }

    /// Moves the selection down one entry of the current view,
    /// wrapping at the end. An empty view leaves it unchanged.
    pub fn date_next(&mut self)
        ensures
            final(self).same_store(*old(self)),
            final(self).same_recs(*old(self)),
            final(self).same_flow(*old(self)),
            final(self).same_collab(*old(self)),
            final(self).current_path == old(self).current_path,
            final(self).sort_order == old(self).sort_order,
            final(self).is_scanning == old(self).is_scanning,
            ({
                let len = children_view(old(self).files@, old(self).current_path@).len();
                if len == 0 {
                    final(self).selection == old(self).selection
                } else if old(self).selection + 1 < len {
                    final(self).selection == old(self).selection + 1
                } else {
                    final(self).selection == 0
                }
            }),
    {
        let max = self.get_current_files().len();
        if max > 0 {
            if self.selection < max - 1 {
                self.selection = self.selection + 1;
            } else {
                self.selection = 0;
            }
        }
    }

    /// Moves the selection up one entry of the current view, wrapping
    /// at the top. An empty view leaves it unchanged.
    pub fn date_prev(&mut self)
        ensures
            final(self).same_store(*old(self)),
            final(self).same_recs(*old(self)),
            final(self).same_flow(*old(self)),
            final(self).same_collab(*old(self)),
            final(self).current_path == old(self).current_path,
            final(self).sort_order == old(self).sort_order,
            final(self).is_scanning == old(self).is_scanning,
            ({
                let len = children_view(old(self).files@, old(self).current_path@).len();
                if len == 0 {
                    final(self).selection == old(self).selection
                } else if old(self).selection == 0 {
                    final(self).selection == len - 1
                } else {
                    final(self).selection == old(self).selection - 1
                }
            }),
    {
        let max = self.get_current_files().len();
        if max > 0 {
            if self.selection == 0 {
                self.selection = max - 1;
            } else {
                self.selection = self.selection - 1;
            }
        }
    }

    /// Records the selected entry as the pending deletion target and
    /// asks for confirmation. Nothing else changes: the store, totals,
    /// and selection are untouched until the action is confirmed.
    pub fn request_delete(&mut self)
        ensures
            final(self).same_store(*old(self)),
            final(self).same_recs(*old(self)),
            final(self).same_collab(*old(self)),
            final(self).sort_order == old(self).sort_order,
            final(self).is_scanning == old(self).is_scanning,
            final(self).current_path == old(self).current_path,
            final(self).selection == old(self).selection,
            ({
                let view = children_view(old(self).files@, old(self).current_path@);
                if old(self).selection < view.len() {
                    final(self).item_to_delete == Some(view[old(self).selection as int].path)
                        && final(self).mode == AppMode::DeleteConfirmation
                } else {
                    final(self).same_flow(*old(self))
                }
            }),
    {
        let view = self.get_current_files();
        if self.selection < view.len() {
            let chosen = &view[self.selection];
            self.item_to_delete = Some(chosen.path.clone());
            self.mode = AppMode::DeleteConfirmation;
        }
    }

    /// Abandons the pending deletion without side effects: the store,
    /// totals, and selection are exactly as before the request.
    pub fn cancel_delete(&mut self)
        ensures
            final(self).same_store(*old(self)),
            final(self).same_recs(*old(self)),
            final(self).same_collab(*old(self)),
            final(self).sort_order == old(self).sort_order,
            final(self).is_scanning == old(self).is_scanning,
            final(self).current_path == old(self).current_path,
            final(self).selection == old(self).selection,
            final(self).item_to_delete is None,
            final(self).mode == AppMode::Browsing,
    {
        self.item_to_delete = None;
        self.mode = AppMode::Browsing;
    }

    /// Performs the pending deletion through the deletion collaborator
    /// and returns the bytes it reported freed. On success the entry
    /// leaves the store, the total drops by its recorded size, and the
    /// selection is clamped to the view that remains. On failure the
    /// store is untouched and the error is surfaced, never swallowed.
    /// Either way the confirmation flow ends and browsing resumes.
    pub fn confirm_delete(&mut self) -> (r: Result<u64, DeletionError>)
        requires
            old(self).wf(),
        ensures
            final(self).wf(),
            final(self).same_recs(*old(self)),
            final(self).same_collab(*old(self)),
            final(self).sort_order == old(self).sort_order,
            final(self).is_scanning == old(self).is_scanning,
            final(self).current_path == old(self).current_path,
            final(self).scanned_count == old(self).scanned_count,
            final(self).item_to_delete is None,
            final(self).mode == AppMode::Browsing,
            match old(self).item_to_delete {
                None => final(self).same_store(*old(self)) && final(self).selection == old(self).selection && r == Ok::<u64, DeletionError>(0),
                Some(p) => match r {
                    Ok(_) => if has_path(old(self).files@, p@) {
                        exists|i: int|
                            {
                                &&& 0 <= i < old(self).files@.len()
                                &&& #[trigger] old(self).files@[i].path@ == p@
                                &&& final(self).files@ == old(self).files@.remove(i)
                                &&& final(self).total_size == old(self).total_size - old(self).files@[i].size
                                &&& final(self).selection == clamp_index(
                                    old(self).selection as int,
                                    children_view(
                                        final(self).files@,
                                        final(self).current_path@,
                                    ).len() as int,
                                )
                            }
                    } else {
                        final(self).same_store(*old(self)) && final(self).selection == old(self).selection
                    },
                    Err(_) => final(self).same_store(*old(self)) && final(self).selection == old(self).selection,
                },
            },
    {
        let pending = match &self.item_to_delete {
            Some(p) => Some(p.clone()),
            None => None,
        };
        match pending {
            None => {
                self.item_to_delete = None;
                self.mode = AppMode::Browsing;
                Ok(0)
            },
            Some(path) => {
                let res = self.cleaner.delete_item(path.as_str());
                match res {
                    Ok(freed) => {
                        match self.remove(path.as_str()) {
                            Ok(_) => {
                                let new_len = self.get_current_files().len();
                                if new_len == 0 {
                                    self.selection = 0;
                                } else if self.selection >= new_len {
                                    self.selection = new_len - 1;
                                }
                            },
                            Err(_) => {},
                        }
                        self.item_to_delete = None;
                        self.mode = AppMode::Browsing;
                        Ok(freed)
                    },
                    Err(e) => {
                        self.item_to_delete = None;
                        self.mode = AppMode::Browsing;
                        Err(e)
                    },
                }
            },
        }
    }
}

} // verus!
