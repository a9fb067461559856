//! The recommendation engine and the category cleanup flow.
//!
//! Recommendations are recomputed wholesale from the current entries,
//! grouped by category in a fixed priority order (logs, then the cache
//! family, then container data), one recommendation per category with
//! a nonzero aggregate size. For container data the live analyzer
//! report takes precedence; without one, the locally aggregated size
//! is used and the description notes the fallback. The computation is
//! a function of the entries and the report alone, so an unchanged
//! store and report always yield the same list.

use vstd::prelude::*;

use crate::application::App;
use crate::application::AppMode;
use crate::application::has_path;
use crate::entities::FileStats;
use crate::entities::FileType;
use crate::entities::Recommendation;
use crate::entities::RecommendationCategory;
use crate::ports::Analyzer;
use crate::ports::Cleaner;
use crate::sums::lemma_sum_filter_le;
use crate::sums::lemma_sum_nonneg;
use crate::sums::lemma_sum_prefix_le;
use crate::sums::lemma_sum_push;
use crate::sums::sum_sizes;
use crate::textutil::dec_rep;
use crate::textutil::usize_to_string;

verus! {

/// A family of entry classifications addressed by one cleanup action.
#[derive(Debug, Clone, Copy, PartialEq, Eq, Structural)]
pub enum CategoryClass {
    Logs,
    Caches,
    DockerData,
}

/// Whether a classification belongs to the family.
pub open spec fn in_class(t: FileType, c: CategoryClass) -> bool {
    match c {
        CategoryClass::Logs => t == FileType::Log,
        CategoryClass::Caches => t == FileType::Cache || t == FileType::NpmCache || t
            == FileType::ComposerCache || t == FileType::AptCache,
        CategoryClass::DockerData => t == FileType::Docker,
    }
}

/// Executable test for `in_class`.
pub fn matches_class(t: FileType, c: CategoryClass) -> (r: bool)
    ensures
        r == in_class(t, c),
{
    match c {
        CategoryClass::Logs => matches!(t, FileType::Log),
        CategoryClass::Caches => matches!(
            t,
            FileType::Cache | FileType::NpmCache | FileType::ComposerCache | FileType::AptCache
        ),
        CategoryClass::DockerData => matches!(t, FileType::Docker),
    }
}

/// The family membership test, as a predicate value.
pub open spec fn class_pred(c: CategoryClass) -> spec_fn(FileStats) -> bool {
    |f: FileStats| in_class(f.file_type, c)
}

/// The complement of the family membership test.
pub open spec fn non_class_pred(c: CategoryClass) -> spec_fn(FileStats) -> bool {
    |f: FileStats| !in_class(f.file_type, c)
}

/// The entries of one family, in store order.
pub open spec fn class_entries(files: Seq<FileStats>, c: CategoryClass) -> Seq<FileStats> {
    files.filter(class_pred(c))
}

/// The mathematical content of a recommendation: every field read
/// through its view.
pub ghost struct RecModel {
    pub category: RecommendationCategory,
    pub description: Seq<char>,
    pub size: u64,
    pub path: Option<Seq<char>>,
    pub action_command: Option<Seq<char>>,
}

/// The model of one recommendation value.
pub open spec fn rec_model(r: Recommendation) -> RecModel {
    RecModel {
        category: r.category,
        description: r.description@,
        size: r.size,
        path: match r.path {
            Some(p) => Some(p@),
            None => None,
        },
        action_command: match r.action_command {
            Some(c) => Some(c@),
            None => None,
        },
    }
}

/// The models of a recommendation list.
pub open spec fn rec_models(s: Seq<Recommendation>) -> Seq<RecModel> {
    s.map_values(|r: Recommendation| rec_model(r))
}

/// Description of the log recommendation, naming the file count.
pub open spec fn log_description(count: int) -> Seq<char> {
    "Log files found ("@ + dec_rep(count) + " files)"@
}

/// The log recommendation for these entries.
pub open spec fn log_rec(files: Seq<FileStats>) -> RecModel {
    RecModel {
        category: RecommendationCategory::Log,
        description: log_description(class_entries(files, CategoryClass::Logs).len() as int),
        size: sum_sizes(class_entries(files, CategoryClass::Logs)) as u64,
        path: None,
        action_command: None,
    }
}

/// The cache recommendation for these entries.
pub open spec fn cache_rec(files: Seq<FileStats>) -> RecModel {
    RecModel {
        category: RecommendationCategory::Cache,
        description: "Application & Package Caches"@,
        size: sum_sizes(class_entries(files, CategoryClass::Caches)) as u64,
        path: None,
        action_command: None,
    }
}

/// The container-data recommendation built from locally aggregated
/// sizes, used when no live report is available.
pub open spec fn docker_fallback_rec(files: Seq<FileStats>) -> RecModel {
    RecModel {
        category: RecommendationCategory::Docker,
        description: "Docker Data (Volumes/Images) [CLI not available]"@,
        size: sum_sizes(class_entries(files, CategoryClass::DockerData)) as u64,
        path: None,
        action_command: None,
    }
}

/// The full recommendation list for these entries and this analyzer
/// report: one recommendation per category with nonzero size, logs
/// first, then caches, then container data. Deterministic in its two
/// arguments, so recomputation with unchanged inputs is idempotent.
pub open spec fn spec_recommendations(files: Seq<FileStats>, report: Option<RecModel>) -> Seq<
    RecModel,
> {
    let logs = if sum_sizes(class_entries(files, CategoryClass::Logs)) > 0 {
        seq![log_rec(files)]
    } else {
        Seq::<RecModel>::empty()
    };
    let caches = if sum_sizes(class_entries(files, CategoryClass::Caches)) > 0 {
        seq![cache_rec(files)]
    } else {
        Seq::<RecModel>::empty()
    };
    let docker = match report {
        Some(m) => seq![m],
        None => if sum_sizes(class_entries(files, CategoryClass::DockerData)) > 0 {
            seq![docker_fallback_rec(files)]
        } else {
            Seq::<RecModel>::empty()
        },
    };
    logs + caches + docker
}

/// The model of an optional report value.
pub open spec fn report_model(r: Option<Recommendation>) -> Option<RecModel> {
    match r {
        Some(rec) => Some(rec_model(rec)),
        None => None,
    }
}

/// The batch summary of a category cleanup: the bytes that left the
/// store, the paths whose deletion failed (those entries stay
/// visible), and whether an out-of-band remediation action failed.
#[derive(Debug)]
pub struct CleanupReport {
    pub freed: u64,
    pub failures: Vec<String>,
    pub prune_failed: bool,
}

/// One of the strings reads as this sequence.
pub open spec fn has_str(ss: Seq<String>, p: Seq<char>) -> bool {
    exists|k: int| 0 <= k < ss.len() && #[trigger] ss[k]@ == p
}

/// Some entry of `files` has this path and belongs to the family.
pub open spec fn names_class_entry(files: Seq<FileStats>, p: Seq<char>, class: CategoryClass) -> bool {
    exists|i: int|
        0 <= i < files.len() && #[trigger] files[i].path@ == p && in_class(
            files[i].file_type,
            class,
        )
}

/// The paths of one family's entries, in store order.
fn collect_class_paths(files: &Vec<FileStats>, c: CategoryClass) -> (r: Vec<String>)
    ensures
        r@.len() == class_entries(files@, c).len(),
        forall|k: int|
            0 <= k < r@.len() ==> #[trigger] r@[k]@ == class_entries(files@, c)[k].path@,
{
    let ghost pred = class_pred(c);
    let n = files.len();
    let mut acc: Vec<String> = Vec::new();
    proof {
        reveal(Seq::filter);
        assert(files@.subrange(0, 0).filter(pred) =~= Seq::<FileStats>::empty());
    }
    let mut i: usize = 0;
    while i < n
        invariant
            n == files@.len(),
            i <= n,
            pred == class_pred(c),
            acc@.len() == files@.subrange(0, i as int).filter(pred).len(),
            forall|k: int|
                0 <= k < acc@.len() ==> #[trigger] acc@[k]@ == files@.subrange(
                    0,
                    i as int,
                ).filter(pred)[k].path@,
        decreases n - i,
    {
        let ghost prefix = files@.subrange(0, i as int);
        let ghost next = files@.subrange(0, i + 1);
        proof {
            reveal(Seq::filter);
            assert(next.drop_last() =~= prefix);
            assert(next.last() == files@[i as int]);
        }
        if matches_class(files[i].file_type, c) {
            acc.push(files[i].path.clone());
        }
        i += 1;
    }
    proof {
        assert(files@.subrange(0, n as int) =~= files@);
    }
    acc
}

/// Aggregate size and count of one family of entries.
fn class_totals(files: &Vec<FileStats>, c: CategoryClass) -> (r: (u64, usize))
    requires
        sum_sizes(files@) <= u64::MAX,
    ensures
        r.0 as int == sum_sizes(class_entries(files@, c)),
        r.1 == class_entries(files@, c).len(),
{
    let ghost pred = class_pred(c);
    let n = files.len();
    let mut acc: u64 = 0;
    let mut cnt: usize = 0;
    proof {
        reveal(Seq::filter);
        assert(files@.subrange(0, 0).filter(pred) =~= Seq::<FileStats>::empty());
    }
    let mut i: usize = 0;
    while i < n
        invariant
            n == files@.len(),
            i <= n,
            sum_sizes(files@) <= u64::MAX,
            pred == class_pred(c),
            acc as int == sum_sizes(files@.subrange(0, i as int).filter(pred)),
            cnt == files@.subrange(0, i as int).filter(pred).len(),
            cnt <= i,
        decreases n - i,
    {
        let ghost prefix = files@.subrange(0, i as int);
        let ghost next = files@.subrange(0, i + 1);
        proof {
            reveal(Seq::filter);
            assert(next.drop_last() =~= prefix);
            assert(next.last() == files@[i as int]);
            lemma_sum_filter_le(next, pred);
            lemma_sum_prefix_le(files@, i + 1);
            if pred(files@[i as int]) {
                lemma_sum_push(prefix.filter(pred), files@[i as int]);
            }
        }
        if matches_class(files[i].file_type, c) {
            acc = acc + files[i].size;
            cnt = cnt + 1;
        }
        i += 1;
    }
    proof {
        assert(files@.subrange(0, n as int) =~= files@);
    }
    (acc, cnt)
}

impl<C: Cleaner, A: Analyzer> App<C, A> {
    /// Discards the old recommendation list and rebuilds it from the
    /// current entries and the given analyzer report; the cursor
    /// restarts at the top. The store itself is untouched.
    pub fn rebuild_recommendations(&mut self, report: Option<Recommendation>)
        requires
            old(self).wf(),
        ensures
            final(self).wf(),
            final(self).same_store(*old(self)),
            final(self).same_nav(*old(self)),
            final(self).same_flow(*old(self)),
            final(self).same_collab(*old(self)),
            final(self).recommendation_selection == 0,
            rec_models(final(self).recommendations@) == spec_recommendations(
                old(self).files@,
                report_model(report),
            ),
    {
        let ghost repm = report_model(report);
        let ghost files = self.files@;
        self.recommendations = Vec::new();
        self.recommendation_selection = 0;
        let ghost mut exp: Seq<RecModel> = Seq::empty();
        proof {
            assert(rec_models(self.recommendations@) =~= exp);
            lemma_sum_nonneg(class_entries(files, CategoryClass::Logs));
            lemma_sum_nonneg(class_entries(files, CategoryClass::Caches));
            lemma_sum_nonneg(class_entries(files, CategoryClass::DockerData));
        }
        let (log_size, log_count) = class_totals(&self.files, CategoryClass::Logs);
        if log_size > 0 {
            let desc = String::from_str("Log files found (").concat(
                usize_to_string(log_count).as_str(),
            ).concat(" files)");
            let rec = Recommendation {
                category: RecommendationCategory::Log,
                description: desc,
                size: log_size,
                path: None,
                action_command: None,
            };
            proof {
                assert(rec_model(rec) == log_rec(files));
                exp = exp.push(log_rec(files));
            }
            self.recommendations.push(rec);
            proof {
                assert(rec_models(self.recommendations@) =~= exp);
            }
        }
        let (cache_size, _cache_count) = class_totals(&self.files, CategoryClass::Caches);
        if cache_size > 0 {
            let rec = Recommendation {
                category: RecommendationCategory::Cache,
                description: String::from_str("Application & Package Caches"),
                size: cache_size,
                path: None,
                action_command: None,
            };
            proof {
                assert(rec_model(rec) == cache_rec(files));
                exp = exp.push(cache_rec(files));
            }
            self.recommendations.push(rec);
            proof {
                assert(rec_models(self.recommendations@) =~= exp);
            }
        }
        match report {
            Some(rec) => {
                proof {
                    exp = exp.push(rec_model(rec));
                }
                self.recommendations.push(rec);
                proof {
                    assert(rec_models(self.recommendations@) =~= exp);
                }
            },
            None => {
                let (docker_size, _docker_count) = class_totals(
                    &self.files,
                    CategoryClass::DockerData,
                );
                if docker_size > 0 {
                    let rec = Recommendation {
                        category: RecommendationCategory::Docker,
                        description: String::from_str(
                            "Docker Data (Volumes/Images) [CLI not available]",
                        ),
                        size: docker_size,
                        path: None,
                        action_command: None,
                    };
                    proof {
                        assert(rec_model(rec) == docker_fallback_rec(files));
                        exp = exp.push(docker_fallback_rec(files));
                    }
                    self.recommendations.push(rec);
                    proof {
                        assert(rec_models(self.recommendations@) =~= exp);
                    }
                }
            },
        }
        proof {
            assert(exp =~= spec_recommendations(files, repm));
        }
    }

    /// Rebuilds the recommendations after consulting the live
    /// analyzer: its report, when it gives one, takes precedence over
    /// the locally aggregated container-data size; an unavailable or
    /// failing analyzer falls back to the local aggregate. Whatever
    /// the analyzer returned, the resulting list is the one
    /// `spec_recommendations` gives for some report.
    pub fn scan_dashboard(&mut self)
        requires
            old(self).wf(),
        ensures
            final(self).wf(),
            final(self).same_store(*old(self)),
            final(self).same_nav(*old(self)),
            final(self).same_flow(*old(self)),
            final(self).same_collab(*old(self)),
            final(self).recommendation_selection == 0,
            exists|rep: Option<RecModel>|
                rec_models(final(self).recommendations@) == #[trigger] spec_recommendations(
                    old(self).files@,
                    rep,
                ),
    {
        let report = match self.analyzer.analyze() {
            Ok(Some(rec)) => Some(rec),
            Ok(None) => None,
            Err(_) => None,
        };
        let ghost repm = report_model(report);
        self.rebuild_recommendations(report);
        proof {
            assert(rec_models(self.recommendations@) == spec_recommendations(
                old(self).files@,
                repm,
            ));
        }
    }

    /// Moves the recommendation cursor down one entry, wrapping.
    pub fn dashboard_next(&mut self)
        ensures
            final(self).same_store(*old(self)),
            final(self).same_nav(*old(self)),
            final(self).same_flow(*old(self)),
            final(self).same_collab(*old(self)),
            final(self).recommendations == old(self).recommendations,
            ({
                let len = old(self).recommendations@.len();
                if len == 0 {
                    final(self).recommendation_selection == old(self).recommendation_selection
                } else if old(self).recommendation_selection + 1 < len {
                    final(self).recommendation_selection == old(self).recommendation_selection + 1
                } else {
                    final(self).recommendation_selection == 0
                }
            }),
    {
        let max = self.recommendations.len();
        if max > 0 {
            if self.recommendation_selection < max - 1 {
                self.recommendation_selection = self.recommendation_selection + 1;
            } else {
                self.recommendation_selection = 0;
            }
        }
    }

    /// Moves the recommendation cursor up one entry, wrapping.
    pub fn dashboard_prev(&mut self)
        ensures
            final(self).same_store(*old(self)),
            final(self).same_nav(*old(self)),
            final(self).same_flow(*old(self)),
            final(self).same_collab(*old(self)),
            final(self).recommendations == old(self).recommendations,
            ({
                let len = old(self).recommendations@.len();
                if len == 0 {
                    final(self).recommendation_selection == old(self).recommendation_selection
                } else if old(self).recommendation_selection == 0 {
                    final(self).recommendation_selection == len - 1
                } else {
                    final(self).recommendation_selection == old(self).recommendation_selection - 1
                }
            }),
    {
        let max = self.recommendations.len();
        if max > 0 {
            if self.recommendation_selection == 0 {
                self.recommendation_selection = max - 1;
            } else {
                self.recommendation_selection = self.recommendation_selection - 1;
            }
        }
    }

    /// Asks for confirmation of the selected recommendation's cleanup.
    /// Nothing is deleted yet.
    pub fn request_clean_recommendation(&mut self)
        ensures
            final(self).same_store(*old(self)),
            final(self).same_nav(*old(self)),
            final(self).same_recs(*old(self)),
            final(self).same_collab(*old(self)),
            final(self).item_to_delete == old(self).item_to_delete,
            if old(self).recommendations@.len() > 0 {
                final(self).mode == AppMode::DashboardCleanupConfirmation
            } else {
                final(self).mode == old(self).mode
            },
    {
        if !self.recommendations.is_empty() {
            self.mode = AppMode::DashboardCleanupConfirmation;
        }
    }

    /// The recommendation list was rebuilt from these entries (for
    /// some analyzer report), with the cursor back at the top.
    pub open spec fn recs_rebuilt_from(self, files: Seq<FileStats>) -> bool {
        &&& self.recommendation_selection == 0
        &&& exists|rep: Option<RecModel>|
            rec_models(self.recommendations@) == #[trigger] spec_recommendations(files, rep)
    }

    /// What a category cleanup did to the store, whatever the
    /// deletion collaborator decided per entry: entries outside the
    /// family are exactly preserved; every surviving entry was
    /// present before; every surviving entry of the family is listed
    /// among the failures; the freed total is exactly what left the
    /// running total; and each failure names an entry of the family
    /// that was present before.
    pub open spec fn category_cleaned(
        self,
        pre: Self,
        rep: CleanupReport,
        class: CategoryClass,
    ) -> bool {
        &&& self.files@.filter(non_class_pred(class)) == pre.files@.filter(
            non_class_pred(class),
        )
        &&& forall|e: FileStats| #[trigger] self.files@.contains(e) ==> pre.files@.contains(e)
        &&& forall|e: FileStats|
            #[trigger] self.files@.contains(e) && in_class(e.file_type, class) ==> has_str(
                rep.failures@,
                e.path@,
            )
        &&& self.total_size == pre.total_size - rep.freed
        &&& forall|k: int|
            #![trigger rep.failures@[k]]
            0 <= k < rep.failures@.len() ==> names_class_entry(
                pre.files@,
                rep.failures@[k]@,
                class,
            )
    }

    /// Deletes every entry of one family through the deletion
    /// collaborator, continuing past per-item failures: one failing
    /// item never aborts the rest. Successfully deleted entries leave
    /// the store and their recorded sizes are summed into the freed
    /// total; failed items stay visible and are collected for the
    /// batch report.
    pub fn clean_category(&mut self, class: CategoryClass) -> (rep: CleanupReport)
        requires
            old(self).wf(),
        ensures
            final(self).wf(),
            final(self).same_nav(*old(self)),
            final(self).same_recs(*old(self)),
            final(self).same_flow(*old(self)),
            final(self).same_collab(*old(self)),
            final(self).scanned_count == old(self).scanned_count,
            final(self).category_cleaned(*old(self), rep, class),
            !rep.prune_failed,
    {
        let targets = collect_class_paths(&self.files, class);
        let ghost cls = class_entries(old(self).files@, class);
        let mut freed: u64 = 0;
        let mut failures: Vec<String> = Vec::new();
        let n = targets.len();
        let mut t: usize = 0;
        proof {
            broadcast use vstd::seq_lib::group_filter_ensures;

            assert forall|e: FileStats|
                #[trigger] self.files@.contains(e) && in_class(
                e.file_type,
                class,
            ) implies exists|k: int| 0 <= k < n && #[trigger] targets@[k]@ == e.path@ by {
                let i = choose|i: int| 0 <= i < old(self).files@.len() && old(self).files@[i] == e;
                assert(cls.contains(old(self).files@[i]));
                let k = choose|k: int| 0 <= k < cls.len() && cls[k] == e;
                assert(targets@[k]@ == e.path@);
            }
        }
        while t < n
            invariant
                self.wf(),
                self.same_nav(*old(self)),
                self.same_recs(*old(self)),
                self.same_flow(*old(self)),
                self.same_collab(*old(self)),
                self.scanned_count == old(self).scanned_count,
                old(self).wf(),
                n == targets@.len(),
                t <= n,
                cls == class_entries(old(self).files@, class),
                n == cls.len(),
                forall|k: int| 0 <= k < n ==> #[trigger] targets@[k]@ == cls[k].path@,
                freed as int == old(self).total_size - self.total_size,
                self.files@.filter(non_class_pred(class)) == old(self).files@.filter(
                    non_class_pred(class),
                ),
                forall|e: FileStats| #[trigger] self.files@.contains(e) ==> old(self).files@.contains(e),
                forall|e: FileStats|
                    #[trigger] self.files@.contains(e) && in_class(e.file_type, class) ==> has_str(
                        failures@,
                        e.path@,
                    ) || exists|k: int| t <= k < n && #[trigger] targets@[k]@ == e.path@,
                forall|k: int|
                    #![trigger failures@[k]]
                    0 <= k < failures@.len() ==> names_class_entry(
                        old(self).files@,
                        failures@[k]@,
                        class,
                    ),
            decreases n - t,
        {
            let ghost cur = *self;
            let ghost old_failures = failures@;
            let path = targets[t].clone();
            proof {
                broadcast use vstd::seq_lib::group_filter_ensures;

                crate::sums::lemma_filter_elem_contains(
                    old(self).files@,
                    class_pred(class),
                    t as int,
                );
                assert(cls[t as int].path@ == path@);
                assert(old(self).files@.contains(cls[t as int]));
                assert(in_class(cls[t as int].file_type, class));
                assert(names_class_entry(old(self).files@, path@, class)) by {
                    let b = choose|b: int|
                        0 <= b < old(self).files@.len() && old(self).files@[b] == cls[t as int];
                    assert(old(self).files@[b].path@ == path@);
                }
            }
            match self.cleaner.delete_item(path.as_str()) {
                Ok(_) => {
                    match self.remove(path.as_str()) {
                        Ok(size) => {
                            proof {
                                let i = choose|i: int|
                                    {
                                        &&& 0 <= i < cur.files@.len()
                                        &&& #[trigger] cur.files@[i].path@ == path@
                                        &&& cur.files@[i].size == size
                                        &&& self.files@ == cur.files@.remove(i)
                                    };
                                let removed = cur.files@[i];
                                // the removed entry is the family entry with
                                // this path: paths are unique
                                assert(cur.files@.contains(removed));
                                assert(old(self).files@.contains(removed));
                                let a = choose|a: int|
                                    0 <= a < old(self).files@.len() && old(self).files@[a] == removed;
                                let b = choose|b: int|
                                    0 <= b < old(self).files@.len() && old(self).files@[b] == cls[t as int];
                                assert(old(self).files@[a].path@ == old(self).files@[b].path@);
                                assert(a == b);
                                assert(in_class(removed.file_type, class));
                                crate::sums::lemma_filter_remove_nonmatch(
                                    cur.files@,
                                    i,
                                    non_class_pred(class),
                                );
                                assert(forall|j: int|
                                    0 <= j < i ==> self.files@[j] == cur.files@[j]);
                                assert(forall|j: int|
                                    i <= j < self.files@.len() ==> self.files@[j]
                                        == cur.files@[j + 1]);
                                assert forall|e: FileStats|
                                    #[trigger] self.files@.contains(e) implies cur.files@.contains(
                                    e,
                                ) by {
                                    let j = choose|j: int|
                                        0 <= j < self.files@.len() && self.files@[j] == e;
                                    if j < i {
                                        assert(cur.files@[j] == e);
                                    } else {
                                        assert(cur.files@[j + 1] == e);
                                    }
                                }
                                assert forall|e: FileStats|
                                    #[trigger] self.files@.contains(e) && in_class(
                                    e.file_type,
                                    class,
                                ) implies has_str(failures@, e.path@) || exists|k: int|
                                    t + 1 <= k < n && #[trigger] targets@[k]@ == e.path@ by {
                                    assert(cur.files@.contains(e));
                                    if !has_str(failures@, e.path@) {
                                        let k = choose|k: int|
                                            t <= k < n && #[trigger] targets@[k]@ == e.path@;
                                        if k == t {
                                            assert(e.path@ == path@);
                                            assert(!has_path(self.files@, path@));
                                            let j = choose|j: int|
                                                0 <= j < self.files@.len() && self.files@[j] == e;
                                            assert(self.files@[j].path@ == path@);
                                            assert(false);
                                        }
                                    }
                                }
                            }
                            freed = freed + size;
                        },
                        Err(_) => {
                            proof {
                                assert(!has_path(cur.files@, path@));
                                assert forall|e: FileStats|
                                    #[trigger] self.files@.contains(e) && in_class(
                                    e.file_type,
                                    class,
                                ) implies has_str(failures@, e.path@) || exists|k: int|
                                    t + 1 <= k < n && #[trigger] targets@[k]@ == e.path@ by {
                                    if !has_str(failures@, e.path@) {
                                        let k = choose|k: int|
                                            t <= k < n && #[trigger] targets@[k]@ == e.path@;
                                        if k == t {
                                            let j = choose|j: int|
                                                0 <= j < self.files@.len() && self.files@[j] == e;
                                            assert(self.files@[j].path@ == path@);
                                            assert(false);
                                        }
                                    }
                                }
                            }
                        },
                    }
                },
                Err(_) => {
                    failures.push(path);
                    proof {
                        assert forall|e: FileStats|
                            #[trigger] self.files@.contains(e) && in_class(
                            e.file_type,
                            class,
                        ) implies has_str(failures@, e.path@) || exists|k: int|
                            t + 1 <= k < n && #[trigger] targets@[k]@ == e.path@ by {
                            if !has_str(old_failures, e.path@) {
                                let k = choose|k: int|
                                    t <= k < n && #[trigger] targets@[k]@ == e.path@;
                                if k == t {
                                    assert(failures@[failures@.len() - 1]@ == e.path@);
                                    assert(has_str(failures@, e.path@));
                                }
                            } else {
                                let k = choose|k: int|
                                    0 <= k < old_failures.len() && old_failures[k]@ == e.path@;
                                assert(failures@[k]@ == e.path@);
                                assert(has_str(failures@, e.path@));
                            }
                        }
                    }
                },
            }
            t += 1;
        }
        let ghost fs = failures@;
        let rep = CleanupReport { freed, failures, prune_failed: false };
        proof {
            assert(rep.failures@ == fs);
            assert forall|k: int|
                #![trigger rep.failures@[k]]
                0 <= k < rep.failures@.len() implies names_class_entry(
                old(self).files@,
                rep.failures@[k]@,
                class,
            ) by {
                assert(0 <= k < fs.len());
                assert(fs[k]@ == rep.failures@[k]@);
                assert(names_class_entry(old(self).files@, fs[k]@, class));
            }
            assert forall|e: FileStats|
                #[trigger] self.files@.contains(e) && in_class(
                e.file_type,
                class,
            ) implies has_str(rep.failures@, e.path@) by {
                assert(has_str(fs, e.path@));
                let k = choose|k: int| 0 <= k < fs.len() && #[trigger] fs[k]@ == e.path@;
                assert(rep.failures@[k]@ == e.path@);
            }
        }
        rep
    }

    /// Performs the cleanup of the selected recommendation after
    /// confirmation: filesystem-addressable families (logs, caches)
    /// are deleted entry by entry; the container-data action runs the
    /// analyzer's out-of-band remediation when the recommendation
    /// carries one, and a failure of it is reported, not swallowed.
    /// Afterwards the recommendations are rebuilt from what actually
    /// remains, and the dashboard is shown again.
    pub fn confirm_clean_recommendation(&mut self) -> (rep: CleanupReport)
        requires
            old(self).wf(),
        ensures
            final(self).wf(),
            final(self).mode == AppMode::Dashboard,
            final(self).same_nav(*old(self)),
            final(self).same_collab(*old(self)),
            final(self).item_to_delete == old(self).item_to_delete,
            final(self).scanned_count == old(self).scanned_count,
            ({
                let recs = old(self).recommendations@;
                let sel = old(self).recommendation_selection;
                if sel < recs.len() {
                    match recs[sel as int].category {
                        RecommendationCategory::Log => {
                            &&& final(self).category_cleaned(
                                *old(self),
                                rep,
                                CategoryClass::Logs,
                            )
                            &&& final(self).recs_rebuilt_from(final(self).files@)
                            &&& !rep.prune_failed
                        },
                        RecommendationCategory::Cache => {
                            &&& final(self).category_cleaned(
                                *old(self),
                                rep,
                                CategoryClass::Caches,
                            )
                            &&& final(self).recs_rebuilt_from(final(self).files@)
                            &&& !rep.prune_failed
                        },
                        RecommendationCategory::Docker => {
                            &&& final(self).same_store(*old(self))
                            &&& final(self).recs_rebuilt_from(final(self).files@)
                            &&& rep.freed == 0
                            &&& rep.failures@.len() == 0
                            &&& (recs[sel as int].action_command is None ==> !rep.prune_failed)
                        },
                        _ => {
                            &&& final(self).same_store(*old(self))
                            &&& final(self).same_recs(*old(self))
                            &&& rep.freed == 0
                            &&& rep.failures@.len() == 0
                            &&& !rep.prune_failed
                        },
                    }
                } else {
                    &&& final(self).same_store(*old(self))
                    &&& final(self).same_recs(*old(self))
                    &&& rep.freed == 0
                    &&& rep.failures@.len() == 0
                    &&& !rep.prune_failed
                }
            }),
    {
        let rep: CleanupReport;
        if self.recommendation_selection < self.recommendations.len() {
            let cat = self.recommendations[self.recommendation_selection].category;
            match cat {
                RecommendationCategory::Docker => {
                    let has_cmd = self.recommendations[
                        self.recommendation_selection
                    ].action_command.is_some();
                    let mut prune_failed = false;
                    if has_cmd {
                        match self.analyzer.prune() {
                            Ok(()) => {},
                            Err(_) => {
                                prune_failed = true;
                            },
                        }
                    }
                    self.scan_dashboard();
                    rep = CleanupReport { freed: 0, failures: Vec::new(), prune_failed };
                },
                RecommendationCategory::Log => {
                    rep = self.clean_category(CategoryClass::Logs);
                    self.scan_dashboard();
                },
                RecommendationCategory::Cache => {
                    rep = self.clean_category(CategoryClass::Caches);
                    self.scan_dashboard();
                },
                RecommendationCategory::Trash => {
                    rep = CleanupReport { freed: 0, failures: Vec::new(), prune_failed: false };
                },
                RecommendationCategory::Other => {
                    rep = CleanupReport { freed: 0, failures: Vec::new(), prune_failed: false };
                },
            }
        } else {
            rep = CleanupReport { freed: 0, failures: Vec::new(), prune_failed: false };
        }
        self.mode = AppMode::Dashboard;
        rep
    }

    /// Abandons the pending category cleanup without side effects.
    pub fn cancel_clean(&mut self)
        ensures
            final(self).same_store(*old(self)),
            final(self).same_nav(*old(self)),
            final(self).same_recs(*old(self)),
            final(self).same_collab(*old(self)),
            final(self).item_to_delete == old(self).item_to_delete,
            final(self).mode == AppMode::Dashboard,
    {
        self.mode = AppMode::Dashboard;
    }
}

} // verus!
