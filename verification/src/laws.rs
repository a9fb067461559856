//! Global properties of the store and its operations, stated and
//! proved over the same spec functions the operations' contracts use.

use vstd::prelude::*;
use vstd::relations::sorted_by;

use crate::application::App;
use crate::application::children_view;
use crate::application::has_path;
use crate::application::is_child_of;
use crate::dashboard::CategoryClass;
use crate::dashboard::class_entries;
use crate::dashboard::class_pred;
use crate::dashboard::non_class_pred;
use crate::dashboard::spec_recommendations;
use crate::dashboard::RecModel;
use crate::entities::FileStats;
use crate::entities::RecommendationCategory;
use crate::entities::SortOrder;
use crate::ordering::file_le_rel;
use crate::ordering::lemma_sorted_unique_paths;
use crate::ordering::opposite;
use crate::ports::Analyzer;
use crate::ports::Cleaner;
use crate::sums::lemma_filter_all;
use crate::sums::lemma_filter_elem_contains;
use crate::sums::lemma_sum_concat;
use crate::sums::lemma_sum_remove;
use crate::sums::lemma_sum_split;
use crate::sums::sum_sizes;
use crate::sums::unique_paths;

verus! {

/// After any sequence of ingestions and removals the running total
/// equals the sum of the sizes of the entries currently present:
/// every store operation requires and re-establishes `wf`, and `wf`
/// is exactly this equation together with path uniqueness.
pub proof fn lemma_total_size_tracks_entries<C: Cleaner, A: Analyzer>(app: App<C, A>)
    requires
        app.wf(),
    ensures
        app.total_size as int == sum_sizes(app.files@),
{
}

/// Draining a batch of discovered entries keeps the accounting exact
/// at every observation point: after any prefix of a batch of fresh
/// entries the store holds the old entries followed by that prefix,
/// and the total equals the new sum — `ingest` moves the total and
/// the counter together with each insertion, so no intermediate state
/// shows one updated without the other. The premises are the ones the
/// store guarantees per event: fresh paths (duplicates are rejected)
/// and a sum within the counter's range (oversized entries are
/// rejected).
pub proof fn lemma_batch_accounting(files: Seq<FileStats>, batch: Seq<FileStats>, i: int)
    requires
        0 <= i <= batch.len(),
        unique_paths(files + batch),
    ensures
        sum_sizes(files + batch.take(i)) == sum_sizes(files) + sum_sizes(batch.take(i)),
        unique_paths(files + batch.take(i)),
        (files + batch.take(i)).len() == files.len() + i,
{
    lemma_sum_concat(files, batch.take(i));
    let pre = files + batch.take(i);
    assert forall|a: int, b: int| 0 <= a < b < pre.len() implies pre[a].path@ != pre[b].path@ by {
        assert(pre[a] == (files + batch)[a]);
        assert(pre[b] == (files + batch)[b]);
    }
}

/// Toggling the sort order twice returns the collection to its
/// original order: starting from `s0` sorted under `order`, the first
/// toggle yields a permutation `s1` sorted under the opposite order,
/// the second a permutation `s2` sorted under `order` again, and the
/// path tiebreak leaves only one such arrangement, so `s2` is `s0`.
pub proof fn lemma_toggle_sort_round_trip(
    s0: Seq<FileStats>,
    s1: Seq<FileStats>,
    s2: Seq<FileStats>,
    order: SortOrder,
)
    requires
        unique_paths(s0),
        sorted_by(s0, file_le_rel(order)),
        s1.to_multiset() == s0.to_multiset(),
        sorted_by(s1, file_le_rel(opposite(order))),
        s2.to_multiset() == s1.to_multiset(),
        sorted_by(s2, file_le_rel(order)),
    ensures
        s2 == s0,
{
    lemma_sorted_unique_paths(s0, s2, order);
}

/// The navigation view of a directory holds exactly the entries whose
/// path's parent is that directory: membership depends on the entry
/// and the directory alone, never on the order entries arrived in.
pub proof fn lemma_children_membership(files: Seq<FileStats>, dir: Seq<char>, e: FileStats)
    ensures
        children_view(files, dir).contains(e) <==> files.contains(e) && is_child_of(e, dir),
{
    broadcast use vstd::seq_lib::group_filter_ensures;

    let pred = |f: FileStats| is_child_of(f, dir);
    if children_view(files, dir).contains(e) {
        let i = choose|i: int|
            0 <= i < children_view(files, dir).len() && children_view(files, dir)[i] == e;
        lemma_filter_elem_contains(files, pred, i);
        assert(pred(children_view(files, dir)[i]));
    }
    if files.contains(e) && is_child_of(e, dir) {
        let i = choose|i: int| 0 <= i < files.len() && files[i] == e;
        assert(pred(files[i]));
    }
}

/// Deleting an entry removes it from every subsequent navigation view
/// and decreases the total by exactly its recorded size.
pub proof fn lemma_delete_updates_views(files: Seq<FileStats>, i: int, dir: Seq<char>)
    requires
        unique_paths(files),
        0 <= i < files.len(),
    ensures
        !has_path(files.remove(i), files[i].path@),
        forall|e: FileStats|
            #[trigger] children_view(files.remove(i), dir).contains(e) ==> e.path@ != files[
                i
            ].path@,
        sum_sizes(files.remove(i)) == sum_sizes(files) - files[i].size,
{
    lemma_sum_remove(files, i);
    let rest = files.remove(i);
    assert(forall|k: int| 0 <= k < i ==> rest[k] == files[k]);
    assert(forall|k: int| i <= k < rest.len() ==> rest[k] == files[k + 1]);
    assert forall|e: FileStats|
        #[trigger] children_view(rest, dir).contains(e) implies e.path@ != files[i].path@ by {
        let j = choose|j: int|
            0 <= j < children_view(rest, dir).len() && children_view(rest, dir)[j] == e;
        lemma_filter_elem_contains(rest, |f: FileStats| is_child_of(f, dir), j);
        let k = choose|k: int| 0 <= k < rest.len() && rest[k] == e;
        if k < i {
            assert(files[k] == e);
        } else {
            assert(files[k + 1] == e);
        }
    }
}

/// The navigation view of a sorted store is itself sorted: filtering
/// by the parent directory keeps the store's order, so the view
/// follows the current sort order.
pub proof fn lemma_children_sorted(
    files: Seq<FileStats>,
    dir: Seq<char>,
    order: SortOrder,
)
    requires
        sorted_by(files, file_le_rel(order)),
    ensures
        sorted_by(children_view(files, dir), file_le_rel(order)),
{
    lemma_filter_preserves_sorted(files, |f: FileStats| is_child_of(f, dir), order);
}

proof fn lemma_filter_preserves_sorted(
    s: Seq<FileStats>,
    p: spec_fn(FileStats) -> bool,
    order: SortOrder,
)
    requires
        sorted_by(s, file_le_rel(order)),
    ensures
        sorted_by(s.filter(p), file_le_rel(order)),
    decreases s.len(),
{
    reveal(Seq::filter);
    if s.len() > 0 {
        let prefix = s.drop_last();
        assert(sorted_by(prefix, file_le_rel(order))) by {
            assert(forall|k: int| 0 <= k < prefix.len() ==> prefix[k] == s[k]);
        }
        lemma_filter_preserves_sorted(prefix, p, order);
        if p(s.last()) {
            let out = prefix.filter(p).push(s.last());
            assert forall|a: int, b: int|
                0 <= a < b < out.len() implies file_le_rel(order)(out[a], out[b]) by {
                if b < out.len() - 1 {
                    assert(file_le_rel(order)(prefix.filter(p)[a], prefix.filter(p)[b]));
                } else {
                    lemma_filter_elem_contains(prefix, p, a);
                    let j = choose|j: int| 0 <= j < prefix.len() && prefix[j] == out[a];
                    assert(file_le_rel(order)(s[j], s[s.len() - 1]));
                }
            }
        }
    }
}

/// A category cleanup in which every deletion succeeded leaves no
/// entry of the family in the store, keeps the others exactly, frees
/// exactly the family's summed size, and a recommendation rebuild
/// from the remaining entries offers nothing for the log category
/// when the analyzer report is not itself a log recommendation.
pub proof fn lemma_log_cleanup_complete(
    pre: Seq<FileStats>,
    post: Seq<FileStats>,
    freed: u64,
    report: Option<RecModel>,
)
    requires
        post.filter(non_class_pred(CategoryClass::Logs)) == pre.filter(
            non_class_pred(CategoryClass::Logs),
        ),
        forall|e: FileStats|
            #[trigger] post.contains(e) ==> !in_class_logs(e),
        sum_sizes(post) == sum_sizes(pre) - freed,
        match report {
            Some(m) => m.category != RecommendationCategory::Log,
            None => true,
        },
    ensures
        post == pre.filter(non_class_pred(CategoryClass::Logs)),
        freed as int == sum_sizes(class_entries(pre, CategoryClass::Logs)),
        class_entries(post, CategoryClass::Logs).len() == 0,
        forall|j: int|
            0 <= j < spec_recommendations(post, report).len() ==> #[trigger] spec_recommendations(
                post,
                report,
            )[j].category != RecommendationCategory::Log,
{
    broadcast use vstd::seq_lib::group_filter_ensures;

    let class = CategoryClass::Logs;
    assert forall|i: int| 0 <= i < post.len() implies non_class_pred(class)(#[trigger] post[i]) by {
        assert(post.contains(post[i]));
    }
    lemma_filter_all(post, non_class_pred(class));
    lemma_sum_split(pre, class_pred(class), non_class_pred(class));
    lemma_sum_split(post, class_pred(class), non_class_pred(class));
    if class_entries(post, class).len() > 0 {
        lemma_filter_elem_contains(post, class_pred(class), 0);
        assert(class_pred(class)(class_entries(post, class)[0]));
        assert(false);
    }
    crate::sums::lemma_sum_nonneg(class_entries(post, class));
    let recs = spec_recommendations(post, report);
    assert forall|j: int|
        0 <= j < recs.len() implies #[trigger] recs[j].category
        != RecommendationCategory::Log by {
        assert(sum_sizes(class_entries(post, class)) == 0);
    }
}

/// Membership of the log family, spelled out for the cleanup law.
pub open spec fn in_class_logs(e: FileStats) -> bool {
    crate::dashboard::in_class(e.file_type, CategoryClass::Logs)
}

} // verus!