//! The ordering of the aggregate view: entries are compared by size in
//! the current direction, with ties broken by path so that the sorted
//! arrangement is deterministic.

use vstd::prelude::*;
use vstd::relations::sorted_by;

use crate::entities::FileStats;
use crate::entities::SortOrder;
use crate::sums::unique_paths;
use crate::textutil::lemma_lex_antisym;
use crate::textutil::lemma_lex_total;
use crate::textutil::lemma_lex_trans;
use crate::textutil::lex_leq;
use crate::textutil::lex_leq_str;

verus! {

/// The other direction.
pub open spec fn opposite(order: SortOrder) -> SortOrder {
    match order {
        SortOrder::Desc => SortOrder::Asc,
        SortOrder::Asc => SortOrder::Desc,
    }
}

/// `a` comes no later than `b` under `order`: by size in the given
/// direction, ties broken by path.
pub open spec fn file_le(order: SortOrder, a: FileStats, b: FileStats) -> bool {
    match order {
        SortOrder::Desc => a.size > b.size || (a.size == b.size && lex_leq(a.path@, b.path@)),
        SortOrder::Asc => a.size < b.size || (a.size == b.size && lex_leq(a.path@, b.path@)),
    }
}

/// The comparison as a relation, for use with `sorted_by`.
pub open spec fn file_le_rel(order: SortOrder) -> spec_fn(FileStats, FileStats) -> bool {
    |a: FileStats, b: FileStats| file_le(order, a, b)
}

pub proof fn lemma_file_le_connected(order: SortOrder, a: FileStats, b: FileStats)
    ensures
        file_le(order, a, b) || file_le(order, b, a),
{
    if a.size == b.size {
        lemma_lex_total(a.path@, b.path@);
    }
}

pub proof fn lemma_file_le_trans(order: SortOrder, a: FileStats, b: FileStats, c: FileStats)
    requires
        file_le(order, a, b),
        file_le(order, b, c),
    ensures
        file_le(order, a, c),
{
    if a.size == b.size && b.size == c.size {
        lemma_lex_trans(a.path@, b.path@, c.path@);
    }
}

/// Comparison of two entries under the given order.
pub fn file_le_exec(order: SortOrder, a: &FileStats, b: &FileStats) -> (r: bool)
    ensures
        r == file_le(order, *a, *b),
{
    match order {
        SortOrder::Desc => {
            if a.size > b.size {
                true
            } else if a.size == b.size {
                lex_leq_str(a.path.as_str(), b.path.as_str())
            } else {
                false
            }
        },
        SortOrder::Asc => {
            if a.size < b.size {
                true
            } else if a.size == b.size {
                lex_leq_str(a.path.as_str(), b.path.as_str())
            } else {
                false
            }
        },
    }
}

/// A sorted arrangement of entries with unique paths is unique: two
/// sorted sequences holding the same entries are equal.
pub proof fn lemma_sorted_unique_paths(x: Seq<FileStats>, y: Seq<FileStats>, order: SortOrder)
    requires
        sorted_by(x, file_le_rel(order)),
        sorted_by(y, file_le_rel(order)),
        x.to_multiset() == y.to_multiset(),
        unique_paths(x),
    ensures
        x == y,
    decreases x.len(),
{
    broadcast use vstd::seq_lib::group_to_multiset_ensures;
    broadcast use vstd::multiset::group_multiset_axioms;

    x.to_multiset_ensures();
    y.to_multiset_ensures();
    if x.len() == 0 {
        assert(y.len() == 0);
        assert(x =~= y);
    } else {
        assert(y.len() > 0);
        assert(x.contains(x[0]));
        assert(y.to_multiset().count(x[0]) > 0);
        assert(y.contains(x[0]));
        let j = choose|j: int| 0 <= j < y.len() && y[j] == x[0];
        assert(x.to_multiset().count(y[0]) > 0);
        assert(x.contains(y[0]));
        let i = choose|i: int| 0 <= i < x.len() && x[i] == y[0];
        if i != 0 && j != 0 {
            assert(file_le_rel(order)(y[0], y[j]));
            assert(file_le_rel(order)(x[0], x[i]));
            assert(file_le(order, y[0], y[j]));
            assert(file_le(order, x[0], x[i]));
            assert(file_le(order, x[0], y[0]));
            assert(file_le(order, y[0], x[0]));
            assert(x[0].size == x[i].size);
            lemma_lex_antisym(x[0].path@, x[i].path@);
            assert(x[0].path@ == x[i].path@);
            assert(false);
        }
        assert(x[0] == y[0]);
        let xs = x.drop_first();
        let ys = y.drop_first();
        assert(x.remove(0) =~= xs);
        assert(y.remove(0) =~= ys);
        assert(xs.to_multiset() == x.to_multiset().remove(x[0]));
        assert(ys.to_multiset() == y.to_multiset().remove(y[0]));
        assert(xs.to_multiset() =~= ys.to_multiset());
        assert(sorted_by(xs, file_le_rel(order))) by {
            assert(forall|a: int, b: int|
                0 <= a < b < xs.len() ==> xs[a] == x[a + 1] && xs[b] == x[b + 1]);
        }
        assert(sorted_by(ys, file_le_rel(order))) by {
            assert(forall|a: int, b: int|
                0 <= a < b < ys.len() ==> ys[a] == y[a + 1] && ys[b] == y[b + 1]);
        }
        assert(unique_paths(xs)) by {
            assert(forall|a: int| 0 <= a < xs.len() ==> xs[a] == x[a + 1]);
        }
        lemma_sorted_unique_paths(xs, ys, order);
        assert(x.len() == y.len());
        assert forall|k: int| 0 <= k < x.len() implies x[k] == y[k] by {
            if k >= 1 {
                assert(xs[k - 1] == x[k]);
                assert(ys[k - 1] == y[k]);
            }
        }
        assert(x =~= y);
    }
}

/// Sorts the entries by size under `order`, ties broken by path.
pub fn sort_entries(v: &mut Vec<FileStats>, order: SortOrder)
    ensures
        final(v)@.len() == old(v)@.len(),
        final(v)@.to_multiset() == old(v)@.to_multiset(),
        sorted_by(final(v)@, file_le_rel(order)),
{
    broadcast use vstd::seq_lib::group_to_multiset_ensures;
    broadcast use vstd::multiset::group_multiset_axioms;

    let ghost orig = v@;
    let n = v.len();
    let mut i: usize = 1;
    if n < 2 {
        return;
    }
    while i < n
        invariant
            n == v@.len(),
            1 <= i <= n,
            v@.to_multiset() == orig.to_multiset(),
            sorted_by(v@.subrange(0, i as int), file_le_rel(order)),
        decreases n - i,
    {
        let ghost s0 = v@;
        let mut p: usize = 0;
        while p < i && file_le_exec(order, &v[p], &v[i])
            invariant
                n == v@.len(),
                v@ == s0,
                p <= i < n,
                forall|k: int| 0 <= k < p ==> file_le(order, v@[k], v@[i as int]),
            decreases i - p,
        {
            p += 1;
        }
        let e = v.remove(i);
        v.insert(p, e);
        proof {
            broadcast use vstd::multiset::group_multiset_axioms;

            let w = v@;
            let u = s0.remove(i as int);
            s0.to_multiset_ensures();
            w.to_multiset_ensures();
            assert(w == u.insert(p as int, e));
            // multiset preserved
            assert(u.to_multiset() == s0.to_multiset().remove(e));
            assert(w.remove(p as int) =~= u);
            assert(w.remove(p as int).to_multiset() == w.to_multiset().remove(w[p as int]));
            assert(w[p as int] == e);
            assert(w.contains(e));
            assert(w.to_multiset().count(e) > 0);
            assert(w.to_multiset() =~= u.to_multiset().insert(e));
            assert(w.to_multiset() =~= s0.to_multiset());
            // the extended prefix is sorted
            assert forall|a: int, b: int|
                0 <= a < b < i + 1 implies file_le(order, w[a], w[b]) by {
                assert(forall|k: int| 0 <= k < i ==> s0.subrange(0, i as int)[k] == s0[k]);
                assert forall|k: int, l: int|
                    0 <= k < l < i implies file_le(order, s0[k], s0[l]) by {
                    assert(file_le_rel(order)(
                        s0.subrange(0, i as int)[k],
                        s0.subrange(0, i as int)[l],
                    ));
                }
                assert(forall|k: int| 0 <= k < p ==> w[k] == s0[k]);
                assert(forall|k: int| p < k <= i ==> w[k] == s0[k - 1]);
                if p < i {
                    assert(!file_le(order, s0[p as int], e));
                    lemma_file_le_connected(order, s0[p as int], e);
                    assert(file_le(order, e, s0[p as int]));
                }
                if a == p {
                    // w[a] == e
                    if b > p {
                        assert(w[b] == s0[b - 1]);
                        if b - 1 == p {
                            assert(file_le(order, e, s0[p as int]));
                        } else {
                            assert(file_le(order, s0[p as int], s0[b - 1]));
                            lemma_file_le_trans(order, e, s0[p as int], s0[b - 1]);
                        }
                    }
                } else if b == p {
                    assert(w[a] == s0[a]);
                    assert(file_le(order, s0[a], e));
                } else if a < p && b < p {
                    assert(file_le(order, s0[a], s0[b]));
                } else if a < p && b > p {
                    assert(w[b] == s0[b - 1]);
                    if b - 1 == a {
                        assert(file_le(order, s0[a], e));
                        assert(file_le(order, e, s0[p as int]));
                        assert(p as int == b - 1);
                        assert(false);
                    } else {
                        assert(file_le(order, s0[a], s0[b - 1]));
                    }
                } else {
                    assert(a > p && b > p);
                    assert(w[a] == s0[a - 1]);
                    assert(w[b] == s0[b - 1]);
                    assert(file_le(order, s0[a - 1], s0[b - 1]));
                }
            }
            assert(sorted_by(v@.subrange(0, i + 1), file_le_rel(order))) by {
                assert(forall|k: int|
                    0 <= k < i + 1 ==> v@.subrange(0, i + 1)[k] == v@[k]);
            }
        }
        i += 1;
    }
    proof {
        assert(v@.subrange(0, n as int) =~= v@);
    }
}

} // verus!
