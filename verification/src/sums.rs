//! Spec-level accounting over sequences of entries: size sums, path
//! uniqueness, and how both behave under removal, filtering, and
//! permutation.

use vstd::prelude::*;

use crate::entities::FileStats;

verus! {

/// Sum of the sizes of all entries in `s`.
pub open spec fn sum_sizes(s: Seq<FileStats>) -> int
    decreases s.len(),
{
    if s.len() == 0 {
        0
    } else {
        sum_sizes(s.drop_last()) + s.last().size
    }
}

/// No two entries share a path.
pub open spec fn unique_paths(s: Seq<FileStats>) -> bool {
    forall|i: int, j: int| 0 <= i < j < s.len() ==> s[i].path@ != s[j].path@
}

pub proof fn lemma_sum_nonneg(s: Seq<FileStats>)
    ensures
        sum_sizes(s) >= 0,
    decreases s.len(),
{
    if s.len() > 0 {
        lemma_sum_nonneg(s.drop_last());
    }
}

pub proof fn lemma_sum_push(s: Seq<FileStats>, e: FileStats)
    ensures
        sum_sizes(s.push(e)) == sum_sizes(s) + e.size,
{
    assert(s.push(e).drop_last() =~= s);
}

pub proof fn lemma_sum_remove(s: Seq<FileStats>, i: int)
    requires
        0 <= i < s.len(),
    ensures
        sum_sizes(s.remove(i)) == sum_sizes(s) - s[i].size,
    decreases s.len(),
{
    if i == s.len() - 1 {
        assert(s.remove(i) =~= s.drop_last());
    } else {
        assert(s.remove(i).drop_last() =~= s.drop_last().remove(i));
        assert(s.remove(i).last() == s.last());
        lemma_sum_remove(s.drop_last(), i);
    }
}

/// Entries selected by a predicate never sum to more than the whole.
pub proof fn lemma_sum_filter_le(s: Seq<FileStats>, p: spec_fn(FileStats) -> bool)
    ensures
        0 <= sum_sizes(s.filter(p)) <= sum_sizes(s),
    decreases s.len(),
{
    reveal(Seq::filter);
    if s.len() == 0 {
    } else {
        lemma_sum_filter_le(s.drop_last(), p);
        if p(s.last()) {
            lemma_sum_push(s.drop_last().filter(p), s.last());
        }
    }
}

/// The sum of a concatenation is the sum of its parts.
pub proof fn lemma_sum_concat(a: Seq<FileStats>, b: Seq<FileStats>)
    ensures
        sum_sizes(a + b) == sum_sizes(a) + sum_sizes(b),
    decreases b.len(),
{
    if b.len() == 0 {
        assert(a + b =~= a);
    } else {
        assert((a + b).drop_last() =~= a + b.drop_last());
        assert((a + b).last() == b.last());
        lemma_sum_concat(a, b.drop_last());
    }
}

/// A prefix never sums to more than the whole.
pub proof fn lemma_sum_prefix_le(s: Seq<FileStats>, i: int)
    requires
        0 <= i <= s.len(),
    ensures
        sum_sizes(s.subrange(0, i)) <= sum_sizes(s),
    decreases s.len() - i,
{
    if i == s.len() {
        assert(s.subrange(0, i) =~= s);
    } else {
        lemma_sum_prefix_le(s, i + 1);
        assert(s.subrange(0, i + 1).drop_last() =~= s.subrange(0, i));
        assert(s.subrange(0, i + 1).last() == s[i]);
        assert(sum_sizes(s.subrange(0, i + 1)) == sum_sizes(s.subrange(0, i)) + s[i].size);
    }
}

/// The whole sum splits into the part a predicate selects and the
/// part its complement selects.
pub proof fn lemma_sum_split(s: Seq<FileStats>, p: spec_fn(FileStats) -> bool, q: spec_fn(
    FileStats,
) -> bool)
    requires
        forall|f: FileStats| #[trigger] q(f) == !p(f),
    ensures
        sum_sizes(s) == sum_sizes(s.filter(p)) + sum_sizes(s.filter(q)),
    decreases s.len(),
{
    reveal(Seq::filter);
    if s.len() == 0 {
    } else {
        lemma_sum_split(s.drop_last(), p, q);
        if p(s.last()) {
            lemma_sum_push(s.drop_last().filter(p), s.last());
        } else {
            lemma_sum_push(s.drop_last().filter(q), s.last());
        }
    }
}

/// Filtering by a predicate every element satisfies changes nothing.
pub proof fn lemma_filter_all(s: Seq<FileStats>, p: spec_fn(FileStats) -> bool)
    requires
        forall|i: int| 0 <= i < s.len() ==> p(#[trigger] s[i]),
    ensures
        s.filter(p) == s,
    decreases s.len(),
{
    reveal(Seq::filter);
    if s.len() > 0 {
        assert(forall|i: int| 0 <= i < s.drop_last().len() ==> s.drop_last()[i] == s[i]);
        lemma_filter_all(s.drop_last(), p);
        assert(s.filter(p) =~= s);
    }
}

/// Removing an entry the predicate rejects leaves the filtered view
/// unchanged.
pub proof fn lemma_filter_remove_nonmatch(s: Seq<FileStats>, i: int, p: spec_fn(FileStats) -> bool)
    requires
        0 <= i < s.len(),
        !p(s[i]),
    ensures
        s.remove(i).filter(p) == s.filter(p),
    decreases s.len(),
{
    reveal(Seq::filter);
    if i == s.len() - 1 {
        assert(s.remove(i) =~= s.drop_last());
    } else {
        assert(s.remove(i).drop_last() =~= s.drop_last().remove(i));
        assert(s.remove(i).last() == s.last());
        lemma_filter_remove_nonmatch(s.drop_last(), i, p);
    }
}

/// Every element of a filtered sequence comes from the original.
pub proof fn lemma_filter_elem_contains(s: Seq<FileStats>, p: spec_fn(FileStats) -> bool, i: int)
    requires
        0 <= i < s.filter(p).len(),
    ensures
        s.contains(s.filter(p)[i]),
    decreases s.len(),
{
    reveal(Seq::filter);
    if s.len() > 0 {
        let rest = s.drop_last().filter(p);
        if i < rest.len() {
            lemma_filter_elem_contains(s.drop_last(), p, i);
            let j = choose|j: int| 0 <= j < s.drop_last().len() && s.drop_last()[j] == rest[i];
            assert(s[j] == rest[i]);
        } else {
            assert(s.filter(p)[i] == s.last());
        }
    }
}

/// Sequences with equal multisets have equal size sums.
pub proof fn lemma_multiset_sum_eq(s1: Seq<FileStats>, s2: Seq<FileStats>)
    requires
        s1.to_multiset() == s2.to_multiset(),
    ensures
        sum_sizes(s1) == sum_sizes(s2),
    decreases s1.len(),
{
    broadcast use vstd::seq_lib::group_to_multiset_ensures;
    broadcast use vstd::multiset::group_multiset_axioms;

    if s1.len() == 0 {
        s1.to_multiset_ensures();
        s2.to_multiset_ensures();
        assert(s2.len() == 0);
    } else {
        let x = s1.last();
        assert(s1.contains(x));
        assert(s2.to_multiset().count(x) > 0);
        assert(s2.contains(x));
        let j = choose|j: int| 0 <= j < s2.len() && s2[j] == x;
        lemma_sum_remove(s2, j);
        assert(s1.drop_last().push(x) =~= s1);
        assert(s1.drop_last().to_multiset().insert(x) == s1.to_multiset());
        assert(s2.remove(j).to_multiset() == s2.to_multiset().remove(x));
        assert(s1.drop_last().to_multiset() =~= s2.remove(j).to_multiset());
        lemma_multiset_sum_eq(s1.drop_last(), s2.remove(j));
    }
}

/// Permuting a sequence preserves path uniqueness.
pub proof fn lemma_multiset_unique_paths(s1: Seq<FileStats>, s2: Seq<FileStats>)
    requires
        s1.to_multiset() == s2.to_multiset(),
        unique_paths(s1),
    ensures
        unique_paths(s2),
{
    broadcast use vstd::seq_lib::group_to_multiset_ensures;
    broadcast use vstd::multiset::group_multiset_axioms;

    assert forall|i: int, j: int|
        0 <= i < j < s2.len() implies s2[i].path@ != s2[j].path@ by {
        if s2[i].path@ == s2[j].path@ {
            if s2[i] == s2[j] {
                let v = s2[i];
                assert(s2.remove(i)[j - 1] == s2[j]);
                assert(s2.remove(i).contains(v));
                assert(s2.remove(i).to_multiset().count(v) > 0);
                assert(s2.remove(i).to_multiset() == s2.to_multiset().remove(v));
                assert(s2.to_multiset().remove(v).count(v) == s2.to_multiset().count(v) - 1);
                assert(s2.to_multiset().count(v) >= 2);
                assert(s1.to_multiset().count(v) >= 2);
                assert(s1.contains(v));
                let a = choose|a: int| 0 <= a < s1.len() && s1[a] == v;
                assert(s1.remove(a).to_multiset() == s1.to_multiset().remove(v));
                assert(s1.remove(a).to_multiset().count(v) >= 1);
                assert(s1.remove(a).contains(v));
                let b = choose|b: int| 0 <= b < s1.remove(a).len() && s1.remove(a)[b] == v;
                if b < a {
                    assert(s1[b] == v);
                } else {
                    assert(s1[b + 1] == v);
                }
            } else {
                assert(s2.contains(s2[i]));
                assert(s2.contains(s2[j]));
                assert(s1.to_multiset().count(s2[i]) > 0);
                assert(s1.to_multiset().count(s2[j]) > 0);
                assert(s1.contains(s2[i]));
                assert(s1.contains(s2[j]));
                let a = choose|a: int| 0 <= a < s1.len() && s1[a] == s2[i];
                let b = choose|b: int| 0 <= b < s1.len() && s1[b] == s2[j];
                assert(a != b);
            }
        }
    }
}

} // verus!
