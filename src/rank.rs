//! Order statistics of a multiset of integers, stated by counting: the value
//! at position `k` of the ascending order is the one with at most `k` values
//! strictly below it and more than `k` values at or below it.

use crate::average_with::floor_mean;
use crate::partition::{is_greatest, is_least};
use vstd::multiset::Multiset;
use vstd::prelude::*;

verus! {

broadcast use vstd::multiset::group_multiset_axioms;

/// How many values held in `m` are smaller than `v`.
pub open spec fn count_below(m: Multiset<i64>, v: i64) -> nat {
    m.filter(|x: i64| x < v).len()
}

/// How many values held in `m` are at most `v`.
pub open spec fn count_at_most(m: Multiset<i64>, v: i64) -> nat {
    m.filter(|x: i64| x <= v).len()
}

/// `v` stands at position `k` (counting from zero) when `m` is sorted ascending.
pub open spec fn has_rank(m: Multiset<i64>, k: int, v: i64) -> bool {
    &&& m.contains(v)
    &&& count_below(m, v) <= k < count_at_most(m, v)
}

/// The value at position `k` of `m` sorted ascending.
pub open spec fn rank_value(m: Multiset<i64>, k: int) -> i64 {
    choose|v: i64| has_rank(m, k, v)
}

/// The least value of a non-empty multiset.
pub open spec fn least_of(m: Multiset<i64>) -> i64 {
    rank_value(m, 0)
}

/// The greatest value of a non-empty multiset.
pub open spec fn greatest_of(m: Multiset<i64>) -> i64 {
    rank_value(m, m.len() - 1)
}

/// The median of `m`: its middle value when it holds an odd number of
/// values, the mean of its two middle values (rounded down) when it holds an
/// even number, and none when it is empty.
pub open spec fn textbook_median(m: Multiset<i64>) -> Option<i64> {
    if m.len() == 0 {
        None
    } else if m.len() % 2 == 1 {
        Some(rank_value(m, (m.len() / 2) as int))
    } else {
        Some(
            floor_mean(
                rank_value(m, m.len() / 2 - 1) as int,
                rank_value(m, (m.len() / 2) as int) as int,
            ) as i64,
        )
    }
}

/// No value of `lo` exceeds a value of `hi`.
pub open spec fn all_le(lo: Multiset<i64>, hi: Multiset<i64>) -> bool {
    forall|x: i64, y: i64| #[trigger] lo.contains(x) && #[trigger] hi.contains(y) ==> x <= y
}

/// Taking fewer values on either side keeps them apart.
pub proof fn lemma_all_le_subsets(
    lo: Multiset<i64>,
    hi: Multiset<i64>,
    lo2: Multiset<i64>,
    hi2: Multiset<i64>,
)
    requires
        all_le(lo, hi),
        lo2.subset_of(lo),
        hi2.subset_of(hi),
    ensures
        all_le(lo2, hi2),
{
    assert forall|x: i64, y: i64| #[trigger] lo2.contains(x) && #[trigger] hi2.contains(y) implies x
        <= y by {
        assert(lo2.count(x) <= lo.count(x));
        assert(hi2.count(y) <= hi.count(y));
        assert(lo.contains(x) && hi.contains(y));
    }
}

/// A value at most every value of `hi` can join `lo`.
pub proof fn lemma_all_le_insert_lower(lo: Multiset<i64>, hi: Multiset<i64>, v: i64)
    requires
        all_le(lo, hi),
        forall|y: i64| #[trigger] hi.contains(y) ==> v <= y,
    ensures
        all_le(lo.insert(v), hi),
{
    assert forall|x: i64, y: i64| #[trigger] lo.insert(v).contains(x) && #[trigger] hi.contains(
        y,
    ) implies x <= y by {
        if x != v {
            assert(lo.contains(x));
        }
    }
}

/// A value at least every value of `lo` can join `hi`.
pub proof fn lemma_all_le_insert_upper(lo: Multiset<i64>, hi: Multiset<i64>, v: i64)
    requires
        all_le(lo, hi),
        forall|x: i64| #[trigger] lo.contains(x) ==> x <= v,
    ensures
        all_le(lo, hi.insert(v)),
{
    assert forall|x: i64, y: i64| #[trigger] lo.contains(x) && #[trigger] hi.insert(v).contains(
        y,
    ) implies x <= y by {
        if y != v {
            assert(hi.contains(y));
        }
    }
}

/// The greatest value of `hi` is the greatest of both when `hi` lies above `lo`.
pub proof fn lemma_greatest_of_sum(lo: Multiset<i64>, hi: Multiset<i64>, v: i64)
    requires
        all_le(lo, hi),
        is_greatest(hi, v),
    ensures
        is_greatest(lo.add(hi), v),
{
    assert forall|y: i64| #[trigger] lo.add(hi).contains(y) implies y <= v by {
        if lo.contains(y) {
            assert(lo.contains(y) && hi.contains(v));
        } else {
            assert(hi.contains(y));
        }
    }
}

/// The least value of `lo` is the least of both when `hi` lies above `lo`.
pub proof fn lemma_least_of_sum(lo: Multiset<i64>, hi: Multiset<i64>, v: i64)
    requires
        all_le(lo, hi),
        is_least(lo, v),
    ensures
        is_least(lo.add(hi), v),
{
    assert forall|y: i64| #[trigger] lo.add(hi).contains(y) implies v <= y by {
        if hi.contains(y) {
            assert(lo.contains(v) && hi.contains(y));
        } else {
            assert(lo.contains(y));
        }
    }
}

/// Removing a held value takes one away; removing another changes nothing.
pub proof fn lemma_remove_len(m: Multiset<i64>, v: i64)
    ensures
        m.contains(v) ==> m.remove(v).len() == m.len() - 1,
        !m.contains(v) ==> m.remove(v) =~= m,
{
    if m.contains(v) {
        assert(Multiset::singleton(v).subset_of(m));
    }
}

/// Two distinct values are held no more often, together, than the size.
pub proof fn lemma_two_counts(m: Multiset<i64>, x: i64, y: i64)
    requires
        x != y,
    ensures
        m.count(x) + m.count(y) <= m.len(),
    decreases m.len(),
{
    if m.len() == 0 {
        vstd::multiset::lemma_multiset_empty_len(m);
    } else {
        let z = m.choose();
        assert(m.count(z) > 0);
        lemma_remove_len(m, z);
        lemma_two_counts(m.remove(z), x, y);
    }
}

/// A sub-multiset is no larger.
pub proof fn lemma_subset_len(a: Multiset<i64>, b: Multiset<i64>)
    requires
        a.subset_of(b),
    ensures
        a.len() <= b.len(),
{
    assert(b =~= a.add(b.sub(a)));
}

/// Filtering distributes over the sum of two multisets.
pub proof fn lemma_filter_add(a: Multiset<i64>, b: Multiset<i64>, f: spec_fn(i64) -> bool)
    ensures
        a.add(b).filter(f) =~= a.filter(f).add(b.filter(f)),
{
}

/// Filtering keeps nothing where no held value passes.
pub proof fn lemma_filter_none(m: Multiset<i64>, f: spec_fn(i64) -> bool)
    requires
        forall|x: i64| m.contains(x) ==> !f(x),
    ensures
        m.filter(f) =~= Multiset::empty(),
{
    assert forall|x: i64| m.filter(f).count(x) == Multiset::<i64>::empty().count(x) by {
        if m.contains(x) {
            assert(!f(x));
        }
    }
}

/// Filtering keeps everything where every held value passes.
pub proof fn lemma_filter_all(m: Multiset<i64>, f: spec_fn(i64) -> bool)
    requires
        forall|x: i64| m.contains(x) ==> f(x),
    ensures
        m.filter(f) =~= m,
{
    assert forall|x: i64| m.filter(f).count(x) == m.count(x) by {
        if m.contains(x) {
            assert(f(x));
        }
    }
}

/// Counting below and at most `v` splits over a sum.
pub proof fn lemma_counts_add(a: Multiset<i64>, b: Multiset<i64>, v: i64)
    ensures
        count_below(a.add(b), v) == count_below(a, v) + count_below(b, v),
        count_at_most(a.add(b), v) == count_at_most(a, v) + count_at_most(b, v),
{
    lemma_filter_add(a, b, |x: i64| x < v);
    lemma_filter_add(a, b, |x: i64| x <= v);
}

/// A position holds a single value.
pub proof fn lemma_rank_unique(m: Multiset<i64>, k: int, v1: i64, v2: i64)
    requires
        has_rank(m, k, v1),
        has_rank(m, k, v2),
    ensures
        v1 == v2,
{
    if v1 < v2 {
        lemma_subset_len(m.filter(|x: i64| x <= v1), m.filter(|x: i64| x < v2));
    } else if v2 < v1 {
        lemma_subset_len(m.filter(|x: i64| x <= v2), m.filter(|x: i64| x < v1));
    }
}

/// The value found at a position is the one `rank_value` names.
pub proof fn lemma_rank_value(m: Multiset<i64>, k: int, v: i64)
    requires
        has_rank(m, k, v),
    ensures
        rank_value(m, k) == v,
{
    let w = rank_value(m, k);
    lemma_rank_unique(m, k, v, w);
}

/// The least value stands first.
pub proof fn lemma_least_rank(m: Multiset<i64>, v: i64)
    requires
        is_least(m, v),
    ensures
        has_rank(m, 0, v),
        least_of(m) == v,
{
    lemma_filter_none(m, |x: i64| x < v);
    assert(m.filter(|x: i64| x <= v).count(v) == m.count(v));
    lemma_rank_value(m, 0, v);
}

/// The greatest value stands last.
pub proof fn lemma_greatest_rank(m: Multiset<i64>, v: i64)
    requires
        is_greatest(m, v),
    ensures
        has_rank(m, m.len() - 1, v),
        greatest_of(m) == v,
{
    lemma_filter_all(m, |x: i64| x <= v);
    lemma_subset_len(m.filter(|x: i64| x < v), m.remove(v));
    lemma_rank_value(m, m.len() - 1, v);
}

/// Where every value of `lo` is at most every value of `hi`, the greatest
/// value of `lo` stands last among `lo`'s, and the least of `hi` just after.
pub proof fn lemma_split_ranks(lo: Multiset<i64>, hi: Multiset<i64>, a: i64, b: i64)
    requires
        all_le(lo, hi),
        is_greatest(lo, a),
    ensures
        has_rank(lo.add(hi), lo.len() - 1, a),
        is_least(hi, b) ==> has_rank(lo.add(hi), lo.len() as int, b),
{
    lemma_greatest_rank(lo, a);
    lemma_counts_add(lo, hi, a);
    lemma_filter_none(hi, |x: i64| x < a);
    lemma_filter_all(lo, |x: i64| x <= a);
    if is_least(hi, b) {
        lemma_least_rank(hi, b);
        lemma_counts_add(lo, hi, b);
        lemma_subset_len(lo.filter(|x: i64| x < b), lo);
        lemma_filter_all(lo, |x: i64| x <= b);
    }
}

/// A non-empty multiset has a greatest value.
pub proof fn lemma_greatest_exists(m: Multiset<i64>) -> (v: i64)
    requires
        m.len() > 0,
    ensures
        is_greatest(m, v),
    decreases m.len(),
{
    let x = m.choose();
    assert(m.count(x) > 0);
    let r = m.remove(x);
    assert(r.len() == m.len() - 1);
    if r.len() == 0 {
        vstd::multiset::lemma_multiset_empty_len(r);
        assert forall|y: i64| #[trigger] m.contains(y) implies y <= x by {
            assert(r.count(y) == 0);
        }
        x
    } else {
        let g = lemma_greatest_exists(r);
        let v = if g >= x {
            g
        } else {
            x
        };
        assert forall|y: i64| #[trigger] m.contains(y) implies y <= v by {
            if y != x {
                assert(r.contains(y));
            }
        }
        v
    }
}

/// A non-empty multiset has a least value.
pub proof fn lemma_least_exists(m: Multiset<i64>) -> (v: i64)
    requires
        m.len() > 0,
    ensures
        is_least(m, v),
    decreases m.len(),
{
    let x = m.choose();
    assert(m.count(x) > 0);
    let r = m.remove(x);
    assert(r.len() == m.len() - 1);
    if r.len() == 0 {
        vstd::multiset::lemma_multiset_empty_len(r);
        assert forall|y: i64| #[trigger] m.contains(y) implies x <= y by {
            assert(r.count(y) == 0);
        }
        x
    } else {
        let l = lemma_least_exists(r);
        let v = if l <= x {
            l
        } else {
            x
        };
        assert forall|y: i64| #[trigger] m.contains(y) implies v <= y by {
            if y != x {
                assert(r.contains(y));
            }
        }
        v
    }
}

/// Every position of a multiset holds a value.
pub proof fn lemma_rank_exists(m: Multiset<i64>, k: int) -> (v: i64)
    requires
        0 <= k < m.len(),
    ensures
        has_rank(m, k, v),
        rank_value(m, k) == v,
    decreases m.len(),
{
    let g = lemma_greatest_exists(m);
    lemma_greatest_rank(m, g);
    if k == m.len() - 1 {
        g
    } else {
        let r = m.remove(g);
        assert(r.len() == m.len() - 1);
        let v = lemma_rank_exists(r, k);
        assert(r.count(v) <= m.count(v));
        assert(m.contains(v));
        assert(v <= g);
        assert(m.filter(|x: i64| x < v) =~= r.filter(|x: i64| x < v));
        lemma_subset_len(r.filter(|x: i64| x <= v), m.filter(|x: i64| x <= v));
        lemma_rank_value(m, k, v);
        v
    }
}

/// The least and greatest values are found where their names say, and every
/// position holds a value between them.
pub proof fn lemma_extremes(m: Multiset<i64>)
    requires
        m.len() > 0,
    ensures
        is_least(m, least_of(m)),
        is_greatest(m, greatest_of(m)),
        forall|k: int|
            0 <= k < m.len() ==> #[trigger] m.contains(rank_value(m, k)) && least_of(m)
                <= rank_value(m, k) <= greatest_of(m),
{
    let l = lemma_least_exists(m);
    lemma_least_rank(m, l);
    let g = lemma_greatest_exists(m);
    lemma_greatest_rank(m, g);
    assert forall|k: int| 0 <= k < m.len() implies #[trigger] m.contains(rank_value(m, k))
        && least_of(m) <= rank_value(m, k) <= greatest_of(m) by {
        lemma_rank_exists(m, k);
    }
}

/// The median of a non-empty multiset lies between its least and greatest values.
pub proof fn lemma_median_within(m: Multiset<i64>)
    requires
        m.len() > 0,
    ensures
        textbook_median(m) is Some,
        least_of(m) <= textbook_median(m)->0 <= greatest_of(m),
{
    lemma_extremes(m);
    let h = (m.len() / 2) as int;
    assert(m.contains(rank_value(m, h)));
    if m.len() % 2 == 0 {
        assert(m.contains(rank_value(m, h - 1)));
    }
}

/// Where no value of `m` exceeds `v`, each value is either below `v` or `v` itself.
pub proof fn lemma_len_below_and_at(m: Multiset<i64>, v: i64)
    requires
        forall|x: i64| #[trigger] m.contains(x) ==> x <= v,
    ensures
        m.len() == count_below(m, v) + m.count(v),
    decreases m.len(),
{
    if m.len() == 0 {
        lemma_filter_none(m, |x: i64| x < v);
    } else {
        let x = m.choose();
        assert(m.count(x) > 0);
        let r = m.remove(x);
        lemma_remove_len(m, x);
        assert forall|y: i64| #[trigger] r.contains(y) implies y <= v by {
            assert(m.contains(y));
        }
        lemma_len_below_and_at(r, v);
        assert(m =~= r.insert(x));
        if x < v {
            assert(m.filter(|y: i64| y < v) =~= r.filter(|y: i64| y < v).insert(x));
        } else {
            assert(m.filter(|y: i64| y < v) =~= r.filter(|y: i64| y < v));
        }
    }
}

} // verus!
