//! What a whole sequence of pushes does to the size of a heap.

use crate::median_heap::{at_bound, pushed};
use crate::rank::{greatest_of, least_of, lemma_remove_len};
use crate::takeover::lemma_pushed_within;
use vstd::multiset::Multiset;
use vstd::prelude::*;

verus! {

broadcast use vstd::multiset::group_multiset_axioms;

/// The values held after pushing the values of `s`, first to last, onto a
/// heap that holds `m`.
pub open spec fn pushed_all(m: Multiset<i64>, max_size: Option<usize>, s: Seq<i64>) -> Multiset<
    i64,
>
    decreases s.len(),
{
    if s.len() == 0 {
        m
    } else {
        pushed(pushed_all(m, max_size, s.drop_last()), max_size, s.last())
    }
}

/// One push adds at most one value.
pub proof fn lemma_pushed_grows_by_one(m: Multiset<i64>, max_size: Option<usize>, x: i64)
    ensures
        pushed(m, max_size, x).len() <= m.len() + 1,
{
    if at_bound(m, max_size) && m.len() != 0 {
        lemma_remove_len(m, least_of(m));
        lemma_remove_len(m, greatest_of(m));
        let rest = m.remove(least_of(m));
        lemma_remove_len(rest, greatest_of(rest));
    }
}

/// Starting from an empty heap, any sequence of pushes leaves no more values
/// than were pushed, and no more than the bound allows.
pub proof fn lemma_pushes_bounded(max_size: Option<usize>, s: Seq<i64>)
    ensures
        pushed_all(Multiset::empty(), max_size, s).len() <= s.len(),
        max_size matches Some(c) ==> pushed_all(Multiset::empty(), max_size, s).len() <= c,
    decreases s.len(),
{
    if s.len() > 0 {
        let before = pushed_all(Multiset::empty(), max_size, s.drop_last());
        lemma_pushes_bounded(max_size, s.drop_last());
        lemma_pushed_grows_by_one(before, max_size, s.last());
        if let Some(c) = max_size {
            lemma_pushed_within(before, c, s.last());
        }
    }
}

} // verus!
