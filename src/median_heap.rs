//! The median heap: two ordered partitions, a balancer that keeps their
//! sizes level, and an evictor that keeps the total within a bound.

use crate::average_with::AverageWith;
use crate::partition::{
    ascending, descending, heap_clone, heap_into_vec_asc, heap_into_vec_desc, heap_items, heap_len,
    heap_new, heap_peek_max, heap_peek_min, heap_pop_max, heap_pop_min, heap_push, heap_room,
    is_greatest, is_least,
};
use crate::rank::{
    all_le, count_below, greatest_of, least_of, lemma_counts_add, lemma_filter_none,
    lemma_len_below_and_at, lemma_all_le_insert_lower, lemma_all_le_insert_upper,
    lemma_all_le_subsets, lemma_greatest_of_sum, lemma_greatest_rank, lemma_least_of_sum,
    lemma_least_rank, lemma_rank_value, lemma_remove_len, lemma_split_ranks, rank_value,
    textbook_median,
};
use min_max_heap::MinMaxHeap;
use vstd::multiset::Multiset;
use vstd::prelude::*;

verus! {

broadcast use vstd::multiset::group_multiset_axioms;

/// A median, consisting of either a single or a pair of values.
#[derive(Debug, PartialEq, Eq, Clone)]
pub enum Median<T> {
    /// A single value.
    Single(T),
    /// A pair of values.
    Pair(T, T),
}

/// The middle of `m` sorted ascending: its middle value when it holds an odd
/// number of values, its two middle values when it holds an even number, and
/// none when it is empty.
pub open spec fn middle_of(m: Multiset<i64>) -> Option<Median<i64>> {
    if m.len() == 0 {
        None
    } else if m.len() % 2 == 1 {
        Some(Median::Single(rank_value(m, (m.len() / 2) as int)))
    } else {
        Some(
            Median::Pair(rank_value(m, m.len() / 2 - 1), rank_value(m, (m.len() / 2) as int)),
        )
    }
}

/// A bound is reached: `m` holds at least as many values as `max_size` allows.
pub open spec fn at_bound(m: Multiset<i64>, max_size: Option<usize>) -> bool {
    match max_size {
        Some(c) => m.len() >= c,
        None => false,
    }
}

/// How many copies of `v` the lower half of `m` holds, where `v` is the
/// median of `m` and the lower half its `(m.len() + 1) / 2` least values.
pub open spec fn lower_copies(m: Multiset<i64>, v: i64) -> int {
    (m.len() + 1) / 2 - count_below(m, v)
}

/// The values held after pushing `x` onto a heap that holds `m`.
///
/// Below the bound, `x` is added. At the bound, a value below the median
/// evicts the greatest value, one above it the least value, and one equal to
/// it is handled by `pushed_tie`. A bound of zero keeps the heap empty.
pub open spec fn pushed(m: Multiset<i64>, max_size: Option<usize>, x: i64) -> Multiset<i64> {
    if !at_bound(m, max_size) {
        m.insert(x)
    } else if m.len() == 0 {
        m
    } else if x < textbook_median(m)->0 {
        m.remove(greatest_of(m)).insert(x)
    } else if x > textbook_median(m)->0 {
        m.remove(least_of(m)).insert(x)
    } else {
        pushed_tie(m, x)
    }
}

/// The values held after pushing `x`, equal to the median, onto a full heap
/// that holds `m`: the least value is evicted where the upper half holds more
/// copies of `x` than the lower half, the greatest value where the lower half
/// holds more, and both where they hold as many.
pub open spec fn pushed_tie(m: Multiset<i64>, x: i64) -> Multiset<i64> {
    if lower_copies(m, x) < m.count(x) - lower_copies(m, x) {
        m.remove(least_of(m)).insert(x)
    } else if lower_copies(m, x) > m.count(x) - lower_copies(m, x) {
        m.remove(greatest_of(m)).insert(x)
    } else {
        let rest = m.remove(least_of(m));
        rest.remove(greatest_of(rest)).insert(x)
    }
}

/// A median heap implemented with two double-ended heaps: `left` holds the
/// lower half of the values, `right` the upper half.
pub struct MedianHeap {
    max_size: Option<usize>,
    left: MinMaxHeap<i64>,
    right: MinMaxHeap<i64>,
}

impl View for MedianHeap {
    type V = Multiset<i64>;

    /// All values held, in both partitions.
    closed spec fn view(&self) -> Multiset<i64> {
        self.lower().add(self.upper())
    }
}

impl MedianHeap {
    /// The values of the lower partition.
    pub closed spec fn lower(&self) -> Multiset<i64> {
        heap_items(self.left)
    }

    /// The values of the upper partition.
    pub closed spec fn upper(&self) -> Multiset<i64> {
        heap_items(self.right)
    }

    /// The bound on the number of values held, if any.
    pub closed spec fn bound(&self) -> Option<usize> {
        self.max_size
    }

    /// No value of the lower partition exceeds a value of the upper one.
    pub open spec fn ordered(&self) -> bool {
        all_le(self.lower(), self.upper())
    }

    /// The lower partition holds as many values as the upper one, or one more.
    pub open spec fn balanced(&self) -> bool {
        self.upper().len() <= self.lower().len() <= self.upper().len() + 1
    }

    /// The heap holds no more values than its bound allows.
    pub open spec fn within_bound(&self) -> bool {
        match self.bound() {
            Some(c) => self@.len() <= c,
            None => true,
        }
    }

    /// The invariant that every operation keeps.
    pub open spec fn wf(&self) -> bool {
        &&& self.ordered()
        &&& self.balanced()
        &&& self.within_bound()
        &&& self@.len() <= heap_room()
    }

    /// Creates an empty `MedianHeap` without a bound.
    pub fn new() -> (r: Self)
        ensures
            r.wf(),
            r@ == Multiset::<i64>::empty(),
            r.bound() == None::<usize>,
    {
        let r = MedianHeap { max_size: None, left: heap_new(), right: heap_new() };
        assert(r@ =~= Multiset::<i64>::empty());
        r
    }

    /// Creates an empty `MedianHeap` which can only grow to `max_size`.
    ///
    /// A `max_size` of zero is accepted: such a heap stays empty, and pushing
    /// onto it does nothing.
    pub fn with_max_size(max_size: usize) -> (r: Self)
        ensures
            r.wf(),
            r@ == Multiset::<i64>::empty(),
            r.bound() == Some(max_size),
    {
        let r = MedianHeap { max_size: Some(max_size), left: heap_new(), right: heap_new() };
        assert(r@ =~= Multiset::<i64>::empty());
        r
    }

    /// Returns the maximum size the median heap can grow to.
    pub fn max_size(&self) -> (r: Option<usize>)
        ensures
            r == self.bound(),
    {
        self.max_size
    }

    /// Returns the number of values in the heap.
    pub fn len(&self) -> (r: usize)
        requires
            self.wf(),
        ensures
            r == self@.len(),
    {
        heap_len(&self.left) + heap_len(&self.right)
    }

    /// Returns `true` if there are no values in the heap.
    pub fn is_empty(&self) -> (r: bool)
        ensures
            r == (self@.len() == 0),
    {
        heap_len(&self.left) == 0 && heap_len(&self.right) == 0
    }

    /// Returns `true` if the heap holds as many values as its bound allows.
    fn is_full(&self) -> (r: bool)
        requires
            self.wf(),
        ensures
            r == at_bound(self@, self.bound()),
    {
        match self.max_size {
            Some(max_size) => self.len() >= max_size,
            None => false,
        }
    }

    /// Returns the middle of the heap: its single middle value when it holds
    /// an odd number of values, its two middlemost values when it holds an
    /// even number, `None` when it is empty.
    ///
    /// The single value is the greatest of the lower partition; a pair is the
    /// greatest of the lower partition and the least of the upper one.
    pub fn middle(&self) -> (r: Option<Median<i64>>)
        requires
            self.wf(),
        ensures
            r == middle_of(self@),
            r matches Some(Median::Single(v)) ==> is_greatest(self.lower(), v) && self.lower().len()
                == self.upper().len() + 1,
            r matches Some(Median::Pair(a, b)) ==> is_greatest(self.lower(), a) && is_least(
                self.upper(),
                b,
            ),
    {
        let nl = heap_len(&self.left);
        let nr = heap_len(&self.right);
        if nl == 0 {
            assert(self@ =~= Multiset::<i64>::empty());
            return None;
        }
        match heap_peek_max(&self.left) {
            None => None,
            Some(a) => {
                if nl > nr {
                    proof {
                        lemma_split_ranks(self.lower(), self.upper(), a, a);
                        lemma_rank_value(self@, nl - 1, a);
                    }
                    Some(Median::Single(a))
                } else {
                    match heap_peek_min(&self.right) {
                        None => None,
                        Some(b) => {
                            proof {
                                lemma_split_ranks(self.lower(), self.upper(), a, b);
                                lemma_rank_value(self@, nl - 1, a);
                                lemma_rank_value(self@, nl as int, b);
                            }
                            Some(Median::Pair(a, b))
                        },
                    }
                }
            },
        }
    }

    /// Returns the median: the middle value if the heap holds an odd number
    /// of values, the arithmetic mean of the two middlemost values (rounded
    /// down) if it holds an even number, `None` if it is empty.
    pub fn median(&self) -> (r: Option<i64>)
        requires
            self.wf(),
        ensures
            r == textbook_median(self@),
    {
        match self.middle() {
            None => None,
            Some(Median::Single(v)) => Some(v),
            Some(Median::Pair(a, b)) => Some(a.average_with(&b)),
        }
    }

    /// Removes one occurrence of the greatest value held: from the upper
    /// partition, or from the lower one when the upper one is empty.
    fn evict_greatest(&mut self)
        requires
            old(self).ordered(),
        ensures
            final(self).ordered(),
            final(self).bound() == old(self).bound(),
            final(self)@ == old(self)@.remove(greatest_of(old(self)@)),
            final(self).lower().subset_of(old(self).lower()),
            final(self).upper().subset_of(old(self).upper()),
            old(self).upper().len() > 0 ==> final(self).lower() == old(self).lower()
                && final(self).upper().len() == old(self).upper().len() - 1,
            old(self).upper().len() == 0 ==> final(self).upper() == old(self).upper()
                && final(self).lower().len() == (if old(self).lower().len() > 0 {
                old(self).lower().len() - 1
            } else {
                0
            }),
    {
        let ghost m = self@;
        let ghost lo = self.lower();
        let ghost hi = self.upper();
        match heap_pop_max(&mut self.right) {
            Some(v) => {
                proof {
                    lemma_greatest_of_sum(lo, hi, v);
                    lemma_greatest_rank(m, v);
                    assert(self@ =~= m.remove(v));
                    lemma_all_le_subsets(lo, hi, self.lower(), self.upper());
                }
            },
            None => {
                match heap_pop_max(&mut self.left) {
                    Some(v) => {
                        proof {
                            assert(hi =~= Multiset::<i64>::empty());
                            assert(m =~= lo);
                            lemma_greatest_rank(m, v);
                            assert(self@ =~= m.remove(v));
                            lemma_all_le_subsets(lo, hi, self.lower(), self.upper());
                        }
                    },
                    None => {
                        assert(m =~= Multiset::<i64>::empty());
                        assert(self@ =~= m.remove(greatest_of(m)));
                    },
                }
            },
        }
    }

    /// Removes one occurrence of the least value held: from the lower
    /// partition, or from the upper one when the lower one is empty.
    fn evict_least(&mut self)
        requires
            old(self).ordered(),
        ensures
            final(self).ordered(),
            final(self).bound() == old(self).bound(),
            final(self)@ == old(self)@.remove(least_of(old(self)@)),
            final(self).lower().subset_of(old(self).lower()),
            final(self).upper().subset_of(old(self).upper()),
            old(self).lower().len() > 0 ==> final(self).upper() == old(self).upper()
                && final(self).lower().len() == old(self).lower().len() - 1,
            old(self).lower().len() == 0 ==> final(self).lower() == old(self).lower()
                && final(self).upper().len() == (if old(self).upper().len() > 0 {
                old(self).upper().len() - 1
            } else {
                0
            }),
    {
        let ghost m = self@;
        let ghost lo = self.lower();
        let ghost hi = self.upper();
        match heap_pop_min(&mut self.left) {
            Some(v) => {
                proof {
                    lemma_least_of_sum(lo, hi, v);
                    lemma_least_rank(m, v);
                    assert(self@ =~= m.remove(v));
                    lemma_all_le_subsets(lo, hi, self.lower(), self.upper());
                }
            },
            None => {
                match heap_pop_min(&mut self.right) {
                    Some(v) => {
                        proof {
                            assert(lo =~= Multiset::<i64>::empty());
                            assert(m =~= hi);
                            lemma_least_rank(m, v);
                            assert(self@ =~= m.remove(v));
                            lemma_all_le_subsets(lo, hi, self.lower(), self.upper());
                        }
                    },
                    None => {
                        assert(m =~= Multiset::<i64>::empty());
                        assert(self@ =~= m.remove(least_of(m)));
                    },
                }
            },
        }
    }

    /// Levels the partitions: moves the least value of the upper partition
    /// down when it is the larger one, or the greatest value of the lower
    /// partition up when it exceeds the upper one by more than one.
    ///
    /// On a heap that is already level it changes nothing, so a second call
    /// right after a first leaves the heap as it is.
    fn rebalance(&mut self)
        requires
            old(self).ordered(),
            old(self).upper().len() <= old(self).lower().len() + 2,
            old(self).lower().len() <= old(self).upper().len() + 3,
            old(self)@.len() <= heap_room(),
        ensures
            final(self).ordered(),
            final(self).balanced(),
            final(self)@ == old(self)@,
            final(self).bound() == old(self).bound(),
            old(self).balanced() ==> *final(self) == *old(self),
    {
        let ghost m = self@;
        let ghost lo = self.lower();
        let ghost hi = self.upper();
        let nl = heap_len(&self.left);
        let nr = heap_len(&self.right);
        if nr > nl {
            match heap_pop_min(&mut self.right) {
                Some(v) => {
                    heap_push(&mut self.left, v);
                    proof {
                        assert(self.lower() == lo.insert(v));
                        assert(self.upper() == hi.remove(v));
                        assert(self@ =~= m);
                        lemma_all_le_subsets(lo, hi, lo, hi.remove(v));
                        assert forall|y: i64| #[trigger] hi.remove(v).contains(y) implies v <= y by {
                            assert(hi.contains(y));
                        }
                        lemma_all_le_insert_lower(lo, hi.remove(v), v);
                    }
                },
                None => {},
            }
        } else if nl > nr + 1 {
            match heap_pop_max(&mut self.left) {
                Some(v) => {
                    heap_push(&mut self.right, v);
                    proof {
                        assert(self.lower() == lo.remove(v));
                        assert(self.upper() == hi.insert(v));
                        assert(self@ =~= m);
                        lemma_all_le_subsets(lo, hi, lo.remove(v), hi);
                        assert forall|x: i64| #[trigger] lo.remove(v).contains(x) implies x <= v by {
                            assert(lo.contains(x));
                        }
                        lemma_all_le_insert_upper(lo.remove(v), hi, v);
                    }
                },
                None => {},
            }
        }
    }

    /// Adds `item` to the lower partition; no value of the upper one is below it.
    fn push_lower(&mut self, item: i64)
        requires
            old(self).ordered(),
            old(self)@.len() + 1 <= heap_room(),
            forall|y: i64| #[trigger] old(self).upper().contains(y) ==> item <= y,
        ensures
            final(self).ordered(),
            final(self).bound() == old(self).bound(),
            final(self).lower() == old(self).lower().insert(item),
            final(self).upper() == old(self).upper(),
    {
        let ghost lo = self.lower();
        heap_push(&mut self.left, item);
        proof {
            lemma_all_le_insert_lower(lo, self.upper(), item);
        }
    }

    /// Adds `item` to the upper partition; no value of the lower one exceeds it.
    fn push_upper(&mut self, item: i64)
        requires
            old(self).ordered(),
            old(self)@.len() + 1 <= heap_room(),
            forall|x: i64| #[trigger] old(self).lower().contains(x) ==> x <= item,
        ensures
            final(self).ordered(),
            final(self).bound() == old(self).bound(),
            final(self).lower() == old(self).lower(),
            final(self).upper() == old(self).upper().insert(item),
    {
        let ghost hi = self.upper();
        heap_push(&mut self.right, item);
        proof {
            lemma_all_le_insert_upper(self.lower(), hi, item);
        }
    }

    /// Pushes `item`, equal to the median, onto a full heap: the partition
    /// holding more copies of the median gives up its extreme, or both do
    /// when they hold as many.
    fn push_tie_at_bound(&mut self, item: i64)
        requires
            old(self).wf(),
            old(self)@.len() + 1 <= heap_room(),
            old(self)@.len() > 0,
            forall|x: i64| #[trigger] old(self).lower().contains(x) ==> x <= item,
            forall|y: i64| #[trigger] old(self).upper().contains(y) ==> item <= y,
        ensures
            final(self).ordered(),
            final(self).bound() == old(self).bound(),
            final(self)@ == pushed_tie(old(self)@, item),
            final(self)@.len() <= old(self)@.len(),
            final(self).upper().len() <= final(self).lower().len() + 2,
            final(self).lower().len() <= final(self).upper().len() + 3,
    {
        let ghost m = self@;
        let ghost lo = self.lower();
        let ghost hi = self.upper();
        let lower_copies = count_at_max_end(&mut self.left, item);
        let upper_copies = count_at_min_end(&mut self.right, item);
        proof {
            lemma_counts_add(lo, hi, item);
            lemma_filter_none(hi, |y: i64| y < item);
            lemma_len_below_and_at(lo, item);
            assert(self.lower() == lo && self.upper() == hi);
        }
        if lower_copies < upper_copies {
            self.evict_least();
            proof {
                assert forall|y: i64| #[trigger] self.upper().contains(y) implies item <= y by {
                    assert(hi.contains(y));
                }
            }
            self.push_lower(item);
        } else if lower_copies > upper_copies {
            self.evict_greatest();
            proof {
                assert forall|x: i64| #[trigger] self.lower().contains(x) implies x <= item by {
                    assert(lo.contains(x));
                }
            }
            self.push_upper(item);
        } else {
            self.evict_least();
            self.evict_greatest();
            proof {
                assert forall|y: i64| #[trigger] self.upper().contains(y) implies item <= y by {
                    assert(self.upper().count(y) <= hi.count(y));
                    assert(hi.contains(y));
                }
            }
            self.push_lower(item);
        }
    }

    /// Pushes a value onto the median heap.
    ///
    /// The value is compared with the current median. Below the bound it
    /// joins the lower partition if it is smaller, the upper one if it is
    /// greater, and the smaller partition if it is equal (the lower one when
    /// both are level). When the heap is full, a smaller value first evicts
    /// the greatest value held and a greater one the least value held. An
    /// equal value counts the copies of the median in each partition: if the
    /// upper one holds more, the least value is evicted and the value joins
    /// the lower partition; if the lower one holds more, the greatest value is
    /// evicted and the value joins the upper partition; if they hold as many,
    /// both are evicted and the value joins the lower partition. The
    /// partitions are levelled afterwards.
    pub fn push(&mut self, item: i64)
        requires
            old(self).wf(),
            old(self)@.len() + 1 <= heap_room(),
        ensures
            final(self).wf(),
            final(self).bound() == old(self).bound(),
            final(self)@ == pushed(old(self)@, old(self).bound(), item),
            final(self)@.len() <= old(self)@.len() + 1,
    {
        let ghost m = self@;
        let zero_bound = match self.max_size {
            Some(c) => c == 0,
            None => false,
        };
        if zero_bound {
            assert(m.len() == 0);
            return;
        }
        let ghost lo = self.lower();
        let ghost hi = self.upper();
        let full = self.is_full();
        let mid = self.middle();
        let med: i64 = match mid {
            None => 0,
            Some(Median::Single(v)) => v,
            Some(Median::Pair(a, b)) => a.average_with(&b),
        };
        proof {
            match mid {
                None => {},
                Some(Median::Single(v)) => {
                    assert forall|y: i64| #[trigger] hi.contains(y) implies med <= y by {
                        assert(lo.contains(v) && hi.contains(y));
                    }
                    assert forall|x: i64| #[trigger] lo.contains(x) implies x <= med by {}
                },
                Some(Median::Pair(a, b)) => {
                    assert(lo.contains(a) && hi.contains(b));
                    assert forall|y: i64| #[trigger] hi.contains(y) implies med <= y by {}
                    assert forall|x: i64| #[trigger] lo.contains(x) implies x <= med by {}
                },
            }
        }
        let has_median = match mid {
            None => false,
            Some(_) => true,
        };
        if has_median && item < med {
            if full {
                self.evict_greatest();
            }
            proof {
                assert forall|y: i64| #[trigger] self.upper().contains(y) implies item <= y by {
                    assert(self.upper().count(y) <= hi.count(y));
                    assert(hi.contains(y));
                }
            }
            self.push_lower(item);
        } else if has_median && item > med {
            if full {
                self.evict_least();
            }
            proof {
                assert forall|x: i64| #[trigger] self.lower().contains(x) implies x <= item by {
                    assert(self.lower().count(x) <= lo.count(x));
                    assert(lo.contains(x));
                }
            }
            self.push_upper(item);
        } else if full {
            self.push_tie_at_bound(item);
        } else {
            if heap_len(&self.left) > heap_len(&self.right) {
                self.push_upper(item);
            } else {
                self.push_lower(item);
            }
        }
        self.rebalance();
    }

    /// Returns the values of the lower partition, sorted ascending.
    pub fn lower_ascending(&self) -> (r: Vec<i64>)
        ensures
            r@.to_multiset() == self.lower(),
            ascending(r@),
    {
        heap_into_vec_asc(heap_clone(&self.left))
    }

    /// Returns the values of the upper partition, sorted descending.
    pub fn upper_descending(&self) -> (r: Vec<i64>)
        ensures
            r@.to_multiset() == self.upper(),
            descending(r@),
    {
        heap_into_vec_desc(heap_clone(&self.right))
    }
}

impl Default for MedianHeap {
    /// Creates an empty `MedianHeap` without a bound.
    fn default() -> (r: Self)
        ensures
            r.wf(),
            r@ == Multiset::<i64>::empty(),
            r.bound() == None::<usize>,
    {
        Self::new()
    }
}

/// Puts `k` copies of `v` back onto `h`.
fn restore_copies(h: &mut MinMaxHeap<i64>, v: i64, k: usize)
    requires
        heap_items(*old(h)).len() + k <= heap_room(),
    ensures
        forall|y: i64| y != v ==> #[trigger] heap_items(*final(h)).count(y) == heap_items(
            *old(h),
        ).count(y),
        heap_items(*final(h)).count(v) == heap_items(*old(h)).count(v) + k,
        heap_items(*final(h)).len() == heap_items(*old(h)).len() + k,
{
    let ghost h0 = heap_items(*h);
    let mut i: usize = 0;
    while i < k
        invariant
            i <= k,
            h0.len() + k <= heap_room(),
            forall|y: i64| y != v ==> #[trigger] heap_items(*h).count(y) == h0.count(y),
            heap_items(*h).count(v) == h0.count(v) + i,
            heap_items(*h).len() == h0.len() + i,
        decreases k - i,
    {
        heap_push(h, v);
        i += 1;
    }
}

/// Counts the copies of `v` in a heap none of whose values exceeds `v`, by
/// taking them off its greatest end and putting them back.
fn count_at_max_end(h: &mut MinMaxHeap<i64>, v: i64) -> (k: usize)
    requires
        forall|x: i64| #[trigger] heap_items(*old(h)).contains(x) ==> x <= v,
        heap_items(*old(h)).len() <= heap_room(),
    ensures
        heap_items(*final(h)) == heap_items(*old(h)),
        k == heap_items(*old(h)).count(v),
{
    let ghost h0 = heap_items(*h);
    let mut k: usize = 0;
    loop
        invariant
            h0.len() <= heap_room(),
            forall|x: i64| #[trigger] h0.contains(x) ==> x <= v,
            forall|y: i64| y != v ==> #[trigger] heap_items(*h).count(y) == h0.count(y),
            heap_items(*h).count(v) + k == h0.count(v),
            heap_items(*h).len() + k == h0.len(),
        ensures
            heap_items(*h).count(v) == 0,
        decreases heap_items(*h).len(),
    {
        let ghost cur = heap_items(*h);
        match heap_peek_max(h) {
            Some(top) => {
                if top == v {
                    proof {
                        lemma_remove_len(cur, v);
                    }
                    heap_pop_max(h);
                    k += 1;
                } else {
                    proof {
                        assert(h0.count(top) >= cur.count(top));
                        assert(h0.contains(top));
                        if cur.contains(v) {
                            assert(v <= top);
                        }
                    }
                    break;
                }
            },
            None => {
                break;
            },
        }
    }
    restore_copies(h, v, k);
    assert(heap_items(*h) =~= h0);
    k
}

/// Counts the copies of `v` in a heap none of whose values is below `v`, by
/// taking them off its least end and putting them back.
fn count_at_min_end(h: &mut MinMaxHeap<i64>, v: i64) -> (k: usize)
    requires
        forall|x: i64| #[trigger] heap_items(*old(h)).contains(x) ==> v <= x,
        heap_items(*old(h)).len() <= heap_room(),
    ensures
        heap_items(*final(h)) == heap_items(*old(h)),
        k == heap_items(*old(h)).count(v),
{
    let ghost h0 = heap_items(*h);
    let mut k: usize = 0;
    loop
        invariant
            h0.len() <= heap_room(),
            forall|x: i64| #[trigger] h0.contains(x) ==> v <= x,
            forall|y: i64| y != v ==> #[trigger] heap_items(*h).count(y) == h0.count(y),
            heap_items(*h).count(v) + k == h0.count(v),
            heap_items(*h).len() + k == h0.len(),
        ensures
            heap_items(*h).count(v) == 0,
        decreases heap_items(*h).len(),
    {
        let ghost cur = heap_items(*h);
        match heap_peek_min(h) {
            Some(top) => {
                if top == v {
                    proof {
                        lemma_remove_len(cur, v);
                    }
                    heap_pop_min(h);
                    k += 1;
                } else {
                    proof {
                        assert(h0.count(top) >= cur.count(top));
                        assert(h0.contains(top));
                        if cur.contains(v) {
                            assert(top <= v);
                        }
                    }
                    break;
                }
            },
            None => {
                break;
            },
        }
    }
    restore_copies(h, v, k);
    assert(heap_items(*h) =~= h0);
    k
}

} // verus!
