//! The ordered partitions: double-ended priority queues of the
//! `min_max_heap` crate, seen through the multiset of values they hold.

use min_max_heap::MinMaxHeap;
use vstd::multiset::Multiset;
use vstd::prelude::*;

verus! {

#[verifier::external_type_specification]
#[verifier::external_body]
#[verifier::reject_recursive_types(T)]
pub struct ExMinMaxHeap<T>(MinMaxHeap<T>);

/// The values that a heap holds, with their multiplicities.
pub uninterp spec fn heap_items(h: MinMaxHeap<i64>) -> Multiset<i64>;

/// `v` is held in `m` and no held value is smaller.
pub open spec fn is_least(m: Multiset<i64>, v: i64) -> bool {
    &&& m.contains(v)
    &&& forall|y: i64| #[trigger] m.contains(y) ==> v <= y
}

/// `v` is held in `m` and no held value is greater.
pub open spec fn is_greatest(m: Multiset<i64>, v: i64) -> bool {
    &&& m.contains(v)
    &&& forall|y: i64| #[trigger] m.contains(y) ==> y <= v
}

/// `s` is sorted in ascending order.
pub open spec fn ascending(s: Seq<i64>) -> bool {
    forall|i: int, j: int| 0 <= i < j < s.len() ==> s[i] <= s[j]
}

/// `s` is sorted in descending order.
pub open spec fn descending(s: Seq<i64>) -> bool {
    forall|i: int, j: int| 0 <= i < j < s.len() ==> s[i] >= s[j]
}

/// How many `i64` values a heap may hold so that its backing vector, even
/// after doubling its capacity, stays within `isize::MAX` bytes.
pub open spec fn heap_room() -> int {
    isize::MAX / 16
}

/// Relies on `MinMaxHeap::new`: the new heap is empty.
#[verifier::external_body]
pub(crate) fn heap_new() -> (h: MinMaxHeap<i64>)
    ensures
        heap_items(h) == Multiset::<i64>::empty(),
{
    MinMaxHeap::new()
}

/// Relies on `MinMaxHeap::len`: the number of values held.
#[verifier::external_body]
pub(crate) fn heap_len(h: &MinMaxHeap<i64>) -> (r: usize)
    ensures
        r == heap_items(*h).len(),
{
    h.len()
}

/// Relies on `MinMaxHeap::push`: adds one value. It pushes onto the backing
/// `Vec`, which panics when its new capacity would exceed `isize::MAX` bytes.
#[verifier::external_body]
pub(crate) fn heap_push(h: &mut MinMaxHeap<i64>, x: i64)
    requires
        heap_items(*old(h)).len() + 1 <= heap_room(),
    ensures
        heap_items(*final(h)) == heap_items(*old(h)).insert(x),
{
    h.push(x)
}

/// Relies on `MinMaxHeap::peek_min`: the least value, `None` when empty.
#[verifier::external_body]
pub(crate) fn heap_peek_min(h: &MinMaxHeap<i64>) -> (r: Option<i64>)
    ensures
        match r {
            None => heap_items(*h).len() == 0,
            Some(v) => is_least(heap_items(*h), v),
        },
{
    h.peek_min().copied()
}

/// Relies on `MinMaxHeap::peek_max`: the greatest value, `None` when empty.
#[verifier::external_body]
pub(crate) fn heap_peek_max(h: &MinMaxHeap<i64>) -> (r: Option<i64>)
    ensures
        match r {
            None => heap_items(*h).len() == 0,
            Some(v) => is_greatest(heap_items(*h), v),
        },
{
    h.peek_max().copied()
}

/// Relies on `MinMaxHeap::pop_min`: removes one occurrence of the least
/// value and returns it; leaves an empty heap as it is.
#[verifier::external_body]
pub(crate) fn heap_pop_min(h: &mut MinMaxHeap<i64>) -> (r: Option<i64>)
    ensures
        match r {
            None => heap_items(*old(h)).len() == 0 && heap_items(*final(h)) == heap_items(*old(h)),
            Some(v) => is_least(heap_items(*old(h)), v) && heap_items(*final(h)) == heap_items(
                *old(h),
            ).remove(v),
        },
{
    h.pop_min()
}

/// Relies on `MinMaxHeap::pop_max`: removes one occurrence of the greatest
/// value and returns it; leaves an empty heap as it is.
#[verifier::external_body]
pub(crate) fn heap_pop_max(h: &mut MinMaxHeap<i64>) -> (r: Option<i64>)
    ensures
        match r {
            None => heap_items(*old(h)).len() == 0 && heap_items(*final(h)) == heap_items(*old(h)),
            Some(v) => is_greatest(heap_items(*old(h)), v) && heap_items(*final(h)) == heap_items(
                *old(h),
            ).remove(v),
        },
{
    h.pop_max()
}

/// Relies on `MinMaxHeap`'s derived `Clone`: a copy of the backing vector.
#[verifier::external_body]
pub(crate) fn heap_clone(h: &MinMaxHeap<i64>) -> (r: MinMaxHeap<i64>)
    ensures
        heap_items(r) == heap_items(*h),
{
    h.clone()
}

/// Relies on `MinMaxHeap::into_vec_asc`: the values held, sorted ascending.
#[verifier::external_body]
pub(crate) fn heap_into_vec_asc(h: MinMaxHeap<i64>) -> (r: Vec<i64>)
    ensures
        r@.to_multiset() == heap_items(h),
        ascending(r@),
{
    h.into_vec_asc()
}

/// Relies on `MinMaxHeap::into_vec_desc`: the values held, sorted descending.
#[verifier::external_body]
pub(crate) fn heap_into_vec_desc(h: MinMaxHeap<i64>) -> (r: Vec<i64>)
    ensures
        r@.to_multiset() == heap_items(h),
        descending(r@),
{
    h.into_vec_desc()
}

} // verus!
