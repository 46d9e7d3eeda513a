//! What repeated pushes of one value do to a bounded heap: no other value is
//! ever added, and within twice the bound the pushed value is all that is left.

use crate::median_heap::{at_bound, lower_copies, pushed};
use crate::rank::{
    greatest_of, least_of, lemma_extremes, lemma_least_rank, lemma_len_below_and_at,
    lemma_median_within, lemma_remove_len, lemma_two_counts, textbook_median,
};
use vstd::multiset::Multiset;
use vstd::prelude::*;

verus! {

broadcast use vstd::multiset::group_multiset_axioms;

/// Pushing adds no value but the one pushed: every other value is held at
/// most as often as before.
pub proof fn lemma_push_adds_only_item(m: Multiset<i64>, max_size: Option<usize>, x: i64)
    ensures
        pushed(m, max_size, x).subset_of(m.insert(x)),
{
    if at_bound(m, max_size) && m.len() != 0 {
        let rest = m.remove(least_of(m));
        assert(rest.remove(greatest_of(rest)).insert(x).subset_of(m.insert(x)));
    }
}

/// The values held after pushing `x` onto a heap that holds `m`, `k` times
/// in a row.
pub open spec fn pushed_times(m: Multiset<i64>, max_size: Option<usize>, x: i64, k: nat) -> Multiset<
    i64,
>
    decreases k,
{
    if k == 0 {
        m
    } else {
        pushed(pushed_times(m, max_size, x, (k - 1) as nat), max_size, x)
    }
}

/// `m` holds no value but `x`.
pub open spec fn holds_only(m: Multiset<i64>, x: i64) -> bool {
    forall|y: i64| #[trigger] m.contains(y) ==> y == x
}

/// Twice the number of values other than `x`, plus the room left below `c`:
/// each push of `x` lowers it while another value remains.
spec fn takeover_measure(m: Multiset<i64>, c: usize, x: i64) -> int {
    2 * (m.len() - m.count(x)) + (c - m.len())
}

/// Pushing onto a heap within a bound keeps it within the bound.
pub proof fn lemma_pushed_within(m: Multiset<i64>, c: usize, x: i64)
    requires
        m.len() <= c,
    ensures
        pushed(m, Some(c), x).len() <= c,
{
    if at_bound(m, Some(c)) && m.len() != 0 {
        lemma_extremes(m);
        lemma_remove_len(m, least_of(m));
        lemma_remove_len(m, greatest_of(m));
        let rest = m.remove(least_of(m));
        if rest.len() != 0 {
            lemma_extremes(rest);
        }
        lemma_remove_len(rest, greatest_of(rest));
    }
}

/// One push of `x` onto a bounded heap that still holds another value
/// lowers the measure.
proof fn lemma_takeover_step(m: Multiset<i64>, c: usize, x: i64, y: i64)
    requires
        1 <= c,
        m.len() <= c,
        m.contains(y),
        y != x,
    ensures
        takeover_measure(pushed(m, Some(c), x), c, x) < takeover_measure(m, c, x),
{
    if at_bound(m, Some(c)) {
        lemma_extremes(m);
        lemma_median_within(m);
        let med = textbook_median(m)->0;
        let l = least_of(m);
        let g = greatest_of(m);
        if x < med {
            assert(g != x);
        } else if x > med {
            assert(l != x);
        } else if lower_copies(m, x) < m.count(x) - lower_copies(m, x) {
            assert(l != x) by {
                if l == x {
                    lemma_least_rank(m, x);
                }
            }
        } else if lower_copies(m, x) > m.count(x) - lower_copies(m, x) {
            assert(g != x) by {
                if g == x {
                    lemma_len_below_and_at(m, x);
                    lemma_two_counts(m, x, y);
                }
            }
        } else {
            let rest = m.remove(l);
            if y < x {
                assert(l <= y);
                if rest.len() != 0 {
                    lemma_extremes(rest);
                }
            } else {
                assert(l != y);
                assert(rest.contains(y));
                lemma_extremes(rest);
                assert(greatest_of(rest) >= y);
            }
        }
    }
}

/// Along repeated pushes of `x`, the heap stays within its bound, and either
/// holds only `x` or has lowered the measure by at least one per push.
proof fn lemma_takeover_progress(m: Multiset<i64>, c: usize, x: i64, k: nat)
    requires
        1 <= c,
        m.len() <= c,
    ensures
        pushed_times(m, Some(c), x, k).len() <= c,
        holds_only(pushed_times(m, Some(c), x, k), x) || takeover_measure(
            pushed_times(m, Some(c), x, k),
            c,
            x,
        ) + k <= takeover_measure(m, c, x),
    decreases k,
{
    if k > 0 {
        let p = pushed_times(m, Some(c), x, (k - 1) as nat);
        lemma_takeover_progress(m, c, x, (k - 1) as nat);
        lemma_pushed_within(p, c, x);
        let q = pushed(p, Some(c), x);
        if holds_only(p, x) {
            lemma_push_adds_only_item(p, Some(c), x);
            assert forall|y: i64| #[trigger] q.contains(y) implies y == x by {
                assert(q.count(y) <= p.insert(x).count(y));
                if y != x {
                    assert(p.contains(y));
                }
            }
        } else {
            let y = choose|y: i64| p.contains(y) && y != x;
            lemma_takeover_step(p, c, x, y);
        }
    }
}

/// Pushing one value again and again onto a heap bounded by `c` (at least
/// one) leaves it holding that value alone, and nothing else, after at most
/// `2 * c` pushes, whatever it held before.
pub proof fn lemma_repeated_push_takes_over(m: Multiset<i64>, c: usize, x: i64, k: nat)
    requires
        1 <= c,
        m.len() <= c,
        k >= 2 * c,
    ensures
        holds_only(pushed_times(m, Some(c), x, k), x),
        pushed_times(m, Some(c), x, k).len() > 0,
{
    lemma_takeover_progress(m, c, x, k);
    let p = pushed_times(m, Some(c), x, k);
    if !holds_only(p, x) {
        let y = choose|y: i64| p.contains(y) && y != x;
        lemma_two_counts(p, x, y);
    }
    assert(pushed_times(m, Some(c), x, k) == pushed(
        pushed_times(m, Some(c), x, (k - 1) as nat),
        Some(c),
        x,
    ));
    lemma_takeover_progress(m, c, x, (k - 1) as nat);
    lemma_pushed_nonempty(pushed_times(m, Some(c), x, (k - 1) as nat), c, x);
}

/// Pushing onto a heap with a bound of at least one leaves it non-empty.
pub proof fn lemma_pushed_nonempty(m: Multiset<i64>, c: usize, x: i64)
    requires
        1 <= c,
        m.len() <= c,
    ensures
        pushed(m, Some(c), x).len() > 0,
{
}

} // verus!
