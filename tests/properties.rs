use medianheap::{AverageWith, Median, MedianHeap};

/// A small deterministic generator of test values.
struct Lcg(u64);

impl Lcg {
    fn next(&mut self, modulus: u64) -> i64 {
        self.0 = self.0.wrapping_mul(6364136223846793005).wrapping_add(1442695040888963407);
        ((self.0 >> 33) % modulus) as i64 - (modulus / 2) as i64
    }
}

fn check_invariants(heap: &MedianHeap) {
    let lower = heap.lower_ascending();
    let upper = heap.upper_descending();
    assert!(upper.len() <= lower.len() && lower.len() <= upper.len() + 1);
    if let (Some(a), Some(b)) = (lower.last(), upper.last()) {
        assert!(a <= b);
    }
    if let Some(c) = heap.max_size() {
        assert!(heap.len() <= c);
    }
    assert_eq!(heap.len(), lower.len() + upper.len());
}

fn sorted_values(heap: &MedianHeap) -> Vec<i64> {
    let mut all = heap.lower_ascending();
    let mut upper = heap.upper_descending();
    upper.reverse();
    all.extend(upper);
    all
}

fn textbook(values: &[i64]) -> Option<i64> {
    let mut v = values.to_vec();
    v.sort();
    let n = v.len();
    if n == 0 {
        None
    } else if n % 2 == 1 {
        Some(v[n / 2])
    } else {
        Some((v[n / 2 - 1] + v[n / 2]).div_euclid(2))
    }
}

#[test]
fn invariants_hold_after_every_push() {
    for (seed, bound) in [(1u64, None), (2, Some(1)), (3, Some(2)), (4, Some(5)), (5, Some(8))] {
        let mut rng = Lcg(seed);
        let mut heap = match bound {
            Some(c) => MedianHeap::with_max_size(c),
            None => MedianHeap::new(),
        };
        let mut pushes = 0usize;
        for _ in 0..300 {
            let before = heap.len();
            heap.push(rng.next(11));
            pushes += 1;
            check_invariants(&heap);
            assert!(heap.len() <= before + 1);
            assert!(heap.len() <= pushes);
        }
    }
}

#[test]
fn median_matches_sorted_retained_values() {
    for (seed, bound) in [(7u64, None), (8, Some(3)), (9, Some(6)), (10, Some(7))] {
        let mut rng = Lcg(seed);
        let mut heap = match bound {
            Some(c) => MedianHeap::with_max_size(c),
            None => MedianHeap::new(),
        };
        assert_eq!(heap.median(), None);
        for _ in 0..200 {
            heap.push(rng.next(21));
            let values = sorted_values(&heap);
            assert_eq!(heap.median(), textbook(&values));
        }
    }
}

#[test]
fn unbounded_ascending_median_sequence() {
    let mut heap = MedianHeap::new();
    let mut medians = Vec::new();
    let mut middles = Vec::new();
    for v in 1..=5 {
        heap.push(v);
        medians.push(heap.median().unwrap());
        middles.push(heap.middle().unwrap());
    }
    assert_eq!(medians, vec![1, 1, 2, 2, 3]);
    assert_eq!(
        middles,
        vec![
            Median::Single(1),
            Median::Pair(1, 2),
            Median::Single(2),
            Median::Pair(2, 3),
            Median::Single(3),
        ]
    );
}

#[test]
fn unbounded_descending_final_median() {
    let mut heap = MedianHeap::new();
    for v in [5, 4, 3, 2, 1] {
        heap.push(v);
    }
    assert_eq!(heap.median(), Some(3));
}

#[test]
fn capacity_one_keeps_latest() {
    let mut heap = MedianHeap::with_max_size(1);
    heap.push(1);
    assert_eq!(heap.median(), Some(1));
    assert_eq!(heap.len(), 1);
    heap.push(2);
    assert_eq!(heap.median(), Some(2));
    assert_eq!(heap.len(), 1);
}

#[test]
fn capacity_zero_stays_empty() {
    let mut heap = MedianHeap::with_max_size(0);
    assert_eq!(heap.max_size(), Some(0));
    for v in [3, -1, 0, 7, 7] {
        heap.push(v);
        assert_eq!(heap.median(), None);
        assert_eq!(heap.middle(), None);
        assert_eq!(heap.len(), 0);
        assert!(heap.is_empty());
    }
}

#[test]
fn duplicates_at_capacity_take_over() {
    let mut heap = MedianHeap::with_max_size(8);
    for _ in 0..8 {
        heap.push(100);
    }
    assert_eq!(heap.median(), Some(100));
    let mut last = 100;
    for _ in 0..15 {
        heap.push(2);
        let m = heap.median().unwrap();
        assert!(m <= last);
        last = m;
    }
    // Only copies of 2 are left. At the bound, each further 2 finds as many
    // copies of the median on both sides and evicts two values, so the size
    // alternates between the bound and one less.
    assert_eq!(heap.lower_ascending(), vec![2; 4]);
    assert_eq!(heap.upper_descending(), vec![2; 3]);
    assert_eq!(heap.median(), Some(2));
    heap.push(2);
    assert_eq!(heap.lower_ascending(), vec![2; 4]);
    assert_eq!(heap.upper_descending(), vec![2; 4]);
}

#[test]
fn other_values_never_grow() {
    let mut heap = MedianHeap::with_max_size(6);
    let mut rng = Lcg(42);
    for _ in 0..6 {
        heap.push(rng.next(50));
    }
    let mut others = sorted_values(&heap).iter().filter(|&&v| v != 9).count();
    for _ in 0..20 {
        heap.push(9);
        let now = sorted_values(&heap).iter().filter(|&&v| v != 9).count();
        assert!(now <= others);
        others = now;
    }
    assert_eq!(others, 0);
}

#[test]
fn equal_value_below_bound_joins_smaller_side() {
    let mut heap = MedianHeap::new();
    heap.push(5);
    heap.push(5);
    assert_eq!(heap.lower_ascending(), vec![5]);
    assert_eq!(heap.upper_descending(), vec![5]);
    heap.push(5);
    assert_eq!(heap.lower_ascending(), vec![5, 5]);
    assert_eq!(heap.upper_descending(), vec![5]);
}

#[test]
fn full_heap_evicts_greatest_for_smaller_value() {
    let mut heap = MedianHeap::with_max_size(3);
    for v in [10, 20, 30] {
        heap.push(v);
    }
    heap.push(1);
    assert_eq!(sorted_values(&heap), vec![1, 10, 20]);
    assert_eq!(heap.median(), Some(10));
}

#[test]
fn full_heap_evicts_least_for_greater_value() {
    let mut heap = MedianHeap::with_max_size(3);
    for v in [10, 20, 30] {
        heap.push(v);
    }
    heap.push(40);
    assert_eq!(sorted_values(&heap), vec![20, 30, 40]);
    assert_eq!(heap.median(), Some(30));
}

#[test]
fn full_heap_tie_with_more_copies_below_evicts_greatest() {
    let mut heap = MedianHeap::with_max_size(3);
    for v in [10, 20, 30] {
        heap.push(v);
    }
    heap.push(20);
    assert_eq!(heap.lower_ascending(), vec![10, 20]);
    assert_eq!(heap.upper_descending(), vec![20]);
    assert_eq!(heap.len(), 3);
    assert_eq!(heap.median(), Some(20));
}

#[test]
fn full_heap_tie_with_more_copies_above_evicts_least() {
    let mut heap = MedianHeap::with_max_size(4);
    for v in [20, 20, 20, 10] {
        heap.push(v);
    }
    assert_eq!(heap.lower_ascending(), vec![10, 20]);
    assert_eq!(heap.upper_descending(), vec![20, 20]);
    heap.push(20);
    assert_eq!(heap.lower_ascending(), vec![20, 20]);
    assert_eq!(heap.upper_descending(), vec![20, 20]);
    assert_eq!(heap.len(), 4);
}

#[test]
fn full_heap_tie_with_as_many_copies_evicts_both() {
    let mut heap = MedianHeap::with_max_size(2);
    heap.push(10);
    heap.push(20);
    assert_eq!(heap.median(), Some(15));
    heap.push(15);
    assert_eq!(sorted_values(&heap), vec![15]);
    assert_eq!(heap.len(), 1);
    assert_eq!(heap.median(), Some(15));
}

#[test]
fn even_median_rounds_down() {
    let mut heap = MedianHeap::new();
    heap.push(-1);
    heap.push(-2);
    assert_eq!(heap.middle(), Some(Median::Pair(-2, -1)));
    assert_eq!(heap.median(), Some(-2));
    let mut heap = MedianHeap::new();
    heap.push(1);
    heap.push(3);
    assert_eq!(heap.median(), Some(2));
}

#[test]
fn extreme_values_do_not_overflow() {
    let mut heap = MedianHeap::new();
    heap.push(i64::MAX);
    heap.push(i64::MAX);
    assert_eq!(heap.median(), Some(i64::MAX));
    let mut heap = MedianHeap::new();
    heap.push(i64::MIN);
    heap.push(i64::MAX);
    assert_eq!(heap.median(), Some(-1));
}

#[test]
fn getters_and_default() {
    let heap = MedianHeap::default();
    assert_eq!(heap.max_size(), None);
    assert!(heap.is_empty());
    assert_eq!(heap.len(), 0);
    assert_eq!(heap.median(), None);
    let mut heap = MedianHeap::with_max_size(42);
    assert_eq!(heap.max_size(), Some(42));
    heap.push(4);
    assert!(!heap.is_empty());
    assert_eq!(heap.len(), 1);
}

#[test]
fn partitions_come_out_sorted() {
    let mut heap = MedianHeap::new();
    for v in [7, 3, 9, 1, 8, 2, 6, 4, 5] {
        heap.push(v);
    }
    assert_eq!(heap.lower_ascending(), vec![1, 2, 3, 4, 5]);
    assert_eq!(heap.upper_descending(), vec![9, 8, 7, 6]);
}

#[test]
fn average_with_signed() {
    assert_eq!(3i64.average_with(&4), 3);
    assert_eq!((-3i64).average_with(&-4), -4);
    assert_eq!((-3i64).average_with(&0), -2);
    assert_eq!(127i8.average_with(&127), 127);
    assert_eq!((-128i8).average_with(&127), -1);
    assert_eq!((-128i8).average_with(&-128), -128);
    assert_eq!(i16::MAX.average_with(&(i16::MAX - 1)), i16::MAX - 1);
    assert_eq!(i32::MIN.average_with(&i32::MAX), -1);
    assert_eq!(i64::MAX.average_with(&i64::MAX), i64::MAX);
}

#[test]
fn average_with_unsigned() {
    assert_eq!(255u8.average_with(&255), 255);
    assert_eq!(0u8.average_with(&255), 127);
    assert_eq!(u16::MAX.average_with(&1), 32768);
    assert_eq!(5u32.average_with(&8), 6);
    assert_eq!(u64::MAX.average_with(&u64::MAX), u64::MAX);
}

#[test]
fn average_with_wide() {
    assert_eq!(i128::MAX.average_with(&i128::MAX), i128::MAX);
    assert_eq!(i128::MIN.average_with(&i128::MIN), i128::MIN);
    assert_eq!(i128::MIN.average_with(&i128::MAX), -1);
    assert_eq!(i128::MIN.average_with(&0), i128::MIN / 2);
    assert_eq!((-3i128).average_with(&0), -2);
    assert_eq!((-5i128).average_with(&-2), -4);
    assert_eq!(7i128.average_with(&2), 4);
    assert_eq!(u128::MAX.average_with(&u128::MAX), u128::MAX);
    assert_eq!(u128::MAX.average_with(&0), u128::MAX / 2);
    assert_eq!(9u128.average_with(&4), 6);
}

#[test]
fn repeated_value_takes_over_within_twice_the_bound() {
    for c in 1..=9usize {
        let mut rng = Lcg(c as u64 * 31);
        let mut heap = MedianHeap::with_max_size(c);
        for _ in 0..(3 * c) {
            heap.push(rng.next(40));
        }
        for _ in 0..(2 * c) {
            heap.push(0);
        }
        let values = sorted_values(&heap);
        assert!(!values.is_empty());
        assert!(values.iter().all(|&v| v == 0));
    }
}
