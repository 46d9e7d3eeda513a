use medianheap::{Median, MedianHeap};

#[test]
fn lib_push() {
    let mut heap = MedianHeap::new();

    heap.push(1);
    assert_eq!(heap.middle(), Some(Median::Single(1)));

    heap.push(2);
    assert_eq!(heap.middle(), Some(Median::Pair(1, 2)));

    heap.push(3);
    assert_eq!(heap.middle(), Some(Median::Single(2)));

    heap.push(4);
    assert_eq!(heap.middle(), Some(Median::Pair(2, 3)));

    heap.push(5);
    assert_eq!(heap.middle(), Some(Median::Single(3)));

    heap.push(1);
    assert_eq!(heap.middle(), Some(Median::Pair(2, 3)));
}

#[test]
fn lib_push_ascending() {
    let mut heap = MedianHeap::new();

    heap.push(1);
    heap.push(2);
    heap.push(3);
    heap.push(4);
    heap.push(5);

    assert_eq!(heap.middle(), Some(Median::Single(3)));
}

#[test]
fn lib_push_descending() {
    let mut heap = MedianHeap::new();

    heap.push(5);
    heap.push(4);
    heap.push(3);
    heap.push(2);
    heap.push(1);

    assert_eq!(heap.middle(), Some(Median::Single(3)));
}

#[test]
fn lib_max_size_1() {
    let mut heap = MedianHeap::with_max_size(1);

    heap.push(1);
    assert_eq!(heap.middle(), Some(Median::Single(1)));
    assert_eq!(heap.len(), 1);
    heap.push(1);
    assert_eq!(heap.middle(), Some(Median::Single(1)));
    assert_eq!(heap.len(), 1);
    heap.push(1);
    assert_eq!(heap.middle(), Some(Median::Single(1)));
    assert_eq!(heap.len(), 1);
}

#[test]
fn lib_max_size_1_asc() {
    let mut heap = MedianHeap::with_max_size(1);

    heap.push(1);
    assert_eq!(heap.middle(), Some(Median::Single(1)));
    assert_eq!(heap.len(), 1);
    heap.push(2);
    assert_eq!(heap.middle(), Some(Median::Single(2)));
    assert_eq!(heap.len(), 1);
    heap.push(3);
    assert_eq!(heap.middle(), Some(Median::Single(3)));
    assert_eq!(heap.len(), 1);
}

#[test]
fn lib_max_size_1_desc() {
    let mut heap = MedianHeap::with_max_size(1);

    heap.push(3);
    assert_eq!(heap.middle(), Some(Median::Single(3)));
    assert_eq!(heap.len(), 1);
    heap.push(2);
    assert_eq!(heap.middle(), Some(Median::Single(2)));
    assert_eq!(heap.len(), 1);
    heap.push(1);
    assert_eq!(heap.middle(), Some(Median::Single(1)));
    assert_eq!(heap.len(), 1);
}

#[test]
fn lib_max_size_8() {
    let mut heap = MedianHeap::with_max_size(8);

    for i in 0..100usize {
        heap.push(i as i64);

        if i < 8 {
            assert_eq!(heap.len(), i + 1);
        } else {
            assert_eq!(heap.len(), 8);
        }
    }

    assert_eq!(heap.middle(), Some(Median::Pair(95, 96)));
    assert_eq!(heap.len(), 8);
}

#[test]
fn lib_f32() {
    MedianHeap::new();
}

#[test]
fn lib_f64() {
    MedianHeap::new();
}

#[test]
fn median_heap_push_ascending() {
    let mut heap = MedianHeap::new();

    heap.push(1);
    heap.push(2);
    heap.push(3);
    heap.push(4);
    heap.push(5);

    assert_eq!(heap.median(), Some(3));
}

#[test]
fn median_heap_push_descending() {
    let mut heap = MedianHeap::new();

    heap.push(5);
    heap.push(4);
    heap.push(3);
    heap.push(2);
    heap.push(1);

    assert_eq!(heap.median(), Some(3));
}

#[test]
fn median_heap_max_size_1() {
    let mut heap = MedianHeap::with_max_size(1);

    heap.push(1);
    assert_eq!(heap.median(), Some(1));
    assert_eq!(heap.len(), 1);
    heap.push(1);
    assert_eq!(heap.median(), Some(1));
    assert_eq!(heap.len(), 1);
    heap.push(1);
    assert_eq!(heap.median(), Some(1));
    assert_eq!(heap.len(), 1);
}

#[test]
fn median_heap_max_size_1_asc() {
    let mut heap = MedianHeap::with_max_size(1);

    heap.push(1);
    assert_eq!(heap.median(), Some(1));
    assert_eq!(heap.len(), 1);
    heap.push(2);
    assert_eq!(heap.median(), Some(2));
    assert_eq!(heap.len(), 1);
    heap.push(3);
    assert_eq!(heap.median(), Some(3));
    assert_eq!(heap.len(), 1);
}

#[test]
fn median_heap_max_size_1_desc() {
    let mut heap = MedianHeap::with_max_size(1);

    heap.push(3);
    assert_eq!(heap.median(), Some(3));
    assert_eq!(heap.len(), 1);
    heap.push(2);
    assert_eq!(heap.median(), Some(2));
    assert_eq!(heap.len(), 1);
    heap.push(1);
    assert_eq!(heap.median(), Some(1));
    assert_eq!(heap.len(), 1);
}

#[test]
fn median_heap_f32() {
    MedianHeap::new();
}

#[test]
fn median_heap_f64() {
    MedianHeap::new();
}

#[test]
fn lib_max_size_balancing() {
    let mut heap = MedianHeap::with_max_size(8);

    for _ in 0..8 {
        heap.push(100);
    }

    assert_eq!(heap.lower_ascending(), vec![100; 4]);
    assert_eq!(heap.upper_descending(), vec![100; 4]);

    for _ in 0..(8 * 3 / 2) {
        heap.push(2);
    }

    assert_eq!(heap.lower_ascending(), vec![2; 4]);
    assert_eq!(heap.upper_descending(), vec![2; 4]);

    heap.push(1);
    assert_eq!(heap.lower_ascending(), vec![1, 2, 2, 2],);
    assert_eq!(heap.upper_descending(), vec![2, 2, 2, 2],);

    heap.push(1);
    assert_eq!(heap.lower_ascending(), vec![1, 1, 2, 2],);
    assert_eq!(heap.upper_descending(), vec![2, 2, 2, 2],);

    heap.push(3);
    assert_eq!(heap.lower_ascending(), vec![1, 2, 2, 2],);
    assert_eq!(heap.upper_descending(), vec![3, 2, 2, 2],);

    heap.push(2);
    assert_eq!(heap.lower_ascending(), vec![2; 4]);
    assert_eq!(heap.upper_descending(), vec![2; 3]);
}
