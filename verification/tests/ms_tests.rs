//! The array-backed multiset.

use bstk::ms::Ms;

#[test]
fn append_preserves_order() {
    let mut m: Ms<i32> = Ms::new();
    m.append(1);
    m.append(2);
    m.append(3);
    assert_eq!(m.items, vec![1, 2, 3]);
}

#[test]
fn remove_swaps_with_last() {
    let mut m: Ms<i32> = Ms::new();
    for x in [1, 2, 3, 4] {
        m.append(x);
    }
    assert!(m.remove(&2));
    assert_eq!(m.items, vec![1, 4, 3]);
    assert!(!m.remove(&99));
}

#[test]
fn take_is_fifo_for_odd_or_single_drain_sequences() {
    let mut m: Ms<char> = Ms::new();
    for c in ['A', 'B', 'C'] {
        m.append(c);
    }
    assert_eq!(m.take(), Some('A'));
    assert_eq!(m.take(), Some('B'));
    assert_eq!(m.take(), Some('C'));
    assert_eq!(m.take(), None);
}

#[test]
fn take_even_count_deviates_from_fifo() {
    let mut m: Ms<char> = Ms::new();
    for c in ['A', 'B', 'C', 'D'] {
        m.append(c);
    }
    let order: Vec<char> = std::iter::from_fn(|| m.take()).collect();
    assert_eq!(order, vec!['A', 'B', 'D', 'C']);
}

#[test]
fn clear_in_delete_order_matches_ms_clear() {
    let mut m: Ms<char> = Ms::new();
    for c in ['A', 'B', 'C', 'D', 'E'] {
        m.append(c);
    }
    assert_eq!(m.clear_in_delete_order(), vec!['A', 'E', 'D', 'C', 'B']);
    assert!(m.is_empty());
}

#[test]
fn clear_resets_state() {
    let mut m: Ms<i32> = Ms::new();
    m.append(1);
    m.append(2);
    let _ = m.take();
    m.clear();
    assert_eq!(m.len(), 0);
    assert!(m.is_empty());
    m.append(5);
    assert_eq!(m.take(), Some(5));
}
