use archflow_logic::ecs::sparse_set::SparseSet;
use std::collections::BTreeMap;

#[test]
fn test_sparse_set_insert() {
    let mut set: SparseSet<u32> = SparseSet::new();

    set.insert(0, 10);
    set.insert(5, 50);
    set.insert(10, 100);

    assert_eq!(set.get(0), Some(&10));
    assert_eq!(set.get(5), Some(&50));
    assert_eq!(set.get(10), Some(&100));
    assert_eq!(set.get(3), None);
}

#[test]
fn test_sparse_set_remove() {
    let mut set: SparseSet<u32> = SparseSet::new();

    set.insert(0, 10);
    set.insert(5, 50);
    set.insert(10, 100);

    assert_eq!(set.remove(5), Some(50));
    assert_eq!(set.get(5), None);
    assert_eq!(set.len(), 2);

    // Remove non-existent entity
    assert_eq!(set.remove(99), None);
    assert_eq!(set.len(), 2);
}

#[test]
fn test_sparse_set_remove_last() {
    let mut set: SparseSet<u32> = SparseSet::new();

    set.insert(0, 10);
    set.insert(5, 50);

    assert_eq!(set.remove(5), Some(50));
    assert_eq!(set.get(5), None);
    assert_eq!(set.get(0), Some(&10));
}

#[test]
fn test_sparse_set_contains() {
    let mut set: SparseSet<u32> = SparseSet::new();

    assert!(!set.contains(0));
    assert!(!set.contains(5));

    set.insert(0, 10);
    assert!(set.contains(0));
    assert!(!set.contains(5));

    set.insert(5, 50);
    assert!(set.contains(5));

    set.remove(0);
    assert!(!set.contains(0));
    assert!(set.contains(5));
}

#[test]
fn test_sparse_set_len() {
    let mut set: SparseSet<u32> = SparseSet::new();

    assert_eq!(set.len(), 0);
    assert!(set.is_empty());

    set.insert(0, 10);
    assert_eq!(set.len(), 1);
    assert!(!set.is_empty());

    set.insert(5, 50);
    set.insert(10, 100);
    assert_eq!(set.len(), 3);

    set.remove(5);
    assert_eq!(set.len(), 2);

    set.clear();
    assert_eq!(set.len(), 0);
    assert!(set.is_empty());
}

#[test]
fn test_sparse_set_iteration() {
    let mut set: SparseSet<u32> = SparseSet::new();

    set.insert(0, 10);
    set.insert(5, 50);
    set.insert(10, 100);

    let values: Vec<_> = set.iter().copied().collect();
    assert_eq!(values.len(), 3);
    assert!(values.contains(&10));
    assert!(values.contains(&50));
    assert!(values.contains(&100));
}

#[test]
fn test_sparse_set_iter_entity() {
    let mut set: SparseSet<u32> = SparseSet::new();

    set.insert(0, 10);
    set.insert(5, 50);
    set.insert(10, 100);

    let mut pairs = Vec::new();
    let mut iter = set.iter_entity();
    while let Some(pair) = iter.next() {
        pairs.push(pair);
    }
    assert_eq!(pairs.len(), 3);

    // Check that we have the right entity-component pairs
    let pairs_map: BTreeMap<_, _> = pairs.into_iter().collect();
    assert_eq!(pairs_map.get(&0), Some(&&10));
    assert_eq!(pairs_map.get(&5), Some(&&50));
    assert_eq!(pairs_map.get(&10), Some(&&100));
}

#[test]
fn test_sparse_set_get_mut() {
    let mut set: SparseSet<u32> = SparseSet::new();

    set.insert(5, 50);

    if let Some(val) = set.get_mut(5) {
        *val = 100;
    }

    assert_eq!(set.get(5), Some(&100));
}

#[test]
fn test_sparse_set_iter_mut() {
    let mut set: SparseSet<u32> = SparseSet::new();

    set.insert(0, 10);
    set.insert(5, 50);
    set.insert(10, 100);

    for val in set.iter_mut() {
        *val *= 2;
    }

    assert_eq!(set.get(0), Some(&20));
    assert_eq!(set.get(5), Some(&100));
    assert_eq!(set.get(10), Some(&200));
}

#[test]
fn test_sparse_set_memory_efficiency() {
    let mut set: SparseSet<u32> = SparseSet::new();

    set.insert(0, 0);
    set.insert(100, 100);
    set.insert(200, 200);
    set.insert(300, 300);

    // Sparse array should grow to accommodate entity 300
    assert!(set.sparse_capacity() >= 301);

    // But dense array only has 4 elements
    assert_eq!(set.len(), 4);
    assert_eq!(set.dense_capacity(), 4);

    assert!(set.contains(0));
    assert!(!set.contains(1));
    assert!(!set.contains(99));
    assert!(set.contains(100));
}

#[test]
fn test_sparse_set_with_capacity() {
    let set: SparseSet<u32> = SparseSet::with_capacity(100, 10);

    assert!(set.is_empty());
    assert_eq!(set.sparse_capacity(), 0);
}

#[test]
fn test_sparse_set_clear() {
    let mut set: SparseSet<u32> = SparseSet::new();

    set.insert(0, 10);
    set.insert(5, 50);

    set.clear();

    assert!(set.is_empty());
    assert!(!set.contains(0));
    assert!(!set.contains(5));
}

#[test]
fn sparse_set_clear_keeps_sparse_capacity() {
    let mut set: SparseSet<u32> = SparseSet::new();
    set.insert(0, 10);
    set.insert(5, 50);
    let before = set.sparse_capacity();
    set.clear();
    assert_eq!(set.sparse_capacity(), before);
    assert_eq!(set.len(), 0);
    assert!(!set.contains(0));
    assert!(!set.contains(5));
    set.insert(5, 7);
    assert_eq!(set.get(5), Some(&7));
    assert!(!set.contains(0));
}

#[test]
fn test_sparse_set_entity_at() {
    let mut set: SparseSet<u32> = SparseSet::new();

    set.insert(5, 50);
    set.insert(10, 100);
    set.insert(0, 10);

    // The entities are stored in insertion order
    assert_eq!(set.entity_at(0), 5);
    assert_eq!(set.entity_at(1), 10);
    assert_eq!(set.entity_at(2), 0);
}

#[test]
fn test_sparse_set_remove_middle_element() {
    let mut set: SparseSet<u32> = SparseSet::new();

    set.insert(0, 10);
    set.insert(5, 50);
    set.insert(10, 100);

    let removed = set.remove(5);
    assert_eq!(removed, Some(50));

    assert_eq!(set.len(), 2);
    assert!(set.contains(0));
    assert!(!set.contains(5));
    assert!(set.contains(10));

    assert_eq!(set.get(0), Some(&10));
    assert_eq!(set.get(10), Some(&100));
}

#[derive(Debug, PartialEq)]
struct Position {
    x: f32,
    y: f32,
}

#[test]
fn test_sparse_set_complex_type() {
    let mut set: SparseSet<Position> = SparseSet::new();

    set.insert(0, Position { x: 1.0, y: 2.0 });
    set.insert(5, Position { x: 3.0, y: 4.0 });

    assert_eq!(set.get(0), Some(&Position { x: 1.0, y: 2.0 }));
    assert_eq!(set.get(5), Some(&Position { x: 3.0, y: 4.0 }));
}

#[test]
fn test_sparse_set_capacity_growth() {
    let mut set: SparseSet<u32> = SparseSet::new();

    set.insert(100, 100);
    assert!(set.sparse_capacity() >= 101);

    set.insert(0, 0);
    assert!(set.sparse_capacity() >= 101);

    set.insert(500, 500);
    assert!(set.sparse_capacity() >= 501);

    assert_eq!(set.len(), 3);
}

#[test]
fn sparse_set_swap_remove_moves_last_entity() {
    let mut set: SparseSet<u32> = SparseSet::new();
    set.insert(1, 11);
    set.insert(2, 22);
    set.insert(3, 33);
    assert_eq!(set.remove(1), Some(11));
    // The last entity takes the removed slot.
    assert_eq!(set.entity_at(0), 3);
    assert_eq!(set.entity_at(1), 2);
    assert_eq!(set.get(3), Some(&33));
}

#[test]
fn sparse_set_reinsert_after_remove() {
    let mut set: SparseSet<u32> = SparseSet::new();
    set.insert(7, 70);
    assert_eq!(set.remove(7), Some(70));
    assert!(!set.contains(7));
    set.insert(7, 71);
    assert_eq!(set.get(7), Some(&71));
    assert_eq!(set.len(), 1);
}
