use archflow_logic::ecs::component::{Component, ComponentId, ComponentStorage, VecStorage};
use std::any::TypeId;

#[derive(Clone, Debug, PartialEq)]
struct TestComponent {
    value: u32,
}

impl Component for TestComponent {
    type Storage = VecStorage<TestComponent>;
}

#[derive(Clone, Debug, PartialEq)]
struct OtherComponent;

impl Component for OtherComponent {
    type Storage = VecStorage<OtherComponent>;
}

#[test]
fn test_component_id_of() {
    let id = ComponentId::of::<TestComponent>();
    assert_eq!(id.type_id(), TypeId::of::<TestComponent>());
}

#[test]
fn test_component_id_equality() {
    let id1 = ComponentId::of::<TestComponent>();
    let id2 = ComponentId::of::<TestComponent>();
    assert_eq!(id1, id2);
}

#[test]
fn test_component_id_inequality() {
    let id1 = ComponentId::of::<TestComponent>();
    let id2 = ComponentId::of::<OtherComponent>();
    assert_ne!(id1, id2);
}

#[test]
fn test_vec_storage_insert() {
    let mut storage = VecStorage::<TestComponent>::new();
    storage.insert(0, TestComponent { value: 42 });
    storage.insert(5, TestComponent { value: 100 });

    assert_eq!(storage.get(0).unwrap().value, 42);
    assert_eq!(storage.get(5).unwrap().value, 100);
}

#[test]
fn test_vec_storage_remove() {
    let mut storage = VecStorage::<TestComponent>::new();
    storage.insert(0, TestComponent { value: 42 });

    let removed = storage.remove(0);
    assert_eq!(removed.unwrap().value, 42);
    assert!(!storage.contains(0));
}

#[test]
fn test_vec_storage_get_mut() {
    let mut storage = VecStorage::<TestComponent>::new();
    storage.insert(0, TestComponent { value: 42 });

    if let Some(comp) = storage.get_mut(0) {
        comp.value = 100;
    }

    assert_eq!(storage.get(0).unwrap().value, 100);
}

#[test]
fn test_vec_storage_len() {
    let mut storage = VecStorage::<TestComponent>::new();
    assert_eq!(storage.len(), 0);
    assert!(storage.is_empty());

    storage.insert(0, TestComponent { value: 1 });
    storage.insert(5, TestComponent { value: 2 });

    assert_eq!(storage.len(), 2);
    assert!(!storage.is_empty());
}

#[test]
fn test_vec_storage_clear() {
    let mut storage = VecStorage::<TestComponent>::new();
    storage.insert(0, TestComponent { value: 1 });
    storage.insert(1, TestComponent { value: 2 });

    storage.clear();

    assert_eq!(storage.len(), 0);
    assert!(storage.is_empty());
}

#[test]
fn test_vec_storage_contains() {
    let mut storage = VecStorage::<TestComponent>::new();

    assert!(!storage.contains(0));

    storage.insert(0, TestComponent { value: 42 });
    assert!(storage.contains(0));
    assert!(!storage.contains(1));
}

#[test]
fn test_vec_storage_out_of_bounds() {
    let mut storage = VecStorage::<TestComponent>::new();

    assert_eq!(storage.get(100), None);
    assert_eq!(storage.remove(100), None);
    assert!(!storage.contains(100));
}

#[test]
fn test_vec_storage_with_capacity() {
    let storage = VecStorage::<TestComponent>::with_capacity(10);
    assert!(storage.is_empty());
}

#[test]
fn component_id_same_and_new() {
    let a = ComponentId::of::<TestComponent>();
    let b = ComponentId::new(TypeId::of::<TestComponent>());
    let c = ComponentId::from_type_name::<OtherComponent>();
    assert!(a.same(&b));
    assert!(!a.same(&c));
    assert_eq!(a.precedes(&c), TypeId::of::<TestComponent>() < TypeId::of::<OtherComponent>());
}

#[test]
fn vec_storage_len_counts_occupied_slots() {
    let mut storage = VecStorage::<TestComponent>::new();
    storage.insert(3, TestComponent { value: 3 });
    // Slots 0..=3 exist, one is occupied.
    assert_eq!(storage.iter().count(), 4);
    assert_eq!(storage.len(), 1);
    storage.insert(3, TestComponent { value: 4 });
    assert_eq!(storage.len(), 1);
    assert_eq!(storage.get(3).unwrap().value, 4);
}
