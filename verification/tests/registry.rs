use archflow_logic::ecs::component::{Component, ComponentStorage, VecStorage};
use archflow_logic::ecs::registry::ComponentRegistry;
use archflow_logic::ecs::sparse_set::SparseSet;

#[derive(Clone, Debug, PartialEq)]
struct Position {
    x: f32,
    y: f32,
}

impl Component for Position {
    type Storage = VecStorage<Position>;
}

#[derive(Clone, Debug, PartialEq)]
struct Velocity {
    dx: f32,
    dy: f32,
}

impl Component for Velocity {
    type Storage = VecStorage<Velocity>;
}

#[derive(Clone, Debug, PartialEq, Default)]
struct Health {
    current: u32,
    max: u32,
}

impl Component for Health {
    type Storage = SparseSet<Health>;
}

#[test]
fn test_register_component() {
    let mut registry = ComponentRegistry::new();

    assert!(!registry.is_registered::<Position>());
    assert_eq!(registry.len(), 0);

    registry.register::<Position>();

    assert!(registry.is_registered::<Position>());
    assert_eq!(registry.len(), 1);
}

#[test]
fn test_component_storage_retrieval() {
    let mut registry = ComponentRegistry::new();

    registry.register::<Position>();
    registry.register::<Velocity>();

    let positions = registry.get_storage::<Position>();
    assert!(positions.is_some());

    let positions = registry.get_storage_mut::<Position>();
    assert!(positions.is_some());

    if let Some(storage) = positions {
        storage.insert(0, Position { x: 1.0, y: 2.0 });
        storage.insert(5, Position { x: 3.0, y: 4.0 });
    }

    let positions = registry.get_storage::<Position>();
    assert_eq!(positions.and_then(|p| p.get(0)), Some(&Position { x: 1.0, y: 2.0 }));
    assert_eq!(positions.and_then(|p| p.get(5)), Some(&Position { x: 3.0, y: 4.0 }));
}

#[test]
fn test_get_unregistered_storage() {
    let mut registry = ComponentRegistry::new();

    assert!(registry.get_storage::<Position>().is_none());
    assert!(registry.get_storage_mut::<Position>().is_none());
}

#[test]
fn test_multiple_components() {
    let mut registry = ComponentRegistry::new();

    registry.register::<Position>();
    registry.register::<Velocity>();
    registry.register::<Health>();

    assert_eq!(registry.len(), 3);
    assert!(registry.is_registered::<Position>());
    assert!(registry.is_registered::<Velocity>());
    assert!(registry.is_registered::<Health>());
}

#[test]
fn registry_test_registry_clear() {
    let mut registry = ComponentRegistry::new();

    registry.register::<Position>();
    registry.register::<Velocity>();

    assert_eq!(registry.len(), 2);

    registry.clear();

    assert_eq!(registry.len(), 0);
    assert!(registry.is_empty());
    assert!(!registry.is_registered::<Position>());
}

#[test]
fn test_sparse_set_storage() {
    let mut registry = ComponentRegistry::new();

    registry.register::<Health>();

    let health = registry.get_storage_mut::<Health>();
    assert!(health.is_some());

    if let Some(storage) = health {
        storage.insert(0, Health { current: 100, max: 100 });
        storage.insert(10, Health { current: 50, max: 100 });
    }

    let health = registry.get_storage::<Health>();
    assert_eq!(health.and_then(|h| h.get(0)), Some(&Health { current: 100, max: 100 }));
    assert_eq!(health.and_then(|h| h.get(10)), Some(&Health { current: 50, max: 100 }));
    assert_eq!(health.and_then(|h| h.get(5)), None);
}

#[test]
fn test_register_with_custom_storage() {
    let mut registry = ComponentRegistry::new();

    let sparse_set = SparseSet::<Health>::with_capacity(100, 50);
    registry.register_with_storage::<Health>(sparse_set);

    assert!(registry.is_registered::<Health>());

    let health = registry.get_storage_mut::<Health>();
    assert!(health.is_some());
}

#[test]
fn test_component_isolation() {
    let mut registry = ComponentRegistry::new();

    registry.register::<Position>();
    registry.register::<Velocity>();

    {
        let positions = registry.get_storage_mut::<Position>().unwrap();
        positions.insert(0, Position { x: 1.0, y: 2.0 });
    }

    {
        let velocities = registry.get_storage_mut::<Velocity>().unwrap();
        velocities.insert(0, Velocity { dx: 0.5, dy: 0.5 });
    }

    let positions = registry.get_storage::<Position>().unwrap();
    let velocities = registry.get_storage::<Velocity>().unwrap();

    assert_eq!(positions.get(0), Some(&Position { x: 1.0, y: 2.0 }));
    assert_eq!(velocities.get(0), Some(&Velocity { dx: 0.5, dy: 0.5 }));
}

#[test]
fn test_registry_default() {
    let registry = ComponentRegistry::default();
    assert!(registry.is_empty());
}

#[test]
fn test_multiple_entities_same_component() {
    let mut registry = ComponentRegistry::new();

    registry.register::<Position>();

    {
        let positions = registry.get_storage_mut::<Position>().unwrap();
        for i in 0..10 {
            positions.insert(i, Position { x: i as f32, y: i as f32 * 2.0 });
        }
    }

    let positions = registry.get_storage::<Position>().unwrap();

    for i in 0..10 {
        assert_eq!(positions.get(i), Some(&Position { x: i as f32, y: i as f32 * 2.0 }));
    }
}

#[test]
fn test_component_modification() {
    let mut registry = ComponentRegistry::new();

    registry.register::<Position>();

    {
        let positions = registry.get_storage_mut::<Position>().unwrap();
        positions.insert(0, Position { x: 1.0, y: 2.0 });
    }

    {
        let positions = registry.get_storage_mut::<Position>().unwrap();
        if let Some(pos) = positions.get_mut(0) {
            pos.x = 10.0;
            pos.y = 20.0;
        }
    }

    let positions = registry.get_storage::<Position>().unwrap();
    assert_eq!(positions.get(0), Some(&Position { x: 10.0, y: 20.0 }));
}

#[test]
fn registry_second_registration_keeps_storage() {
    let mut registry = ComponentRegistry::new();
    assert!(registry.register::<Position>());
    registry.get_storage_mut::<Position>().unwrap().insert(1, Position { x: 5.0, y: 6.0 });
    // A second registration is refused and keeps the stored components.
    assert!(!registry.register::<Position>());
    assert_eq!(registry.len(), 1);
    assert_eq!(registry.get_storage::<Position>().unwrap().get(1), Some(&Position { x: 5.0, y: 6.0 }));
}
