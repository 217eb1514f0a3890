use archflow_logic::ecs::component::{Component, VecStorage};
use archflow_logic::ecs::sparse_set::SparseSet;
use archflow_logic::ecs::world::World;

#[derive(Clone, Debug, PartialEq)]
struct Position {
    x: f32,
    y: f32,
}

impl Component for Position {
    type Storage = VecStorage<Position>;
}

#[derive(Clone, Debug, PartialEq)]
struct Velocity {
    dx: f32,
    dy: f32,
}

impl Component for Velocity {
    type Storage = VecStorage<Velocity>;
}

#[derive(Clone, Debug, PartialEq)]
struct Health {
    current: u32,
    max: u32,
}

impl Component for Health {
    type Storage = VecStorage<Health>;
}

#[derive(Clone, Debug, PartialEq)]
struct Tag(u8);

impl Component for Tag {
    type Storage = SparseSet<Tag>;
}

#[test]
fn test_world_new() {
    let world = World::new();
    assert_eq!(world.entity_count(), 0);
    assert_eq!(world.component_type_count(), 0);
}

#[test]
fn test_world_create_entity() {
    let mut world = World::new();
    let entity = world.create_entity();

    assert_eq!(entity.index(), 0);
    assert_eq!(entity.generation(), 1);
    assert!(world.is_entity_alive(entity));
    assert_eq!(world.entity_count(), 1);
}

#[test]
fn test_world_create_multiple_entities() {
    let mut world = World::new();

    let e1 = world.create_entity();
    let e2 = world.create_entity();
    let e3 = world.create_entity();

    assert_eq!(e1.index(), 0);
    assert_eq!(e2.index(), 1);
    assert_eq!(e3.index(), 2);
    assert_eq!(world.entity_count(), 3);
}

#[test]
fn test_world_destroy_entity() {
    let mut world = World::new();
    let entity = world.create_entity();

    assert_eq!(world.entity_count(), 1);

    let destroyed = world.destroy_entity(entity);
    assert!(destroyed);
    assert_eq!(world.entity_count(), 0);
    assert!(!world.is_entity_alive(entity));
}

#[test]
fn test_world_stale_entity_reference() {
    let mut world = World::new();
    let entity = world.create_entity();
    let original_generation = entity.generation();

    world.destroy_entity(entity);

    let new_entity = world.create_entity();
    assert_eq!(new_entity.index(), entity.index());
    assert_ne!(new_entity.generation(), original_generation);

    assert!(!world.is_entity_alive(entity));
}

#[test]
fn test_world_add_component() {
    let mut world = World::new();
    let entity = world.create_entity();

    let added = world.add_component(entity, Position { x: 10.0, y: 20.0 });

    assert!(added);
    assert!(world.has_component::<Position>(entity));

    let pos = world.get_component::<Position>(entity);
    assert_eq!(pos, Some(&Position { x: 10.0, y: 20.0 }));
}

#[test]
fn test_world_add_component_auto_registers() {
    let mut world = World::new();
    let entity = world.create_entity();

    assert_eq!(world.component_type_count(), 0);

    world.add_component(entity, Position { x: 0.0, y: 0.0 });

    assert_eq!(world.component_type_count(), 1);
}

#[test]
fn test_world_add_component_to_dead_entity() {
    let mut world = World::new();
    let entity = world.create_entity();
    world.destroy_entity(entity);

    let added = world.add_component(entity, Position { x: 10.0, y: 20.0 });

    assert!(!added);
}

#[test]
fn test_world_has_component() {
    let mut world = World::new();
    let entity = world.create_entity();

    assert!(!world.has_component::<Position>(entity));

    world.add_component(entity, Position { x: 0.0, y: 0.0 });

    assert!(world.has_component::<Position>(entity));
    assert!(!world.has_component::<Velocity>(entity));
}

#[test]
fn test_world_remove_component() {
    let mut world = World::new();
    let entity = world.create_entity();

    world.add_component(entity, Position { x: 10.0, y: 20.0 });

    let removed = world.remove_component::<Position>(entity);
    assert_eq!(removed, Some(Position { x: 10.0, y: 20.0 }));

    let pos = world.get_component::<Position>(entity);
    assert_eq!(pos, None);
    assert!(!world.has_component::<Position>(entity));
}

#[test]
fn test_world_multiple_components_per_entity() {
    let mut world = World::new();
    let entity = world.create_entity();

    world.add_component(entity, Position { x: 0.0, y: 0.0 });
    world.add_component(entity, Velocity { dx: 1.0, dy: 1.0 });
    world.add_component(
        entity,
        Health {
            current: 100,
            max: 100,
        },
    );

    assert!(world.has_component::<Position>(entity));
    assert!(world.has_component::<Velocity>(entity));
    assert!(world.has_component::<Health>(entity));
}

#[test]
fn test_world_entities_with_components() {
    let mut world = World::new();

    let e1 = world.create_entity();
    let e2 = world.create_entity();
    let e3 = world.create_entity();

    world.add_component(e1, Position { x: 0.0, y: 0.0 });
    world.add_component(e2, Position { x: 1.0, y: 1.0 });
    // e3 has no Position

    let entities = world.entities_with_components::<Position>();
    assert_eq!(entities.len(), 2);
    assert!(entities.contains(&e1));
    assert!(entities.contains(&e2));
    assert!(!entities.contains(&e3));
}

#[test]
fn test_world_clear() {
    let mut world = World::new();

    let e1 = world.create_entity();
    let e2 = world.create_entity();

    world.add_component(e1, Position { x: 0.0, y: 0.0 });
    world.add_component(e2, Position { x: 1.0, y: 1.0 });

    assert_eq!(world.entity_count(), 2);

    world.clear();

    assert_eq!(world.entity_count(), 0);
    assert_eq!(world.component_type_count(), 0);
}

#[test]
fn world_reuses_the_most_recently_freed_slot() {
    let mut world = World::new();
    let a = world.create_entity();
    let b = world.create_entity();
    let c = world.create_entity();
    assert!(world.destroy_entity(a));
    assert!(world.destroy_entity(c));
    assert!(!world.destroy_entity(c));
    let d = world.create_entity();
    assert_eq!(d.index(), c.index());
    assert_eq!(d.generation(), 2);
    let e = world.create_entity();
    assert_eq!(e.index(), a.index());
    let f = world.create_entity();
    assert_eq!(f.index(), 3);
    assert_eq!(f.generation(), 1);
    assert!(world.is_entity_alive(b));
    assert_eq!(world.entity_count(), 4);
}

#[test]
fn world_destroy_clears_components_and_stale_ids_are_refused() {
    let mut world = World::new();
    let a = world.create_entity();
    world.add_component(a, Tag(1));
    assert!(world.has_component::<Tag>(a));
    assert!(world.destroy_entity(a));
    assert!(!world.has_component::<Tag>(a));
    assert_eq!(world.get_component::<Tag>(a), None);
    assert_eq!(world.remove_component::<Tag>(a), None);
    let b = world.create_entity();
    assert!(!world.has_component::<Tag>(b));
    assert!(world.add_component(b, Tag(2)));
    assert_eq!(world.get_component::<Tag>(b), Some(&Tag(2)));
}

#[test]
fn world_add_component_twice_replaces_it() {
    let mut world = World::new();
    let a = world.create_entity();
    assert!(world.add_component(a, Tag(1)));
    assert!(world.add_component(a, Tag(5)));
    assert_eq!(world.get_component::<Tag>(a), Some(&Tag(5)));
    if let Some(t) = world.get_component_mut::<Tag>(a) {
        t.0 = 7;
    }
    assert_eq!(world.get_component::<Tag>(a), Some(&Tag(7)));
    world.register_component::<Velocity>();
    assert_eq!(world.component_type_count(), 2);
}
