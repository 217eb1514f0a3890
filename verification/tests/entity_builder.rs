use archflow_logic::ecs::component::{Component, VecStorage};
use archflow_logic::ecs::components::NamedComponent;
use archflow_logic::ecs::behavior_block::BehaviorBlockComponent;
use archflow_logic::ecs::entity_builder::{EntityBuildable, WorldSpawnExt};
use archflow_logic::ecs::world::World;
use archflow_logic::mapping::{ActuatorType, Controller, SensorType};

#[derive(Clone, Copy, Debug, PartialEq)]
struct Position {
    x: f32,
    y: f32,
}

impl Component for Position {
    type Storage = VecStorage<Position>;
}

impl Default for Position {
    fn default() -> Self {
        Self { x: 0.0, y: 0.0 }
    }
}

#[derive(Clone, Copy, Debug, PartialEq)]
struct Velocity {
    dx: f32,
    dy: f32,
}

impl Component for Velocity {
    type Storage = VecStorage<Velocity>;
}

impl Default for Velocity {
    fn default() -> Self {
        Self { dx: 0.0, dy: 0.0 }
    }
}


#[test]
fn test_spawn_returns_entity_builder() {
    let mut world = World::new();

    let _builder = world.spawn();
}

#[test]
fn test_spawn_build_creates_entity() {
    let mut world = World::new();

    let entity = world.spawn().build();

    assert_eq!(entity.index(), 0);
}

#[test]
fn test_multiple_spawns_increment_entity_ids() {
    let mut world = World::new();

    let e1 = world.spawn().build();
    let e2 = world.spawn().build();
    let e3 = world.spawn().build();

    assert_ne!(e1, e2);
    assert_ne!(e2, e3);
    assert_ne!(e1, e3);
}


#[test]
fn test_insert_single_component() {
    let mut world = World::new();

    let entity = world.spawn().insert(Position { x: 10.0, y: 20.0 }).build();

    let pos = world.get_component::<Position>(entity);
    assert!(pos.is_some());
    assert_eq!(pos.unwrap().x, 10.0);
    assert_eq!(pos.unwrap().y, 20.0);
}

#[test]
fn test_insert_multiple_components() {
    let mut world = World::new();

    let entity = world
        .spawn()
        .insert(Position { x: 100.0, y: 200.0 })
        .insert(Velocity { dx: 1.0, dy: 2.0 })
        .build();

    let pos = world.get_component::<Position>(entity);
    let vel = world.get_component::<Velocity>(entity);

    assert!(pos.is_some());
    assert!(vel.is_some());
    assert_eq!(pos.unwrap().x, 100.0);
    assert_eq!(vel.unwrap().dx, 1.0);
}

#[test]
fn test_insert_returns_self_for_chaining() {
    let mut world = World::new();

    let _entity = world
        .spawn()
        .insert(Position::default())
        .insert(Velocity::default())
        .insert(Position { x: 50.0, y: 60.0 })
        .build();
}


#[test]
fn test_name_creates_valid_entity() {
    let mut world = World::new();

    let entity = world.spawn().name("Player").build();

    assert!(world.is_entity_alive(entity));
}

#[test]
fn test_name_allows_chaining() {
    let mut world = World::new();

    let entity = world
        .spawn()
        .name("First")
        .name("Second")
        .name("Final")
        .build();

    assert!(world.is_entity_alive(entity));
}


#[test]
fn test_full_fluent_api() {
    let mut world = World::new();

    let entity = world
        .spawn()
        .insert(Position { x: 42.0, y: 84.0 })
        .insert(Velocity { dx: 10.0, dy: 20.0 })
        .name("TestEntity")
        .build();

    let pos = world.get_component::<Position>(entity);
    let vel = world.get_component::<Velocity>(entity);

    assert!(pos.is_some());
    assert!(vel.is_some());
    assert_eq!(pos.unwrap().x, 42.0);
    assert_eq!(vel.unwrap().dy, 20.0);
}

#[test]
fn test_spawn_with_only_components() {
    let mut world = World::new();

    let e1 = world.spawn().insert(Position::default()).build();
    let e2 = world.spawn().build();

    assert_ne!(e1, e2);
}

#[test]
fn test_spawn_with_only_name() {
    let mut world = World::new();

    let entity = world.spawn().name("OnlyName").build();

    assert!(world.is_entity_alive(entity));
}


#[test]
fn test_entity_reuse_after_destroy() {
    let mut world = World::new();

    let e1 = world.spawn().build();
    let e1_index = e1.index();

    world.destroy_entity(e1);

    let e2 = world.spawn().build();

    assert!(world.is_entity_alive(e2));
}

#[test]
fn test_empty_spawn_creates_valid_entity() {
    let mut world = World::new();

    let entity = world.spawn().build();

    assert!(world.is_entity_alive(entity));
}


#[test]
fn build_attaches_name_and_behaviours() {
    let mut world = World::new();
    let entity = world
        .spawn()
        .name("Door")
        .behavior("open")
        .sensor(SensorType::KeyShortcut)
        .controller(Controller::Direct)
        .actuators(vec![ActuatorType::Move, ActuatorType::Highlight])
        .end()
        .build();
    let named = world.get_component::<NamedComponent>(entity).unwrap();
    assert_eq!(named.name(), "Door");
    let blocks = world.get_component::<BehaviorBlockComponent>(entity).unwrap();
    assert_eq!(blocks.blocks.len(), 1);
    assert_eq!(blocks.blocks[0].name, "open");
    assert_eq!(blocks.blocks[0].sensors.len(), 1);
    assert_eq!(blocks.blocks[0].actuators.len(), 2);
}

#[test]
fn build_without_name_or_behaviours_adds_neither() {
    let mut world = World::new();
    let entity = EntityBuildable::build(world.spawn());
    assert!(!world.has_component::<NamedComponent>(entity));
    assert!(!world.has_component::<BehaviorBlockComponent>(entity));
}
