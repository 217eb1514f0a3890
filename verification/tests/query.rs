use archflow_logic::ecs::component::{Component, VecStorage};
use archflow_logic::ecs::query::{QueryBuilder, QueryBuilderExt, With, Without};
use archflow_logic::ecs::world::World;
use archflow_logic::ecs::query::EntityId;

#[test]
fn entity_id_parts() {
    let id = EntityId::new(7, 3);
    assert_eq!(id.index(), 7);
    assert_eq!(id.generation(), 3);
    assert_eq!(id.as_usize(), 7);
    let z = EntityId::from_usize(7);
    assert_eq!(z.generation(), 0);
    assert_ne!(id, z);
    assert_eq!(z, EntityId::new(7, 0));
}

#[derive(Clone, Copy, Debug, PartialEq)]
struct Position {
    x: i32,
    y: i32,
}

impl Component for Position {
    type Storage = VecStorage<Position>;
}

#[derive(Clone, Copy, Debug, PartialEq)]
struct Velocity {
    dx: i32,
    dy: i32,
}

impl Component for Velocity {
    type Storage = VecStorage<Velocity>;
}

#[test]
fn test_query_builder_default() {
    let with_filter = With::<Position>::new();
    let without_filter = Without::<Velocity>::new();

    assert_eq!(with_filter, With::new());
    assert_eq!(without_filter, Without::new());
}

#[test]
fn query_builder_counts_filtered_entities() {
    let mut world = World::new();
    let a = world.create_entity();
    let b = world.create_entity();
    let c = world.create_entity();
    let d = world.create_entity();
    world.add_component(a, Position { x: 1, y: 1 });
    world.add_component(b, Position { x: 2, y: 2 });
    world.add_component(b, Velocity { dx: 1, dy: 0 });
    world.add_component(c, Velocity { dx: 0, dy: 1 });
    world.add_component(d, Position { x: 3, y: 3 });
    world.destroy_entity(d);

    let all = world.query_builder::<&Position>();
    assert_eq!(all.len(), 3);
    let with_pos = world.query_builder::<&Position>().with::<Position>();
    assert_eq!(with_pos.len(), 2);
    let pos_no_vel = QueryBuilder::<&Position>::new(&world).with::<Position>().without::<Velocity>();
    assert_eq!(pos_no_vel.len(), 1);
    assert!(!pos_no_vel.is_empty());
    let both_and_not_vel = world.query_builder::<&Position>().with::<Velocity>().without::<Velocity>();
    assert_eq!(both_and_not_vel.len(), 0);
    assert!(both_and_not_vel.is_empty());
}
