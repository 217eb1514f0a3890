use archflow_logic::ecs::component::{Component, VecStorage};
use archflow_logic::ecs::query::{QueryIter, QueryIterExt};
use archflow_logic::ecs::world::World;

#[derive(Clone, Copy, Debug, PartialEq)]
struct Position {
    x: f32,
    y: f32,
    z: f32,
}

impl Component for Position {
    type Storage = VecStorage<Position>;
}

#[derive(Clone, Copy, Debug, PartialEq)]
struct Velocity {
    dx: f32,
    dy: f32,
    dz: f32,
}

impl Component for Velocity {
    type Storage = VecStorage<Velocity>;
}

#[derive(Clone, Copy, Debug, PartialEq)]
struct Health {
    current: u32,
    max: u32,
}

impl Component for Health {
    type Storage = VecStorage<Health>;
}

#[derive(Clone, Copy, Debug, PartialEq)]
struct Damage {
    amount: u32,
}

impl Component for Damage {
    type Storage = VecStorage<Damage>;
}


#[test]
fn test_query_uses_component_storage() {
    let mut world = World::new();

    let e1 = world.create_entity();
    let e2 = world.create_entity();
    let e3 = world.create_entity();
    let e4 = world.create_entity();

    world.add_component(
        e1,
        Position {
            x: 1.0,
            y: 2.0,
            z: 3.0,
        },
    );
    world.add_component(
        e1,
        Velocity {
            dx: 0.1,
            dy: 0.2,
            dz: 0.3,
        },
    );

    world.add_component(
        e2,
        Position {
            x: 4.0,
            y: 5.0,
            z: 6.0,
        },
    );
    world.add_component(
        e2,
        Velocity {
            dx: 0.4,
            dy: 0.5,
            dz: 0.6,
        },
    );
    world.add_component(
        e2,
        Health {
            current: 100,
            max: 100,
        },
    );

    world.add_component(
        e3,
        Position {
            x: 7.0,
            y: 8.0,
            z: 9.0,
        },
    );

    world.add_component(
        e4,
        Position {
            x: 10.0,
            y: 11.0,
            z: 12.0,
        },
    );
    world.add_component(
        e4,
        Health {
            current: 50,
            max: 100,
        },
    );

    let mut count = 0;
    let mut sum_x = 0.0f32;

    world.query::<(&Position, &Velocity)>().each(|(pos, _vel)| {
        count += 1;
        sum_x += pos.x;
    });

    assert_eq!(
        count, 2,
        "Should find exactly 2 entities with Position + Velocity"
    );
    assert!(
        (sum_x - 5.0).abs() < 0.001,
        "Sum of x positions should be 1.0 + 4.0 = 5.0"
    );
}

#[test]
fn test_query_with_multiple_entities() {
    let mut world = World::new();

    for i in 0..10 {
        let entity = world.create_entity();
        world.add_component(
            entity,
            Position {
                x: i as f32,
                y: i as f32 * 2.0,
                z: i as f32 * 3.0,
            },
        );
        world.add_component(
            entity,
            Velocity {
                dx: i as f32 * 0.1,
                dy: i as f32 * 0.2,
                dz: i as f32 * 0.3,
            },
        );
    }

    let mut count = 0;
    world
        .query::<(&Position, &Velocity)>()
        .each(|(_pos, _vel)| {
            count += 1;
        });

    assert_eq!(count, 10, "Should find all 10 entities");
}


#[test]
fn test_query_mut_modifies_components() {
    let mut world = World::new();

    let e1 = world.create_entity();
    let e2 = world.create_entity();

    world.add_component(
        e1,
        Position {
            x: 1.0,
            y: 2.0,
            z: 3.0,
        },
    );
    world.add_component(
        e1,
        Velocity {
            dx: 0.1,
            dy: 0.2,
            dz: 0.3,
        },
    );
    world.add_component(
        e2,
        Position {
            x: 4.0,
            y: 5.0,
            z: 6.0,
        },
    );
    world.add_component(
        e2,
        Velocity {
            dx: 0.4,
            dy: 0.5,
            dz: 0.6,
        },
    );

    let mut query = world.query_mut::<(&mut Position, &Velocity)>();
    query.each(|(pos, vel)| {
        pos.x += vel.dx;
        pos.y += vel.dy;
        pos.z += vel.dz;
    });

    let p1 = world.get_component::<Position>(e1).unwrap();
    let p2 = world.get_component::<Position>(e2).unwrap();

    assert!((p1.x - 1.1).abs() < 0.001, "e1.x should be 1.1");
    assert!((p1.y - 2.2).abs() < 0.001, "e1.y should be 2.2");
    assert!((p1.z - 3.3).abs() < 0.001, "e1.z should be 3.3");

    assert!((p2.x - 4.4).abs() < 0.001, "e2.x should be 4.4");
    assert!((p2.y - 5.5).abs() < 0.001, "e2.y should be 5.5");
    assert!((p2.z - 6.6).abs() < 0.001, "e2.z should be 6.6");
}


#[test]
fn test_query_after_entity_deletion() {
    let mut world = World::new();

    let e1 = world.create_entity();
    let e2 = world.create_entity();
    let e3 = world.create_entity();

    world.add_component(
        e1,
        Position {
            x: 1.0,
            y: 2.0,
            z: 3.0,
        },
    );
    world.add_component(
        e2,
        Position {
            x: 4.0,
            y: 5.0,
            z: 6.0,
        },
    );
    world.add_component(
        e3,
        Position {
            x: 7.0,
            y: 8.0,
            z: 9.0,
        },
    );

    world.destroy_entity(e2);

    let mut count = 0;
    let mut sum_x = 0.0f32;

    world.query::<&Position>().each(|pos| {
        count += 1;
        sum_x += pos.x;
    });

    assert_eq!(count, 2, "Should find only 2 entities");
    assert!((sum_x - 8.0).abs() < 0.001, "Sum should be 1.0 + 7.0 = 8.0");
}

#[test]
fn test_query_with_stale_entity_reference() {
    let mut world = World::new();

    let e1 = world.create_entity();
    let e2 = world.create_entity();

    world.add_component(
        e1,
        Position {
            x: 1.0,
            y: 2.0,
            z: 3.0,
        },
    );
    world.add_component(
        e2,
        Position {
            x: 4.0,
            y: 5.0,
            z: 6.0,
        },
    );

    world.destroy_entity(e1);
    let e3 = world.create_entity();

    assert_ne!(e1.generation(), e3.generation());

    let mut count = 0;

    world.query::<&Position>().each(|_pos| {
        count += 1;
    });

    assert_eq!(count, 2, "Should find exactly 2 entities (e2 and e3)");
}


#[test]
fn test_query_four_components() {
    let mut world = World::new();

    let e1 = world.create_entity();
    let e2 = world.create_entity();

    world.add_component(
        e1,
        Position {
            x: 1.0,
            y: 2.0,
            z: 3.0,
        },
    );
    world.add_component(
        e1,
        Velocity {
            dx: 0.1,
            dy: 0.2,
            dz: 0.3,
        },
    );
    world.add_component(
        e1,
        Health {
            current: 100,
            max: 100,
        },
    );
    world.add_component(e1, Damage { amount: 25 });

    world.add_component(
        e2,
        Position {
            x: 4.0,
            y: 5.0,
            z: 6.0,
        },
    );
    world.add_component(
        e2,
        Velocity {
            dx: 0.4,
            dy: 0.5,
            dz: 0.6,
        },
    );
    world.add_component(
        e2,
        Health {
            current: 50,
            max: 100,
        },
    );
    world.add_component(e2, Damage { amount: 10 });

    let mut count = 0;
    let mut total_damage = 0u32;

    world
        .query::<(&Position, &Velocity, &Health, &Damage)>()
        .each(|(_pos, _vel, _health, dmg)| {
            count += 1;
            total_damage += dmg.amount;
        });

    assert_eq!(count, 2);
    assert_eq!(total_damage, 35, "Total damage should be 25 + 10");
}

#[test]
fn test_query_is_empty() {
    let world = World::new();

    let query = world.query::<&Position>();
    assert!(query.is_empty(), "Query should be empty with no entities");

    let mut world = World::new();
    let entity = world.create_entity();
    world.add_component(
        entity,
        Position {
            x: 0.0,
            y: 0.0,
            z: 0.0,
        },
    );

    let query = world.query::<&Position>();
    assert!(!query.is_empty(), "Query should have entities");

    let query = world.query::<(&Position, &Velocity)>();
    assert!(query.is_empty(), "Query should be empty (no Velocity)");
}

#[test]
fn test_world_create_destroy_entities() {
    let mut world = World::new();

    let e1 = world.create_entity();
    let e2 = world.create_entity();
    let e3 = world.create_entity();

    assert_eq!(world.entity_count(), 3);

    world.destroy_entity(e2);
    assert_eq!(world.entity_count(), 2);

    let e4 = world.create_entity();
    assert_ne!(e2, e4, "New entity should have different generation");

    assert_eq!(world.entity_count(), 3);
}

#[test]
fn query_len_counts_live_entities_with_the_components() {
    let mut world = World::new();
    let a = world.create_entity();
    let b = world.create_entity();
    let c = world.create_entity();
    world.add_component(a, Health { current: 1, max: 2 });
    world.add_component(b, Health { current: 3, max: 4 });
    world.add_component(b, Damage { amount: 5 });
    world.add_component(c, Damage { amount: 6 });
    assert_eq!(world.query::<&Health>().len(), 2);
    assert_eq!(world.query::<(&Health, &Damage)>().len(), 1);
    assert_eq!(world.query::<Option<&Health>>().len(), 3);
    world.destroy_entity(b);
    assert_eq!(world.query::<&Health>().len(), 1);
    assert_eq!(world.query::<(&Health, &Damage)>().len(), 0);
    assert!(world.query::<(&Health, &Damage)>().is_empty());
}

#[test]
fn query_option_visits_every_live_entity() {
    let mut world = World::new();
    let a = world.create_entity();
    let _b = world.create_entity();
    world.add_component(a, Damage { amount: 7 });
    let mut seen = Vec::new();
    world.query::<Option<&Damage>>().each(|d| seen.push(d.map(|d| d.amount)));
    assert_eq!(seen, vec![Some(7), None]);
    let mut unregistered = 0;
    world.query::<Option<&Health>>().each(|h| {
        assert!(h.is_none());
        unregistered += 1;
    });
    assert_eq!(unregistered, 2);
}

#[test]
fn query_mut_variants_store_changes_back() {
    let mut world = World::new();
    let a = world.create_entity();
    let b = world.create_entity();
    world.add_component(a, Health { current: 10, max: 100 });
    world.add_component(a, Damage { amount: 3 });
    world.add_component(b, Health { current: 20, max: 100 });

    world.query_mut::<&mut Health>().each(|h| h.current += 1);
    assert_eq!(world.get_component::<Health>(a).unwrap().current, 11);
    assert_eq!(world.get_component::<Health>(b).unwrap().current, 21);

    world.query_mut::<(&Damage, &mut Health)>().each(|(d, h)| h.current -= d.amount);
    assert_eq!(world.get_component::<Health>(a).unwrap().current, 8);
    assert_eq!(world.get_component::<Health>(b).unwrap().current, 21);

    world.query_mut::<(&mut Health, &mut Damage)>().each(|(h, d)| {
        h.max = 50;
        d.amount = 0;
    });
    assert_eq!(world.get_component::<Health>(a).unwrap().max, 50);
    assert_eq!(world.get_component::<Damage>(a).unwrap().amount, 0);
    assert_eq!(world.get_component::<Health>(b).unwrap().max, 100);

    let mut order = Vec::new();
    world.query_mut::<Option<&mut Damage>>().each(|d| {
        order.push(d.is_some());
        if let Some(d) = d {
            d.amount = 9;
        }
    });
    assert_eq!(order, vec![true, false]);
    assert_eq!(world.get_component::<Damage>(a).unwrap().amount, 9);
    assert_eq!(world.query_mut::<&mut Health>().len(), 2);
}

#[test]
fn query_iter_visits_live_entities_in_order() {
    let mut world = World::new();
    let a = world.create_entity();
    let b = world.create_entity();
    let c = world.create_entity();
    world.add_component(a, Damage { amount: 1 });
    world.add_component(c, Damage { amount: 3 });
    world.add_component(c, Health { current: 5, max: 5 });
    let query = world.query::<&Damage>();
    let mut it = query.iter();
    assert_eq!(it.len(), 3);
    assert_eq!(it.size_hint(), (3, Some(3)));
    assert_eq!(it.next().map(|d| d.amount), Some(1));
    assert_eq!(it.next().map(|d| d.amount), Some(3));
    assert!(it.next().is_none());
    assert!(it.is_empty());

    let mut pairs: QueryIter<(&Damage, &Health)> = QueryIter::new(&world);
    let (d, h) = pairs.next().unwrap();
    assert_eq!((d.amount, h.current), (3, 5));
    assert!(pairs.next().is_none());

    let mut opt: QueryIter<Option<&Health>> = QueryIter::new(&world);
    assert!(opt.next().unwrap().is_none());
    assert!(opt.next().unwrap().is_none());
    assert_eq!(opt.next().unwrap().map(|h| h.max), Some(5));
    assert!(opt.next().is_none());
    let _ = b;
}
