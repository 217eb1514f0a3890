use archflow_logic::api::json::{
    plan_scene_load, BehaviorDefinition, ComponentDefinition, DefaultComponentFactory, EntityDefinition, LoadStep,
    Scene,
};
use serde_json::Value;

fn object(members: &[(&str, Value)]) -> Value {
    let mut map = serde_json::Map::new();
    for (key, value) in members {
        map.insert(key.to_string(), value.clone());
    }
    Value::Object(map)
}

fn empty() -> Value {
    object(&[])
}

#[test]
fn test_component_definition_new() {
    let comp = ComponentDefinition::new(
        "Position".to_string(),
        object(&[("x", Value::from(10)), ("y", Value::from(20))]),
    );

    assert_eq!(comp.component_type, "Position");
    assert_eq!(comp.data["x"], 10);
    assert_eq!(comp.data["y"], 20);
}

#[test]
fn test_component_definition_get_i32() {
    let comp = ComponentDefinition::new(
        "Health".to_string(),
        object(&[("current", Value::from(100)), ("max", Value::from(100))]),
    );

    assert_eq!(comp.get_i32("current"), Some(100));
    assert_eq!(comp.get_i32("missing"), None);
}

#[test]
fn test_behavior_definition_new() {
    let behavior = BehaviorDefinition::new(
        "player_behavior".to_string(),
        "Player".to_string(),
        Some("Controllable character".to_string()),
        vec![ComponentDefinition::new("Position".to_string(), object(&[("x", Value::from(0))]))],
    );

    assert_eq!(behavior.id, "player_behavior");
    assert_eq!(behavior.name, "Player");
    assert_eq!(behavior.description, Some("Controllable character".to_string()));
    assert_eq!(behavior.component_count(), 1);
}

#[test]
fn test_behavior_definition_has_component() {
    let behavior = BehaviorDefinition::new(
        "player".to_string(),
        "Player".to_string(),
        None,
        vec![
            ComponentDefinition::new("Position".to_string(), empty()),
            ComponentDefinition::new("Velocity".to_string(), empty()),
        ],
    );

    assert!(behavior.has_component("Position"));
    assert!(behavior.has_component("Velocity"));
    assert!(!behavior.has_component("Health"));
}

#[test]
fn test_behavior_definition_get_component() {
    let pos = ComponentDefinition::new("Position".to_string(), object(&[("x", Value::from(0))]));
    let vel = ComponentDefinition::new("Velocity".to_string(), object(&[("dx", Value::from(0))]));

    let behavior = BehaviorDefinition::new("player".to_string(), "Player".to_string(), None, vec![pos.clone(), vel]);

    let found = behavior.get_component("Position");
    assert!(found.is_some());
    assert_eq!(found.unwrap().component_type, "Position");
}

#[test]
fn test_entity_definition_new() {
    let entity = EntityDefinition::new("player".to_string());

    assert_eq!(entity.id, "player");
    assert!(entity.components.is_empty());
    assert!(entity.behaviors.is_empty());
    assert!(entity.children.is_empty());
}

#[test]
fn test_entity_definition_builder() {
    let entity = EntityDefinition::new("player".to_string())
        .with_name("Player Entity".to_string())
        .with_component(ComponentDefinition::new("Position".to_string(), object(&[("x", Value::from(10))])))
        .with_behavior("player_behavior".to_string());

    assert_eq!(entity.name, Some("Player Entity".to_string()));
    assert_eq!(entity.components.len(), 1);
    assert_eq!(entity.behaviors.len(), 1);
}

#[test]
fn test_entity_definition_nested_children() {
    let child = EntityDefinition::new("child".to_string())
        .with_component(ComponentDefinition::new("Scale".to_string(), object(&[("x", Value::from(1))])));

    let parent = EntityDefinition::new("parent".to_string())
        .with_component(ComponentDefinition::new("Position".to_string(), object(&[("x", Value::from(0))])))
        .with_child(child);

    assert_eq!(parent.components.len(), 1);
    assert_eq!(parent.children.len(), 1);
    assert_eq!(parent.total_component_count(), 2);
    assert_eq!(parent.total_entity_count(), 2);
}

#[test]
fn test_entity_definition_get_component() {
    let entity = EntityDefinition::new("player".to_string())
        .with_component(ComponentDefinition::new("Position".to_string(), object(&[("x", Value::from(10))])));

    let pos = entity.get_component("Position");
    assert!(pos.is_some());
    assert_eq!(pos.unwrap().component_type, "Position");
}

#[test]
fn test_scene_new() {
    let scene = Scene::new("level_1".to_string());

    assert_eq!(scene.id, "level_1");
    assert_eq!(scene.version, "1.0.0");
    assert!(scene.entities.is_empty());
    assert!(scene.behaviors.is_empty());
}

#[test]
fn test_scene_builder() {
    let scene = Scene::new("level_1".to_string())
        .with_name("First Level".to_string())
        .with_entity(EntityDefinition::new("player".to_string()))
        .with_entity(EntityDefinition::new("enemy".to_string()));

    assert_eq!(scene.name, Some("First Level".to_string()));
    assert_eq!(scene.entities.len(), 2);
}

#[test]
fn test_scene_total_entity_count() {
    let child = EntityDefinition::new("child".to_string());
    let entity = EntityDefinition::new("parent".to_string()).with_child(child);

    let scene = Scene::new("test".to_string())
        .with_entity(EntityDefinition::new("e1".to_string()))
        .with_entity(entity);

    // e1 + parent + child = 3
    assert_eq!(scene.total_entity_count(), 3);
}

#[test]
fn test_scene_get_behavior() {
    let behavior = BehaviorDefinition::new("npc".to_string(), "NPC".to_string(), None, vec![]);

    let scene = Scene::new("test".to_string()).with_behavior(behavior.clone());

    let found = scene.get_behavior("npc");
    assert!(found.is_some());
    assert_eq!(found.unwrap().id, "npc");
}

#[test]
fn test_scene_find_entity_shallow() {
    let scene = Scene::new("test".to_string())
        .with_entity(EntityDefinition::new("player".to_string()))
        .with_entity(EntityDefinition::new("enemy".to_string()));

    let found = scene.find_entity("player");
    assert!(found.is_some());
    assert_eq!(found.unwrap().id, "player");
}

#[test]
fn test_scene_find_entity_nested() {
    let child = EntityDefinition::new("child_entity".to_string());
    let parent = EntityDefinition::new("parent_entity".to_string()).with_child(child);

    let scene = Scene::new("test".to_string()).with_entity(parent);

    let found = scene.find_entity("child_entity");
    assert!(found.is_some());
    assert_eq!(found.unwrap().id, "child_entity");
}

#[test]
fn test_scene_find_entity_not_found() {
    let scene = Scene::new("test".to_string()).with_entity(EntityDefinition::new("player".to_string()));

    let found = scene.find_entity("nonexistent");
    assert!(found.is_none());
}

#[test]
fn find_entity_searches_below_each_top_level_entity_in_turn() {
    let deep = EntityDefinition::new("target".to_string()).with_name("deep".to_string());
    let first = EntityDefinition::new("a".to_string())
        .with_child(EntityDefinition::new("a1".to_string()).with_child(deep));
    let shallow = EntityDefinition::new("target".to_string()).with_name("shallow".to_string());
    let second = EntityDefinition::new("b".to_string()).with_child(shallow);
    let scene = Scene::new("s".to_string()).with_entity(first).with_entity(second);

    let found = scene.find_entity("target").unwrap();
    assert_eq!(found.name, Some("deep".to_string()));
    assert!(scene.get_entity("target").is_none());
    assert_eq!(scene.get_entity("b").unwrap().id, "b");
}

#[test]
fn get_component_returns_the_first_of_its_type() {
    let entity = EntityDefinition::new("e".to_string())
        .with_component(ComponentDefinition::new("Tag".to_string(), object(&[("n", Value::from(1))])))
        .with_component(ComponentDefinition::new("Tag".to_string(), object(&[("n", Value::from(2))])));
    assert_eq!(entity.get_component("Tag").unwrap().get_i32("n"), Some(1));
    assert!(entity.get_component("Other").is_none());
}

#[test]
fn component_data_accessors() {
    let comp = ComponentDefinition::new(
        "Thing".to_string(),
        object(&[("flag", Value::from(true)), ("label", Value::from("hello")), ("big", Value::from(4_294_967_297_i64))]),
    );
    assert_eq!(comp.get_bool("flag"), Some(true));
    assert_eq!(comp.get_bool("label"), None);
    assert_eq!(comp.get_string("label"), Some("hello"));
    assert_eq!(comp.get_string("flag"), None);
    assert_eq!(comp.get_i32("big"), Some(1));
    assert_eq!(comp.component_type(), "Thing");
}

#[test]
fn default_factory_knows_the_built_in_types() {
    let factory = DefaultComponentFactory::new();
    assert!(factory.can_create("Velocity"));
    assert!(factory.can_create("Acceleration"));
    assert!(factory.can_create("Transform"));
    assert!(factory.can_create("PhysicsMaterial"));
    assert!(!factory.can_create("Health"));
}

fn step_kinds(steps: &[LoadStep]) -> Vec<String> {
    steps
        .iter()
        .map(|s| match s {
            LoadStep::CreateEntity(e) => format!("create {}", e.id),
            LoadStep::AddComponent(c) => format!("add {}", c.component_type),
        })
        .collect()
}

#[test]
fn load_plan_orders_entities_components_behaviors_and_children() {
    let behavior = BehaviorDefinition::new(
        "npc".to_string(),
        "NPC".to_string(),
        None,
        vec![ComponentDefinition::new("Health".to_string(), empty())],
    );
    let child = EntityDefinition::new("child".to_string())
        .with_component(ComponentDefinition::new("Transform".to_string(), empty()));
    let parent = EntityDefinition::new("parent".to_string())
        .with_component(ComponentDefinition::new("Velocity".to_string(), empty()))
        .with_behavior("npc".to_string())
        .with_child(child);
    let scene = Scene::new("s".to_string())
        .with_entity(parent)
        .with_entity(EntityDefinition::new("ground".to_string()))
        .with_behavior(behavior);

    let plan = plan_scene_load(&scene);
    assert!(plan.missing_behavior.is_none());
    assert_eq!(
        step_kinds(&plan.steps),
        vec!["create parent", "add Velocity", "add Health", "create child", "add Transform", "create ground"]
    );
    let created = plan.steps.iter().filter(|s| matches!(s, LoadStep::CreateEntity(_))).count();
    assert_eq!(created, scene.total_entity_count());
}

#[test]
fn load_plan_stops_at_a_missing_behavior() {
    let first = EntityDefinition::new("first".to_string())
        .with_component(ComponentDefinition::new("Velocity".to_string(), empty()))
        .with_behavior("nowhere".to_string())
        .with_child(EntityDefinition::new("never".to_string()));
    let scene = Scene::new("s".to_string())
        .with_entity(first)
        .with_entity(EntityDefinition::new("also_never".to_string()));

    let plan = plan_scene_load(&scene);
    assert_eq!(plan.missing_behavior, Some("nowhere".to_string()));
    assert_eq!(step_kinds(&plan.steps), vec!["create first", "add Velocity"]);
}

#[test]
fn load_plan_takes_the_last_behavior_of_an_id() {
    let early = BehaviorDefinition::new(
        "b".to_string(),
        "early".to_string(),
        None,
        vec![ComponentDefinition::new("Early".to_string(), empty())],
    );
    let late = BehaviorDefinition::new(
        "b".to_string(),
        "late".to_string(),
        None,
        vec![ComponentDefinition::new("Late".to_string(), empty())],
    );
    let scene = Scene::new("s".to_string())
        .with_entity(EntityDefinition::new("e".to_string()).with_behavior("b".to_string()))
        .with_behavior(early)
        .with_behavior(late);

    let plan = plan_scene_load(&scene);
    assert_eq!(step_kinds(&plan.steps), vec!["create e", "add Late"]);
    assert_eq!(scene.get_behavior("b").unwrap().name, "early");
}
