use archflow_logic::ecs::hybrid::bge_logic_system::{
    animation_clip_id, BgeLogicConfig, BgeLogicStats, BgeLogicSystem, InputSnapshot, SensorEvaluation, SensorKind,
};
use archflow_logic::ecs::hybrid::{ClickType, ControllerComponent, PropertyComparator, SensorComponentType, SensorConfig, SensorRef};
use archflow_logic::ecs::query::EntityId;
use archflow_logic::ecs::physics_components::SelectionState;
use archflow_logic::ecs::world::World;

#[test]
fn test_click_type_defaults() {
    assert_eq!(ClickType::default(), ClickType::Single);
}

#[test]
fn test_controller_component_default() {
    let controller = ControllerComponent::default();
    assert!(matches!(controller, ControllerComponent::Direct));
}

#[test]
fn test_sensor_config_builder() {
    let config = SensorConfig::new().with_debounce_ms(50).with_initially_active(true).with_min_interval_ms(100);

    assert_eq!(config.debounce_ms, 50);
    assert!(config.initially_active);
    assert_eq!(config.min_interval_ms, 100);
}

#[test]
fn test_controller_and_nesting() {
    let controller = ControllerComponent::And {
        conditions: vec![
            ControllerComponent::Direct,
            ControllerComponent::Not { condition: Box::new(ControllerComponent::Direct) },
        ],
    };

    match &controller {
        ControllerComponent::And { conditions } => {
            assert_eq!(conditions.len(), 2);
        }
        _ => panic!("Expected AND controller"),
    }
}

#[test]
fn test_sensor_ref_creation() {
    let entity_id = EntityId::from_usize(42);
    let sensor_type = SensorComponentType::MouseHover;

    let sensor_ref = SensorRef { entity: entity_id, sensor_type };

    assert_eq!(sensor_ref.entity.index(), 42);
    assert_eq!(sensor_ref.sensor_type, SensorComponentType::MouseHover);
}

#[test]
fn property_comparator_default_is_equal() {
    assert_eq!(PropertyComparator::default(), PropertyComparator::Equal);
}

#[test]
fn test_bge_logic_system_creation() {
    let system = BgeLogicSystem::new();
    assert_eq!(system.name(), "BgeLogicSystem");
    assert_eq!(system.priority(), 30);
}

#[test]
fn test_bge_logic_config_default() {
    let config = BgeLogicConfig::default();
    assert!(config.edge_triggered);
    assert!(config.evaluate_always);
    assert_eq!(config.batch_size, 256);
    assert!(!config.debug_events);
}

#[test]
fn test_bge_logic_stats_default() {
    let stats = BgeLogicStats::default();
    assert_eq!(stats.entities_evaluated, 0);
    assert_eq!(stats.sensors_evaluated, 0);
    assert_eq!(stats.controllers_evaluated, 0);
    assert_eq!(stats.actuators_executed, 0);
}

#[test]
fn test_sensor_evaluation_inactive() {
    let system = BgeLogicSystem::new();
    let entity_id = EntityId::from_usize(0);

    // With no input, sensors should be inactive
    let state = system.evaluate_mouse_click(entity_id, 0, ClickType::Single);
    assert_eq!(state, SensorEvaluation::Inactive);
}

#[test]
fn test_controller_direct() {
    let mut system = BgeLogicSystem::new();

    let active = system.evaluate_controller(EntityId::from_usize(0), &ControllerComponent::Direct, SensorEvaluation::Active);
    assert!(active);

    let inactive =
        system.evaluate_controller(EntityId::from_usize(0), &ControllerComponent::Direct, SensorEvaluation::Inactive);
    assert!(!inactive);
}

#[test]
fn test_controller_not() {
    let mut system = BgeLogicSystem::new();
    let entity_id = EntityId::from_usize(1);

    let controller = ControllerComponent::Not { condition: Box::new(ControllerComponent::Direct) };

    let result = system.evaluate_controller(entity_id, &controller, SensorEvaluation::Active);
    assert!(!result);

    let result = system.evaluate_controller(entity_id, &controller, SensorEvaluation::Inactive);
    assert!(result);
}

#[test]
fn test_controller_and() {
    let mut system = BgeLogicSystem::new();
    let entity_id = EntityId::from_usize(2);

    let controller = ControllerComponent::And { conditions: vec![ControllerComponent::Direct, ControllerComponent::Direct] };

    let result = system.evaluate_controller(entity_id, &controller, SensorEvaluation::Active);
    assert!(result);

    let result = system.evaluate_controller(entity_id, &controller, SensorEvaluation::Inactive);
    assert!(!result);
}

#[test]
fn test_controller_or() {
    let mut system = BgeLogicSystem::new();
    let entity_id = EntityId::from_usize(3);

    let controller = ControllerComponent::Or {
        conditions: vec![
            ControllerComponent::Direct,
            ControllerComponent::Not { condition: Box::new(ControllerComponent::Direct) },
        ],
    };

    let result = system.evaluate_controller(entity_id, &controller, SensorEvaluation::Active);
    assert!(result);

    let result = system.evaluate_controller(entity_id, &controller, SensorEvaluation::Inactive);
    assert!(result);
}

#[test]
fn test_controller_toggle() {
    let mut system = BgeLogicSystem::new();
    let entity_id = EntityId::from_usize(4);

    let controller = ControllerComponent::Toggle { controller: Box::new(ControllerComponent::Direct) };

    let result1 = system.evaluate_controller(entity_id, &controller, SensorEvaluation::Active);
    assert!(result1, "First activation should return true");

    let result2 = system.evaluate_controller(entity_id, &controller, SensorEvaluation::Active);
    assert!(result2, "Still active, returns current state");

    let result3 = system.evaluate_controller(entity_id, &controller, SensorEvaluation::Inactive);
    assert!(result3, "Still ON, just resetting was_active");

    let result4 = system.evaluate_controller(entity_id, &controller, SensorEvaluation::Active);
    assert!(!result4, "Toggled to OFF");
}

#[test]
fn test_key_shortcut_evaluation() {
    let system = BgeLogicSystem::new();

    let state = system.evaluate_key_shortcut(65, 0);
    assert_eq!(state, SensorEvaluation::Inactive);
}

#[test]
fn key_shortcut_and_click_follow_input() {
    let mut system = BgeLogicSystem::new();
    let mut input = InputSnapshot::default();
    input.keys[65 / 8] = 1 << (65 % 8);
    input.buttons = 0b10;
    system.set_input(input);
    assert_eq!(system.evaluate_key_shortcut(65, 0), SensorEvaluation::Active);
    assert_eq!(system.evaluate_key_shortcut(64, 0), SensorEvaluation::Inactive);
    // Key codes past the tracked range are never pressed.
    assert_eq!(system.evaluate_key_shortcut(300, 0), SensorEvaluation::Inactive);
    let e = EntityId::from_usize(0);
    assert_eq!(system.evaluate_mouse_click(e, 1, ClickType::Double), SensorEvaluation::Active);
    assert_eq!(system.evaluate_mouse_click(e, 0, ClickType::Long), SensorEvaluation::Inactive);
}

#[test]
fn pulse_controller_counts_down() {
    let mut system = BgeLogicSystem::new();
    let e = EntityId::from_usize(9);
    let pulse = ControllerComponent::Pulse { tick_count: 2, controller: Box::new(ControllerComponent::Direct) };
    assert!(system.evaluate_controller(e, &pulse, SensorEvaluation::Active));
    assert!(system.evaluate_controller(e, &pulse, SensorEvaluation::Active));
    assert!(!system.evaluate_controller(e, &pulse, SensorEvaluation::Active));
}

#[test]
fn delay_controller_fires_after_ticks() {
    let mut system = BgeLogicSystem::new();
    let e = EntityId::from_usize(10);
    let delay = ControllerComponent::Delay { delay_ticks: 2, controller: Box::new(ControllerComponent::Direct) };
    assert!(!system.evaluate_controller(e, &delay, SensorEvaluation::Active));
    assert!(system.evaluate_controller(e, &delay, SensorEvaluation::Active));
    assert!(!system.evaluate_controller(e, &delay, SensorEvaluation::Active));
}

#[test]
fn one_shot_controller_fires_once() {
    let mut system = BgeLogicSystem::new();
    let e = EntityId::from_usize(11);
    let one_shot = ControllerComponent::OneShot { controller: Box::new(ControllerComponent::Direct) };
    assert!(!system.evaluate_controller(e, &one_shot, SensorEvaluation::Inactive));
    assert!(system.evaluate_controller(e, &one_shot, SensorEvaluation::Active));
    assert!(!system.evaluate_controller(e, &one_shot, SensorEvaluation::Active));
}

#[test]
fn timer_fires_once_then_rests() {
    let mut system = BgeLogicSystem::new();
    let e = EntityId::from_usize(12);
    assert_eq!(system.evaluate_timer(e, 2), SensorEvaluation::Inactive);
    assert_eq!(system.evaluate_timer(e, 2), SensorEvaluation::Active);
    assert_eq!(system.evaluate_timer(e, 2), SensorEvaluation::Inactive);
    // The next evaluation starts a new countdown.
    assert_eq!(system.evaluate_timer(e, 2), SensorEvaluation::Inactive);
    assert_eq!(system.evaluate_timer(e, 2), SensorEvaluation::Active);
}

#[test]
fn process_sensor_result_edge_triggering() {
    let mut system = BgeLogicSystem::new();
    let e = EntityId::from_usize(13);
    system.begin_run();
    // First result is a change: the controller's output counts.
    assert!(system.process_sensor_result(e, SensorEvaluation::Active, Some(&ControllerComponent::Direct)));
    // Same state again: edge triggering suppresses the output.
    assert!(!system.process_sensor_result(e, SensorEvaluation::Active, Some(&ControllerComponent::Direct)));
    // Without a controller the sensor decides.
    assert!(!system.process_sensor_result(e, SensorEvaluation::Inactive, None));
    let stats = *system.stats();
    assert_eq!(stats.entities_evaluated, 3);
    assert_eq!(stats.sensors_evaluated, 3);
    assert_eq!(stats.controllers_evaluated, 2);
    assert_eq!(stats.state_changes, 2);
    system.record_actuator_executed();
    assert_eq!(system.stats().actuators_executed, 1);
}

#[test]
fn cleanup_forgets_inactive_entities() {
    let mut system = BgeLogicSystem::new();
    let a = EntityId::from_usize(1);
    let b = EntityId::from_usize(2);
    let toggle = ControllerComponent::Toggle { controller: Box::new(ControllerComponent::Direct) };
    assert!(system.evaluate_controller(a, &toggle, SensorEvaluation::Active));
    assert!(system.evaluate_controller(b, &toggle, SensorEvaluation::Active));
    system.cleanup_states(&[b]);
    // `a` starts over; `b` keeps its state.
    assert!(system.evaluate_controller(a, &toggle, SensorEvaluation::Inactive) == false);
    assert!(system.evaluate_controller(b, &toggle, SensorEvaluation::Inactive));
}

#[test]
fn config_mut_changes_config() {
    let mut system = BgeLogicSystem::with_config(BgeLogicConfig::default());
    system.config_mut().edge_triggered = false;
    assert!(!system.config().edge_triggered);
    let e = EntityId::from_usize(0);
    // Level triggering: the actuator runs while the output is true.
    assert!(!system.process_sensor_result(e, SensorEvaluation::Inactive, None));
    assert!(!system.process_sensor_result(e, SensorEvaluation::Undefined, Some(&ControllerComponent::Direct)));
    assert!(system.process_sensor_result(e, SensorEvaluation::Active, Some(&ControllerComponent::Direct)));
    assert!(system.process_sensor_result(e, SensorEvaluation::Active, Some(&ControllerComponent::Direct)));
    assert_eq!(system.evaluate_channel(3), SensorEvaluation::Undefined);
}

#[test]
fn animation_clip_id_reads_decimal_u32() {
    assert_eq!(animation_clip_id("1"), 1);
    assert_eq!(animation_clip_id("+42"), 42);
    assert_eq!(animation_clip_id("4294967295"), 4294967295);
    assert_eq!(animation_clip_id("4294967296"), 0);
    assert_eq!(animation_clip_id("abc"), 0);
    assert_eq!(animation_clip_id(""), 0);
    assert_eq!(animation_clip_id("+"), 0);
    assert_eq!(animation_clip_id("-1"), 0);
    assert_eq!(animation_clip_id("12a"), 0);
    assert_eq!(animation_clip_id("007"), 7);
}

#[test]
fn select_entity_exclusive_and_additive() {
    let mut system = BgeLogicSystem::new();
    let a = EntityId::new(1, 1);
    let b = EntityId::new(2, 1);
    let c = EntityId::new(3, 1);
    let r = system.select_entity(a, false);
    assert!(r.deselect.is_empty());
    assert_eq!(r.selection_order, 1);
    let r = system.select_entity(b, false);
    assert_eq!(r.selection_order, 2);
    let r = system.select_entity(b, false);
    assert_eq!(r.selection_order, 2);
    let r = system.select_entity(c, true);
    assert_eq!(r.deselect, vec![a, b]);
    assert_eq!(r.selection_order, 1);
    let r = system.select_entity(a, false);
    assert_eq!(r.selection_order, 2);
}

#[test]
fn execute_select_exclusive_deselects_the_group() {
    let mut world = World::new();
    let a = world.create_entity();
    let b = world.create_entity();
    let mut system = BgeLogicSystem::new();
    system.execute_select(&mut world, a, false);
    assert!(world.has_component::<SelectionState>(a));
    let sa = *world.get_component::<SelectionState>(a).unwrap();
    assert!(sa.is_selected);
    assert_eq!(sa.selection_order, 1);
    system.execute_select(&mut world, b, true);
    let sa = *world.get_component::<SelectionState>(a).unwrap();
    let sb = *world.get_component::<SelectionState>(b).unwrap();
    assert!(!sa.is_selected);
    assert!(sb.is_selected);
    assert_eq!(sb.selection_order, 1);
    system.execute_select(&mut world, a, false);
    let sa = *world.get_component::<SelectionState>(a).unwrap();
    assert!(sa.is_selected);
    assert_eq!(sa.selection_order, 2);
}

#[test]
fn controller_laws_on_concrete_runs() {
    let mut system = BgeLogicSystem::new();
    let e = EntityId::from_usize(9);
    let delay = ControllerComponent::Delay { delay_ticks: 3, controller: Box::new(ControllerComponent::Direct) };
    let outs: Vec<bool> = (0..3).map(|_| system.evaluate_controller(e, &delay, SensorEvaluation::Active)).collect();
    assert_eq!(outs, vec![false, false, true]);
    let pulse = ControllerComponent::Pulse { tick_count: 2, controller: Box::new(ControllerComponent::Direct) };
    let f = EntityId::from_usize(10);
    let outs: Vec<bool> = (0..4).map(|_| system.evaluate_controller(f, &pulse, SensorEvaluation::Active)).collect();
    assert_eq!(outs, vec![true, true, false, false]);
    let once = ControllerComponent::OneShot { controller: Box::new(ControllerComponent::Direct) };
    let g = EntityId::from_usize(11);
    assert!(system.evaluate_controller(g, &once, SensorEvaluation::Active));
    assert!(!system.evaluate_controller(g, &once, SensorEvaluation::Active));
    assert!(!system.evaluate_controller(g, &once, SensorEvaluation::Inactive));
    assert!(!system.evaluate_controller(g, &once, SensorEvaluation::Active));
}

#[test]
fn timer_fires_every_duration_plus_one() {
    let mut system = BgeLogicSystem::new();
    let e = EntityId::from_usize(3);
    let outs: Vec<SensorEvaluation> = (0..8).map(|_| system.evaluate_timer(e, 3)).collect();
    let active: Vec<usize> = outs.iter().enumerate().filter(|(_, s)| **s == SensorEvaluation::Active).map(|(i, _)| i + 1).collect();
    assert_eq!(active, vec![3, 7]);
}

#[test]
fn test_select_actuator() {
    let mut world = World::new();
    let entity = world.create_entity();

    let mut system = BgeLogicSystem::new();

    system.execute_select(&mut world, entity, true);

    assert!(world.has_component::<SelectionState>(entity));
}

#[test]
fn stateless_controller_tree_is_pure() {
    let mut system = BgeLogicSystem::new();
    let tree = ControllerComponent::Or {
        conditions: vec![
            ControllerComponent::Not { condition: Box::new(ControllerComponent::Direct) },
            ControllerComponent::And { conditions: vec![ControllerComponent::Direct, ControllerComponent::Direct] },
        ],
    };
    for round in 0..3usize {
        let e = EntityId::from_usize(round);
        assert!(system.evaluate_controller(e, &tree, SensorEvaluation::Active));
        assert!(system.evaluate_controller(e, &tree, SensorEvaluation::Inactive));
        assert!(system.evaluate_controller(e, &tree, SensorEvaluation::Undefined));
    }
    let not_and = ControllerComponent::Not {
        condition: Box::new(ControllerComponent::And { conditions: vec![ControllerComponent::Direct] }),
    };
    assert!(!system.evaluate_controller(EntityId::from_usize(7), &not_and, SensorEvaluation::Active));
    assert!(!system.evaluate_controller(EntityId::from_usize(7), &not_and, SensorEvaluation::Active));
    assert!(system.evaluate_controller(EntityId::from_usize(7), &not_and, SensorEvaluation::Inactive));
}

#[test]
fn evaluate_sensor_by_kind() {
    let mut system = BgeLogicSystem::new();
    let e = EntityId::from_usize(3);
    let mut input = InputSnapshot::default();
    input.buttons = 0b10;
    input.keys[8] = 0b10;
    system.set_input(input);
    assert_eq!(system.evaluate_sensor(e, &SensorKind::Always), SensorEvaluation::Active);
    assert_eq!(system.evaluate_sensor(e, &SensorKind::MouseHover), SensorEvaluation::Inactive);
    assert_eq!(system.evaluate_sensor(e, &SensorKind::Ray), SensorEvaluation::Undefined);
    assert_eq!(system.evaluate_sensor(e, &SensorKind::Channel { channel_id: 4 }), SensorEvaluation::Undefined);
    assert_eq!(system.evaluate_sensor(e, &SensorKind::RightClick), SensorEvaluation::Active);
    assert_eq!(
        system.evaluate_sensor(e, &SensorKind::MouseClick { button: 0, click_type: ClickType::Single }),
        SensorEvaluation::Inactive
    );
    assert_eq!(system.evaluate_sensor(e, &SensorKind::KeyShortcut { key: 65 }), SensorEvaluation::Active);
    assert_eq!(system.evaluate_sensor(e, &SensorKind::KeyShortcut { key: 66 }), SensorEvaluation::Inactive);
    let timer = SensorKind::Timer { duration_ticks: 3 };
    assert_eq!(system.evaluate_sensor(e, &timer), SensorEvaluation::Inactive);
    assert_eq!(system.evaluate_sensor(e, &timer), SensorEvaluation::Inactive);
    assert_eq!(system.evaluate_sensor(e, &timer), SensorEvaluation::Active);
    assert_eq!(system.evaluate_sensor(e, &timer), SensorEvaluation::Inactive);
}
