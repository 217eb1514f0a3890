use archflow_logic::ecs::component::ComponentStorage;
use archflow_logic::ecs::components::{
    DragAxis, HighlightActuatorComponent, MouseAxis, MouseMode, MouseSensorComponent, MouseSensorConfig,
    NamedComponent, SelectActuatorComponent, SignalStateComponent,
};
use archflow_logic::ecs::registry::ComponentRegistry;
use archflow_logic::signals::SignalByte;

#[test]
fn test_signal_state_component_default() {
    let component = SignalStateComponent::default();
    // Default signal (0) has current bit = 0, so it's not positive
    assert!(!component.signal.is_positive());
    // and is_negative = !is_positive = true
    assert!(component.signal.is_negative());
}

#[test]
fn test_signal_state_component_new() {
    let component = SignalStateComponent::new();
    assert!(!component.signal.is_positive());
}

#[test]
fn test_signal_state_component_with_signal() {
    let mut signal = SignalByte::default();
    signal.push(true);

    let component = SignalStateComponent::with_signal(signal);
    assert!(component.signal.is_positive());
}

#[test]
fn test_signal_state_component_push() {
    let mut component = SignalStateComponent::default();
    component.signal.push(true);
    assert!(component.signal.is_positive());
}

#[test]
fn test_signal_state_component_in_registry() {
    let mut registry = ComponentRegistry::new();
    registry.register::<SignalStateComponent>();

    let storage = registry.get_storage_mut::<SignalStateComponent>().unwrap();
    storage.insert(0, SignalStateComponent::new());

    let storage = registry.get_storage::<SignalStateComponent>().unwrap();
    assert!(storage.contains(0));
}

#[test]
fn test_mouse_sensor_component_new() {
    let component = MouseSensorComponent::new(100);
    assert_eq!(component.width, 100);
    assert_eq!(component.height, 100);
}

#[test]
fn test_mouse_sensor_component_with_dimensions() {
    let component = MouseSensorComponent::with_dimensions(200, 150);
    assert_eq!(component.width, 200);
    assert_eq!(component.height, 150);
}

#[test]
fn test_mouse_sensor_component_with_config() {
    let config = MouseSensorConfig { axis: MouseAxis::Y, mode: MouseMode::Click };
    let component = MouseSensorComponent::with_config(100, config);
    assert_eq!(component.config.axis, MouseAxis::Y);
    assert_eq!(component.config.mode, MouseMode::Click);
}

#[test]
fn test_mouse_sensor_config_default() {
    let config = MouseSensorConfig::default();
    assert_eq!(config.axis, MouseAxis::X);
    assert_eq!(config.mode, MouseMode::Movement);
}

#[test]
fn test_mouse_sensor_axis_equality() {
    assert_eq!(MouseAxis::X, MouseAxis::X);
    assert_ne!(MouseAxis::X, MouseAxis::Y);
}

#[test]
fn test_mouse_sensor_mode_equality() {
    assert_eq!(MouseMode::Movement, MouseMode::Movement);
    assert_ne!(MouseMode::Movement, MouseMode::Click);
}

#[test]
fn test_mouse_sensor_component_in_registry() {
    let mut registry = ComponentRegistry::new();
    registry.register::<MouseSensorComponent>();

    let storage = registry.get_storage_mut::<MouseSensorComponent>().unwrap();
    storage.insert(0, MouseSensorComponent::new(100));

    let storage = registry.get_storage::<MouseSensorComponent>().unwrap();
    assert!(storage.contains(0));
    assert_eq!(storage.get(0).unwrap().width, 100);
}

#[test]
fn test_highlight_actuator_component_new() {
    let component = HighlightActuatorComponent::new(0xFF0000FF);
    assert_eq!(component.highlight_color, 0xFF0000FF);
    assert!(!component.is_highlighted);
    assert!(component.original_color.is_none());
}

#[test]
fn test_highlight_actuator_component_set_highlighted() {
    let mut component = HighlightActuatorComponent::new(0xFF0000FF);
    component.set_highlighted(0x00FF00FF);
    assert!(component.is_highlighted);
    assert_eq!(component.original_color, Some(0x00FF00FF));
}

#[test]
fn test_highlight_actuator_component_clear_highlighted() {
    let mut component = HighlightActuatorComponent::new(0xFF0000FF);
    component.set_highlighted(0x00FF00FF);
    component.clear_highlighted();
    assert!(!component.is_highlighted);
    assert!(component.original_color.is_none());
}

#[test]
fn test_highlight_actuator_component_equality() {
    let component1 = HighlightActuatorComponent::new(0xFF0000FF);
    let component2 = HighlightActuatorComponent::new(0xFF0000FF);
    assert_eq!(component1, component2);
}

#[test]
fn test_highlight_actuator_component_in_registry() {
    let mut registry = ComponentRegistry::new();
    registry.register::<HighlightActuatorComponent>();

    let storage = registry.get_storage_mut::<HighlightActuatorComponent>().unwrap();
    storage.insert(0, HighlightActuatorComponent::new(0xFF0000FF));

    let storage = registry.get_storage::<HighlightActuatorComponent>().unwrap();
    assert!(storage.contains(0));
    assert_eq!(storage.get(0).unwrap().highlight_color, 0xFF0000FF);
}

#[test]
fn test_select_actuator_component_default() {
    let component = SelectActuatorComponent::default();
    assert!(!component.is_selected);
}

#[test]
fn test_select_actuator_component_new() {
    let component = SelectActuatorComponent::new();
    assert!(!component.is_selected);
}

#[test]
fn test_select_actuator_component_set_selected() {
    let mut component = SelectActuatorComponent::new();
    component.set_selected(true);
    assert!(component.is_selected);
    component.set_selected(false);
    assert!(!component.is_selected);
}

#[test]
fn test_select_actuator_component_equality() {
    let component1 = SelectActuatorComponent::new();
    let component2 = SelectActuatorComponent::new();
    assert_eq!(component1, component2);

    let mut component3 = SelectActuatorComponent::new();
    component3.set_selected(true);
    assert_ne!(component1, component3);
}

#[test]
fn test_select_actuator_component_in_registry() {
    let mut registry = ComponentRegistry::new();
    registry.register::<SelectActuatorComponent>();

    let storage = registry.get_storage_mut::<SelectActuatorComponent>().unwrap();
    storage.insert(0, SelectActuatorComponent::new());

    let storage = registry.get_storage::<SelectActuatorComponent>().unwrap();
    assert!(storage.contains(0));
}

#[test]
fn test_drag_axis_equality() {
    assert_eq!(DragAxis::Both, DragAxis::Both);
    assert_eq!(DragAxis::X, DragAxis::X);
    assert_eq!(DragAxis::Y, DragAxis::Y);
    assert_ne!(DragAxis::X, DragAxis::Y);
    assert_ne!(DragAxis::Both, DragAxis::X);
}

#[test]
fn test_component_removal() {
    let mut registry = ComponentRegistry::new();
    registry.register::<HighlightActuatorComponent>();

    let storage = registry.get_storage_mut::<HighlightActuatorComponent>().unwrap();

    storage.insert(0, HighlightActuatorComponent::new(0xFF0000FF));
    storage.insert(1, HighlightActuatorComponent::new(0x00FF00FF));

    let removed = storage.remove(0);
    assert!(removed.is_some());
    assert_eq!(removed.unwrap().highlight_color, 0xFF0000FF);

    assert!(!storage.contains(0));
    assert!(storage.contains(1));
}

#[test]
fn test_component_mutation() {
    let mut registry = ComponentRegistry::new();
    registry.register::<SelectActuatorComponent>();

    let entity_id = 0;

    {
        let selections = registry.get_storage_mut::<SelectActuatorComponent>().unwrap();
        selections.insert(entity_id, SelectActuatorComponent::new());
    }

    {
        let selections = registry.get_storage_mut::<SelectActuatorComponent>().unwrap();
        selections
            .get_mut(entity_id)
            .map(|component: &mut SelectActuatorComponent| component.set_selected(true));
    }

    let selections = registry.get_storage::<SelectActuatorComponent>().unwrap();
    assert!(selections.get(entity_id).unwrap().is_selected);
}

#[test]
fn test_vec_storage_iteration() {
    let mut registry = ComponentRegistry::new();
    registry.register::<SignalStateComponent>();

    let storage = registry.get_storage_mut::<SignalStateComponent>().unwrap();
    for i in 0..5 {
        storage.insert(i, SignalStateComponent::new());
    }

    let storage = registry.get_storage::<SignalStateComponent>().unwrap();
    let mut count = 0;
    for _component in storage.iter() {
        count += 1;
    }

    assert_eq!(count, 5);
}

#[test]
fn mod_test_registry_clear() {
    let mut registry = ComponentRegistry::new();
    registry.register::<SignalStateComponent>();
    registry.register::<MouseSensorComponent>();

    {
        let storage = registry.get_storage_mut::<SignalStateComponent>().unwrap();
        storage.insert(0, SignalStateComponent::new());
    }

    registry.clear();

    assert!(!registry.is_registered::<SignalStateComponent>());
    assert!(!registry.is_registered::<MouseSensorComponent>());
    assert!(registry.is_empty());
}

#[test]
fn named_component_name_roundtrip() {
    let mut component = NamedComponent::new("Player");
    assert_eq!(component.name(), "Player");
    component.set_name("Enemy");
    assert_eq!(component.name(), "Enemy");
    assert_eq!(NamedComponent::default().name(), "");
}

#[test]
fn signal_byte_history_shifts() {
    let mut signal = SignalByte::default();
    signal.push(true);
    signal.push(false);
    assert!(signal.is_negative());
    signal.push(true);
    assert!(signal.is_positive());
}
