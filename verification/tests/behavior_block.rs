use archflow_logic::ecs::behavior_block::{BehaviorBlock, BehaviorBlockComponent};
use archflow_logic::mapping::{ActuatorType, Controller, SensorType};

#[test]
fn test_behavior_block_creation() {
    let block = BehaviorBlock::new("test_behavior");
    assert_eq!(block.name, "test_behavior");
    assert!(block.sensors.is_empty());
    assert!(block.controller.is_none());
    assert!(block.actuators.is_empty());
}

#[test]
fn test_behavior_block_with_sensor() {
    let block = BehaviorBlock::new("test")
        .with_sensor(SensorType::KeyShortcut)
        .with_sensor(SensorType::MouseOver);

    assert_eq!(block.sensors.len(), 2);
    assert_eq!(block.sensors[0], SensorType::KeyShortcut);
    assert_eq!(block.sensors[1], SensorType::MouseOver);
}

#[test]
fn test_behavior_block_with_controller() {
    let block = BehaviorBlock::new("test").with_controller(Controller::Direct);

    assert!(block.controller.is_some());
    if let Controller::Direct = block.controller.unwrap() {
        // Controller::Direct detected
    } else {
        panic!("Expected Controller::Direct");
    }
}

#[test]
fn test_behavior_block_with_actuator() {
    let block = BehaviorBlock::new("test")
        .with_actuator(ActuatorType::Move)
        .with_actuator(ActuatorType::Highlight);

    assert_eq!(block.actuators.len(), 2);
    assert_eq!(block.actuators[0], ActuatorType::Move);
    assert_eq!(block.actuators[1], ActuatorType::Highlight);
}

#[test]
fn test_behavior_block_component() {
    let mut blocks = Vec::new();
    blocks.push(BehaviorBlock::new("behavior1"));
    blocks.push(BehaviorBlock::new("behavior2"));
    let component = BehaviorBlockComponent::with_blocks(blocks);

    assert_eq!(component.blocks.len(), 2);
}

#[test]
fn test_behavior_block_component_default() {
    let component = BehaviorBlockComponent::default();
    assert!(component.blocks.is_empty());
}
