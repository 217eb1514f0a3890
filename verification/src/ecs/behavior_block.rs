//! Behaviour blocks: named sets of sensors, a controller and actuators.

use crate::ecs::component::{Component, VecStorage};
use crate::mapping::{ActuatorType, Controller, SensorType};
use vstd::prelude::*;

verus! {

/// A named behaviour: the sensors that feed it, the controller that
/// combines them, and the actuators it drives.
#[derive(Clone, Debug)]
pub struct BehaviorBlock {
    /// Name of the behaviour
    pub name: String,
    /// Sensors, in the order they were added
    pub sensors: Vec<SensorType>,
    /// The controller, if one was set
    pub controller: Option<Controller>,
    /// Actuators, in the order they were added
    pub actuators: Vec<ActuatorType>,
}

impl BehaviorBlock {
    /// Creates a behaviour with a name and nothing else.
    pub fn new(name: &str) -> (r: Self)
        ensures
            r.name@ == name@,
            r.sensors@ == Seq::<SensorType>::empty(),
            r.controller is None,
            r.actuators@ == Seq::<ActuatorType>::empty(),
    {
        Self { name: name.to_owned(), sensors: Vec::new(), controller: None, actuators: Vec::new() }
    }

    /// Adds a sensor.
    pub fn with_sensor(self, sensor: SensorType) -> (r: Self)
        ensures
            r.name == self.name,
            r.sensors@ == self.sensors@.push(sensor),
            r.controller == self.controller,
            r.actuators == self.actuators,
    {
        let mut s = self;
        s.sensors.push(sensor);
        s
    }

    /// Sets the controller.
    pub fn with_controller(self, controller: Controller) -> (r: Self)
        ensures
            r.name == self.name,
            r.sensors == self.sensors,
            r.controller == Some(controller),
            r.actuators == self.actuators,
    {
        let mut s = self;
        s.controller = Some(controller);
        s
    }

    /// Adds an actuator.
    pub fn with_actuator(self, actuator: ActuatorType) -> (r: Self)
        ensures
            r.name == self.name,
            r.sensors == self.sensors,
            r.controller == self.controller,
            r.actuators@ == self.actuators@.push(actuator),
    {
        let mut s = self;
        s.actuators.push(actuator);
        s
    }
}

/// Component holding an entity's behaviour blocks.
#[derive(Clone, Debug)]
pub struct BehaviorBlockComponent {
    /// The behaviours, in order
    pub blocks: Vec<BehaviorBlock>,
}

impl BehaviorBlockComponent {
    /// A component with no behaviours.
    pub fn new() -> (r: Self)
        ensures
            r.blocks@ == Seq::<BehaviorBlock>::empty(),
    {
        Self { blocks: Vec::new() }
    }

    /// A component with the given behaviours.
    pub fn with_blocks(blocks: Vec<BehaviorBlock>) -> (r: Self)
        ensures
            r.blocks == blocks,
    {
        Self { blocks }
    }
}

impl Default for BehaviorBlockComponent {
    fn default() -> (r: Self)
        ensures
            r.blocks@ == Seq::<BehaviorBlock>::empty(),
    {
        Self::new()
    }
}

impl Component for BehaviorBlockComponent {
    type Storage = VecStorage<BehaviorBlockComponent>;
}

} // verus!
