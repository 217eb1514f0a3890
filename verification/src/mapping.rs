//! Kinds of sensors, controllers and actuators a behaviour is built from.

use vstd::prelude::*;

verus! {

/// Kinds of sensors.
#[derive(Clone, Copy, Debug, PartialEq, Eq, Structural)]
pub enum SensorType {
    /// A keyboard shortcut.
    KeyShortcut,
    /// The mouse over the entity.
    MouseOver,
}

/// Kinds of controllers.
#[derive(Clone, Copy, Debug, PartialEq, Eq, Structural)]
pub enum Controller {
    /// Passes the sensor output through.
    Direct,
}

/// Kinds of actuators.
#[derive(Clone, Copy, Debug, PartialEq, Eq, Structural)]
pub enum ActuatorType {
    /// Moves the entity.
    Move,
    /// Highlights the entity.
    Highlight,
}

} // verus!
