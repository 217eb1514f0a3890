//! Building blocks of sensor–controller–actuator logic: click and comparison
//! kinds, controllers, sensor references and shared sensor configuration.

use crate::ecs::component::{Component, VecStorage};
use crate::ecs::query::EntityId;
use vstd::prelude::*;

pub mod bge_logic_system;

verus! {

/// Comparison operators for property-based sensors.
#[derive(Clone, Copy, Debug, PartialEq, Eq, Structural)]
pub enum PropertyComparator {
    /// Equal to target value.
    Equal,
    /// Not equal to target value.
    NotEqual,
    /// Greater than target value.
    GreaterThan,
    /// Less than target value.
    LessThan,
    /// Greater than or equal to target value.
    GreaterThanOrEqual,
    /// Less than or equal to target value.
    LessThanOrEqual,
}

impl Default for PropertyComparator {
    fn default() -> (r: Self)
        ensures
            r == PropertyComparator::Equal,
    {
        PropertyComparator::Equal
    }
}

/// Types of click events that can be detected.
#[derive(Clone, Copy, Debug, PartialEq, Eq, Structural)]
pub enum ClickType {
    /// Trigger on single click.
    Single,
    /// Trigger on double-click (rapid succession).
    Double,
    /// Trigger on sustained press.
    Long,
}

impl Default for ClickType {
    fn default() -> (r: Self)
        ensures
            r == ClickType::Single,
    {
        ClickType::Single
    }
}

/// The type of logic controller to evaluate.
///
/// Controllers form the decision layer of the logic, combining sensor
/// outputs with boolean logic or small state machines.
#[derive(Debug, PartialEq)]
pub enum ControllerComponent {
    /// Passes through sensor output unchanged.
    Direct,
    /// Fires only when ALL conditions are true.
    And {
        /// Nested controllers to combine.
        conditions: Vec<ControllerComponent>,
    },
    /// Fires when ANY condition is true.
    Or {
        /// Nested controllers to combine.
        conditions: Vec<ControllerComponent>,
    },
    /// Inverts the result of the nested controller.
    Not {
        /// Controller whose output to invert.
        condition: Box<ControllerComponent>,
    },
    /// Pulses output for a number of ticks after activation.
    Pulse {
        /// Number of ticks to remain active after trigger.
        tick_count: u32,
        /// Controller that triggers the pulse.
        controller: Box<ControllerComponent>,
    },
    /// Toggles state on each activation.
    Toggle {
        /// Controller that triggers the toggle.
        controller: Box<ControllerComponent>,
    },
    /// Delays activation by a number of ticks.
    Delay {
        /// Number of ticks to wait before passing through.
        delay_ticks: u32,
        /// Controller whose output to delay.
        controller: Box<ControllerComponent>,
    },
    /// Fires once when the sensor first becomes active.
    OneShot {
        /// Controller to monitor.
        controller: Box<ControllerComponent>,
    },
}

impl Default for ControllerComponent {
    fn default() -> (r: Self)
        ensures
            r == ControllerComponent::Direct,
    {
        ControllerComponent::Direct
    }
}

/// Discriminates sensor component variants for type-safe references.
#[derive(Clone, Copy, Debug, PartialEq, Eq, Structural, Hash)]
pub enum SensorComponentType {
    MouseHover,
    MouseClick,
    Proximity,
    KeyShortcut,
    DoubleTap,
    LongPress,
    RightClick,
    Always,
    Property,
    Ray,
    Timer,
    Channel,
}

/// Reference to a sensor component on another entity.
#[derive(Clone, Debug, PartialEq, Eq, Structural)]
pub struct SensorRef {
    /// Entity ID that owns the referenced sensor.
    pub entity: EntityId,
    /// Type of sensor to reference (for validation).
    pub sensor_type: SensorComponentType,
}

/// Configuration data shared across sensor types.
#[derive(Clone, Debug, PartialEq, Eq, Structural)]
pub struct SensorConfig {
    /// Debounce time in milliseconds to prevent rapid re-triggering.
    pub debounce_ms: u32,
    /// Whether the sensor is initially active.
    pub initially_active: bool,
    /// Minimum time between triggers in milliseconds.
    pub min_interval_ms: u32,
}

impl Default for SensorConfig {
    fn default() -> (r: Self)
        ensures
            r.debounce_ms == 0,
            !r.initially_active,
            r.min_interval_ms == 0,
    {
        SensorConfig { debounce_ms: 0, initially_active: false, min_interval_ms: 0 }
    }
}

impl SensorConfig {
    /// Creates a new default configuration.
    pub fn new() -> (r: Self)
        ensures
            r.debounce_ms == 0,
            !r.initially_active,
            r.min_interval_ms == 0,
    {
        Self::default()
    }

    /// Sets the debounce time.
    pub fn with_debounce_ms(self, debounce_ms: u32) -> (r: Self)
        ensures
            r == (SensorConfig { debounce_ms, ..self }),
    {
        let mut s = self;
        s.debounce_ms = debounce_ms;
        s
    }

    /// Sets whether the sensor starts active.
    pub fn with_initially_active(self, active: bool) -> (r: Self)
        ensures
            r == (SensorConfig { initially_active: active, ..self }),
    {
        let mut s = self;
        s.initially_active = active;
        s
    }

    /// Sets the minimum interval between triggers.
    pub fn with_min_interval_ms(self, interval_ms: u32) -> (r: Self)
        ensures
            r == (SensorConfig { min_interval_ms: interval_ms, ..self }),
    {
        let mut s = self;
        s.min_interval_ms = interval_ms;
        s
    }
}

impl Component for ControllerComponent {
    type Storage = VecStorage<ControllerComponent>;
}

} // verus!
