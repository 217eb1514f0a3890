//! Concrete components bridging the logic layer (sensors and actuators)
//! with the component storage.

use crate::ecs::component::{Component, VecStorage};
use crate::signals::SignalByte;
use vstd::prelude::*;

verus! {

/// Component that stores signal state for an entity
#[derive(Clone, Copy, Debug, PartialEq, Eq, Structural)]
pub struct SignalStateComponent {
    /// The signal state
    pub signal: SignalByte,
}

impl SignalStateComponent {
    /// Creates a new SignalStateComponent with default signal
    pub fn new() -> (r: Self)
        ensures
            r.signal.history() == 0,
    {
        Self { signal: SignalByte::default() }
    }

    /// Creates a SignalStateComponent with an existing SignalByte
    pub fn with_signal(signal: SignalByte) -> (r: Self)
        ensures
            r.signal == signal,
    {
        Self { signal }
    }
}

impl Default for SignalStateComponent {
    fn default() -> (r: Self)
        ensures
            r.signal.history() == 0,
    {
        Self::new()
    }
}

impl Component for SignalStateComponent {
    type Storage = VecStorage<SignalStateComponent>;
}

/// Axis for mouse sensor testing
#[derive(Clone, Copy, Debug, PartialEq, Eq, Structural)]
pub enum MouseAxis {
    /// X axis
    X,
    /// Y axis
    Y,
}

/// Mouse sensor mode
#[derive(Clone, Copy, Debug, PartialEq, Eq, Structural)]
pub enum MouseMode {
    /// Movement mode
    Movement,
    /// Click mode
    Click,
    /// Hover mode
    Hover,
}

/// Configuration for mouse sensor behavior
#[derive(Clone, Copy, Debug, PartialEq, Eq, Structural)]
pub struct MouseSensorConfig {
    /// Axis to test on
    pub axis: MouseAxis,
    /// Mouse mode (movement, click, etc.)
    pub mode: MouseMode,
}

impl Default for MouseSensorConfig {
    fn default() -> (r: Self)
        ensures
            r == (MouseSensorConfig { axis: MouseAxis::X, mode: MouseMode::Movement }),
    {
        Self { axis: MouseAxis::X, mode: MouseMode::Movement }
    }
}

/// Component that stores mouse sensor configuration and state
#[derive(Clone, Copy, Debug, PartialEq, Eq, Structural)]
pub struct MouseSensorComponent {
    /// Width of the mouse sensor area
    pub width: u32,
    /// Height of the mouse sensor area
    pub height: u32,
    /// Sensor configuration
    pub config: MouseSensorConfig,
}

impl MouseSensorComponent {
    /// Creates a new MouseSensorComponent with square dimensions
    pub fn new(size: u32) -> (r: Self)
        ensures
            r == (MouseSensorComponent {
                width: size,
                height: size,
                config: MouseSensorConfig { axis: MouseAxis::X, mode: MouseMode::Movement },
            }),
    {
        Self { width: size, height: size, config: MouseSensorConfig::default() }
    }

    /// Creates a new MouseSensorComponent with custom dimensions
    pub fn with_dimensions(width: u32, height: u32) -> (r: Self)
        ensures
            r == (MouseSensorComponent {
                width,
                height,
                config: MouseSensorConfig { axis: MouseAxis::X, mode: MouseMode::Movement },
            }),
    {
        Self { width, height, config: MouseSensorConfig::default() }
    }

    /// Creates a MouseSensorComponent with custom configuration
    pub fn with_config(size: u32, config: MouseSensorConfig) -> (r: Self)
        ensures
            r == (MouseSensorComponent { width: size, height: size, config }),
    {
        Self { width: size, height: size, config }
    }
}

impl Component for MouseSensorComponent {
    type Storage = VecStorage<MouseSensorComponent>;
}

/// Component that stores highlight state for an entity, and the original
/// color for restoration.
#[derive(Clone, Copy, Debug, PartialEq, Eq, Structural)]
pub struct HighlightActuatorComponent {
    /// Original color before highlight
    pub original_color: Option<u32>,
    /// Current highlight color
    pub highlight_color: u32,
    /// Is currently highlighted
    pub is_highlighted: bool,
}

impl HighlightActuatorComponent {
    /// Creates a new HighlightActuatorComponent
    pub fn new(highlight_color: u32) -> (r: Self)
        ensures
            r == (HighlightActuatorComponent { original_color: None, highlight_color, is_highlighted: false }),
    {
        Self { original_color: None, highlight_color, is_highlighted: false }
    }

    /// Sets the highlighted state and stores original color
    pub fn set_highlighted(&mut self, original_color: u32)
        ensures
            *final(self) == (HighlightActuatorComponent {
                original_color: Some(original_color),
                is_highlighted: true,
                ..*old(self)
            }),
    {
        self.original_color = Some(original_color);
        self.is_highlighted = true;
    }

    /// Clears the highlighted state
    pub fn clear_highlighted(&mut self)
        ensures
            *final(self) == (HighlightActuatorComponent {
                original_color: None,
                is_highlighted: false,
                ..*old(self)
            }),
    {
        self.original_color = None;
        self.is_highlighted = false;
    }
}

impl Component for HighlightActuatorComponent {
    type Storage = VecStorage<HighlightActuatorComponent>;
}

/// Component that stores selection state for an entity
#[derive(Clone, Copy, Debug, PartialEq, Eq, Structural)]
pub struct SelectActuatorComponent {
    /// Is currently selected
    pub is_selected: bool,
}

impl SelectActuatorComponent {
    /// Creates a new SelectActuatorComponent
    pub fn new() -> (r: Self)
        ensures
            !r.is_selected,
    {
        Self { is_selected: false }
    }

    /// Sets the selected state
    pub fn set_selected(&mut self, selected: bool)
        ensures
            final(self).is_selected == selected,
    {
        self.is_selected = selected;
    }
}

impl Default for SelectActuatorComponent {
    fn default() -> (r: Self)
        ensures
            !r.is_selected,
    {
        Self::new()
    }
}

impl Component for SelectActuatorComponent {
    type Storage = VecStorage<SelectActuatorComponent>;
}

/// Drag axis constraint
#[derive(Clone, Copy, Debug, PartialEq, Eq, Structural)]
pub enum DragAxis {
    /// No constraint (free movement)
    Both,
    /// X-axis only
    X,
    /// Y-axis only
    Y,
}

/// Component for storing an entity's name, for logging and identification.
#[derive(Clone, Debug, PartialEq)]
pub struct NamedComponent {
    name: String,
}

impl NamedComponent {
    /// The name.
    pub closed spec fn spec_name(&self) -> Seq<char> {
        self.name@
    }

    /// Creates a new NamedComponent with the given name.
    pub fn new(name: &str) -> (r: Self)
        ensures
            r.spec_name() == name@,
    {
        Self { name: name.to_owned() }
    }

    /// Returns the name of the entity.
    pub fn name(&self) -> (r: &String)
        ensures
            r@ == self.spec_name(),
    {
        &self.name
    }

    /// Sets a new name for the entity.
    pub fn set_name(&mut self, name: &str)
        ensures
            final(self).spec_name() == name@,
    {
        self.name = name.to_owned();
    }
}

impl Default for NamedComponent {
    fn default() -> (r: Self)
        ensures
            r.spec_name() == Seq::<char>::empty(),
    {
        Self { name: String::new() }
    }
}

impl Component for NamedComponent {
    type Storage = VecStorage<NamedComponent>;
}

} // verus!
