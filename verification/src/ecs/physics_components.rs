//! Selection state of an entity.

use crate::ecs::component::{Component, VecStorage};
use vstd::prelude::*;

verus! {

/// Selection state: whether the entity is selected, its place in the
/// selection order, and the style of its selection indicator.
#[derive(Clone, Copy, Debug, PartialEq, Eq, Structural)]
pub struct SelectionState {
    /// Whether the entity is selected
    pub is_selected: bool,
    /// Order of selection
    pub selection_order: u32,
    /// Style of the selection indicator
    pub indicator_style: u8,
}

impl SelectionState {
    /// An unselected state
    pub fn new() -> (r: Self)
        ensures
            r == (SelectionState { is_selected: false, selection_order: 0, indicator_style: 0 }),
    {
        Self { is_selected: false, selection_order: 0, indicator_style: 0 }
    }

    /// Selects, with the given selection order
    pub fn select(&mut self, order: u32)
        ensures
            *final(self) == (SelectionState { is_selected: true, selection_order: order, ..*old(self) }),
    {
        self.is_selected = true;
        self.selection_order = order;
    }

    /// Deselects, keeping the order and style
    pub fn deselect(&mut self)
        ensures
            *final(self) == (SelectionState { is_selected: false, ..*old(self) }),
    {
        self.is_selected = false;
    }
}

impl Default for SelectionState {
    fn default() -> (r: Self)
        ensures
            r == (SelectionState { is_selected: false, selection_order: 0, indicator_style: 0 }),
    {
        Self::new()
    }
}

impl Component for SelectionState {
    type Storage = VecStorage<SelectionState>;
}

} // verus!
