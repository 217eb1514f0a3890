//! Counters of the shape rendering system.

use vstd::prelude::*;

verus! {

/// Statistics for shape rendering
#[derive(Clone, Copy, Debug, PartialEq, Eq, Structural)]
pub struct ShapeRenderStats {
    /// Number of entities queried
    pub queried: usize,
    /// Number of visible entities rendered
    pub rendered: usize,
    /// Number of entities filtered (hidden)
    pub filtered: usize,
}

impl Default for ShapeRenderStats {
    fn default() -> (r: Self)
        ensures
            r == (ShapeRenderStats { queried: 0, rendered: 0, filtered: 0 }),
    {
        ShapeRenderStats { queried: 0, rendered: 0, filtered: 0 }
    }
}

} // verus!
