//! Counters of the texture atlas system.

use vstd::prelude::*;

verus! {

/// Statistics for texture atlas rendering
#[derive(Clone, Copy, Debug, PartialEq, Eq, Structural)]
pub struct TextureAtlasStats {
    /// Number of sprites queried
    pub queried: usize,
    /// Number of visible sprites rendered
    pub rendered: usize,
}

impl Default for TextureAtlasStats {
    fn default() -> (r: Self)
        ensures
            r == (TextureAtlasStats { queried: 0, rendered: 0 }),
    {
        TextureAtlasStats { queried: 0, rendered: 0 }
    }
}

} // verus!
