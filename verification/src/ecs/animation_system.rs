//! Counters of the animation system.

use vstd::prelude::*;

verus! {

/// Statistics from the animation system
#[derive(Clone, Copy, Debug, PartialEq, Eq, Structural)]
pub struct AnimationStats {
    /// Number of animated entities
    pub animated: usize,
    /// Number of frame changes
    pub frame_changes: usize,
}

impl Default for AnimationStats {
    fn default() -> (r: Self)
        ensures
            r == (AnimationStats { animated: 0, frame_changes: 0 }),
    {
        AnimationStats { animated: 0, frame_changes: 0 }
    }
}

/// The animation system's state: its counters.
#[derive(Clone, Copy, Debug)]
pub struct AnimationSystem {
    stats: AnimationStats,
}

impl AnimationSystem {
    pub closed spec fn spec_stats(&self) -> AnimationStats {
        self.stats
    }

    /// Creates a new animation system with zeroed counters
    pub fn new() -> (r: Self)
        ensures
            r.spec_stats() == (AnimationStats { animated: 0, frame_changes: 0 }),
    {
        Self { stats: AnimationStats::default() }
    }

    /// Returns the counters
    pub fn stats(&self) -> (r: &AnimationStats)
        ensures
            *r == self.spec_stats(),
    {
        &self.stats
    }

    /// Zeroes the counters
    pub fn reset_stats(&mut self)
        ensures
            final(self).spec_stats() == (AnimationStats { animated: 0, frame_changes: 0 }),
    {
        self.stats = AnimationStats::default();
    }

    /// The system's name.
    pub fn name(&self) -> (r: &'static str)
        ensures
            r@ == "AnimationSystem"@,
    {
        "AnimationSystem"
    }

    /// The system's priority (lower runs first).
    pub fn priority(&self) -> (r: i32)
        ensures
            r == 50,
    {
        50
    }
}

impl Default for AnimationSystem {
    fn default() -> (r: Self)
        ensures
            r.spec_stats() == (AnimationStats { animated: 0, frame_changes: 0 }),
    {
        Self::new()
    }
}

} // verus!
