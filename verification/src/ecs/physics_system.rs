//! Counters of the physics system.

use vstd::prelude::*;

verus! {

/// Statistics from the physics system
#[derive(Clone, Copy, Debug, PartialEq, Eq, Structural)]
pub struct PhysicsStats {
    pub entities_updated: usize,
    pub velocity_applications: usize,
    pub boundary_checks: usize,
}

impl Default for PhysicsStats {
    fn default() -> (r: Self)
        ensures
            r == (PhysicsStats { entities_updated: 0, velocity_applications: 0, boundary_checks: 0 }),
    {
        PhysicsStats { entities_updated: 0, velocity_applications: 0, boundary_checks: 0 }
    }
}

} // verus!
