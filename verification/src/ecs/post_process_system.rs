//! Counters of the post-processing system.

use vstd::prelude::*;

verus! {

/// Statistics for post-process system processing
#[derive(Clone, Copy, Debug, PartialEq, Eq, Structural)]
pub struct PostProcessStats {
    /// Total number of effects in the pipeline
    pub total_effects: usize,
    /// Number of active (enabled) effects
    pub active_effects: usize,
    /// Number of bloom effects
    pub bloom_count: usize,
    /// Number of color grading effects
    pub color_grading_count: usize,
    /// Number of grayscale effects
    pub grayscale_count: usize,
    /// Whether the pipeline is enabled
    pub pipeline_enabled: bool,
}

impl Default for PostProcessStats {
    fn default() -> (r: Self)
        ensures
            r == (PostProcessStats {
                total_effects: 0,
                active_effects: 0,
                bloom_count: 0,
                color_grading_count: 0,
                grayscale_count: 0,
                pipeline_enabled: false,
            }),
    {
        PostProcessStats {
            total_effects: 0,
            active_effects: 0,
            bloom_count: 0,
            color_grading_count: 0,
            grayscale_count: 0,
            pipeline_enabled: false,
        }
    }
}

} // verus!
