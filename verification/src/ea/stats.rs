//! Counters of one run.

use vstd::prelude::*;

verus! {

/// Statistics of a run, updated once per generation.
#[derive(Copy, Clone, Debug, PartialEq, Eq, Structural)]
pub struct EvolutionStats {
    /// Which generation these statistics describe.
    pub generation: i32,
    /// Generation budget of the run; `0` when there is none.
    pub max_generations: u32,
    /// Best fitness achieved this generation.
    pub fitness: u64,
    /// Milliseconds since the run started, as last reported to the engine.
    pub elapsed_millis: u64,
    /// Number of mutations this generation.
    pub mutations: usize,
    /// Number of mutations over the course of the run.
    pub total_mutations: u128,
    /// Number of crossovers this generation.
    pub crossovers: usize,
    /// Number of crossovers over the course of the run.
    pub total_crossovers: u128,
}

impl EvolutionStats {
    /// The statistics of a run that has not started: every counter at zero.
    pub open spec fn fresh(max_generations: u32) -> Self {
        EvolutionStats {
            generation: 0,
            max_generations,
            fitness: 0,
            elapsed_millis: 0,
            mutations: 0,
            total_mutations: 0,
            crossovers: 0,
            total_crossovers: 0,
        }
    }

    /// The statistics of a run that has not started.
    pub fn new(max_generations: u32) -> (stats: Self)
        ensures
            stats == Self::fresh(max_generations),
    {
        EvolutionStats {
            generation: 0,
            max_generations,
            fitness: 0,
            elapsed_millis: 0,
            mutations: 0,
            total_mutations: 0,
            crossovers: 0,
            total_crossovers: 0,
        }
    }
}

} // verus!
