//! Run configuration of the engine.
//!
//! Fitness values are fixed-point numbers with six decimal places, and rates
//! are probabilities in parts per million, so that every decision the engine
//! takes is integer arithmetic.

use vstd::prelude::*;

verus! {

/// The fixed-point representation of the fitness `1.0`.
pub const FITNESS_ONE: u64 = 1_000_000;

/// The rate that stands for the probability `1.0`.
pub const RATE_ONE: u32 = 1_000_000;

/// Available population models.
#[derive(Copy, Clone, Debug, PartialEq, Eq, Structural)]
pub enum PopulationModel {
    SteadyState,
    Generational,
}

/// Available parent selection strategies.
#[derive(Copy, Clone, Debug, PartialEq, Eq, Structural)]
pub enum ParentSelection {
    RouletteWheel,
    StochasticUniversalSampling,
    TournamentSelection,
    RankSelection,
}

/// Available survivor selection strategies.
#[derive(Copy, Clone, Debug, PartialEq, Eq, Structural)]
pub enum SurvivorSelection {
    AgeBased,
    FitnessBased,
}

/// Available problems.
#[derive(Copy, Clone, Debug, PartialEq, Eq, Structural)]
pub enum Problem {
    NQueens,
    TravelingSalesman,
}

/// Why a run could not be set up or continued.
#[derive(Copy, Clone, Debug, PartialEq, Eq, Structural)]
pub enum EvolutionError {
    /// The run parameters are invalid: an empty population, a rate above
    /// `RATE_ONE`, or a problem size the representation cannot encode.
    Configuration,
    /// Fitness evaluation needs data that was not supplied to the engine.
    MissingContext,
    /// The selected strategy or population model has no algorithm.
    NotImplemented,
}

/// The parameters of one run. The engine never changes them.
#[derive(Copy, Clone, Debug)]
pub struct Options {
    /// Number of individuals in the population.
    pub population: usize,
    /// Generation budget; `0` means that only the target fitness ends the run.
    pub max_generations: u32,
    /// Fitness at which the run ends, in units of `1 / FITNESS_ONE`.
    pub target_fitness: u64,
    /// Probability of mutating an offspring, in parts per million.
    pub mutation_rate: u32,
    /// Probability of breeding an offspring from two parents, in parts per
    /// million.
    pub crossover_rate: u32,
    /// Whether the best individual may be lost between generations.
    pub no_elitism: bool,
    /// Whether lower fitness is better.
    pub minimize: bool,
    /// Parent selection strategy.
    pub parent_selection: ParentSelection,
    /// Survivor selection strategy.
    pub survivor_selection: SurvivorSelection,
    /// Population model.
    pub population_model: PopulationModel,
    /// Whether diagnostic output is wanted.
    pub debug: bool,
    /// The problem to solve.
    pub problem: Problem,
    /// Size of the problem instance: board width or number of cities.
    pub problem_size: usize,
}

impl Options {
    /// The parameters every run needs, whatever the representation: a
    /// population that is not empty and two rates that are probabilities.
    pub open spec fn valid(&self) -> bool {
        &&& self.population > 0
        &&& self.mutation_rate <= RATE_ONE
        &&& self.crossover_rate <= RATE_ONE
    }

    /// Tests `valid`.
    pub fn is_valid(&self) -> (ok: bool)
        ensures
            ok == self.valid(),
    {
        self.population > 0 && self.mutation_rate <= RATE_ONE && self.crossover_rate <= RATE_ONE
    }
}

} // verus!
