//! A generic evolutionary-algorithm engine.
//!
//! Given a representation of candidate solutions (a genotype) and a fitness
//! function, the engine keeps a population of individuals and improves it
//! generation by generation: evaluate, select parents, reproduce, mutate,
//! select survivors, until a target fitness or a generation budget is
//! reached.
//!
//! Everything the engine decides is integer arithmetic. Fitness values are
//! fixed-point numbers in units of `1 / FITNESS_ONE`, and the mutation and
//! crossover rates are probabilities in parts per million. Random draws come
//! from the `rand` crate through the few functions of [`random`]; each
//! operation that draws is split into the draw and a function that takes
//! what was drawn, and whose result is fully specified.
//!
//! - [`ea`] holds the engine: individuals, sorting, roulette-wheel
//!   selection, statistics and the population lifecycle.
//! - [`problems`] holds three representations: N-queens, eight queens and
//!   the traveling salesman.
//! - [`options`] holds the configuration of a run.

pub mod ea;
pub mod options;
pub mod problems;
pub mod random;

pub use options::{
    EvolutionError, Options, ParentSelection, PopulationModel, Problem, SurvivorSelection,
    FITNESS_ONE, RATE_ONE,
};
