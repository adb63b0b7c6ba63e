//! The engine: individuals, selection, and the population lifecycle.

pub mod individual;
pub mod population;
pub mod selection;
pub mod sorting;
pub mod state;
pub mod stats;

pub use individual::{Genotype, Individual, Phenotype};
pub use population::{Population, StandardPopulation};
pub use state::PopulationState;
pub use stats::EvolutionStats;
