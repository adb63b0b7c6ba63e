//! Candidate solutions: the capabilities a representation offers and the
//! individual that carries one through the population.

use crate::options::{EvolutionError, Options};
use rand::rngs::ThreadRng;
use vstd::prelude::*;

verus! {

/// An encoding of one candidate solution.
pub trait Genotype: Sized {
    /// Whether the value is a valid encoding.
    spec fn wf(&self) -> bool;

    /// The size of the problem instance that the value encodes.
    spec fn size(&self) -> nat;

    /// Whether the representation can encode the problem that the options
    /// describe.
    spec fn supports(options: &Options) -> bool;

    /// Whether crossover of `first` with `second` can produce `child`.
    spec fn crossing(first: &Self, second: &Self, child: &Self) -> bool;

    /// Whether mutation can turn `before` into `after`.
    spec fn mutation(before: &Self, after: &Self) -> bool;

    /// Tests `supports`.
    fn accepts(options: &Options) -> (ok: bool)
        ensures
            ok == Self::supports(options),
    ;

    /// Create a new random genotype.
    fn new(rng: &mut ThreadRng, options: &Options) -> (created: Self)
        requires
            Self::supports(options),
        ensures
            created.wf(),
            created.size() == options.problem_size,
    ;

    /// Mutate this genotype in place.
    fn mutate(&mut self, rng: &mut ThreadRng)
        requires
            old(self).wf(),
        ensures
            final(self).wf(),
            final(self).size() == old(self).size(),
            Self::mutation(old(self), final(self)),
    ;

    /// Produce a new offspring from this genotype and another one. The
    /// offspring shares nothing with its parents.
    fn crossover(&self, other: &Self, rng: &mut ThreadRng) -> (child: Self)
        requires
            self.wf(),
            other.wf(),
            self.size() == other.size(),
        ensures
            child.wf(),
            child.size() == self.size(),
            Self::crossing(self, other, &child),
    ;
}

/// The quality of a candidate solution.
pub trait Phenotype: Genotype {
    /// Data outside the genotype that evaluation reads, such as a distance
    /// table shared by all individuals.
    type Context;

    /// Whether a genotype of the given size can be evaluated with the
    /// supplied context.
    spec fn evaluable(size: nat, context: Option<Self::Context>) -> bool;

    /// The fitness of this genotype under a context that it can be evaluated
    /// with.
    spec fn score(&self, context: Option<Self::Context>) -> u64;

    /// Evaluate the fitness of this genotype. The result depends on the
    /// genotype and the context alone; evaluation fails exactly when the
    /// context it needs is missing.
    fn fitness(&self, context: &Option<Self::Context>) -> (result: Result<u64, EvolutionError>)
        requires
            self.wf(),
        ensures
            Self::evaluable(self.size(), *context) ==> result == Ok::<u64, EvolutionError>(
                self.score(*context),
            ),
            !Self::evaluable(self.size(), *context) ==> result == Err::<u64, EvolutionError>(
                EvolutionError::MissingContext,
            ),
    ;
}

/// A genotype with its fitness and the generation that produced it.
#[derive(Debug)]
pub struct Individual<T> {
    /// Fitness at the last evaluation; `0` until the first one.
    pub fitness: u64,
    /// The generation in which the individual was created.
    pub generation: i32,
    /// The candidate solution.
    pub genotype: T,
}

impl<T: Genotype + Phenotype> Individual<T> {
    /// Whether the stored fitness is the fitness of the genotype under the
    /// context.
    pub open spec fn evaluated(&self, context: Option<T::Context>) -> bool {
        self.fitness == self.genotype.score(context)
    }

    /// Sets `fitness` from the genotype's fitness function and changes
    /// nothing else. Without the context the genotype needs, the individual
    /// stays as it was.
    pub fn evaluate(&mut self, context: &Option<T::Context>) -> (result: Result<
        (),
        EvolutionError,
    >)
        requires
            old(self).genotype.wf(),
        ensures
            final(self).genotype == old(self).genotype,
            final(self).generation == old(self).generation,
            T::evaluable(old(self).genotype.size(), *context) ==> {
                &&& result is Ok
                &&& final(self).evaluated(*context)
            },
            !T::evaluable(old(self).genotype.size(), *context) ==> {
                &&& result == Err::<(), EvolutionError>(EvolutionError::MissingContext)
                &&& final(self).fitness == old(self).fitness
            },
    {
        match self.genotype.fitness(context) {
            Ok(fitness) => {
                self.fitness = fitness;
                Ok(())
            },
            Err(error) => Err(error),
        }
    }

    /// Breeds an offspring from this individual and another one: the
    /// genotype comes from the representation's crossover, the generation is
    /// the given tag, and the fitness is `0` until the offspring is evaluated.
    pub fn crossover(&self, other: &Self, generation: i32, rng: &mut ThreadRng) -> (child: Self)
        requires
            self.genotype.wf(),
            other.genotype.wf(),
            self.genotype.size() == other.genotype.size(),
        ensures
            child.fitness == 0,
            child.generation == generation,
            child.genotype.wf(),
            child.genotype.size() == self.genotype.size(),
            T::crossing(&self.genotype, &other.genotype, &child.genotype),
    {
        Individual { generation, fitness: 0, genotype: self.genotype.crossover(&other.genotype, rng) }
    }
}

} // verus!
