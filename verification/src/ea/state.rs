//! The mathematical model of a population engine, and what a generation and
//! a run make of it.

use crate::ea::individual::{Genotype, Individual, Phenotype};
use crate::ea::selection::{total_weight, wheel_can_select};
use crate::ea::sorting::{better_or_equal, same_order_among_equals, sorted_best_first};
use crate::ea::stats::EvolutionStats;
use crate::options::{Options, ParentSelection, PopulationModel, RATE_ONE};
use vstd::prelude::*;

verus! {

/// Whether every individual holds a valid genotype of the given size.
pub open spec fn all_valid<T: Genotype>(population: Seq<Individual<T>>, size: nat) -> bool {
    forall|i: int|
        0 <= i < population.len() ==> {
            &&& (#[trigger] population[i]).genotype.wf()
            &&& population[i].genotype.size() == size
        }
}

/// Whether every individual carries the fitness of its genotype.
pub open spec fn all_evaluated<T: Genotype + Phenotype>(
    population: Seq<Individual<T>>,
    context: Option<T::Context>,
) -> bool {
    forall|i: int| 0 <= i < population.len() ==> (#[trigger] population[i]).evaluated(context)
}

/// Whether every individual can be evaluated under the context.
pub open spec fn all_evaluable<T: Genotype + Phenotype>(
    population: Seq<Individual<T>>,
    context: Option<T::Context>,
) -> bool {
    forall|i: int|
        0 <= i < population.len() ==> T::evaluable(
            (#[trigger] population[i]).genotype.size(),
            context,
        )
}

/// The individual with its fitness brought up to date.
pub open spec fn scored_one<T: Genotype + Phenotype>(
    individual: Individual<T>,
    context: Option<T::Context>,
) -> Individual<T> {
    Individual {
        fitness: individual.genotype.score(context),
        generation: individual.generation,
        genotype: individual.genotype,
    }
}

/// The population with every fitness brought up to date.
pub open spec fn scored<T: Genotype + Phenotype>(
    population: Seq<Individual<T>>,
    context: Option<T::Context>,
) -> Seq<Individual<T>> {
    Seq::new(population.len(), |i: int| scored_one(population[i], context))
}

/// Whether `child` can be bred from the parents at `a` and `b`, both of
/// them places at which a wheel of total weight `total` can stop.
pub open spec fn bred_from<T: Genotype>(
    parents: Seq<Individual<T>>,
    minimize: bool,
    total: int,
    a: int,
    b: int,
    child: T,
) -> bool {
    &&& 0 <= a < parents.len()
    &&& 0 <= b < parents.len()
    &&& wheel_can_select(parents, minimize, total, a)
    &&& wheel_can_select(parents, minimize, total, b)
    &&& T::crossing(&parents[a].genotype, &parents[b].genotype, &child)
}

/// Whether `child` can be bred from two parents that the wheel selects, or
/// from one that it selects, crossed with itself.
pub open spec fn offspring_of<T: Genotype>(
    parents: Seq<Individual<T>>,
    minimize: bool,
    total: int,
    child: T,
) -> bool {
    exists|a: int, b: int| #[trigger] bred_from(parents, minimize, total, a, b, child)
}

/// Whether `child` descends from the parents: it was bred from them, and
/// then mutated or left as it was.
pub open spec fn descends_from<T: Genotype>(
    parents: Seq<Individual<T>>,
    minimize: bool,
    total: int,
    child: T,
) -> bool {
    exists|bred: T| #[trigger]
        offspring_of(parents, minimize, total, bred) && (child == bred || T::mutation(
            &bred,
            &child,
        ))
}

/// Whether the states are those of a run, generation by generation, from
/// `before` to `after`: each state but the first is what one generation
/// makes of the state before it, and the run goes on from no state in
/// which it is finished.
pub open spec fn is_run<T: Genotype + Phenotype>(
    states: Seq<PopulationState<T>>,
    before: PopulationState<T>,
    after: PopulationState<T>,
) -> bool {
    &&& states.len() >= 2
    &&& states.first() == before
    &&& states.last() == after
    &&& forall|i: int|
        0 < i < states.len() ==> (#[trigger] states[i]).advanced_from(states[i - 1])
    &&& forall|i: int| 0 < i < states.len() - 1 ==> !(#[trigger] states[i]).finished()
}

/// What a population engine is, as far as contracts are concerned: its
/// configuration, its counters, its individuals in order, the evaluation
/// context, and whether the individuals are evaluated and sorted.
pub struct PopulationState<T: Genotype + Phenotype> {
    /// The parameters of the run.
    pub options: Options,
    /// The counters of the run.
    pub stats: EvolutionStats,
    /// The individuals, in population order.
    pub individuals: Seq<Individual<T>>,
    /// The context handed to fitness evaluation, if one was supplied.
    pub context: Option<T::Context>,
    /// Whether the individuals are evaluated under the context and sorted.
    pub ready: bool,
    /// The elapsed time, in milliseconds, of the last report that was due.
    pub last_report: u64,
}

impl<T: Genotype + Phenotype> PopulationState<T> {
    /// Whether fitness evaluation has the context it needs.
    pub open spec fn runnable(self) -> bool {
        T::evaluable(self.options.problem_size as nat, self.context)
    }

    /// Whether the configured strategies have an algorithm: roulette-wheel
    /// parent selection in a generational population.
    pub open spec fn implemented(self) -> bool {
        &&& self.options.parent_selection == ParentSelection::RouletteWheel
        &&& self.options.population_model == PopulationModel::Generational
    }

    /// Whether the best fitness of the last generation meets the target.
    pub open spec fn target_reached(self) -> bool {
        better_or_equal(self.stats.fitness, self.options.target_fitness, self.options.minimize)
    }

    /// Whether the run is over: at least one generation was produced, and
    /// either the generation budget is used up or the target is reached.
    pub open spec fn finished(self) -> bool {
        &&& self.stats.generation > 0
        &&& {
            ||| self.options.max_generations > 0 && self.stats.generation
                >= self.options.max_generations
            ||| self.target_reached()
        }
    }

    /// The invariant of the engine.
    pub open spec fn wf(self) -> bool {
        &&& self.options.valid()
        &&& T::supports(&self.options)
        &&& self.individuals.len() == self.options.population
        &&& all_valid(self.individuals, self.options.problem_size as nat)
        &&& self.stats.max_generations == self.options.max_generations
        &&& 0 <= self.stats.generation
        &&& self.stats.mutations <= self.options.population
        &&& self.stats.crossovers <= self.options.population
        &&& self.stats.total_mutations <= self.stats.generation * self.options.population
        &&& self.stats.total_crossovers <= self.stats.generation * self.options.population
        &&& self.ready ==> {
            &&& self.runnable()
            &&& all_evaluated(self.individuals, self.context)
            &&& sorted_best_first(self.individuals, self.options.minimize)
        }
    }

    /// A population that was just created from the options.
    pub open spec fn fresh(self, options: Options) -> bool {
        &&& self.wf()
        &&& self.options == options
        &&& self.stats == EvolutionStats::fresh(options.max_generations)
        &&& self.context == None::<T::Context>
        &&& !self.ready
        &&& self.last_report == 0
        &&& forall|i: int|
            0 <= i < self.individuals.len() ==> {
                &&& (#[trigger] self.individuals[i]).fitness == 0
                &&& self.individuals[i].generation == 0
            }
    }

    /// Whether this state belongs to the same run as `before`: nothing but
    /// the counters, the individuals and their readiness differs.
    pub open spec fn same_run(self, before: Self) -> bool {
        &&& self.options == before.options
        &&& self.context == before.context
        &&& self.last_report == before.last_report
    }

    /// Whether the counts of the last generation are what the rates force
    /// them to be: none at rate zero, the whole population at rate one.
    pub open spec fn counts_follow_rates(self) -> bool {
        &&& self.options.mutation_rate == 0 ==> self.stats.mutations == 0
        &&& self.options.mutation_rate == RATE_ONE ==> self.stats.mutations
            == self.options.population
        &&& self.options.crossover_rate == 0 ==> self.stats.crossovers == 0
        &&& self.options.crossover_rate == RATE_ONE ==> self.stats.crossovers
            == self.options.population
    }

    /// Whether the best individual of this state is at least as good as
    /// every individual of `before` is once it is evaluated.
    pub open spec fn keeps_best_of(self, before: Self) -> bool {
        forall|i: int|
            0 <= i < before.individuals.len() ==> better_or_equal(
                self.individuals[0].fitness,
                (#[trigger] before.individuals[i]).genotype.score(before.context),
                before.options.minimize,
            )
    }

    /// Whether `child` is an offspring of generation `generation`,
    /// descended from the individuals of this population under a wheel of
    /// total weight `total`.
    pub open spec fn begot_in(self, total: u128, generation: i32, child: Individual<T>) -> bool {
        &&& child.generation == generation
        &&& descends_from(self.individuals, self.options.minimize, total as int, child.genotype)
    }

    /// Whether the individual at place `i` is an offspring of the current
    /// generation, descended from the individuals of `parents`.
    pub open spec fn offspring_at(self, parents: Self, i: int) -> bool {
        &&& self.individuals[i].generation == self.stats.generation
        &&& descends_from(
            parents.individuals,
            parents.options.minimize,
            total_weight(parents.individuals, parents.options.minimize),
            self.individuals[i].genotype,
        )
    }

    /// Whether the elite of `parents`, their first individual, survives at
    /// `place`, among offspring in every other place.
    pub open spec fn elite_at(self, parents: Self, place: int) -> bool {
        &&& 0 <= place < self.individuals.len()
        &&& self.individuals[place] == parents.individuals[0]
        &&& forall|i: int|
            0 <= i < self.individuals.len() && i != place ==> #[trigger] self.offspring_at(
                parents,
                i,
            )
    }

    /// What the evaluate phase makes of `before`: the same individuals with
    /// their fitness brought up to date, best first, those of equal fitness
    /// in their old order, and nothing else changed.
    pub open spec fn evaluated_from(self, before: Self) -> bool {
        &&& self.same_run(before)
        &&& self.stats == before.stats
        &&& self.ready
        &&& all_evaluated(self.individuals, self.context)
        &&& sorted_best_first(self.individuals, self.options.minimize)
        &&& before.ready ==> self.individuals == before.individuals
        &&& !before.ready ==> {
            &&& self.individuals.to_multiset() == scored(
                before.individuals,
                before.context,
            ).to_multiset()
            &&& same_order_among_equals(
                scored(before.individuals, before.context),
                self.individuals,
            )
        }
    }

    /// What the reproduction of one generation makes of `parents`, a
    /// population that is evaluated and sorted: a population of offspring
    /// of the parents, with the best parent among them unless elitism is
    /// off, and the counters brought up to date.
    pub open spec fn bred_out_of(self, parents: Self) -> bool {
        &&& self.same_run(parents)
        &&& self.ready
        &&& self.stats.generation == parents.stats.generation + 1
        &&& self.stats.max_generations == parents.stats.max_generations
        &&& self.stats.elapsed_millis == parents.stats.elapsed_millis
        &&& self.stats.fitness == self.individuals[0].fitness
        &&& self.stats.total_mutations == parents.stats.total_mutations + self.stats.mutations
        &&& self.stats.total_crossovers == parents.stats.total_crossovers
            + self.stats.crossovers
        &&& self.counts_follow_rates()
        &&& self.options.no_elitism ==> forall|i: int|
            0 <= i < self.individuals.len() ==> #[trigger] self.offspring_at(parents, i)
        &&& !self.options.no_elitism ==> exists|place: int| self.elite_at(parents, place)
    }

    /// What one generation makes of `before`: the evaluate phase, then
    /// reproduction. With elitism the best individual is then at least as
    /// good as every individual of `before` was.
    pub open spec fn advanced_from(self, before: Self) -> bool {
        &&& exists|parents: Self| #[trigger]
            parents.evaluated_from(before) && parents.wf() && self.bred_out_of(parents)
        &&& !self.options.no_elitism ==> self.keeps_best_of(before)
    }

    /// What a run of one generation or more makes of `before`: the last
    /// state of a run from `before`, whose counters and best individual
    /// are what the generations of the run add up to.
    pub open spec fn evolved_from(self, before: Self) -> bool {
        &&& exists|states: Seq<Self>| is_run(states, before, self)
        &&& self.same_run(before)
        &&& self.ready
        &&& self.stats.generation > before.stats.generation
        &&& self.stats.max_generations == before.stats.max_generations
        &&& self.stats.elapsed_millis == before.stats.elapsed_millis
        &&& self.stats.fitness == self.individuals[0].fitness
        &&& before.stats.generation < self.options.max_generations ==> self.stats.generation
            <= self.options.max_generations
        &&& self.counts_follow_rates()
        &&& self.options.mutation_rate == 0 ==> self.stats.total_mutations
            == before.stats.total_mutations
        &&& self.options.mutation_rate == RATE_ONE ==> self.stats.total_mutations
            == before.stats.total_mutations + (self.stats.generation - before.stats.generation)
            * self.options.population
        &&& self.options.crossover_rate == 0 ==> self.stats.total_crossovers
            == before.stats.total_crossovers
        &&& self.options.crossover_rate == RATE_ONE ==> self.stats.total_crossovers
            == before.stats.total_crossovers + (self.stats.generation - before.stats.generation)
            * self.options.population
        &&& !self.options.no_elitism ==> self.keeps_best_of(before)
    }
}

} // verus!
