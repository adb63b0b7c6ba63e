//! The population engine: one run of the evolutionary loop.

use crate::ea::individual::{Genotype, Individual, Phenotype};
use crate::ea::selection::{roulette_wheel_select, total_fitness, total_weight};
use crate::ea::sorting::{better_or_equal, is_better_or_equal, sort};
use crate::ea::state::{
    all_evaluable, all_evaluated, all_valid, bred_from, descends_from, is_run, offspring_of,
    scored, scored_one, PopulationState,
};
use crate::ea::stats::EvolutionStats;
use crate::options::{EvolutionError, Options, ParentSelection, PopulationModel, RATE_ONE};
use crate::random::{random_ratio, system_rng};
use rand::rngs::ThreadRng;
use vstd::prelude::*;
use vstd::seq_lib::{to_multiset_contains, to_multiset_len, to_multiset_remove};

verus! {

/// Performs mutation on a population with a given mutation rate: each
/// individual is mutated with that probability, and the number of mutated
/// individuals is returned. Fitness and generation tags are not touched.
pub fn mutate<T: Genotype + Phenotype>(
    population: &mut Vec<Individual<T>>,
    rate: u32,
    rng: &mut ThreadRng,
) -> (count: usize)
    requires
        rate <= RATE_ONE,
        forall|i: int| 0 <= i < old(population)@.len() ==> old(population)@[i].genotype.wf(),
    ensures
        final(population)@.len() == old(population)@.len(),
        forall|i: int|
            0 <= i < old(population)@.len() ==> {
                &&& (#[trigger] final(population)@[i]).genotype.wf()
                &&& final(population)@[i].genotype.size() == old(population)@[i].genotype.size()
                &&& final(population)@[i].fitness == old(population)@[i].fitness
                &&& final(population)@[i].generation == old(population)@[i].generation
                &&& {
                    ||| final(population)@[i].genotype == old(population)@[i].genotype
                    ||| T::mutation(&old(population)@[i].genotype, &final(population)@[i].genotype)
                }
            },
        count <= old(population)@.len(),
        rate == 0 ==> count == 0 && final(population)@ == old(population)@,
        rate == RATE_ONE ==> count == old(population)@.len(),
{
    let mut count: usize = 0;
    let mut i: usize = 0;
    while i < population.len()
        invariant
            rate <= RATE_ONE,
            i <= population@.len(),
            population@.len() == old(population)@.len(),
            forall|k: int|
                0 <= k < population@.len() ==> {
                    &&& (#[trigger] population@[k]).genotype.wf()
                    &&& population@[k].genotype.size() == old(population)@[k].genotype.size()
                    &&& population@[k].fitness == old(population)@[k].fitness
                    &&& population@[k].generation == old(population)@[k].generation
                    &&& {
                        ||| population@[k].genotype == old(population)@[k].genotype
                        ||| T::mutation(&old(population)@[k].genotype, &population@[k].genotype)
                    }
                },
            forall|k: int| i <= k < population@.len() ==> population@[k] == old(population)@[k],
            count <= i,
            rate == 0 ==> count == 0 && population@ == old(population)@,
            rate == RATE_ONE ==> count == i,
        decreases population@.len() - i,
    {
        if random_ratio(rng, rate, RATE_ONE) {
            population[i].genotype.mutate(rng);
            count += 1;
        }
        i += 1;
    }
    count
}

/// Whether evaluation in order, started on `before`, stopped at index `stop`
/// and left `after`: the individual at `stop` is the first that cannot be
/// evaluated, those before it are evaluated, and the rest is as it was.
pub open spec fn stopped_at<T: Genotype + Phenotype>(
    before: Seq<Individual<T>>,
    after: Seq<Individual<T>>,
    context: Option<T::Context>,
    stop: int,
) -> bool {
    &&& 0 <= stop < before.len()
    &&& after.len() == before.len()
    &&& !T::evaluable(before[stop].genotype.size(), context)
    &&& forall|i: int|
        0 <= i < stop ==> {
            &&& T::evaluable((#[trigger] before[i]).genotype.size(), context)
            &&& after[i] == scored_one(before[i], context)
        }
    &&& forall|i: int| stop <= i < before.len() ==> #[trigger] after[i] == before[i]
}

/// Evaluates a collection of individuals, in order, and stops at the first
/// one that cannot be evaluated for want of context. Genotypes and
/// generation tags are not touched.
pub fn evaluate<T: Genotype + Phenotype>(
    population: &mut Vec<Individual<T>>,
    context: &Option<T::Context>,
) -> (result: Result<(), EvolutionError>)
    requires
        forall|i: int| 0 <= i < old(population)@.len() ==> old(population)@[i].genotype.wf(),
    ensures
        all_evaluable(old(population)@, *context) ==> {
            &&& result is Ok
            &&& final(population)@ == scored(old(population)@, *context)
        },
        !all_evaluable(old(population)@, *context) ==> {
            &&& result == Err::<(), EvolutionError>(EvolutionError::MissingContext)
            &&& exists|stop: int| stopped_at(old(population)@, final(population)@, *context, stop)
        },
{
    let mut i: usize = 0;
    while i < population.len()
        invariant
            i <= population@.len(),
            population@.len() == old(population)@.len(),
            forall|k: int| 0 <= k < population@.len() ==> (#[trigger] population@[k]).genotype.wf(),
            forall|k: int|
                0 <= k < i ==> {
                    &&& T::evaluable((#[trigger] old(population)@[k]).genotype.size(), *context)
                    &&& population@[k] == scored_one(old(population)@[k], *context)
                },
            forall|k: int| i <= k < population@.len() ==> population@[k] == old(population)@[k],
        decreases population@.len() - i,
    {
        match population[i].evaluate(context) {
            Ok(()) => {},
            Err(error) => {
                assert(!T::evaluable(old(population)@[i as int].genotype.size(), *context));
                assert(population@[i as int] == old(population)@[i as int]);
                assert(stopped_at(old(population)@, population@, *context, i as int));
                return Err(error);
            },
        }
        i += 1;
    }
    assert(population@ =~= scored(old(population)@, *context));
    Ok(())
}

/// Interface for working with various populations.
pub trait Population: Sized {
    /// The invariant of the population.
    spec fn wf(&self) -> bool;

    /// Create a new population based on the given options.
    fn new(options: Options) -> (created: Result<Self, EvolutionError>)
        ensures
            created matches Ok(population) ==> population.wf(),
    ;

    /// Run the generation loop until its termination condition holds.
    fn evolve(&mut self) -> (result: Result<(), EvolutionError>)
        requires
            old(self).wf(),
        ensures
            final(self).wf(),
    ;
}

/// A population that is replaced as a whole in every generation.
pub struct StandardPopulation<T: Genotype + Phenotype> {
    options: Options,
    rng: ThreadRng,
    stats: EvolutionStats,
    population: Vec<Individual<T>>,
    context: Option<T::Context>,
    ready: bool,
    last_report: u64,
}

impl<T: Genotype + Phenotype> View for StandardPopulation<T> {
    type V = PopulationState<T>;

    closed spec fn view(&self) -> PopulationState<T> {
        PopulationState {
            options: self.options,
            stats: self.stats,
            individuals: self.population@,
            context: self.context,
            ready: self.ready,
            last_report: self.last_report,
        }
    }
}

/// A value that a sequence holds is held by every reordering of it.
proof fn lemma_permutation_contains<A>(from: Seq<A>, to: Seq<A>, value: A)
    requires
        from.to_multiset() == to.to_multiset(),
        from.contains(value),
    ensures
        to.contains(value),
{
    to_multiset_contains(from, value);
    to_multiset_contains(to, value);
}

/// Validity survives a reordering.
proof fn lemma_permutation_keeps_valid<T: Genotype>(
    from: Seq<Individual<T>>,
    to: Seq<Individual<T>>,
    size: nat,
)
    requires
        from.to_multiset() == to.to_multiset(),
        all_valid(from, size),
    ensures
        all_valid(to, size),
{
    assert forall|i: int| 0 <= i < to.len() implies {
        &&& (#[trigger] to[i]).genotype.wf()
        &&& to[i].genotype.size() == size
    } by {
        assert(to.contains(to[i]));
        lemma_permutation_contains(to, from, to[i]);
    }
}

/// Being evaluated survives a reordering.
proof fn lemma_permutation_keeps_evaluated<T: Genotype + Phenotype>(
    from: Seq<Individual<T>>,
    to: Seq<Individual<T>>,
    context: Option<T::Context>,
)
    requires
        from.to_multiset() == to.to_multiset(),
        all_evaluated(from, context),
    ensures
        all_evaluated(to, context),
{
    assert forall|i: int| 0 <= i < to.len() implies (#[trigger] to[i]).evaluated(context) by {
        assert(to.contains(to[i]));
        lemma_permutation_contains(to, from, to[i]);
    }
}

/// Individuals of one size can be evaluated, all or none.
proof fn lemma_evaluable_alike<T: Genotype + Phenotype>(
    population: Seq<Individual<T>>,
    size: nat,
    context: Option<T::Context>,
)
    requires
        population.len() > 0,
        all_valid(population, size),
    ensures
        all_evaluable(population, context) == T::evaluable(size, context),
{
    assert(population[0].genotype.size() == size);
}

/// The individual that leads a population after the evaluate phase is at
/// least as good as every individual was to be.
proof fn lemma_leader_is_best<T: Genotype + Phenotype>(
    start: PopulationState<T>,
    after: PopulationState<T>,
)
    requires
        start.wf(),
        after.evaluated_from(start),
    ensures
        after.keeps_best_of(start),
{
    let leader = after.individuals[0];
    let before = scored(start.individuals, start.context);
    assert forall|i: int| 0 <= i < start.individuals.len() implies better_or_equal(
        leader.fitness,
        (#[trigger] start.individuals[i]).genotype.score(start.context),
        start.options.minimize,
    ) by {
        if start.ready {
            assert(start.individuals[i].evaluated(start.context));
        } else {
            assert(before[i] == scored_one(start.individuals[i], start.context));
            assert(before.contains(before[i]));
            lemma_permutation_contains(before, after.individuals, before[i]);
            let k = choose|k: int|
                0 <= k < after.individuals.len() && after.individuals[k] == before[i];
            assert(better_or_equal(
                leader.fitness,
                after.individuals[k].fitness,
                start.options.minimize,
            ));
        }
    }
}

/// What holds of every individual of a pool holds of every individual of a
/// reordering of it.
proof fn lemma_permutation_keeps<T>(
    pool: Seq<Individual<T>>,
    reordered: Seq<Individual<T>>,
    holds: spec_fn(Individual<T>) -> bool,
)
    requires
        reordered.to_multiset() == pool.to_multiset(),
        forall|i: int| 0 <= i < pool.len() ==> holds(#[trigger] pool[i]),
    ensures
        forall|i: int| 0 <= i < reordered.len() ==> holds(#[trigger] reordered[i]),
{
    assert forall|i: int| 0 <= i < reordered.len() implies holds(#[trigger] reordered[i]) by {
        assert(reordered.contains(reordered[i]));
        lemma_permutation_contains(reordered, pool, reordered[i]);
    }
}

/// In a reordering of a pool that ends with the elite, the elite has a
/// place, and what holds of every other individual of the pool holds of the
/// individual in every other place.
proof fn lemma_elite_among_offspring<T>(
    pool: Seq<Individual<T>>,
    reordered: Seq<Individual<T>>,
    holds: spec_fn(Individual<T>) -> bool,
) -> (place: int)
    requires
        pool.len() > 0,
        reordered.to_multiset() == pool.to_multiset(),
        forall|i: int| 0 <= i < pool.len() - 1 ==> holds(#[trigger] pool[i]),
    ensures
        0 <= place < reordered.len(),
        reordered[place] == pool.last(),
        forall|i: int| 0 <= i < reordered.len() && i != place ==> holds(#[trigger] reordered[i]),
{
    let last = pool.len() - 1;
    assert(pool.contains(pool[last]));
    lemma_permutation_contains(pool, reordered, pool[last]);
    let place = choose|k: int| 0 <= k < reordered.len() && reordered[k] == pool[last];
    let offspring = pool.remove(last);
    let others = reordered.remove(place);
    to_multiset_remove(pool, last);
    to_multiset_remove(reordered, place);
    assert forall|i: int| 0 <= i < offspring.len() implies holds(#[trigger] offspring[i]) by {
        assert(offspring[i] == pool[i]);
    }
    lemma_permutation_keeps(offspring, others, holds);
    assert forall|i: int| 0 <= i < reordered.len() && i != place implies holds(#[trigger] reordered[i],
    ) by {
        let moved = if i < place {
            i
        } else {
            i - 1
        };
        assert(others[moved] == reordered[i]);
    }
    place
}

/// The totals of `generation` generations fit their counters, and grow by
/// one population at most with each generation.
proof fn lemma_generation_counted(generation: int, population: int)
    requires
        0 < generation <= i32::MAX,
        0 <= population <= usize::MAX,
    ensures
        (generation - 1) * population + population == generation * population,
        generation * population <= i32::MAX * usize::MAX,
{
    assert((generation - 1) * population + population == generation * population)
        by (nonlinear_arith);
    assert(generation * population <= i32::MAX * usize::MAX) by (nonlinear_arith)
        requires
            0 <= generation <= i32::MAX,
            0 <= population <= usize::MAX,
    ;
}

/// Breeds a pool of `options.population` offspring from a population: each
/// one from a parent selected by roulette wheel, crossed with a second
/// selected parent with probability `options.crossover_rate` and with itself
/// otherwise. Returns the pool and the number of two-parent crossovers.
fn breed<T: Genotype + Phenotype>(
    population: &Vec<Individual<T>>,
    options: &Options,
    total: u128,
    generation: i32,
    rng: &mut ThreadRng,
) -> (bred: (Vec<Individual<T>>, usize))
    requires
        options.valid(),
        population@.len() > 0,
        all_valid(population@, options.problem_size as nat),
    ensures
        bred.0@.len() == options.population,
        all_valid(bred.0@, options.problem_size as nat),
        forall|i: int|
            0 <= i < bred.0@.len() ==> {
                &&& (#[trigger] bred.0@[i]).fitness == 0
                &&& bred.0@[i].generation == generation
                &&& offspring_of(population@, options.minimize, total as int, bred.0@[i].genotype)
            },
        bred.1 <= options.population,
        options.crossover_rate == 0 ==> bred.1 == 0,
        options.crossover_rate == RATE_ONE ==> bred.1 == options.population,
{
    let mut pool: Vec<Individual<T>> = Vec::with_capacity(options.population);
    let mut crossovers: usize = 0;
    while pool.len() < options.population
        invariant
            options.valid(),
            population@.len() > 0,
            all_valid(population@, options.problem_size as nat),
            pool@.len() <= options.population,
            all_valid(pool@, options.problem_size as nat),
            forall|i: int|
                0 <= i < pool@.len() ==> {
                    &&& (#[trigger] pool@[i]).fitness == 0
                    &&& pool@[i].generation == generation
                    &&& offspring_of(population@, options.minimize, total as int, pool@[i].genotype)
                },
            crossovers <= pool@.len(),
            options.crossover_rate == 0 ==> crossovers == 0,
            options.crossover_rate == RATE_ONE ==> crossovers == pool@.len(),
        decreases options.population - pool@.len(),
    {
        let a: usize = roulette_wheel_select(population, total, options.minimize, rng);
        let individual_a = &population[a];
        let offspring = if random_ratio(rng, options.crossover_rate, RATE_ONE) {
            crossovers += 1;
            let b: usize = roulette_wheel_select(population, total, options.minimize, rng);
            let individual_b = &population[b];
            let child = individual_a.crossover(individual_b, generation, rng);
            assert(bred_from(
                population@,
                options.minimize,
                total as int,
                a as int,
                b as int,
                child.genotype,
            ));
            child
        } else {
            let child = individual_a.crossover(individual_a, generation, rng);
            assert(bred_from(
                population@,
                options.minimize,
                total as int,
                a as int,
                a as int,
                child.genotype,
            ));
            child
        };
        pool.push(offspring);
    }
    (pool, crossovers)
}

impl<T: Genotype + Phenotype> StandardPopulation<T> {
    /// The parameters of the run.
    pub fn options(&self) -> (options: &Options)
        ensures
            *options == self@.options,
    {
        &self.options
    }

    /// The counters of the run.
    pub fn stats(&self) -> (stats: &EvolutionStats)
        ensures
            *stats == self@.stats,
    {
        &self.stats
    }

    /// The individuals, in population order.
    pub fn individuals(&self) -> (individuals: &Vec<Individual<T>>)
        ensures
            individuals@ == self@.individuals,
    {
        &self.population
    }

    /// The context handed to fitness evaluation, if one was supplied.
    pub fn context(&self) -> (context: &Option<T::Context>)
        ensures
            *context == self@.context,
    {
        &self.context
    }

    /// The first individual of the population: the best one as soon as the
    /// population is evaluated and sorted.
    pub fn best(&self) -> (best: &Individual<T>)
        requires
            self@.wf(),
        ensures
            *best == self@.individuals[0],
    {
        &self.population[0]
    }

    /// Whether the individuals are evaluated and sorted.
    pub fn is_ready(&self) -> (ready: bool)
        ensures
            ready == self@.ready,
    {
        self.ready
    }

    /// Whether the configured strategies have an algorithm.
    pub fn is_implemented(&self) -> (implemented: bool)
        ensures
            implemented == self@.implemented(),
    {
        let roulette = match self.options.parent_selection {
            ParentSelection::RouletteWheel => true,
            _ => false,
        };
        let generational = match self.options.population_model {
            PopulationModel::Generational => true,
            PopulationModel::SteadyState => false,
        };
        roulette && generational
    }

    /// Whether the run is over.
    pub fn is_finished(&self) -> (finished: bool)
        ensures
            finished == self@.finished(),
    {
        let reached = is_better_or_equal(
            self.stats.fitness,
            self.options.target_fitness,
            self.options.minimize,
        );
        let spent = self.options.max_generations > 0 && self.stats.generation as i64
            >= self.options.max_generations as i64;
        self.stats.generation > 0 && (spent || reached)
    }

    /// Supplies the context that fitness evaluation reads. Fitness values
    /// computed before are stale from now on.
    pub fn set_context(&mut self, context: T::Context)
        requires
            old(self)@.wf(),
        ensures
            final(self)@.wf(),
            final(self)@ == (PopulationState {
                context: Some(context),
                ready: false,
                ..old(self)@
            }),
    {
        self.context = Some(context);
        self.ready = false;
    }

    /// Records the elapsed time of the run and decides whether a status
    /// report is due: one is due when more than a second has passed since
    /// the last report that was due. Nothing else changes.
    pub fn report_due(&mut self, elapsed_millis: u64) -> (due: bool)
        ensures
            due == (elapsed_millis > old(self)@.last_report + 1000),
            final(self)@ == (PopulationState {
                stats: EvolutionStats { elapsed_millis, ..old(self)@.stats },
                last_report: if due {
                    elapsed_millis
                } else {
                    old(self)@.last_report
                },
                ..old(self)@
            }),
            old(self)@.wf() ==> final(self)@.wf(),
    {
        self.stats.elapsed_millis = elapsed_millis;
        let due = elapsed_millis > self.last_report && elapsed_millis - self.last_report > 1000;
        if due {
            self.last_report = elapsed_millis;
        }
        due
    }

    /// The evaluate phase: brings the fitness of every individual up to
    /// date and sorts the population, best individual first. A population
    /// that is evaluated and sorted already stays as it is. Without the
    /// context that evaluation needs, nothing changes.
    pub fn evaluate_fitness(&mut self) -> (result: Result<(), EvolutionError>)
        requires
            old(self)@.wf(),
        ensures
            final(self)@.wf(),
            old(self)@.runnable() ==> {
                &&& result is Ok
                &&& final(self)@.evaluated_from(old(self)@)
            },
            !old(self)@.runnable() ==> {
                &&& result == Err::<(), EvolutionError>(EvolutionError::MissingContext)
                &&& final(self)@ == old(self)@
            },
    {
        if self.ready {
            return Ok(());
        }
        let ghost start = self.population@;
        proof {
            lemma_evaluable_alike(start, self.options.problem_size as nat, self.context);
        }
        match evaluate(&mut self.population, &self.context) {
            Ok(()) => {},
            Err(error) => {
                assert(self.population@ =~= start);
                return Err(error);
            },
        }
        let ghost evaluated = self.population@;
        sort(&mut self.population, !self.options.minimize);
        self.ready = true;
        proof {
            assert(all_valid(evaluated, self.options.problem_size as nat));
            assert(all_evaluated(evaluated, self.context));
            lemma_permutation_keeps_valid(
                evaluated,
                self.population@,
                self.options.problem_size as nat,
            );
            lemma_permutation_keeps_evaluated(evaluated, self.population@, self.context);
        }
        Ok(())
    }

    /// Advances to the next generation. The population is evaluated and
    /// sorted first, if it is not yet. Then a candidate pool is bred,
    /// mutated, completed by the elite, evaluated and sorted, and replaces
    /// the population; the counters are brought up to date. Where a
    /// configured strategy has no algorithm, or evaluation lacks its
    /// context, nothing changes.
    pub fn next(&mut self) -> (result: Result<(), EvolutionError>)
        requires
            old(self)@.wf(),
            old(self)@.stats.generation < i32::MAX,
        ensures
            final(self)@.wf(),
            !old(self)@.implemented() ==> {
                &&& result == Err::<(), EvolutionError>(EvolutionError::NotImplemented)
                &&& final(self)@ == old(self)@
            },
            old(self)@.implemented() && !old(self)@.runnable() ==> {
                &&& result == Err::<(), EvolutionError>(EvolutionError::MissingContext)
                &&& final(self)@ == old(self)@
            },
            old(self)@.implemented() && old(self)@.runnable() ==> {
                &&& result is Ok
                &&& final(self)@.advanced_from(old(self)@)
            },
    {
        if !self.is_implemented() {
            return Err(EvolutionError::NotImplemented);
        }
        let ghost start = self@;
        match self.evaluate_fitness() {
            Ok(()) => {},
            Err(error) => {
                return Err(error);
            },
        }
        let ghost parents = self@;
        proof {
            lemma_leader_is_best(start, parents);
        }
        self.stats.generation += 1;
        self.stats.mutations = 0;
        self.stats.crossovers = 0;
        let total: u128 = total_fitness(&self.population, self.options.minimize);
        let ghost generation = self.stats.generation;
        let ghost offspring = |child: Individual<T>|
            {
                &&& child.generation == generation
                &&& descends_from(
                    parents.individuals,
                    parents.options.minimize,
                    total_weight(parents.individuals, parents.options.minimize),
                    child.genotype,
                )
            };
        let ghost breeding = self@;
        let mut new_generation = match self.select_parents(total) {
            Ok(pool) => pool,
            Err(error) => {
                return Err(error);
            },
        };
        let ghost pool = new_generation@;
        proof {
            lemma_evaluable_alike(pool, self.options.problem_size as nat, self.context);
        }
        match evaluate(&mut new_generation, &self.context) {
            Ok(()) => {},
            Err(error) => {
                return Err(error);
            },
        }
        let ghost evaluated = new_generation@;
        sort(&mut new_generation, !self.options.minimize);
        match self.select_survivors(new_generation) {
            Ok(()) => {},
            Err(error) => {
                return Err(error);
            },
        }
        self.stats.fitness = self.population[0].fitness;
        proof {
            assert(all_valid(evaluated, self.options.problem_size as nat));
            assert(all_evaluated(evaluated, self.context));
            lemma_permutation_keeps_valid(
                evaluated,
                self.population@,
                self.options.problem_size as nat,
            );
            lemma_permutation_keeps_evaluated(evaluated, self.population@, self.context);
            lemma_generation_counted(
                self.stats.generation as int,
                self.options.population as int,
            );
        }
        self.stats.total_mutations = self.stats.total_mutations + self.stats.mutations as u128;
        self.stats.total_crossovers = self.stats.total_crossovers + self.stats.crossovers as u128;
        proof {
            let bound = if self.options.no_elitism {
                evaluated.len() as int
            } else {
                evaluated.len() - 1
            };
            assert forall|i: int| 0 <= i < bound implies offspring(#[trigger] evaluated[i]) by {
                assert(evaluated[i] == scored_one(pool[i], self.context));
                assert(breeding.begot_in(total, generation, pool[i]));
            }
            if self.options.no_elitism {
                lemma_permutation_keeps(evaluated, self.population@, offspring);
                let bred = self@;
                assert forall|i: int| 0 <= i < bred.individuals.len() implies #[trigger]
                    bred.offspring_at(parents, i) by {
                    assert(offspring(self.population@[i]));
                }
            } else {
                let elite = parents.individuals[0];
                assert(elite.evaluated(self.context));
                assert(evaluated.last() == elite);
                let place = lemma_elite_among_offspring(evaluated, self.population@, offspring);
                assert(better_or_equal(
                    self.population@[0].fitness,
                    self.population@[place].fitness,
                    self.options.minimize,
                ));
                let bred = self@;
                assert forall|i: int|
                    0 <= i < bred.individuals.len() && i != place implies #[trigger]
                    bred.offspring_at(parents, i) by {
                    assert(offspring(self.population@[i]));
                }
                assert(self@.elite_at(parents, place));
            }
            assert(parents.evaluated_from(start) && parents.wf() && self@.bred_out_of(parents));
        }
        Ok(())
    }

    /// Selects parents and produces the candidate pool of the next
    /// generation: breeds `options.population` offspring, mutates each with
    /// probability `options.mutation_rate`, and, unless elitism is off,
    /// replaces the last offspring by the first individual of the current
    /// population, which is moved out of it. A strategy other than the
    /// roulette wheel has no algorithm and changes nothing.
    fn select_parents(&mut self, total_fitness: u128) -> (result: Result<
        Vec<Individual<T>>,
        EvolutionError,
    >)
        requires
            old(self).options.valid(),
            old(self).population@.len() == old(self).options.population,
            all_valid(old(self).population@, old(self).options.problem_size as nat),
            old(self).stats.crossovers == 0,
        ensures
            final(self).options == old(self).options,
            final(self).context == old(self).context,
            final(self).ready == old(self).ready,
            final(self).last_report == old(self).last_report,
            old(self).options.parent_selection != ParentSelection::RouletteWheel ==> {
                &&& result == Err::<Vec<Individual<T>>, EvolutionError>(
                    EvolutionError::NotImplemented,
                )
                &&& final(self).stats == old(self).stats
                &&& final(self).population@ == old(self).population@
            },
            old(self).options.parent_selection == ParentSelection::RouletteWheel ==> {
                &&& result matches Ok(pool)
                &&& pool@.len() == old(self).options.population
                &&& all_valid(pool@, old(self).options.problem_size as nat)
                &&& final(self).stats == (EvolutionStats {
                    mutations: final(self).stats.mutations,
                    crossovers: final(self).stats.crossovers,
                    ..old(self).stats
                })
                &&& final(self).stats.mutations <= old(self).options.population
                &&& final(self).stats.crossovers <= old(self).options.population
                &&& final(self)@.counts_follow_rates()
                &&& old(self).options.no_elitism ==> {
                    &&& final(self).population@ == old(self).population@
                    &&& forall|i: int|
                        0 <= i < pool@.len() ==> #[trigger] old(self)@.begot_in(
                            total_fitness,
                            old(self).stats.generation,
                            pool@[i],
                        )
                }
                &&& !old(self).options.no_elitism ==> {
                    &&& final(self).population@ == old(self).population@.drop_first()
                    &&& pool@.last() == old(self).population@[0]
                    &&& forall|i: int|
                        0 <= i < pool@.len() - 1 ==> #[trigger] old(self)@.begot_in(
                            total_fitness,
                            old(self).stats.generation,
                            pool@[i],
                        )
                }
            },
    {
        let mut new_population: Vec<Individual<T>>;
        match self.options.parent_selection {
            ParentSelection::RouletteWheel => {
                let (pool, crossovers) = breed(
                    &self.population,
                    &self.options,
                    total_fitness,
                    self.stats.generation,
                    &mut self.rng,
                );
                new_population = pool;
                self.stats.crossovers = crossovers;
            },
            _ => {
                return Err(EvolutionError::NotImplemented);
            },
        }
        let ghost bred = new_population@;
        // Mutate offspring
        self.stats.mutations = mutate(
            &mut new_population,
            self.options.mutation_rate,
            &mut self.rng,
        );
        proof {
            assert forall|i: int| 0 <= i < new_population@.len() implies #[trigger] old(self)@.begot_in(
                total_fitness,
                old(self).stats.generation,
                new_population@[i],
            ) by {
                assert(offspring_of(
                    old(self).population@,
                    self.options.minimize,
                    total_fitness as int,
                    bred[i].genotype,
                ));
            }
        }
        // If we have elitism, replace one individual with the best from the existing population
        if !self.options.no_elitism {
            new_population.pop();
            let elite = self.population.remove(0);
            new_population.push(elite);
        }
        Ok(new_population)
    }

    /// Selects the survivors of this generation. The population model
    /// decides whether the whole generation is replaced or the generations
    /// are mixed: in a generational population the new generation replaces
    /// the old one as it is; mixing has no algorithm and changes nothing.
    fn select_survivors(&mut self, new_generation: Vec<Individual<T>>) -> (result: Result<
        (),
        EvolutionError,
    >)
        ensures
            final(self).options == old(self).options,
            final(self).context == old(self).context,
            final(self).ready == old(self).ready,
            final(self).last_report == old(self).last_report,
            final(self).stats == old(self).stats,
            old(self).options.population_model == PopulationModel::Generational ==> {
                &&& result is Ok
                &&& final(self).population@ == new_generation@
            },
            old(self).options.population_model != PopulationModel::Generational ==> {
                &&& result == Err::<(), EvolutionError>(EvolutionError::NotImplemented)
                &&& final(self).population@ == old(self).population@
            },
    {
        match self.options.population_model {
            PopulationModel::SteadyState => Err(EvolutionError::NotImplemented),
            PopulationModel::Generational => {
                self.population = new_generation;
                Ok(())
            },
        }
    }
}

/// Implementation of the population interface for the standard population.
impl<T: Genotype + Phenotype> Population for StandardPopulation<T> {
    open spec fn wf(&self) -> bool {
        self@.wf()
    }

    /// Creates a population of `options.population` random individuals, each
    /// with fitness `0` and generation `0`, no context, and counters at zero.
    /// Fails on invalid run parameters and on a problem that the
    /// representation cannot encode.
    fn new(options: Options) -> (created: Result<Self, EvolutionError>)
        ensures
            !options.valid() || !T::supports(&options) ==> created == Err::<Self, EvolutionError>(
                EvolutionError::Configuration,
            ),
            options.valid() && T::supports(&options) ==> {
                &&& created matches Ok(population)
                &&& population@.fresh(options)
            },
    {
        if !options.is_valid() || !T::accepts(&options) {
            return Err(EvolutionError::Configuration);
        }
        let mut rng = system_rng();
        let mut population: Vec<Individual<T>> = Vec::with_capacity(options.population);
        while population.len() < options.population
            invariant
                T::supports(&options),
                population@.len() <= options.population,
                all_valid(population@, options.problem_size as nat),
                forall|i: int|
                    0 <= i < population@.len() ==> {
                        &&& (#[trigger] population@[i]).fitness == 0
                        &&& population@[i].generation == 0
                    },
            decreases options.population - population@.len(),
        {
            population.push(
                Individual { generation: 0, fitness: 0, genotype: T::new(&mut rng, &options) },
            );
        }
        Ok(
            StandardPopulation {
                population,
                stats: EvolutionStats::new(options.max_generations),
                rng,
                options,
                context: None,
                ready: false,
                last_report: 0,
            },
        )
    }

    /// Evolves the population: produces generation after generation, at
    /// least one, until the run is finished. A run without a generation
    /// budget also ends when the generation counter can count no further;
    /// with the counter at its end from the start, nothing is done.
    fn evolve(&mut self) -> (result: Result<(), EvolutionError>)
        ensures
            old(self)@.stats.generation == i32::MAX ==> {
                &&& result is Ok
                &&& final(self)@ == old(self)@
            },
            old(self)@.stats.generation < i32::MAX ==> {
                &&& !old(self)@.implemented() ==> {
                    &&& result == Err::<(), EvolutionError>(EvolutionError::NotImplemented)
                    &&& final(self)@ == old(self)@
                }
                &&& old(self)@.implemented() && !old(self)@.runnable() ==> {
                    &&& result == Err::<(), EvolutionError>(EvolutionError::MissingContext)
                    &&& final(self)@ == old(self)@
                }
                &&& old(self)@.implemented() && old(self)@.runnable() ==> {
                    &&& result is Ok
                    &&& final(self)@.evolved_from(old(self)@)
                    &&& final(self)@.finished() || final(self)@.stats.generation == i32::MAX
                }
            },
    {
        if self.stats.generation == i32::MAX {
            return Ok(());
        }
        let ghost start = self@;
        let ghost mut states = seq![start];
        loop
            invariant_except_break
                self@.stats.generation < i32::MAX,
                self@.stats.generation == start.stats.generation ==> self@ == start,
                self@.stats.generation > start.stats.generation ==> !self@.finished(),
            invariant
                self@.wf(),
                start.wf(),
                start == old(self)@,
                start.stats.generation < i32::MAX,
                self@.stats.generation >= start.stats.generation,
                states.len() == 1 + self@.stats.generation - start.stats.generation,
                states.first() == start,
                states.last() == self@,
                forall|i: int|
                    0 < i < states.len() ==> (#[trigger] states[i]).advanced_from(states[i - 1]),
                forall|i: int| 0 < i < states.len() - 1 ==> !(#[trigger] states[i]).finished(),
                self@.stats.generation > start.stats.generation ==> {
                    &&& start.implemented()
                    &&& start.runnable()
                    &&& self@.evolved_from(start)
                },
            ensures
                self@.stats.generation > start.stats.generation,
                self@.finished() || self@.stats.generation == i32::MAX,
            decreases i32::MAX - self@.stats.generation,
        {
            let ghost before = self@;
            match self.next() {
                Ok(()) => {},
                Err(error) => {
                    return Err(error);
                },
            }
            proof {
                let earlier = states;
                states = states.push(self@);
                assert forall|i: int| 0 < i < states.len() implies (
                    #[trigger] states[i]
                ).advanced_from(states[i - 1]) by {
                    if i < earlier.len() {
                        assert(states[i] == earlier[i]);
                        assert(states[i - 1] == earlier[i - 1]);
                    }
                }
                assert forall|i: int| 0 < i < states.len() - 1 implies !(
                    #[trigger] states[i]
                ).finished() by {
                    assert(states[i] == earlier[i]);
                }
                assert(is_run(states, start, self@));
                let population = start.options.population as int;
                let ran = before.stats.generation - start.stats.generation;
                assert((ran + 1) * population == ran * population + population)
                    by (nonlinear_arith);
                assert(0 * population == 0);
                if !start.options.no_elitism {
                    assert forall|i: int| 0 <= i < start.individuals.len() implies better_or_equal(
                        self@.individuals[0].fitness,
                        (#[trigger] start.individuals[i]).genotype.score(start.context),
                        start.options.minimize,
                    ) by {
                        if before.stats.generation > start.stats.generation {
                            assert(before.individuals[0].evaluated(start.context));
                        }
                    }
                }
            }
            if self.is_finished() || self.stats.generation == i32::MAX {
                break ;
            }
        }
        Ok(())
    }
}

} // verus!
