//! Problem representations that the engine can evolve, and the populations
//! of each.

pub mod eightqueens;
pub mod nqueens;
pub mod tsp;

pub use eightqueens::EightQueens;
pub use nqueens::NQueens;
pub use tsp::{DistanceTable, TravelingSalesman};

use crate::ea::population::{Population, StandardPopulation};
use crate::options::{EvolutionError, Options};
use crate::problems::nqueens::MAX_BOARD;
use crate::problems::tsp::{create_random_cities, is_table_of, MIN_CITIES};
use vstd::prelude::*;

verus! {

/// The genome of an offspring of one-point crossover: the places before
/// `index` come from the first parent, the places from `index` on from the
/// second.
pub open spec fn crossed<A>(first: Seq<A>, second: Seq<A>, index: int) -> Seq<A> {
    first.take(index) + second.skip(index)
}

/// An offspring of parents of one length has their length, and matches the
/// first parent before the index and the second from the index on.
pub proof fn lemma_crossed_by_position<A>(first: Seq<A>, second: Seq<A>, index: int)
    requires
        first.len() == second.len(),
        0 <= index <= first.len(),
    ensures
        crossed(first, second, index).len() == first.len(),
        forall|i: int| 0 <= i < index ==> #[trigger] crossed(first, second, index)[i] == first[i],
        forall|i: int|
            index <= i < first.len() ==> #[trigger] crossed(first, second, index)[i] == second[i],
{
}

/// Crossing a genome with itself, at whatever index, copies it: an
/// offspring that was bred from one parent alone is that parent again.
pub proof fn lemma_crossover_with_self<A>(genome: Seq<A>, index: int)
    requires
        0 <= index <= genome.len(),
    ensures
        crossed(genome, genome, index) == genome,
{
    assert(genome.take(index) + genome.skip(index) =~= genome);
}

/// The options of a traveling-salesman run: tours are never bred from two
/// parents, and the shortest tour is the best.
pub open spec fn tsp_options(options: Options) -> Options {
    Options { crossover_rate: 0, minimize: true, ..options }
}

/// Creates a population for the N-queens problem of the size that the
/// options name. Fails on invalid run parameters and on a board that is
/// narrower than two or wider than `MAX_BOARD`.
pub fn create_nqueens(options: Options) -> (created: Result<
    StandardPopulation<NQueens>,
    EvolutionError,
>)
    ensures
        !options.valid() || !(2 <= options.problem_size <= MAX_BOARD) ==> created is Err
            && created->Err_0 == EvolutionError::Configuration,
        options.valid() && 2 <= options.problem_size <= MAX_BOARD ==> {
            &&& created matches Ok(population)
            &&& population@.fresh(options)
            &&& population@.runnable()
        },
{
    StandardPopulation::<NQueens>::new(options)
}

/// Creates a population for the traveling salesman problem, and a map of
/// as many random cities as the options name. Crossover is switched off and
/// fitness is minimized, whatever the options say. The population has no
/// context yet: it runs once the distances are handed to it. Fails on
/// invalid run parameters (the crossover rate apart), on fewer than `MIN_CITIES` cities, and on more
/// cities than a table can hold distances for.
pub fn create_tsp(options: Options) -> (created: Result<
    (StandardPopulation<TravelingSalesman>, DistanceTable),
    EvolutionError,
>)
    ensures
        !tsp_options(options).valid() || options.problem_size < MIN_CITIES || options.problem_size
            * options.problem_size > usize::MAX ==> created is Err && created->Err_0
            == EvolutionError::Configuration,
        tsp_options(options).valid() && MIN_CITIES <= options.problem_size && options.problem_size
            * options.problem_size <= usize::MAX ==> {
            &&& created matches Ok((population, distances))
            &&& population@.fresh(tsp_options(options))
            &&& distances.width() == options.problem_size
            &&& exists|cities: Seq<(i32, i32)>| is_table_of(distances, cities)
        },
{
    let mut adjusted = options;
    // Don't have crossover yet
    adjusted.crossover_rate = 0;
    // Have to minimize fitness
    adjusted.minimize = true;
    assert(adjusted == tsp_options(options));
    if adjusted.problem_size.checked_mul(adjusted.problem_size).is_none() {
        return Err(EvolutionError::Configuration);
    }
    let distances = create_random_cities(adjusted.problem_size);
    let ghost cities = choose|cities: Seq<(i32, i32)>| is_table_of(distances, cities);
    let population = match StandardPopulation::<TravelingSalesman>::new(adjusted) {
        Ok(population) => population,
        Err(error) => {
            return Err(error);
        },
    };
    let created = (population, distances);
    assert(created.0@.fresh(tsp_options(options)));
    assert(is_table_of(created.1, cities));
    Ok(created)
}

} // verus!
