//! Fitness-proportional selection: the roulette wheel.

use crate::ea::individual::Individual;
use crate::random::random_threshold;
use rand::rngs::ThreadRng;
use vstd::prelude::*;

verus! {

/// The weight, when lower fitness is better, of an individual whose fitness
/// is the smallest positive one. Weights under minimization are reciprocals
/// of the fitness in units of `10^-12`, which leaves a long round trip a
/// weight of several digits.
pub const WEIGHT_SCALE: u64 = 1_000_000_000_000_000_000;

/// The share of the wheel that a fitness earns: the fitness itself when
/// higher is better, its fixed-point reciprocal when lower is better. A
/// fitness of zero under minimization gets the largest weight there is.
pub open spec fn selection_weight(fitness: u64, minimize: bool) -> u64 {
    if !minimize {
        fitness
    } else if fitness == 0 {
        u64::MAX
    } else {
        (WEIGHT_SCALE / fitness) as u64
    }
}

/// The summed weight of the first `count` individuals.
pub open spec fn cumulative_weight<T>(
    population: Seq<Individual<T>>,
    minimize: bool,
    count: int,
) -> int
    decreases count,
{
    if count <= 0 {
        0
    } else {
        cumulative_weight(population, minimize, count - 1) + selection_weight(
            population[count - 1].fitness,
            minimize,
        )
    }
}

/// The summed weight of the whole population.
pub open spec fn total_weight<T>(population: Seq<Individual<T>>, minimize: bool) -> int {
    cumulative_weight(population, minimize, population.len() as int)
}

/// Whether the wheel, turned to `threshold`, stops at `index`: the first
/// index at which the cumulative weight reaches the threshold, or `0` when
/// no index does.
pub open spec fn wheel_stops_at<T>(
    population: Seq<Individual<T>>,
    minimize: bool,
    threshold: int,
    index: int,
) -> bool {
    if exists|i: int|
        0 <= i < population.len() && #[trigger] cumulative_weight(population, minimize, i + 1)
            >= threshold {
        &&& 0 <= index < population.len()
        &&& cumulative_weight(population, minimize, index + 1) >= threshold
        &&& forall|i: int|
            0 <= i < index ==> #[trigger] cumulative_weight(population, minimize, i + 1) < threshold
    } else {
        index == 0
    }
}

/// Whether a wheel of total weight `total` can stop at `index`: some
/// threshold below the total stops there. A wheel without weight, or with
/// nobody on it, stops at `0`.
pub open spec fn wheel_can_select<T>(
    population: Seq<Individual<T>>,
    minimize: bool,
    total: int,
    index: int,
) -> bool {
    if total <= 0 || population.len() == 0 {
        index == 0
    } else {
        exists|threshold: int|
            0 <= threshold < total && #[trigger] wheel_stops_at(
                population,
                minimize,
                threshold,
                index,
            )
    }
}

/// The cumulative weight never decreases and stays below what `count`
/// weights can hold.
pub proof fn lemma_cumulative_weight_bounds<T>(
    population: Seq<Individual<T>>,
    minimize: bool,
    count: int,
)
    requires
        0 <= count,
    ensures
        0 <= cumulative_weight(population, minimize, count) <= count * u64::MAX,
        count > 0 ==> cumulative_weight(population, minimize, count - 1) <= cumulative_weight(
            population,
            minimize,
            count,
        ),
    decreases count,
{
    if count > 0 {
        lemma_cumulative_weight_bounds(population, minimize, count - 1);
        assert((count - 1) * u64::MAX + u64::MAX == count * u64::MAX) by (nonlinear_arith);
    }
}

/// A wheel turned to zero stops at the first individual.
pub proof fn lemma_zero_threshold_selects_first<T>(
    population: Seq<Individual<T>>,
    minimize: bool,
    index: int,
)
    requires
        wheel_stops_at(population, minimize, 0, index),
    ensures
        index == 0,
{
    if population.len() > 0 {
        lemma_cumulative_weight_bounds(population, minimize, 1);
        assert(cumulative_weight(population, minimize, 0int + 1) >= 0);
    }
}

/// A wheel turned to the total weight stops at the last individual, as long
/// as that individual has any weight at all.
pub proof fn lemma_full_threshold_selects_last<T>(
    population: Seq<Individual<T>>,
    minimize: bool,
    index: int,
)
    requires
        population.len() > 0,
        selection_weight(population.last().fitness, minimize) > 0,
        wheel_stops_at(population, minimize, total_weight(population, minimize), index),
    ensures
        index == population.len() - 1,
{
    let last = population.len() - 1;
    let total = total_weight(population, minimize);
    assert(cumulative_weight(population, minimize, last + 1) >= total);
    assert forall|i: int| 0 <= i < last implies #[trigger] cumulative_weight(
        population,
        minimize,
        i + 1,
    ) < total by {
        lemma_cumulative_weight_monotonic(population, minimize, i + 1, last);
    }
}

/// The cumulative weight of fewer individuals is not above that of more.
pub proof fn lemma_cumulative_weight_monotonic<T>(
    population: Seq<Individual<T>>,
    minimize: bool,
    fewer: int,
    more: int,
)
    requires
        0 <= fewer <= more,
    ensures
        cumulative_weight(population, minimize, fewer) <= cumulative_weight(
            population,
            minimize,
            more,
        ),
    decreases more - fewer,
{
    if fewer < more {
        lemma_cumulative_weight_monotonic(population, minimize, fewer, more - 1);
        lemma_cumulative_weight_bounds(population, minimize, more);
    }
}

/// Computes `selection_weight`.
pub fn weight_of(fitness: u64, minimize: bool) -> (weight: u64)
    ensures
        weight == selection_weight(fitness, minimize),
{
    if !minimize {
        fitness
    } else if fitness == 0 {
        u64::MAX
    } else {
        WEIGHT_SCALE / fitness
    }
}

/// Sums the selection weights of a population.
pub fn total_fitness<T>(population: &Vec<Individual<T>>, minimize: bool) -> (total: u128)
    ensures
        total == total_weight(population@, minimize),
{
    let mut total: u128 = 0;
    let mut i: usize = 0;
    while i < population.len()
        invariant
            i <= population@.len(),
            total == cumulative_weight(population@, minimize, i as int),
        decreases population@.len() - i,
    {
        proof {
            lemma_cumulative_weight_bounds(population@, minimize, i as int);
            assert(i * u64::MAX + u64::MAX <= u128::MAX) by (nonlinear_arith)
                requires
                    i <= usize::MAX,
            ;
        }
        total = total + weight_of(population[i].fitness, minimize) as u128;
        i += 1;
    }
    total
}

/// Finds where the wheel stops for a given threshold: walks the population
/// accumulating weights and returns the first index at which the running sum
/// reaches the threshold, or `0` if it never does.
pub fn roulette_wheel_index<T>(
    population: &Vec<Individual<T>>,
    threshold: u128,
    minimize: bool,
) -> (index: usize)
    ensures
        wheel_stops_at(population@, minimize, threshold as int, index as int),
{
    let mut sum: u128 = 0;
    let mut i: usize = 0;
    while i < population.len()
        invariant
            i <= population@.len(),
            sum == cumulative_weight(population@, minimize, i as int),
            forall|k: int|
                0 <= k < i ==> #[trigger] cumulative_weight(population@, minimize, k + 1)
                    < threshold,
        decreases population@.len() - i,
    {
        proof {
            lemma_cumulative_weight_bounds(population@, minimize, i as int);
            assert(i * u64::MAX + u64::MAX <= u128::MAX) by (nonlinear_arith)
                requires
                    i <= usize::MAX,
            ;
        }
        sum = sum + weight_of(population[i].fitness, minimize) as u128;
        if sum >= threshold {
            return i;
        }
        i += 1;
    }
    0
}

/// Selects a parent by roulette wheel: draws a threshold below the total
/// weight `total` and returns the index at which the wheel stops. With no
/// weight to draw from, or nobody to select, the result is `0`.
pub fn roulette_wheel_select<T>(
    population: &Vec<Individual<T>>,
    total: u128,
    minimize: bool,
    rng: &mut ThreadRng,
) -> (index: usize)
    ensures
        wheel_can_select(population@, minimize, total as int, index as int),
        population@.len() > 0 ==> index < population@.len(),
{
    if total == 0 || population.len() == 0 {
        return 0;
    }
    let threshold: u128 = random_threshold(rng, total);
    let index: usize = roulette_wheel_index(population, threshold, minimize);
    assert(wheel_stops_at(population@, minimize, threshold as int, index as int));
    index
}

} // verus!
