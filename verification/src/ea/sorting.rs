//! Ordering a population by fitness, best individual first.

use crate::ea::individual::Individual;
use vstd::prelude::*;
use vstd::seq_lib::{to_multiset_contains, to_multiset_insert, to_multiset_remove};

verus! {

/// Whether fitness `a` is at least as good as fitness `b`: not above it when
/// minimizing, not below it when maximizing.
pub open spec fn better_or_equal(a: u64, b: u64, minimize: bool) -> bool {
    if minimize {
        a <= b
    } else {
        a >= b
    }
}

/// Whether no individual is followed, anywhere later in the sequence, by a
/// strictly better one.
pub open spec fn sorted_best_first<T>(population: Seq<Individual<T>>, minimize: bool) -> bool {
    forall|i: int, j: int|
        0 <= i <= j < population.len() ==> better_or_equal(#[trigger] population[i].fitness,
            #[trigger] population[j].fitness,
            minimize,
        )
}

/// The individuals of the given fitness, in the order in which the
/// population holds them.
pub open spec fn with_fitness<T>(population: Seq<Individual<T>>, fitness: u64) -> Seq<
    Individual<T>,
>
    decreases population.len(),
{
    if population.len() == 0 {
        Seq::empty()
    } else {
        let before = with_fitness(population.drop_last(), fitness);
        if population.last().fitness == fitness {
            before.push(population.last())
        } else {
            before
        }
    }
}

/// Whether `after` holds the individuals of `before` with those of equal
/// fitness in their old order.
pub open spec fn same_order_among_equals<T>(
    before: Seq<Individual<T>>,
    after: Seq<Individual<T>>,
) -> bool {
    forall|fitness: u64| #[trigger] with_fitness(after, fitness) == with_fitness(before, fitness)
}

/// Tests `better_or_equal`.
pub fn is_better_or_equal(a: u64, b: u64, minimize: bool) -> (holds: bool)
    ensures
        holds == better_or_equal(a, b, minimize),
{
    if minimize {
        a <= b
    } else {
        a >= b
    }
}

/// In a sequence sorted best first every individual is at least as good as
/// its successor, and a sequence in which that holds of every adjacent pair
/// is sorted best first.
pub proof fn lemma_sorted_by_adjacent_pairs<T>(population: Seq<Individual<T>>, minimize: bool)
    ensures
        sorted_best_first(population, minimize) <==> forall|i: int|
            0 <= i && i + 1 < population.len() ==> better_or_equal(#[trigger] population[i].fitness,
                population[i + 1].fitness,
                minimize,
            ),
{
    if forall|i: int|
        0 <= i && i + 1 < population.len() ==> better_or_equal(#[trigger] population[i].fitness,
            population[i + 1].fitness,
            minimize,
        ) {
        assert forall|i: int, j: int| 0 <= i <= j < population.len() implies better_or_equal(
            #[trigger] population[i].fitness,
            #[trigger] population[j].fitness,
            minimize,
        ) by {
            lemma_adjacent_chain(population, minimize, i, j);
        }
    }
}

proof fn lemma_adjacent_chain<T>(population: Seq<Individual<T>>, minimize: bool, i: int, j: int)
    requires
        0 <= i <= j < population.len(),
        forall|k: int|
            0 <= k && k + 1 < population.len() ==> better_or_equal(#[trigger] population[k].fitness,
                population[k + 1].fitness,
                minimize,
            ),
    ensures
        better_or_equal(population[i].fitness, population[j].fitness, minimize),
    decreases j - i,
{
    if i < j {
        lemma_adjacent_chain(population, minimize, i, j - 1);
        assert(better_or_equal(population[j - 1].fitness, population[j - 1 + 1].fitness, minimize));
    }
}

/// The individuals of one fitness in a population made of two parts are
/// those of the first part followed by those of the second.
proof fn lemma_with_fitness_of_parts<T>(
    first: Seq<Individual<T>>,
    second: Seq<Individual<T>>,
    fitness: u64,
)
    ensures
        with_fitness(first + second, fitness) == with_fitness(first, fitness) + with_fitness(
            second,
            fitness,
        ),
    decreases second.len(),
{
    if second.len() == 0 {
        assert(first + second =~= first);
        assert(with_fitness(first, fitness) + with_fitness(second, fitness) =~= with_fitness(
            first,
            fitness,
        ));
    } else {
        assert((first + second).drop_last() =~= first + second.drop_last());
        lemma_with_fitness_of_parts(first, second.drop_last(), fitness);
        let kept = with_fitness(first, fitness) + with_fitness(second.drop_last(), fitness);
        if second.last().fitness == fitness {
            assert(kept.push(second.last()) =~= with_fitness(first, fitness) + with_fitness(
                second.drop_last(),
                fitness,
            ).push(second.last()));
        }
    }
}

/// A population without an individual of some fitness has nobody to show
/// for it.
proof fn lemma_with_fitness_of_others<T>(population: Seq<Individual<T>>, fitness: u64)
    requires
        forall|i: int| 0 <= i < population.len() ==> (#[trigger] population[i]).fitness != fitness,
    ensures
        with_fitness(population, fitness) == Seq::<Individual<T>>::empty(),
    decreases population.len(),
{
    if population.len() > 0 {
        let rest = population.drop_last();
        assert forall|i: int| 0 <= i < rest.len() implies (#[trigger] rest[i]).fitness
            != fitness by {
            assert(rest[i] == population[i]);
        }
        lemma_with_fitness_of_others(rest, fitness);
        assert(population.last() == population[population.len() - 1]);
    }
}

/// Moving an individual forward past individuals of other fitness keeps
/// the order among those of equal fitness.
proof fn lemma_move_keeps_order<T>(
    population: Seq<Individual<T>>,
    from: int,
    to: int,
    fitness: u64,
)
    requires
        0 <= to <= from < population.len(),
        forall|i: int|
            to <= i < from ==> (#[trigger] population[i]).fitness != population[from].fitness,
    ensures
        with_fitness(population.remove(from).insert(to, population[from]), fitness)
            == with_fitness(population, fitness),
{
    let head = population.take(to);
    let passed = population.subrange(to, from);
    let moved = seq![population[from]];
    let tail = population.skip(from + 1);
    assert(population =~= head + passed + moved + tail);
    assert(population.remove(from).insert(to, population[from]) =~= head + moved + passed + tail);
    lemma_with_fitness_of_parts(head + passed + moved, tail, fitness);
    lemma_with_fitness_of_parts(head + passed, moved, fitness);
    lemma_with_fitness_of_parts(head, passed, fitness);
    lemma_with_fitness_of_parts(head + moved + passed, tail, fitness);
    lemma_with_fitness_of_parts(head + moved, passed, fitness);
    lemma_with_fitness_of_parts(head, moved, fitness);
    if population[from].fitness == fitness {
        assert forall|i: int| 0 <= i < passed.len() implies (#[trigger] passed[i]).fitness
            != fitness by {
            assert(passed[i] == population[to + i]);
        }
        lemma_with_fitness_of_others(passed, fitness);
    } else {
        lemma_with_fitness_of_others(moved, fitness);
    }
    assert(with_fitness(head, fitness) + with_fitness(passed, fitness) + with_fitness(
        moved,
        fitness,
    ) =~= with_fitness(head, fitness) + with_fitness(moved, fitness) + with_fitness(
        passed,
        fitness,
    ));
}

/// Sorts a collection of individuals by fitness: ascending, or descending
/// when `reverse` is set. The individuals themselves are only moved, and
/// those of equal fitness keep their order.
pub fn sort<T>(population: &mut Vec<Individual<T>>, reverse: bool)
    ensures
        sorted_best_first(final(population)@, !reverse),
        final(population)@.to_multiset() == old(population)@.to_multiset(),
        final(population)@.len() == old(population)@.len(),
        same_order_among_equals(old(population)@, final(population)@),
{
    let count: usize = population.len();
    let mut next: usize = 1;
    while next < count
        invariant
            population@.len() == count,
            1 <= next,
            count == 0 || next <= count,
            count == 0 || sorted_best_first(population@.take(next as int), !reverse),
            population@.to_multiset() == old(population)@.to_multiset(),
            same_order_among_equals(old(population)@, population@),
        decreases count - next,
    {
        let key: u64 = population[next].fitness;
        let mut slot: usize = next;
        while slot > 0 && !is_better_or_equal(population[slot - 1].fitness, key, !reverse)
            invariant
                population@.len() == count,
                slot <= next < count,
                key == population@[next as int].fitness,
                forall|k: int|
                    slot <= k < next ==> !better_or_equal(#[trigger] population@[k].fitness,
                        key,
                        !reverse,
                    ),
            decreases slot,
        {
            slot -= 1;
        }
        let ghost before = population@;
        let moved = population.remove(next);
        population.insert(slot, moved);
        proof {
            broadcast use vstd::multiset::group_multiset_axioms;

            to_multiset_remove(before, next as int);
            to_multiset_insert(before.remove(next as int), slot as int, moved);
            assert(before.to_multiset().count(moved) > 0) by {
                assert(before.contains(moved));
                to_multiset_contains(before, moved);
            }
            assert(before.to_multiset().remove(moved).insert(moved) =~= before.to_multiset());
            assert forall|fitness: u64| #[trigger]
                with_fitness(population@, fitness) == with_fitness(
                    old(population)@,
                    fitness,
                ) by {
                lemma_move_keeps_order(before, next as int, slot as int, fitness);
                assert(with_fitness(before, fitness) == with_fitness(old(population)@, fitness));
            }
            let after = population@.take(next + 1);
            assert forall|i: int, j: int| 0 <= i <= j < after.len() implies better_or_equal(
                #[trigger] after[i].fitness,
                #[trigger] after[j].fitness,
                !reverse,
            ) by {
                let source_i = if i < slot { i } else if i == slot { next as int } else { i - 1 };
                let source_j = if j < slot { j } else if j == slot { next as int } else { j - 1 };
                assert(after[i] == before[source_i]);
                assert(after[j] == before[source_j]);
                assert(before.take(next as int)[if i == slot { 0 } else { source_i }]
                    == before[if i == slot { 0 } else { source_i }]);
                assert(before.take(next as int)[if j == slot { 0 } else { source_j }]
                    == before[if j == slot { 0 } else { source_j }]);
                if slot > 0 {
                    assert(before.take(next as int)[slot - 1] == before[slot - 1]);
                }
            }
        }
        next += 1;
    }
    proof {
        if count > 0 {
            assert(population@.take(next as int) =~= population@);
        }
    }
}

} // verus!
