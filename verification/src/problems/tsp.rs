//! The traveling salesman problem: visit every city once, on the shortest
//! round trip.

use crate::ea::individual::{Genotype, Phenotype};
use crate::options::{EvolutionError, Options, FITNESS_ONE};
use crate::problems::{crossed, lemma_crossed_by_position};
use crate::random::{random_index, random_ratio, shuffle, system_rng};
use rand::rngs::ThreadRng;
use vstd::arithmetic::div_mod::{
    lemma_add_mod_noop_right, lemma_fundamental_div_mod_converse, lemma_small_mod,
};
use vstd::prelude::*;
use vstd::seq_lib::{to_multiset_contains, to_multiset_len, to_multiset_update};

verus! {

/// Cities lie on a square map: both coordinates are at least `0` and below
/// `MAP_SIZE`.
pub const MAP_SIZE: i32 = 500;

/// The number of places along one side of the map.
pub const MAP_PLACES: usize = 500;

/// The fewest cities a tour can be mutated with.
pub const MIN_CITIES: usize = 3;

/// Whether a point lies on the map.
pub open spec fn on_map(city: (i32, i32)) -> bool {
    0 <= city.0 < MAP_SIZE && 0 <= city.1 < MAP_SIZE
}

/// The square of the Euclidean distance between two points.
pub open spec fn squared_distance(a: (i32, i32), b: (i32, i32)) -> int {
    (a.0 - b.0) * (a.0 - b.0) + (a.1 - b.1) * (a.1 - b.1)
}

/// Whether `root` is the square root of `value`, rounded down.
pub open spec fn is_floor_sqrt(root: int, value: int) -> bool {
    0 <= root && root * root <= value < (root + 1) * (root + 1)
}

/// Whether `distance` is the Euclidean distance between two points in fixed
/// point, rounded down: the largest number of millionths whose square does
/// not exceed the squared distance.
pub open spec fn is_distance(distance: int, a: (i32, i32), b: (i32, i32)) -> bool {
    is_floor_sqrt(distance, squared_distance(a, b) * (FITNESS_ONE * FITNESS_ONE))
}

/// Whether a table holds the distance between each pair of the given
/// cities, all of them on the map.
pub open spec fn is_table_of(table: DistanceTable, cities: Seq<(i32, i32)>) -> bool {
    &&& table.width() == cities.len()
    &&& forall|i: int| 0 <= i < cities.len() ==> on_map(#[trigger] cities[i])
    &&& forall|from: int, to: int|
        0 <= from < cities.len() && 0 <= to < cities.len() ==> is_distance(
            #[trigger] table.leg(from, to) as int,
            cities[from],
            cities[to],
        )
}

/// The sequence with `i` and `j` exchanged.
pub open spec fn swapped(genome: Seq<usize>, i: int, j: int) -> Seq<usize> {
    genome.update(i, genome[j]).update(j, genome[i])
}

/// The sequence after each position from `to - 1` down to `from` has been
/// exchanged, in that order, with the position `shift` places further on,
/// wrapping at the end of the sequence.
pub open spec fn shifted(genome: Seq<usize>, from: int, to: int, shift: int) -> Seq<usize>
    decreases to - from,
{
    if to <= from {
        genome
    } else {
        shifted(
            swapped(genome, to - 1, (to - 1 + shift) % (genome.len() as int)),
            from,
            to - 1,
            shift,
        )
    }
}

/// The cities `0..length` in order.
pub open spec fn all_cities(length: nat) -> Seq<usize> {
    Seq::new(length, |i: int| i as usize)
}

/// Whether a genome visits every city exactly once.
pub open spec fn is_tour(genome: Seq<usize>) -> bool {
    genome.to_multiset() == all_cities(genome.len()).to_multiset()
}

/// Whether `after` is `before` with two different places exchanged.
pub open spec fn is_swap(before: Seq<usize>, after: Seq<usize>, a: int, b: int) -> bool {
    &&& 0 <= a < before.len()
    &&& 0 <= b < before.len()
    &&& a != b
    &&& after == swapped(before, a, b)
}

/// Whether `after` is `before` with a group of places shifted: the group
/// starts before the last two places and ends before the last.
pub open spec fn is_shift(
    before: Seq<usize>,
    after: Seq<usize>,
    from: int,
    to: int,
    shift: int,
) -> bool {
    &&& 0 <= from < before.len() - 2
    &&& from < to < before.len()
    &&& 0 <= shift < before.len()
    &&& after == shifted(before, from, to, shift)
}

/// Whether a mutation can turn the route `before` into `after`: by an
/// exchange of two cities, by the shift of a group, or by a new random
/// tour of as many cities.
pub open spec fn is_mutation(before: Seq<usize>, after: Seq<usize>) -> bool {
    ||| exists|a: int, b: int| #[trigger] is_swap(before, after, a, b)
    ||| exists|from: int, to: int, shift: int| #[trigger] is_shift(before, after, from, to, shift)
    ||| after.len() == before.len() && is_tour(after)
}

/// Whether a genome names only cities that exist, on a map with enough of
/// them to mutate a tour.
pub open spec fn valid_route(genome: Seq<usize>) -> bool {
    &&& MIN_CITIES <= genome.len()
    &&& forall|i: int| 0 <= i < genome.len() ==> #[trigger] genome[i] < genome.len()
}

/// Exchanging two positions keeps the values of a sequence.
pub proof fn lemma_swapped_keeps_values(genome: Seq<usize>, i: int, j: int)
    requires
        0 <= i < genome.len(),
        0 <= j < genome.len(),
    ensures
        swapped(genome, i, j).len() == genome.len(),
        swapped(genome, i, j).to_multiset() == genome.to_multiset(),
{
    broadcast use vstd::multiset::group_multiset_axioms;

    let first = genome.update(i, genome[j]);
    to_multiset_update(genome, i, genome[j]);
    to_multiset_update(first, j, genome[i]);
    assert(genome.contains(genome[i]));
    assert(genome.contains(genome[j]));
    to_multiset_contains(genome, genome[i]);
    to_multiset_contains(genome, genome[j]);
    assert(first[j] == genome[j]);
    assert(swapped(genome, i, j).to_multiset() =~= genome.to_multiset());
}

/// Shifting keeps the length and the values of a sequence.
pub proof fn lemma_shifted_keeps_values(genome: Seq<usize>, from: int, to: int, shift: int)
    requires
        0 <= from,
        to <= genome.len(),
        0 <= shift,
    ensures
        shifted(genome, from, to, shift).len() == genome.len(),
        shifted(genome, from, to, shift).to_multiset() == genome.to_multiset(),
    decreases to - from,
{
    if to > from {
        let other = (to - 1 + shift) % (genome.len() as int);
        lemma_swapped_keeps_values(genome, to - 1, other);
        lemma_shifted_keeps_values(swapped(genome, to - 1, other), from, to - 1, shift);
    }
}

/// A sequence with the values of a valid route is a valid route.
pub proof fn lemma_same_values_valid(before: Seq<usize>, after: Seq<usize>)
    requires
        valid_route(before),
        after.to_multiset() == before.to_multiset(),
    ensures
        valid_route(after),
        after.len() == before.len(),
{
    to_multiset_len(before);
    to_multiset_len(after);
    assert forall|i: int| 0 <= i < after.len() implies #[trigger] after[i] < after.len() by {
        assert(after.contains(after[i]));
        to_multiset_contains(after, after[i]);
        to_multiset_contains(before, after[i]);
        let k = choose|k: int| 0 <= k < before.len() && before[k] == after[i];
        assert(before[k] < before.len());
    }
}

/// A tour of enough cities is a valid route.
pub proof fn lemma_tour_is_valid(genome: Seq<usize>)
    requires
        is_tour(genome),
        MIN_CITIES <= genome.len(),
    ensures
        valid_route(genome),
{
    let cities = all_cities(genome.len());
    assert forall|i: int| 0 <= i < cities.len() implies #[trigger] cities[i] < cities.len() by {}
    lemma_same_values_valid(cities, genome);
}

/// A sequence with the values of a tour is a tour.
pub proof fn lemma_same_values_tour(before: Seq<usize>, after: Seq<usize>)
    requires
        is_tour(before),
        after.to_multiset() == before.to_multiset(),
    ensures
        is_tour(after),
{
    to_multiset_len(before);
    to_multiset_len(after);
}

/// A mutation keeps the number of places of a route, and it keeps a tour a
/// tour.
pub proof fn lemma_mutation_keeps_tour(before: Seq<usize>, after: Seq<usize>)
    requires
        is_mutation(before, after),
    ensures
        after.len() == before.len(),
        is_tour(before) ==> is_tour(after),
        valid_route(before) ==> valid_route(after),
{
    if exists|a: int, b: int| #[trigger] is_swap(before, after, a, b) {
        let (a, b) = choose|a: int, b: int| #[trigger] is_swap(before, after, a, b);
        lemma_swapped_keeps_values(before, a, b);
        if is_tour(before) {
            lemma_same_values_tour(before, after);
        }
        if valid_route(before) {
            lemma_same_values_valid(before, after);
        }
    } else if exists|from: int, to: int, shift: int| #[trigger]
        is_shift(before, after, from, to, shift) {
        let (from, to, shift) = choose|from: int, to: int, shift: int| #[trigger]
            is_shift(before, after, from, to, shift);
        lemma_shifted_keeps_values(before, from, to, shift);
        if is_tour(before) {
            lemma_same_values_tour(before, after);
        }
        if valid_route(before) {
            lemma_same_values_valid(before, after);
        }
    } else {
        if valid_route(before) {
            lemma_tour_is_valid(after);
        }
    }
}

/// The square root of a number, rounded down.
pub fn integer_sqrt(value: u64) -> (root: u64)
    ensures
        is_floor_sqrt(root as int, value as int),
        root <= u32::MAX,
{
    let mut low: u64 = 0;
    let mut high: u64 = 4294967296;
    while high - low > 1
        invariant
            low < high <= 4294967296,
            low * low <= value < high * high,
        decreases high - low,
    {
        let middle: u64 = low + (high - low) / 2;
        assert(middle * middle <= 4294967295 * 4294967295) by (nonlinear_arith)
            requires
                0 <= middle <= 4294967295,
        ;
        if middle * middle <= value {
            low = middle;
        } else {
            high = middle;
        }
    }
    low
}

/// The Euclidean distance between two points of the map, in millionths,
/// rounded down.
pub fn distance_between(a: (i32, i32), b: (i32, i32)) -> (distance: u32)
    requires
        on_map(a),
        on_map(b),
    ensures
        is_distance(distance as int, a, b),
{
    let across: u64 = if a.0 >= b.0 {
        (a.0 - b.0) as u64
    } else {
        (b.0 - a.0) as u64
    };
    let along: u64 = if a.1 >= b.1 {
        (a.1 - b.1) as u64
    } else {
        (b.1 - a.1) as u64
    };
    assert(across * across <= 499 * 499 && across * across == (a.0 - b.0) * (a.0 - b.0))
        by (nonlinear_arith)
        requires
            0 <= across <= 499,
            across == a.0 - b.0 || across == b.0 - a.0,
    ;
    assert(along * along <= 499 * 499 && along * along == (a.1 - b.1) * (a.1 - b.1))
        by (nonlinear_arith)
        requires
            0 <= along <= 499,
            along == a.1 - b.1 || along == b.1 - a.1,
    ;
    let squared: u64 = across * across + along * along;
    assert(squared * 1_000_000_000_000 <= 498_002_000_000_000_000) by (nonlinear_arith)
        requires
            squared <= 498_002,
    ;
    assert(FITNESS_ONE * FITNESS_ONE == 1_000_000_000_000) by (nonlinear_arith)
        requires
            FITNESS_ONE == 1_000_000,
    ;
    let root: u64 = integer_sqrt(squared * 1_000_000_000_000);
    root as u32
}

/// The distances between the cities of a map, from every city to every
/// city.
pub struct DistanceTable {
    size: usize,
    cells: Vec<u32>,
}

impl DistanceTable {
    #[verifier::type_invariant]
    spec fn complete(&self) -> bool {
        self.cells@.len() == self.size * self.size
    }

    /// The number of cities.
    pub closed spec fn width(&self) -> nat {
        self.size as nat
    }

    /// The distance of the leg from one city to another.
    pub closed spec fn leg(&self, from: int, to: int) -> u32 {
        self.cells@[to * self.size + from]
    }

    /// A table of `size` cities from its cells, row by row: the cell at
    /// `to * size + from` holds the distance from `from` to `to`. There
    /// must be `size * size` cells.
    pub fn new(size: usize, cells: Vec<u32>) -> (table: Option<Self>)
        ensures
            cells@.len() == size * size <==> table is Some,
            table matches Some(t) ==> {
                &&& t.width() == size
                &&& forall|from: int, to: int|
                    0 <= from < size && 0 <= to < size ==> #[trigger] t.leg(from, to) == cells@[to
                        * size + from]
            },
    {
        let given: usize = cells.len();
        match size.checked_mul(size) {
            Some(count) => {
                if given == count {
                    Some(DistanceTable { size, cells })
                } else {
                    None
                }
            },
            None => None,
        }
    }

    /// The number of cities. A table of that many rows and columns fits in
    /// memory.
    pub fn size(&self) -> (size: usize)
        ensures
            size == self.width(),
            size * size <= usize::MAX,
    {
        proof {
            use_type_invariant(self);
        }
        let held: usize = self.cells.len();
        assert(held == self.size * self.size);
        self.size
    }

    /// The distance of the leg from one city to another.
    pub fn distance(&self, from: usize, to: usize) -> (distance: u32)
        requires
            from < self.width(),
            to < self.width(),
        ensures
            distance == self.leg(from as int, to as int),
    {
        let held: usize = self.cells.len();
        proof {
            use_type_invariant(self);
            lemma_cell_in_table(self.size as int, from as int, to as int);
        }
        self.cells[to * self.size + from]
    }
}

/// The cell of a leg lies inside a square table.
proof fn lemma_cell_in_table(size: int, from: int, to: int)
    requires
        0 <= from < size,
        0 <= to < size,
    ensures
        0 <= to * size <= to * size + from < size * size,
{
    assert(0 <= to * size && to * size + size <= size * size) by (nonlinear_arith)
        requires
            0 <= to < size,
    ;
}

/// Computes the Euclidean distance between each pair of cities.
pub fn distance_table(cities: &Vec<(i32, i32)>) -> (table: DistanceTable)
    requires
        cities@.len() * cities@.len() <= usize::MAX,
        forall|i: int| 0 <= i < cities@.len() ==> on_map(#[trigger] cities@[i]),
    ensures
        is_table_of(table, cities@),
{
    let n: usize = cities.len();
    let mut cells: Vec<u32> = Vec::with_capacity(n * n);
    let mut y: usize = 0;
    while y < n
        invariant
            n == cities@.len(),
            n * n <= usize::MAX,
            forall|i: int| 0 <= i < cities@.len() ==> on_map(#[trigger] cities@[i]),
            y <= n,
            cells@.len() == y * n,
            forall|from: int, to: int|
                0 <= from < n && 0 <= to < y ==> is_distance(#[trigger] cells@[to * n + from] as int,
                    cities@[from],
                    cities@[to],
                ),
        decreases n - y,
    {
        let mut x: usize = 0;
        while x < n
            invariant
                n == cities@.len(),
                n * n <= usize::MAX,
                forall|i: int| 0 <= i < cities@.len() ==> on_map(#[trigger] cities@[i]),
                y < n,
                x <= n,
                cells@.len() == y * n + x,
                forall|from: int, to: int|
                    0 <= from < n && 0 <= to < y ==> is_distance(#[trigger] cells@[to * n + from] as int,
                        cities@[from],
                        cities@[to],
                    ),
                forall|from: int|
                    0 <= from < x ==> is_distance(#[trigger] cells@[y * n + from] as int,
                        cities@[from],
                        cities@[y as int],
                    ),
            decreases n - x,
        {
            let ghost before = cells@;
            cells.push(distance_between(cities[x], cities[y]));
            proof {
                assert forall|from: int, to: int| 0 <= from < n && 0 <= to < y implies is_distance(#[trigger] cells@[to * n + from] as int,
                    cities@[from],
                    cities@[to],
                ) by {
                    lemma_cell_in_table(n as int, from, to);
                    assert(to * n + from < y * n) by (nonlinear_arith)
                        requires
                            0 <= from < n,
                            0 <= to < y,
                    ;
                    assert(cells@[to * n + from] == before[to * n + from]);
                }
                assert forall|from: int| 0 <= from < x + 1 implies is_distance(#[trigger] cells@[y * n + from] as int,
                    cities@[from],
                    cities@[y as int],
                ) by {
                    if from < x {
                        assert(cells@[y * n + from] == before[y * n + from]);
                    }
                }
            }
            x += 1;
        }
        proof {
            assert(y * n + n == (y + 1) * n) by (nonlinear_arith);
            assert forall|from: int, to: int| 0 <= from < n && 0 <= to < y + 1 implies is_distance(#[trigger] cells@[to * n + from] as int,
                cities@[from],
                cities@[to],
            ) by {}
        }
        y += 1;
    }
    DistanceTable { size: n, cells }
}

/// Places `n` cities at random points of the map and computes the distance
/// between each pair of them.
pub fn create_random_cities(n: usize) -> (table: DistanceTable)
    requires
        n * n <= usize::MAX,
    ensures
        table.width() == n,
        exists|cities: Seq<(i32, i32)>| is_table_of(table, cities),
{
    let mut rng = system_rng();
    let mut cities: Vec<(i32, i32)> = Vec::with_capacity(n);
    while cities.len() < n
        invariant
            cities@.len() <= n,
            forall|i: int| 0 <= i < cities@.len() ==> on_map(#[trigger] cities@[i]),
        decreases n - cities@.len(),
    {
        let x: usize = random_index(&mut rng, 0, MAP_PLACES);
        let y: usize = random_index(&mut rng, 0, MAP_PLACES);
        cities.push((x as i32, y as i32));
    }
    let table = distance_table(&cities);
    assert(is_table_of(table, cities@));
    table
}

/// The position `shift` places after `i` in a sequence of `length` places,
/// counted round the end of the sequence.
pub fn wrapped_position(i: usize, shift: usize, length: usize) -> (position: usize)
    requires
        i < length,
    ensures
        position == (i + shift) % (length as int),
{
    let step: usize = shift % length;
    proof {
        lemma_add_mod_noop_right(i as int, shift as int, length as int);
    }
    if step >= length - i {
        proof {
            lemma_fundamental_div_mod_converse(
                i + step,
                length as int,
                1,
                i + step - length,
            );
        }
        step - (length - i)
    } else {
        proof {
            lemma_small_mod((i + step) as nat, length as nat);
        }
        i + step
    }
}

/// Shifts the elements from index `from` up to index `to` by an offset of
/// `shift`, which wraps at the length of the genome: from the last of them
/// down to the first, each is exchanged with the element `shift` places
/// further on.
pub fn shift_elements(genome: &mut Vec<usize>, from: usize, to: usize, shift: usize)
    requires
        from < to <= old(genome)@.len(),
    ensures
        final(genome)@ == shifted(old(genome)@, from as int, to as int, shift as int),
        final(genome)@.len() == old(genome)@.len(),
        final(genome)@.to_multiset() == old(genome)@.to_multiset(),
{
    let length: usize = genome.len();
    let mut next: usize = to;
    while next > from
        invariant
            from <= next <= to <= length,
            genome@.len() == length,
            shifted(genome@, from as int, next as int, shift as int) == shifted(
                old(genome)@,
                from as int,
                to as int,
                shift as int,
            ),
        decreases next - from,
    {
        let i: usize = next - 1;
        let pos: usize = wrapped_position(i, shift, length);
        let shoved: usize = genome[i];
        genome[i] = genome[pos];
        genome[pos] = shoved;
        next = i;
    }
    proof {
        lemma_shifted_keeps_values(old(genome)@, from as int, to as int, shift as int);
    }
}

/// A random round trip through `length` cities.
pub fn create_random_path(length: usize, rng: &mut ThreadRng) -> (path: Vec<usize>)
    ensures
        path@.len() == length,
        is_tour(path@),
{
    let mut genome: Vec<usize> = Vec::with_capacity(length);
    while genome.len() < length
        invariant
            genome@.len() <= length,
            genome@ == all_cities(genome@.len()),
        decreases length - genome@.len(),
    {
        let city: usize = genome.len();
        genome.push(city);
        assert(genome@ =~= all_cities(genome@.len()));
    }
    let ghost ordered = genome@;
    shuffle(&mut genome, rng);
    proof {
        to_multiset_len(ordered);
        to_multiset_len(genome@);
    }
    genome
}

/// One candidate round trip: the cities in the order of the visit.
#[derive(Debug)]
pub struct TravelingSalesman {
    genome: Vec<usize>,
}

impl View for TravelingSalesman {
    type V = Seq<usize>;

    closed spec fn view(&self) -> Seq<usize> {
        self.genome@
    }
}

/// The summed distance of the first `legs` legs of a route, the last of
/// which leads back to the start.
pub open spec fn route_length(genome: Seq<usize>, table: DistanceTable, legs: int) -> int
    decreases legs,
{
    if legs <= 0 {
        0
    } else {
        route_length(genome, table, legs - 1) + table.leg(
            genome[legs - 1] as int,
            genome[legs % (genome.len() as int)] as int,
        )
    }
}

/// A route of `legs` legs is no longer than as many legs of the greatest
/// length.
pub proof fn lemma_route_length_bound(genome: Seq<usize>, table: DistanceTable, legs: int)
    requires
        0 <= legs,
    ensures
        0 <= route_length(genome, table, legs) <= legs * u32::MAX,
    decreases legs,
{
    if legs > 0 {
        lemma_route_length_bound(genome, table, legs - 1);
        assert((legs - 1) * u32::MAX + u32::MAX == legs * u32::MAX) by (nonlinear_arith);
    }
}

impl TravelingSalesman {
    /// A route from the cities in the order of the visit, if each of them
    /// exists and there are enough of them.
    pub fn from_genome(genome: Vec<usize>) -> (route: Option<Self>)
        ensures
            valid_route(genome@) <==> route is Some,
            route matches Some(r) ==> r@ == genome@,
    {
        let length: usize = genome.len();
        if length < MIN_CITIES {
            return None;
        }
        let mut i: usize = 0;
        while i < length
            invariant
                length == genome@.len(),
                i <= length,
                forall|k: int| 0 <= k < i ==> #[trigger] genome@[k] < length,
            decreases length - i,
        {
            if genome[i] >= length {
                return None;
            }
            i += 1;
        }
        Some(TravelingSalesman { genome })
    }

    /// The cities in the order of the visit.
    pub fn genome(&self) -> (genome: &Vec<usize>)
        ensures
            genome@ == self@,
    {
        &self.genome
    }

    /// Exchanges the cities at two places of the route.
    pub fn swap_cities(&mut self, a: usize, b: usize)
        requires
            a < old(self)@.len(),
            b < old(self)@.len(),
        ensures
            final(self)@ == swapped(old(self)@, a as int, b as int),
    {
        let tmp: usize = self.genome[a];
        self.genome[a] = self.genome[b];
        self.genome[b] = tmp;
    }

    /// The offspring that takes the places before `index` from this route
    /// and the places from `index` on from the other one.
    pub fn crossover_at(&self, other: &Self, index: usize) -> (child: Self)
        requires
            self@.len() == other@.len(),
            index <= self@.len(),
        ensures
            child@ == crossed(self@, other@, index as int),
    {
        let mut genome: Vec<usize> = other.genome.clone();
        let mut i: usize = 0;
        while i < index
            invariant
                self@.len() == other@.len(),
                index <= self@.len(),
                i <= index,
                genome@ == self@.take(i as int) + other@.skip(i as int),
            decreases index - i,
        {
            genome[i] = self.genome[i];
            assert(genome@ =~= self@.take(i + 1) + other@.skip(i + 1));
            i += 1;
        }
        Self { genome }
    }
}

impl Genotype for TravelingSalesman {
    open spec fn wf(&self) -> bool {
        valid_route(self@)
    }

    open spec fn size(&self) -> nat {
        self@.len()
    }

    open spec fn supports(options: &Options) -> bool {
        MIN_CITIES <= options.problem_size
    }

    open spec fn crossing(first: &Self, second: &Self, child: &Self) -> bool {
        exists|index: int|
            0 <= index < first@.len() && child@ == #[trigger] crossed(first@, second@, index)
    }

    open spec fn mutation(before: &Self, after: &Self) -> bool {
        is_mutation(before@, after@)
    }

    fn accepts(options: &Options) -> (ok: bool) {
        MIN_CITIES <= options.problem_size
    }

    /// Create a new specimen: a random tour.
    fn new(rng: &mut ThreadRng, options: &Options) -> (created: Self)
        ensures
            is_tour(created@),
    {
        let genome = create_random_path(options.problem_size, rng);
        proof {
            lemma_tour_is_valid(genome@);
        }
        Self { genome }
    }

    /// Mutate this genome in random locations: half of the time a group of
    /// cities is shifted; otherwise two different cities trade places, or,
    /// one time in five, the route is replaced by a new random tour.
    fn mutate(&mut self, rng: &mut ThreadRng)
        ensures
            is_tour(old(self)@) ==> is_tour(final(self)@),
    {
        let length: usize = self.genome.len();
        // 50% chance to randomize cities
        if random_ratio(rng, 1, 2) {
            // 80% chance to swap two random cities
            if random_ratio(rng, 4, 5) {
                let a: usize = random_index(rng, 0, length);
                let other: usize = random_index(rng, 0, length - 1);
                let b: usize = if other >= a {
                    other + 1
                } else {
                    other
                };
                self.swap_cities(a, b);
                assert(is_swap(old(self)@, self@, a as int, b as int));
            } else {
                // 20% chance to get a new random path
                self.genome = create_random_path(length, rng);
            }
        } else {
            // 50% chance to shift a subgroup around
            let from: usize = random_index(rng, 0, length - 2);
            let to: usize = random_index(rng, from + 1, length);
            let shift: usize = random_index(rng, 0, length);
            shift_elements(&mut self.genome, from, to, shift);
            assert(is_shift(old(self)@, self@, from as int, to as int, shift as int));
        }
        proof {
            lemma_mutation_keeps_tour(old(self)@, self@);
        }
    }

    /// Create a new specimen by performing crossover with other at a random
    /// index.
    fn crossover(&self, other: &Self, rng: &mut ThreadRng) -> (child: Self) {
        let index: usize = random_index(rng, 0, self.genome.len());
        let child = self.crossover_at(other, index);
        assert(child@ == crossed(self@, other@, index as int));
        proof {
            lemma_crossed_by_position(self@, other@, index as int);
        }
        child
    }
}

impl Phenotype for TravelingSalesman {
    type Context = DistanceTable;

    open spec fn evaluable(size: nat, context: Option<DistanceTable>) -> bool {
        context matches Some(table) && table.width() == size
    }

    open spec fn score(&self, context: Option<DistanceTable>) -> u64 {
        match context {
            Some(table) => route_length(self@, table, self@.len() as int) as u64,
            None => 0,
        }
    }

    /// The length of the round trip. It needs a distance table for as many
    /// cities as the route has.
    fn fitness(&self, context: &Option<DistanceTable>) -> (result: Result<u64, EvolutionError>) {
        let length: usize = self.genome.len();
        match context {
            None => Err(EvolutionError::MissingContext),
            Some(table) => {
                if table.size() != length {
                    return Err(EvolutionError::MissingContext);
                }
                let mut distance: u64 = 0;
                let mut i: usize = 0;
                while i < length
                    invariant
                        self.wf(),
                        length == self@.len(),
                        table.width() == length,
                        length * length <= usize::MAX,
                        i <= length,
                        distance == route_length(self@, *table, i as int),
                    decreases length - i,
                {
                    let x: usize = self.genome[i];
                    let y: usize = self.genome[(i + 1) % length];
                    proof {
                        lemma_route_length_bound(self@, *table, i as int);
                        lemma_route_length_bound(self@, *table, i + 1);
                        assert((i + 1) * u32::MAX <= u64::MAX) by (nonlinear_arith)
                            requires
                                i + 1 <= length,
                                length * length <= usize::MAX,
                        ;
                    }
                    distance = distance + table.distance(x, y) as u64;
                    i += 1;
                }
                Ok(distance)
            },
        }
    }
}

} // verus!
