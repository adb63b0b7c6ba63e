//! The eight-queens problem on the standard chess board.

use crate::ea::individual::{Genotype, Phenotype};
use crate::options::{EvolutionError, Options, FITNESS_ONE};
use crate::problems::crossed;
use crate::problems::nqueens::{
    clashes, clashes_among, clashes_with, lemma_board_score, lemma_clashes_among_bound,
    lemma_clashes_with_bound, pair_count, valid_board, board_score,
};
use crate::random::{random_index, random_ratio};
use rand::rngs::ThreadRng;
use vstd::prelude::*;

verus! {

/// The width of the board.
pub const BOARD: usize = 8;

/// The number of queen pairs on the board.
pub const PAIRS: u64 = 28;

/// The rows of the queens as a board of any width sees them.
pub open spec fn rows(genome: Seq<i32>) -> Seq<usize> {
    genome.map_values(|row: i32| row as usize)
}

/// The genome after one change: column `i` gets the row `value`, or, with
/// `copy` set, the row of the queen in column `value`.
pub open spec fn changed(genome: Seq<i32>, i: int, value: int, copy: bool) -> Seq<i32> {
    if copy {
        genome.update(i, genome[value])
    } else {
        genome.update(i, value as i32)
    }
}

/// Whether `after` is `before` with one change, at a column of the board
/// and with a row or a column of the board as its value.
pub open spec fn is_change(
    before: Seq<i32>,
    after: Seq<i32>,
    i: int,
    value: int,
    copy: bool,
) -> bool {
    &&& 0 <= i < 8
    &&& 0 <= value < 8
    &&& after == changed(before, i, value, copy)
}

/// Whether `steps` changes, one after the other, turn `before` into
/// `after`.
pub open spec fn changed_in(before: Seq<i32>, after: Seq<i32>, steps: nat) -> bool
    decreases steps,
{
    if steps == 0 {
        after == before
    } else {
        exists|middle: Seq<i32>, i: int, value: int, copy: bool|
            changed_in(before, middle, (steps - 1) as nat) && #[trigger] is_change(
                middle,
                after,
                i,
                value,
                copy,
            )
    }
}

/// One candidate placement of eight queens: the row of the queen in each
/// column.
#[derive(Debug)]
pub struct EightQueens {
    genome: [i32; 8],
}

impl View for EightQueens {
    type V = Seq<i32>;

    closed spec fn view(&self) -> Seq<i32> {
        self.genome@
    }
}

impl EightQueens {
    /// A board from the rows of its queens, column by column, if each row
    /// is on the board.
    pub fn from_genome(genome: [i32; 8]) -> (board: Option<Self>)
        ensures
            (forall|x: int| 0 <= x < 8 ==> 0 <= #[trigger] genome@[x] < 8) <==> board is Some,
            board matches Some(b) ==> b@ == genome@,
    {
        let mut x: usize = 0;
        while x < 8
            invariant
                x <= 8,
                forall|k: int| 0 <= k < x ==> 0 <= #[trigger] genome@[k] < 8,
            decreases 8 - x,
        {
            if genome[x] < 0 || genome[x] >= 8 {
                return None;
            }
            x += 1;
        }
        Some(EightQueens { genome })
    }

    /// The rows of the queens, column by column.
    pub fn genome(&self) -> (genome: [i32; 8])
        ensures
            genome@ == self@,
    {
        self.genome
    }

    /// The board as a grid of rows: `1` where a queen stands, `0` elsewhere.
    pub fn to_grid(&self) -> (grid: [[i32; 8]; 8])
        requires
            self.wf(),
        ensures
            forall|row: int, column: int|
                0 <= row < 8 && 0 <= column < 8 ==> (#[trigger] grid@[row]@[column]) == if self@[column]
                    == row {
                    1i32
                } else {
                    0i32
                },
    {
        let mut grid: [[i32; 8]; 8] = [[0; 8]; 8];
        let mut x: usize = 0;
        while x < 8
            invariant
                self.wf(),
                x <= 8,
                forall|row: int, column: int|
                    0 <= row < 8 && 0 <= column < 8 ==> (#[trigger] grid@[row]@[column]) == if column
                        < x && self@[column] == row {
                        1i32
                    } else {
                        0i32
                    },
            decreases 8 - x,
        {
            assert(0 <= self@[x as int] < 8);
            grid[self.genome[x] as usize][x] = 1;
            x += 1;
        }
        grid
    }

    /// Changes the row of the queen in column `i`: to `value` itself, or,
    /// with `copy` set, to the row of the queen in column `value`.
    pub fn mutate_with(&mut self, i: usize, value: usize, copy: bool)
        requires
            old(self).wf(),
            i < 8,
            value < 8,
        ensures
            final(self).wf(),
            final(self)@ == changed(old(self)@, i as int, value as int, copy),
    {
        assert(0 <= self@[value as int] < 8);
        if copy {
            self.genome[i] = self.genome[value];
        } else {
            self.genome[i] = value as i32;
        }
        assert forall|x: int| 0 <= x < 8 implies 0 <= #[trigger] self@[x] < 8 by {
            if x != i {
                assert(self@[x] == old(self)@[x]);
            }
        }
    }

    /// The offspring that takes the columns before `index` from this board
    /// and the columns from `index` on from the other one.
    pub fn crossover_at(&self, other: &Self, index: usize) -> (child: Self)
        requires
            self.wf(),
            other.wf(),
            index <= 8,
        ensures
            child.wf(),
            child@ == crossed(self@, other@, index as int),
    {
        let mut genome: [i32; 8] = [0; 8];
        let mut i: usize = 0;
        while i < index
            invariant
                index <= 8,
                i <= index,
                forall|k: int| 0 <= k < i ==> #[trigger] genome@[k] == self@[k],
            decreases index - i,
        {
            genome[i] = self.genome[i];
            i += 1;
        }
        while i < 8
            invariant
                index <= i <= 8,
                forall|k: int| 0 <= k < index ==> #[trigger] genome@[k] == self@[k],
                forall|k: int| index <= k < i ==> #[trigger] genome@[k] == other@[k],
            decreases 8 - i,
        {
            genome[i] = other.genome[i];
            i += 1;
        }
        assert(genome@ =~= self@.take(index as int) + other@.skip(index as int));
        Self { genome }
    }

    /// Counts the attacking pairs of queens.
    pub fn count_clashes(&self) -> (count: u64)
        requires
            self.wf(),
        ensures
            count == clashes(rows(self@)),
            count <= PAIRS,
    {
        let mut count: u64 = 0;
        let mut x: usize = 0;
        while x < 8
            invariant
                self.wf(),
                x <= 8,
                count == clashes_among(rows(self@), x as int),
            decreases 8 - x,
        {
            let y: i32 = self.genome[x];
            let mut i: usize = 0;
            let ghost base = count;
            while i < x
                invariant
                    self.wf(),
                    x < 8,
                    y == self@[x as int],
                    i <= x,
                    base == clashes_among(rows(self@), x as int),
                    count == base + clashes_with(rows(self@), x as int, i as int),
                decreases x - i,
            {
                let other: i32 = self.genome[i];
                let apart: i32 = if other >= y {
                    other - y
                } else {
                    y - other
                };
                proof {
                    lemma_clashes_among_bound(rows(self@), x as int);
                    lemma_clashes_with_bound(rows(self@), x as int, i as int);
                    lemma_pairs_on_board(x as nat);
                }
                if other == y || apart == (x - i) as i32 {
                    count += 1;
                }
                i += 1;
            }
            x += 1;
        }
        proof {
            lemma_clashes_among_bound(rows(self@), 8);
            lemma_pairs_on_board(8);
        }
        count
    }
}

/// Among at most eight queens there are at most 28 pairs, and among eight
/// exactly that many.
proof fn lemma_pairs_on_board(n: nat)
    requires
        n <= 8,
    ensures
        pair_count(n) <= PAIRS,
        pair_count(8) == PAIRS,
{
    assert(0 <= n * (n - 1) / 2 <= 28) by (nonlinear_arith)
        requires
            0 <= n <= 8,
    ;
}

impl Genotype for EightQueens {
    open spec fn wf(&self) -> bool {
        forall|x: int| 0 <= x < 8 ==> 0 <= #[trigger] self@[x] < 8
    }

    open spec fn size(&self) -> nat {
        8
    }

    open spec fn supports(options: &Options) -> bool {
        options.problem_size == BOARD
    }

    open spec fn crossing(first: &Self, second: &Self, child: &Self) -> bool {
        exists|index: int| 0 <= index < 8 && child@ == #[trigger] crossed(first@, second@, index)
    }

    /// One to eight changes, one after the other, each of them giving a
    /// column a row of the board or the row of another column.
    open spec fn mutation(before: &Self, after: &Self) -> bool {
        exists|steps: nat| 1 <= steps <= 8 && #[trigger] changed_in(before@, after@, steps)
    }

    fn accepts(options: &Options) -> (ok: bool) {
        options.problem_size == BOARD
    }

    /// Create a new eight-queens specimen with a queen in a random row of
    /// each column.
    fn new(rng: &mut ThreadRng, options: &Options) -> (created: Self) {
        let mut genome: [i32; 8] = [0; 8];
        let mut i: usize = 0;
        while i < 8
            invariant
                i <= 8,
                forall|x: int| 0 <= x < 8 ==> 0 <= #[trigger] genome@[x] < 8,
            decreases 8 - i,
        {
            genome[i] = random_index(rng, 0, BOARD) as i32;
            i += 1;
        }
        EightQueens { genome }
    }

    /// Mutate this genome in one to eight random columns: each gets the row
    /// of another random column or a new random row.
    fn mutate(&mut self, rng: &mut ThreadRng) {
        let num_mutations: usize = random_index(rng, 1, 9);
        let mut done: usize = 0;
        while done < num_mutations
            invariant
                self.wf(),
                1 <= num_mutations <= 8,
                done <= num_mutations,
                changed_in(old(self)@, self@, done as nat),
            decreases num_mutations - done,
        {
            let ghost middle = self@;
            let i: usize = random_index(rng, 0, BOARD);
            let copy = random_ratio(rng, 1, 2);
            let value: usize = random_index(rng, 0, BOARD);
            self.mutate_with(i, value, copy);
            assert(is_change(middle, self@, i as int, value as int, copy));
            done += 1;
        }
        assert(changed_in(old(self)@, self@, num_mutations as nat));
    }

    /// Create a new specimen by performing crossover with other at a random
    /// index.
    fn crossover(&self, other: &Self, rng: &mut ThreadRng) -> (child: Self) {
        let index: usize = random_index(rng, 0, BOARD);
        let child = self.crossover_at(other, index);
        assert(child@ == crossed(self@, other@, index as int));
        child
    }
}

impl Phenotype for EightQueens {
    type Context = ();

    open spec fn evaluable(size: nat, context: Option<()>) -> bool {
        true
    }

    open spec fn score(&self, context: Option<()>) -> u64 {
        board_score(rows(self@)) as u64
    }

    /// The share of queen pairs free of attack, `FITNESS_ONE` for a
    /// solution. No context is needed.
    fn fitness(&self, context: &Option<()>) -> (result: Result<u64, EvolutionError>) {
        let clashing: u64 = self.count_clashes();
        proof {
            lemma_pairs_on_board(8);
            assert(rows(self@).len() == 8);
        }
        Ok(PAIRS * FITNESS_ONE / (PAIRS + clashing))
    }
}

} // verus!
