//! The N-queens problem: place N queens on an N×N board, one per column, so
//! that no two attack each other.

use crate::ea::individual::{Genotype, Phenotype};
use crate::options::{EvolutionError, Options, FITNESS_ONE};
use crate::problems::crossed;
use crate::random::{random_index, random_ratio};
use rand::rngs::ThreadRng;
use vstd::arithmetic::div_mod::lemma_div_multiples_vanish_quotient;
use vstd::math::abs;
use vstd::prelude::*;

verus! {

/// The largest board: beyond it `N!` does not fit in 64 bits.
pub const MAX_BOARD: usize = 20;

/// `n!`.
pub open spec fn factorial_of(n: nat) -> nat
    decreases n,
{
    if n == 0 {
        1
    } else {
        n * factorial_of((n - 1) as nat)
    }
}

/// The number of pairs among `n` queens: `n` choose 2.
pub open spec fn pair_count(n: nat) -> nat {
    (n * (n - 1) / 2) as nat
}

/// Whether the queens in columns `i` and `j` share a row or a diagonal.
pub open spec fn attacks(genome: Seq<usize>, i: int, j: int) -> bool {
    genome[i] == genome[j] || abs(genome[i] - genome[j]) == abs(i - j)
}

/// The number of queens in the first `limit` columns that attack the queen
/// in column `x`.
pub open spec fn clashes_with(genome: Seq<usize>, x: int, limit: int) -> nat
    decreases limit,
{
    if limit <= 0 {
        0
    } else {
        clashes_with(genome, x, limit - 1) + if attacks(genome, limit - 1, x) {
            1nat
        } else {
            0nat
        }
    }
}

/// The number of attacking pairs among the queens of the first `columns`
/// columns.
pub open spec fn clashes_among(genome: Seq<usize>, columns: int) -> nat
    decreases columns,
{
    if columns <= 0 {
        0
    } else {
        clashes_among(genome, columns - 1) + clashes_with(genome, columns - 1, columns - 1)
    }
}

/// The number of attacking pairs on the whole board.
pub open spec fn clashes(genome: Seq<usize>) -> nat {
    clashes_among(genome, genome.len() as int)
}

/// Whether a genome places one queen per column on a board that the
/// representation supports, each in a row of the board.
pub open spec fn valid_board(genome: Seq<usize>) -> bool {
    &&& 2 <= genome.len() <= MAX_BOARD
    &&& forall|x: int| 0 <= x < genome.len() ==> #[trigger] genome[x] < genome.len()
}

/// The genome after a mutation at the places `a` and `b`: column `a` gets
/// row `b`, or, without `assign`, the queens of the two columns trade rows.
pub open spec fn mutated(genome: Seq<usize>, a: int, b: int, assign: bool) -> Seq<usize> {
    if assign {
        genome.update(a, b as usize)
    } else {
        genome.update(a, genome[b]).update(b, genome[a])
    }
}

/// The fitness of a board: the share of queen pairs that a board with as
/// many more pairs as this one has clashes would have free of attack, in
/// fixed point. It is `FITNESS_ONE` exactly for a solution.
pub open spec fn board_score(genome: Seq<usize>) -> nat {
    pair_count(genome.len()) * FITNESS_ONE as nat / (pair_count(genome.len()) + clashes(genome))
}

/// The factorial is never zero.
pub proof fn lemma_factorial_positive(n: nat)
    ensures
        1 <= factorial_of(n),
    decreases n,
{
    if n > 0 {
        lemma_factorial_positive((n - 1) as nat);
        assert(1 <= n * factorial_of((n - 1) as nat)) by (nonlinear_arith)
            requires
                n >= 1,
                factorial_of((n - 1) as nat) >= 1,
        ;
    }
}

/// The factorial grows with its argument.
pub proof fn lemma_factorial_monotonic(a: nat, b: nat)
    requires
        a <= b,
    ensures
        factorial_of(a) <= factorial_of(b),
    decreases b,
{
    if a < b {
        lemma_factorial_monotonic(a, (b - 1) as nat);
        lemma_factorial_positive((b - 1) as nat);
        assert(factorial_of((b - 1) as nat) <= b * factorial_of((b - 1) as nat))
            by (nonlinear_arith)
            requires
                b >= 1,
                factorial_of((b - 1) as nat) >= 1,
        ;
    }
}

/// `20!`, the largest factorial below `2^64`.
pub proof fn lemma_factorial_of_twenty()
    ensures
        factorial_of(20) == 2432902008176640000,
{
    assert(factorial_of(0) == 1);
    assert(factorial_of(1) == 1) by {
        assert(factorial_of(1) == 1 * factorial_of(0));
    }
    assert(factorial_of(2) == 2) by {
        assert(factorial_of(2) == 2 * factorial_of(1));
    }
    assert(factorial_of(3) == 6) by {
        assert(factorial_of(3) == 3 * factorial_of(2));
    }
    assert(factorial_of(4) == 24) by {
        assert(factorial_of(4) == 4 * factorial_of(3));
    }
    assert(factorial_of(5) == 120) by {
        assert(factorial_of(5) == 5 * factorial_of(4));
    }
    assert(factorial_of(6) == 720) by {
        assert(factorial_of(6) == 6 * factorial_of(5));
    }
    assert(factorial_of(7) == 5040) by {
        assert(factorial_of(7) == 7 * factorial_of(6));
    }
    assert(factorial_of(8) == 40320) by {
        assert(factorial_of(8) == 8 * factorial_of(7));
    }
    assert(factorial_of(9) == 362880) by {
        assert(factorial_of(9) == 9 * factorial_of(8));
    }
    assert(factorial_of(10) == 3628800) by {
        assert(factorial_of(10) == 10 * factorial_of(9));
    }
    assert(factorial_of(11) == 39916800) by {
        assert(factorial_of(11) == 11 * factorial_of(10));
    }
    assert(factorial_of(12) == 479001600) by {
        assert(factorial_of(12) == 12 * factorial_of(11));
    }
    assert(factorial_of(13) == 6227020800) by {
        assert(factorial_of(13) == 13 * factorial_of(12));
    }
    assert(factorial_of(14) == 87178291200) by {
        assert(factorial_of(14) == 14 * factorial_of(13));
    }
    assert(factorial_of(15) == 1307674368000) by {
        assert(factorial_of(15) == 15 * factorial_of(14));
    }
    assert(factorial_of(16) == 20922789888000) by {
        assert(factorial_of(16) == 16 * factorial_of(15));
    }
    assert(factorial_of(17) == 355687428096000) by {
        assert(factorial_of(17) == 17 * factorial_of(16));
    }
    assert(factorial_of(18) == 6402373705728000) by {
        assert(factorial_of(18) == 18 * factorial_of(17));
    }
    assert(factorial_of(19) == 121645100408832000) by {
        assert(factorial_of(19) == 19 * factorial_of(18));
    }
    assert(factorial_of(20) == 2432902008176640000) by {
        assert(factorial_of(20) == 20 * factorial_of(19));
    }
}

/// `n! / (2 * (n - 2)!)` is the number of pairs among `n`.
pub proof fn lemma_pairs_by_factorials(n: nat)
    requires
        2 <= n,
    ensures
        factorial_of((n - 2) as nat) > 0,
        factorial_of(n) / (2 * factorial_of((n - 2) as nat)) == pair_count(n),
{
    let rest = factorial_of((n - 2) as nat);
    lemma_factorial_positive((n - 2) as nat);
    assert(factorial_of((n - 1) as nat) == (n - 1) * rest);
    assert(factorial_of(n) == n * factorial_of((n - 1) as nat));
    assert(factorial_of(n) == rest * (n * (n - 1))) by (nonlinear_arith)
        requires
            factorial_of(n) == n * factorial_of((n - 1) as nat),
            factorial_of((n - 1) as nat) == (n - 1) * rest,
    ;
    assert(n * (n - 1) >= 0) by (nonlinear_arith)
        requires
            n >= 2,
    ;
    lemma_div_multiples_vanish_quotient(rest as int, n * (n - 1), 2);
    assert(rest * 2 == 2 * rest);
}

/// No more of the first `limit` queens can attack a queen than there are.
pub proof fn lemma_clashes_with_bound(genome: Seq<usize>, x: int, limit: int)
    requires
        0 <= limit,
    ensures
        clashes_with(genome, x, limit) <= limit,
    decreases limit,
{
    if limit > 0 {
        lemma_clashes_with_bound(genome, x, limit - 1);
    }
}

/// No more pairs can clash than there are.
pub proof fn lemma_clashes_among_bound(genome: Seq<usize>, columns: int)
    requires
        0 <= columns,
    ensures
        clashes_among(genome, columns) <= pair_count(columns as nat),
    decreases columns,
{
    if columns > 0 {
        lemma_clashes_among_bound(genome, columns - 1);
        lemma_clashes_with_bound(genome, columns - 1, columns - 1);
        assert((columns - 1) * (columns - 2) / 2 + (columns - 1) == columns * (columns - 1) / 2)
            by (nonlinear_arith);
    }
}

/// A queen clashes with none of the first `limit` queens exactly when none
/// of them attacks it.
pub proof fn lemma_no_clash_with(genome: Seq<usize>, x: int, limit: int)
    requires
        0 <= limit,
    ensures
        clashes_with(genome, x, limit) == 0 <==> forall|i: int|
            0 <= i < limit ==> !attacks(genome, i, x),
    decreases limit,
{
    if limit > 0 {
        lemma_no_clash_with(genome, x, limit - 1);
        if clashes_with(genome, x, limit) == 0 {
            assert forall|i: int| 0 <= i < limit implies !attacks(genome, i, x) by {
                if i == limit - 1 {
                } else {
                }
            }
        }
    }
}

/// A board has no clashes exactly when no two of its queens attack each
/// other.
pub proof fn lemma_no_clashes_among(genome: Seq<usize>, columns: int)
    requires
        0 <= columns,
    ensures
        clashes_among(genome, columns) == 0 <==> forall|i: int, j: int|
            0 <= i < j < columns ==> !attacks(genome, i, j),
    decreases columns,
{
    if columns > 0 {
        lemma_no_clashes_among(genome, columns - 1);
        lemma_no_clash_with(genome, columns - 1, columns - 1);
        if clashes_among(genome, columns) == 0 {
            assert forall|i: int, j: int| 0 <= i < j < columns implies !attacks(genome, i, j) by {
                if j == columns - 1 {
                } else {
                }
            }
        }
    }
}

/// The fitness of a valid board is positive and at most `FITNESS_ONE`, and
/// it is `FITNESS_ONE` exactly when no two queens attack each other.
pub proof fn lemma_board_score(genome: Seq<usize>)
    requires
        valid_board(genome),
    ensures
        0 < board_score(genome) <= FITNESS_ONE,
        board_score(genome) == FITNESS_ONE <==> forall|i: int, j: int|
            0 <= i < j < genome.len() ==> !attacks(genome, i, j),
{
    let pairs = pair_count(genome.len());
    let clashing = clashes(genome);
    lemma_clashes_among_bound(genome, genome.len() as int);
    lemma_no_clashes_among(genome, genome.len() as int);
    assert(1 <= pairs <= 190) by (nonlinear_arith)
        requires
            pairs == (genome.len() * (genome.len() - 1) / 2) as nat,
            2 <= genome.len() <= 20,
    ;
    let scaled = pairs * 1_000_000;
    let total = pairs + clashing;
    assert(scaled / total >= 1 && scaled / total <= 1_000_000 && (scaled / total == 1_000_000
        <==> clashing == 0)) by (nonlinear_arith)
        requires
            scaled == pairs * 1_000_000,
            total == pairs + clashing,
            1 <= pairs <= 190,
            0 <= clashing <= pairs,
    ;
}

/// Simple N! implementation.
pub fn factorial(n: u64) -> (product: u64)
    requires
        n <= MAX_BOARD,
    ensures
        product == factorial_of(n as nat),
{
    let mut product: u64 = 1;
    let mut factor: u64 = 0;
    while factor < n
        invariant
            factor <= n <= MAX_BOARD,
            product == factorial_of(factor as nat),
        decreases n - factor,
    {
        let next: u64 = factor + 1;
        proof {
            lemma_factorial_monotonic(next as nat, 20);
            lemma_factorial_of_twenty();
            assert(factorial_of(next as nat) == next * factorial_of(factor as nat));
            assert(product * next == next * product) by (nonlinear_arith);
        }
        product = product * next;
        factor = next;
    }
    product
}

/// The number of queen pairs on a board of width `n`, which is also the
/// largest number of clashes: `n` choose 2, computed as `n! / (2 * (n - 2)!)`.
pub fn max_clashes(n: usize) -> (pairs: u32)
    requires
        2 <= n <= MAX_BOARD,
    ensures
        pairs == pair_count(n as nat),
        pairs == factorial_of(n as nat) / (2 * factorial_of((n - 2) as nat)),
{
    proof {
        lemma_pairs_by_factorials(n as nat);
        lemma_factorial_monotonic((n - 2) as nat, 18);
        lemma_factorial_monotonic(18, 20);
        lemma_factorial_of_twenty();
        assert(factorial_of(18) * 2 <= u64::MAX) by {
            assert(factorial_of(20) == 20 * factorial_of(19));
            assert(factorial_of(19) == 19 * factorial_of(18));
        }
        assert(n * (n - 1) / 2 <= 190) by (nonlinear_arith)
            requires
                2 <= n <= 20,
        ;
    }
    (factorial(n as u64) / (2 * factorial(n as u64 - 2))) as u32
}

/// One candidate placement of N queens: the row of the queen in each column.
#[derive(Debug)]
pub struct NQueens {
    genome: Vec<usize>,
    max_clashes: u32,
    problem_size: usize,
}

impl View for NQueens {
    type V = Seq<usize>;

    closed spec fn view(&self) -> Seq<usize> {
        self.genome@
    }
}

impl NQueens {
    /// Whether the cached board width and pair count belong to the genome.
    pub closed spec fn consistent(&self) -> bool {
        &&& self.problem_size == self.genome@.len()
        &&& self.max_clashes == pair_count(self.genome@.len())
    }

    /// A board from the rows of its queens, column by column, if they form
    /// a valid board.
    pub fn from_genome(genome: Vec<usize>) -> (board: Option<Self>)
        ensures
            valid_board(genome@) <==> board is Some,
            board matches Some(b) ==> b.wf() && b@ == genome@,
    {
        let width: usize = genome.len();
        if width < 2 || width > MAX_BOARD {
            return None;
        }
        let mut x: usize = 0;
        while x < width
            invariant
                width == genome@.len(),
                x <= width,
                forall|k: int| 0 <= k < x ==> #[trigger] genome@[k] < width,
            decreases width - x,
        {
            if genome[x] >= width {
                return None;
            }
            x += 1;
        }
        Some(NQueens { genome, max_clashes: max_clashes(width), problem_size: width })
    }

    /// The rows of the queens, column by column.
    pub fn genome(&self) -> (genome: &Vec<usize>)
        ensures
            genome@ == self@,
    {
        &self.genome
    }

    /// The board as a grid of rows: `1` where a queen stands, `0` elsewhere.
    pub fn to_grid(&self) -> (grid: Vec<Vec<usize>>)
        requires
            self.wf(),
        ensures
            grid@.len() == self@.len(),
            forall|row: int|
                0 <= row < grid@.len() ==> (#[trigger] grid@[row])@.len() == self@.len(),
            forall|row: int, column: int|
                0 <= row < self@.len() && 0 <= column < self@.len() ==> {
                    (#[trigger] grid@[row]@[column]) == if self@[column] == row {
                        1usize
                    } else {
                        0usize
                    }
                },
    {
        let mut grid: Vec<Vec<usize>> = Vec::with_capacity(self.problem_size);
        let mut row: usize = 0;
        while row < self.problem_size
            invariant
                self.wf(),
                row <= self.problem_size,
                grid@.len() == row,
                forall|r: int| 0 <= r < row ==> (#[trigger] grid@[r])@.len() == self@.len(),
                forall|r: int, c: int|
                    0 <= r < row && 0 <= c < self@.len() ==> (#[trigger] grid@[r]@[c]) == if self@[c]
                        == r {
                        1usize
                    } else {
                        0usize
                    },
            decreases self.problem_size - row,
        {
            let mut cells: Vec<usize> = Vec::with_capacity(self.problem_size);
            let mut column: usize = 0;
            while column < self.problem_size
                invariant
                    self.wf(),
                    column <= self.problem_size,
                    cells@.len() == column,
                    forall|c: int|
                        0 <= c < column ==> (#[trigger] cells@[c]) == if self@[c] == row {
                            1usize
                        } else {
                            0usize
                        },
                decreases self.problem_size - column,
            {
                cells.push(
                    if self.genome[column] == row {
                        1
                    } else {
                        0
                    },
                );
                column += 1;
            }
            grid.push(cells);
            row += 1;
        }
        grid
    }

    /// Mutates the genome at the drawn places: column `a` gets row `b`, or
    /// the queens of columns `a` and `b` trade rows.
    pub fn mutate_with(&mut self, a: usize, b: usize, assign: bool)
        requires
            old(self).wf(),
            a < old(self)@.len(),
            b < old(self)@.len(),
        ensures
            final(self).wf(),
            final(self)@ == mutated(old(self)@, a as int, b as int, assign),
    {
        if assign {
            self.genome[a] = b;
        } else {
            let t: usize = self.genome[a];
            self.genome[a] = self.genome[b];
            self.genome[b] = t;
        }
    }

    /// The offspring that takes the columns before `index` from this board
    /// and the columns from `index` on from the other one.
    pub fn crossover_at(&self, other: &Self, index: usize) -> (child: Self)
        requires
            self.wf(),
            other.wf(),
            self@.len() == other@.len(),
            index <= self@.len(),
        ensures
            child.wf(),
            child@ == crossed(self@, other@, index as int),
    {
        let mut genome: Vec<usize> = Vec::with_capacity(self.problem_size);
        let mut i: usize = 0;
        while i < index
            invariant
                self.wf(),
                index <= self@.len(),
                i <= index,
                genome@ == self@.take(i as int),
            decreases index - i,
        {
            genome.push(self.genome[i]);
            i += 1;
        }
        while i < self.problem_size
            invariant
                self.wf(),
                other.wf(),
                self@.len() == other@.len(),
                index <= i <= self@.len(),
                genome@ == self@.take(index as int) + other@.take(i as int).skip(index as int),
            decreases self.problem_size - i,
        {
            genome.push(other.genome[i]);
            i += 1;
        }
        proof {
            assert(other@.take(i as int) == other@);
        }
        Self { genome, max_clashes: max_clashes(self.problem_size), problem_size: self.problem_size }
    }

    /// Counts the attacking pairs of queens.
    pub fn count_clashes(&self) -> (count: u32)
        requires
            self.wf(),
        ensures
            count == clashes(self@),
            count <= pair_count(self@.len()),
    {
        let mut count: u32 = 0;
        let mut x: usize = 0;
        while x < self.genome.len()
            invariant
                self.wf(),
                x <= self@.len(),
                count == clashes_among(self@, x as int),
            decreases self@.len() - x,
        {
            let y: usize = self.genome[x];
            let mut i: usize = 0;
            let ghost base = count;
            while i < x
                invariant
                    self.wf(),
                    x < self@.len(),
                    y == self@[x as int],
                    i <= x,
                    base == clashes_among(self@, x as int),
                    count == base + clashes_with(self@, x as int, i as int),
                decreases x - i,
            {
                let other: usize = self.genome[i];
                let apart: usize = if other >= y {
                    other - y
                } else {
                    y - other
                };
                proof {
                    lemma_clashes_among_bound(self@, x as int);
                    lemma_clashes_with_bound(self@, x as int, i as int);
                    lemma_pair_count_small(x as nat);
                }
                if other == y || apart == x - i {
                    count += 1;
                }
                i += 1;
            }
            x += 1;
        }
        proof {
            lemma_clashes_among_bound(self@, self@.len() as int);
        }
        count
    }
}

/// On a supported board the number of pairs is small.
proof fn lemma_pair_count_small(n: nat)
    requires
        n <= MAX_BOARD,
    ensures
        pair_count(n) <= 190,
{
    assert(0 <= n * (n - 1) / 2 <= 190) by (nonlinear_arith)
        requires
            0 <= n <= 20,
    ;
}

impl Genotype for NQueens {
    open spec fn wf(&self) -> bool {
        valid_board(self@) && self.consistent()
    }

    open spec fn size(&self) -> nat {
        self@.len()
    }

    open spec fn supports(options: &Options) -> bool {
        2 <= options.problem_size <= MAX_BOARD
    }

    open spec fn crossing(first: &Self, second: &Self, child: &Self) -> bool {
        exists|index: int|
            0 <= index < first@.len() && child@ == #[trigger] crossed(first@, second@, index)
    }

    open spec fn mutation(before: &Self, after: &Self) -> bool {
        exists|a: int, b: int, assign: bool|
            0 <= a < before@.len() && 0 <= b < before@.len() && after@ == #[trigger] mutated(
                before@,
                a,
                b,
                assign,
            )
    }

    fn accepts(options: &Options) -> (ok: bool) {
        2 <= options.problem_size && options.problem_size <= MAX_BOARD
    }

    /// Create a new N-queens specimen with a queen in a random row of each
    /// column.
    fn new(rng: &mut ThreadRng, options: &Options) -> (created: Self) {
        let mut genome: Vec<usize> = Vec::with_capacity(options.problem_size);
        while genome.len() < options.problem_size
            invariant
                2 <= options.problem_size <= MAX_BOARD,
                genome@.len() <= options.problem_size,
                forall|x: int| 0 <= x < genome@.len() ==> #[trigger] genome@[x] < options.problem_size,
            decreases options.problem_size - genome@.len(),
        {
            genome.push(random_index(rng, 0, options.problem_size));
        }
        NQueens {
            genome,
            max_clashes: max_clashes(options.problem_size),
            problem_size: options.problem_size,
        }
    }

    /// Mutate this genome in random locations.
    fn mutate(&mut self, rng: &mut ThreadRng) {
        let a: usize = random_index(rng, 0, self.problem_size);
        let b: usize = random_index(rng, 0, self.problem_size);
        let assign = random_ratio(rng, 1, 2);
        self.mutate_with(a, b, assign);
        assert(self@ == mutated(old(self)@, a as int, b as int, assign));
    }

    /// Create a new specimen by performing crossover with other at a random
    /// index.
    fn crossover(&self, other: &Self, rng: &mut ThreadRng) -> (child: Self) {
        let index: usize = random_index(rng, 0, self.problem_size);
        let child = self.crossover_at(other, index);
        assert(child@ == crossed(self@, other@, index as int));
        child
    }
}

impl Phenotype for NQueens {
    type Context = ();

    open spec fn evaluable(size: nat, context: Option<()>) -> bool {
        true
    }

    open spec fn score(&self, context: Option<()>) -> u64 {
        board_score(self@) as u64
    }

    /// The share of queen pairs free of attack, `FITNESS_ONE` for a
    /// solution. No context is needed.
    fn fitness(&self, context: &Option<()>) -> (result: Result<u64, EvolutionError>) {
        let clashing: u32 = self.count_clashes();
        proof {
            lemma_pair_count_small(self@.len());
            lemma_board_score(self@);
            assert(1 <= self@.len() * (self@.len() - 1) / 2) by (nonlinear_arith)
                requires
                    2 <= self@.len(),
            ;
        }
        Ok(self.max_clashes as u64 * FITNESS_ONE / (self.max_clashes as u64 + clashing as u64))
    }
}

} // verus!
