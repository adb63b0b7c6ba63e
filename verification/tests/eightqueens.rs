use rust_ga::ea::{Genotype, Phenotype};
use rust_ga::problems::EightQueens;
use rust_ga::{
    Options, ParentSelection, PopulationModel, Problem, SurvivorSelection, FITNESS_ONE,
};

fn chess_options(problem_size: usize) -> Options {
    Options {
        population: 10,
        max_generations: 10,
        target_fitness: FITNESS_ONE,
        mutation_rate: 100_000,
        crossover_rate: 500_000,
        no_elitism: false,
        minimize: false,
        parent_selection: ParentSelection::RouletteWheel,
        survivor_selection: SurvivorSelection::FitnessBased,
        population_model: PopulationModel::Generational,
        debug: false,
        problem: Problem::NQueens,
        problem_size,
    }
}

#[test]
fn eightqueens_boards_need_rows_on_the_board() {
    assert!(EightQueens::from_genome([0, 1, 2, 3, 4, 5, 6, 8]).is_none());
    assert!(EightQueens::from_genome([0, 1, 2, -1, 4, 5, 6, 7]).is_none());
    let board = EightQueens::from_genome([0, 4, 7, 5, 2, 6, 1, 3]).unwrap();
    assert_eq!(board.genome(), [0, 4, 7, 5, 2, 6, 1, 3]);
}

#[test]
fn eightqueens_grid_marks_each_queen() {
    let board = EightQueens::from_genome([0, 4, 7, 5, 2, 6, 1, 3]).unwrap();
    let grid = board.to_grid();
    for row in 0..8 {
        for column in 0..8 {
            let expected = if board.genome()[column] == row as i32 { 1 } else { 0 };
            assert_eq!(grid[row][column], expected);
        }
    }
    assert_eq!(grid[0], [1, 0, 0, 0, 0, 0, 0, 0]);
    assert_eq!(grid[4], [0, 1, 0, 0, 0, 0, 0, 0]);
    assert_eq!(grid[3], [0, 0, 0, 0, 0, 0, 0, 1]);
}

#[test]
fn eightqueens_fitness_is_the_share_of_free_pairs() {
    let solved = EightQueens::from_genome([0, 4, 7, 5, 2, 6, 1, 3]).unwrap();
    assert_eq!(solved.count_clashes(), 0);
    assert_eq!(solved.fitness(&None), Ok(1_000_000));
    let row = EightQueens::from_genome([3; 8]).unwrap();
    assert_eq!(row.count_clashes(), 28);
    assert_eq!(row.fitness(&None), Ok(500_000));
    let diagonal = EightQueens::from_genome([0, 1, 2, 3, 4, 5, 6, 7]).unwrap();
    assert_eq!(diagonal.count_clashes(), 28);
    let one = EightQueens::from_genome([0, 4, 7, 5, 2, 6, 1, 1]).unwrap();
    assert_eq!(one.count_clashes(), 2);
    // 28 pairs, two clashes: 28 / 30.
    assert_eq!(one.fitness(&None), Ok(933_333));
}

#[test]
fn eightqueens_crossover_splits_at_the_index() {
    let a = EightQueens::from_genome([0, 1, 2, 3, 4, 5, 6, 7]).unwrap();
    let b = EightQueens::from_genome([7, 6, 5, 4, 3, 2, 1, 0]).unwrap();
    assert_eq!(a.crossover_at(&b, 0).genome(), b.genome());
    assert_eq!(a.crossover_at(&b, 3).genome(), [0, 1, 2, 4, 3, 2, 1, 0]);
    assert_eq!(a.crossover_at(&b, 8).genome(), a.genome());
}

#[test]
fn eightqueens_mutation_copies_or_assigns() {
    let mut board = EightQueens::from_genome([0, 1, 2, 3, 4, 5, 6, 7]).unwrap();
    board.mutate_with(0, 5, true);
    assert_eq!(board.genome(), [5, 1, 2, 3, 4, 5, 6, 7]);
    board.mutate_with(7, 2, false);
    assert_eq!(board.genome(), [5, 1, 2, 3, 4, 5, 6, 2]);
}

#[test]
fn eightqueens_random_operations_stay_on_the_board() {
    let mut rng = rand::thread_rng();
    assert!(EightQueens::accepts(&chess_options(8)));
    assert!(!EightQueens::accepts(&chess_options(9)));
    let mut board = EightQueens::new(&mut rng, &chess_options(8));
    let other = EightQueens::new(&mut rng, &chess_options(8));
    for _ in 0..100 {
        board.mutate(&mut rng);
        assert!(board.genome().iter().all(|&row| 0 <= row && row < 8));
        let child = board.crossover(&other, &mut rng);
        assert!(child.genome().iter().all(|&row| 0 <= row && row < 8));
        assert_eq!(child.genome()[7], other.genome()[7]);
        let fitness = child.fitness(&None).unwrap();
        assert!(500_000 <= fitness && fitness <= FITNESS_ONE);
    }
}
