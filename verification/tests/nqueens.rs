use rust_ga::ea::{Genotype, Phenotype};
use rust_ga::problems::nqueens::{factorial, max_clashes};
use rust_ga::problems::NQueens;
use rust_ga::{
    Options, ParentSelection, PopulationModel, Problem, SurvivorSelection, FITNESS_ONE,
};

fn board_options(problem_size: usize) -> Options {
    Options {
        population: 10,
        max_generations: 10,
        target_fitness: FITNESS_ONE,
        mutation_rate: 100_000,
        crossover_rate: 500_000,
        no_elitism: false,
        minimize: false,
        parent_selection: ParentSelection::RouletteWheel,
        survivor_selection: SurvivorSelection::FitnessBased,
        population_model: PopulationModel::Generational,
        debug: false,
        problem: Problem::NQueens,
        problem_size,
    }
}

#[test]
fn factorial_values() {
    assert_eq!(factorial(0), 1);
    assert_eq!(factorial(1), 1);
    assert_eq!(factorial(5), 120);
    assert_eq!(factorial(10), 3_628_800);
    assert_eq!(factorial(20), 2_432_902_008_176_640_000);
}

#[test]
fn max_clashes_is_n_choose_two() {
    assert_eq!(max_clashes(2), 1);
    assert_eq!(max_clashes(3), 3);
    assert_eq!(max_clashes(8), 28);
    assert_eq!(max_clashes(20), 190);
}

#[test]
fn boards_need_rows_on_the_board() {
    assert!(NQueens::from_genome(vec![0]).is_none());
    assert!(NQueens::from_genome(vec![0, 2]).is_none());
    assert!(NQueens::from_genome(vec![0; 21]).is_none());
    assert!(NQueens::from_genome(vec![0; 20]).is_some());
    let board = NQueens::from_genome(vec![1, 3, 0, 2]).unwrap();
    assert_eq!(board.genome(), &vec![1, 3, 0, 2]);
}

#[test]
fn nqueens_counts_clashing_pairs() {
    let solved = NQueens::from_genome(vec![1, 3, 0, 2]).unwrap();
    assert_eq!(solved.count_clashes(), 0);
    let row = NQueens::from_genome(vec![0, 0, 0, 0]).unwrap();
    assert_eq!(row.count_clashes(), 6);
    let diagonal = NQueens::from_genome(vec![0, 1, 2, 3]).unwrap();
    assert_eq!(diagonal.count_clashes(), 6);
    let one = NQueens::from_genome(vec![1, 3, 0, 3]).unwrap();
    assert_eq!(one.count_clashes(), 1);
    let anti = NQueens::from_genome(vec![3, 2, 1, 0]).unwrap();
    assert_eq!(anti.count_clashes(), 6);
}

#[test]
fn nqueens_fitness_is_the_share_of_free_pairs() {
    let solved = NQueens::from_genome(vec![1, 3, 0, 2]).unwrap();
    assert_eq!(solved.fitness(&None), Ok(1_000_000));
    assert_eq!(solved.fitness(&Some(())), Ok(1_000_000));
    let row = NQueens::from_genome(vec![0, 0, 0, 0]).unwrap();
    assert_eq!(row.fitness(&None), Ok(500_000));
    let one = NQueens::from_genome(vec![1, 3, 0, 3]).unwrap();
    // 6 pairs, one clash: 6 / 7.
    assert_eq!(one.fitness(&None), Ok(857_142));
    let eight = NQueens::from_genome(vec![0, 4, 7, 5, 2, 6, 1, 3]).unwrap();
    assert_eq!(eight.fitness(&None), Ok(FITNESS_ONE));
    let worst = NQueens::from_genome(vec![0; 20]).unwrap();
    assert_eq!(worst.fitness(&None), Ok(500_000));
}

#[test]
fn nqueens_grid_marks_each_queen() {
    let board = NQueens::from_genome(vec![1, 3, 0, 2]).unwrap();
    assert_eq!(
        board.to_grid(),
        vec![
            vec![0, 0, 1, 0],
            vec![1, 0, 0, 0],
            vec![0, 0, 0, 1],
            vec![0, 1, 0, 0],
        ]
    );
    let row = NQueens::from_genome(vec![1, 1]).unwrap();
    assert_eq!(row.to_grid(), vec![vec![0, 0], vec![1, 1]]);
}

#[test]
fn nqueens_crossover_splits_at_the_index() {
    let a = NQueens::from_genome(vec![0, 1, 2, 3, 4, 5]).unwrap();
    let b = NQueens::from_genome(vec![5, 4, 3, 2, 1, 0]).unwrap();
    for index in 0..=6 {
        let child = a.crossover_at(&b, index);
        for position in 0..6 {
            if position < index {
                assert_eq!(child.genome()[position], a.genome()[position]);
            } else {
                assert_eq!(child.genome()[position], b.genome()[position]);
            }
        }
    }
    assert_eq!(a.crossover_at(&b, 2).genome(), &vec![0, 1, 3, 2, 1, 0]);
    // The offspring evaluates like any board of its size.
    assert_eq!(a.crossover_at(&b, 0).fitness(&None), b.fitness(&None));
}

#[test]
fn nqueens_random_crossover_mixes_the_parents() {
    let mut rng = rand::thread_rng();
    let a = NQueens::from_genome(vec![0, 1, 2, 3, 4, 5]).unwrap();
    let b = NQueens::from_genome(vec![5, 4, 3, 2, 1, 0]).unwrap();
    for _ in 0..50 {
        let child = a.crossover(&b, &mut rng);
        let index = (0..6)
            .find(|&i| child.genome()[i] != a.genome()[i])
            .unwrap_or(6);
        assert!(index < 6);
        assert_eq!(child.genome(), a.crossover_at(&b, index).genome());
    }
}

#[test]
fn nqueens_mutation_assigns_or_swaps() {
    let mut board = NQueens::from_genome(vec![0, 1, 2, 3]).unwrap();
    board.mutate_with(1, 3, true);
    assert_eq!(board.genome(), &vec![0, 3, 2, 3]);
    board.mutate_with(0, 2, false);
    assert_eq!(board.genome(), &vec![2, 3, 0, 3]);
    board.mutate_with(2, 2, false);
    assert_eq!(board.genome(), &vec![2, 3, 0, 3]);
}

#[test]
fn nqueens_random_mutation_stays_on_the_board() {
    let mut rng = rand::thread_rng();
    let mut board = NQueens::new(&mut rng, &board_options(7));
    let mut changed = false;
    for _ in 0..200 {
        let before = board.genome().clone();
        board.mutate(&mut rng);
        assert_eq!(board.genome().len(), 7);
        assert!(board.genome().iter().all(|&row| row < 7));
        let differing = (0..7).filter(|&i| before[i] != board.genome()[i]).count();
        assert!(differing <= 2);
        if differing > 0 {
            changed = true;
        }
    }
    assert!(changed);
}

#[test]
fn nqueens_new_fills_the_board() {
    let mut rng = rand::thread_rng();
    assert!(NQueens::accepts(&board_options(2)));
    assert!(NQueens::accepts(&board_options(20)));
    assert!(!NQueens::accepts(&board_options(1)));
    assert!(!NQueens::accepts(&board_options(21)));
    let mut rows_seen = [false; 12];
    for _ in 0..50 {
        let board = NQueens::new(&mut rng, &board_options(12));
        assert_eq!(board.genome().len(), 12);
        for &row in board.genome().iter() {
            assert!(row < 12);
            rows_seen[row] = true;
        }
        let fitness = board.fitness(&None).unwrap();
        assert!(0 < fitness && fitness <= FITNESS_ONE);
    }
    // 600 draws from 12 rows: a generator that handed back a bound would
    // show one row only.
    assert!(rows_seen.iter().filter(|&&seen| seen).count() > 1);
}
