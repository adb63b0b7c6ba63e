use rust_ga::ea::population::{evaluate, mutate};
use rust_ga::ea::selection::{
    roulette_wheel_index, roulette_wheel_select, total_fitness, weight_of, WEIGHT_SCALE,
};
use rust_ga::ea::sorting::{is_better_or_equal, sort};
use rust_ga::ea::{EvolutionStats, Individual, Phenotype, Population, StandardPopulation};
use rust_ga::problems::tsp::distance_table;
use rust_ga::problems::{
    create_nqueens, create_tsp, DistanceTable, EightQueens, NQueens, TravelingSalesman,
};
use rust_ga::{
    EvolutionError, Options, ParentSelection, PopulationModel, Problem, SurvivorSelection,
    FITNESS_ONE, RATE_ONE,
};

fn queens_options() -> Options {
    Options {
        population: 20,
        max_generations: 50,
        target_fitness: FITNESS_ONE,
        mutation_rate: 100_000,
        crossover_rate: 500_000,
        no_elitism: false,
        minimize: false,
        parent_selection: ParentSelection::RouletteWheel,
        survivor_selection: SurvivorSelection::FitnessBased,
        population_model: PopulationModel::Generational,
        debug: false,
        problem: Problem::NQueens,
        problem_size: 20,
    }
}

fn salesman_options() -> Options {
    Options {
        population: 12,
        max_generations: 30,
        target_fitness: 0,
        mutation_rate: 250_000,
        crossover_rate: 500_000,
        no_elitism: false,
        minimize: false,
        parent_selection: ParentSelection::RouletteWheel,
        survivor_selection: SurvivorSelection::FitnessBased,
        population_model: PopulationModel::Generational,
        debug: false,
        problem: Problem::TravelingSalesman,
        problem_size: 8,
    }
}

fn with_fitness(fitness: u64) -> Individual<NQueens> {
    Individual {
        fitness,
        generation: 0,
        genotype: NQueens::from_genome(vec![1, 3, 0, 2]).unwrap(),
    }
}

fn fitnesses<T>(population: &Vec<Individual<T>>) -> Vec<u64> {
    population.iter().map(|individual| individual.fitness).collect()
}

fn assert_sorted<T>(population: &Vec<Individual<T>>, minimize: bool) {
    for pair in population.windows(2) {
        assert!(is_better_or_equal(pair[0].fitness, pair[1].fitness, minimize));
    }
}

#[test]
fn better_or_equal_follows_the_direction() {
    assert!(is_better_or_equal(3, 2, false));
    assert!(is_better_or_equal(2, 2, false));
    assert!(!is_better_or_equal(1, 2, false));
    assert!(is_better_or_equal(1, 2, true));
    assert!(is_better_or_equal(2, 2, true));
    assert!(!is_better_or_equal(3, 2, true));
}

#[test]
fn sort_orders_by_fitness() {
    let mut population: Vec<Individual<NQueens>> =
        vec![5, 1, 4, 1, 9, 0, 7].into_iter().map(with_fitness).collect();
    sort(&mut population, false);
    assert_eq!(fitnesses(&population), vec![0, 1, 1, 4, 5, 7, 9]);
    assert_sorted(&population, true);
    sort(&mut population, true);
    assert_eq!(fitnesses(&population), vec![9, 7, 5, 4, 1, 1, 0]);
    assert_sorted(&population, false);
    let mut nobody: Vec<Individual<NQueens>> = vec![];
    sort(&mut nobody, true);
    assert!(nobody.is_empty());
}

#[test]
fn sort_keeps_equal_individuals_in_order() {
    let mut population: Vec<Individual<NQueens>> =
        vec![3, 1, 3, 1].into_iter().map(with_fitness).collect();
    for (tag, individual) in population.iter_mut().enumerate() {
        individual.generation = tag as i32;
    }
    sort(&mut population, true);
    let tags: Vec<i32> = population.iter().map(|individual| individual.generation).collect();
    assert_eq!(tags, vec![0, 2, 1, 3]);
}

#[test]
fn weights_follow_the_direction() {
    assert_eq!(weight_of(0, false), 0);
    assert_eq!(weight_of(750_000, false), 750_000);
    assert_eq!(WEIGHT_SCALE, 1_000_000_000_000_000_000);
    assert_eq!(weight_of(FITNESS_ONE, true), 1_000_000_000_000);
    assert_eq!(weight_of(2_000_000, true), 500_000_000_000);
    assert_eq!(weight_of(3, true), 333_333_333_333_333_333);
    assert_eq!(weight_of(1, true), WEIGHT_SCALE);
    assert_eq!(weight_of(0, true), u64::MAX);
    assert_eq!(weight_of(u64::MAX, true), 0);
}

#[test]
fn total_fitness_sums_the_weights() {
    let population: Vec<Individual<NQueens>> =
        vec![4_000_000, 2_000_000, 1_000_000].into_iter().map(with_fitness).collect();
    assert_eq!(total_fitness(&population, false), 7_000_000);
    assert_eq!(total_fitness(&population, true), 1_750_000_000_000);
    let nobody: Vec<Individual<NQueens>> = vec![];
    assert_eq!(total_fitness(&nobody, false), 0);
    let heavy: Vec<Individual<NQueens>> = vec![0, 0, 0].into_iter().map(with_fitness).collect();
    assert_eq!(total_fitness(&heavy, true), 3 * (u64::MAX as u128));
}

#[test]
fn roulette_wheel_stops_at_the_first_index_that_reaches_the_threshold() {
    let population: Vec<Individual<NQueens>> =
        vec![10, 20, 0, 30].into_iter().map(with_fitness).collect();
    assert_eq!(roulette_wheel_index(&population, 0, false), 0);
    assert_eq!(roulette_wheel_index(&population, 10, false), 0);
    assert_eq!(roulette_wheel_index(&population, 11, false), 1);
    assert_eq!(roulette_wheel_index(&population, 30, false), 1);
    assert_eq!(roulette_wheel_index(&population, 31, false), 3);
    assert_eq!(roulette_wheel_index(&population, 60, false), 3);
    // Beyond the total weight nothing is reached.
    assert_eq!(roulette_wheel_index(&population, 61, false), 0);
}

#[test]
fn roulette_wheel_at_zero_and_at_the_total() {
    for minimize in [false, true] {
        let population: Vec<Individual<NQueens>> =
            vec![500_000, 250_000, 1_000_000, 125_000].into_iter().map(with_fitness).collect();
        let total = total_fitness(&population, minimize);
        assert_eq!(roulette_wheel_index(&population, 0, minimize), 0);
        assert_eq!(roulette_wheel_index(&population, total, minimize), 3);
    }
    // A last individual without weight is never where the wheel stops.
    let population: Vec<Individual<NQueens>> =
        vec![10, 20, 0].into_iter().map(with_fitness).collect();
    assert_eq!(roulette_wheel_index(&population, 30, false), 1);
}

#[test]
fn roulette_wheel_minimizing_prefers_low_fitness() {
    let population: Vec<Individual<NQueens>> =
        vec![1_000_000, 4_000_000].into_iter().map(with_fitness).collect();
    // Weights 10^12 and a quarter of it.
    assert_eq!(roulette_wheel_index(&population, 1_000_000_000_000, true), 0);
    assert_eq!(roulette_wheel_index(&population, 1_000_000_000_001, true), 1);
    assert_eq!(roulette_wheel_index(&population, 1_250_000_000_000, true), 1);
}

#[test]
fn roulette_wheel_select_draws_below_the_total() {
    let mut rng = rand::thread_rng();
    let pair: Vec<Individual<NQueens>> = vec![1, 1].into_iter().map(with_fitness).collect();
    let total = total_fitness(&pair, false);
    assert_eq!(total, 2);
    // Thresholds 0 and 1 both stop at the first individual; only the
    // total itself would reach the second.
    for _ in 0..200 {
        assert_eq!(roulette_wheel_select(&pair, total, false, &mut rng), 0);
    }
    let population: Vec<Individual<NQueens>> =
        vec![1, 1_000_000_000, 1].into_iter().map(with_fitness).collect();
    let total = total_fitness(&population, false);
    let mut middle = 0;
    for _ in 0..200 {
        let index = roulette_wheel_select(&population, total, false, &mut rng);
        assert!(index < 2);
        if index == 1 {
            middle += 1;
        }
    }
    assert!(middle > 0);
}

#[test]
fn roulette_wheel_select_degenerate_cases() {
    let mut rng = rand::thread_rng();
    let population: Vec<Individual<NQueens>> =
        vec![0, 0, 0].into_iter().map(with_fitness).collect();
    assert_eq!(total_fitness(&population, false), 0);
    assert_eq!(roulette_wheel_select(&population, 0, false, &mut rng), 0);
    let nobody: Vec<Individual<NQueens>> = vec![];
    assert_eq!(roulette_wheel_select(&nobody, 10, false, &mut rng), 0);
    assert_eq!(roulette_wheel_index(&nobody, 10, false), 0);
}

#[test]
fn individual_evaluate_sets_the_fitness() {
    let mut individual = Individual {
        fitness: 0,
        generation: 3,
        genotype: NQueens::from_genome(vec![0, 0, 0, 0]).unwrap(),
    };
    assert_eq!(individual.evaluate(&None), Ok(()));
    assert_eq!(individual.fitness, 500_000);
    assert_eq!(individual.generation, 3);
    assert_eq!(individual.genotype.genome(), &vec![0, 0, 0, 0]);

    let mut route = Individual {
        fitness: 7,
        generation: 1,
        genotype: TravelingSalesman::from_genome(vec![0, 1, 2]).unwrap(),
    };
    assert_eq!(route.evaluate(&None), Err(EvolutionError::MissingContext));
    assert_eq!(route.fitness, 7);
    let table = Some(distance_table(&vec![(0, 0), (3, 4), (6, 8)]));
    assert_eq!(route.evaluate(&table), Ok(()));
    assert_eq!(route.fitness, 20_000_000);
}

#[test]
fn individual_crossover_stamps_the_offspring() {
    let mut rng = rand::thread_rng();
    let a = Individual {
        fitness: 900_000,
        generation: 2,
        genotype: NQueens::from_genome(vec![0, 1, 2, 3]).unwrap(),
    };
    let b = Individual {
        fitness: 800_000,
        generation: 5,
        genotype: NQueens::from_genome(vec![3, 2, 1, 0]).unwrap(),
    };
    let child = a.crossover(&b, 7, &mut rng);
    assert_eq!(child.fitness, 0);
    assert_eq!(child.generation, 7);
    assert_eq!(child.genotype.genome().len(), 4);
    let copy = a.crossover(&a, 3, &mut rng);
    assert_eq!(copy.fitness, 0);
    assert_eq!(copy.generation, 3);
    assert_eq!(copy.genotype.genome(), a.genotype.genome());
}

#[test]
fn evaluate_fills_in_every_fitness() {
    let boards = vec![vec![1, 3, 0, 2], vec![0, 0, 0, 0], vec![1, 3, 0, 3]];
    let mut population: Vec<Individual<NQueens>> = boards
        .into_iter()
        .map(|genome| Individual {
            fitness: 0,
            generation: 0,
            genotype: NQueens::from_genome(genome).unwrap(),
        })
        .collect();
    assert_eq!(evaluate(&mut population, &None), Ok(()));
    assert_eq!(fitnesses(&population), vec![1_000_000, 500_000, 857_142]);
}

#[test]
fn evaluate_stops_at_the_first_individual_without_context() {
    let table = Some(distance_table(&vec![(0, 0), (3, 4), (6, 8)]));
    let routes = vec![vec![0, 1, 2], vec![0, 1, 2, 3], vec![2, 1, 0]];
    let mut population: Vec<Individual<TravelingSalesman>> = routes
        .into_iter()
        .map(|genome| Individual {
            fitness: 1,
            generation: 0,
            genotype: TravelingSalesman::from_genome(genome).unwrap(),
        })
        .collect();
    assert_eq!(evaluate(&mut population, &table), Err(EvolutionError::MissingContext));
    assert_eq!(fitnesses(&population), vec![20_000_000, 1, 1]);
}

#[test]
fn mutation_rate_decides_the_count() {
    let mut rng = rand::thread_rng();
    let mut population: Vec<Individual<NQueens>> =
        (0..25).map(|fitness| with_fitness(fitness)).collect();
    assert_eq!(mutate(&mut population, 0, &mut rng), 0);
    for individual in population.iter() {
        assert_eq!(individual.genotype.genome(), &vec![1, 3, 0, 2]);
    }
    assert_eq!(mutate(&mut population, RATE_ONE, &mut rng), 25);
    let count = mutate(&mut population, 500_000, &mut rng);
    assert!(count <= 25);
    assert_eq!(fitnesses(&population), (0..25).collect::<Vec<u64>>());
    assert!(population.iter().all(|individual| individual.generation == 0));
}

#[test]
fn new_population_is_unevaluated() {
    let population = StandardPopulation::<NQueens>::new(queens_options()).unwrap();
    assert_eq!(population.individuals().len(), 20);
    for individual in population.individuals().iter() {
        assert_eq!(individual.fitness, 0);
        assert_eq!(individual.generation, 0);
        assert_eq!(individual.genotype.genome().len(), 20);
    }
    assert_eq!(*population.stats(), EvolutionStats::new(50));
    assert_eq!(population.stats().generation, 0);
    assert_eq!(population.stats().max_generations, 50);
    assert_eq!(population.stats().total_mutations, 0);
    assert_eq!(population.options().population, 20);
    assert!(population.context().is_none());
    assert!(!population.is_ready());
    assert!(!population.is_finished());
    assert!(population.is_implemented());
}

#[test]
fn evaluate_phase_sorts_best_first() {
    for minimize in [false, true] {
        let mut options = queens_options();
        options.minimize = minimize;
        options.problem_size = 6;
        let mut population = create_nqueens(options).unwrap();
        let mut expected: Vec<u64> = population
            .individuals()
            .iter()
            .map(|individual| individual.genotype.fitness(&None).unwrap())
            .collect();
        assert_eq!(population.evaluate_fitness(), Ok(()));
        assert!(population.is_ready());
        assert_eq!(population.stats().generation, 0);
        assert_sorted(population.individuals(), minimize);
        expected.sort();
        if !minimize {
            expected.reverse();
        }
        assert_eq!(fitnesses(population.individuals()), expected);
        for individual in population.individuals().iter() {
            assert_eq!(individual.genotype.fitness(&None), Ok(individual.fitness));
        }
        let before: Vec<Vec<usize>> = population
            .individuals()
            .iter()
            .map(|individual| individual.genotype.genome().clone())
            .collect();
        assert_eq!(population.evaluate_fitness(), Ok(()));
        let after: Vec<Vec<usize>> = population
            .individuals()
            .iter()
            .map(|individual| individual.genotype.genome().clone())
            .collect();
        assert_eq!(before, after);
    }
}

#[test]
fn evaluate_phase_needs_the_context() {
    let (mut population, distances) = create_tsp(salesman_options()).unwrap();
    assert_eq!(population.evaluate_fitness(), Err(EvolutionError::MissingContext));
    assert!(!population.is_ready());
    assert!(population.individuals().iter().all(|individual| individual.fitness == 0));
    population.set_context(distances);
    assert_eq!(population.evaluate_fitness(), Ok(()));
    assert!(population.is_ready());
    assert_sorted(population.individuals(), true);
    assert!(population.individuals().iter().all(|individual| individual.fitness > 0));
}

#[test]
fn new_population_rejects_invalid_parameters() {
    let mut options = queens_options();
    options.population = 0;
    assert_eq!(
        StandardPopulation::<NQueens>::new(options).err(),
        Some(EvolutionError::Configuration)
    );
    assert_eq!(create_nqueens(options).err(), Some(EvolutionError::Configuration));

    let mut options = queens_options();
    options.mutation_rate = RATE_ONE + 1;
    assert_eq!(create_nqueens(options).err(), Some(EvolutionError::Configuration));

    let mut options = queens_options();
    options.crossover_rate = RATE_ONE + 1;
    assert_eq!(create_nqueens(options).err(), Some(EvolutionError::Configuration));
    // The salesman never crosses routes, so his crossover rate is not read.
    options.problem_size = 5;
    assert!(create_tsp(options).is_ok());

    let mut options = queens_options();
    options.problem_size = 21;
    assert_eq!(create_nqueens(options).err(), Some(EvolutionError::Configuration));
    options.problem_size = 1;
    assert_eq!(create_nqueens(options).err(), Some(EvolutionError::Configuration));
    options.problem_size = 9;
    assert_eq!(
        StandardPopulation::<EightQueens>::new(options).err(),
        Some(EvolutionError::Configuration)
    );

    let mut options = salesman_options();
    options.problem_size = 2;
    assert_eq!(create_tsp(options).err(), Some(EvolutionError::Configuration));
    options.problem_size = usize::MAX;
    assert_eq!(create_tsp(options).err(), Some(EvolutionError::Configuration));
    options.problem_size = 8;
    options.population = 0;
    assert_eq!(create_tsp(options).err(), Some(EvolutionError::Configuration));
}

#[test]
fn twenty_queens_scenario() {
    let mut population = create_nqueens(queens_options()).unwrap();
    assert_eq!(population.evolve(), Ok(()));
    let stats = *population.stats();
    assert!(population.is_finished());
    assert!(1 <= stats.generation && stats.generation <= 50);
    assert!(0 < stats.fitness && stats.fitness <= FITNESS_ONE);
    if stats.generation < 50 {
        assert_eq!(stats.fitness, FITNESS_ONE);
        assert_eq!(population.best().genotype.count_clashes(), 0);
    }
    assert_eq!(population.best().fitness, stats.fitness);
    assert_eq!(population.individuals().len(), 20);
    assert_sorted(population.individuals(), false);
    for individual in population.individuals().iter() {
        assert_eq!(individual.genotype.fitness(&None), Ok(individual.fitness));
    }
    assert!(stats.total_mutations <= 20 * stats.generation as u128);
    assert!(stats.total_crossovers <= 20 * stats.generation as u128);
}

#[test]
fn traveling_salesman_scenario() {
    let (mut population, distances) = create_tsp(salesman_options()).unwrap();
    assert!(population.options().minimize);
    assert_eq!(population.options().crossover_rate, 0);
    assert_eq!(distances.size(), 8);
    population.set_context(distances);
    let mut best = u64::MAX;
    for generation in 1..=30 {
        assert_eq!(population.next(), Ok(()));
        let stats = *population.stats();
        assert_eq!(stats.generation, generation);
        assert_eq!(stats.crossovers, 0);
        assert_eq!(stats.total_crossovers, 0);
        assert!(stats.mutations <= 12);
        assert!(stats.fitness <= best);
        best = stats.fitness;
        assert_sorted(population.individuals(), true);
        for individual in population.individuals().iter() {
            assert_eq!(individual.genotype.genome().len(), 8);
            assert_eq!(
                individual.genotype.fitness(population.context()),
                Ok(individual.fitness)
            );
        }
    }
    assert!(best > 0);
}

#[test]
fn salesman_without_distances_cannot_run() {
    let (mut population, distances) = create_tsp(salesman_options()).unwrap();
    assert_eq!(population.next(), Err(EvolutionError::MissingContext));
    assert_eq!(population.evolve(), Err(EvolutionError::MissingContext));
    assert_eq!(population.stats().generation, 0);
    assert!(!population.is_ready());

    let other: DistanceTable = distance_table(&vec![(0, 0), (1, 1), (2, 2)]);
    population.set_context(other);
    assert_eq!(population.evolve(), Err(EvolutionError::MissingContext));

    population.set_context(distances);
    assert_eq!(population.evolve(), Ok(()));
    assert!(population.is_finished());
    assert_eq!(population.stats().generation, 30);
}

#[test]
fn mutation_rate_zero_and_one() {
    let mut options = queens_options();
    options.problem_size = 8;
    options.target_fitness = u64::MAX;
    options.mutation_rate = 0;
    let mut population = create_nqueens(options).unwrap();
    for _ in 0..20 {
        assert_eq!(population.next(), Ok(()));
        assert_eq!(population.stats().mutations, 0);
        assert_eq!(population.stats().total_mutations, 0);
    }

    options.mutation_rate = RATE_ONE;
    let mut population = create_nqueens(options).unwrap();
    for generation in 1..=20u128 {
        assert_eq!(population.next(), Ok(()));
        assert_eq!(population.stats().mutations, 20);
        assert_eq!(population.stats().total_mutations, 20 * generation);
    }
}

#[test]
fn crossover_rate_zero_and_one() {
    let mut options = queens_options();
    options.problem_size = 8;
    options.target_fitness = u64::MAX;
    options.crossover_rate = 0;
    let mut population = create_nqueens(options).unwrap();
    assert_eq!(population.evolve(), Ok(()));
    assert_eq!(population.stats().generation, 50);
    assert_eq!(population.stats().crossovers, 0);
    assert_eq!(population.stats().total_crossovers, 0);

    options.crossover_rate = RATE_ONE;
    let mut population = create_nqueens(options).unwrap();
    assert_eq!(population.evolve(), Ok(()));
    assert_eq!(population.stats().generation, 50);
    assert_eq!(population.stats().crossovers, 20);
    assert_eq!(population.stats().total_crossovers, 20 * 50);
}

#[test]
fn elitism_never_loses_the_best() {
    for minimize in [false, true] {
        let mut options = queens_options();
        options.problem_size = 10;
        options.minimize = minimize;
        options.target_fitness = if minimize { 0 } else { u64::MAX };
        options.mutation_rate = RATE_ONE;
        let mut population = create_nqueens(options).unwrap();
        assert_eq!(population.next(), Ok(()));
        let mut best = population.stats().fitness;
        for _ in 0..40 {
            let elite = population.best().genotype.genome().clone();
            assert_eq!(population.next(), Ok(()));
            let now = population.stats().fitness;
            assert!(is_better_or_equal(now, best, minimize));
            assert!(population
                .individuals()
                .iter()
                .any(|individual| individual.genotype.genome() == &elite));
            let generation = population.stats().generation;
            let older = population
                .individuals()
                .iter()
                .filter(|individual| individual.generation != generation)
                .count();
            assert_eq!(older, 1);
            best = now;
        }
    }
}

#[test]
fn without_elitism_every_individual_is_new() {
    let mut options = queens_options();
    options.problem_size = 8;
    options.no_elitism = true;
    options.target_fitness = u64::MAX;
    let mut population = create_nqueens(options).unwrap();
    for generation in 1..=10 {
        assert_eq!(population.next(), Ok(()));
        for individual in population.individuals().iter() {
            assert_eq!(individual.generation, generation);
        }
    }
}

#[test]
fn unbounded_run_ends_at_the_target() {
    let mut options = queens_options();
    options.problem_size = 4;
    options.population = 30;
    options.max_generations = 0;
    options.mutation_rate = 500_000;
    let mut population = create_nqueens(options).unwrap();
    assert_eq!(population.evolve(), Ok(()));
    assert!(population.is_finished());
    assert_eq!(population.stats().fitness, FITNESS_ONE);
    assert_eq!(population.best().genotype.count_clashes(), 0);
    assert!(population.stats().generation >= 1);
}

#[test]
fn evolve_runs_at_least_one_generation() {
    let mut options = queens_options();
    options.problem_size = 8;
    options.minimize = true;
    options.target_fitness = FITNESS_ONE;
    let mut population = create_nqueens(options).unwrap();
    assert!(!population.is_finished());
    assert_eq!(population.evolve(), Ok(()));
    // Every board scores at most FITNESS_ONE, so the first generation
    // already meets a target that is to be undercut.
    assert_eq!(population.stats().generation, 1);
    assert!(population.is_finished());
    assert!(population.is_ready());
}

#[test]
fn eight_queens_evolve() {
    let mut options = queens_options();
    options.problem_size = 8;
    options.max_generations = 40;
    let mut population = StandardPopulation::<EightQueens>::new(options).unwrap();
    assert_eq!(population.evolve(), Ok(()));
    let stats = *population.stats();
    assert!(1 <= stats.generation && stats.generation <= 40);
    assert!(500_000 <= stats.fitness && stats.fitness <= FITNESS_ONE);
    assert_sorted(population.individuals(), false);
}

#[test]
fn strategies_without_an_algorithm_fail() {
    for selection in [
        ParentSelection::StochasticUniversalSampling,
        ParentSelection::TournamentSelection,
        ParentSelection::RankSelection,
    ] {
        let mut options = queens_options();
        options.parent_selection = selection;
        let mut population = create_nqueens(options).unwrap();
        assert!(!population.is_implemented());
        assert_eq!(population.next(), Err(EvolutionError::NotImplemented));
        assert_eq!(population.evolve(), Err(EvolutionError::NotImplemented));
        assert_eq!(population.stats().generation, 0);
        assert!(population.individuals().iter().all(|individual| individual.fitness == 0));
    }
    for survivors in [SurvivorSelection::AgeBased, SurvivorSelection::FitnessBased] {
        let mut options = queens_options();
        options.population_model = PopulationModel::SteadyState;
        options.survivor_selection = survivors;
        let mut population = create_nqueens(options).unwrap();
        assert_eq!(population.next(), Err(EvolutionError::NotImplemented));
        assert_eq!(population.evolve(), Err(EvolutionError::NotImplemented));
        assert_eq!(population.individuals().len(), 20);
    }
}

#[test]
fn report_is_due_once_a_second() {
    let mut population = create_nqueens(queens_options()).unwrap();
    assert!(!population.report_due(0));
    assert!(!population.report_due(1000));
    assert_eq!(population.stats().elapsed_millis, 1000);
    assert!(population.report_due(1001));
    assert!(!population.report_due(1500));
    assert!(!population.report_due(2001));
    assert!(population.report_due(2002));
    assert_eq!(population.stats().elapsed_millis, 2002);
    // A clock that runs backwards asks for no report.
    assert!(!population.report_due(5));
    assert_eq!(population.stats().elapsed_millis, 5);
    assert!(population.report_due(u64::MAX));
}
