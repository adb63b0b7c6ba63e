use rust_ga::ea::{Genotype, Phenotype};
use rust_ga::problems::tsp::{
    create_random_cities, create_random_path, distance_between, distance_table, integer_sqrt,
    shift_elements, wrapped_position,
};
use rust_ga::problems::{DistanceTable, TravelingSalesman};
use rust_ga::{
    EvolutionError, Options, ParentSelection, PopulationModel, Problem, SurvivorSelection,
};

fn options(problem_size: usize) -> Options {
    Options {
        population: 10,
        max_generations: 10,
        target_fitness: 0,
        mutation_rate: 100_000,
        crossover_rate: 0,
        no_elitism: false,
        minimize: true,
        parent_selection: ParentSelection::RouletteWheel,
        survivor_selection: SurvivorSelection::FitnessBased,
        population_model: PopulationModel::Generational,
        debug: false,
        problem: Problem::TravelingSalesman,
        problem_size,
    }
}

fn is_permutation(genome: &Vec<usize>) -> bool {
    let mut seen = vec![false; genome.len()];
    for &city in genome.iter() {
        if city >= genome.len() || seen[city] {
            return false;
        }
        seen[city] = true;
    }
    true
}

#[test]
fn test_mutate() {
    let mut cities = vec![1, 2, 3, 4, 5];
    shift_elements(&mut cities, 0, 2, 1);
    assert_eq!(cities, [3, 1, 2, 4, 5]);

    cities = vec![1, 2, 3, 4, 5];
    shift_elements(&mut cities, 3, 5, 2);
    assert_eq!(cities, [4, 5, 3, 1, 2]);

    cities = vec![1, 2, 3, 4, 5];
    shift_elements(&mut cities, 0, 3, 1);
    assert_eq!(cities, [4, 1, 2, 3, 5]);

    cities = vec![1, 2, 3, 4, 5];
    shift_elements(&mut cities, 0, 5, 5);
    assert_eq!(cities, [1, 2, 3, 4, 5]);
}

#[test]
fn shift_with_huge_offset_does_not_overflow() {
    let mut cities = vec![1, 2, 3, 4, 5];
    // usize::MAX is a multiple of 5, so this shift is no shift at all.
    shift_elements(&mut cities, 0, 5, usize::MAX);
    assert_eq!(cities, [1, 2, 3, 4, 5]);

    cities = vec![1, 2, 3, 4, 5];
    shift_elements(&mut cities, 0, 2, usize::MAX - 4);
    assert_eq!(cities, [3, 1, 2, 4, 5]);
}

#[test]
fn shift_keeps_the_cities() {
    for from in 0..6 {
        for to in from + 1..=6 {
            for shift in 0..13 {
                let mut cities = vec![0, 1, 2, 3, 4, 5];
                shift_elements(&mut cities, from, to, shift);
                assert!(is_permutation(&cities));
            }
        }
    }
}

#[test]
fn wrapped_position_wraps_at_the_length() {
    assert_eq!(wrapped_position(0, 0, 5), 0);
    assert_eq!(wrapped_position(3, 1, 5), 4);
    assert_eq!(wrapped_position(3, 2, 5), 0);
    assert_eq!(wrapped_position(4, 5, 5), 4);
    assert_eq!(wrapped_position(4, 13, 5), 2);
    assert_eq!(wrapped_position(2, usize::MAX, 5), 2);
}

#[test]
fn integer_sqrt_rounds_down() {
    assert_eq!(integer_sqrt(0), 0);
    assert_eq!(integer_sqrt(1), 1);
    assert_eq!(integer_sqrt(3), 1);
    assert_eq!(integer_sqrt(4), 2);
    assert_eq!(integer_sqrt(99), 9);
    assert_eq!(integer_sqrt(100), 10);
    assert_eq!(integer_sqrt(2_000_000_000_000), 1_414_213);
    assert_eq!(integer_sqrt(u64::MAX), 4_294_967_295);
}

#[test]
fn distances_are_euclidean_in_millionths() {
    assert_eq!(distance_between((0, 0), (0, 0)), 0);
    assert_eq!(distance_between((0, 0), (3, 4)), 5_000_000);
    assert_eq!(distance_between((3, 4), (0, 0)), 5_000_000);
    assert_eq!(distance_between((0, 0), (1, 1)), 1_414_213);
    assert_eq!(distance_between((10, 20), (10, 499)), 479_000_000);
    assert_eq!(distance_between((0, 0), (499, 499)), 705_692_567);
}

#[test]
fn distance_table_holds_every_pair() {
    let cities = vec![(0, 0), (3, 4), (6, 8)];
    let table = distance_table(&cities);
    assert_eq!(table.size(), 3);
    for city in 0..3 {
        assert_eq!(table.distance(city, city), 0);
    }
    assert_eq!(table.distance(0, 1), 5_000_000);
    assert_eq!(table.distance(1, 0), 5_000_000);
    assert_eq!(table.distance(0, 2), 10_000_000);
    assert_eq!(table.distance(2, 1), 5_000_000);
}

#[test]
fn distance_table_needs_a_square_of_cells() {
    assert!(DistanceTable::new(2, vec![0, 1, 1, 0]).is_some());
    assert!(DistanceTable::new(2, vec![0, 1, 1]).is_none());
    assert!(DistanceTable::new(0, vec![]).is_some());
    assert!(DistanceTable::new(usize::MAX, vec![1]).is_none());
    let table = DistanceTable::new(2, vec![0, 7, 9, 0]).unwrap();
    // The cell at `to * size + from` is the leg from `from` to `to`.
    assert_eq!(table.distance(1, 0), 7);
    assert_eq!(table.distance(0, 1), 9);
}

#[test]
fn random_cities_lie_on_the_map() {
    let table = create_random_cities(6);
    assert_eq!(table.size(), 6);
    for from in 0..6 {
        assert_eq!(table.distance(from, from), 0);
        for to in 0..6 {
            assert_eq!(table.distance(from, to), table.distance(to, from));
            assert!(table.distance(from, to) <= 705_692_567);
        }
    }
}

#[test]
fn random_path_is_a_tour() {
    let mut rng = rand::thread_rng();
    for length in 0..12 {
        let path = create_random_path(length, &mut rng);
        assert_eq!(path.len(), length);
        assert!(is_permutation(&path));
    }
}

#[test]
fn random_paths_are_shuffled() {
    let mut rng = rand::thread_rng();
    let ordered: Vec<usize> = (0..20).collect();
    let mut shuffled = false;
    for _ in 0..50 {
        if create_random_path(20, &mut rng) != ordered {
            shuffled = true;
        }
    }
    assert!(shuffled);
}

#[test]
fn routes_need_three_cities_that_exist() {
    assert!(TravelingSalesman::from_genome(vec![0, 1]).is_none());
    assert!(TravelingSalesman::from_genome(vec![0, 1, 3]).is_none());
    assert!(TravelingSalesman::from_genome(vec![]).is_none());
    let route = TravelingSalesman::from_genome(vec![2, 0, 1]).unwrap();
    assert_eq!(route.genome(), &vec![2, 0, 1]);
    // A route may visit a city twice: crossover makes such routes.
    assert!(TravelingSalesman::from_genome(vec![1, 1, 1]).is_some());
}

#[test]
fn swap_cities_exchanges_two_places() {
    let mut route = TravelingSalesman::from_genome(vec![0, 1, 2, 3]).unwrap();
    route.swap_cities(0, 3);
    assert_eq!(route.genome(), &vec![3, 1, 2, 0]);
    route.swap_cities(1, 1);
    assert_eq!(route.genome(), &vec![3, 1, 2, 0]);
}

#[test]
fn tsp_crossover_splits_at_the_index() {
    let a = TravelingSalesman::from_genome(vec![0, 1, 2, 3, 4]).unwrap();
    let b = TravelingSalesman::from_genome(vec![4, 3, 2, 1, 0]).unwrap();
    assert_eq!(a.crossover_at(&b, 0).genome(), &vec![4, 3, 2, 1, 0]);
    assert_eq!(a.crossover_at(&b, 2).genome(), &vec![0, 1, 2, 1, 0]);
    assert_eq!(a.crossover_at(&b, 5).genome(), &vec![0, 1, 2, 3, 4]);
    assert_eq!(a.crossover_at(&a, 3).genome(), a.genome());
}

#[test]
fn tsp_random_crossover_mixes_the_parents() {
    let mut rng = rand::thread_rng();
    let a = TravelingSalesman::from_genome(vec![0, 1, 2, 3, 4]).unwrap();
    let b = TravelingSalesman::from_genome(vec![4, 3, 2, 1, 0]).unwrap();
    for _ in 0..50 {
        let child = a.crossover(&b, &mut rng);
        let index = (0..5)
            .find(|&i| child.genome()[i] != a.genome()[i])
            .unwrap_or(5);
        // The random index is below the length: the last city is the other
        // parent's.
        assert!(index < 5);
        assert_eq!(child.genome(), a.crossover_at(&b, index).genome());
    }
}

#[test]
fn tsp_fitness_is_the_length_of_the_round_trip() {
    let cities = vec![(0, 0), (3, 4), (6, 8)];
    let table = Some(distance_table(&cities));
    let route = TravelingSalesman::from_genome(vec![0, 1, 2]).unwrap();
    assert_eq!(route.fitness(&table), Ok(20_000_000));
    let other = TravelingSalesman::from_genome(vec![2, 0, 1]).unwrap();
    assert_eq!(other.fitness(&table), Ok(20_000_000));
    let stuck = TravelingSalesman::from_genome(vec![1, 1, 1]).unwrap();
    assert_eq!(stuck.fitness(&table), Ok(0));
}

#[test]
fn tsp_fitness_reads_the_leg_in_travel_direction() {
    // Leg from 0 to 1 costs 1, from 1 to 2 costs 10, from 2 to 0 costs 100;
    // the legs the other way round cost 1000 each.
    let table = Some(
        DistanceTable::new(3, vec![0, 1000, 100, 1, 0, 1000, 1000, 10, 0]).unwrap(),
    );
    let route = TravelingSalesman::from_genome(vec![0, 1, 2]).unwrap();
    assert_eq!(route.fitness(&table), Ok(111));
    let back = TravelingSalesman::from_genome(vec![2, 1, 0]).unwrap();
    assert_eq!(back.fitness(&table), Ok(3000));
}

#[test]
fn tsp_fitness_needs_a_table_of_its_size() {
    let route = TravelingSalesman::from_genome(vec![0, 1, 2]).unwrap();
    assert_eq!(route.fitness(&None), Err(EvolutionError::MissingContext));
    let small = Some(DistanceTable::new(2, vec![0, 1, 1, 0]).unwrap());
    assert_eq!(route.fitness(&small), Err(EvolutionError::MissingContext));
    let large = Some(distance_table(&vec![(0, 0), (1, 0), (2, 0), (3, 0)]));
    assert_eq!(route.fitness(&large), Err(EvolutionError::MissingContext));
}

#[test]
fn tsp_new_makes_tours() {
    let mut rng = rand::thread_rng();
    assert!(TravelingSalesman::accepts(&options(3)));
    assert!(!TravelingSalesman::accepts(&options(2)));
    for size in 3..10 {
        let route = TravelingSalesman::new(&mut rng, &options(size));
        assert_eq!(route.genome().len(), size);
        assert!(is_permutation(route.genome()));
    }
}

#[test]
fn tsp_mutation_keeps_a_tour_a_tour() {
    let mut rng = rand::thread_rng();
    for size in 3..9 {
        let mut route = TravelingSalesman::new(&mut rng, &options(size));
        for _ in 0..200 {
            route.mutate(&mut rng);
            assert_eq!(route.genome().len(), size);
            assert!(is_permutation(route.genome()));
        }
    }
}

#[test]
fn tsp_mutation_changes_routes() {
    let mut rng = rand::thread_rng();
    let mut changed = false;
    for _ in 0..50 {
        let mut route = TravelingSalesman::from_genome(vec![0, 1, 2, 3, 4, 5]).unwrap();
        route.mutate(&mut rng);
        if route.genome() != &vec![0, 1, 2, 3, 4, 5] {
            changed = true;
        }
    }
    assert!(changed);
}
