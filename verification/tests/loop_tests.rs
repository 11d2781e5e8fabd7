use nurse_ga::config::{
    Config, CrossoverFN, InitialPopType, ParentSelectionFN, ScrambleFN, SurvivorSelectionFN,
};
use nurse_ga::evaluate::is_feasible_fitness_individual;
use nurse_ga::genetic_algo::{ga_init, ga_step, stagnation_step, start, StagnationAction};
use nurse_ga::initialize_population::{individual_from_routes, init_population};
use nurse_ga::io::{Depot, Info, Patient, TravelTimes};
use nurse_ga::island::{island_exchange, migration_pick};
use nurse_ga::nurse::Individual;
use rand::SeedableRng;

fn toy_info_loop() -> Info {
    // 4 patients, 2 nurses, non-overlapping windows, small integer matrix
    let times: Vec<Vec<u32>> = vec![
        vec![0, 1, 2, 2, 1],
        vec![1, 0, 1, 2, 2],
        vec![2, 1, 0, 1, 2],
        vec![2, 2, 1, 0, 1],
        vec![1, 2, 2, 1, 0],
    ];
    let patients = vec![
        Patient { x_coord: 1, y_coord: 0, demand: 1, start_time: 75, end_time: 100, care_time: 2 },
        Patient { x_coord: 2, y_coord: 0, demand: 1, start_time: 50, end_time: 75, care_time: 2 },
        Patient { x_coord: 3, y_coord: 0, demand: 1, start_time: 25, end_time: 50, care_time: 2 },
        Patient { x_coord: 4, y_coord: 0, demand: 1, start_time: 0, end_time: 25, care_time: 2 },
    ];
    Info {
        instance_name: String::from("loop"),
        nbr_nurses: 2,
        capacity_nurse: 4,
        benchmark: 0,
        depot: Depot { return_time: 200, x_coord: 0, y_coord: 0 },
        travel_times: TravelTimes { times },
        travel_times_sorted: vec![vec![1, 2, 3], vec![0, 2, 3], vec![1, 3, 0], vec![2, 1, 0]],
        patients,
    }
}

fn toy_config_loop() -> Config {
    Config {
        // island mode keeps the evaluation and mutation passes serial, so a
        // fixed seed makes the whole run reproducible
        use_islands: true,
        island_share_frequency: 5,
        run_time: 0,
        log_frequency: 10,
        file_name: String::from("loop"),
        population_size: 20,
        n_generations: 50,
        n_elitism: 2,
        n_stagnations: 5,
        crossover_rate: 800_000,
        crossover_tries: 5,
        heuristic_cluster_mutation_rate: 100_000,
        heuristic_swap_mutation_rate: 100_000,
        heuristic_random_swap_mutation_rate: 100_000,
        insert_mutation_rate: 100_000,
        large_neighbourhood_mutation_rate: 100_000,
        init_population_fn: InitialPopType::Feasible,
        parent_selection_fn: ParentSelectionFN::LinearRanking,
        crossover_fn: CrossoverFN::Visma,
        survivor_selection_fn: SurvivorSelectionFN::Crowding,
        scramble_fn: ScrambleFN::Keep,
        scaling_factor: 1500,
        n_parents_scaling: 1000,
        fitness_punishment_factor: 10,
        s: 1500,
        tournament_size: 3,
    }
}

fn check_partition_loop(ind: &Individual, n_patients: usize) {
    let mut counts = vec![0usize; n_patients];
    for nurse in &ind.nurses {
        for &p in &nurse.route {
            assert!(p < n_patients);
            counts[p] += 1;
        }
    }
    for p in 0..n_patients {
        assert_eq!(counts[p], 1);
    }
}

#[test]
fn end_to_end_toy_run_improves_on_generation_zero() {
    let info = toy_info_loop();
    let config = toy_config_loop();
    let mut rng = rand::rngs::StdRng::seed_from_u64(42);
    let saved: Vec<Vec<Vec<u64>>> = Vec::new();
    let mut state = ga_init(&info, &config, &saved, &mut rng).unwrap();
    let worst_gen0 = state.population.iter().map(|i| i.fitness).max().unwrap();
    for _ in 0..50 {
        ga_step(&mut state, &info, &config, &mut rng).unwrap();
    }
    assert_eq!(state.population.len(), 20);
    let best = state.population.iter().min_by_key(|i| i.fitness).unwrap();
    assert!(best.fitness < worst_gen0);
    assert!(is_feasible_fitness_individual(best, &info));
    for ind in &state.population {
        check_partition_loop(ind, 4);
    }
}

#[test]
fn start_runs_the_configured_number_of_generations() {
    let info = toy_info_loop();
    let mut config = toy_config_loop();
    config.n_generations = 5;
    let saved: Vec<Vec<Vec<u64>>> = Vec::new();
    let state = start(&info, &config, &saved, 7).unwrap();
    assert_eq!(state.generation, 5);
    assert_eq!(state.population.len(), 20);
}

#[test]
fn stagnation_restart_resets_the_counter() {
    // improvement resets the counter and records the new best
    let (a, c, b) = stagnation_step(3, 100, 90, 5);
    assert!(matches!(a, StagnationAction::Improved));
    assert_eq!(c, 0);
    assert_eq!(b, 90);
    // a counter beyond the threshold triggers a restart with counter zero
    let (a2, c2, b2) = stagnation_step(6, 100, 100, 5);
    assert!(matches!(a2, StagnationAction::Restart));
    assert_eq!(c2, 0);
    assert_eq!(b2, 100);
    // otherwise the counter grows by one
    let (a3, c3, _) = stagnation_step(2, 100, 100, 5);
    assert!(matches!(a3, StagnationAction::Stalled));
    assert_eq!(c3, 3);
}

#[test]
fn stuck_population_is_restarted_and_elite_kept() {
    let info = toy_info_loop();
    let mut config = toy_config_loop();
    // freeze the search so every generation stalls: no crossover, no mutation
    config.crossover_rate = 0;
    config.heuristic_cluster_mutation_rate = 0;
    config.heuristic_swap_mutation_rate = 0;
    config.heuristic_random_swap_mutation_rate = 0;
    config.insert_mutation_rate = 0;
    config.large_neighbourhood_mutation_rate = 0;
    config.n_stagnations = 3;
    let mut rng = rand::rngs::StdRng::seed_from_u64(9);
    let saved: Vec<Vec<Vec<u64>>> = Vec::new();
    let mut state = ga_init(&info, &config, &saved, &mut rng).unwrap();
    // the first step records the initial best; afterwards nothing improves
    ga_step(&mut state, &info, &config, &mut rng).unwrap();
    let best_before = state.best_fitness;
    let mut restarted = false;
    for _ in 0..8 {
        let counter_before = state.stagnation_counter;
        ga_step(&mut state, &info, &config, &mut rng).unwrap();
        if counter_before > config.n_stagnations {
            // this step restarted: the counter is reset immediately
            assert_eq!(state.stagnation_counter, 0);
            restarted = true;
            break;
        }
    }
    assert!(restarted);
    assert_eq!(state.population.len(), 20);
    // the Keep policy preserves a member at least as good as the old best
    let best_after = state.population.iter().map(|i| i.fitness).min().unwrap();
    assert!(best_after <= best_before);
}

#[test]
fn island_migration_swaps_one_member() {
    let info = toy_info_loop();
    let config = toy_config_loop();
    let mut rng = rand::rngs::StdRng::seed_from_u64(10);
    let saved: Vec<Vec<Vec<u64>>> = Vec::new();
    let mut pop = init_population(&info, &config, &saved, &mut rng).unwrap();
    let idx = migration_pick(&pop, &mut rng);
    assert!(idx < pop.len());
    // empty slot: the island only donates
    let donor = island_exchange(&mut pop, None, &info, &mut rng);
    assert_eq!(pop.len(), 19);
    check_partition_loop(&donor, 4);
    // occupied slot: the donated member is replaced by the migrant
    let migrant = donor.duplicate();
    let _second = island_exchange(&mut pop, Some(migrant), &info, &mut rng);
    assert_eq!(pop.len(), 19);
}

#[test]
fn persisted_routes_round_trip_through_validation() {
    let info = toy_info_loop();
    // 1-indexed ids, as the persistence format writes them
    let lists = vec![vec![1u64, 2], vec![3, 4]];
    let ind = individual_from_routes(&lists, &info).unwrap();
    check_partition_loop(&ind, 4);
    assert_eq!(ind.nurses[0].route, vec![0, 1]);
    assert_eq!(ind.nurses[1].route, vec![2, 3]);
    // a duplicated id is rejected
    let bad = vec![vec![1u64, 2], vec![2, 4]];
    assert!(individual_from_routes(&bad, &info).is_none());
    // a missing id is rejected
    let missing = vec![vec![1u64, 2], vec![3]];
    assert!(individual_from_routes(&missing, &info).is_none());
    // an out-of-range id is rejected
    let out = vec![vec![1u64, 2], vec![3, 5]];
    assert!(individual_from_routes(&out, &info).is_none());
}

#[test]
fn file_strategy_pads_and_trims_to_population_size() {
    let info = toy_info_loop();
    let mut config = toy_config_loop();
    config.init_population_fn = InitialPopType::File;
    config.population_size = 6;
    config.n_elitism = 1;
    let mut rng = rand::rngs::StdRng::seed_from_u64(11);
    let saved = vec![
        vec![vec![1u64, 2], vec![3, 4]],
        vec![vec![4u64, 3], vec![2, 1]],
    ];
    let pop = init_population(&info, &config, &saved, &mut rng).unwrap();
    assert_eq!(pop.len(), 6);
    for ind in &pop {
        check_partition_loop(ind, 4);
    }
}
