use nurse_ga::config::{
    Config, CrossoverFN, InitialPopType, ParentSelectionFN, ScrambleFN, SurvivorSelectionFN,
};
use nurse_ga::crossover::{population_crossover, visma_crossover, visma_more_optimized};
use nurse_ga::initialize_population::feasible_init_individual;
use nurse_ga::io::{Depot, Info, Patient, TravelTimes};
use nurse_ga::large_neighborhood::destroy_and_repair;
use nurse_ga::mutation::{
    heuristic_cluster_mutation, heuristic_insert_mutation, heuristic_swap_mutation,
    heurisitc_random_cross_swap_mutation2, mutate_nurse,
};
use nurse_ga::nurse::{Individual, Nurse};
use rand::SeedableRng;

fn toy_info_ops(n_patients: usize, n_nurses: u32) -> Info {
    let side = n_patients + 1;
    let mut times = Vec::new();
    for i in 0..side {
        let mut row = Vec::new();
        for j in 0..side {
            let d = if i > j { i - j } else { j - i };
            row.push(d as u32);
        }
        times.push(row);
    }
    let mut patients = Vec::new();
    for p in 0..n_patients {
        patients.push(Patient {
            x_coord: p as i32,
            y_coord: 0,
            demand: 1,
            start_time: 0,
            end_time: 500,
            care_time: 1,
        });
    }
    let mut sorted = Vec::new();
    for p in 0..n_patients {
        let mut row = Vec::new();
        for q in 0..n_patients {
            if q != p {
                row.push(q);
            }
        }
        sorted.push(row);
    }
    Info {
        instance_name: String::from("ops"),
        nbr_nurses: n_nurses,
        capacity_nurse: 100,
        benchmark: 0,
        depot: Depot { return_time: 1000, x_coord: 0, y_coord: 0 },
        travel_times: TravelTimes { times },
        travel_times_sorted: sorted,
        patients,
    }
}

fn toy_config_ops() -> Config {
    Config {
        use_islands: false,
        island_share_frequency: 5,
        run_time: 0,
        log_frequency: 10,
        file_name: String::from("ops"),
        population_size: 10,
        n_generations: 10,
        n_elitism: 2,
        n_stagnations: 5,
        crossover_rate: 1_000_000,
        crossover_tries: 5,
        heuristic_cluster_mutation_rate: 1_000_000,
        heuristic_swap_mutation_rate: 1_000_000,
        heuristic_random_swap_mutation_rate: 1_000_000,
        insert_mutation_rate: 1_000_000,
        large_neighbourhood_mutation_rate: 1_000_000,
        init_population_fn: InitialPopType::Feasible,
        parent_selection_fn: ParentSelectionFN::LinearRanking,
        crossover_fn: CrossoverFN::Visma,
        survivor_selection_fn: SurvivorSelectionFN::Crowding,
        scramble_fn: ScrambleFN::Delete,
        scaling_factor: 1500,
        n_parents_scaling: 1000,
        fitness_punishment_factor: 10,
        s: 1500,
        tournament_size: 3,
    }
}

/// The patient-partition invariant, checked concretely: every id below
/// `n_patients` occurs exactly once across all routes.
fn assert_partition(nurses: &Vec<Nurse>, n_patients: usize) {
    let mut counts = vec![0usize; n_patients];
    for nurse in nurses {
        for &p in &nurse.route {
            assert!(p < n_patients);
            counts[p] += 1;
        }
    }
    for p in 0..n_patients {
        assert_eq!(counts[p], 1, "patient {} not visited exactly once", p);
    }
}

#[test]
fn initializer_produces_a_partition() {
    let info = toy_info_ops(8, 3);
    let config = toy_config_ops();
    let mut rng = rand::rngs::StdRng::seed_from_u64(1);
    let ind = feasible_init_individual(&info, &config, &mut rng).unwrap();
    assert_eq!(ind.nurses.len(), 3);
    assert_partition(&ind.nurses, 8);
}

#[test]
fn crossover_with_zero_rate_clones_parents() {
    let info = toy_info_ops(6, 2);
    let mut config = toy_config_ops();
    config.crossover_rate = 0;
    let mut rng = rand::rngs::StdRng::seed_from_u64(2);
    let p1 = feasible_init_individual(&info, &config, &mut rng).unwrap();
    let p2 = feasible_init_individual(&info, &config, &mut rng).unwrap();
    for _ in 0..10 {
        let (c1, c2) = visma_crossover(&p1, &p2, &info, &config, &mut rng);
        assert!(c1 == p1);
        assert!(c2 == p2);
    }
}

#[test]
fn crossover_children_keep_the_partition() {
    let info = toy_info_ops(8, 3);
    let config = toy_config_ops();
    let mut rng = rand::rngs::StdRng::seed_from_u64(3);
    let p1 = feasible_init_individual(&info, &config, &mut rng).unwrap();
    let p2 = feasible_init_individual(&info, &config, &mut rng).unwrap();
    for _ in 0..20 {
        let (c1, c2) = visma_crossover(&p1, &p2, &info, &config, &mut rng);
        assert_partition(&c1.nurses, 8);
        assert_partition(&c2.nurses, 8);
        let (c3, c4) = visma_more_optimized(&p1, &p2, &info, &config, &mut rng);
        assert_partition(&c3.nurses, 8);
        assert_partition(&c4.nurses, 8);
    }
}

#[test]
fn population_crossover_breeds_in_pairs() {
    let info = toy_info_ops(6, 2);
    let config = toy_config_ops();
    let mut rng = rand::rngs::StdRng::seed_from_u64(4);
    let mut pop = Vec::new();
    for _ in 0..4 {
        pop.push(feasible_init_individual(&info, &config, &mut rng).unwrap());
    }
    let indices = vec![0usize, 1, 2, 3];
    let children = population_crossover(&pop, &indices, &info, &config, &mut rng);
    assert_eq!(children.len(), 4);
    for c in &children {
        assert_partition(&c.nurses, 6);
    }
}

#[test]
fn mutation_operators_keep_the_partition() {
    let info = toy_info_ops(10, 3);
    let config = toy_config_ops();
    let mut rng = rand::rngs::StdRng::seed_from_u64(5);
    let ind = feasible_init_individual(&info, &config, &mut rng).unwrap();
    for trial in 0..20 {
        let mut nurses: Vec<Nurse> = ind.nurses.iter().map(|n| n.duplicate()).collect();
        match trial % 5 {
            0 => heuristic_cluster_mutation(&mut nurses, &mut rng, &info, &config),
            1 => heuristic_swap_mutation(&mut nurses, &mut rng, &info, &config),
            2 => heurisitc_random_cross_swap_mutation2(&mut nurses, &mut rng, &info, &config),
            3 => heuristic_insert_mutation(&mut nurses, &mut rng, &info, &config),
            _ => destroy_and_repair(&mut nurses, &mut rng, &info, &config),
        }
        assert_partition(&nurses, 10);
    }
}

#[test]
fn mutation_pipeline_keeps_the_partition() {
    let info = toy_info_ops(10, 3);
    let config = toy_config_ops();
    let mut rng = rand::rngs::StdRng::seed_from_u64(6);
    let ind = feasible_init_individual(&info, &config, &mut rng).unwrap();
    let mut nurses = ind.nurses;
    for _ in 0..10 {
        mutate_nurse(&mut nurses, &mut rng, &info, &config);
        assert_partition(&nurses, 10);
    }
}

#[test]
fn test_heuristic_cluster_mutation() {
    let info = toy_info_ops(10, 3);
    let config = toy_config_ops();
    let mut rng = rand::rngs::StdRng::seed_from_u64(7);
    let individual = feasible_init_individual(&info, &config, &mut rng).unwrap();
    let individual_before = individual.duplicate();
    assert_partition(&individual_before.nurses, 10);
    let mut individual = individual;
    for _ in 0..5 {
        heuristic_cluster_mutation(&mut individual.nurses, &mut rng, &info, &config);
        if !(individual_before == individual) {
            break;
        }
    }
    assert!(!(individual_before == individual));
    assert_partition(&individual.nurses, 10);
}

#[test]
fn swap_mutation_always_fires_on_long_routes() {
    let info = toy_info_ops(9, 3);
    let config = toy_config_ops();
    let mut rng = rand::rngs::StdRng::seed_from_u64(8);
    // every route holds three patients, so the sampler cannot fail and the
    // best swap of some route must be applied
    let routes = vec![vec![0usize, 1, 2], vec![3, 4, 5], vec![6, 7, 8]];
    for _ in 0..10 {
        let mut nurses: Vec<Nurse> =
            routes.iter().map(|r| Nurse { capacity: 0, route: r.clone() }).collect();
        heuristic_swap_mutation(&mut nurses, &mut rng, &info, &config);
        let changed = (0..3).any(|k| nurses[k].route != routes[k]);
        assert!(changed);
        assert_partition(&nurses, 9);
    }
}

#[test]
fn destroy_and_repair_always_fires_on_long_routes() {
    let info = toy_info_ops(12, 2);
    let config = toy_config_ops();
    let mut rng = rand::rngs::StdRng::seed_from_u64(9);
    let routes = vec![vec![0usize, 1, 2, 3, 4, 5], vec![6, 7, 8, 9, 10, 11]];
    let mut fired = false;
    for _ in 0..10 {
        let mut nurses: Vec<Nurse> =
            routes.iter().map(|r| Nurse { capacity: 0, route: r.clone() }).collect();
        destroy_and_repair(&mut nurses, &mut rng, &info, &config);
        assert_partition(&nurses, 12);
        if (0..2).any(|k| nurses[k].route != routes[k]) {
            fired = true;
        }
    }
    assert!(fired);
}

#[test]
fn full_rate_crossover_always_exchanges() {
    let info = toy_info_ops(8, 2);
    let mut config = toy_config_ops();
    config.crossover_rate = 1_000_000;
    let mut rng = rand::rngs::StdRng::seed_from_u64(10);
    // both parents have only non-empty routes, so the exchange is forced
    let p1 = Individual {
        nurses: vec![
            Nurse { capacity: 0, route: vec![0, 1, 2, 3] },
            Nurse { capacity: 0, route: vec![4, 5, 6, 7] },
        ],
        fitness: 11,
        feasible: true,
    };
    let p2 = Individual {
        nurses: vec![
            Nurse { capacity: 0, route: vec![7, 6, 5, 4] },
            Nurse { capacity: 0, route: vec![3, 2, 1, 0] },
        ],
        fitness: 13,
        feasible: true,
    };
    for _ in 0..5 {
        let (c1, c2) = visma_crossover(&p1, &p2, &info, &config, &mut rng);
        assert_partition(&c1.nurses, 8);
        assert_partition(&c2.nurses, 8);
        // children carry the parents' stale cached scores
        assert_eq!(c1.fitness, 11);
        assert_eq!(c2.fitness, 13);
    }
}
