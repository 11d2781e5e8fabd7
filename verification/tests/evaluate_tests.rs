use nurse_ga::config::{
    Config, CrossoverFN, InitialPopType, ParentSelectionFN, ScrambleFN, SurvivorSelectionFN,
};
use nurse_ga::evaluate::{
    duration_demand_nurse, fitness_nurse, get_best_fitness_population,
    get_best_solution_population, is_feasible_fitness_individual, is_feasible_fitness_nurse,
};
use nurse_ga::io::{Depot, Info, Patient, TravelTimes};
use nurse_ga::nurse::{Individual, Nurse};

fn toy_info_eval() -> Info {
    // depot + 4 patients; symmetric integer travel times
    let times: Vec<Vec<u32>> = vec![
        vec![0, 2, 3, 4, 5],
        vec![2, 0, 1, 2, 3],
        vec![3, 1, 0, 1, 2],
        vec![4, 2, 1, 0, 1],
        vec![5, 3, 2, 1, 0],
    ];
    let patients = vec![
        Patient { x_coord: 0, y_coord: 1, demand: 1, start_time: 0, end_time: 20, care_time: 2 },
        Patient { x_coord: 0, y_coord: 2, demand: 1, start_time: 5, end_time: 25, care_time: 2 },
        Patient { x_coord: 0, y_coord: 3, demand: 1, start_time: 10, end_time: 30, care_time: 2 },
        Patient { x_coord: 0, y_coord: 4, demand: 1, start_time: 15, end_time: 40, care_time: 2 },
    ];
    Info {
        instance_name: String::from("toy"),
        nbr_nurses: 2,
        capacity_nurse: 3,
        benchmark: 0,
        depot: Depot { return_time: 100, x_coord: 0, y_coord: 0 },
        travel_times: TravelTimes { times },
        travel_times_sorted: vec![vec![1, 2, 3], vec![0, 2, 3], vec![3, 1, 0], vec![2, 1, 0]],
        patients,
    }
}

fn toy_config_eval() -> Config {
    Config {
        use_islands: false,
        island_share_frequency: 5,
        run_time: 0,
        log_frequency: 10,
        file_name: String::from("toy"),
        population_size: 20,
        n_generations: 50,
        n_elitism: 2,
        n_stagnations: 5,
        crossover_rate: 800_000,
        crossover_tries: 5,
        heuristic_cluster_mutation_rate: 200_000,
        heuristic_swap_mutation_rate: 200_000,
        heuristic_random_swap_mutation_rate: 200_000,
        insert_mutation_rate: 200_000,
        large_neighbourhood_mutation_rate: 200_000,
        init_population_fn: InitialPopType::Feasible,
        parent_selection_fn: ParentSelectionFN::LinearRanking,
        crossover_fn: CrossoverFN::Visma,
        survivor_selection_fn: SurvivorSelectionFN::Crowding,
        scramble_fn: ScrambleFN::Delete,
        scaling_factor: 1500,
        n_parents_scaling: 1000,
        fitness_punishment_factor: 10,
        s: 1500,
        tournament_size: 3,
    }
}

#[test]
fn empty_route_scores_zero_and_is_feasible() {
    let info = toy_info_eval();
    let config = toy_config_eval();
    let nurse = Nurse::new();
    let (fit, feasible) = fitness_nurse(&nurse, &info, &config);
    assert_eq!(fit, 0);
    assert!(feasible);
    assert!(is_feasible_fitness_nurse(&nurse, &info));
}

#[test]
fn fitness_of_simple_route_is_exact() {
    let info = toy_info_eval();
    let config = toy_config_eval();
    // depot -> p0 -> p1 -> depot
    // travel 2 (arrive 2, care until 4), travel 1 (arrive 5, wait to 5, care until 7),
    // back 3; no violations, demand 2 <= 3, time 10 <= 100
    let nurse = Nurse { capacity: 0, route: vec![0, 1] };
    let (fit, feasible) = fitness_nurse(&nurse, &info, &config);
    assert_eq!(fit, 2 + 1 + 3);
    assert!(feasible);
    let (demand, duration) = duration_demand_nurse(&nurse, &info);
    assert_eq!(demand, 2);
    assert_eq!(duration, 10);
}

#[test]
fn window_violation_adds_scaled_penalty() {
    let mut info = toy_info_eval();
    let config = toy_config_eval();
    // shrink patient 1's window so the second visit finishes late
    info.patients[1].end_time = 6;
    let nurse = Nurse { capacity: 0, route: vec![0, 1] };
    let (fit, feasible) = fitness_nurse(&nurse, &info, &config);
    // base cost 6 plus the triggering travel time 1 times the factor 10
    assert_eq!(fit, 6 + 1 * 10);
    assert!(!feasible);
    assert!(!is_feasible_fitness_nurse(&nurse, &info));
    // the same route with the violation removed scores strictly lower
    let relaxed = toy_info_eval();
    let (fit_ok, _) = fitness_nurse(&nurse, &relaxed, &config);
    assert!(fit > fit_ok);
}

#[test]
fn capacity_and_overtime_penalties_are_fixed() {
    let mut info = toy_info_eval();
    let config = toy_config_eval();
    info.capacity_nurse = 1;
    let nurse = Nurse { capacity: 0, route: vec![0, 1] };
    let (fit, feasible) = fitness_nurse(&nurse, &info, &config);
    assert_eq!(fit, 6 + 1000);
    assert!(!feasible);

    let mut info2 = toy_info_eval();
    info2.depot.return_time = 9;
    let (fit2, feasible2) = fitness_nurse(&nurse, &info2, &config);
    assert_eq!(fit2, 6 + 3000);
    assert!(!feasible2);
}

#[test]
fn individual_feasibility_is_conjunction_over_routes() {
    let mut info = toy_info_eval();
    info.patients[1].end_time = 6;
    let good = Nurse { capacity: 0, route: vec![0] };
    let bad = Nurse { capacity: 0, route: vec![1] };
    // p1 alone: travel 3, arrive 3, wait to 5, care until 7 > 6 -> infeasible
    let ind = Individual { nurses: vec![good, bad], fitness: 0, feasible: false };
    assert!(!is_feasible_fitness_individual(&ind, &info));
}

#[test]
fn best_solution_is_one_indexed() {
    let info = toy_info_eval();
    let a = Individual {
        nurses: vec![
            Nurse { capacity: 0, route: vec![0, 1] },
            Nurse { capacity: 0, route: vec![2, 3] },
        ],
        fitness: 50,
        feasible: true,
    };
    let b = Individual {
        nurses: vec![
            Nurse { capacity: 0, route: vec![3, 2] },
            Nurse { capacity: 0, route: vec![1, 0] },
        ],
        fitness: 10,
        feasible: true,
    };
    let pop = vec![a, b];
    assert_eq!(get_best_fitness_population(&pop), 10);
    let best = get_best_solution_population(&pop, &info);
    assert_eq!(best, vec![vec![4, 3], vec![2, 1]]);
}
