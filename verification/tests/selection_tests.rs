use nurse_ga::config::{
    Config, CrossoverFN, InitialPopType, ParentSelectionFN, ScrambleFN, SurvivorSelectionFN,
};
use nurse_ga::elitism::get_elitism_members;
use nurse_ga::nurse::{Individual, Nurse};
use nurse_ga::parent_selection::{
    linear_rank_probability, linear_ranking, parent_selection, probabilistic_ranking, tournament,
    weighted_pick,
};
use nurse_ga::survivor_selection::{
    acceptance_threshold, crowding, crowding_optimized, similarity, similarity_hashmap,
    survivor_selection,
};
use rand::SeedableRng;

fn sel_config() -> Config {
    Config {
        use_islands: false,
        island_share_frequency: 5,
        run_time: 0,
        log_frequency: 10,
        file_name: String::from("sel"),
        population_size: 10,
        n_generations: 10,
        n_elitism: 2,
        n_stagnations: 5,
        crossover_rate: 800_000,
        crossover_tries: 5,
        heuristic_cluster_mutation_rate: 0,
        heuristic_swap_mutation_rate: 0,
        heuristic_random_swap_mutation_rate: 0,
        insert_mutation_rate: 0,
        large_neighbourhood_mutation_rate: 0,
        init_population_fn: InitialPopType::Feasible,
        parent_selection_fn: ParentSelectionFN::LinearRanking,
        crossover_fn: CrossoverFN::Visma,
        survivor_selection_fn: SurvivorSelectionFN::Crowding,
        scramble_fn: ScrambleFN::Delete,
        scaling_factor: 1500,
        n_parents_scaling: 1000,
        fitness_punishment_factor: 10,
        s: 1500,
        tournament_size: 3,
    }
}

fn ind_with(routes: Vec<Vec<usize>>, fitness: u64) -> Individual {
    let nurses = routes.into_iter().map(|route| Nurse { capacity: 0, route }).collect();
    Individual { nurses, fitness, feasible: true }
}

#[test]
fn linear_rank_weights_sum_to_the_denominator() {
    // the probabilities w_i / (1000 * mu * (mu - 1)) sum to exactly one
    for mu in [2usize, 3, 5, 20] {
        for s in [1000u32, 1500, 2000] {
            let mut sum: u64 = 0;
            for i in 0..mu {
                sum += linear_rank_probability(mu, s, i);
            }
            assert_eq!(sum as u128, 1000u128 * mu as u128 * (mu as u128 - 1));
        }
    }
}

#[test]
fn rank_weights_match_the_textbook_formula() {
    // mu = 4, s = 1.5: probability of rank i is (2-s)/mu + 2*i*(s-1)/(mu*(mu-1))
    // scaled by 1000*mu*(mu-1) = 12000 the weights are 1500, 2500, 3500, 4500
    assert_eq!(linear_rank_probability(4, 1500, 0), 1500);
    assert_eq!(linear_rank_probability(4, 1500, 1), 2500);
    assert_eq!(linear_rank_probability(4, 1500, 2), 3500);
    assert_eq!(linear_rank_probability(4, 1500, 3), 4500);
}

#[test]
fn weighted_pick_skips_zero_weights() {
    let mut rng = rand::rngs::StdRng::seed_from_u64(11);
    let weights = vec![0u64, 7, 0, 3];
    for _ in 0..50 {
        let r = weighted_pick(&weights, &mut rng);
        assert!(r == 1 || r == 3);
    }
    // all-zero weights fall back to a uniform draw
    let zeros = vec![0u64, 0, 0];
    for _ in 0..20 {
        let r = weighted_pick(&zeros, &mut rng);
        assert!(r < 3);
    }
}

#[test]
fn selection_strategies_return_valid_indices() {
    let mut rng = rand::rngs::StdRng::seed_from_u64(12);
    let config = sel_config();
    let mut pop = Vec::new();
    for f in 0..10u64 {
        pop.push(ind_with(vec![vec![0], vec![1]], 100 - f));
    }
    let li = linear_ranking(&pop, &config, &mut rng);
    assert_eq!(li.len(), 8);
    assert!(li.iter().all(|&i| i < 10));
    let pr = probabilistic_ranking(&pop, &config, &mut rng);
    assert_eq!(pr.len(), 24);
    assert!(pr.iter().all(|&i| i < 10));
    let to = tournament(&pop, &config, &mut rng);
    assert!(to.iter().all(|&i| i < 10));
    let ps = parent_selection(&pop, &config, &mut rng);
    assert_eq!(ps.len() % 2, 0);
    assert!(ps.iter().all(|&i| i < 10));
}

#[test]
fn acceptance_probability_is_exactly_half_on_ties() {
    for f in [0u64, 1, 17, 4_000] {
        let (num, den) = acceptance_threshold(f, f, 1500);
        assert_eq!(2 * num, den);
    }
}

#[test]
fn acceptance_fractions_follow_the_crowding_formula() {
    // child worse: c/(c + k*p) with k = 1.5 -> 1000*c / (1000*c + 1500*p)
    let (num, den) = acceptance_threshold(30, 20, 1500);
    assert_eq!(num, 30_000);
    assert_eq!(den, 30_000 + 30_000);
    // child better: k*c/(k*c + p) -> 1500*c / (1500*c + 1000*p)
    let (num2, den2) = acceptance_threshold(20, 30, 1500);
    assert_eq!(num2, 30_000);
    assert_eq!(den2, 30_000 + 30_000);
}

#[test]
fn similarity_counts_shared_directed_edges() {
    let a = ind_with(vec![vec![0, 1, 2], vec![3, 4]], 0);
    let b = ind_with(vec![vec![0, 1], vec![2, 3, 4]], 0);
    // shared edges: (0,1) and (3,4)
    assert_eq!(similarity(&a, &b), 2);
    assert_eq!(similarity_hashmap(&a, &b), 2);
    // a compared with itself shares all three of its edges
    assert_eq!(similarity(&a, &a), 3);
}

#[test]
fn similarity_perf_test() {
    let individual1 = ind_with(vec![vec![0, 1, 2, 3], vec![4, 5]], 0);
    let individual2 = ind_with(vec![vec![1, 2, 3], vec![0, 4, 5]], 0);
    let similarity1 = similarity_hashmap(&individual1, &individual2);
    let similarity2 = similarity(&individual1, &individual2);
    assert_eq!(similarity1, similarity2);
}

#[test]
fn similarity_is_symmetric() {
    let a = ind_with(vec![vec![0, 1, 2], vec![3, 4, 5]], 0);
    let b = ind_with(vec![vec![5, 4, 3], vec![2, 1, 0]], 0);
    let c = ind_with(vec![vec![0, 1], vec![2, 3], vec![4, 5]], 0);
    assert_eq!(similarity(&a, &b), similarity(&b, &a));
    assert_eq!(similarity(&a, &c), similarity(&c, &a));
    assert_eq!(similarity(&b, &c), similarity(&c, &b));
}

#[test]
fn survivors_come_from_parents_or_children() {
    let mut rng = rand::rngs::StdRng::seed_from_u64(13);
    let config = sel_config();
    let mut pop = Vec::new();
    for f in 0..6u64 {
        pop.push(ind_with(vec![vec![0, 1], vec![2]], 60 - 10 * f));
    }
    let snapshot: Vec<Individual> = pop.iter().map(|i| i.duplicate()).collect();
    let children = vec![
        ind_with(vec![vec![1, 0], vec![2]], 5),
        ind_with(vec![vec![2, 0], vec![1]], 8),
    ];
    let indices = vec![0usize, 1];
    survivor_selection(&mut pop, &indices, &children, &config, &mut rng);
    assert_eq!(pop.len(), 6);
    for slot in &pop {
        let from_parent = snapshot.iter().any(|p| p == slot);
        let from_child = children.iter().any(|c| c == slot);
        assert!(from_parent || from_child);
    }
    // the classical variant as well
    let mut pop2: Vec<Individual> = snapshot.iter().map(|i| i.duplicate()).collect();
    crowding(&mut pop2, &children, &config, &mut rng);
    assert_eq!(pop2.len(), 6);
    let mut pop3: Vec<Individual> = snapshot.iter().map(|i| i.duplicate()).collect();
    crowding_optimized(&mut pop3, &children, &config, &indices, &mut rng);
    assert_eq!(pop3.len(), 6);
}

#[test]
fn elitism_snapshots_distinct_best_members() {
    let config = sel_config();
    // worst-first order; the two best share a structure with one more
    let pop = vec![
        ind_with(vec![vec![0, 1], vec![2]], 90),
        ind_with(vec![vec![2, 1], vec![0]], 50),
        ind_with(vec![vec![0], vec![1, 2]], 20),
        ind_with(vec![vec![0], vec![1, 2]], 10),
    ];
    let members = get_elitism_members(&pop, &config);
    assert_eq!(members.len(), 2);
    assert!(members[0] == pop[3] || members[0] == pop[2]);
    assert!(!(members[0] == members[1]));
}
