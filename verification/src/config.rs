use vstd::prelude::*;

verus! {

/// Denominator of every operator rate: a rate field holds millionths, so
/// `rate == RATE_UNIT` means probability one.
pub const RATE_UNIT: u32 = 1_000_000;

/// Denominator of the scale-like factors (`s`, `scaling_factor`,
/// `n_parents_scaling`), which hold thousandths.
pub const SCALE_UNIT: u32 = 1_000;

/// Upper bound on the fitness punishment multiplier.
pub const MAX_PUNISH: u32 = 10_000;

/// Upper bound on the configured population size.
pub const MAX_POPULATION: usize = 100_000;

/// How the initial population is built.
#[derive(Clone, Copy)]
pub enum InitialPopType {
    Feasible,
    File,
}

/// Which parent-selection strategy the loop uses.
#[derive(Clone, Copy)]
pub enum ParentSelectionFN {
    LinearRanking,
    Probabilistic,
    Tournament,
}

/// Which crossover operator the loop uses.
#[derive(Clone, Copy)]
pub enum CrossoverFN {
    Visma,
    VismaOptimized,
    VismaIndexed,
    VismaMoreOptimized,
}

/// Which survivor-selection strategy the loop uses.
#[derive(Clone, Copy)]
pub enum SurvivorSelectionFN {
    CrowdingOld,
    Crowding,
}

/// What a stagnation restart keeps of the stuck population.
#[derive(Clone, Copy)]
pub enum ScrambleFN {
    Delete,
    Keep,
}

/// Run-wide parameters. Rates hold millionths (see `RATE_UNIT`); the
/// scale-like factors hold thousandths (see `SCALE_UNIT`); the punishment
/// factor is a plain multiplier.
#[derive(Clone)]
pub struct Config {
    pub use_islands: bool,
    pub island_share_frequency: u32,
    pub run_time: u64,
    pub log_frequency: u32,
    pub file_name: String,
    pub population_size: usize,
    pub n_generations: u32,
    pub n_elitism: usize,
    pub n_stagnations: u32,
    pub crossover_rate: u32,
    pub crossover_tries: u8,
    pub heuristic_cluster_mutation_rate: u32,
    pub heuristic_swap_mutation_rate: u32,
    pub heuristic_random_swap_mutation_rate: u32,
    pub insert_mutation_rate: u32,
    pub large_neighbourhood_mutation_rate: u32,
    pub init_population_fn: InitialPopType,
    pub parent_selection_fn: ParentSelectionFN,
    pub crossover_fn: CrossoverFN,
    pub survivor_selection_fn: SurvivorSelectionFN,
    pub scramble_fn: ScrambleFN,
    pub scaling_factor: u32,
    pub n_parents_scaling: u32,
    pub fitness_punishment_factor: u32,
    pub s: u32,
    pub tournament_size: usize,
}

impl Config {
    /// Well-formed configuration: every rate is a probability, the selection
    /// pressure lies in the linear-ranking range [1, 2], and the population
    /// leaves room for the elite snapshot plus a breeding pair.
    pub open spec fn wf(self) -> bool {
        &&& self.crossover_rate <= RATE_UNIT
        &&& self.heuristic_cluster_mutation_rate <= RATE_UNIT
        &&& self.heuristic_swap_mutation_rate <= RATE_UNIT
        &&& self.heuristic_random_swap_mutation_rate <= RATE_UNIT
        &&& self.insert_mutation_rate <= RATE_UNIT
        &&& self.large_neighbourhood_mutation_rate <= RATE_UNIT
        &&& SCALE_UNIT <= self.s <= 2 * SCALE_UNIT
        &&& 1 <= self.scaling_factor <= 10 * SCALE_UNIT
        &&& 1 <= self.n_parents_scaling <= RATE_UNIT
        &&& self.fitness_punishment_factor <= MAX_PUNISH
        &&& 2 * self.n_elitism + 2 <= self.population_size
        &&& self.population_size <= MAX_POPULATION
        &&& self.n_stagnations < 1_000_000_000
        &&& 1 <= self.tournament_size
        &&& 1 <= self.crossover_tries
    }
}

} // verus!
