use vstd::prelude::*;

use crate::config::{Config, ParentSelectionFN, MAX_POPULATION, SCALE_UNIT};
use crate::nurse::Individual;
use crate::rng::{rand_below, rand_index};

verus! {

/// The linear-ranking weight of rank `i` (0 = worst) in a population of
/// `mu`, for selection pressure `s` in thousandths. The probability of rank
/// `i` is this weight over `1000 * mu * (mu - 1)`, which equals the textbook
/// `(2 - s)/mu + 2*i*(s - 1)/(mu*(mu - 1))`.
pub open spec fn rank_weight(mu: int, s: int, i: int) -> int {
    (2000 - s) * (mu - 1) + 2 * i * (s - 1000)
}

/// The sum of the first `k` linear-ranking weights.
pub open spec fn rank_weight_sum(mu: int, s: int, k: int) -> int
    decreases k,
{
    if k <= 0 {
        0
    } else {
        rank_weight_sum(mu, s, k - 1) + rank_weight(mu, s, k - 1)
    }
}

/// Closed form of the weight sum prefix.
proof fn lemma_rank_weight_sum_closed(mu: int, s: int, k: int)
    requires
        mu >= 2,
        1000 <= s <= 2000,
        0 <= k <= mu,
    ensures
        rank_weight_sum(mu, s, k) == k * ((2000 - s) * (mu - 1)) + k * (k - 1) * (s - 1000),
    decreases k,
{
    if k > 0 {
        lemma_rank_weight_sum_closed(mu, s, k - 1);
        assert((k - 1) * ((2000 - s) * (mu - 1)) + ((2000 - s) * (mu - 1)) == k * ((2000 - s) * (
        mu - 1))) by (nonlinear_arith);
        assert((k - 1) * (k - 2) * (s - 1000) + 2 * (k - 1) * (s - 1000) == k * (k - 1) * (s
            - 1000)) by (nonlinear_arith);
    } else {
        assert(k * ((2000 - s) * (mu - 1)) == 0 && k * (k - 1) * (s - 1000) == 0)
            by (nonlinear_arith)
            requires
                k == 0,
        ;
    }
}

/// The linear-ranking probabilities sum to exactly one: the weights of all
/// `mu` ranks add up to the common denominator `1000 * mu * (mu - 1)`.
pub proof fn lemma_linear_rank_weights_sum(mu: int, s: int)
    requires
        mu >= 2,
        1000 <= s <= 2000,
    ensures
        rank_weight_sum(mu, s, mu) == 1000 * mu * (mu - 1),
{
    lemma_rank_weight_sum_closed(mu, s, mu);
    assert(mu * ((2000 - s) * (mu - 1)) + mu * (mu - 1) * (s - 1000) == 1000 * mu * (mu - 1))
        by (nonlinear_arith);
}

/// Each linear-ranking weight is non-negative and bounded.
pub proof fn lemma_rank_weight_bounds(mu: int, s: int, i: int)
    requires
        mu >= 2,
        mu <= MAX_POPULATION as int,
        1000 <= s <= 2000,
        0 <= i < mu,
    ensures
        0 <= rank_weight(mu, s, i) <= 3000 * MAX_POPULATION as int,
{
    assert(0 <= (2000 - s) * (mu - 1) <= 1000 * (mu - 1)) by (nonlinear_arith)
        requires
            mu >= 2,
            1000 <= s <= 2000,
    ;
    assert(0 <= 2 * i * (s - 1000) <= 2 * mu * 1000) by (nonlinear_arith)
        requires
            mu >= 2,
            1000 <= s <= 2000,
            0 <= i < mu,
    ;
    assert(1000 * (mu - 1) + 2 * mu * 1000 <= 3000 * MAX_POPULATION as int) by (nonlinear_arith)
        requires
            2 <= mu <= MAX_POPULATION as int,
    ;
}

/// The linear-ranking weight of rank `i`, as executable arithmetic.
pub fn linear_rank_probability(mu: usize, s: u32, i: usize) -> (w: u64)
    requires
        2 <= mu <= MAX_POPULATION,
        SCALE_UNIT <= s <= 2 * SCALE_UNIT,
        i < mu,
    ensures
        w as int == rank_weight(mu as int, s as int, i as int),
        w <= 3000 * MAX_POPULATION as u64,
{
    proof {
        lemma_rank_weight_bounds(mu as int, s as int, i as int);
        assert((2000 - s as int) * (mu as int - 1) + 2 * (i as int) * (s as int - 1000)
            == rank_weight(mu as int, s as int, i as int));
        assert(0 <= (2000 - s as int) * (mu as int - 1)) by (nonlinear_arith)
            requires
                1000 <= (s as int) && (s as int) <= 2000,
                mu as int >= 2,
        ;
        assert((2000 - s as int) * (mu as int - 1) <= 1000 * (MAX_POPULATION as int))
            by (nonlinear_arith)
            requires
                1000 <= (s as int) && (s as int) <= 2000,
                2 <= (mu as int) && (mu as int) <= MAX_POPULATION as int,
        ;
        assert(0 <= 2 * (i as int) * (s as int - 1000) <= 2 * (MAX_POPULATION as int) * 1000)
            by (nonlinear_arith)
            requires
                1000 <= (s as int) && (s as int) <= 2000,
                0 <= (i as int) && (i as int) < mu as int,
                mu as int <= MAX_POPULATION as int,
        ;
    }
    let a: u64 = (2000 - s) as u64 * (mu as u64 - 1);
    let b: u64 = 2 * (i as u64) * (s - 1000) as u64;
    a + b
}

/// The sum of the first `k` entries of a weight vector.
pub open spec fn weights_sum(ws: Seq<u64>, k: int) -> int
    decreases k,
{
    if k <= 0 {
        0
    } else {
        weights_sum(ws, k - 1) + ws[k - 1]
    }
}

/// Prefix sums of a weight vector never exceed the full sum.
proof fn lemma_weights_sum_monotone(ws: Seq<u64>, k: int, m: int)
    requires
        0 <= k <= m <= ws.len(),
    ensures
        weights_sum(ws, k) <= weights_sum(ws, m),
        0 <= weights_sum(ws, k),
    decreases m,
{
    if m > 0 {
        if k <= m - 1 {
            lemma_weights_sum_monotone(ws, k, m - 1);
        } else {
            lemma_weights_sum_monotone(ws, k - 1, m - 1);
        }
    }
}

/// Draws one index with probability proportional to its weight. A zero
/// total weight is the degenerate case and falls back to a uniform draw;
/// with a positive total, the picked index always has positive weight.
pub fn weighted_pick(weights: &Vec<u64>, rng: &mut rand::rngs::StdRng) -> (r: usize)
    requires
        weights@.len() >= 1,
        weights_sum(weights@, weights@.len() as int) <= u64::MAX as int,
    ensures
        r < weights@.len(),
        weights_sum(weights@, weights@.len() as int) > 0 ==> weights@[r as int] > 0,
{
    let ghost ws = weights@;
    let mut total: u64 = 0;
    let mut i: usize = 0;
    while i < weights.len()
        invariant
            ws == weights@,
            i <= ws.len(),
            weights_sum(ws, ws.len() as int) <= u64::MAX as int,
            total as int == weights_sum(ws, i as int),
        decreases ws.len() - i,
    {
        proof {
            lemma_weights_sum_monotone(ws, i as int + 1, ws.len() as int);
            lemma_weights_sum_monotone(ws, i as int, i as int + 1);
        }
        total = total + weights[i];
        i += 1;
    }
    if total == 0 {
        return rand_index(rng, weights.len());
    }
    let draw = rand_below(rng, total);
    let mut cum: u64 = 0;
    let mut j: usize = 0;
    while j < weights.len()
        invariant
            ws == weights@,
            j <= ws.len(),
            total as int == weights_sum(ws, ws.len() as int),
            weights_sum(ws, ws.len() as int) <= u64::MAX as int,
            cum as int == weights_sum(ws, j as int),
            draw < total,
            cum <= draw,
        decreases ws.len() - j,
    {
        proof {
            lemma_weights_sum_monotone(ws, j as int + 1, ws.len() as int);
            lemma_weights_sum_monotone(ws, j as int, j as int + 1);
        }
        let w = weights[j];
        if draw < cum + w {
            return j;
        }
        cum = cum + w;
        j += 1;
    }
    proof {
        assert(false);
    }
    0
}

/// Linear ranking over a worst-first sorted population: rank `i` receives
/// weight `rank_weight(mu, s, i)`, and `(len - n_elitism) * scaling`
/// indices are drawn with replacement.
pub fn linear_ranking(population: &Vec<Individual>, config: &Config, rng: &mut rand::rngs::StdRng)
    -> (indices: Vec<usize>)
    requires
        config.wf(),
        2 <= population@.len() <= MAX_POPULATION,
        config.n_elitism < population@.len(),
    ensures
        indices@.len() == (population@.len() - config.n_elitism) * config.n_parents_scaling as int
            / SCALE_UNIT as int,
        forall|t: int| 0 <= t < indices@.len() ==> (#[trigger] indices@[t]) < population@.len(),
{
    let mu = population.len();
    proof {
        assert(0 <= (mu as int - config.n_elitism as int) * (config.n_parents_scaling as int)
            && (mu as int - config.n_elitism as int) * (config.n_parents_scaling as int)
            <= 100_000_000_000) by (nonlinear_arith)
            requires
                0 <= (mu as int - config.n_elitism as int),
                (mu as int - config.n_elitism as int) <= MAX_POPULATION as int,
                1 <= config.n_parents_scaling as int,
                config.n_parents_scaling as int <= 1_000_000,
        ;
    }
    let n_parents = ((mu - config.n_elitism) as u64 * config.n_parents_scaling as u64 / (
    SCALE_UNIT as u64)) as usize;
    let mut weights: Vec<u64> = Vec::new();
    let mut i: usize = 0;
    while i < mu
        invariant
            config.wf(),
            2 <= mu <= MAX_POPULATION,
            mu == population@.len(),
            i <= mu,
            weights@.len() == i,
            forall|t: int|
                0 <= t < i ==> (#[trigger] weights@[t]) <= 3000 * MAX_POPULATION as u64,
        decreases mu - i,
    {
        let w = linear_rank_probability(mu, config.s, i);
        weights.push(w);
        i += 1;
    }
    proof {
        lemma_bounded_weights_sum(weights@, weights@.len() as int);
    }
    let mut indices: Vec<usize> = Vec::new();
    let mut t: usize = 0;
    while t < n_parents
        invariant
            mu == population@.len(),
            mu >= 1,
            weights@.len() == mu,
            weights_sum(weights@, weights@.len() as int) <= u64::MAX as int,
            t <= n_parents,
            indices@.len() == t,
            forall|q: int| 0 <= q < t ==> (#[trigger] indices@[q]) < mu,
        decreases n_parents - t,
    {
        let idx = weighted_pick(&weights, rng);
        indices.push(idx);
        t += 1;
    }
    indices
}

/// A vector of bounded weights has a bounded sum.
pub(crate) proof fn lemma_bounded_weights_sum(ws: Seq<u64>, k: int)
    requires
        0 <= k <= ws.len(),
        ws.len() <= MAX_POPULATION as int,
        forall|t: int| 0 <= t < ws.len() ==> (#[trigger] ws[t]) <= 3000 * MAX_POPULATION as u64,
    ensures
        weights_sum(ws, k) <= k * (3000 * MAX_POPULATION as int),
        weights_sum(ws, k) <= u64::MAX as int,
    decreases k,
{
    if k > 0 {
        lemma_bounded_weights_sum(ws, k - 1);
        assert((k - 1) * (3000 * MAX_POPULATION as int) + 3000 * MAX_POPULATION as int == k * (
        3000 * MAX_POPULATION as int)) by (nonlinear_arith);
    } else {
        assert(k * (3000 * MAX_POPULATION as int) == 0) by (nonlinear_arith)
            requires
                k == 0,
        ;
    }
    assert(k * (3000 * MAX_POPULATION as int) <= MAX_POPULATION as int * (3000
        * MAX_POPULATION as int)) by (nonlinear_arith)
        requires
            0 <= k <= MAX_POPULATION as int,
    ;
}

/// Cap applied to raw fitness values when they are used as sampling
/// weights, so that a population-wide sum stays within 64 bits.
pub const FITNESS_WEIGHT_CAP: u64 = 10_000_000_000_000;

/// Fitness-proportional selection: each index is drawn with probability
/// proportional to its raw fitness value (capped). Note that a larger
/// fitness — a worse candidate under the minimise convention — is more
/// likely to be drawn; this sign convention is a deliberate design choice
/// of this strategy, not a defect. A population whose fitness sum is zero
/// falls back to uniform draws.
pub fn probabilistic_ranking(
    population: &Vec<Individual>,
    config: &Config,
    rng: &mut rand::rngs::StdRng,
) -> (indices: Vec<usize>)
    requires
        config.wf(),
        1 <= population@.len() <= MAX_POPULATION,
        config.n_elitism < population@.len(),
    ensures
        indices@.len() == (population@.len() - config.n_elitism) * 3,
        forall|t: int| 0 <= t < indices@.len() ==> (#[trigger] indices@[t]) < population@.len(),
{
    let mu = population.len();
    let n_parents = (mu - config.n_elitism) * 3;
    let mut weights: Vec<u64> = Vec::new();
    let mut i: usize = 0;
    while i < mu
        invariant
            mu == population@.len(),
            mu <= MAX_POPULATION,
            i <= mu,
            weights@.len() == i,
            forall|t: int| 0 <= t < i ==> (#[trigger] weights@[t]) <= FITNESS_WEIGHT_CAP,
        decreases mu - i,
    {
        let f = population[i].fitness;
        let w = if f > FITNESS_WEIGHT_CAP {
            FITNESS_WEIGHT_CAP
        } else {
            f
        };
        weights.push(w);
        i += 1;
    }
    proof {
        lemma_capped_weights_sum(weights@, weights@.len() as int);
    }
    let mut indices: Vec<usize> = Vec::new();
    let mut t: usize = 0;
    while t < n_parents
        invariant
            mu == population@.len(),
            mu >= 1,
            weights@.len() == mu,
            weights_sum(weights@, weights@.len() as int) <= u64::MAX as int,
            t <= n_parents,
            indices@.len() == t,
            forall|q: int| 0 <= q < t ==> (#[trigger] indices@[q]) < mu,
        decreases n_parents - t,
    {
        let idx = weighted_pick(&weights, rng);
        indices.push(idx);
        t += 1;
    }
    indices
}

/// A vector of capped weights has a bounded sum.
pub(crate) proof fn lemma_capped_weights_sum(ws: Seq<u64>, k: int)
    requires
        0 <= k <= ws.len(),
        ws.len() <= MAX_POPULATION as int,
        forall|t: int| 0 <= t < ws.len() ==> (#[trigger] ws[t]) <= FITNESS_WEIGHT_CAP,
    ensures
        weights_sum(ws, k) <= k * (FITNESS_WEIGHT_CAP as int),
        weights_sum(ws, k) <= u64::MAX as int,
    decreases k,
{
    if k > 0 {
        lemma_capped_weights_sum(ws, k - 1);
        assert((k - 1) * (FITNESS_WEIGHT_CAP as int) + FITNESS_WEIGHT_CAP as int == k * (
        FITNESS_WEIGHT_CAP as int)) by (nonlinear_arith);
    } else {
        assert(k * (FITNESS_WEIGHT_CAP as int) == 0) by (nonlinear_arith)
            requires
                k == 0,
        ;
    }
    assert(k * (FITNESS_WEIGHT_CAP as int) <= MAX_POPULATION as int * (FITNESS_WEIGHT_CAP as int))
        by (nonlinear_arith)
        requires
            0 <= k <= MAX_POPULATION as int,
    ;
}

/// The winner of one tournament: among the first `k` drawn competitor
/// indices, one whose member's cached fitness is minimal.
fn tournament_winner(population: &Vec<Individual>, competitors: &Vec<usize>, k: usize) -> (winner:
    usize)
    requires
        1 <= k <= competitors@.len(),
        forall|q: int|
            0 <= q < competitors@.len() ==> (#[trigger] competitors@[q]) < population@.len(),
    ensures
        winner < population@.len(),
        exists|q: int| 0 <= q < k && (#[trigger] competitors@[q]) == winner,
        forall|q: int|
            0 <= q < k ==> population@[winner as int].fitness <= population@[(
            #[trigger] competitors@[q]) as int].fitness,
{
    let mut winner = competitors[0];
    let mut best_fit = population[winner].fitness;
    let mut v: usize = 1;
    while v < k
        invariant
            1 <= k <= competitors@.len(),
            forall|q: int|
                0 <= q < competitors@.len() ==> (#[trigger] competitors@[q]) < population@.len(),
            v <= k,
            winner < population@.len(),
            best_fit == population@[winner as int].fitness,
            exists|q: int| 0 <= q < k && (#[trigger] competitors@[q]) == winner,
            forall|q: int|
                0 <= q < v ==> population@[winner as int].fitness <= population@[(
                #[trigger] competitors@[q]) as int].fitness,
        decreases k - v,
    {
        let cand = competitors[v];
        if population[cand].fitness < best_fit {
            winner = cand;
            best_fit = population[cand].fitness;
        }
        v += 1;
    }
    winner
}

/// Tournament selection: for each draw, the first `min(tournament_size,
/// population size)` slots of a freshly shuffled index list form a random
/// subset without replacement, and its minimum-fitness member wins.
pub fn tournament(population: &Vec<Individual>, config: &Config, rng: &mut rand::rngs::StdRng)
    -> (indices: Vec<usize>)
    requires
        config.wf(),
        2 <= population@.len() <= MAX_POPULATION,
        config.n_elitism < population@.len(),
    ensures
        indices@.len() == (population@.len() - config.n_elitism) * config.n_parents_scaling as int
            / SCALE_UNIT as int,
        forall|t: int| 0 <= t < indices@.len() ==> (#[trigger] indices@[t]) < population@.len(),
{
    let mu = population.len();
    let tournament_size = if config.tournament_size < mu {
        config.tournament_size
    } else {
        mu
    };
    proof {
        assert(0 <= (mu as int - config.n_elitism as int) * (config.n_parents_scaling as int)
            && (mu as int - config.n_elitism as int) * (config.n_parents_scaling as int)
            <= 100_000_000_000) by (nonlinear_arith)
            requires
                0 <= (mu as int - config.n_elitism as int),
                (mu as int - config.n_elitism as int) <= MAX_POPULATION as int,
                1 <= config.n_parents_scaling as int,
                config.n_parents_scaling as int <= 1_000_000,
        ;
    }
    let n_parents = ((mu - config.n_elitism) as u64 * config.n_parents_scaling as u64 / (
    SCALE_UNIT as u64)) as usize;
    let mut indices: Vec<usize> = Vec::new();
    let mut t: usize = 0;
    while t < n_parents
        invariant
            config.wf(),
            mu == population@.len(),
            2 <= mu,
            1 <= tournament_size <= mu,
            t <= n_parents,
            n_parents as int == (mu - config.n_elitism) * config.n_parents_scaling as int
                / SCALE_UNIT as int,
            indices@.len() == t,
            forall|q: int| 0 <= q < indices@.len() ==> (#[trigger] indices@[q]) < mu,
        decreases n_parents - t,
    {
        // partial Fisher–Yates shuffle: the first `tournament_size` slots
        // become a uniform random subset
        let mut competitors: Vec<usize> = Vec::new();
        let mut c: usize = 0;
        while c < mu
            invariant
                c <= mu,
                competitors@.len() == c,
                forall|q: int| 0 <= q < c ==> (#[trigger] competitors@[q]) < mu,
            decreases mu - c,
        {
            competitors.push(c);
            c += 1;
        }
        let mut s: usize = 0;
        while s < tournament_size
            invariant
                mu == population@.len(),
                tournament_size <= mu,
                s <= tournament_size,
                competitors@.len() == mu,
                forall|q: int| 0 <= q < mu ==> (#[trigger] competitors@[q]) < mu,
            decreases tournament_size - s,
        {
            let j = s + rand_index(rng, mu - s);
            let a = competitors[s];
            let b = competitors[j];
            competitors.set(s, b);
            competitors.set(j, a);
            s += 1;
        }
        let winner = tournament_winner(&population, &competitors, tournament_size);
        indices.push(winner);
        t += 1;
    }
    indices
}

/// Ranks and samples breeding indices using the configured strategy, then
/// trims the first entry if the count came out odd, so that the result
/// always pairs up.
pub fn parent_selection(population: &Vec<Individual>, config: &Config, rng: &mut rand::rngs::StdRng)
    -> (indices: Vec<usize>)
    requires
        config.wf(),
        2 <= population@.len() <= MAX_POPULATION,
        config.n_elitism < population@.len(),
    ensures
        indices@.len() % 2 == 0,
        forall|t: int| 0 <= t < indices@.len() ==> (#[trigger] indices@[t]) < population@.len(),
{
    let mut indices = match config.parent_selection_fn {
        ParentSelectionFN::LinearRanking => linear_ranking(population, config, rng),
        ParentSelectionFN::Probabilistic => probabilistic_ranking(population, config, rng),
        ParentSelectionFN::Tournament => tournament(population, config, rng),
    };
    if indices.len() % 2 != 0 {
        indices.remove(0);
    }
    indices
}

} // verus!
