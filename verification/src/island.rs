use vstd::prelude::*;

use crate::config::MAX_POPULATION;
use crate::crossover::{ind_wf, pop_wf};
use crate::io::Info;
use crate::nurse::Individual;
use crate::parent_selection::{weighted_pick, FITNESS_WEIGHT_CAP};
use crate::rng::rand_index;

verus! {

/// Picks the member an island donates to the shared migration slot, with
/// probability roughly inverse to its fitness, so that better candidates
/// are more likely to travel. A degenerate weight distribution falls back
/// to a uniform draw.
pub fn migration_pick(population: &Vec<Individual>, rng: &mut rand::rngs::StdRng) -> (r: usize)
    requires
        1 <= population@.len() <= MAX_POPULATION,
    ensures
        r < population@.len(),
{
    let mut weights: Vec<u64> = Vec::new();
    let mut i: usize = 0;
    while i < population.len()
        invariant
            population@.len() <= MAX_POPULATION,
            i <= population@.len(),
            weights@.len() == i,
            forall|t: int| 0 <= t < i ==> (#[trigger] weights@[t]) <= FITNESS_WEIGHT_CAP,
        decreases population@.len() - i,
    {
        let f = population[i].fitness;
        let w = if f >= 4_294_967_296 {
            0
        } else {
            4_294_967_296u64 / (f + 1)
        };
        weights.push(w);
        i += 1;
    }
    proof {
        crate::parent_selection::lemma_capped_weights_sum(weights@, weights@.len() as int);
    }
    weighted_pick(&weights, rng)
}

/// One migration exchange on an island: the island donates one member,
/// chosen by inverse-fitness sampling, and adopts the migrant found in the
/// shared slot, if any. The caller — which owns the mutex-guarded slot —
/// performs the actual slot read and write around this call.
pub fn island_exchange(
    population: &mut Vec<Individual>,
    migrant_in: Option<Individual>,
    info: &Info,
    rng: &mut rand::rngs::StdRng,
) -> (migrant_out: Individual)
    requires
        info.wf(),
        2 <= old(population)@.len() <= MAX_POPULATION,
        pop_wf(old(population)@, *info),
        match migrant_in {
            Some(m) => ind_wf(m, *info),
            None => true,
        },
    ensures
        ind_wf(migrant_out, *info),
        pop_wf(final(population)@, *info),
        final(population)@.len() == old(population)@.len() - 1 + (match migrant_in {
            Some(m) => 1int,
            None => 0int,
        }),
{
    let donor_idx = migration_pick(population, rng);
    let ghost pre = population@;
    let donor = population.remove(donor_idx);
    proof {
        assert(donor == pre[donor_idx as int]);
        assert forall|i: int| 0 <= i < population@.len() implies ind_wf(
            #[trigger] population@[i],
            *info,
        ) by {
            pre.remove_ensures(donor_idx as int);
            if i < donor_idx {
                assert(population@[i] == pre[i]);
            } else {
                assert(population@[i] == pre[i + 1]);
            }
        }
    }
    match migrant_in {
        Some(m) => {
            population.push(m);
        },
        None => {},
    }
    donor
}

} // verus!
