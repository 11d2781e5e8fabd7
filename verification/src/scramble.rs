use vstd::prelude::*;

use crate::config::{Config, ScrambleFN};
use crate::crossover::pop_wf;
use crate::initialize_population::{init_population, InitError};
use crate::io::Info;
use crate::nurse::Individual;
use crate::survivor_selection::same_solution;

verus! {

/// Replaces a stagnant population by a freshly initialized one. With the
/// `Keep` policy the best member — the last slot of the worst-first sorted
/// population — survives the restart in the last slot.
pub fn scramble_population(
    population: &mut Vec<Individual>,
    info: &Info,
    config: &Config,
    rng: &mut rand::rngs::StdRng,
) -> (res: Result<(), InitError>)
    requires
        info.wf(),
        config.wf(),
        old(population)@.len() >= 1,
        pop_wf(old(population)@, *info),
    ensures
        match res {
            Ok(u) => {
                &&& final(population)@.len() == config.population_size
                &&& pop_wf(final(population)@, *info)
                &&& (config.scramble_fn matches ScrambleFN::Keep ==> same_solution(
                    final(population)@.last(),
                    old(population)@.last(),
                ))
            },
            Err(e) => {
                &&& final(population)@ == old(population)@
                &&& e.patient < info.n_patients()
            },
        },
{
    let saved: Vec<Vec<Vec<u64>>> = Vec::new();
    match config.scramble_fn {
        ScrambleFN::Delete => {
            let fresh = init_population(info, config, &saved, rng);
            match fresh {
                Ok(newpop) => {
                    *population = newpop;
                    Ok(())
                },
                Err(e) => Err(e),
            }
        },
        ScrambleFN::Keep => {
            let best = population[population.len() - 1].duplicate();
            let ghost oldlast = old(population)@.last();
            proof {
                assert(same_solution(best, oldlast));
            }
            let fresh = init_population(info, config, &saved, rng);
            match fresh {
                Ok(mut newpop) => {
                    proof {
                        assert(newpop@.len() == config.population_size >= 1);
                    }
                    newpop.remove(newpop.len() - 1);
                    proof {
                        assert forall|i: int|
                            0 <= i < newpop@.len() implies crate::crossover::ind_wf(
                            #[trigger] newpop@[i],
                            *info,
                        ) by {}
                    }
                    newpop.push(best);
                    *population = newpop;
                    Ok(())
                },
                Err(e) => Err(e),
            }
        },
    }
}

} // verus!
