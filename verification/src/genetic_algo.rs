use vstd::prelude::*;
use vstd::pervasive::VecAdditionalExecFns;

use crate::config::Config;
use crate::crossover::{ind_wf, pop_wf, population_crossover};
use crate::elitism::get_elitism_members;
use crate::evaluate::fitness_population;
use crate::initialize_population::{init_population, InitError};
use crate::io::Info;
use crate::mutation::mutate_population;
use crate::nurse::Individual;
use crate::parent_selection::parent_selection;
use crate::rng::rng_from_seed;
use crate::scramble::scramble_population;
use crate::survivor_selection::survivor_selection;

verus! {

/// What the stagnation controller decided for this generation.
pub enum StagnationAction {
    Improved,
    Restart,
    Stalled,
}

/// One stagnation bookkeeping step. An improvement resets the counter and
/// records the new best; a counter beyond the threshold triggers a restart
/// and resets the counter to zero; otherwise the counter grows by one.
pub fn stagnation_step(counter: u32, best_fitness: u64, curr_fitness: u64, n_stagnations: u32)
    -> (res: (StagnationAction, u32, u64))
    requires
        n_stagnations < u32::MAX,
    ensures
        curr_fitness < best_fitness ==> res == (StagnationAction::Improved, 0u32, curr_fitness),
        curr_fitness >= best_fitness && counter > n_stagnations ==> res == (
            StagnationAction::Restart,
            0u32,
            best_fitness,
        ),
        curr_fitness >= best_fitness && counter <= n_stagnations ==> res == (
            StagnationAction::Stalled,
            (counter + 1) as u32,
            best_fitness,
        ),
{
    if curr_fitness < best_fitness {
        (StagnationAction::Improved, 0, curr_fitness)
    } else if counter > n_stagnations {
        (StagnationAction::Restart, 0, best_fitness)
    } else {
        (StagnationAction::Stalled, counter + 1, best_fitness)
    }
}

/// Whether `x` occurs among the members of `pop`.
pub open spec fn from_pop(x: Individual, pop: Seq<Individual>) -> bool {
    exists|j: int| 0 <= j < pop.len() && #[trigger] pop[j] == x
}

/// Swaps two population slots.
fn swap_slots(population: &mut Vec<Individual>, i: usize, j: usize)
    requires
        i < old(population)@.len(),
        j < old(population)@.len(),
    ensures
        final(population)@ == old(population)@.update(i as int, old(population)@[j as int]).update(
            j as int,
            old(population)@[i as int],
        ),
{
    if i == j {
        proof {
            assert(final(population)@ =~= old(population)@.update(
                i as int,
                old(population)@[j as int],
            ).update(j as int, old(population)@[i as int]));
        }
        return ;
    }
    let mut tmp = Individual { nurses: Vec::new(), fitness: 0, feasible: false };
    population.set_and_swap(i, &mut tmp);
    population.set_and_swap(j, &mut tmp);
    population.set_and_swap(i, &mut tmp);
    proof {
        assert(final(population)@ =~= old(population)@.update(
            i as int,
            old(population)@[j as int],
        ).update(j as int, old(population)@[i as int]));
    }
}

/// Sorts the population worst-first: descending by cached fitness. Every
/// slot of the result holds a member of the input.
pub fn sort_by_fitness_desc(population: &mut Vec<Individual>)
    ensures
        final(population)@.len() == old(population)@.len(),
        forall|i: int|
            0 <= i < final(population)@.len() ==> from_pop(
                #[trigger] final(population)@[i],
                old(population)@,
            ),
        forall|j: int|
            0 <= j < old(population)@.len() ==> from_pop(
                #[trigger] old(population)@[j],
                final(population)@,
            ),
        forall|a: int, b: int|
            0 <= a <= b < final(population)@.len() ==> final(population)@[a].fitness
                >= final(population)@[b].fitness,
{
    let ghost orig = population@;
    proof {
        assert forall|t: int| 0 <= t < population@.len() implies from_pop(
            #[trigger] population@[t],
            orig,
        ) && from_pop(orig[t], population@) by {
            assert(orig[t] == population@[t]);
        }
    }
    let n = population.len();
    let mut i: usize = 0;
    while i < n
        invariant
            n == population@.len(),
            i <= n,
            forall|t: int| 0 <= t < n ==> from_pop(#[trigger] population@[t], orig),
            forall|j: int| 0 <= j < n ==> from_pop(#[trigger] orig[j], population@),
            forall|a: int, b: int|
                0 <= a <= b < i ==> population@[a].fitness >= population@[b].fitness,
            forall|a: int, b: int|
                0 <= a < i && i <= b < n ==> population@[a].fitness >= population@[b].fitness,
        decreases n - i,
    {
        let mut m: usize = i;
        let mut j: usize = i + 1;
        while j < n
            invariant
                n == population@.len(),
                i <= m < n,
                i < j <= n,
                i < n,
                forall|t: int| i <= t < j ==> population@[m as int].fitness >= (
                #[trigger] population@[t]).fitness,
            decreases n - j,
        {
            if population[j].fitness > population[m].fitness {
                m = j;
            }
            j += 1;
        }
        let ghost pre = population@;
        swap_slots(population, i, m);
        proof {
            assert forall|t: int| 0 <= t < n implies from_pop(#[trigger] population@[t], orig) by {
                if t == i {
                    assert(population@[t] == pre[m as int]);
                } else if t == m {
                    assert(population@[t] == pre[i as int]);
                } else {
                    assert(population@[t] == pre[t]);
                }
            }
            assert forall|j: int| 0 <= j < n implies from_pop(#[trigger] orig[j], population@) by {
                let wv = choose|wv: int| 0 <= wv < pre.len() && pre[wv] == orig[j];
                if wv == i {
                    assert(population@[m as int] == orig[j]);
                } else if wv == m {
                    assert(population@[i as int] == orig[j]);
                } else {
                    assert(population@[wv] == orig[j]);
                }
            }
        }
        i += 1;
    }
}

/// The running state of one generational loop: the population, the
/// stagnation counter, the best fitness seen so far and the generation
/// index.
pub struct GaState {
    pub population: Vec<Individual>,
    pub stagnation_counter: u32,
    pub best_fitness: u64,
    pub generation: u32,
}

/// The loop invariant of a run: a population large enough for the elite
/// snapshot plus a breeding pair (one below the configured size after a
/// lossy migration donation), and every member partitions the patient set.
pub open spec fn ga_inv(st: GaState, inst: Info, cfg: Config) -> bool {
    &&& 2 * cfg.n_elitism + 2 <= st.population@.len() <= crate::config::MAX_POPULATION
    &&& pop_wf(st.population@, inst)
}

/// A well-formed population satisfies the preconditions of every stage of
/// the pipeline.
pub proof fn lemma_pop_wf_facts(pop: Seq<Individual>, inst: Info)
    requires
        inst.wf(),
        pop_wf(pop, inst),
    ensures
        crate::evaluate::pop_ok(pop, inst),
        crate::survivor_selection::survivors_ok(pop),
        crate::mutation::pop_mutable(pop, inst),
{
    assert forall|i: int| 0 <= i < pop.len() implies crate::evaluate::ind_ok(
        #[trigger] pop[i],
        inst,
    ) && crate::partition::routes_mset(pop[i]@).len() <= crate::io::MAX_PATIENTS as int
        && crate::mutation::mutable_ok(pop[i].nurses@, inst) by {
        crate::partition::lemma_complete_routes_ok(pop[i]@, inst.n_patients());
        crate::partition::lemma_full_mset_len(inst.n_patients());
        assert(crate::partition::routes_mset(crate::partition::routes_of(pop[i].nurses@))
            == crate::partition::full_mset(inst.n_patients()));
    }
}

/// Builds and evaluates the initial population.
pub fn ga_init(
    info: &Info,
    config: &Config,
    saved: &Vec<Vec<Vec<u64>>>,
    rng: &mut rand::rngs::StdRng,
) -> (res: Result<GaState, InitError>)
    requires
        info.wf(),
        config.wf(),
    ensures
        match res {
            Ok(st) => ga_inv(st, *info, *config) && st.stagnation_counter == 0
                && st.best_fitness == u64::MAX && st.generation == 0,
            Err(e) => e.patient < info.n_patients(),
        },
{
    let pop0 = init_population(info, config, saved, rng);
    match pop0 {
        Ok(mut population) => {
            let ghost pre = population@;
            proof {
                lemma_pop_wf_facts(population@, *info);
            }
            fitness_population(&mut population, info, config);
            proof {
                lemma_evaluated_keeps_wf(population@, pre, *info);
            }
            Ok(
                GaState {
                    population,
                    stagnation_counter: 0,
                    best_fitness: u64::MAX,
                    generation: 0,
                },
            )
        },
        Err(e) => Err(e),
    }
}

/// Re-evaluation rewrites only the cached scores, so well-formedness
/// carries over from the population it started from.
proof fn lemma_evaluated_keeps_wf(pop: Seq<Individual>, was: Seq<Individual>, inst: Info)
    requires
        pop.len() == was.len(),
        pop_wf(was, inst),
        forall|i: int| 0 <= i < pop.len() ==> (#[trigger] pop[i]).nurses == was[i].nurses,
    ensures
        pop_wf(pop, inst),
{
    assert forall|i: int| 0 <= i < pop.len() implies ind_wf(#[trigger] pop[i], inst) by {
        assert(ind_wf(was[i], inst));
        assert(pop[i]@ == was[i]@);
        assert(pop[i].nurses@.len() == was[i].nurses@.len());
    }
}

/// Runs one generation: sort worst-first, stagnation bookkeeping with an
/// optional restart, elite snapshot, parent selection, crossover, mutation,
/// child evaluation, survivor replacement, and elite reinsertion. The
/// population keeps its size and every member keeps partitioning the
/// patient set.
pub fn ga_step(
    state: &mut GaState,
    info: &Info,
    config: &Config,
    rng: &mut rand::rngs::StdRng,
) -> (res: Result<(), InitError>)
    requires
        info.wf(),
        config.wf(),
        ga_inv(*old(state), *info, *config),
    ensures
        ga_inv(*final(state), *info, *config),
        res matches Ok(u) ==> final(state).population@.len() == old(
            state,
        ).population@.len() || final(state).population@.len() == config.population_size,
        res matches Ok(u) ==> final(state).generation == if old(state).generation < u32::MAX {
            old(state).generation + 1
        } else {
            old(state).generation as int
        },
        res matches Ok(u) ==> final(state).stagnation_counter == 0
            || final(state).stagnation_counter == old(state).stagnation_counter + 1,
        res matches Ok(u) && old(state).stagnation_counter <= config.n_stagnations
            ==> final(state).best_fitness <= old(state).best_fitness,
        res matches Ok(u) && old(state).stagnation_counter <= config.n_stagnations
            && config.n_elitism >= 1 ==> forall|j: int|
            #![trigger old(state).population@[j]]
            0 <= j < old(state).population@.len() ==> exists|i: int|
                0 <= i < final(state).population@.len()
                    && (#[trigger] final(state).population@[i]).fitness <= old(
                    state,
                ).population@[j].fitness,
        res matches Err(e) ==> e.patient < info.n_patients(),
{
    let ghost inst = *info;
    sort_by_fitness_desc(&mut state.population);
    let ghost sorted_pop = state.population@;
    proof {
        let prev = old(state).population@;
        assert forall|i: int| 0 <= i < state.population@.len() implies ind_wf(
            #[trigger] state.population@[i],
            inst,
        ) by {
            assert(from_pop(state.population@[i], prev));
            let j = choose|j: int| 0 <= j < prev.len() && prev[j] == state.population@[i];
            assert(ind_wf(prev[j], inst));
        }
    }
    let mu = state.population.len();
    let curr = state.population[mu - 1].fitness;
    let (action, c2, b2) = stagnation_step(
        state.stagnation_counter,
        state.best_fitness,
        curr,
        config.n_stagnations,
    );
    state.stagnation_counter = c2;
    state.best_fitness = b2;
    match action {
        StagnationAction::Restart => {
            let r = scramble_population(&mut state.population, info, config, rng);
            match r {
                Ok(()) => {},
                Err(e) => {
                    return Err(e);
                },
            }
            let ghost pre_eval = state.population@;
            proof {
                lemma_pop_wf_facts(state.population@, *info);
            }
            fitness_population(&mut state.population, info, config);
            proof {
                lemma_evaluated_keeps_wf(state.population@, pre_eval, *info);
            }
            state.best_fitness = crate::evaluate::get_best_fitness_population(&state.population);
        },
        _ => {},
    }
    proof {
        if old(state).stagnation_counter <= config.n_stagnations {
            assert(state.population@ == sorted_pop);
            assert(state.best_fitness <= old(state).best_fitness);
        }
        assert(state.stagnation_counter == 0 || state.stagnation_counter == old(
            state,
        ).stagnation_counter + 1);
    }
    let ghost sc_after = state.stagnation_counter;
    let ghost bf_after = state.best_fitness;
    let elites = get_elitism_members(&state.population, config);
    let ghost pre_drop = state.population@;
    // remove as many worst members as elites were snapshotted, so that the
    // population keeps its size after the elites return
    let n_drop = elites.len();
    let mut d: usize = 0;
    while d < n_drop
        invariant
            d <= n_drop,
            n_drop <= config.n_elitism,
            state.population@.len() == pre_drop.len() - d,
            state.generation == old(state).generation,
            state.stagnation_counter == sc_after,
            state.best_fitness == bf_after,
            2 * config.n_elitism + 2 <= pre_drop.len() <= crate::config::MAX_POPULATION,
            config.wf(),
            forall|i: int|
                0 <= i < state.population@.len() ==> #[trigger] state.population@[i] == pre_drop[i
                    + d],
        decreases n_drop - d,
    {
        let ghost before = state.population@;
        state.population.remove(0);
        proof {
            assert forall|i: int|
                0 <= i < state.population@.len() implies #[trigger] state.population@[i]
                == pre_drop[i + d + 1] by {
                assert(state.population@[i] == before[i + 1]);
            }
        }
        d += 1;
    }
    proof {
        assert forall|i: int| 0 <= i < state.population@.len() implies ind_wf(
            #[trigger] state.population@[i],
            inst,
        ) by {
            assert(state.population@[i] == pre_drop[i + n_drop as int]);
        }
        assert(pre_drop.len() - n_drop as int >= config.n_elitism + 2);
    }
    let parent_indices = parent_selection(&state.population, config, rng);
    let mut children = population_crossover(&state.population, &parent_indices, info, config, rng);
    let ghost pre_mut = children@;
    proof {
        lemma_pop_wf_facts(children@, *info);
    }
    mutate_population(&mut children, config, info, rng);
    proof {
        assert forall|i: int| 0 <= i < children@.len() implies ind_wf(
            #[trigger] children@[i],
            inst,
        ) by {
            assert(crate::mutation::mutation_contract(
                pre_mut[i].nurses@,
                children@[i].nurses@,
                inst,
            ));
            assert(ind_wf(pre_mut[i], inst));
            assert(children@[i]@ == crate::partition::routes_of(children@[i].nurses@));
            assert(pre_mut[i]@ == crate::partition::routes_of(pre_mut[i].nurses@));
        }
        lemma_pop_wf_facts(children@, *info);
    }
    let ghost pre_ev2 = children@;
    fitness_population(&mut children, info, config);
    proof {
        lemma_evaluated_keeps_wf(children@, pre_ev2, *info);
        lemma_pop_wf_facts(children@, *info);
        lemma_pop_wf_facts(state.population@, *info);
    }
    let ghost pre_surv = state.population@;
    let ghost childv = children@;
    survivor_selection(&mut state.population, &parent_indices, &children, config, rng);
    proof {
        assert forall|i: int| 0 <= i < state.population@.len() implies ind_wf(
            #[trigger] state.population@[i],
            inst,
        ) by {
            if state.population@[i] == pre_surv[i] {
            } else {
                let t = choose|t: int|
                    0 <= t < childv.len() && crate::survivor_selection::same_solution(
                        state.population@[i],
                        childv[t],
                    );
                assert(ind_wf(childv[t], inst));
                assert(state.population@[i]@ == childv[t]@);
            }
        }
    }
    let mut t: usize = 0;
    while t < elites.len()
        invariant
            inst == *info,
            t <= elites@.len(),
            state.population@.len() == pre_drop.len() - elites@.len() + t,
            state.generation == old(state).generation,
            state.stagnation_counter == sc_after,
            state.best_fitness == bf_after,
            2 * config.n_elitism + 2 <= pre_drop.len() <= crate::config::MAX_POPULATION,
            pop_wf(state.population@, inst),
            forall|q: int|
                0 <= q < elites@.len() ==> crate::elitism::member_of(
                    #[trigger] elites@[q],
                    pre_drop,
                ),
            pop_wf(pre_drop, inst),
            t >= 1 ==> exists|ii: int|
                0 <= ii < state.population@.len() && crate::survivor_selection::same_solution(
                    #[trigger] state.population@[ii],
                    elites@[0],
                ),
        decreases elites@.len() - t,
    {
        let copy = elites[t].duplicate();
        proof {
            assert(crate::elitism::member_of(elites@[t as int], pre_drop));
            let j = choose|j: int|
                0 <= j < pre_drop.len() && crate::survivor_selection::same_solution(
                    elites@[t as int],
                    pre_drop[j],
                );
            assert(ind_wf(pre_drop[j], inst));
            assert(copy@ == pre_drop[j]@);
            assert(copy.nurses@.len() == elites@[t as int].nurses@.len());
            assert(elites@[t as int]@.len() == pre_drop[j]@.len());
            assert(ind_wf(copy, inst));
        }
        let ghost pre_push = state.population@;
        state.population.push(copy);
        proof {
            if t == 0 {
                assert(crate::survivor_selection::same_solution(
                    state.population@[state.population@.len() - 1],
                    elites@[0],
                ));
            } else {
                let wv = choose|ii: int|
                    0 <= ii < pre_push.len() && crate::survivor_selection::same_solution(
                        pre_push[ii],
                        elites@[0],
                    );
                assert(state.population@[wv] == pre_push[wv]);
                assert(crate::survivor_selection::same_solution(
                    state.population@[wv],
                    elites@[0],
                ));
            }
        }
        t += 1;
    }
    proof {
        if old(state).stagnation_counter <= config.n_stagnations && config.n_elitism >= 1 {
            // the best of the sorted population was snapshotted first and
            // re-added, so a member at least as good as every old member
            // survives the generation
            assert(elites@.len() >= 1);
            assert(crate::survivor_selection::same_solution(elites@[0], pre_drop.last()));
            let bi = choose|ii: int|
                0 <= ii < state.population@.len() && crate::survivor_selection::same_solution(
                    state.population@[ii],
                    elites@[0],
                );
            assert forall|j: int|
                #![trigger old(state).population@[j]]
                0 <= j < old(state).population@.len() implies exists|i: int|
                0 <= i < state.population@.len() && (#[trigger] state.population@[i]).fitness
                    <= old(state).population@[j].fitness by {
                assert(from_pop(old(state).population@[j], sorted_pop));
                let tt = choose|tt: int|
                    0 <= tt < sorted_pop.len() && sorted_pop[tt] == old(state).population@[j];
                assert(sorted_pop[tt].fitness >= sorted_pop[sorted_pop.len() - 1].fitness);
                assert(state.population@[bi].fitness == pre_drop.last().fitness);
            }
        }
    }
    if state.generation < u32::MAX {
        state.generation = state.generation + 1;
    }
    Ok(())
}

/// Runs a whole generational loop from a seed: initialization, then the
/// configured number of generations.
pub fn start(info: &Info, config: &Config, saved: &Vec<Vec<Vec<u64>>>, seed: u64) -> (res: Result<
    GaState,
    InitError,
>)
    requires
        info.wf(),
        config.wf(),
    ensures
        match res {
            Ok(st) => ga_inv(st, *info, *config),
            Err(e) => e.patient < info.n_patients(),
        },
{
    let mut rng = rng_from_seed(seed);
    let st0 = ga_init(info, config, saved, &mut rng);
    match st0 {
        Ok(mut state) => {
            let mut g: u32 = 0;
            while g < config.n_generations
                invariant
                    info.wf(),
                    config.wf(),
                    ga_inv(state, *info, *config),
                decreases config.n_generations - g,
            {
                let r = ga_step(&mut state, info, config, &mut rng);
                match r {
                    Ok(()) => {},
                    Err(e) => {
                        return Err(e);
                    },
                }
                g += 1;
            }
            Ok(state)
        },
        Err(e) => Err(e),
    }
}

} // verus!
