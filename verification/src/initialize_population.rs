use vstd::prelude::*;

use crate::config::{Config, InitialPopType};
use crate::crossover::ind_wf;
use crate::evaluate::{is_feasible_fitness_nurse, route_feasible, route_ok, routes_ok};
use crate::io::{Info, MAX_PATIENTS};
use crate::nurse::{Individual, Nurse};
use crate::partition::{
    full_mset, lemma_full_mset_count, lemma_route_mset_le, nurse_insert, nurse_remove,
    routes_mset, routes_of,
};
use crate::rng::rand_index;

verus! {

/// Construction exhaustion: the feasible initializer gave up on this
/// patient after its retry ceiling, which signals that the instance cannot
/// be feasibly seeded under greedy random construction.
#[derive(Debug)]
pub struct InitError {
    pub patient: usize,
}

/// Growing the id range by one patient adds exactly that id to the full
/// multiset.
pub proof fn lemma_full_mset_step(p: int)
    requires
        0 <= p,
        p + 1 <= usize::MAX as int,
    ensures
        full_mset(p + 1) == full_mset(p).insert(p as usize),
{
    broadcast use vstd::multiset::group_multiset_axioms;

    assert forall|v: usize| (#[trigger] full_mset(p + 1).count(v)) == full_mset(p).insert(
        p as usize,
    ).count(v) by {
        lemma_full_mset_count(p + 1, v);
        lemma_full_mset_count(p, v);
    }
    assert(full_mset(p + 1) =~= full_mset(p).insert(p as usize));
}

/// Builds one candidate by inserting each patient in turn at a random
/// position of a random nurse, keeping the insertion only if that nurse's
/// route stays feasible, with a retry ceiling per patient. On success the
/// candidate partitions the patient set and every route is feasible.
pub fn feasible_init_individual(info: &Info, config: &Config, rng: &mut rand::rngs::StdRng) -> (res:
    Result<Individual, InitError>)
    requires
        info.wf(),
        config.wf(),
    ensures
        match res {
            Ok(ind) => {
                &&& ind_wf(ind, *info)
                &&& forall|k: int|
                    0 <= k < ind@.len() ==> route_feasible(*info, #[trigger] ind@[k])
                &&& ind.feasible
            },
            Err(e) => e.patient < info.n_patients(),
        },
{
    let ghost n = info.n_patients();
    let n_nurses = info.nbr_nurses as usize;
    let n_patients = info.patients.len();
    let mut nurses: Vec<Nurse> = Vec::new();
    let mut k: usize = 0;
    while k < n_nurses
        invariant
            k <= n_nurses,
            nurses@.len() == k,
            forall|j: int| 0 <= j < k ==> (#[trigger] nurses@[j]).route@.len() == 0,
        decreases n_nurses - k,
    {
        nurses.push(Nurse::new());
        k += 1;
    }
    proof {
        broadcast use vstd::multiset::group_multiset_axioms;
        broadcast use vstd::seq_lib::group_to_multiset_ensures;

        lemma_empty_routes_mset(nurses@);
        assert(crate::partition::full_seq(0).len() == 0);
        assert(full_mset(0).len() == 0);
        assert(routes_mset(routes_of(nurses@)) =~= full_mset(0));
        assert forall|j: int| 0 <= j < nurses@.len() implies route_feasible(
            *info,
            #[trigger] routes_of(nurses@)[j],
        ) by {
            assert(routes_of(nurses@)[j] == nurses@[j].route@);
        }
    }
    let mut p: usize = 0;
    while p < n_patients
        invariant
            info.wf(),
            config.wf(),
            n == info.n_patients(),
            n_patients == n,
            n_nurses == info.nbr_nurses as usize,
            n_nurses >= 1,
            p <= n_patients,
            nurses@.len() == n_nurses,
            routes_mset(routes_of(nurses@)) == full_mset(p as int),
            routes_ok(routes_of(nurses@), n),
            forall|j: int|
                0 <= j < nurses@.len() ==> route_feasible(*info, #[trigger] routes_of(nurses@)[j]),
        decreases n_patients - p,
    {
        let mut attempts: usize = 0;
        let mut success = false;
        while !success && attempts <= 8050
            invariant
                info.wf(),
                config.wf(),
                n == info.n_patients(),
                p < n,
                n_nurses >= 1,
                nurses@.len() == n_nurses,
                attempts <= 8051,
                !success ==> routes_mset(routes_of(nurses@)) == full_mset(p as int),
                success ==> routes_mset(routes_of(nurses@)) == full_mset(p as int).insert(p),
                routes_ok(routes_of(nurses@), n),
                forall|j: int|
                    0 <= j < nurses@.len() ==> route_feasible(
                        *info,
                        #[trigger] routes_of(nurses@)[j],
                    ),
            decreases 8052 - attempts,
        {
            let nurse_idx = rand_index(rng, n_nurses);
            let rl = nurses[nurse_idx].route.len();
            let route_idx = if rl > 0 {
                rand_index(rng, rl)
            } else {
                0
            };
            let ghost before = routes_of(nurses@);
            proof {
                assert(before[nurse_idx as int] == nurses@[nurse_idx as int].route@);
            }
            nurse_insert(&mut nurses, nurse_idx, route_idx, p);
            proof {
                broadcast use vstd::multiset::group_multiset_axioms;
                broadcast use vstd::seq_lib::group_to_multiset_ensures;

                crate::partition::lemma_full_mset_len(p as int);
                assert(routes_mset(routes_of(nurses@)).len() == p + 1);
                let cv = before[nurse_idx as int].insert(route_idx as int, p);
                before[nurse_idx as int].insert_ensures(route_idx as int, p);
                assert forall|jj: int| 0 <= jj < nurses@.len() implies route_ok(
                    #[trigger] routes_of(nurses@)[jj],
                    n,
                ) by {
                    lemma_route_mset_le(routes_of(nurses@), jj);
                    if jj == nurse_idx {
                        assert(routes_of(nurses@)[jj] == cv);
                        assert forall|x: int| 0 <= x < cv.len() implies (#[trigger] cv[x]) < n by {
                            if x < route_idx {
                                assert(cv[x] == before[nurse_idx as int][x]);
                            } else if x == route_idx {
                            } else {
                                assert(cv[x] == before[nurse_idx as int][x - 1]);
                            }
                        }
                    } else {
                        assert(routes_of(nurses@)[jj] == before[jj]);
                    }
                }
            }
            proof {
                assert(routes_of(nurses@)[nurse_idx as int] == nurses@[nurse_idx as int].route@);
            }
            if is_feasible_fitness_nurse(&nurses[nurse_idx], info) {
                success = true;
                proof {
                    assert forall|jj: int| 0 <= jj < nurses@.len() implies route_feasible(
                        *info,
                        #[trigger] routes_of(nurses@)[jj],
                    ) by {
                        if jj == nurse_idx {
                            assert(routes_of(nurses@)[jj] == nurses@[jj].route@);
                        } else {
                            assert(routes_of(nurses@)[jj] == before[jj]);
                        }
                    }
                }
            } else {
                let _back = nurse_remove(&mut nurses, nurse_idx, route_idx);
                proof {
                    broadcast use vstd::multiset::group_multiset_axioms;
                    broadcast use vstd::seq_lib::group_to_multiset_ensures;

                    let cv = before[nurse_idx as int].insert(route_idx as int, p);
                    assert(cv.remove(route_idx as int) =~= before[nurse_idx as int]);
                    assert forall|jj: int| 0 <= jj < nurses@.len() implies routes_of(
                        nurses@,
                    )[jj] == before[jj] by {
                        if jj != nurse_idx {
                        } else {
                            assert(routes_of(nurses@)[jj] == cv.remove(route_idx as int));
                        }
                    }
                    assert(routes_of(nurses@) =~= before);
                }
            }
            attempts += 1;
        }
        if !success {
            return Err(InitError { patient: p });
        }
        proof {
            lemma_full_mset_step(p as int);
        }
        p += 1;
    }
    let ind = Individual { nurses, fitness: 0, feasible: true };
    proof {
        assert(ind@ == routes_of(ind.nurses@));
    }
    Ok(ind)
}

/// A list of empty routes holds the empty patient multiset.
proof fn lemma_empty_routes_mset(nurses: Seq<Nurse>)
    requires
        forall|j: int| 0 <= j < nurses.len() ==> (#[trigger] nurses[j]).route@.len() == 0,
    ensures
        routes_mset(routes_of(nurses)).len() == 0,
    decreases nurses.len(),
{
    broadcast use vstd::multiset::group_multiset_axioms;
    broadcast use vstd::seq_lib::group_to_multiset_ensures;

    if nurses.len() > 0 {
        lemma_empty_routes_mset(nurses.drop_last());
        assert(routes_of(nurses.drop_last()) =~= routes_of(nurses).drop_last());
        assert(routes_of(nurses).last() == nurses.last().route@);
        assert(nurses.last().route@.to_multiset().len() == 0);
    }
}

/// Builds a whole population of feasibly constructed candidates: every
/// route of every member is individually feasible.
pub fn feasible_pop(info: &Info, config: &Config, rng: &mut rand::rngs::StdRng) -> (res: Result<
    Vec<Individual>,
    InitError,
>)
    requires
        info.wf(),
        config.wf(),
    ensures
        match res {
            Ok(pop) => {
                &&& pop@.len() == config.population_size
                &&& crate::crossover::pop_wf(pop@, *info)
                &&& forall|i: int, k: int|
                    0 <= i < pop@.len() && 0 <= k < pop@[i]@.len() ==> route_feasible(
                        *info,
                        #[trigger] pop@[i]@[k],
                    )
            },
            Err(e) => e.patient < info.n_patients(),
        },
{
    let mut pop: Vec<Individual> = Vec::new();
    let mut i: usize = 0;
    while i < config.population_size
        invariant
            info.wf(),
            config.wf(),
            i <= config.population_size,
            pop@.len() == i,
            crate::crossover::pop_wf(pop@, *info),
            forall|j: int, k: int|
                0 <= j < pop@.len() && 0 <= k < pop@[j]@.len() ==> route_feasible(
                    *info,
                    #[trigger] pop@[j]@[k],
                ),
        decreases config.population_size - i,
    {
        let r = feasible_init_individual(info, config, rng);
        match r {
            Ok(ind) => {
                pop.push(ind);
            },
            Err(e) => {
                return Err(e);
            },
        }
        i += 1;
    }
    Ok(pop)
}

/// Rebuilds one candidate from persisted 1-indexed route lists, validating
/// that the routes partition the patient set exactly.
pub fn individual_from_routes(lists: &Vec<Vec<u64>>, info: &Info) -> (res: Option<Individual>)
    requires
        info.wf(),
    ensures
        match res {
            Some(ind) => ind_wf(ind, *info),
            None => true,
        },
{
    let ghost n = info.n_patients();
    if lists.len() != info.nbr_nurses as usize {
        return None;
    }
    let n_patients = info.patients.len();
    let mut counts: Vec<u64> = Vec::new();
    let mut c: usize = 0;
    while c < n_patients
        invariant
            c <= n_patients,
            counts@.len() == c,
            forall|j: int| 0 <= j < c ==> (#[trigger] counts@[j]) == 0,
        decreases n_patients - c,
    {
        counts.push(0);
        c += 1;
    }
    let mut nurses: Vec<Nurse> = Vec::new();
    let mut k: usize = 0;
    proof {
        broadcast use vstd::multiset::group_multiset_axioms;
        broadcast use vstd::seq_lib::group_to_multiset_ensures;

        lemma_empty_routes_mset(nurses@);
    }
    while k < lists.len()
        invariant
            info.wf(),
            n == info.n_patients(),
            n_patients == n,
            k <= lists@.len(),
            nurses@.len() == k,
            counts@.len() == n,
            routes_ok(routes_of(nurses@), n),
            forall|v: usize|
                (v as int) < n ==> routes_mset(routes_of(nurses@)).count(v) == counts@[v as int],
            forall|v: usize|
                (v as int) >= n ==> routes_mset(routes_of(nurses@)).count(v) == 0,
            forall|v: int| 0 <= v < n ==> (#[trigger] counts@[v]) <= MAX_PATIENTS as u64,
            routes_mset(routes_of(nurses@)).len() <= k * MAX_PATIENTS as int,
        decreases lists@.len() - k,
    {
        let row = &lists[k];
        if row.len() > MAX_PATIENTS {
            return None;
        }
        let ghost prev = nurses@;
        nurses.push(Nurse::new());
        proof {
            broadcast use vstd::multiset::group_multiset_axioms;
            broadcast use vstd::seq_lib::group_to_multiset_ensures;

            assert(nurses@.drop_last() =~= prev);
            assert(routes_of(nurses@).drop_last() =~= routes_of(prev));
            assert(routes_of(nurses@).last() == nurses@.last().route@);
            assert(nurses@.last().route@.to_multiset().len() == 0);
            assert(routes_mset(routes_of(nurses@)) == routes_mset(
                routes_of(nurses@).drop_last(),
            ).add(routes_of(nurses@).last().to_multiset()));
            assert forall|v: usize|
                #![trigger routes_mset(routes_of(nurses@)).count(v)]
                routes_mset(routes_of(nurses@)).count(v) == routes_mset(routes_of(prev)).count(
                    v,
                ) by {
                assert(nurses@.last().route@.to_multiset().count(v) <= nurses@.last().route@.to_multiset().len());
            }
            assert(routes_mset(routes_of(nurses@)).len() == routes_mset(routes_of(prev)).len());
            assert(nurses@[k as int].route@.len() == 0);
            assert forall|jj: int| 0 <= jj < nurses@.len() implies route_ok(
                #[trigger] routes_of(nurses@)[jj],
                n,
            ) by {
                if jj < k {
                    assert(nurses@[jj] == prev[jj]);
                    assert(routes_of(nurses@)[jj] == routes_of(prev)[jj]);
                } else {
                    assert(routes_of(nurses@)[jj] == nurses@[jj].route@);
                }
            }
        }
        let mut i: usize = 0;
        while i < row.len()
            invariant
                info.wf(),
                n == info.n_patients(),
                n_patients == n,
                k < lists@.len(),
                nurses@.len() == k + 1,
                counts@.len() == n,
                i <= row@.len(),
                row@.len() <= MAX_PATIENTS,
                nurses@[k as int].route@.len() == i,
                routes_ok(routes_of(nurses@), n),
                forall|v: usize|
                    (v as int) < n ==> routes_mset(routes_of(nurses@)).count(v) == counts@[v as int],
                forall|v: usize|
                    (v as int) >= n ==> routes_mset(routes_of(nurses@)).count(v) == 0,
                forall|v: int| 0 <= v < n ==> (#[trigger] counts@[v]) <= MAX_PATIENTS as u64,
                routes_mset(routes_of(nurses@)).len() <= k * MAX_PATIENTS as int + i,
            decreases row@.len() - i,
        {
            let raw = row[i];
            if raw < 1 || raw > n_patients as u64 {
                return None;
            }
            let p = (raw - 1) as usize;
            let cur = counts[p];
            if cur >= MAX_PATIENTS as u64 {
                return None;
            }
            let ghost precounts = counts@;
            counts.set(p, cur + 1);
            let pos = nurses[k].route.len();
            let ghost before = routes_of(nurses@);
            proof {
                assert(before[k as int] == nurses@[k as int].route@);
            }
            nurse_insert(&mut nurses, k, pos, p);
            proof {
                broadcast use vstd::multiset::group_multiset_axioms;
                broadcast use vstd::seq_lib::group_to_multiset_ensures;

                assert(routes_mset(routes_of(nurses@)) == routes_mset(before).insert(p));
                let cv = before[k as int].insert(pos as int, p);
                before[k as int].insert_ensures(pos as int, p);
                assert forall|jj: int| 0 <= jj < nurses@.len() implies route_ok(
                    #[trigger] routes_of(nurses@)[jj],
                    n,
                ) by {
                    if jj == k {
                        assert(routes_of(nurses@)[jj] == cv);
                        assert forall|x: int| 0 <= x < cv.len() implies (#[trigger] cv[x]) < n by {
                            if x < pos {
                                assert(cv[x] == before[k as int][x]);
                            } else if x == pos {
                            } else {
                                assert(cv[x] == before[k as int][x - 1]);
                            }
                        }
                        assert(cv.len() <= MAX_PATIENTS as int);
                    } else {
                        assert(routes_of(nurses@)[jj] == before[jj]);
                    }
                }
                assert forall|v: usize|
                    #![trigger routes_mset(routes_of(nurses@)).count(v)]
                    ((v as int) < n ==> routes_mset(routes_of(nurses@)).count(v)
                        == counts@[v as int]) && ((v as int) >= n ==> routes_mset(
                        routes_of(nurses@),
                    ).count(v) == 0) by {
                    if v == p {
                        assert(counts@[v as int] == precounts[v as int] + 1);
                        assert(routes_mset(before).count(v) == precounts[v as int]);
                    } else {
                        assert(routes_mset(routes_of(nurses@)).count(v) == routes_mset(
                            before,
                        ).count(v));
                    }
                }
            }
            i += 1;
        }
        k += 1;
    }
    // every patient must occur exactly once
    let mut v: usize = 0;
    while v < n_patients
        invariant
            n_patients == n,
            counts@.len() == n,
            v <= n_patients,
            forall|j: int| 0 <= j < v ==> (#[trigger] counts@[j]) == 1,
        decreases n_patients - v,
    {
        if counts[v] != 1 {
            return None;
        }
        v += 1;
    }
    proof {
        broadcast use vstd::multiset::group_multiset_axioms;

        assert forall|x: usize|
            #![trigger routes_mset(routes_of(nurses@)).count(x)]
            routes_mset(routes_of(nurses@)).count(x) == full_mset(n).count(x) by {
            lemma_full_mset_count(n, x);
            if (x as int) < n {
                assert(counts@[x as int] == 1);
                assert(routes_mset(routes_of(nurses@)).count(x) == counts@[x as int]);
            } else {
                assert(routes_mset(routes_of(nurses@)).count(x) == 0);
            }
        }
        assert(routes_mset(routes_of(nurses@)) =~= full_mset(n));
    }
    Some(Individual { nurses, fitness: 0, feasible: false })
}

/// Builds the initial population with the configured strategy: feasible
/// random construction, or candidates rebuilt from persisted route lists
/// (padded by random duplication or trimmed by random removal to the
/// configured size). An empty or invalid persisted set falls back to
/// feasible construction.
pub fn init_population(
    info: &Info,
    config: &Config,
    saved: &Vec<Vec<Vec<u64>>>,
    rng: &mut rand::rngs::StdRng,
) -> (res: Result<Vec<Individual>, InitError>)
    requires
        info.wf(),
        config.wf(),
    ensures
        match res {
            Ok(pop) => {
                &&& pop@.len() == config.population_size
                &&& crate::crossover::pop_wf(pop@, *info)
                &&& (config.init_population_fn matches InitialPopType::Feasible ==> forall|
                    i: int,
                    k: int,
                |
                    0 <= i < pop@.len() && 0 <= k < pop@[i]@.len() ==> route_feasible(
                        *info,
                        #[trigger] pop@[i]@[k],
                    ))
            },
            Err(e) => e.patient < info.n_patients(),
        },
{
    match config.init_population_fn {
        InitialPopType::Feasible => feasible_pop(info, config, rng),
        InitialPopType::File => {
            let mut pop: Vec<Individual> = Vec::new();
            let mut i: usize = 0;
            while i < saved.len()
                invariant
                    info.wf(),
                    i <= saved@.len(),
                    crate::crossover::pop_wf(pop@, *info),
                decreases saved@.len() - i,
            {
                let parsed = individual_from_routes(&saved[i], info);
                match parsed {
                    Some(ind) => {
                        pop.push(ind);
                    },
                    None => {},
                }
                i += 1;
            }
            if pop.len() == 0 {
                return feasible_pop(info, config, rng);
            }
            while pop.len() > config.population_size
                invariant
                    info.wf(),
                    config.wf(),
                    crate::crossover::pop_wf(pop@, *info),
                    pop@.len() >= 1,
                decreases pop@.len(),
            {
                let r = rand_index(rng, pop.len());
                pop.remove(r);
            }
            while pop.len() < config.population_size
                invariant
                    info.wf(),
                    crate::crossover::pop_wf(pop@, *info),
                    pop@.len() >= 1,
                    pop@.len() <= config.population_size,
                decreases config.population_size - pop@.len(),
            {
                let r = rand_index(rng, pop.len());
                let copy = pop[r].duplicate();
                proof {
                    assert(crate::crossover::ind_wf(copy, *info)) by {
                        assert(copy@ == pop@[r as int]@);
                        assert(copy.nurses@.len() == pop@[r as int].nurses@.len());
                    }
                }
                pop.push(copy);
            }
            proof {
                assert(pop@.len() == config.population_size);
            }
            Ok(pop)
        },
    }
}

} // verus!
