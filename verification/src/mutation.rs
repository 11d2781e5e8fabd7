use vstd::prelude::*;
use vstd::pervasive::VecAdditionalExecFns;

use crate::config::{Config, RATE_UNIT};
use crate::evaluate::{fitness_nurse, route_ok, routes_ok};
use crate::io::{Info, MAX_PATIENTS, MAX_ROUTE};
use crate::large_neighborhood::destroy_and_repair;
use crate::nurse::{copy_route, Individual, Nurse};
use crate::partition::{
    nurse_drain_block, nurse_insert, nurse_insert_block, nurse_remove, nurse_swap_cross,
    nurse_swap_within, routes_mset, routes_of,
};
use crate::rng::{rand_below, rand_index};

verus! {

/// The state every mutation operator preserves: valid patient ids, bounded
/// routes, and a patient multiset within the instance size.
pub open spec fn mutable_ok(nurses: Seq<Nurse>, inst: Info) -> bool {
    &&& nurses.len() >= 1
    &&& routes_ok(routes_of(nurses), inst.n_patients())
    &&& routes_mset(routes_of(nurses)).len() <= MAX_PATIENTS as int
}

/// What every mutation operator promises: the nurse count, each nurse's
/// cached demand and the multiset of visited patients are unchanged, and the
/// routes stay valid.
pub open spec fn mutation_contract(was: Seq<Nurse>, now: Seq<Nurse>, inst: Info) -> bool {
    &&& now.len() == was.len()
    &&& forall|k: int| 0 <= k < was.len() ==> (#[trigger] now[k]).capacity == was[k].capacity
    &&& routes_mset(routes_of(now)) == routes_mset(routes_of(was))
    &&& routes_ok(routes_of(now), inst.n_patients())
}

/// Routes stay valid after the candidate multiset is preserved: every route
/// is still no longer than the whole multiset.
pub(crate) proof fn lemma_routes_ok_from_mset(nurses: Seq<Nurse>, inst: Info)
    requires
        routes_mset(routes_of(nurses)).len() <= MAX_PATIENTS as int,
        forall|k: int, j: int|
            0 <= k < nurses.len() && 0 <= j < (#[trigger] nurses[k]).route@.len() ==> (
            #[trigger] nurses[k].route@[j]) < inst.n_patients(),
    ensures
        routes_ok(routes_of(nurses), inst.n_patients()),
{
    assert forall|k: int| 0 <= k < nurses.len() implies route_ok(
        #[trigger] routes_of(nurses)[k],
        inst.n_patients(),
    ) by {
        crate::partition::lemma_route_mset_le(routes_of(nurses), k);
        assert(routes_of(nurses)[k] == nurses[k].route@);
    }
}

/// Evaluates the route that results from inserting `block` as a contiguous
/// run at position `pos` of `nurse`'s route.
pub(crate) fn fitness_with_block(
    nurse: &Nurse,
    pos: usize,
    block: &Vec<usize>,
    info: &Info,
    config: &Config,
) -> (f: u64)
    requires
        info.wf(),
        config.wf(),
        route_ok(nurse@, info.n_patients()),
        pos <= nurse@.len(),
        nurse@.len() + block@.len() <= MAX_ROUTE,
        forall|j: int| 0 <= j < block@.len() ==> (#[trigger] block@[j]) < info.n_patients(),
    ensures
        f as int == crate::evaluate::route_fitness(
            *info,
            config.fitness_punishment_factor as int,
            nurse@.subrange(0, pos as int) + block@ + nurse@.subrange(
                pos as int,
                nurse@.len() as int,
            ),
        ),
        f <= 300_030_001_004_000,
{
    let ghost r0 = nurse@;
    let ghost len0 = r0.len() as int;
    let mut cand = copy_route(&nurse.route);
    let mut i: usize = 0;
    while i < block.len()
        invariant
            i <= block@.len(),
            pos <= len0,
            r0.len() == len0,
            len0 + block@.len() <= MAX_ROUTE,
            cand@.len() == len0 + i,
            cand@ == r0.subrange(0, pos as int) + block@.subrange(0, i as int) + r0.subrange(
                pos as int,
                len0,
            ),
        decreases block@.len() - i,
    {
        cand.insert(pos + i, block[i]);
        proof {
            assert(cand@ =~= r0.subrange(0, pos as int) + block@.subrange(0, i as int + 1)
                + r0.subrange(pos as int, len0));
        }
        i += 1;
    }
    proof {
        assert(block@.subrange(0, block@.len() as int) =~= block@);
        let cv = r0.subrange(0, pos as int) + block@ + r0.subrange(pos as int, len0);
        assert(cand@ == cv);
        assert forall|j: int| 0 <= j < cv.len() implies (#[trigger] cv[j])
            < info.n_patients() by {
            if j < pos {
                assert(cv[j] == r0[j]);
            } else if j < pos + block@.len() {
                assert(cv[j] == block@[j - pos]);
            } else {
                assert(cv[j] == r0[j - block@.len()]);
            }
        }
    }
    let tmpn = Nurse { capacity: 0, route: cand };
    let (f, _) = fitness_nurse(&tmpn, info, config);
    f
}

/// Evaluates the route that results from swapping positions `i` and `j` of
/// `nurse`'s route.
pub(crate) fn fitness_with_swap(
    nurse: &Nurse,
    i: usize,
    j: usize,
    info: &Info,
    config: &Config,
) -> (f: u64)
    requires
        info.wf(),
        config.wf(),
        route_ok(nurse@, info.n_patients()),
        i < nurse@.len(),
        j < nurse@.len(),
    ensures
        f as int == crate::evaluate::route_fitness(
            *info,
            config.fitness_punishment_factor as int,
            nurse@.update(i as int, nurse@[j as int]).update(j as int, nurse@[i as int]),
        ),
        f <= 300_030_001_004_000,
{
    let mut cand = copy_route(&nurse.route);
    let a = cand[i];
    let b = cand[j];
    cand.set(i, b);
    cand.set(j, a);
    proof {
        let cv = nurse@.update(i as int, nurse@[j as int]).update(j as int, nurse@[i as int]);
        assert(cand@ == cv);
        assert forall|t: int| 0 <= t < cv.len() implies (#[trigger] cv[t])
            < info.n_patients() by {
            if t != i && t != j {
                assert(cv[t] == nurse@[t]);
            }
        }
    }
    let tmpn = Nurse { capacity: 0, route: cand };
    let (f, _) = fitness_nurse(&tmpn, info, config);
    f
}

/// Picks a nurse whose route holds at least `min_len` patients, within a
/// bounded number of random tries. When every route qualifies, the first
/// try succeeds, so the pick can only fail where some route is short.
fn pick_long_route(nurses: &Vec<Nurse>, rng: &mut rand::rngs::StdRng, min_len: usize) -> (res:
    Option<usize>)
    requires
        nurses@.len() >= 1,
    ensures
        match res {
            Some(k) => k < nurses@.len() && nurses@[k as int].route@.len() >= min_len,
            None => exists|k: int|
                0 <= k < nurses@.len() && (#[trigger] nurses@[k]).route@.len() < min_len,
        },
{
    let mut t: usize = 0;
    while t < 30
        invariant
            nurses@.len() >= 1,
            t > 0 ==> exists|k: int|
                0 <= k < nurses@.len() && (#[trigger] nurses@[k]).route@.len() < min_len,
        decreases 30 - t,
    {
        let k = rand_index(rng, nurses.len());
        if nurses[k].route.len() >= min_len {
            return Some(k);
        }
        proof {
            assert(nurses@[k as int].route@.len() < min_len);
        }
        t += 1;
    }
    None
}

/// Route list `rs` with the block `[s, e)` cut out of route `k`.
pub open spec fn cut_block(rs: Seq<Seq<usize>>, k: int, s: int, e: int) -> Seq<Seq<usize>> {
    rs.update(k, rs[k].subrange(0, s) + rs[k].subrange(e, rs[k].len() as int))
}

/// The block `[s, e)` of route `k`.
pub open spec fn block_of(rs: Seq<Seq<usize>>, k: int, s: int, e: int) -> Seq<usize> {
    rs[k].subrange(s, e)
}

/// The cluster move's claim: a contiguous block of one route was cut out
/// and spliced back at the scanned position whose fitness increase over
/// the receiving route is smallest; with nothing scanned (every remaining
/// route empty) it lands at the front of the first route.
pub open spec fn cluster_move_applied(
    was: Seq<Nurse>,
    now: Seq<Nurse>,
    inst: Info,
    w: int,
) -> bool {
    exists|k: int, s: int, e: int, bk: int, bp: int|
        {
            &&& 0 <= k < was.len()
            &&& 0 <= s <= e <= crate::partition::routes_of(was)[k].len()
            &&& crate::partition::routes_of(was)[k].len() >= 2
            &&& 0 <= bk < was.len()
            &&& 0 <= bp <= cut_block(crate::partition::routes_of(was), k, s, e)[bk].len()
            &&& (bp < cut_block(crate::partition::routes_of(was), k, s, e)[bk].len() || (bk == 0
                && bp == 0))
            &&& crate::partition::routes_of(now) == cut_block(
                crate::partition::routes_of(was),
                k,
                s,
                e,
            ).update(
                bk,
                #[trigger] crate::large_neighborhood::with_block(
                    cut_block(crate::partition::routes_of(was), k, s, e)[bk],
                    bp,
                    block_of(crate::partition::routes_of(was), k, s, e),
                ),
            )
            &&& (forall|k2: int, p2: int|
                0 <= k2 < was.len() && 0 <= p2 < cut_block(
                    crate::partition::routes_of(was),
                    k,
                    s,
                    e,
                )[k2].len() ==> crate::evaluate::route_fitness(
                    inst,
                    w,
                    crate::large_neighborhood::with_block(
                        cut_block(crate::partition::routes_of(was), k, s, e)[bk],
                        bp,
                        block_of(crate::partition::routes_of(was), k, s, e),
                    ),
                ) - crate::evaluate::route_fitness(
                    inst,
                    w,
                    cut_block(crate::partition::routes_of(was), k, s, e)[bk],
                ) <= crate::evaluate::route_fitness(
                    inst,
                    w,
                    #[trigger] crate::large_neighborhood::with_block(
                        cut_block(crate::partition::routes_of(was), k, s, e)[k2],
                        p2,
                        block_of(crate::partition::routes_of(was), k, s, e),
                    ),
                ) - crate::evaluate::route_fitness(
                    inst,
                    w,
                    cut_block(crate::partition::routes_of(was), k, s, e)[k2],
                ))
        }
}

/// Heuristic cluster move: removes a random contiguous run from a route
/// with at least two patients and reinserts it wherever the fitness
/// increase over the scanned positions is smallest.
pub fn heuristic_cluster_mutation(
    nurses: &mut Vec<Nurse>,
    rng: &mut rand::rngs::StdRng,
    info: &Info,
    config: &Config,
)
    requires
        info.wf(),
        config.wf(),
        mutable_ok(old(nurses)@, *info),
    ensures
        mutation_contract(old(nurses)@, final(nurses)@, *info),
        routes_of(final(nurses)@) == routes_of(old(nurses)@) || cluster_move_applied(
            old(nurses)@,
            final(nurses)@,
            *info,
            config.fitness_punishment_factor as int,
        ),
{
    let ghost wi = config.fitness_punishment_factor as int;
    let picked = pick_long_route(nurses, rng, 2);
    let nurse_idx = match picked {
        Some(k) => k,
        None => {
            return ;
        },
    };
    let len = nurses[nurse_idx].route.len();
    let start = rand_index(rng, len);
    let end = start + rand_below(rng, (len - start) as u64) as usize;
    let ghost ors = routes_of(old(nurses)@);
    let ghost k0 = nurse_idx as int;
    let block = nurse_drain_block(nurses, nurse_idx, start, end);
    proof {
        broadcast use vstd::multiset::group_multiset_axioms;
        broadcast use vstd::seq_lib::group_to_multiset_ensures;

        assert(routes_mset(routes_of(nurses@)).len() + block@.to_multiset().len() == routes_mset(
            ors,
        ).len());
        assert(block@.to_multiset().len() == block@.len());
        assert forall|k: int, j: int|
            0 <= k < nurses@.len() && 0 <= j < (#[trigger] nurses@[k]).route@.len() implies (
        #[trigger] nurses@[k].route@[j]) < info.n_patients() by {
            if k == nurse_idx {
                assert(routes_of(nurses@)[k] == nurses@[k].route@);
                assert(route_ok(ors[k], info.n_patients()));
            } else {
                assert(nurses@[k] == old(nurses)@[k]);
                assert(route_ok(ors[k], info.n_patients()));
                assert(ors[k] == nurses@[k].route@);
            }
        }
        lemma_routes_ok_from_mset(nurses@, *info);
        assert forall|j: int| 0 <= j < block@.len() implies (#[trigger] block@[j])
            < info.n_patients() by {
            assert(block@[j] == old(nurses)@[nurse_idx as int].route@[start + j]);
            assert(route_ok(ors[nurse_idx as int], info.n_patients()));
        }
    }
    // scan every nurse and every interior position for the cheapest insertion
    let ghost mid = routes_of(nurses@);
    proof {
        assert(nurses@[k0].route@ =~= ors[k0].subrange(0, start as int) + ors[k0].subrange(
            end as int,
            ors[k0].len() as int,
        ));
        assert(mid =~= cut_block(ors, k0, start as int, end as int));
        assert(block@ =~= block_of(ors, k0, start as int, end as int));
    }
    let mut best_nk: usize = 0;
    let mut best_pos: usize = 0;
    let mut have_best = false;
    let mut best_delta_new: u64 = 0;
    let mut best_delta_base: u64 = 0;
    let n_nurses = nurses.len();
    let mut nk: usize = 0;
    while nk < n_nurses
        invariant
            info.wf(),
            config.wf(),
            n_nurses == nurses@.len(),
            mid == routes_of(nurses@),
            routes_ok(mid, info.n_patients()),
            routes_mset(mid).len() + block@.len() <= MAX_PATIENTS as int,
            forall|j: int| 0 <= j < block@.len() ==> (#[trigger] block@[j]) < info.n_patients(),
            wi == config.fitness_punishment_factor as int,
            nk <= n_nurses,
            best_nk < n_nurses,
            best_pos <= mid[best_nk as int].len(),
            best_delta_new <= 300_030_001_004_000,
            best_delta_base <= 300_030_001_004_000,
            have_best ==> best_pos < mid[best_nk as int].len() && best_delta_new as int
                == crate::evaluate::route_fitness(
                *info,
                wi,
                crate::large_neighborhood::with_block(mid[best_nk as int], best_pos as int, block@),
            ) && best_delta_base as int == crate::evaluate::route_fitness(
                *info,
                wi,
                mid[best_nk as int],
            ),
            !have_best ==> best_nk == 0 && best_pos == 0 && (forall|k2: int|
                0 <= k2 < nk ==> (#[trigger] mid[k2]).len() == 0),
            forall|k2: int, p2: int|
                0 <= k2 < nk && 0 <= p2 < mid[k2].len() ==> best_delta_new as int
                    - best_delta_base as int <= crate::evaluate::route_fitness(
                    *info,
                    wi,
                    #[trigger] crate::large_neighborhood::with_block(mid[k2], p2, block@),
                ) - crate::evaluate::route_fitness(*info, wi, mid[k2]),
        decreases n_nurses - nk,
    {
        proof {
            assert(mid[nk as int] == nurses@[nk as int].route@);
            crate::partition::lemma_route_mset_le(mid, nk as int);
        }
        let (base, _) = fitness_nurse(&nurses[nk], info, config);
        let route_len = nurses[nk].route.len();
        let mut pos: usize = 0;
        while pos < route_len
            invariant
                info.wf(),
                config.wf(),
                n_nurses == nurses@.len(),
                mid == routes_of(nurses@),
                routes_ok(mid, info.n_patients()),
                routes_mset(mid).len() + block@.len() <= MAX_PATIENTS as int,
                forall|j: int| 0 <= j < block@.len() ==> (#[trigger] block@[j]) < info.n_patients(),
                wi == config.fitness_punishment_factor as int,
                nk < n_nurses,
                route_len == mid[nk as int].len(),
                pos <= route_len,
                best_nk < n_nurses,
                best_pos <= mid[best_nk as int].len(),
                best_delta_new <= 300_030_001_004_000,
                best_delta_base <= 300_030_001_004_000,
                base <= 300_030_001_004_000,
                base as int == crate::evaluate::route_fitness(*info, wi, mid[nk as int]),
                have_best ==> best_pos < mid[best_nk as int].len() && best_delta_new as int
                    == crate::evaluate::route_fitness(
                    *info,
                    wi,
                    crate::large_neighborhood::with_block(
                        mid[best_nk as int],
                        best_pos as int,
                        block@,
                    ),
                ) && best_delta_base as int == crate::evaluate::route_fitness(
                    *info,
                    wi,
                    mid[best_nk as int],
                ),
                !have_best ==> best_nk == 0 && best_pos == 0 && pos == 0 && (forall|k2: int|
                    0 <= k2 < nk ==> (#[trigger] mid[k2]).len() == 0),
                forall|k2: int, p2: int|
                    0 <= k2 < nk && 0 <= p2 < mid[k2].len() ==> best_delta_new as int
                        - best_delta_base as int <= crate::evaluate::route_fitness(
                        *info,
                        wi,
                        #[trigger] crate::large_neighborhood::with_block(mid[k2], p2, block@),
                    ) - crate::evaluate::route_fitness(*info, wi, mid[k2]),
                forall|p2: int|
                    0 <= p2 < pos ==> best_delta_new as int - best_delta_base as int
                        <= crate::evaluate::route_fitness(
                        *info,
                        wi,
                        #[trigger] crate::large_neighborhood::with_block(
                            mid[nk as int],
                            p2,
                            block@,
                        ),
                    ) - crate::evaluate::route_fitness(*info, wi, mid[nk as int]),
            decreases route_len - pos,
        {
            proof {
                assert(mid[nk as int] == nurses@[nk as int].route@);
                crate::partition::lemma_route_mset_le(mid, nk as int);
            }
            let fnew = fitness_with_block(&nurses[nk], pos, &block, info, config);
            proof {
                assert(nurses@[nk as int].route@.subrange(0, pos as int) + block@
                    + nurses@[nk as int].route@.subrange(
                    pos as int,
                    nurses@[nk as int].route@.len() as int,
                ) =~= crate::large_neighborhood::with_block(mid[nk as int], pos as int, block@));
            }
            let replace = if !have_best {
                true
            } else {
                fnew + best_delta_base < best_delta_new + base
            };
            if replace {
                have_best = true;
                best_nk = nk;
                best_pos = pos;
                best_delta_new = fnew;
                best_delta_base = base;
            }
            pos += 1;
        }
        nk += 1;
    }
    proof {
        crate::partition::lemma_route_mset_le(mid, best_nk as int);
        assert(mid[best_nk as int] == nurses@[best_nk as int].route@);
    }
    let ghost before_ins = routes_of(nurses@);
    nurse_insert_block(nurses, best_nk, best_pos, &block);
    proof {
        broadcast use vstd::multiset::group_multiset_axioms;
        broadcast use vstd::seq_lib::group_to_multiset_ensures;

        assert(routes_mset(routes_of(nurses@)) == routes_mset(before_ins).add(
            block@.to_multiset(),
        ));
        assert(routes_mset(routes_of(nurses@)) =~= routes_mset(ors));
        let r0 = before_ins[best_nk as int];
        let len0 = r0.len() as int;
        assert forall|k: int, j: int|
            0 <= k < nurses@.len() && 0 <= j < (#[trigger] nurses@[k]).route@.len() implies (
        #[trigger] nurses@[k].route@[j]) < info.n_patients() by {
            assert(routes_of(nurses@)[k] == nurses@[k].route@);
            if k == best_nk {
                let cv = nurses@[k].route@;
                assert(cv == r0.subrange(0, best_pos as int) + block@ + r0.subrange(
                    best_pos as int,
                    len0,
                ));
                assert(route_ok(r0, info.n_patients()));
                if j < best_pos {
                    assert(cv[j] == r0[j]);
                } else if j < best_pos + block@.len() {
                    assert(cv[j] == block@[j - best_pos]);
                } else {
                    assert(cv[j] == r0[j - block@.len()]);
                }
            } else {
                assert(routes_of(nurses@)[k] == before_ins[k]);
                assert(route_ok(before_ins[k], info.n_patients()));
            }
        }
        lemma_routes_ok_from_mset(nurses@, *info);
        // the applied move is exactly the cut block spliced at the argmin
        assert(nurses@[best_nk as int].route@ =~= crate::large_neighborhood::with_block(
            mid[best_nk as int],
            best_pos as int,
            block@,
        ));
        assert(routes_of(nurses@) =~= mid.update(
            best_nk as int,
            crate::large_neighborhood::with_block(mid[best_nk as int], best_pos as int, block@),
        ));
        assert(cluster_move_applied(old(nurses)@, nurses@, *info, wi)) by {
            assert(routes_of(nurses@) == cut_block(ors, k0, start as int, end as int).update(
                best_nk as int,
                crate::large_neighborhood::with_block(
                    cut_block(ors, k0, start as int, end as int)[best_nk as int],
                    best_pos as int,
                    block_of(ors, k0, start as int, end as int),
                ),
            ));
        }
    }
}

/// Evaluates the route that results from replacing position `pos` of
/// `nurse`'s route by patient `p`.
pub(crate) fn fitness_with_set(nurse: &Nurse, pos: usize, p: usize, info: &Info, config: &Config)
    -> (f: u64)
    requires
        info.wf(),
        config.wf(),
        route_ok(nurse@, info.n_patients()),
        pos < nurse@.len(),
        p < info.n_patients(),
    ensures
        f as int == crate::evaluate::route_fitness(
            *info,
            config.fitness_punishment_factor as int,
            nurse@.update(pos as int, p),
        ),
        f <= 300_030_001_004_000,
{
    let mut cand = copy_route(&nurse.route);
    cand.set(pos, p);
    proof {
        let cv = nurse@.update(pos as int, p);
        assert(cand@ == cv);
        assert forall|t: int| 0 <= t < cv.len() implies (#[trigger] cv[t])
            < info.n_patients() by {
            if t != pos {
                assert(cv[t] == nurse@[t]);
            }
        }
    }
    let tmpn = Nurse { capacity: 0, route: cand };
    let (f, _) = fitness_nurse(&tmpn, info, config);
    f
}

/// One route with positions `i` and `j` exchanged.
pub open spec fn swapped(r: Seq<usize>, i: int, j: int) -> Seq<usize> {
    r.update(i, r[j]).update(j, r[i])
}

/// The heuristic swap's claim: some route of the candidate was replaced by
/// the position swap whose resulting route fitness is smallest over every
/// ordered position pair, and all other routes are untouched.
pub open spec fn best_swap_applied(was: Seq<Nurse>, now: Seq<Nurse>, inst: Info, w: int) -> bool {
    exists|k: int, bi: int, bj: int|
        {
            &&& 0 <= k < was.len()
            &&& 0 <= bi < was[k].route@.len()
            &&& 0 <= bj < was[k].route@.len()
            &&& now[k].route@ == #[trigger] swapped(was[k].route@, bi, bj)
            &&& (forall|j2: int| 0 <= j2 < was.len() && j2 != k ==> now[j2] == was[j2])
            &&& (forall|i2: int, j2: int|
                0 <= i2 < was[k].route@.len() && 0 <= j2 < was[k].route@.len() && i2 != j2
                    ==> crate::evaluate::route_fitness(inst, w, swapped(was[k].route@, bi, bj))
                    <= crate::evaluate::route_fitness(
                    inst,
                    w,
                    #[trigger] swapped(was[k].route@, i2, j2),
                ))
        }
}

/// Heuristic swap: within one route holding at least two patients, scans
/// every ordered position pair and applies the swap whose fitness change is
/// smallest.
pub fn heuristic_swap_mutation(
    nurses: &mut Vec<Nurse>,
    rng: &mut rand::rngs::StdRng,
    info: &Info,
    config: &Config,
)
    requires
        info.wf(),
        config.wf(),
        mutable_ok(old(nurses)@, *info),
    ensures
        mutation_contract(old(nurses)@, final(nurses)@, *info),
        final(nurses)@ == old(nurses)@ || best_swap_applied(
            old(nurses)@,
            final(nurses)@,
            *info,
            config.fitness_punishment_factor as int,
        ),
        (forall|k: int|
            0 <= k < old(nurses)@.len() ==> (#[trigger] old(nurses)@[k]).route@.len() >= 2)
            ==> best_swap_applied(
            old(nurses)@,
            final(nurses)@,
            *info,
            config.fitness_punishment_factor as int,
        ),
{
    let ghost wi = config.fitness_punishment_factor as int;
    let picked = pick_long_route(nurses, rng, 2);
    let nurse_idx = match picked {
        Some(k) => k,
        None => {
            return ;
        },
    };
    let ghost ors = routes_of(old(nurses)@);
    let ghost r0 = old(nurses)@[nurse_idx as int].route@;
    proof {
        assert(ors[nurse_idx as int] == nurses@[nurse_idx as int].route@);
    }
    let route_len = nurses[nurse_idx].route.len();
    let mut best_i: usize = 0;
    let mut best_j: usize = 1;
    let mut have_best = false;
    let mut best_new: u64 = 0;
    let mut i: usize = 0;
    while i < route_len
        invariant
            info.wf(),
            config.wf(),
            wi == config.fitness_punishment_factor as int,
            mutable_ok(nurses@, *info),
            nurses@ == old(nurses)@,
            r0 == nurses@[nurse_idx as int].route@,
            nurse_idx < nurses@.len(),
            route_len == r0.len(),
            i <= route_len,
            route_len >= 2,
            best_i < route_len,
            best_j < route_len,
            best_new <= 300_030_001_004_000,
            have_best ==> best_i != best_j && best_new as int == crate::evaluate::route_fitness(
                *info,
                wi,
                swapped(r0, best_i as int, best_j as int),
            ),
            !have_best ==> i == 0,
            forall|i2: int, j2: int|
                0 <= i2 < i && 0 <= j2 < route_len && i2 != j2 ==> have_best && best_new as int
                    <= crate::evaluate::route_fitness(
                    *info,
                    wi,
                    #[trigger] swapped(r0, i2, j2),
                ),
        decreases route_len - i,
    {
        let mut j: usize = 0;
        while j < route_len
            invariant
                info.wf(),
                config.wf(),
                wi == config.fitness_punishment_factor as int,
                mutable_ok(nurses@, *info),
                nurses@ == old(nurses)@,
                r0 == nurses@[nurse_idx as int].route@,
                nurse_idx < nurses@.len(),
                route_len == r0.len(),
                i < route_len,
                j <= route_len,
                route_len >= 2,
                best_i < route_len,
                best_j < route_len,
                best_new <= 300_030_001_004_000,
                have_best ==> best_i != best_j && best_new as int
                    == crate::evaluate::route_fitness(
                    *info,
                    wi,
                    swapped(r0, best_i as int, best_j as int),
                ),
                !have_best ==> i == 0,
                forall|i2: int, j2: int|
                    0 <= i2 < i && 0 <= j2 < route_len && i2 != j2 ==> have_best
                        && best_new as int <= crate::evaluate::route_fitness(
                        *info,
                        wi,
                        #[trigger] swapped(r0, i2, j2),
                    ),
                forall|j2: int|
                    0 <= j2 < j && i != j2 ==> have_best && best_new as int
                        <= crate::evaluate::route_fitness(
                        *info,
                        wi,
                        #[trigger] swapped(r0, i as int, j2),
                    ),
            decreases route_len - j,
        {
            if i != j {
                proof {
                    assert(routes_of(nurses@)[nurse_idx as int]
                        == nurses@[nurse_idx as int].route@);
                }
                let fnew = fitness_with_swap(&nurses[nurse_idx], i, j, info, config);
                if !have_best || fnew < best_new {
                    have_best = true;
                    best_i = i;
                    best_j = j;
                    best_new = fnew;
                }
            }
            j += 1;
        }
        proof {
            let jw: int = if i == 0 {
                1
            } else {
                0
            };
            assert(best_new as int <= crate::evaluate::route_fitness(
                *info,
                wi,
                swapped(r0, i as int, jw),
            ));
            assert(have_best);
        }
        i += 1;
    }
    proof {
        assert(routes_of(nurses@)[nurse_idx as int] == nurses@[nurse_idx as int].route@);
    }
    nurse_swap_within(nurses, nurse_idx, best_i, best_j);
    proof {
        assert(best_swap_applied(old(nurses)@, nurses@, *info, wi)) by {
            assert(nurses@[nurse_idx as int].route@ == swapped(
                r0,
                best_i as int,
                best_j as int,
            ));
        }
    }
    proof {
        let r0 = ors[nurse_idx as int];
        assert forall|k: int, jx: int|
            0 <= k < nurses@.len() && 0 <= jx < (#[trigger] nurses@[k]).route@.len() implies (
        #[trigger] nurses@[k].route@[jx]) < info.n_patients() by {
            if k == nurse_idx {
                let cv = nurses@[k].route@;
                assert(cv == r0.update(best_i as int, r0[best_j as int]).update(
                    best_j as int,
                    r0[best_i as int],
                ));
                assert(route_ok(r0, info.n_patients()));
                if jx == best_j {
                    assert(cv[jx] == r0[best_i as int]);
                } else if jx == best_i {
                } else {
                    assert(cv[jx] == r0[jx]);
                }
            } else {
                assert(nurses@[k] == old(nurses)@[k]);
                assert(route_ok(ors[k], info.n_patients()));
                assert(ors[k] == nurses@[k].route@);
            }
        }
        lemma_routes_ok_from_mset(nurses@, *info);
    }
}

/// Whether the sampled pair `(pi, pj)` already occurs in the parallel
/// position vectors.
fn pair_in(pis: &Vec<usize>, pjs: &Vec<usize>, pi: usize, pj: usize) -> (b: bool)
    requires
        pis@.len() == pjs@.len(),
{
    let mut t: usize = 0;
    while t < pis.len()
        invariant
            pis@.len() == pjs@.len(),
            t <= pis@.len(),
        decreases pis@.len() - t,
    {
        if pis[t] == pi && pjs[t] == pj {
            return true;
        }
        t += 1;
    }
    false
}

/// The cross-swap's claim: the patients at one position of each of two
/// distinct routes were exchanged, and every other route is untouched.
pub open spec fn cross_swap_applied(was: Seq<Nurse>, now: Seq<Nurse>) -> bool {
    exists|k1: int, i1: int, k2: int, i2: int|
        {
            &&& 0 <= k1 < was.len()
            &&& 0 <= k2 < was.len()
            &&& k1 != k2
            &&& 0 <= i1 < was[k1].route@.len()
            &&& 0 <= i2 < was[k2].route@.len()
            &&& now[k1].route@ == #[trigger] was[k1].route@.update(i1, was[k2].route@[i2])
            &&& now[k2].route@ == was[k2].route@.update(i2, was[k1].route@[i1])
            &&& (forall|j: int| 0 <= j < was.len() && j != k1 && j != k2 ==> now[j] == was[j])
        }
}

/// Heuristic random cross swap: samples a bounded number of cross-route
/// position pairs between two distinct nurses, ranks the sampled swaps by
/// the combined fitness of the two changed routes, and applies one of them
/// chosen by linear-rank sampling rather than greedily.
pub fn heurisitc_random_cross_swap_mutation2(
    nurses: &mut Vec<Nurse>,
    rng: &mut rand::rngs::StdRng,
    info: &Info,
    config: &Config,
)
    requires
        info.wf(),
        config.wf(),
        mutable_ok(old(nurses)@, *info),
    ensures
        mutation_contract(old(nurses)@, final(nurses)@, *info),
        final(nurses)@ == old(nurses)@ || cross_swap_applied(old(nurses)@, final(nurses)@),
{
    if nurses.len() < 2 {
        return ;
    }
    let nurse_i = rand_index(rng, nurses.len());
    let mut nurse_j = nurse_i;
    let mut t: usize = 0;
    while t < 30
        invariant
            nurses@.len() >= 2,
            nurse_j < nurses@.len(),
        decreases 30 - t,
    {
        nurse_j = rand_index(rng, nurses.len());
        if nurse_j != nurse_i {
            break ;
        }
        t += 1;
    }
    if nurse_j == nurse_i {
        return ;
    }
    let len_i = nurses[nurse_i].route.len();
    let len_j = nurses[nurse_j].route.len();
    if len_i == 0 || len_j == 0 {
        return ;
    }
    // sample up to ten distinct position pairs
    let mut pis: Vec<usize> = Vec::new();
    let mut pjs: Vec<usize> = Vec::new();
    let mut tries: usize = 0;
    while tries < 100
        invariant
            nurses@ == old(nurses)@,
            nurse_i < nurses@.len(),
            nurse_j < nurses@.len(),
            len_i == nurses@[nurse_i as int].route@.len(),
            len_j == nurses@[nurse_j as int].route@.len(),
            len_i >= 1,
            len_j >= 1,
            pis@.len() == pjs@.len(),
            pis@.len() <= 10,
            forall|q: int| 0 <= q < pis@.len() ==> (#[trigger] pis@[q]) < len_i,
            forall|q: int| 0 <= q < pjs@.len() ==> (#[trigger] pjs@[q]) < len_j,
        decreases 100 - tries,
    {
        if pis.len() >= 10 {
            break ;
        }
        let pi = rand_index(rng, len_i);
        let pj = rand_index(rng, len_j);
        if !pair_in(&pis, &pjs, pi, pj) {
            pis.push(pi);
            pjs.push(pj);
        }
        tries += 1;
    }
    if pis.len() == 0 {
        return ;
    }
    // evaluate the sampled swaps and keep them ordered worst-first
    let mut cis: Vec<usize> = Vec::new();
    let mut cjs: Vec<usize> = Vec::new();
    let mut cfs: Vec<u64> = Vec::new();
    let mut q: usize = 0;
    while q < pis.len()
        invariant
            info.wf(),
            config.wf(),
            mutable_ok(nurses@, *info),
            nurses@ == old(nurses)@,
            nurse_i < nurses@.len(),
            nurse_j < nurses@.len(),
            len_i == nurses@[nurse_i as int].route@.len(),
            len_j == nurses@[nurse_j as int].route@.len(),
            pis@.len() == pjs@.len(),
            pis@.len() <= 10,
            q <= pis@.len(),
            cfs@.len() == q,
            forall|x: int| 0 <= x < pis@.len() ==> (#[trigger] pis@[x]) < len_i,
            forall|x: int| 0 <= x < pjs@.len() ==> (#[trigger] pjs@[x]) < len_j,
            cis@.len() == cjs@.len() && cjs@.len() == cfs@.len(),
            forall|x: int| 0 <= x < cis@.len() ==> (#[trigger] cis@[x]) < len_i,
            forall|x: int| 0 <= x < cjs@.len() ==> (#[trigger] cjs@[x]) < len_j,
        decreases pis@.len() - q,
    {
        let pi = pis[q];
        let pj = pjs[q];
        let a = nurses[nurse_i].route[pi];
        let b = nurses[nurse_j].route[pj];
        proof {
            assert(routes_of(nurses@)[nurse_i as int] == nurses@[nurse_i as int].route@);
            assert(routes_of(nurses@)[nurse_j as int] == nurses@[nurse_j as int].route@);
        }
        let fi = fitness_with_set(&nurses[nurse_i], pi, b, info, config);
        let fj = fitness_with_set(&nurses[nurse_j], pj, a, info, config);
        let f = fi + fj;
        // insertion into the worst-first order
        let mut ins: usize = 0;
        while ins < cfs.len()
            invariant
                ins <= cfs@.len(),
            decreases cfs@.len() - ins,
        {
            if cfs[ins] < f {
                break ;
            }
            ins += 1;
        }
        let ghost cis0 = cis@;
        let ghost cjs0 = cjs@;
        cis.insert(ins, pi);
        cjs.insert(ins, pj);
        cfs.insert(ins, f);
        proof {
            cis0.insert_ensures(ins as int, pi);
            cjs0.insert_ensures(ins as int, pj);
            assert forall|x: int| 0 <= x < cis@.len() implies (#[trigger] cis@[x]) < len_i by {
                if x < ins {
                    assert(cis@[x] == cis0[x]);
                } else if x == ins {
                } else {
                    assert(cis@[x] == cis0[x - 1]);
                }
            }
            assert forall|x: int| 0 <= x < cjs@.len() implies (#[trigger] cjs@[x]) < len_j by {
                if x < ins {
                    assert(cjs@[x] == cjs0[x]);
                } else if x == ins {
                } else {
                    assert(cjs@[x] == cjs0[x - 1]);
                }
            }
        }
        q += 1;
    }
    let mu = cfs.len();
    if mu == 0 {
        return ;
    }
    let chosen = if mu < 2 {
        0
    } else {
        let mut weights: Vec<u64> = Vec::new();
        let mut w: usize = 0;
        while w < mu
            invariant
                config.wf(),
                2 <= mu <= 10,
                w <= mu,
                weights@.len() == w,
                forall|x: int|
                    0 <= x < w ==> (#[trigger] weights@[x]) <= 3000
                        * crate::config::MAX_POPULATION as u64,
            decreases mu - w,
        {
            weights.push(
                crate::parent_selection::linear_rank_probability(mu, config.s, w),
            );
            w += 1;
        }
        proof {
            crate::parent_selection::lemma_bounded_weights_sum(weights@, weights@.len() as int);
        }
        crate::parent_selection::weighted_pick(&weights, rng)
    };
    let ci = cis[chosen];
    let cj = cjs[chosen];
    let ghost ors = routes_of(old(nurses)@);
    nurse_swap_cross(nurses, nurse_i, ci, nurse_j, cj);
    proof {
        assert(cross_swap_applied(old(nurses)@, nurses@)) by {
            assert(nurses@[nurse_i as int].route@ == old(nurses)@[nurse_i as int].route@.update(
                ci as int,
                old(nurses)@[nurse_j as int].route@[cj as int],
            ));
        }
        let ra = ors[nurse_i as int];
        let rb = ors[nurse_j as int];
        assert forall|k: int, jx: int|
            0 <= k < nurses@.len() && 0 <= jx < (#[trigger] nurses@[k]).route@.len() implies (
        #[trigger] nurses@[k].route@[jx]) < info.n_patients() by {
            assert(route_ok(ors[k], info.n_patients()));
            if k == nurse_i {
                let cv = nurses@[k].route@;
                assert(cv == ra.update(ci as int, rb[cj as int]));
                assert(route_ok(rb, info.n_patients()));
                if jx != ci {
                    assert(cv[jx] == ra[jx]);
                }
            } else if k == nurse_j {
                let cv = nurses@[k].route@;
                assert(cv == rb.update(cj as int, ra[ci as int]));
                assert(route_ok(ra, info.n_patients()));
                if jx != cj {
                    assert(cv[jx] == rb[jx]);
                }
            } else {
                assert(nurses@[k] == old(nurses)@[k]);
                assert(ors[k] == nurses@[k].route@);
            }
        }
        lemma_routes_ok_from_mset(nurses@, *info);
    }
}

/// The insert move's claim: exactly one patient left its position and was
/// inserted at one position of another route; every other route is
/// untouched.
pub open spec fn patient_moved(was: Seq<Nurse>, now: Seq<Nurse>) -> bool {
    exists|k1: int, pos1: int, k2: int, pos2: int|
        {
            &&& 0 <= k1 < was.len()
            &&& 0 <= k2 < was.len()
            &&& k1 != k2
            &&& 0 <= pos1 < was[k1].route@.len()
            &&& 0 <= pos2 <= was[k2].route@.len()
            &&& now[k1].route@ == was[k1].route@.remove(pos1)
            &&& now[k2].route@ == #[trigger] was[k2].route@.insert(pos2, was[k1].route@[pos1])
            &&& (forall|j: int| 0 <= j < was.len() && j != k1 && j != k2 ==> now[j] == was[j])
        }
}

/// Heuristic insert: removes one random patient and moves it to whichever
/// sampled (nurse, position) target among other nurses yields the lowest
/// fitness increase.
pub fn heuristic_insert_mutation(
    nurses: &mut Vec<Nurse>,
    rng: &mut rand::rngs::StdRng,
    info: &Info,
    config: &Config,
)
    requires
        info.wf(),
        config.wf(),
        mutable_ok(old(nurses)@, *info),
    ensures
        mutation_contract(old(nurses)@, final(nurses)@, *info),
        final(nurses)@ == old(nurses)@ || patient_moved(old(nurses)@, final(nurses)@),
{
    let src_k = rand_index(rng, nurses.len());
    let src_len = nurses[src_k].route.len();
    if src_len == 0 {
        return ;
    }
    let src_pos = rand_index(rng, src_len);
    let p = nurses[src_k].route[src_pos];
    proof {
        assert(routes_of(nurses@)[src_k as int] == nurses@[src_k as int].route@);
        assert(route_ok(routes_of(nurses@)[src_k as int], info.n_patients()));
    }
    // sample target positions among the other nurses
    let mut best_k: usize = 0;
    let mut best_pos: usize = 0;
    let mut have_best = false;
    let mut best_new: u64 = 0;
    let mut best_base: u64 = 0;
    let mut tries: usize = 0;
    let mut found: usize = 0;
    while tries < 100
        invariant
            info.wf(),
            config.wf(),
            mutable_ok(nurses@, *info),
            nurses@ == old(nurses)@,
            src_k < nurses@.len(),
            p < info.n_patients(),
            tries <= 100,
            have_best ==> best_k < nurses@.len() && best_k != src_k && best_pos
                < nurses@[best_k as int].route@.len(),
            best_new <= 300_030_001_004_000,
            best_base <= 300_030_001_004_000,
        decreases 100 - tries,
    {
        if found >= 10 {
            break ;
        }
        let tk = rand_index(rng, nurses.len());
        if tk != src_k && nurses[tk].route.len() > 0 {
            let tp = rand_index(rng, nurses[tk].route.len());
            proof {
                assert(routes_of(nurses@)[tk as int] == nurses@[tk as int].route@);
                assert(route_ok(routes_of(nurses@)[tk as int], info.n_patients()));
                crate::partition::lemma_route_mset_le(routes_of(nurses@), tk as int);
            }
            let (fbase, _) = fitness_nurse(&nurses[tk], info, config);
            let fnew = crate::crossover::fitness_with_insert(&nurses[tk], tp, p, info, config);
            proof {
                crate::evaluate::lemma_route_fitness_bound(
                    *info,
                    config.fitness_punishment_factor as int,
                    nurses@[tk as int].route@.insert(tp as int, p),
                );
                let cv = nurses@[tk as int].route@.insert(tp as int, p);
                nurses@[tk as int].route@.insert_ensures(tp as int, p);
                assert(route_ok(cv, info.n_patients())) by {
                    assert forall|j: int| 0 <= j < cv.len() implies (#[trigger] cv[j])
                        < info.n_patients() by {
                        if j < tp {
                            assert(cv[j] == nurses@[tk as int].route@[j]);
                        } else if j == tp {
                        } else {
                            assert(cv[j] == nurses@[tk as int].route@[j - 1]);
                        }
                    }
                }
            }
            let replace = if !have_best {
                true
            } else {
                fnew + best_base < best_new + fbase
            };
            if replace {
                have_best = true;
                best_k = tk;
                best_pos = tp;
                best_new = fnew;
                best_base = fbase;
            }
            found += 1;
        }
        tries += 1;
    }
    if !have_best {
        return ;
    }
    let ghost ors = routes_of(old(nurses)@);
    let removed = nurse_remove(nurses, src_k, src_pos);
    proof {
        assert(removed == p);
    }
    nurse_insert(nurses, best_k, best_pos, p);
    proof {
        assert(patient_moved(old(nurses)@, nurses@)) by {
            assert(nurses@[best_k as int].route@ == old(nurses)@[best_k as int].route@.insert(
                best_pos as int,
                old(nurses)@[src_k as int].route@[src_pos as int],
            ));
            assert(nurses@[src_k as int].route@ == old(nurses)@[src_k as int].route@.remove(
                src_pos as int,
            ));
        }
        let mid = ors.update(src_k as int, ors[src_k as int].remove(src_pos as int));
        assert forall|k: int, jx: int|
            0 <= k < nurses@.len() && 0 <= jx < (#[trigger] nurses@[k]).route@.len() implies (
        #[trigger] nurses@[k].route@[jx]) < info.n_patients() by {
            assert(route_ok(ors[k], info.n_patients()));
            if k == best_k {
                let r0 = ors[best_k as int];
                let cv = nurses@[k].route@;
                assert(cv == r0.insert(best_pos as int, p));
                r0.insert_ensures(best_pos as int, p);
                if jx < best_pos {
                    assert(cv[jx] == r0[jx]);
                } else if jx == best_pos {
                    assert(cv[jx] == p);
                } else {
                    assert(cv[jx] == r0[jx - 1]);
                }
            } else if k == src_k {
                let r0 = ors[src_k as int];
                let cv = nurses@[k].route@;
                assert(cv == r0.remove(src_pos as int));
                r0.remove_ensures(src_pos as int);
                assert(r0.contains(cv[jx]));
            } else {
                assert(nurses@[k] == old(nurses)@[k]);
                assert(ors[k] == nurses@[k].route@);
            }
        }
        lemma_routes_ok_from_mset(nurses@, *info);
    }
}

/// Applies each configured mutation operator independently with its own
/// rate, in a fixed pipeline order. The patient multiset of the candidate
/// is preserved whatever subset of operators fires.
pub fn mutate_nurse(
    individual: &mut Vec<Nurse>,
    rng: &mut rand::rngs::StdRng,
    info: &Info,
    config: &Config,
)
    requires
        info.wf(),
        config.wf(),
        mutable_ok(old(individual)@, *info),
    ensures
        mutation_contract(old(individual)@, final(individual)@, *info),
{
    let d1 = rand_below(rng, RATE_UNIT as u64);
    if d1 < config.heuristic_cluster_mutation_rate as u64 {
        heuristic_cluster_mutation(individual, rng, info, config);
    }
    let d2 = rand_below(rng, RATE_UNIT as u64);
    if d2 < config.heuristic_swap_mutation_rate as u64 {
        heuristic_swap_mutation(individual, rng, info, config);
    }
    let d3 = rand_below(rng, RATE_UNIT as u64);
    if d3 < config.heuristic_random_swap_mutation_rate as u64 {
        heurisitc_random_cross_swap_mutation2(individual, rng, info, config);
    }
    let d4 = rand_below(rng, RATE_UNIT as u64);
    if d4 < config.large_neighbourhood_mutation_rate as u64 {
        destroy_and_repair(individual, rng, info, config);
    }
    let d5 = rand_below(rng, RATE_UNIT as u64);
    if d5 < config.insert_mutation_rate as u64 {
        heuristic_insert_mutation(individual, rng, info, config);
    }
}

/// Every member of the population can be mutated.
pub open spec fn pop_mutable(pop: Seq<Individual>, inst: Info) -> bool {
    forall|i: int| 0 <= i < pop.len() ==> mutable_ok((#[trigger] pop[i]).nurses@, inst)
}

/// What one mutation pass promises for every member of a population.
pub open spec fn pop_mutated(was: Seq<Individual>, now: Seq<Individual>, inst: Info) -> bool {
    &&& now.len() == was.len()
    &&& forall|i: int|
        0 <= i < was.len() ==> {
            &&& mutation_contract((#[trigger] was[i]).nurses@, now[i].nurses@, inst)
            &&& now[i].fitness == was[i].fitness
            &&& now[i].feasible == was[i].feasible
        }
}

/// Mutates one candidate with a freshly seeded generator: the per-worker
/// entry point of the parallel mutation pass.
pub fn mutate_one(individual: &mut Individual, info: &Info, config: &Config)
    requires
        info.wf(),
        config.wf(),
        mutable_ok(old(individual).nurses@, *info),
    ensures
        mutation_contract(old(individual).nurses@, final(individual).nurses@, *info),
        final(individual).fitness == old(individual).fitness,
        final(individual).feasible == old(individual).feasible,
{
    let mut rng = crate::rng::rng_from_entropy();
    mutate_nurse(&mut individual.nurses, &mut rng, info, config);
}

/// Mutates every member across worker threads.
///
/// Relies on rayon's `par_iter_mut` and `ParallelIterator::for_each`: the
/// closure, which only calls this crate's verified per-member pass, is
/// applied to every member exactly once, so the outcome is that of the
/// serial pass.
#[verifier::external_body]
fn mutate_parallel(population: &mut Vec<Individual>, config: &Config, info: &Info)
    requires
        info.wf(),
        config.wf(),
        pop_mutable(old(population)@, *info),
    ensures
        pop_mutated(old(population)@, final(population)@, *info),
{
    rayon::iter::ParallelIterator::for_each(
        rayon::iter::IntoParallelRefMutIterator::par_iter_mut(population),
        |ind| mutate_one(ind, info, config),
    );
}

/// Mutates every member of the population: serially under the island model,
/// which runs one loop per thread already, and across worker threads
/// otherwise. Each member keeps its patient multiset, nurse count and
/// cached score fields.
pub fn mutate_population(
    population: &mut Vec<Individual>,
    config: &Config,
    info: &Info,
    rng: &mut rand::rngs::StdRng,
)
    requires
        info.wf(),
        config.wf(),
        pop_mutable(old(population)@, *info),
    ensures
        pop_mutated(old(population)@, final(population)@, *info),
{
    if !config.use_islands {
        mutate_parallel(population, config, info);
        return ;
    }
    let ghost orig = population@;
    let mut i: usize = 0;
    while i < population.len()
        invariant
            info.wf(),
            config.wf(),
            pop_mutable(orig, *info),
            population@.len() == orig.len(),
            i <= orig.len(),
            forall|j: int| i <= j < orig.len() ==> population@[j] == orig[j],
            forall|j: int|
                0 <= j < i ==> {
                    &&& mutation_contract(
                        (#[trigger] orig[j]).nurses@,
                        population@[j].nurses@,
                        *info,
                    )
                    &&& population@[j].fitness == orig[j].fitness
                    &&& population@[j].feasible == orig[j].feasible
                },
        decreases orig.len() - i,
    {
        let mut tmp = Individual { nurses: Vec::new(), fitness: 0, feasible: false };
        population.set_and_swap(i, &mut tmp);
        proof {
            assert(tmp == orig[i as int]);
            assert(mutable_ok(orig[i as int].nurses@, *info));
        }
        mutate_nurse(&mut tmp.nurses, rng, info, config);
        population.set_and_swap(i, &mut tmp);
        i += 1;
    }
}

} // verus!
