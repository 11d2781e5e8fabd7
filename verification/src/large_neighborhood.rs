use vstd::prelude::*;

use crate::config::Config;
use crate::evaluate::{route_fitness, route_ok};
use crate::io::{Info, MAX_PATIENTS};
use crate::mutation::{fitness_with_block, lemma_routes_ok_from_mset, mutable_ok, mutation_contract};
use crate::nurse::Nurse;
use crate::partition::{nurse_drain_block, nurse_insert_block, routes_mset, routes_of};
use crate::rng::{rand_below, rand_index};

verus! {

/// Route list `rs` with the tail of length `m` cut off route `k`.
pub open spec fn tail_cut(rs: Seq<Seq<usize>>, k: int, m: int) -> Seq<Seq<usize>> {
    rs.update(k, rs[k].subrange(0, rs[k].len() - m))
}

/// The tail of length `m` of route `k`.
pub open spec fn tail_of(rs: Seq<Seq<usize>>, k: int, m: int) -> Seq<usize> {
    rs[k].subrange(rs[k].len() - m, rs[k].len() as int)
}

/// Route `r` with block `b` spliced in at position `pos`.
pub open spec fn with_block(r: Seq<usize>, pos: int, b: Seq<usize>) -> Seq<usize> {
    r.subrange(0, pos) + b + r.subrange(pos, r.len() as int)
}

/// The large-neighborhood move's claim: a tail of length at least two was
/// torn off one sufficiently long route and spliced back as one block at
/// the scanned position whose resulting route fitness is smallest.
pub open spec fn tail_move_applied(
    was: Seq<Seq<usize>>,
    now: Seq<Seq<usize>>,
    inst: Info,
    w: int,
) -> bool {
    exists|k: int, m: int, bk: int, bp: int|
        {
            &&& 0 <= k < was.len()
            &&& 2 <= m < was[k].len()
            &&& was[k].len() >= 6
            &&& 0 <= bk < was.len()
            &&& 0 <= bp < tail_cut(was, k, m)[bk].len()
            &&& now == tail_cut(was, k, m).update(
                bk,
                #[trigger] with_block(tail_cut(was, k, m)[bk], bp, tail_of(was, k, m)),
            )
            &&& (forall|k2: int, p2: int|
                0 <= k2 < was.len() && 0 <= p2 < tail_cut(was, k, m)[k2].len() ==> route_fitness(
                    inst,
                    w,
                    with_block(tail_cut(was, k, m)[bk], bp, tail_of(was, k, m)),
                ) <= route_fitness(
                    inst,
                    w,
                    #[trigger] with_block(tail_cut(was, k, m)[k2], p2, tail_of(was, k, m)),
                ))
        }
}

/// Large-neighborhood move: tears a random-sized tail off a sufficiently
/// long route and reinserts it as one contiguous block at the scanned
/// position whose resulting route fitness is lowest. When every route has
/// at least six patients the sampler cannot fail, so a move is guaranteed.
pub fn destroy_and_repair(
    individual: &mut Vec<Nurse>,
    rng: &mut rand::rngs::StdRng,
    info: &Info,
    config: &Config,
)
    requires
        info.wf(),
        config.wf(),
        mutable_ok(old(individual)@, *info),
    ensures
        mutation_contract(old(individual)@, final(individual)@, *info),
        routes_of(final(individual)@) == routes_of(old(individual)@) || tail_move_applied(
            routes_of(old(individual)@),
            routes_of(final(individual)@),
            *info,
            config.fitness_punishment_factor as int,
        ),
        (forall|k: int|
            0 <= k < old(individual)@.len() ==> (#[trigger] old(individual)@[k]).route@.len()
                >= 6) ==> tail_move_applied(
            routes_of(old(individual)@),
            routes_of(final(individual)@),
            *info,
            config.fitness_punishment_factor as int,
        ),
{
    let ghost wi = config.fitness_punishment_factor as int;
    let ghost was = routes_of(old(individual)@);
    // a route with at least six patients, in a few random tries
    let mut nurse_idx: usize = 0;
    let mut found = false;
    let mut len: usize = 0;
    let mut t: usize = 0;
    while !found && t < 3
        invariant
            individual@.len() >= 1,
            nurse_idx < individual@.len(),
            found ==> len == individual@[nurse_idx as int].route@.len() && len >= 6,
            !found && t > 0 ==> exists|k: int|
                0 <= k < individual@.len() && (#[trigger] individual@[k]).route@.len() < 6,
            t <= 3,
        decreases 3 - t,
    {
        nurse_idx = rand_index(rng, individual.len());
        if individual[nurse_idx].route.len() >= 6 {
            len = individual[nurse_idx].route.len();
            found = true;
        } else {
            proof {
                assert(individual@[nurse_idx as int].route@.len() < 6);
            }
        }
        t += 1;
    }
    if !found {
        return ;
    }
    let n_to_move = 2 + rand_below(rng, (len - 2) as u64) as usize;
    let start = len - n_to_move;
    let ghost k0 = nurse_idx as int;
    let ghost m = n_to_move as int;
    let block = nurse_drain_block(individual, nurse_idx, start, len);
    let ghost mid_rs = routes_of(individual@);
    proof {
        broadcast use vstd::multiset::group_multiset_axioms;
        broadcast use vstd::seq_lib::group_to_multiset_ensures;

        assert(individual@[k0].route@ =~= was[k0].subrange(0, was[k0].len() - m));
        assert(mid_rs =~= tail_cut(was, k0, m));
        assert(block@ =~= tail_of(was, k0, m));
        assert(routes_mset(routes_of(individual@)).len() + block@.to_multiset().len()
            == routes_mset(was).len());
        assert(block@.to_multiset().len() == block@.len());
        assert forall|k: int, j: int|
            0 <= k < individual@.len() && 0 <= j < (#[trigger] individual@[k]).route@.len() implies (
        #[trigger] individual@[k].route@[j]) < info.n_patients() by {
            assert(routes_of(individual@)[k] == individual@[k].route@);
            if k == nurse_idx {
                assert(route_ok(was[k], info.n_patients()));
            } else {
                assert(individual@[k] == old(individual)@[k]);
                assert(route_ok(was[k], info.n_patients()));
                assert(was[k] == individual@[k].route@);
            }
        }
        lemma_routes_ok_from_mset(individual@, *info);
        assert forall|j: int| 0 <= j < block@.len() implies (#[trigger] block@[j])
            < info.n_patients() by {
            assert(block@[j] == old(individual)@[nurse_idx as int].route@[start + j]);
            assert(route_ok(was[k0], info.n_patients()));
        }
    }
    // scan every nurse and every interior position for the lowest resulting
    // route fitness
    let mut best_nk: usize = 0;
    let mut best_pos: usize = 0;
    let mut have_best = false;
    let mut best_fit: u64 = 0;
    let n_nurses = individual.len();
    let mut nk: usize = 0;
    while nk < n_nurses
        invariant
            info.wf(),
            config.wf(),
            wi == config.fitness_punishment_factor as int,
            n_nurses == individual@.len(),
            mid_rs == routes_of(individual@),
            crate::evaluate::routes_ok(mid_rs, info.n_patients()),
            routes_mset(mid_rs).len() + block@.len() <= MAX_PATIENTS as int,
            forall|j: int| 0 <= j < block@.len() ==> (#[trigger] block@[j]) < info.n_patients(),
            nk <= n_nurses,
            best_nk < n_nurses,
            best_fit <= 300_030_001_004_000,
            have_best ==> best_pos < mid_rs[best_nk as int].len() && best_fit as int
                == route_fitness(*info, wi, with_block(mid_rs[best_nk as int], best_pos as int, block@)),
            !have_best ==> best_pos == 0 && (forall|k2: int|
                0 <= k2 < nk ==> (#[trigger] mid_rs[k2]).len() == 0),
            forall|k2: int, p2: int|
                0 <= k2 < nk && 0 <= p2 < mid_rs[k2].len() ==> best_fit as int <= route_fitness(
                    *info,
                    wi,
                    #[trigger] with_block(mid_rs[k2], p2, block@),
                ),
        decreases n_nurses - nk,
    {
        let route_len = individual[nk].route.len();
        proof {
            assert(mid_rs[nk as int] == individual@[nk as int].route@);
        }
        let mut pos: usize = 0;
        while pos < route_len
            invariant
                info.wf(),
                config.wf(),
                wi == config.fitness_punishment_factor as int,
                n_nurses == individual@.len(),
                mid_rs == routes_of(individual@),
                crate::evaluate::routes_ok(mid_rs, info.n_patients()),
                routes_mset(mid_rs).len() + block@.len() <= MAX_PATIENTS as int,
                forall|j: int| 0 <= j < block@.len() ==> (#[trigger] block@[j]) < info.n_patients(),
                nk < n_nurses,
                route_len == mid_rs[nk as int].len(),
                pos <= route_len,
                best_nk < n_nurses,
                best_fit <= 300_030_001_004_000,
                have_best ==> best_pos < mid_rs[best_nk as int].len() && best_fit as int
                    == route_fitness(
                    *info,
                    wi,
                    with_block(mid_rs[best_nk as int], best_pos as int, block@),
                ),
                !have_best ==> best_pos == 0 && pos == 0 && (forall|k2: int|
                    0 <= k2 < nk ==> (#[trigger] mid_rs[k2]).len() == 0),
                forall|k2: int, p2: int|
                    0 <= k2 < nk && 0 <= p2 < mid_rs[k2].len() ==> best_fit as int
                        <= route_fitness(
                        *info,
                        wi,
                        #[trigger] with_block(mid_rs[k2], p2, block@),
                    ),
                forall|p2: int|
                    0 <= p2 < pos ==> best_fit as int <= route_fitness(
                        *info,
                        wi,
                        #[trigger] with_block(mid_rs[nk as int], p2, block@),
                    ),
            decreases route_len - pos,
        {
            proof {
                assert(mid_rs[nk as int] == individual@[nk as int].route@);
                crate::partition::lemma_route_mset_le(mid_rs, nk as int);
            }
            let fnew = fitness_with_block(&individual[nk], pos, &block, info, config);
            proof {
                assert(individual@[nk as int].route@.subrange(0, pos as int) + block@
                    + individual@[nk as int].route@.subrange(
                    pos as int,
                    individual@[nk as int].route@.len() as int,
                ) =~= with_block(mid_rs[nk as int], pos as int, block@));
            }
            if !have_best || fnew < best_fit {
                have_best = true;
                best_nk = nk;
                best_pos = pos;
                best_fit = fnew;
            }
            pos += 1;
        }
        nk += 1;
    }
    proof {
        crate::partition::lemma_route_mset_le(mid_rs, best_nk as int);
        assert(mid_rs[best_nk as int] == individual@[best_nk as int].route@);
        // route k0 kept at least one patient, so a candidate was scanned
        assert(mid_rs[k0].len() >= 1);
        assert(have_best);
        assert(best_fit as int <= route_fitness(*info, wi, with_block(mid_rs[k0], 0, block@)));
    }
    let ghost before_ins = routes_of(individual@);
    nurse_insert_block(individual, best_nk, best_pos, &block);
    proof {
        broadcast use vstd::multiset::group_multiset_axioms;
        broadcast use vstd::seq_lib::group_to_multiset_ensures;

        assert(routes_mset(routes_of(individual@)) == routes_mset(before_ins).add(
            block@.to_multiset(),
        ));
        assert(routes_mset(routes_of(individual@)) =~= routes_mset(was));
        let r0 = before_ins[best_nk as int];
        let len0 = r0.len() as int;
        assert forall|k: int, j: int|
            0 <= k < individual@.len() && 0 <= j < (#[trigger] individual@[k]).route@.len() implies (
        #[trigger] individual@[k].route@[j]) < info.n_patients() by {
            assert(routes_of(individual@)[k] == individual@[k].route@);
            if k == best_nk {
                let cv = individual@[k].route@;
                assert(cv == r0.subrange(0, best_pos as int) + block@ + r0.subrange(
                    best_pos as int,
                    len0,
                ));
                assert(route_ok(r0, info.n_patients()));
                if j < best_pos {
                    assert(cv[j] == r0[j]);
                } else if j < best_pos + block@.len() {
                    assert(cv[j] == block@[j - best_pos]);
                } else {
                    assert(cv[j] == r0[j - block@.len()]);
                }
            } else {
                assert(routes_of(individual@)[k] == before_ins[k]);
                assert(route_ok(before_ins[k], info.n_patients()));
            }
        }
        lemma_routes_ok_from_mset(individual@, *info);
        // the applied move is exactly the argmin tail splice
        assert(individual@[best_nk as int].route@ =~= with_block(
            mid_rs[best_nk as int],
            best_pos as int,
            block@,
        ));
        assert(routes_of(individual@) =~= mid_rs.update(
            best_nk as int,
            with_block(mid_rs[best_nk as int], best_pos as int, block@),
        ));
        assert(tail_move_applied(was, routes_of(individual@), *info, wi)) by {
            assert(routes_of(individual@) == tail_cut(was, k0, m).update(
                best_nk as int,
                with_block(tail_cut(was, k0, m)[best_nk as int], best_pos as int, tail_of(was, k0, m)),
            ));
        }
    }
}

} // verus!
