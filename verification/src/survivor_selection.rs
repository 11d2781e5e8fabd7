use vstd::prelude::*;

use crate::config::{Config, SurvivorSelectionFN, SCALE_UNIT};
use crate::io::MAX_PATIENTS;
use crate::nurse::Individual;
use crate::partition::routes_mset;
use crate::rng::rand_below;

verus! {

/// The directed edges of one route: each pair of consecutive patients.
pub open spec fn route_edges(r: Seq<usize>) -> Seq<(usize, usize)>
    decreases r.len(),
{
    if r.len() < 2 {
        Seq::empty()
    } else {
        route_edges(r.drop_last()).push((r[r.len() - 2], r[r.len() - 1]))
    }
}

/// All directed edges of a candidate, across its routes.
pub open spec fn ind_edges(rs: Seq<Seq<usize>>) -> Seq<(usize, usize)>
    decreases rs.len(),
{
    if rs.len() == 0 {
        Seq::empty()
    } else {
        ind_edges(rs.drop_last()) + route_edges(rs.last())
    }
}

/// How many entries of `s` equal `x`.
pub open spec fn occ_of(s: Seq<(usize, usize)>, x: (usize, usize)) -> nat
    decreases s.len(),
{
    if s.len() == 0 {
        0
    } else {
        occ_of(s.drop_last(), x) + if s.last() == x {
            1nat
        } else {
            0nat
        }
    }
}

/// The number of matching edge pairs between two edge lists: for each entry
/// of `ea`, how often it occurs in `eb`, summed up.
pub open spec fn sim_count(ea: Seq<(usize, usize)>, eb: Seq<(usize, usize)>) -> nat
    decreases ea.len(),
{
    if ea.len() == 0 {
        0
    } else {
        sim_count(ea.drop_last(), eb) + occ_of(eb, ea.last())
    }
}

/// An occurrence count never exceeds the list length.
proof fn lemma_occ_le_len(s: Seq<(usize, usize)>, x: (usize, usize))
    ensures
        occ_of(s, x) <= s.len(),
    decreases s.len(),
{
    if s.len() > 0 {
        lemma_occ_le_len(s.drop_last(), x);
    }
}

/// Matching a list against an empty list finds nothing.
proof fn lemma_sim_empty(b: Seq<(usize, usize)>)
    ensures
        sim_count(b, Seq::empty()) == 0,
    decreases b.len(),
{
    if b.len() > 0 {
        lemma_sim_empty(b.drop_last());
    }
}

/// Appending one edge to the second list adds exactly that edge's
/// occurrence count in the first.
proof fn lemma_sim_push(b: Seq<(usize, usize)>, a: Seq<(usize, usize)>, x: (usize, usize))
    ensures
        sim_count(b, a.push(x)) == sim_count(b, a) + occ_of(b, x),
    decreases b.len(),
{
    if b.len() > 0 {
        lemma_sim_push(b.drop_last(), a, x);
        assert((a.push(x)).drop_last() =~= a);
        assert((a.push(x)).last() == x);
        assert(occ_of(a.push(x), b.last()) == occ_of(a, b.last()) + if x == b.last() {
            1nat
        } else {
            0nat
        });
    } else {
        assert(sim_count(b, a.push(x)) == 0);
        assert(sim_count(b, a) == 0);
        assert(occ_of(b, x) == 0);
    }
}

/// The similarity count is symmetric in its two edge lists.
pub proof fn lemma_sim_symmetric(a: Seq<(usize, usize)>, b: Seq<(usize, usize)>)
    ensures
        sim_count(a, b) == sim_count(b, a),
    decreases a.len(),
{
    if a.len() == 0 {
        lemma_sim_empty(b);
        assert(a =~= Seq::<(usize, usize)>::empty());
    } else {
        lemma_sim_symmetric(a.drop_last(), b);
        lemma_sim_push(b, a.drop_last(), a.last());
        assert(a.drop_last().push(a.last()) =~= a);
    }
}

/// The shared-edge similarity of two candidates is symmetric.
pub proof fn lemma_similarity_symmetric(a: Seq<Seq<usize>>, b: Seq<Seq<usize>>)
    ensures
        sim_count(ind_edges(a), ind_edges(b)) == sim_count(ind_edges(b), ind_edges(a)),
{
    lemma_sim_symmetric(ind_edges(a), ind_edges(b));
}

/// A route has one edge less than it has patients (and none when it has
/// fewer than two).
proof fn lemma_route_edges_len(r: Seq<usize>)
    ensures
        route_edges(r).len() <= r.len(),
    decreases r.len(),
{
    if r.len() >= 2 {
        lemma_route_edges_len(r.drop_last());
    }
}

/// A candidate has no more edges than patients in its multiset.
proof fn lemma_ind_edges_len(rs: Seq<Seq<usize>>)
    ensures
        ind_edges(rs).len() <= routes_mset(rs).len(),
    decreases rs.len(),
{
    broadcast use vstd::multiset::group_multiset_axioms;
    broadcast use vstd::seq_lib::group_to_multiset_ensures;

    if rs.len() > 0 {
        lemma_ind_edges_len(rs.drop_last());
        lemma_route_edges_len(rs.last());
        assert(rs.last().to_multiset().len() == rs.last().len());
    }
}

/// Collects the directed edges of one candidate.
fn edges_vec(individual: &Individual) -> (out: Vec<(usize, usize)>)
    ensures
        out@ == ind_edges(individual@),
{
    let ghost rsv = individual@;
    let mut out: Vec<(usize, usize)> = Vec::new();
    let mut k: usize = 0;
    while k < individual.nurses.len()
        invariant
            rsv == individual@,
            k <= individual.nurses@.len(),
            rsv.len() == individual.nurses@.len(),
            out@ == ind_edges(rsv.subrange(0, k as int)),
        decreases individual.nurses@.len() - k,
    {
        let route = &individual.nurses[k].route;
        let ghost rv = route@;
        proof {
            assert(rsv[k as int] == rv);
        }
        let mut i: usize = 0;
        let ghost out0 = out@;
        if route.len() >= 2 {
            while i < route.len() - 1
                invariant
                    rv == route@,
                    route == &individual.nurses[k as int].route,
                    k < individual.nurses@.len(),
                    i + 1 <= rv.len(),
                    rv.len() >= 2,
                    out@ == out0 + route_edges(rv.subrange(0, i as int + 1)),
                decreases rv.len() - i,
            {
                out.push((route[i], route[i + 1]));
                proof {
                    let pre = rv.subrange(0, i as int + 2);
                    assert(pre.drop_last() =~= rv.subrange(0, i as int + 1));
                    assert(pre[pre.len() - 2] == rv[i as int]);
                    assert(pre[pre.len() - 1] == rv[i as int + 1]);
                    assert(out@ =~= out0 + route_edges(rv.subrange(0, i as int + 2)));
                }
                i += 1;
            }
            proof {
                assert(rv.subrange(0, rv.len() as int) =~= rv);
            }
        } else {
            proof {
                assert(route_edges(rv).len() == 0);
                assert(out@ =~= out0 + route_edges(rv));
            }
        }
        proof {
            let pre = rsv.subrange(0, k as int + 1);
            assert(pre.drop_last() =~= rsv.subrange(0, k as int));
            assert(pre.last() == rv);
            assert(out@ =~= ind_edges(rsv.subrange(0, k as int)) + route_edges(rv));
        }
        k += 1;
    }
    proof {
        assert(rsv.subrange(0, rsv.len() as int) =~= rsv);
    }
    out
}

/// The number of directed route edges shared between two candidates,
/// counting every matching pair of occurrences. The caller normalizes by
/// the population size where a fractional similarity score is wanted.
pub fn similarity(individual1: &Individual, individual2: &Individual) -> (res: u64)
    requires
        routes_mset(individual1@).len() <= MAX_PATIENTS as int,
        routes_mset(individual2@).len() <= MAX_PATIENTS as int,
    ensures
        res as int == sim_count(ind_edges(individual1@), ind_edges(individual2@)),
        res <= 100_000_000,
{
    let ea = edges_vec(individual1);
    let eb = edges_vec(individual2);
    proof {
        lemma_ind_edges_len(individual1@);
        lemma_ind_edges_len(individual2@);
    }
    let mut total: u64 = 0;
    let mut i: usize = 0;
    while i < ea.len()
        invariant
            ea@ == ind_edges(individual1@),
            eb@ == ind_edges(individual2@),
            ea@.len() <= MAX_PATIENTS,
            eb@.len() <= MAX_PATIENTS,
            i <= ea@.len(),
            total as int == sim_count(ea@.subrange(0, i as int), eb@),
            total <= (i as u64) * (MAX_PATIENTS as u64),
        decreases ea@.len() - i,
    {
        let e = ea[i];
        let mut cnt: u64 = 0;
        let mut j: usize = 0;
        while j < eb.len()
            invariant
                eb@ == ind_edges(individual2@),
                j <= eb@.len(),
                cnt as int == occ_of(eb@.subrange(0, j as int), e),
                cnt <= j as u64,
            decreases eb@.len() - j,
        {
            proof {
                let pre = eb@.subrange(0, j as int + 1);
                assert(pre.drop_last() =~= eb@.subrange(0, j as int));
                assert(pre.last() == eb@[j as int]);
            }
            if eb[j].0 == e.0 && eb[j].1 == e.1 {
                cnt = cnt + 1;
            }
            j += 1;
        }
        proof {
            assert(eb@.subrange(0, eb@.len() as int) =~= eb@);
            let pre = ea@.subrange(0, i as int + 1);
            assert(pre.drop_last() =~= ea@.subrange(0, i as int));
            assert(pre.last() == e);
            lemma_occ_le_len(eb@, e);
            assert((i as int) * (MAX_PATIENTS as int) + MAX_PATIENTS as int == (i as int + 1) * (
            MAX_PATIENTS as int)) by (nonlinear_arith);
            assert((i as int + 1) * (MAX_PATIENTS as int) <= MAX_PATIENTS as int
                * MAX_PATIENTS as int) by (nonlinear_arith)
                requires
                    0 <= (i as int) + 1 <= MAX_PATIENTS as int,
            ;
        }
        total = total + cnt;
        i += 1;
    }
    proof {
        assert(ea@.subrange(0, ea@.len() as int) =~= ea@);
        assert((ea@.len() as int) * (MAX_PATIENTS as int) <= MAX_PATIENTS as int
            * MAX_PATIENTS as int) by (nonlinear_arith)
            requires
                0 <= ea@.len() as int <= MAX_PATIENTS as int,
        ;
    }
    total
}

/// How many entries of `eb` occur at least once among `ea`'s entries.
pub open spec fn sim_member(ea: Seq<(usize, usize)>, eb: Seq<(usize, usize)>) -> nat
    decreases eb.len(),
{
    if eb.len() == 0 {
        0
    } else {
        sim_member(ea, eb.drop_last()) + if occ_of(ea, eb.last()) > 0 {
            1nat
        } else {
            0nat
        }
    }
}

/// Membership-based similarity: how many edges of the second candidate
/// occur at all among the first candidate's edges. On candidates whose
/// edges are duplicate-free this agrees with `similarity`.
pub fn similarity_hashmap(individual1: &Individual, individual2: &Individual) -> (res: u64)
    requires
        routes_mset(individual1@).len() <= MAX_PATIENTS as int,
        routes_mset(individual2@).len() <= MAX_PATIENTS as int,
    ensures
        res as int == sim_member(ind_edges(individual1@), ind_edges(individual2@)),
{
    let ea = edges_vec(individual1);
    let eb = edges_vec(individual2);
    proof {
        lemma_ind_edges_len(individual1@);
        lemma_ind_edges_len(individual2@);
    }
    let mut total: u64 = 0;
    let mut j: usize = 0;
    while j < eb.len()
        invariant
            ea@ == ind_edges(individual1@),
            eb@ == ind_edges(individual2@),
            eb@.len() <= MAX_PATIENTS,
            j <= eb@.len(),
            total as int == sim_member(ea@, eb@.subrange(0, j as int)),
            total <= j as u64,
        decreases eb@.len() - j,
    {
        let e = eb[j];
        let mut found = false;
        let mut i: usize = 0;
        while i < ea.len()
            invariant
                ea@ == ind_edges(individual1@),
                i <= ea@.len(),
                found == (occ_of(ea@.subrange(0, i as int), e) > 0),
            decreases ea@.len() - i,
        {
            proof {
                let pre = ea@.subrange(0, i as int + 1);
                assert(pre.drop_last() =~= ea@.subrange(0, i as int));
                assert(pre.last() == ea@[i as int]);
            }
            if ea[i].0 == e.0 && ea[i].1 == e.1 {
                found = true;
            }
            i += 1;
        }
        proof {
            assert(ea@.subrange(0, ea@.len() as int) =~= ea@);
            let pre = eb@.subrange(0, j as int + 1);
            assert(pre.drop_last() =~= eb@.subrange(0, j as int));
            assert(pre.last() == e);
        }
        if found {
            total = total + 1;
        }
        j += 1;
    }
    proof {
        assert(eb@.subrange(0, eb@.len() as int) =~= eb@);
    }
    total
}

/// The acceptance probability of deterministic crowding, as an exact
/// fraction `num / den`: `c/(c + k*p)` when the child is worse,
/// exactly one half when the fitnesses tie, and `k*c/(k*c + p)` when the
/// child is better, for scaling factor `k` in thousandths.
pub open spec fn accept_num(c: int, p: int, k: int) -> int {
    if c > p {
        1000 * c
    } else if c == p {
        1
    } else {
        k * c
    }
}

/// The denominator of the acceptance fraction.
pub open spec fn accept_den(c: int, p: int, k: int) -> int {
    if c > p {
        1000 * c + k * p
    } else if c == p {
        2
    } else {
        k * c + 1000 * p
    }
}

/// Computes the crowding acceptance fraction. When child and parent
/// fitness are equal, the probability is exactly one half.
pub fn acceptance_threshold(child_fitness: u64, parent_fitness: u64, scaling_factor: u32) -> (res:
    (u64, u64))
    requires
        1 <= scaling_factor <= 10 * SCALE_UNIT,
        child_fitness <= 300_030_001_004_000,
        parent_fitness <= 300_030_001_004_000,
    ensures
        res.0 as int == accept_num(
            child_fitness as int,
            parent_fitness as int,
            scaling_factor as int,
        ),
        res.1 as int == accept_den(
            child_fitness as int,
            parent_fitness as int,
            scaling_factor as int,
        ),
        0 < res.1,
        res.0 <= res.1,
        child_fitness == parent_fitness ==> 2 * res.0 == res.1,
{
    let c = child_fitness;
    let p = parent_fitness;
    let k = scaling_factor as u64;
    proof {
        assert(k * p <= 10_000 * 300_030_001_004_000) by (nonlinear_arith)
            requires
                k <= 10_000,
                p <= 300_030_001_004_000,
                0 <= k,
                0 <= p,
        ;
        assert(k * c <= 10_000 * 300_030_001_004_000) by (nonlinear_arith)
            requires
                k <= 10_000,
                c <= 300_030_001_004_000,
                0 <= k,
                0 <= c,
        ;
        assert(k * c >= 0 && k * p >= 0) by (nonlinear_arith)
            requires
                0 <= k,
                0 <= c,
                0 <= p,
        ;
    }
    if c > p {
        (1000 * c, 1000 * c + k * p)
    } else if c == p {
        (1, 2)
    } else {
        proof {
            assert(k * c + 1000 * p >= 1000) by (nonlinear_arith)
                requires
                    0 <= k * c,
                    p >= 1,
            ;
            assert(k * c <= k * c + 1000 * p) by (nonlinear_arith)
                requires
                    0 <= k * c,
                    p >= 1,
            ;
        }
        (k * c, k * c + 1000 * p)
    }
}

/// Every member of a population is within the size bounds the survivor
/// stage manipulates.
pub open spec fn survivors_ok(pop: Seq<Individual>) -> bool {
    forall|i: int|
        0 <= i < pop.len() ==> routes_mset((#[trigger] pop[i])@).len() <= MAX_PATIENTS as int
}

/// Whether `ind` carries the same routes and cached score as `other`.
pub open spec fn same_solution(ind: Individual, other: Individual) -> bool {
    &&& ind@ == other@
    &&& ind.fitness == other.fitness
    &&& ind.feasible == other.feasible
}

/// Replaces the parent slot by a copy of the child when a uniform draw
/// falls below the acceptance probability.
fn compete(
    population: &mut Vec<Individual>,
    child: &Individual,
    parent_idx: usize,
    config: &Config,
    rng: &mut rand::rngs::StdRng,
)
    requires
        config.wf(),
        parent_idx < old(population)@.len(),
        survivors_ok(old(population)@),
        routes_mset(child@).len() <= MAX_PATIENTS as int,
    ensures
        final(population)@.len() == old(population)@.len(),
        forall|j: int|
            0 <= j < old(population)@.len() && j != parent_idx ==> final(population)@[j] == old(
                population,
            )@[j],
        final(population)@[parent_idx as int] == old(population)@[parent_idx as int]
            || same_solution(final(population)@[parent_idx as int], *child),
        survivors_ok(final(population)@),
{
    let cf = if child.fitness > 300_030_001_004_000 {
        300_030_001_004_000
    } else {
        child.fitness
    };
    let pf = if population[parent_idx].fitness > 300_030_001_004_000 {
        300_030_001_004_000
    } else {
        population[parent_idx].fitness
    };
    let (num, den) = acceptance_threshold(cf, pf, config.scaling_factor);
    let draw = rand_below(rng, den);
    if draw < num {
        let copy = child.duplicate();
        proof {
            assert(copy@ == child@);
        }
        population.set(parent_idx, copy);
    }
}

/// The slot a child competes against under classical crowding: an index
/// whose member maximizes the shared-edge similarity with the child (the
/// earliest such index, with ties and the all-zero case resolving to the
/// first maximizer).
pub fn most_similar_index(child: &Individual, population: &Vec<Individual>) -> (idx: usize)
    requires
        population@.len() >= 1,
        survivors_ok(population@),
        routes_mset(child@).len() <= MAX_PATIENTS as int,
    ensures
        idx < population@.len(),
        forall|i: int|
            0 <= i < population@.len() ==> sim_count(
                ind_edges(child@),
                ind_edges(#[trigger] population@[i]@),
            ) <= sim_count(ind_edges(child@), ind_edges(population@[idx as int]@)),
{
    let mut closest: usize = 0;
    let mut closest_score: u64 = 0;
    let mut i: usize = 0;
    while i < population.len()
        invariant
            population@.len() >= 1,
            survivors_ok(population@),
            routes_mset(child@).len() <= MAX_PATIENTS as int,
            i <= population@.len(),
            closest < population@.len(),
            closest_score as int == sim_count(
                ind_edges(child@),
                ind_edges(population@[closest as int]@),
            ) || (closest == 0 && closest_score == 0),
            forall|j: int|
                0 <= j < i ==> sim_count(ind_edges(child@), ind_edges(#[trigger] population@[j]@))
                    <= closest_score,
        decreases population@.len() - i,
    {
        let score = similarity(child, &population[i]);
        if score > closest_score {
            closest_score = score;
            closest = i;
        }
        i += 1;
    }
    proof {
        if closest == 0 && closest_score as int != sim_count(
            ind_edges(child@),
            ind_edges(population@[0]@),
        ) {
            assert(sim_count(ind_edges(child@), ind_edges(population@[0]@)) <= closest_score);
        }
    }
    closest
}

/// Classical crowding: each child competes against the member it is most
/// similar to, with acceptance decided by the fitness-based probability.
pub fn crowding(
    population: &mut Vec<Individual>,
    children: &Vec<Individual>,
    config: &Config,
    rng: &mut rand::rngs::StdRng,
)
    requires
        config.wf(),
        old(population)@.len() >= 1,
        survivors_ok(old(population)@),
        survivors_ok(children@),
    ensures
        final(population)@.len() == old(population)@.len(),
        survivors_ok(final(population)@),
        forall|i: int|
            0 <= i < final(population)@.len() ==> final(population)@[i] == old(population)@[i]
                || exists|t: int|
                0 <= t < children@.len() && same_solution(
                    #[trigger] final(population)@[i],
                    children@[t],
                ),
{
    let ghost orig = population@;
    let mut t: usize = 0;
    while t < children.len()
        invariant
            config.wf(),
            orig == old(population)@,
            orig.len() >= 1,
            survivors_ok(orig),
            survivors_ok(children@),
            survivors_ok(population@),
            t <= children@.len(),
            population@.len() == orig.len(),
            forall|i: int|
                0 <= i < population@.len() ==> population@[i] == orig[i] || exists|q: int|
                    0 <= q < children@.len() && same_solution(
                        #[trigger] population@[i],
                        children@[q],
                    ),
        decreases children@.len() - t,
    {
        let child = &children[t];
        let closest = most_similar_index(child, &population);
        compete(population, child, closest, config, rng);
        t += 1;
    }
}

/// Whether `i` occurs among the sampled parent indices.
pub open spec fn in_indices(i: int, idxs: Seq<usize>) -> bool {
    exists|t: int| 0 <= t < idxs.len() && (#[trigger] idxs[t]) == i
}

/// The exploration pairing of the pair-crowding stage: the `(c1, p1)` /
/// `(c2, p2)` assignment has strictly lower combined similarity than the
/// crossed one, so each child meets its *less* similar parent.
pub open spec fn pairing_straight(c1: Individual, c2: Individual, a: Individual, b: Individual)
    -> bool {
    sim_count(ind_edges(c1@), ind_edges(a@)) + sim_count(ind_edges(c2@), ind_edges(b@))
        < sim_count(ind_edges(c1@), ind_edges(b@)) + sim_count(ind_edges(c2@), ind_edges(a@))
}

/// Runs one parent pair of the pair-crowding stage: only the two parent
/// slots may change, and the `(child, parent)` assignment used for the
/// probabilistic replacement is the one of the two pairings with the lower
/// combined similarity.
fn crowd_pair(
    population: &mut Vec<Individual>,
    c1: &Individual,
    c2: &Individual,
    p1: usize,
    p2: usize,
    config: &Config,
    rng: &mut rand::rngs::StdRng,
)
    requires
        config.wf(),
        p1 < old(population)@.len(),
        p2 < old(population)@.len(),
        survivors_ok(old(population)@),
        routes_mset(c1@).len() <= MAX_PATIENTS as int,
        routes_mset(c2@).len() <= MAX_PATIENTS as int,
    ensures
        final(population)@.len() == old(population)@.len(),
        survivors_ok(final(population)@),
        forall|j: int|
            0 <= j < old(population)@.len() && j != p1 && j != p2 ==> final(population)@[j]
                == old(population)@[j],
        final(population)@[p1 as int] == old(population)@[p1 as int] || same_solution(
            final(population)@[p1 as int],
            *c1,
        ) || same_solution(final(population)@[p1 as int], *c2),
        final(population)@[p2 as int] == old(population)@[p2 as int] || same_solution(
            final(population)@[p2 as int],
            *c1,
        ) || same_solution(final(population)@[p2 as int], *c2),
        p1 != p2 && pairing_straight(
            *c1,
            *c2,
            old(population)@[p1 as int],
            old(population)@[p2 as int],
        ) ==> (final(population)@[p1 as int] == old(population)@[p1 as int] || same_solution(
            final(population)@[p1 as int],
            *c1,
        )) && (final(population)@[p2 as int] == old(population)@[p2 as int] || same_solution(
            final(population)@[p2 as int],
            *c2,
        )),
        p1 != p2 && !pairing_straight(
            *c1,
            *c2,
            old(population)@[p1 as int],
            old(population)@[p2 as int],
        ) ==> (final(population)@[p2 as int] == old(population)@[p2 as int] || same_solution(
            final(population)@[p2 as int],
            *c1,
        )) && (final(population)@[p1 as int] == old(population)@[p1 as int] || same_solution(
            final(population)@[p1 as int],
            *c2,
        )),
{
    let s11 = similarity(c1, &population[p1]);
    let s22 = similarity(c2, &population[p2]);
    let s12 = similarity(c1, &population[p2]);
    let s21 = similarity(c2, &population[p1]);
    if s11 + s22 < s12 + s21 {
        compete(population, c1, p1, config, rng);
        compete(population, c2, p2, config, rng);
    } else {
        compete(population, c1, p2, config, rng);
        compete(population, c2, p1, config, rng);
    }
}

/// Deterministic crowding over parent pairs: children are paired with the
/// parent they are jointly *less* similar to, which drives the search away
/// from near-duplicate structure, and each pair competes
/// probabilistically.
pub fn crowding_optimized(
    population: &mut Vec<Individual>,
    children: &Vec<Individual>,
    config: &Config,
    parent_indices: &Vec<usize>,
    rng: &mut rand::rngs::StdRng,
)
    requires
        config.wf(),
        old(population)@.len() >= 1,
        survivors_ok(old(population)@),
        survivors_ok(children@),
        children@.len() == parent_indices@.len(),
        forall|t: int|
            0 <= t < parent_indices@.len() ==> (#[trigger] parent_indices@[t]) < old(
                population,
            )@.len(),
    ensures
        final(population)@.len() == old(population)@.len(),
        survivors_ok(final(population)@),
        forall|i: int|
            0 <= i < final(population)@.len() ==> final(population)@[i] == old(population)@[i]
                || exists|t: int|
                0 <= t < children@.len() && same_solution(
                    #[trigger] final(population)@[i],
                    children@[t],
                ),
        forall|i: int|
            0 <= i < final(population)@.len() && !in_indices(i, parent_indices@) ==> (
            #[trigger] final(population)@[i]) == old(population)@[i],
{
    let ghost orig = population@;
    let npairs = parent_indices.len() / 2;
    let mut w: usize = 0;
    while w < npairs
        invariant
            config.wf(),
            orig == old(population)@,
            orig.len() >= 1,
            survivors_ok(orig),
            survivors_ok(children@),
            survivors_ok(population@),
            children@.len() == parent_indices@.len(),
            npairs == parent_indices@.len() / 2,
            parent_indices@.len() <= usize::MAX,
            forall|q: int|
                0 <= q < parent_indices@.len() ==> (#[trigger] parent_indices@[q]) < orig.len(),
            w <= npairs,
            population@.len() == orig.len(),
            forall|i: int|
                0 <= i < population@.len() ==> population@[i] == orig[i] || exists|q: int|
                    0 <= q < children@.len() && same_solution(
                        #[trigger] population@[i],
                        children@[q],
                    ),
            forall|i: int|
                0 <= i < population@.len() && !in_indices(i, parent_indices@) ==> (
                #[trigger] population@[i]) == orig[i],
        decreases npairs - w,
    {
        proof {
            assert(2 * (npairs as int) <= parent_indices@.len() as int);
            assert(2 * (w as int) + 1 < parent_indices@.len() as int);
        }
        let t = 2 * w;
        let p1 = parent_indices[t];
        let p2 = parent_indices[t + 1];
        let c1 = &children[t];
        let c2 = &children[t + 1];
        let ghost pre = population@;
        crowd_pair(population, c1, c2, p1, p2, config, rng);
        proof {
            assert forall|i: int|
                0 <= i < population@.len() && !in_indices(i, parent_indices@) implies (
            #[trigger] population@[i]) == orig[i] by {
                assert(parent_indices@[t as int] == p1);
                assert(parent_indices@[t as int + 1] == p2);
                assert(i != p1 && i != p2);
                assert(population@[i] == pre[i]);
            }
        }
        w += 1;
    }
}

/// Runs the configured survivor-selection strategy: every surviving slot
/// holds either the member it held before or one of the children, and
/// under the pair-crowding strategy a slot outside the sampled parent
/// indices never changes.
pub fn survivor_selection(
    population: &mut Vec<Individual>,
    parent_indices: &Vec<usize>,
    children: &Vec<Individual>,
    config: &Config,
    rng: &mut rand::rngs::StdRng,
)
    requires
        config.wf(),
        old(population)@.len() >= 1,
        survivors_ok(old(population)@),
        survivors_ok(children@),
        children@.len() == parent_indices@.len(),
        forall|t: int|
            0 <= t < parent_indices@.len() ==> (#[trigger] parent_indices@[t]) < old(
                population,
            )@.len(),
    ensures
        final(population)@.len() == old(population)@.len(),
        survivors_ok(final(population)@),
        forall|i: int|
            0 <= i < final(population)@.len() ==> final(population)@[i] == old(population)@[i]
                || exists|t: int|
                0 <= t < children@.len() && same_solution(
                    #[trigger] final(population)@[i],
                    children@[t],
                ),
        config.survivor_selection_fn matches SurvivorSelectionFN::Crowding ==> forall|i: int|
            0 <= i < final(population)@.len() && !in_indices(i, parent_indices@) ==> (
            #[trigger] final(population)@[i]) == old(population)@[i],
{
    match config.survivor_selection_fn {
        SurvivorSelectionFN::CrowdingOld => crowding(population, children, config, rng),
        SurvivorSelectionFN::Crowding => crowding_optimized(
            population,
            children,
            config,
            parent_indices,
            rng,
        ),
    }
}

} // verus!
