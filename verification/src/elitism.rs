use vstd::prelude::*;

use crate::config::Config;
use crate::nurse::Individual;
use crate::survivor_selection::same_solution;

verus! {

/// Whether `m` carries the same solution as some member of `pop`.
pub open spec fn member_of(m: Individual, pop: Seq<Individual>) -> bool {
    exists|j: int| 0 <= j < pop.len() && same_solution(m, #[trigger] pop[j])
}

/// Whether two candidates carry the same route structure.
fn same_routes(a: &Individual, b: &Individual) -> (r: bool)
    ensures
        r == (a@ == b@),
{
    if a.nurses.len() != b.nurses.len() {
        proof {
            assert(a@.len() != b@.len());
        }
        return false;
    }
    let mut k: usize = 0;
    while k < a.nurses.len()
        invariant
            k <= a.nurses@.len(),
            a@.len() == b@.len(),
            a.nurses@.len() == a@.len(),
            b.nurses@.len() == b@.len(),
            forall|j: int| 0 <= j < k ==> a@[j] == b@[j],
        decreases a.nurses@.len() - k,
    {
        let ra = &a.nurses[k].route;
        let rb = &b.nurses[k].route;
        proof {
            assert(a@[k as int] == ra@);
            assert(b@[k as int] == rb@);
        }
        if ra.len() != rb.len() {
            return false;
        }
        let mut i: usize = 0;
        while i < ra.len()
            invariant
                i <= ra@.len(),
                ra@.len() == rb@.len(),
                k < a@.len(),
                a@.len() == b@.len(),
                a@[k as int] == ra@,
                b@[k as int] == rb@,
                forall|j: int| 0 <= j < i ==> ra@[j] == rb@[j],
            decreases ra@.len() - i,
        {
            if ra[i] != rb[i] {
                proof {
                    assert(a@[k as int][i as int] != b@[k as int][i as int]);
                }
                return false;
            }
            i += 1;
        }
        proof {
            assert(ra@ =~= rb@);
        }
        k += 1;
    }
    proof {
        assert(a@ =~= b@);
    }
    true
}

/// Walks the worst-first sorted population from its best end and snapshots
/// up to `n_elitism` distinct route structures as protected elites.
pub fn get_elitism_members(population: &Vec<Individual>, config: &Config) -> (members: Vec<
    Individual,
>)
    ensures
        members@.len() <= config.n_elitism,
        forall|t: int| 0 <= t < members@.len() ==> member_of(#[trigger] members@[t], population@),
        forall|t1: int, t2: int|
            0 <= t1 < t2 < members@.len() ==> (#[trigger] members@[t1])@ != (
            #[trigger] members@[t2])@,
        population@.len() >= 1 && config.n_elitism >= 1 ==> members@.len() >= 1 && same_solution(
            members@[0],
            population@.last(),
        ),
{
    let mut members: Vec<Individual> = Vec::new();
    let mut i = population.len();
    while i > 0
        invariant
            i <= population@.len(),
            members@.len() <= config.n_elitism,
            forall|t: int| 0 <= t < members@.len() ==> member_of(#[trigger] members@[t], population@),
            forall|t1: int, t2: int|
                0 <= t1 < t2 < members@.len() ==> (#[trigger] members@[t1])@ != (
                #[trigger] members@[t2])@,
            i == population@.len() ==> members@.len() == 0,
            i < population@.len() && config.n_elitism >= 1 ==> members@.len() >= 1
                && same_solution(members@[0], population@.last()),
        ensures
            members@.len() <= config.n_elitism,
            forall|t: int| 0 <= t < members@.len() ==> member_of(#[trigger] members@[t], population@),
            forall|t1: int, t2: int|
                0 <= t1 < t2 < members@.len() ==> (#[trigger] members@[t1])@ != (
                #[trigger] members@[t2])@,
            population@.len() >= 1 && config.n_elitism >= 1 ==> members@.len() >= 1
                && same_solution(members@[0], population@.last()),
        decreases i,
    {
        i -= 1;
        let cand = &population[i];
        let mut dup = false;
        let mut t: usize = 0;
        while t < members.len()
            invariant
                t <= members@.len(),
                i < population@.len(),
                cand == &population@[i as int],
                dup ==> members@.len() >= 1,
                !dup ==> forall|q: int| 0 <= q < t ==> (#[trigger] members@[q])@ != cand@,
            decreases members@.len() - t,
        {
            if same_routes(&members[t], cand) {
                dup = true;
            }
            t += 1;
        }
        if !dup {
            if members.len() >= config.n_elitism {
                break ;
            }
            let copy = cand.duplicate();
            proof {
                assert(same_solution(copy, population@[i as int]));
                assert(member_of(copy, population@));
            }
            members.push(copy);
        }
    }
    members
}

} // verus!
