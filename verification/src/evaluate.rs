use vstd::prelude::*;
use vstd::pervasive::VecAdditionalExecFns;

use crate::config::{Config, MAX_PUNISH};
use crate::io::{Info, MAX_DEMAND, MAX_PATIENTS, MAX_ROUTE, MAX_TIME};
use crate::nurse::{Individual, Nurse};

verus! {

/// Fixed cost added to a route whose accumulated demand exceeds the nurse
/// capacity.
pub const CAPACITY_PENALTY: u64 = 1000;

/// Fixed cost added to a route that returns to the depot after the depot's
/// return time.
pub const OVERTIME_PENALTY: u64 = 3000;

/// The travel-matrix stop visited before step `i` of a route: the depot for
/// `i == 0`, otherwise the matrix index of the patient served at step `i`.
pub open spec fn stop_of(r: Seq<usize>, i: int) -> int {
    if i <= 0 {
        0
    } else {
        r[i - 1] as int + 1
    }
}

/// The travel time spent entering step `k` (1-based) of the route.
pub open spec fn step_travel(inst: Info, r: Seq<usize>, k: int) -> int {
    inst.travel_times.at(stop_of(r, k - 1), stop_of(r, k))
}

/// The elapsed time after the first `k` patients of the route are served:
/// travel accumulates, an early arrival waits for the window to open, and the
/// care duration is always spent.
pub open spec fn route_time(inst: Info, r: Seq<usize>, k: int) -> int
    decreases k,
{
    if k <= 0 {
        0
    } else {
        let arrive = route_time(inst, r, k - 1) + step_travel(inst, r, k);
        let st = inst.patients@[r[k - 1] as int].start_time as int;
        let begin = if st > arrive {
            st
        } else {
            arrive
        };
        begin + inst.patients@[r[k - 1] as int].care_time as int
    }
}

/// Whether care at step `k` finishes after the patient's window closes.
pub open spec fn late_at(inst: Info, r: Seq<usize>, k: int) -> bool {
    route_time(inst, r, k) > inst.patients@[r[k - 1] as int].end_time as int
}

/// The accumulated cost of the first `k` steps: the travel time of each step,
/// plus, for every step that violates its window, the step's travel time
/// scaled by the punishment factor `w`.
pub open spec fn route_cost(inst: Info, w: int, r: Seq<usize>, k: int) -> int
    decreases k,
{
    if k <= 0 {
        0
    } else {
        route_cost(inst, w, r, k - 1) + step_travel(inst, r, k) + if late_at(inst, r, k) {
            step_travel(inst, r, k) * w
        } else {
            0
        }
    }
}

/// The demand accumulated over the first `k` steps.
pub open spec fn route_demand(inst: Info, r: Seq<usize>, k: int) -> int
    decreases k,
{
    if k <= 0 {
        0
    } else {
        route_demand(inst, r, k - 1) + inst.patients@[r[k - 1] as int].demand as int
    }
}

/// Whether none of the first `k` steps violates its service window.
pub open spec fn windows_ok(inst: Info, r: Seq<usize>, k: int) -> bool
    decreases k,
{
    if k <= 0 {
        true
    } else {
        windows_ok(inst, r, k - 1) && !late_at(inst, r, k)
    }
}

/// The travel time of the final leg back to the depot.
pub open spec fn return_travel(inst: Info, r: Seq<usize>) -> int {
    inst.travel_times.at(0, stop_of(r, r.len() as int))
}

/// The full cost of one route: an empty route costs nothing; otherwise the
/// accumulated step cost, the leg back to the depot, and the two fixed
/// penalties for exceeding the nurse capacity or the depot return time.
pub open spec fn route_fitness(inst: Info, w: int, r: Seq<usize>) -> int {
    if r.len() == 0 {
        0
    } else {
        let n = r.len() as int;
        route_cost(inst, w, r, n) + return_travel(inst, r) + (if route_demand(inst, r, n)
            > inst.capacity_nurse as int {
            CAPACITY_PENALTY as int
        } else {
            0
        }) + (if route_time(inst, r, n) + return_travel(inst, r) > inst.depot.return_time as int {
            OVERTIME_PENALTY as int
        } else {
            0
        })
    }
}

/// Whether one route satisfies every window, the capacity and the return
/// time. An empty route is feasible.
pub open spec fn route_feasible(inst: Info, r: Seq<usize>) -> bool {
    r.len() == 0 || {
        let n = r.len() as int;
        &&& windows_ok(inst, r, n)
        &&& route_demand(inst, r, n) <= inst.capacity_nurse as int
        &&& route_time(inst, r, n) + return_travel(inst, r) <= inst.depot.return_time as int
    }
}

/// A route whose entries are valid patient ids and whose length is within
/// the transient bound the operators respect.
pub open spec fn route_ok(r: Seq<usize>, n_patients: int) -> bool {
    &&& r.len() <= MAX_ROUTE as int
    &&& forall|i: int| 0 <= i < r.len() ==> (#[trigger] r[i]) < n_patients
}

/// Every route of a route list is valid.
pub open spec fn routes_ok(rs: Seq<Seq<usize>>, n_patients: int) -> bool {
    forall|i: int| 0 <= i < rs.len() ==> route_ok(#[trigger] rs[i], n_patients)
}

/// The fitness of a full candidate: the sum of its route fitnesses.
pub open spec fn ind_fitness(inst: Info, w: int, rs: Seq<Seq<usize>>) -> int
    decreases rs.len(),
{
    if rs.len() == 0 {
        0
    } else {
        ind_fitness(inst, w, rs.drop_last()) + route_fitness(inst, w, rs.last())
    }
}

/// Whether every route of a candidate is feasible.
pub open spec fn ind_feasible(inst: Info, rs: Seq<Seq<usize>>) -> bool
    decreases rs.len(),
{
    if rs.len() == 0 {
        true
    } else {
        ind_feasible(inst, rs.drop_last()) && route_feasible(inst, rs.last())
    }
}

/// Bounds on the accumulated quantities of a valid route, from the instance
/// bounds: each step adds at most one travel entry and its scaled penalty to
/// the cost, at most one travel entry plus a window start plus a care time to
/// the clock, and at most one demand.
pub proof fn lemma_route_accum_bounds(inst: Info, w: int, r: Seq<usize>, k: int)
    requires
        inst.wf(),
        0 <= w <= MAX_PUNISH as int,
        route_ok(r, inst.n_patients()),
        0 <= k <= r.len(),
    ensures
        0 <= route_cost(inst, w, r, k) <= k * (MAX_TIME as int * (MAX_PUNISH as int + 1)),
        0 <= route_time(inst, r, k) <= k * (3 * MAX_TIME as int),
        0 <= route_demand(inst, r, k) <= k * (MAX_DEMAND as int),
    decreases k,
{
    let c1 = MAX_TIME as int * (MAX_PUNISH as int + 1);
    let c2 = 3 * MAX_TIME as int;
    let c3 = MAX_DEMAND as int;
    if k > 0 {
        lemma_route_accum_bounds(inst, w, r, k - 1);
        assert(0 <= stop_of(r, k - 1) <= inst.n_patients());
        assert(0 <= stop_of(r, k) <= inst.n_patients());
        assert(0 <= step_travel(inst, r, k) <= MAX_TIME as int);
        assert(step_travel(inst, r, k) * w <= MAX_TIME as int * MAX_PUNISH as int) by (nonlinear_arith)
            requires
                0 <= step_travel(inst, r, k) <= MAX_TIME as int,
                0 <= w <= MAX_PUNISH as int,
        ;
        assert(0 <= step_travel(inst, r, k) * w) by (nonlinear_arith)
            requires
                0 <= step_travel(inst, r, k),
                0 <= w,
        ;
        assert((k - 1) * c1 + c1 == k * c1) by (nonlinear_arith);
        assert((k - 1) * c2 + c2 == k * c2) by (nonlinear_arith);
        assert((k - 1) * c3 + c3 == k * c3) by (nonlinear_arith);
    } else {
        assert(k * c1 == 0 && k * c2 == 0 && k * c3 == 0) by (nonlinear_arith)
            requires
                k == 0,
        ;
    }
}

/// Absolute caps on the accumulated quantities of a valid route, used to
/// discharge overflow obligations in the evaluator.
pub proof fn lemma_route_caps(inst: Info, w: int, r: Seq<usize>, k: int)
    requires
        inst.wf(),
        0 <= w <= MAX_PUNISH as int,
        route_ok(r, inst.n_patients()),
        0 <= k <= r.len(),
    ensures
        0 <= route_cost(inst, w, r, k) <= 300_030_000_000_000,
        0 <= route_time(inst, r, k) <= 90_000_000_000,
        0 <= route_demand(inst, r, k) <= 30_000_000_000,
{
    lemma_route_accum_bounds(inst, w, r, k);
    assert(k * (MAX_TIME as int * (MAX_PUNISH as int + 1)) <= MAX_ROUTE as int * (MAX_TIME as int
        * (MAX_PUNISH as int + 1))) by (nonlinear_arith)
        requires
            0 <= k <= MAX_ROUTE as int,
    ;
    assert(k * (3 * MAX_TIME as int) <= MAX_ROUTE as int * (3 * MAX_TIME as int))
        by (nonlinear_arith)
        requires
            0 <= k <= MAX_ROUTE as int,
    ;
    assert(k * (MAX_DEMAND as int) <= MAX_ROUTE as int * (MAX_DEMAND as int)) by (nonlinear_arith)
        requires
            0 <= k <= MAX_ROUTE as int,
    ;
}

/// The fitness of a valid route is bounded by its length times the largest
/// possible step cost, plus the return leg and the fixed penalties.
pub proof fn lemma_route_fitness_bound(inst: Info, w: int, r: Seq<usize>)
    requires
        inst.wf(),
        0 <= w <= MAX_PUNISH as int,
        route_ok(r, inst.n_patients()),
    ensures
        0 <= route_fitness(inst, w, r) <= MAX_ROUTE as int * (MAX_TIME as int * (MAX_PUNISH as int
            + 1)) + MAX_TIME as int + 4000,
{
    if r.len() > 0 {
        let n = r.len() as int;
        lemma_route_accum_bounds(inst, w, r, n);
        assert(n * (MAX_TIME as int * (MAX_PUNISH as int + 1)) <= MAX_ROUTE as int * (
        MAX_TIME as int * (MAX_PUNISH as int + 1))) by (nonlinear_arith)
            requires
                0 <= n <= MAX_ROUTE as int,
        ;
        assert(0 <= stop_of(r, n) <= inst.n_patients());
        assert(0 <= return_travel(inst, r) <= MAX_TIME as int);
    }
}

/// Evaluates one route, returning its fitness and feasibility. An empty
/// route scores zero and is feasible.
pub fn fitness_nurse(nurse: &Nurse, info: &Info, config: &Config) -> (res: (u64, bool))
    requires
        info.wf(),
        config.wf(),
        route_ok(nurse@, info.n_patients()),
    ensures
        res.0 as int == route_fitness(*info, config.fitness_punishment_factor as int, nurse@),
        res.1 == route_feasible(*info, nurse@),
        res.0 <= 300_030_001_004_000,
        nurse@.len() == 0 ==> res.0 == 0 && res.1,
{
    let r = &nurse.route;
    let len = r.len();
    if len == 0 {
        return (0, true);
    }
    let w = config.fitness_punishment_factor;
    let ghost wi = w as int;
    let ghost rv = nurse@;
    let mut fitness: u64 = 0;
    let mut time: u64 = 0;
    let mut demand: u64 = 0;
    let mut ok: bool = true;
    let mut prev: usize = 0;
    let mut k: usize = 0;
    while k < len
        invariant
            info.wf(),
            0 <= wi <= MAX_PUNISH as int,
            w as int == wi,
            rv == nurse@,
            r == &nurse.route,
            len == rv.len(),
            route_ok(rv, info.n_patients()),
            k <= len,
            prev as int == stop_of(rv, k as int),
            prev <= info.n_patients(),
            fitness as int == route_cost(*info, wi, rv, k as int),
            time as int == route_time(*info, rv, k as int),
            demand as int == route_demand(*info, rv, k as int),
            ok == windows_ok(*info, rv, k as int),
        decreases len - k,
    {
        proof {
            lemma_route_caps(*info, wi, rv, k as int);
        }
        let p = r[k];
        let tt = info.travel_times.get(prev, p + 1);
        let ghost k1 = k as int + 1;
        proof {
            assert(stop_of(rv, k1) == p as int + 1);
            assert(step_travel(*info, rv, k1) == tt as int);
            assert(tt as int * wi <= MAX_TIME as int * MAX_PUNISH as int) by (nonlinear_arith)
                requires
                    0 <= tt as int <= MAX_TIME as int,
                    0 <= wi <= MAX_PUNISH as int,
            ;
        }
        fitness = fitness + tt as u64;
        time = time + tt as u64;
        let pat = &info.patients[p];
        if pat.start_time as u64 > time {
            time = pat.start_time as u64;
        }
        time = time + pat.care_time as u64;
        proof {
            assert(time as int == route_time(*info, rv, k1));
        }
        if (pat.end_time as u64) < time {
            fitness = fitness + (tt as u64) * (w as u64);
            ok = false;
            proof {
                assert(late_at(*info, rv, k1));
            }
        } else {
            proof {
                assert(!late_at(*info, rv, k1));
            }
        }
        demand = demand + pat.demand as u64;
        prev = p + 1;
        k = k + 1;
    }
    proof {
        lemma_route_caps(*info, wi, rv, len as int);
    }
    let back = info.travel_times.get(0, prev);
    fitness = fitness + back as u64;
    time = time + back as u64;
    let over_capacity = demand > info.capacity_nurse as u64;
    if over_capacity {
        fitness = fitness + CAPACITY_PENALTY;
    }
    let over_time = time > info.depot.return_time as u64;
    if over_time {
        fitness = fitness + OVERTIME_PENALTY;
    }
    proof {
        assert(return_travel(*info, rv) == back as int);
        lemma_route_fitness_bound(*info, wi, rv);
    }
    (fitness, ok && !over_capacity && !over_time)
}

/// An empty route always evaluates to fitness zero and is feasible.
pub proof fn lemma_empty_route(inst: Info, w: int)
    ensures
        route_fitness(inst, w, Seq::<usize>::empty()) == 0,
        route_feasible(inst, Seq::<usize>::empty()),
{
}

/// A candidate whose routes are all valid and bounded in number.
pub open spec fn ind_ok(ind: Individual, inst: Info) -> bool {
    &&& ind.nurses@.len() <= crate::io::MAX_NURSES as int
    &&& routes_ok(ind@, inst.n_patients())
}

/// The fitness and feasibility of one candidate: the sum of its route
/// fitnesses, and the conjunction of its route feasibilities.
pub fn fitness_of_individual(ind: &Individual, info: &Info, config: &Config) -> (res: (u64, bool))
    requires
        info.wf(),
        config.wf(),
        ind_ok(*ind, *info),
    ensures
        res.0 as int == ind_fitness(*info, config.fitness_punishment_factor as int, ind@),
        res.1 == ind_feasible(*info, ind@),
{
    let ghost wi = config.fitness_punishment_factor as int;
    let ghost rsv = ind@;
    let mut fit: u64 = 0;
    let mut feas: bool = true;
    let mut i: usize = 0;
    while i < ind.nurses.len()
        invariant
            info.wf(),
            config.wf(),
            ind_ok(*ind, *info),
            wi == config.fitness_punishment_factor as int,
            rsv == ind@,
            i <= ind.nurses@.len(),
            fit as int == ind_fitness(*info, wi, rsv.subrange(0, i as int)),
            feas == ind_feasible(*info, rsv.subrange(0, i as int)),
            fit as int <= i as int * 300_030_001_004_000,
        decreases ind.nurses@.len() - i,
    {
        proof {
            assert(rsv[i as int] == ind.nurses@[i as int].route@);
            assert(route_ok(rsv[i as int], info.n_patients()));
        }
        let (rf, rb) = fitness_nurse(&ind.nurses[i], info, config);
        proof {
            lemma_route_fitness_bound(*info, wi, rsv[i as int]);
            let pre = rsv.subrange(0, i as int + 1);
            assert(pre.drop_last() =~= rsv.subrange(0, i as int));
            assert(pre.last() == rsv[i as int]);
            assert(i as int * 300_030_001_004_000 + 300_030_001_004_000 == (i as int + 1)
                * 300_030_001_004_000) by (nonlinear_arith);
            assert(i as int + 1 <= crate::io::MAX_NURSES as int);
            assert((i as int + 1) * 300_030_001_004_000 <= crate::io::MAX_NURSES as int
                * 300_030_001_004_000) by (nonlinear_arith)
                requires
                    0 <= i as int + 1 <= crate::io::MAX_NURSES as int,
            ;
        }
        fit = fit + rf;
        feas = feas && rb;
        i += 1;
    }
    proof {
        assert(rsv.subrange(0, rsv.len() as int) =~= rsv);
    }
    (fit, feas)
}

/// Recomputes the cached fitness and feasibility of one candidate in place;
/// the route structure is untouched.
pub fn evaluate_individual(ind: &mut Individual, info: &Info, config: &Config)
    requires
        info.wf(),
        config.wf(),
        ind_ok(*old(ind), *info),
    ensures
        final(ind).nurses == old(ind).nurses,
        final(ind)@ == old(ind)@,
        final(ind).fitness as int == ind_fitness(
            *info,
            config.fitness_punishment_factor as int,
            old(ind)@,
        ),
        final(ind).feasible == ind_feasible(*info, old(ind)@),
{
    let (f, b) = fitness_of_individual(ind, info, config);
    ind.fitness = f;
    ind.feasible = b;
}

/// A population whose members all have valid bounded routes.
pub open spec fn pop_ok(pop: Seq<Individual>, inst: Info) -> bool {
    forall|i: int| 0 <= i < pop.len() ==> ind_ok(#[trigger] pop[i], inst)
}

/// What one evaluation pass promises for every member of a population.
pub open spec fn pop_evaluated(
    pop: Seq<Individual>,
    was: Seq<Individual>,
    inst: Info,
    w: int,
) -> bool {
    &&& pop.len() == was.len()
    &&& forall|i: int|
        0 <= i < pop.len() ==> {
            &&& (#[trigger] pop[i]).nurses == was[i].nurses
            &&& pop[i].fitness as int == ind_fitness(inst, w, was[i]@)
            &&& pop[i].feasible == ind_feasible(inst, was[i]@)
        }
}

/// Evaluates every member of the population: serially under the island
/// model, which runs one loop per thread already, and across worker
/// threads otherwise.
pub fn fitness_population(population: &mut Vec<Individual>, info: &Info, config: &Config)
    requires
        info.wf(),
        config.wf(),
        pop_ok(old(population)@, *info),
    ensures
        pop_evaluated(
            final(population)@,
            old(population)@,
            *info,
            config.fitness_punishment_factor as int,
        ),
        pop_ok(final(population)@, *info),
{
    if config.use_islands {
        fitness_serial(population, info, config);
    } else {
        fitness_parallel(population, info, config);
    }
}

/// Evaluates every member in turn on the calling thread.
fn fitness_serial(population: &mut Vec<Individual>, info: &Info, config: &Config)
    requires
        info.wf(),
        config.wf(),
        pop_ok(old(population)@, *info),
    ensures
        pop_evaluated(
            final(population)@,
            old(population)@,
            *info,
            config.fitness_punishment_factor as int,
        ),
        pop_ok(final(population)@, *info),
{
    let ghost orig = population@;
    let mut i: usize = 0;
    while i < population.len()
        invariant
            info.wf(),
            config.wf(),
            pop_ok(orig, *info),
            population@.len() == orig.len(),
            i <= orig.len(),
            forall|j: int| i <= j < orig.len() ==> population@[j] == orig[j],
            forall|j: int|
                0 <= j < i ==> {
                    &&& (#[trigger] population@[j]).nurses == orig[j].nurses
                    &&& population@[j].fitness as int == ind_fitness(
                        *info,
                        config.fitness_punishment_factor as int,
                        orig[j]@,
                    )
                    &&& population@[j].feasible == ind_feasible(*info, orig[j]@)
                },
        decreases orig.len() - i,
    {
        let mut tmp = Individual { nurses: Vec::new(), fitness: 0, feasible: false };
        population.set_and_swap(i, &mut tmp);
        proof {
            assert(tmp == orig[i as int]);
            assert(ind_ok(orig[i as int], *info));
        }
        evaluate_individual(&mut tmp, info, config);
        population.set_and_swap(i, &mut tmp);
        i += 1;
    }
}

/// Evaluates every member of the population across worker threads.
///
/// Relies on rayon's `par_iter_mut` and `ParallelIterator::for_each`: the
/// closure, which only calls this crate's verified evaluator, is applied to
/// every member exactly once, so the outcome is that of the serial pass.
#[verifier::external_body]
pub fn fitness_parallel(population: &mut Vec<Individual>, info: &Info, config: &Config)
    requires
        info.wf(),
        config.wf(),
        pop_ok(old(population)@, *info),
    ensures
        pop_evaluated(
            final(population)@,
            old(population)@,
            *info,
            config.fitness_punishment_factor as int,
        ),
        pop_ok(final(population)@, *info),
{
    rayon::iter::ParallelIterator::for_each(
        rayon::iter::IntoParallelRefMutIterator::par_iter_mut(population),
        |ind| evaluate_individual(ind, info, config),
    );
}

/// Checks one route for feasibility alone: every window met, demand within
/// capacity, and the return to the depot in time.
pub fn is_feasible_fitness_nurse(nurse: &Nurse, info: &Info) -> (res: bool)
    requires
        info.wf(),
        route_ok(nurse@, info.n_patients()),
    ensures
        res == route_feasible(*info, nurse@),
{
    let r = &nurse.route;
    let len = r.len();
    if len == 0 {
        return true;
    }
    let ghost rv = nurse@;
    let mut time: u64 = 0;
    let mut demand: u64 = 0;
    let mut ok: bool = true;
    let mut prev: usize = 0;
    let mut k: usize = 0;
    while k < len
        invariant
            info.wf(),
            rv == nurse@,
            r == &nurse.route,
            len == rv.len(),
            route_ok(rv, info.n_patients()),
            k <= len,
            prev as int == stop_of(rv, k as int),
            prev <= info.n_patients(),
            time as int == route_time(*info, rv, k as int),
            demand as int == route_demand(*info, rv, k as int),
            ok == windows_ok(*info, rv, k as int),
        decreases len - k,
    {
        proof {
            lemma_route_caps(*info, 0, rv, k as int);
        }
        let p = r[k];
        let tt = info.travel_times.get(prev, p + 1);
        let ghost k1 = k as int + 1;
        proof {
            assert(stop_of(rv, k1) == p as int + 1);
            assert(step_travel(*info, rv, k1) == tt as int);
        }
        time = time + tt as u64;
        let pat = &info.patients[p];
        if pat.start_time as u64 > time {
            time = pat.start_time as u64;
        }
        time = time + pat.care_time as u64;
        if (pat.end_time as u64) < time {
            ok = false;
        }
        demand = demand + pat.demand as u64;
        prev = p + 1;
        k = k + 1;
    }
    proof {
        lemma_route_caps(*info, 0, rv, len as int);
    }
    let back = info.travel_times.get(0, prev);
    time = time + back as u64;
    proof {
        assert(return_travel(*info, rv) == back as int);
    }
    ok && demand <= info.capacity_nurse as u64 && time <= info.depot.return_time as u64
}

/// Checks every route of a candidate for feasibility.
pub fn is_feasible_fitness_individual(individual: &Individual, info: &Info) -> (res: bool)
    requires
        info.wf(),
        routes_ok(individual@, info.n_patients()),
    ensures
        res == ind_feasible(*info, individual@),
{
    let ghost rsv = individual@;
    let mut feas: bool = true;
    let mut i: usize = 0;
    while i < individual.nurses.len()
        invariant
            info.wf(),
            rsv == individual@,
            routes_ok(rsv, info.n_patients()),
            i <= individual.nurses@.len(),
            rsv.len() == individual.nurses@.len(),
            feas == ind_feasible(*info, rsv.subrange(0, i as int)),
        decreases individual.nurses@.len() - i,
    {
        proof {
            assert(rsv[i as int] == individual.nurses@[i as int].route@);
        }
        let rb = is_feasible_fitness_nurse(&individual.nurses[i], info);
        proof {
            let pre = rsv.subrange(0, i as int + 1);
            assert(pre.drop_last() =~= rsv.subrange(0, i as int));
            assert(pre.last() == rsv[i as int]);
        }
        feas = feas && rb;
        i += 1;
    }
    proof {
        assert(rsv.subrange(0, rsv.len() as int) =~= rsv);
    }
    feas
}

/// The accumulated demand of a route and its full duration including the
/// return leg to the depot.
pub fn duration_demand_nurse(nurse: &Nurse, info: &Info) -> (res: (u64, u64))
    requires
        info.wf(),
        route_ok(nurse@, info.n_patients()),
    ensures
        res.0 as int == route_demand(*info, nurse@, nurse@.len() as int),
        nurse@.len() > 0 ==> res.1 as int == route_time(*info, nurse@, nurse@.len() as int)
            + return_travel(*info, nurse@),
        nurse@.len() == 0 ==> res == (0u64, 0u64),
{
    let r = &nurse.route;
    let len = r.len();
    if len == 0 {
        return (0, 0);
    }
    let ghost rv = nurse@;
    let mut time: u64 = 0;
    let mut demand: u64 = 0;
    let mut prev: usize = 0;
    let mut k: usize = 0;
    while k < len
        invariant
            info.wf(),
            rv == nurse@,
            r == &nurse.route,
            len == rv.len(),
            route_ok(rv, info.n_patients()),
            k <= len,
            prev as int == stop_of(rv, k as int),
            prev <= info.n_patients(),
            time as int == route_time(*info, rv, k as int),
            demand as int == route_demand(*info, rv, k as int),
        decreases len - k,
    {
        proof {
            lemma_route_caps(*info, 0, rv, k as int);
        }
        let p = r[k];
        let tt = info.travel_times.get(prev, p + 1);
        proof {
            assert(stop_of(rv, k as int + 1) == p as int + 1);
            assert(step_travel(*info, rv, k as int + 1) == tt as int);
        }
        time = time + tt as u64;
        let pat = &info.patients[p];
        if pat.start_time as u64 > time {
            time = pat.start_time as u64;
        }
        time = time + pat.care_time as u64;
        demand = demand + pat.demand as u64;
        prev = p + 1;
        k = k + 1;
    }
    proof {
        lemma_route_caps(*info, 0, rv, len as int);
    }
    let back = info.travel_times.get(0, prev);
    proof {
        assert(return_travel(*info, rv) == back as int);
    }
    (demand, time + back as u64)
}

/// The index of a member with minimal cached fitness.
pub fn best_index(population: &Vec<Individual>) -> (idx: usize)
    requires
        population@.len() >= 1,
    ensures
        idx < population@.len(),
        forall|i: int|
            0 <= i < population@.len() ==> population@[idx as int].fitness <= (
            #[trigger] population@[i]).fitness,
{
    let mut idx: usize = 0;
    let mut i: usize = 1;
    while i < population.len()
        invariant
            population@.len() >= 1,
            idx < i <= population@.len(),
            forall|j: int|
                0 <= j < i ==> population@[idx as int].fitness <= (
                #[trigger] population@[j]).fitness,
        decreases population@.len() - i,
    {
        if population[i].fitness < population[idx].fitness {
            idx = i;
        }
        i += 1;
    }
    idx
}

/// The minimal cached fitness in the population.
pub fn get_best_fitness_population(population: &Vec<Individual>) -> (res: u64)
    requires
        population@.len() >= 1,
    ensures
        exists|i: int| 0 <= i < population@.len() && res == (#[trigger] population@[i]).fitness,
        forall|i: int| 0 <= i < population@.len() ==> res <= (#[trigger] population@[i]).fitness,
{
    let idx = best_index(population);
    population[idx].fitness
}

/// `out` is `rs` with every patient id shifted to the 1-indexed form used by
/// the persisted solution format.
pub open spec fn one_indexed_of(out: Seq<Vec<i32>>, rs: Seq<Seq<usize>>) -> bool {
    &&& out.len() == rs.len()
    &&& forall|j: int| 0 <= j < rs.len() ==> (#[trigger] out[j])@.len() == rs[j].len()
    &&& forall|j: int, k: int|
        0 <= j < rs.len() && 0 <= k < rs[j].len() ==> (#[trigger] out[j]@[k]) as int == rs[j][k]
            + 1
}

/// The route lists of a member with minimal cached fitness, with 1-indexed
/// patient ids.
pub fn get_best_solution_population(population: &Vec<Individual>, info: &Info) -> (res: Vec<
    Vec<i32>,
>)
    requires
        info.wf(),
        population@.len() >= 1,
        pop_ok(population@, *info),
    ensures
        exists|b: int|
            {
                &&& 0 <= b < population@.len()
                &&& forall|i: int|
                    0 <= i < population@.len() ==> (#[trigger] population@[b]).fitness
                        <= population@[i].fitness
                &&& one_indexed_of(res@, population@[b]@)
            },
{
    let b = best_index(population);
    let best = &population[b];
    let ghost rsv = best@;
    let mut res: Vec<Vec<i32>> = Vec::new();
    let mut j: usize = 0;
    while j < best.nurses.len()
        invariant
            info.wf(),
            pop_ok(population@, *info),
            b < population@.len(),
            best == &population@[b as int],
            rsv == population@[b as int]@,
            j <= best.nurses@.len(),
            rsv.len() == best.nurses@.len(),
            res@.len() == j,
            forall|q: int| 0 <= q < j ==> (#[trigger] res@[q])@.len() == rsv[q].len(),
            forall|q: int, k: int|
                0 <= q < j && 0 <= k < rsv[q].len() ==> (#[trigger] res@[q]@[k]) as int == rsv[q][k]
                    + 1,
        decreases best.nurses@.len() - j,
    {
        let route = &best.nurses[j].route;
        proof {
            assert(rsv[j as int] == best.nurses@[j as int].route@);
            assert(route_ok(rsv[j as int], info.n_patients()));
        }
        let mut row: Vec<i32> = Vec::new();
        let mut k: usize = 0;
        while k < route.len()
            invariant
                info.wf(),
                route == &population@[b as int].nurses@[j as int].route,
                b < population@.len(),
                j < population@[b as int].nurses@.len(),
                route_ok(route@, info.n_patients()),
                info.n_patients() <= MAX_PATIENTS as int,
                k <= route@.len(),
                row@.len() == k,
                forall|t: int| 0 <= t < k ==> (#[trigger] row@[t]) as int == route@[t] + 1,
            decreases route@.len() - k,
        {
            let p = route[k];
            row.push((p + 1) as i32);
            k += 1;
        }
        res.push(row);
        j += 1;
    }
    res
}

/// `b` agrees with `a` on everything except the closing time of patient
/// `q`'s service window.
pub open spec fn differs_only_in_deadline(a: Info, b: Info, q: int) -> bool {
    &&& a.nbr_nurses == b.nbr_nurses
    &&& a.capacity_nurse == b.capacity_nurse
    &&& a.depot == b.depot
    &&& a.travel_times.times@.len() == b.travel_times.times@.len()
    &&& forall|i: int|
        0 <= i < a.travel_times.times@.len() ==> (#[trigger] a.travel_times.times@[i])@
            == b.travel_times.times@[i]@
    &&& a.patients@.len() == b.patients@.len()
    &&& 0 <= q < a.patients@.len()
    &&& forall|p: int| 0 <= p < a.patients@.len() && p != q ==> a.patients@[p] == b.patients@[p]
    &&& a.patients@[q].start_time == b.patients@[q].start_time
    &&& a.patients@[q].care_time == b.patients@[q].care_time
    &&& a.patients@[q].demand == b.patients@[q].demand
    &&& a.patients@[q].x_coord == b.patients@[q].x_coord
    &&& a.patients@[q].y_coord == b.patients@[q].y_coord
}

/// On two instances that differ only in one service-window deadline, and a
/// route that visits that patient exactly once, the clock, the demand and the
/// travel legs agree, and the accumulated costs differ exactly by the one
/// window penalty that flips.
proof fn lemma_cost_differs_by_one_penalty(
    a: Info,
    b: Info,
    q: int,
    r: Seq<usize>,
    i: int,
    w: int,
    k: int,
)
    requires
        a.wf(),
        b.wf(),
        route_ok(r, a.n_patients()),
        differs_only_in_deadline(a, b, q),
        0 <= i < r.len(),
        r[i] == q,
        forall|j: int| 0 <= j < r.len() && j != i ==> r[j] != q,
        late_at(a, r, i + 1),
        !late_at(b, r, i + 1),
        0 <= k <= r.len(),
    ensures
        route_time(a, r, k) == route_time(b, r, k),
        route_demand(a, r, k) == route_demand(b, r, k),
        route_cost(a, w, r, k) == route_cost(b, w, r, k) + if k >= i + 1 {
            step_travel(a, r, i + 1) * w
        } else {
            0
        },
    decreases k,
{
    if k > 0 {
        lemma_cost_differs_by_one_penalty(a, b, q, r, i, w, k - 1);
        assert(0 <= stop_of(r, k - 1) <= a.n_patients());
        assert(0 <= stop_of(r, k) <= a.n_patients());
        assert(a.travel_times.times@[stop_of(r, k - 1)]@ == b.travel_times.times@[stop_of(
            r,
            k - 1,
        )]@);
        assert(step_travel(a, r, k) == step_travel(b, r, k));
        assert(0 <= r[k - 1] < a.patients@.len());
        assert(route_time(a, r, k) == route_time(b, r, k));
        if k == i + 1 {
            assert(late_at(a, r, k));
            assert(!late_at(b, r, k));
        } else {
            assert(r[k - 1] != q);
            assert(a.patients@[r[k - 1] as int] == b.patients@[r[k - 1] as int]);
            assert(late_at(a, r, k) == late_at(b, r, k));
        }
    }
}

/// A route with a time-window violation has strictly higher fitness than the
/// same route with that violation removed — the window widened so the visit
/// is on time, all else equal — whenever the travel leg that triggers the
/// penalty and the punishment factor are both positive.
pub proof fn lemma_violation_strictly_raises_fitness(
    a: Info,
    b: Info,
    q: int,
    r: Seq<usize>,
    i: int,
    w: int,
)
    requires
        a.wf(),
        b.wf(),
        route_ok(r, a.n_patients()),
        differs_only_in_deadline(a, b, q),
        0 <= i < r.len(),
        r[i] == q,
        forall|j: int| 0 <= j < r.len() && j != i ==> r[j] != q,
        late_at(a, r, i + 1),
        !late_at(b, r, i + 1),
        step_travel(a, r, i + 1) > 0,
        w > 0,
    ensures
        route_fitness(a, w, r) > route_fitness(b, w, r),
{
    let n = r.len() as int;
    lemma_cost_differs_by_one_penalty(a, b, q, r, i, w, n);
    assert(0 <= stop_of(r, n) <= a.n_patients());
    assert(a.travel_times.times@[0]@ == b.travel_times.times@[0]@);
    assert(return_travel(a, r) == return_travel(b, r));
    assert(step_travel(a, r, i + 1) * w > 0) by (nonlinear_arith)
        requires
            step_travel(a, r, i + 1) > 0,
            w > 0,
    ;
}

} // verus!
