use vstd::prelude::*;
use vstd::pervasive::VecAdditionalExecFns;

use crate::config::Config;
use crate::evaluate::{fitness_nurse, route_fitness, route_ok, routes_ok};
use crate::io::{Info, MAX_ROUTE};
use crate::nurse::{copy_route, Individual, Nurse};
use crate::partition::{
    complete, full_mset, lemma_complete_routes_ok, lemma_full_mset_count, nurse_insert,
    routes_mset, routes_of,
};
use crate::rng::{rand_below, rand_index};

verus! {

/// A structurally well-formed candidate for an instance: one route per
/// nurse, and the routes partition the patient set.
pub open spec fn ind_wf(ind: Individual, inst: Info) -> bool {
    &&& ind.nurses@.len() == inst.nbr_nurses as int
    &&& complete(ind@, inst.n_patients())
}

/// Whether `v` holds `x`.
pub(crate) fn vec_contains(v: &Vec<usize>, x: usize) -> (b: bool)
    ensures
        b == v@.contains(x),
{
    let mut i: usize = 0;
    while i < v.len()
        invariant
            i <= v@.len(),
            forall|j: int| 0 <= j < i ==> v@[j] != x,
        decreases v@.len() - i,
    {
        if v[i] == x {
            return true;
        }
        i += 1;
    }
    false
}

/// The subsequence of `r` whose elements do not occur in `rem`.
pub open spec fn kept_of(r: Seq<usize>, rem: Seq<usize>) -> Seq<usize>
    decreases r.len(),
{
    if r.len() == 0 {
        Seq::empty()
    } else {
        kept_of(r.drop_last(), rem) + if rem.contains(r.last()) {
            Seq::empty()
        } else {
            seq![r.last()]
        }
    }
}

/// Counts of the kept subsequence: zero for removed ids, unchanged counts
/// for the rest.
pub proof fn lemma_kept_count(r: Seq<usize>, rem: Seq<usize>, v: usize)
    ensures
        kept_of(r, rem).to_multiset().count(v) == if rem.contains(v) {
            0nat
        } else {
            r.to_multiset().count(v)
        },
    decreases r.len(),
{
    broadcast use vstd::multiset::group_multiset_axioms;
    broadcast use vstd::seq_lib::group_to_multiset_ensures;

    if r.len() == 0 {
        assert(kept_of(r, rem).to_multiset().len() == 0);
        assert(r.to_multiset().len() == 0);
    } else {
        lemma_kept_count(r.drop_last(), rem, v);
        assert(r =~= r.drop_last().push(r.last()));
        assert(r.to_multiset() == r.drop_last().push(r.last()).to_multiset());
        assert(r.to_multiset() =~= r.drop_last().to_multiset().insert(r.last()));
        if rem.contains(r.last()) {
            assert(kept_of(r, rem) =~= kept_of(r.drop_last(), rem));
        } else {
            assert(kept_of(r, rem) =~= kept_of(r.drop_last(), rem).push(r.last()));
            assert(kept_of(r, rem).to_multiset() =~= kept_of(
                r.drop_last(),
                rem,
            ).to_multiset().insert(r.last()));
        }
    }
}

/// The kept subsequence is never longer than the route it came from.
pub proof fn lemma_kept_len(r: Seq<usize>, rem: Seq<usize>)
    ensures
        kept_of(r, rem).len() <= r.len(),
    decreases r.len(),
{
    if r.len() > 0 {
        lemma_kept_len(r.drop_last(), rem);
    }
}

/// Every element of the kept subsequence occurs in the route it came from.
pub proof fn lemma_kept_entries(r: Seq<usize>, rem: Seq<usize>)
    ensures
        forall|j: int|
            0 <= j < kept_of(r, rem).len() ==> r.contains(#[trigger] kept_of(r, rem)[j]),
    decreases r.len(),
{
    if r.len() > 0 {
        lemma_kept_entries(r.drop_last(), rem);
        assert forall|j: int|
            0 <= j < kept_of(r, rem).len() implies r.contains(#[trigger] kept_of(r, rem)[j]) by {
            if j < kept_of(r.drop_last(), rem).len() {
                assert(r.drop_last().contains(kept_of(r.drop_last(), rem)[j]));
                let w = choose|w: int|
                    0 <= w < r.drop_last().len() && r.drop_last()[w] == kept_of(
                        r.drop_last(),
                        rem,
                    )[j];
                assert(r[w] == kept_of(r, rem)[j]);
            } else {
                assert(kept_of(r, rem)[j] == r.last());
            }
        }
    }
}

/// Keeps only the elements of nurse `k`'s route that do not occur in `rem`,
/// and reports how many were dropped.
fn filter_nurse_route(nurses: &mut Vec<Nurse>, k: usize, rem: &Vec<usize>) -> (dropped: usize)
    requires
        k < old(nurses)@.len(),
    ensures
        final(nurses)@.len() == old(nurses)@.len(),
        forall|j: int|
            0 <= j < old(nurses)@.len() && j != k ==> final(nurses)@[j] == old(nurses)@[j],
        final(nurses)@[k as int].capacity == old(nurses)@[k as int].capacity,
        final(nurses)@[k as int].route@ == kept_of(old(nurses)@[k as int].route@, rem@),
        dropped as int == old(nurses)@[k as int].route@.len() - kept_of(
            old(nurses)@[k as int].route@,
            rem@,
        ).len(),
{
    let ghost r0 = old(nurses)@[k as int].route@;
    let mut tmp = Nurse::new();
    nurses.set_and_swap(k, &mut tmp);
    let mut kept: Vec<usize> = Vec::new();
    let mut i: usize = 0;
    while i < tmp.route.len()
        invariant
            tmp.route@ == r0,
            i <= r0.len(),
            kept@ == kept_of(r0.subrange(0, i as int), rem@),
            kept@.len() <= i,
        decreases r0.len() - i,
    {
        let p = tmp.route[i];
        proof {
            let pre = r0.subrange(0, i as int + 1);
            assert(pre.drop_last() =~= r0.subrange(0, i as int));
            assert(pre.last() == p);
        }
        if !vec_contains(rem, p) {
            kept.push(p);
            proof {
                assert(kept@ =~= kept_of(r0.subrange(0, i as int), rem@).push(p));
                assert(kept_of(r0.subrange(0, i as int + 1), rem@) =~= kept_of(
                    r0.subrange(0, i as int),
                    rem@,
                ).push(p));
            }
        } else {
            proof {
                assert(kept_of(r0.subrange(0, i as int + 1), rem@) =~= kept_of(
                    r0.subrange(0, i as int),
                    rem@,
                ));
            }
        }
        i += 1;
    }
    proof {
        assert(r0.subrange(0, r0.len() as int) =~= r0);
    }
    let dropped = tmp.route.len() - kept.len();
    tmp.route = kept;
    nurses.set_and_swap(k, &mut tmp);
    dropped
}

/// Removes from `individual_to_change` every patient that occurs in route
/// `i` of `other_individual`, and returns the index of a nurse that lost
/// the most patients — the repair-focus nurse (index zero when nothing was
/// removed).
pub fn remove_crossover(
    individual_to_change: &mut Individual,
    other_individual: &Individual,
    i: usize,
) -> (focus: usize)
    requires
        i < other_individual.nurses@.len(),
        old(individual_to_change).nurses@.len() >= 1,
    ensures
        focus < old(individual_to_change).nurses@.len(),
        final(individual_to_change).nurses@.len() == old(individual_to_change).nurses@.len(),
        final(individual_to_change).fitness == old(individual_to_change).fitness,
        final(individual_to_change).feasible == old(individual_to_change).feasible,
        forall|k: int|
            0 <= k < old(individual_to_change).nurses@.len() ==> {
                &&& (#[trigger] final(individual_to_change)@[k]) == kept_of(
                    old(individual_to_change)@[k],
                    other_individual@[i as int],
                )
                &&& final(individual_to_change).nurses@[k].capacity == old(
                    individual_to_change,
                ).nurses@[k].capacity
            },
        forall|k: int|
            0 <= k < old(individual_to_change).nurses@.len() ==> old(
                individual_to_change,
            )@[k].len() - (#[trigger] kept_of(
                old(individual_to_change)@[k],
                other_individual@[i as int],
            )).len() <= old(individual_to_change)@[focus as int].len() - kept_of(
                old(individual_to_change)@[focus as int],
                other_individual@[i as int],
            ).len(),
{
    let ghost rem = other_individual@[i as int];
    let remv = copy_route(&other_individual.nurses[i].route);
    proof {
        assert(remv@ == rem);
    }
    let n_nurses = individual_to_change.nurses.len();
    let mut focus: usize = 0;
    let mut focus_dropped: usize = 0;
    let mut k: usize = 0;
    while k < n_nurses
        invariant
            n_nurses == old(individual_to_change).nurses@.len(),
            individual_to_change.nurses@.len() == n_nurses,
            individual_to_change.fitness == old(individual_to_change).fitness,
            individual_to_change.feasible == old(individual_to_change).feasible,
            remv@ == rem,
            k <= n_nurses,
            focus < n_nurses,
            focus_dropped as int == old(individual_to_change)@[focus as int].len() - kept_of(
                old(individual_to_change)@[focus as int],
                rem,
            ).len() || (focus == 0 && focus_dropped == 0 && k == 0),
            forall|j: int|
                0 <= j < k ==> old(individual_to_change)@[j].len() - (#[trigger] kept_of(
                    old(individual_to_change)@[j],
                    rem,
                )).len() <= focus_dropped,
            forall|j: int|
                k <= j < n_nurses ==> individual_to_change.nurses@[j] == old(
                    individual_to_change,
                ).nurses@[j],
            forall|j: int|
                0 <= j < k ==> {
                    &&& (#[trigger] individual_to_change.nurses@[j]).route@ == kept_of(
                        old(individual_to_change)@[j],
                        rem,
                    )
                    &&& individual_to_change.nurses@[j].capacity == old(
                        individual_to_change,
                    ).nurses@[j].capacity
                },
        decreases n_nurses - k,
    {
        proof {
            assert(old(individual_to_change)@[k as int] == old(
                individual_to_change,
            ).nurses@[k as int].route@);
        }
        let dropped = filter_nurse_route(&mut individual_to_change.nurses, k, &remv);
        proof {
            lemma_kept_len(old(individual_to_change)@[k as int], rem);
        }
        if dropped > focus_dropped {
            focus = k;
            focus_dropped = dropped;
        }
        k += 1;
    }
    proof {
        assert forall|k2: int| 0 <= k2 < n_nurses implies (#[trigger] individual_to_change@[k2])
            == kept_of(old(individual_to_change)@[k2], rem) by {
            assert(individual_to_change@[k2] == individual_to_change.nurses@[k2].route@);
        }
    }
    focus
}

/// The route-exchange shape of the repair-based crossover: some non-empty
/// donor route of the other parent had its patients removed from the child
/// (order of the survivors preserved) and handed back to the repair, which
/// reinserted exactly that route's patients.
pub open spec fn exchange_occurred(
    child: Individual,
    parent: Individual,
    donor: Individual,
) -> bool {
    exists|di: int, mid: Seq<Seq<usize>>|
        {
            &&& 0 <= di < donor.nurses@.len()
            &&& donor@[di].len() > 0
            &&& mid.len() == parent.nurses@.len()
            &&& (forall|k: int|
                0 <= k < parent.nurses@.len() ==> #[trigger] mid[k] == kept_of(
                    parent@[k],
                    donor@[di],
                ))
            &&& routes_mset(child@) == #[trigger] routes_mset(mid).add(donor@[di].to_multiset())
        }
}

/// Service-window order on patient ids: earlier window start first, ties by
/// earlier window end.
pub open spec fn win_le(inst: Info, x: usize, y: usize) -> bool {
    let px = inst.patients@[x as int];
    let py = inst.patients@[y as int];
    px.start_time < py.start_time || (px.start_time == py.start_time && px.end_time
        <= py.end_time)
}

/// Sorts patient ids by ascending window start (ties by window end), keeping
/// the multiset of ids.
pub fn sort_by_window(ids: &Vec<usize>, info: &Info) -> (out: Vec<usize>)
    requires
        info.wf(),
        forall|j: int| 0 <= j < ids@.len() ==> (#[trigger] ids@[j]) < info.n_patients(),
    ensures
        out@.len() == ids@.len(),
        out@.to_multiset() == ids@.to_multiset(),
        forall|j: int| 0 <= j < out@.len() ==> (#[trigger] out@[j]) < info.n_patients(),
        forall|a: int, b: int| 0 <= a < b < out@.len() ==> win_le(*info, out@[a], out@[b]),
{
    let ghost idsv = ids@;
    let mut out: Vec<usize> = Vec::new();
    proof {
        broadcast use vstd::multiset::group_multiset_axioms;
        broadcast use vstd::seq_lib::group_to_multiset_ensures;

        assert(out@.to_multiset().len() == 0);
        assert(idsv.subrange(0, 0).to_multiset().len() == 0);
        assert(out@.to_multiset() =~= idsv.subrange(0, 0).to_multiset());
    }
    let mut i: usize = 0;
    while i < ids.len()
        invariant
            info.wf(),
            idsv == ids@,
            i <= idsv.len(),
            out@.len() == i,
            forall|j: int| 0 <= j < idsv.len() ==> (#[trigger] idsv[j]) < info.n_patients(),
            out@.to_multiset() == idsv.subrange(0, i as int).to_multiset(),
            forall|j: int| 0 <= j < out@.len() ==> (#[trigger] out@[j]) < info.n_patients(),
            forall|a: int, b: int| 0 <= a < b < out@.len() ==> win_le(*info, out@[a], out@[b]),
        decreases idsv.len() - i,
    {
        let p = ids[i];
        let ps = info.patients[p].start_time;
        let pe = info.patients[p].end_time;
        let mut ins: usize = 0;
        while ins < out.len()
            invariant
                info.wf(),
                ins <= out@.len(),
                p < info.n_patients(),
                ps == info.patients@[p as int].start_time,
                pe == info.patients@[p as int].end_time,
                forall|j: int| 0 <= j < out@.len() ==> (#[trigger] out@[j]) < info.n_patients(),
                forall|j: int| 0 <= j < ins ==> win_le(*info, out@[j], p),
            ensures
                ins <= out@.len(),
                forall|j: int| 0 <= j < ins ==> win_le(*info, out@[j], p),
                ins < out@.len() ==> !win_le(*info, out@[ins as int], p),
            decreases out@.len() - ins,
        {
            let q = out[ins];
            let qs = info.patients[q].start_time;
            let qe = info.patients[q].end_time;
            if !(qs < ps || (qs == ps && qe <= pe)) {
                break;
            }
            ins += 1;
        }
        let ghost outpre = out@;
        out.insert(ins, p);
        proof {
            broadcast use vstd::multiset::group_multiset_axioms;
            broadcast use vstd::seq_lib::group_to_multiset_ensures;

            outpre.insert_ensures(ins as int, p);
            assert(out@.to_multiset() == outpre.to_multiset().insert(p));
            let pre = idsv.subrange(0, i as int + 1);
            assert(pre =~= idsv.subrange(0, i as int).push(p));
            assert(idsv.subrange(0, i as int).push(p).to_multiset() == idsv.subrange(
                0,
                i as int,
            ).to_multiset().insert(p));
            // the element placed at `ins` respects the order on both sides
            assert(ins < outpre.len() ==> !win_le(*info, outpre[ins as int], p));
            assert forall|a: int, b: int| 0 <= a < b < out@.len() implies win_le(
                *info,
                out@[a],
                out@[b],
            ) by {
                if b < ins {
                } else if a < ins && b == ins {
                } else if a < ins && b > ins {
                    assert(out@[b] == outpre[b - 1]);
                } else if a == ins {
                    assert(out@[b] == outpre[b - 1]);
                    assert(!win_le(*info, outpre[ins as int], p));
                    assert(win_le(*info, p, outpre[ins as int]));
                    if b - 1 > ins {
                        assert(win_le(*info, outpre[ins as int], outpre[b - 1]));
                    }
                } else {
                    assert(out@[a] == outpre[a - 1]);
                    assert(out@[b] == outpre[b - 1]);
                }
            }
        }
        i += 1;
    }
    proof {
        assert(idsv.subrange(0, idsv.len() as int) =~= idsv);
    }
    out
}

/// The fitness change caused by inserting patient `p` at position `b` of
/// route `a`.
pub open spec fn insert_delta(
    inst: Info,
    w: int,
    rs: Seq<Seq<usize>>,
    p: usize,
    a: int,
    b: int,
) -> int {
    route_fitness(inst, w, rs[a].insert(b, p)) - route_fitness(inst, w, rs[a])
}

/// Evaluates the route that results from inserting `p` at position `pos` of
/// `nurse`'s route.
pub(crate) fn fitness_with_insert(nurse: &Nurse, pos: usize, p: usize, info: &Info, config: &Config) -> (f:
    u64)
    requires
        info.wf(),
        config.wf(),
        route_ok(nurse@, info.n_patients()),
        nurse@.len() + 1 <= MAX_ROUTE,
        pos <= nurse@.len(),
        p < info.n_patients(),
    ensures
        f as int == route_fitness(
            *info,
            config.fitness_punishment_factor as int,
            nurse@.insert(pos as int, p),
        ),
        f <= 300_030_001_004_000,
{
    let mut cand = copy_route(&nurse.route);
    cand.insert(pos, p);
    let ghost cv = nurse@.insert(pos as int, p);
    proof {
        nurse@.insert_ensures(pos as int, p);
        assert(route_ok(cv, info.n_patients())) by {
            assert forall|j: int| 0 <= j < cv.len() implies (#[trigger] cv[j])
                < info.n_patients() by {
                if j < pos {
                    assert(cv[j] == nurse@[j]);
                } else if j == pos {
                    assert(cv[j] == p);
                } else {
                    assert(cv[j] == nurse@[j - 1]);
                }
            }
        }
        crate::evaluate::lemma_route_fitness_bound(
            *info,
            config.fitness_punishment_factor as int,
            cv,
        );
    }
    let tmpn = Nurse { capacity: 0, route: cand };
    let (f, _) = fitness_nurse(&tmpn, info, config);
    f
}

/// Scans every nurse and every insertion position for patient `p` and
/// returns the position whose fitness increase is smallest; earlier
/// positions win ties.
pub fn best_single_insertion(nurses: &Vec<Nurse>, p: usize, info: &Info, config: &Config) -> (res:
    (usize, usize))
    requires
        info.wf(),
        config.wf(),
        nurses@.len() >= 1,
        routes_ok(routes_of(nurses@), info.n_patients()),
        forall|k: int| 0 <= k < nurses@.len() ==> (#[trigger] nurses@[k]).route@.len() + 1
            <= MAX_ROUTE,
        p < info.n_patients(),
    ensures
        res.0 < nurses@.len(),
        res.1 <= nurses@[res.0 as int].route@.len(),
        forall|a: int, b: int|
            0 <= a < nurses@.len() && 0 <= b <= routes_of(nurses@)[a].len() ==> insert_delta(
                *info,
                config.fitness_punishment_factor as int,
                routes_of(nurses@),
                p,
                res.0 as int,
                res.1 as int,
            ) <= #[trigger] insert_delta(
                *info,
                config.fitness_punishment_factor as int,
                routes_of(nurses@),
                p,
                a,
                b,
            ),
{
    let ghost rs = routes_of(nurses@);
    let ghost wi = config.fitness_punishment_factor as int;
    let mut best_nk: usize = 0;
    let mut best_pos: usize = 0;
    proof {
        assert(rs[0] == nurses@[0].route@);
        assert(route_ok(rs[0], info.n_patients()));
    }
    let (mut best_base, _) = fitness_nurse(&nurses[0], info, config);
    let mut best_new = fitness_with_insert(&nurses[0], 0, p, info, config);
    let mut nk: usize = 0;
    while nk < nurses.len()
        invariant
            info.wf(),
            config.wf(),
            rs == routes_of(nurses@),
            wi == config.fitness_punishment_factor as int,
            nurses@.len() >= 1,
            routes_ok(rs, info.n_patients()),
            forall|k: int| 0 <= k < nurses@.len() ==> (#[trigger] nurses@[k]).route@.len() + 1
                <= MAX_ROUTE,
            p < info.n_patients(),
            nk <= nurses@.len(),
            best_nk < nurses@.len(),
            best_pos <= rs[best_nk as int].len(),
            best_base as int == route_fitness(*info, wi, rs[best_nk as int]),
            best_new as int == route_fitness(*info, wi, rs[best_nk as int].insert(
                best_pos as int,
                p,
            )),
            forall|a: int, b: int|
                0 <= a < nk && 0 <= b <= rs[a].len() ==> best_new as int - best_base as int <= (
                #[trigger] insert_delta(*info, wi, rs, p, a, b)),
        decreases nurses@.len() - nk,
    {
        proof {
            assert(rs[nk as int] == nurses@[nk as int].route@);
            assert(route_ok(rs[nk as int], info.n_patients()));
        }
        let (base, _) = fitness_nurse(&nurses[nk], info, config);
        let route_len = nurses[nk].route.len();
        let mut pos: usize = 0;
        while pos <= route_len
            invariant
                info.wf(),
                config.wf(),
                rs == routes_of(nurses@),
                wi == config.fitness_punishment_factor as int,
                nurses@.len() >= 1,
                routes_ok(rs, info.n_patients()),
                forall|k: int| 0 <= k < nurses@.len() ==> (#[trigger] nurses@[k]).route@.len() + 1
                    <= MAX_ROUTE,
                p < info.n_patients(),
                nk < nurses@.len(),
                route_len == rs[nk as int].len(),
                base as int == route_fitness(*info, wi, rs[nk as int]),
                pos <= route_len + 1,
                best_nk < nurses@.len(),
                best_pos <= rs[best_nk as int].len(),
                best_base as int == route_fitness(*info, wi, rs[best_nk as int]),
                best_new as int == route_fitness(*info, wi, rs[best_nk as int].insert(
                    best_pos as int,
                    p,
                )),
                forall|a: int, b: int|
                    0 <= a < nk && 0 <= b <= rs[a].len() ==> best_new as int - best_base as int
                        <= (#[trigger] insert_delta(*info, wi, rs, p, a, b)),
                forall|b: int|
                    0 <= b < pos ==> best_new as int - best_base as int <= (#[trigger] insert_delta(
                        *info,
                        wi,
                        rs,
                        p,
                        nk as int,
                        b,
                    )),
            decreases route_len + 1 - pos,
        {
            proof {
                assert(rs[nk as int] == nurses@[nk as int].route@);
                assert(route_ok(rs[nk as int], info.n_patients()));
            }
            let fnew = fitness_with_insert(&nurses[nk], pos, p, info, config);
            proof {
                crate::evaluate::lemma_route_fitness_bound(*info, wi, rs[nk as int]);
                crate::evaluate::lemma_route_fitness_bound(*info, wi, rs[best_nk as int]);
                rs[nk as int].insert_ensures(pos as int, p);
                assert(route_ok(rs[nk as int].insert(pos as int, p), info.n_patients())) by {
                    let cv = rs[nk as int].insert(pos as int, p);
                    assert forall|j: int| 0 <= j < cv.len() implies (#[trigger] cv[j])
                        < info.n_patients() by {
                        if j < pos {
                            assert(cv[j] == rs[nk as int][j]);
                        } else if j == pos {
                            assert(cv[j] == p);
                        } else {
                            assert(cv[j] == rs[nk as int][j - 1]);
                        }
                    }
                }
                crate::evaluate::lemma_route_fitness_bound(
                    *info,
                    wi,
                    rs[nk as int].insert(pos as int, p),
                );
                crate::evaluate::lemma_route_fitness_bound(
                    *info,
                    wi,
                    rs[best_nk as int].insert(best_pos as int, p),
                );
            }
            if fnew + best_base < best_new + base {
                best_nk = nk;
                best_pos = pos;
                best_base = base;
                best_new = fnew;
            }
            pos += 1;
        }
        nk += 1;
    }
    (best_nk, best_pos)
}

/// Reinserts every patient of route `parent_idx` of `parent` into
/// `to_repair`, in ascending service-window order, each at the insertion
/// point with the smallest fitness increase. `nurse_idx` is the repair-focus
/// nurse reported by the removal step; the exhaustive scan supersedes it.
pub fn repair_nurse(
    to_repair: &mut Individual,
    parent: &Individual,
    parent_idx: usize,
    nurse_idx: usize,
    info: &Info,
    config: &Config,
)
    requires
        info.wf(),
        config.wf(),
        old(to_repair).nurses@.len() >= 1,
        nurse_idx < old(to_repair).nurses@.len(),
        routes_ok(old(to_repair)@, info.n_patients()),
        parent_idx < parent.nurses@.len(),
        route_ok(parent@[parent_idx as int], info.n_patients()),
        routes_mset(old(to_repair)@).len() + parent@[parent_idx as int].len() <= MAX_ROUTE as int,
    ensures
        final(to_repair).nurses@.len() == old(to_repair).nurses@.len(),
        final(to_repair).fitness == old(to_repair).fitness,
        final(to_repair).feasible == old(to_repair).feasible,
        forall|k: int|
            0 <= k < old(to_repair).nurses@.len() ==> (#[trigger] final(to_repair).nurses@[k]).capacity == old(to_repair).nurses@[k].capacity,
        routes_ok(final(to_repair)@, info.n_patients()),
        routes_mset(final(to_repair)@) == routes_mset(old(to_repair)@).add(
            parent@[parent_idx as int].to_multiset(),
        ),
{
    let ghost n = info.n_patients();
    let ghost base = routes_mset(old(to_repair)@);
    let ghost total = parent@[parent_idx as int].len() as int;
    let ids = copy_route(&parent.nurses[parent_idx].route);
    proof {
        assert(ids@ == parent@[parent_idx as int]);
    }
    let sorted = sort_by_window(&ids, info);
    let ghost sv = sorted@;
    proof {
        broadcast use vstd::multiset::group_multiset_axioms;
        broadcast use vstd::seq_lib::group_to_multiset_ensures;

        assert(sv.subrange(0, 0).to_multiset().len() == 0);
        assert(base.add(sv.subrange(0, 0).to_multiset()) =~= base);
    }
    let mut i: usize = 0;
    while i < sorted.len()
        invariant
            info.wf(),
            config.wf(),
            sv == sorted@,
            n == info.n_patients(),
            base == routes_mset(old(to_repair)@),
            sv.len() == total,
            base.len() + total <= MAX_ROUTE as int,
            forall|j: int| 0 <= j < sv.len() ==> (#[trigger] sv[j]) < n,
            i <= sv.len(),
            to_repair.nurses@.len() == old(to_repair).nurses@.len(),
            to_repair.nurses@.len() >= 1,
            to_repair.fitness == old(to_repair).fitness,
            to_repair.feasible == old(to_repair).feasible,
            forall|k: int|
                0 <= k < old(to_repair).nurses@.len() ==> (#[trigger] to_repair.nurses@[k]).capacity
                    == old(to_repair).nurses@[k].capacity,
            routes_ok(to_repair@, n),
            routes_mset(to_repair@) == base.add(sv.subrange(0, i as int).to_multiset()),
        decreases sv.len() - i,
    {
        let p = sorted[i];
        proof {
            broadcast use vstd::multiset::group_multiset_axioms;
            broadcast use vstd::seq_lib::group_to_multiset_ensures;

            assert(sv.subrange(0, i as int).to_multiset().len() == i);
            assert(routes_mset(to_repair@).len() == base.len() + i);
            assert forall|k: int|
                0 <= k < to_repair.nurses@.len() implies (#[trigger] to_repair.nurses@[k]).route@.len()
                + 1 <= MAX_ROUTE by {
                crate::partition::lemma_route_mset_le(to_repair@, k);
                assert(to_repair@[k] == to_repair.nurses@[k].route@);
            }
        }
        let (nk, pos) = best_single_insertion(&to_repair.nurses, p, info, config);
        proof {
            assert(to_repair@[nk as int] == to_repair.nurses@[nk as int].route@);
        }
        let ghost before = to_repair@;
        nurse_insert(&mut to_repair.nurses, nk, pos, p);
        proof {
            broadcast use vstd::multiset::group_multiset_axioms;
            broadcast use vstd::seq_lib::group_to_multiset_ensures;

            assert(to_repair@ == routes_of(to_repair.nurses@));
            assert(routes_mset(to_repair@) == routes_mset(before).insert(p));
            let prefix = sv.subrange(0, i as int);
            let prefix1 = sv.subrange(0, i as int + 1);
            assert(prefix1 =~= prefix.push(p));
            assert(prefix.push(p).to_multiset() == prefix.to_multiset().insert(p));
            assert(routes_mset(to_repair@) =~= base.add(prefix1.to_multiset()));
            // every route still fits and holds valid ids
            assert(prefix1.to_multiset().len() == i + 1);
            assert(routes_mset(to_repair@).len() == base.len() + i + 1);
            assert forall|k: int| 0 <= k < to_repair.nurses@.len() implies route_ok(
                #[trigger] to_repair@[k],
                n,
            ) by {
                crate::partition::lemma_route_mset_le(to_repair@, k);
                if k == nk {
                    let cv = before[nk as int].insert(pos as int, p);
                    before[nk as int].insert_ensures(pos as int, p);
                    assert(to_repair@[k] == cv);
                    assert forall|j: int| 0 <= j < cv.len() implies (#[trigger] cv[j]) < n by {
                        if j < pos {
                            assert(cv[j] == before[nk as int][j]);
                        } else if j == pos {
                            assert(cv[j] == p);
                        } else {
                            assert(cv[j] == before[nk as int][j - 1]);
                        }
                    }
                } else {
                    assert(to_repair@[k] == before[k]);
                }
            }
        }
        i += 1;
    }
    proof {
        assert(sv.subrange(0, sv.len() as int) =~= sv);
        assert(sv.to_multiset() == ids@.to_multiset());
    }
}

/// Route-wise filtering carries over to the candidate's whole multiset:
/// removed ids drop to count zero, all others keep their counts.
proof fn lemma_filtered_mset(rs0: Seq<Seq<usize>>, rs1: Seq<Seq<usize>>, rem: Seq<usize>)
    requires
        rs1.len() == rs0.len(),
        forall|k: int| 0 <= k < rs0.len() ==> (#[trigger] rs1[k]) == kept_of(rs0[k], rem),
    ensures
        forall|v: usize|
            #![trigger routes_mset(rs1).count(v)]
            routes_mset(rs1).count(v) == if rem.contains(v) {
                0nat
            } else {
                routes_mset(rs0).count(v)
            },
    decreases rs0.len(),
{
    broadcast use vstd::multiset::group_multiset_axioms;

    if rs0.len() > 0 {
        lemma_filtered_mset(rs0.drop_last(), rs1.drop_last(), rem);
        assert(rs1.last() == kept_of(rs0.last(), rem));
        assert forall|v: usize|
            routes_mset(rs1).count(v) == (if rem.contains(v) {
                0nat
            } else {
                routes_mset(rs0).count(v)
            }) by {
            lemma_kept_count(rs0.last(), rem, v);
            assert(routes_mset(rs1) == routes_mset(rs1.drop_last()).add(
                rs1.last().to_multiset(),
            ));
            assert(routes_mset(rs0) == routes_mset(rs0.drop_last()).add(
                rs0.last().to_multiset(),
            ));
        }
    }
}

/// Removing one donor route's patients from a complete candidate and
/// reinserting exactly that route's patients yields a complete candidate
/// again.
proof fn lemma_exchange_complete(
    child0: Seq<Seq<usize>>,
    removed: Seq<Seq<usize>>,
    final_rs: Seq<Seq<usize>>,
    donor: Seq<Seq<usize>>,
    di: int,
    n: int,
)
    requires
        complete(child0, n),
        complete(donor, n),
        0 <= di < donor.len(),
        removed.len() == child0.len(),
        forall|k: int| 0 <= k < child0.len() ==> (#[trigger] removed[k]) == kept_of(
            child0[k],
            donor[di],
        ),
        routes_mset(final_rs) == routes_mset(removed).add(donor[di].to_multiset()),
        0 <= n <= crate::io::MAX_PATIENTS as int,
    ensures
        complete(final_rs, n),
{
    broadcast use vstd::multiset::group_multiset_axioms;
    broadcast use vstd::seq_lib::group_to_multiset_ensures;

    let rem = donor[di];
    lemma_filtered_mset(child0, removed, rem);
    crate::partition::lemma_route_mset_le(donor, di);
    assert forall|v: usize| routes_mset(final_rs).count(v) == full_mset(n).count(v) by {
        lemma_full_mset_count(n, v);
        if rem.contains(v) {
            assert(rem.to_multiset().count(v) >= 1);
            assert(routes_mset(donor).count(v) >= 1);
            assert(full_mset(n).count(v) >= 1);
            assert((v as int) < n);
            assert(rem.to_multiset().count(v) <= routes_mset(donor).count(v));
            assert(rem.to_multiset().count(v) == 1);
            assert(routes_mset(removed).count(v) == 0);
        } else {
            assert(rem.to_multiset().count(v) == 0);
            assert(routes_mset(removed).count(v) == routes_mset(child0).count(v));
        }
    }
    assert(routes_mset(final_rs) =~= full_mset(n));
}

/// Repair-based route exchange. With probability `1 - crossover_rate` the
/// parents are cloned unchanged; otherwise each child loses the patients of
/// a non-empty route chosen from the other parent and the repair step
/// reinserts them at the cheapest positions. Both children partition the
/// patient set whenever the parents do.
pub fn visma_crossover(
    parent1: &Individual,
    parent2: &Individual,
    info: &Info,
    config: &Config,
    rng: &mut rand::rngs::StdRng,
) -> (res: (Individual, Individual))
    requires
        info.wf(),
        config.wf(),
        ind_wf(*parent1, *info),
        ind_wf(*parent2, *info),
    ensures
        ind_wf(res.0, *info),
        ind_wf(res.1, *info),
        res.0.nurses@.len() == parent1.nurses@.len(),
        res.1.nurses@.len() == parent2.nurses@.len(),
        res.0.fitness == parent1.fitness && res.0.feasible == parent1.feasible,
        res.1.fitness == parent2.fitness && res.1.feasible == parent2.feasible,
        config.crossover_rate == 0 ==> res.0@ == parent1@ && res.1@ == parent2@,
        res.0@ == parent1@ || exchange_occurred(res.0, *parent1, *parent2),
        res.1@ == parent2@ || exchange_occurred(res.1, *parent2, *parent1),
        config.crossover_rate == crate::config::RATE_UNIT && (forall|k: int|
            0 <= k < parent1.nurses@.len() ==> (#[trigger] parent1@[k]).len() > 0) && (forall|
            k: int,
        |
            0 <= k < parent2.nurses@.len() ==> (#[trigger] parent2@[k]).len() > 0)
            ==> exchange_occurred(res.0, *parent1, *parent2) && exchange_occurred(
            res.1,
            *parent2,
            *parent1,
        ),
{
    let ghost n = info.n_patients();
    let mut child1 = parent1.duplicate();
    let mut child2 = parent2.duplicate();
    let draw = rand_below(rng, crate::config::RATE_UNIT as u64);
    if draw >= config.crossover_rate as u64 {
        return (child1, child2);
    }
    let len1 = parent1.nurses.len();
    let len2 = parent2.nurses.len();
    let mut idx1: usize = 0;
    let mut found1 = false;
    let mut t: usize = 0;
    while t < 5
        invariant_except_break
            !found1,
        invariant
            len1 == parent1.nurses@.len(),
            len1 >= 1,
            idx1 < len1,
            t > 0 ==> exists|k: int|
                0 <= k < parent1.nurses@.len() && (#[trigger] parent1@[k]).len() == 0,
        ensures
            idx1 < len1,
            found1 ==> parent1@[idx1 as int].len() > 0,
            !found1 ==> exists|k: int|
                0 <= k < parent1.nurses@.len() && (#[trigger] parent1@[k]).len() == 0,
        decreases 5 - t,
    {
        idx1 = rand_index(rng, len1);
        if parent1.nurses[idx1].route.len() > 0 {
            found1 = true;
            break ;
        }
        proof {
            assert(parent1@[idx1 as int].len() == 0);
        }
        t += 1;
    }
    if !found1 {
        return (child1, child2);
    }
    let mut idx2: usize = 0;
    let mut found2 = false;
    let mut t2: usize = 0;
    while t2 < 5
        invariant_except_break
            !found2,
        invariant
            len2 == parent2.nurses@.len(),
            len2 >= 1,
            idx2 < len2,
            t2 > 0 ==> exists|k: int|
                0 <= k < parent2.nurses@.len() && (#[trigger] parent2@[k]).len() == 0,
        ensures
            idx2 < len2,
            found2 ==> parent2@[idx2 as int].len() > 0,
            !found2 ==> exists|k: int|
                0 <= k < parent2.nurses@.len() && (#[trigger] parent2@[k]).len() == 0,
        decreases 5 - t2,
    {
        idx2 = rand_index(rng, len2);
        if parent2.nurses[idx2].route.len() > 0 {
            found2 = true;
            break ;
        }
        proof {
            assert(parent2@[idx2 as int].len() == 0);
        }
        t2 += 1;
    }
    if !found2 {
        return (child1, child2);
    }
    proof {
        lemma_complete_routes_ok(parent1@, n);
        lemma_complete_routes_ok(parent2@, n);
    }
    let focus1 = remove_crossover(&mut child1, parent2, idx2);
    let focus2 = remove_crossover(&mut child2, parent1, idx1);
    proof {
        lemma_child_ready_for_repair(parent1@, child1@, parent2@, idx2 as int, n);
        lemma_child_ready_for_repair(parent2@, child2@, parent1@, idx1 as int, n);
        assert(parent2@[idx2 as int] == parent2.nurses@[idx2 as int].route@);
        assert(parent1@[idx1 as int] == parent1.nurses@[idx1 as int].route@);
    }
    let ghost removed1 = child1@;
    let ghost removed2 = child2@;
    repair_nurse(&mut child1, parent2, idx2, focus1, info, config);
    repair_nurse(&mut child2, parent1, idx1, focus2, info, config);
    proof {
        lemma_exchange_complete(parent1@, removed1, child1@, parent2@, idx2 as int, n);
        lemma_exchange_complete(parent2@, removed2, child2@, parent1@, idx1 as int, n);
        assert(exchange_occurred(child1, *parent1, *parent2)) by {
            assert(parent2@[idx2 as int].len() > 0);
            assert(forall|k: int|
                0 <= k < parent1.nurses@.len() ==> #[trigger] removed1[k] == kept_of(
                    parent1@[k],
                    parent2@[idx2 as int],
                ));
        }
        assert(exchange_occurred(child2, *parent2, *parent1)) by {
            assert(parent1@[idx1 as int].len() > 0);
            assert(forall|k: int|
                0 <= k < parent2.nurses@.len() ==> #[trigger] removed2[k] == kept_of(
                    parent2@[k],
                    parent1@[idx1 as int],
                ));
        }
    }
    (child1, child2)
}

/// After the removal step a child is ready for repair: its routes hold
/// valid ids, are no longer than before, and its multiset leaves room for
/// the donor route.
proof fn lemma_child_ready_for_repair(
    parent_rs: Seq<Seq<usize>>,
    child_rs: Seq<Seq<usize>>,
    donor: Seq<Seq<usize>>,
    di: int,
    n: int,
)
    requires
        complete(parent_rs, n),
        complete(donor, n),
        0 <= di < donor.len(),
        child_rs.len() == parent_rs.len(),
        forall|k: int| 0 <= k < parent_rs.len() ==> (#[trigger] child_rs[k]) == kept_of(
            parent_rs[k],
            donor[di],
        ),
        0 <= n <= crate::io::MAX_PATIENTS as int,
    ensures
        routes_ok(child_rs, n),
        routes_mset(child_rs).len() + donor[di].len() <= MAX_ROUTE as int,
{
    broadcast use vstd::multiset::group_multiset_axioms;
    broadcast use vstd::seq_lib::group_to_multiset_ensures;

    let rem = donor[di];
    lemma_complete_routes_ok(parent_rs, n);
    lemma_complete_routes_ok(donor, n);
    assert forall|k: int| 0 <= k < child_rs.len() implies route_ok(#[trigger] child_rs[k], n) by {
        lemma_kept_len(parent_rs[k], rem);
        lemma_kept_entries(parent_rs[k], rem);
        assert forall|j: int| 0 <= j < child_rs[k].len() implies (#[trigger] child_rs[k][j])
            < n by {
            assert(parent_rs[k].contains(child_rs[k][j]));
        }
    }
    lemma_filtered_mset(parent_rs, child_rs, rem);
    crate::partition::lemma_full_mset_len(n);
    assert(routes_mset(child_rs).subset_of(routes_mset(parent_rs)));
    assert(routes_mset(parent_rs).sub(routes_mset(child_rs)).len() == routes_mset(
        parent_rs,
    ).len() - routes_mset(child_rs).len());
    assert(routes_mset(child_rs).len() <= n);
}

/// Finds one occurrence of patient `q` among the candidate's routes.
fn find_patient(nurses: &Vec<Nurse>, q: usize) -> (res: Option<(usize, usize)>)
    ensures
        match res {
            Some(pos) => pos.0 < nurses@.len() && pos.1 < nurses@[pos.0 as int].route@.len()
                && nurses@[pos.0 as int].route@[pos.1 as int] == q,
            None => true,
        },
{
    let mut k: usize = 0;
    while k < nurses.len()
        invariant
            k <= nurses@.len(),
        decreases nurses@.len() - k,
    {
        let route = &nurses[k].route;
        let mut i: usize = 0;
        while i < route.len()
            invariant
                i <= route@.len(),
                k < nurses@.len(),
                route == &nurses@[k as int].route,
            decreases route@.len() - i,
        {
            if route[i] == q {
                return Some((k, i));
            }
            i += 1;
        }
        k += 1;
    }
    None
}

/// Neighbor-bounded repair: reinserts every patient of the donor route, in
/// route order, trying only insertion points next to a few of the
/// patient's nearest neighbors from the instance's proximity ranking, and
/// falling back to the front of the first route when no neighbor is
/// placed yet. Trades repair optimality for bounded cost.
pub fn repair_nurse_optimized(
    to_repair: &mut Individual,
    parent: &Individual,
    parent_idx: usize,
    info: &Info,
    config: &Config,
)
    requires
        info.wf(),
        config.wf(),
        old(to_repair).nurses@.len() >= 1,
        routes_ok(old(to_repair)@, info.n_patients()),
        parent_idx < parent.nurses@.len(),
        route_ok(parent@[parent_idx as int], info.n_patients()),
        routes_mset(old(to_repair)@).len() + parent@[parent_idx as int].len() <= MAX_ROUTE as int,
    ensures
        final(to_repair).nurses@.len() == old(to_repair).nurses@.len(),
        final(to_repair).fitness == old(to_repair).fitness,
        final(to_repair).feasible == old(to_repair).feasible,
        forall|k: int|
            0 <= k < old(to_repair).nurses@.len() ==> (#[trigger] final(to_repair).nurses@[k]).capacity == old(to_repair).nurses@[k].capacity,
        routes_ok(final(to_repair)@, info.n_patients()),
        routes_mset(final(to_repair)@) == routes_mset(old(to_repair)@).add(
            parent@[parent_idx as int].to_multiset(),
        ),
{
    let ghost n = info.n_patients();
    let ghost base = routes_mset(old(to_repair)@);
    let ghost total = parent@[parent_idx as int].len() as int;
    let ids = copy_route(&parent.nurses[parent_idx].route);
    proof {
        assert(ids@ == parent@[parent_idx as int]);
        broadcast use vstd::multiset::group_multiset_axioms;
        broadcast use vstd::seq_lib::group_to_multiset_ensures;

        assert(ids@.subrange(0, 0).to_multiset().len() == 0);
        assert(base.add(ids@.subrange(0, 0).to_multiset()) =~= base);
    }
    let ghost sv = ids@;
    let mut i: usize = 0;
    while i < ids.len()
        invariant
            info.wf(),
            config.wf(),
            sv == ids@,
            n == info.n_patients(),
            base == routes_mset(old(to_repair)@),
            sv.len() == total,
            base.len() + total <= MAX_ROUTE as int,
            forall|j: int| 0 <= j < sv.len() ==> (#[trigger] sv[j]) < n,
            i <= sv.len(),
            to_repair.nurses@.len() == old(to_repair).nurses@.len(),
            to_repair.nurses@.len() >= 1,
            to_repair.fitness == old(to_repair).fitness,
            to_repair.feasible == old(to_repair).feasible,
            forall|k: int|
                0 <= k < old(to_repair).nurses@.len() ==> (#[trigger] to_repair.nurses@[k]).capacity
                    == old(to_repair).nurses@[k].capacity,
            routes_ok(to_repair@, n),
            routes_mset(to_repair@) == base.add(sv.subrange(0, i as int).to_multiset()),
        decreases sv.len() - i,
    {
        let p = ids[i];
        proof {
            broadcast use vstd::multiset::group_multiset_axioms;
            broadcast use vstd::seq_lib::group_to_multiset_ensures;

            assert(sv.subrange(0, i as int).to_multiset().len() == i);
            assert(routes_mset(to_repair@).len() == base.len() + i);
            assert forall|k: int|
                0 <= k < to_repair.nurses@.len() implies (#[trigger] to_repair.nurses@[k]).route@.len()
                + 1 <= MAX_ROUTE by {
                crate::partition::lemma_route_mset_le(to_repair@, k);
                assert(to_repair@[k] == to_repair.nurses@[k].route@);
            }
        }
        let neighbors = &info.travel_times_sorted[p];
        let mut best_nk: usize = 0;
        let mut best_pos: usize = 0;
        let mut have_best = false;
        let mut best_new: u64 = 0;
        let mut best_base: u64 = 0;
        let mut tried: usize = 0;
        let mut q_idx: usize = 0;
        while q_idx < neighbors.len()
            invariant
                info.wf(),
                config.wf(),
                n == info.n_patients(),
                p < n,
                neighbors == &info.travel_times_sorted@[p as int],
                q_idx <= neighbors@.len(),
                to_repair.nurses@.len() >= 1,
                routes_ok(to_repair@, n),
                forall|k: int|
                    0 <= k < to_repair.nurses@.len() ==> (#[trigger] to_repair.nurses@[k]).route@.len()
                        + 1 <= MAX_ROUTE,
                best_nk < to_repair.nurses@.len(),
                best_pos <= to_repair.nurses@[best_nk as int].route@.len(),
                best_new <= 300_030_001_004_000,
                best_base <= 300_030_001_004_000,
            decreases neighbors@.len() - q_idx,
        {
            if tried > 3 {
                break ;
            }
            let q = neighbors[q_idx];
            proof {
                assert(q < n);
            }
            let found = find_patient(&to_repair.nurses, q);
            match found {
                Some(pos) => {
                    let nk = pos.0;
                    let idx = pos.1;
                    proof {
                        assert(to_repair@[nk as int] == to_repair.nurses@[nk as int].route@);
                    }
                    let (fbase, _) = fitness_nurse(&to_repair.nurses[nk], info, config);
                    let fnew = fitness_with_insert(&to_repair.nurses[nk], idx, p, info, config);
                    let take1 = if !have_best {
                        true
                    } else {
                        fnew + best_base < best_new + fbase
                    };
                    if take1 {
                        have_best = true;
                        best_nk = nk;
                        best_pos = idx;
                        best_new = fnew;
                        best_base = fbase;
                    }
                    let fnew2 = fitness_with_insert(
                        &to_repair.nurses[nk],
                        idx + 1,
                        p,
                        info,
                        config,
                    );
                    if fnew2 + best_base < best_new + fbase {
                        have_best = true;
                        best_nk = nk;
                        best_pos = idx + 1;
                        best_new = fnew2;
                        best_base = fbase;
                    }
                    tried += 1;
                },
                None => {},
            }
            q_idx += 1;
        }
        proof {
            crate::partition::lemma_route_mset_le(to_repair@, best_nk as int);
            assert(to_repair@[best_nk as int] == to_repair.nurses@[best_nk as int].route@);
        }
        let ghost before = to_repair@;
        nurse_insert(&mut to_repair.nurses, best_nk, best_pos, p);
        proof {
            broadcast use vstd::multiset::group_multiset_axioms;
            broadcast use vstd::seq_lib::group_to_multiset_ensures;

            assert(to_repair@ == routes_of(to_repair.nurses@));
            assert(routes_mset(to_repair@) == routes_mset(before).insert(p));
            let prefix = sv.subrange(0, i as int);
            let prefix1 = sv.subrange(0, i as int + 1);
            assert(prefix1 =~= prefix.push(p));
            assert(prefix.push(p).to_multiset() == prefix.to_multiset().insert(p));
            assert(routes_mset(to_repair@) =~= base.add(prefix1.to_multiset()));
            assert(prefix1.to_multiset().len() == i + 1);
            assert(routes_mset(to_repair@).len() == base.len() + i + 1);
            assert forall|k: int| 0 <= k < to_repair.nurses@.len() implies route_ok(
                #[trigger] to_repair@[k],
                n,
            ) by {
                crate::partition::lemma_route_mset_le(to_repair@, k);
                if k == best_nk {
                    let cv = before[best_nk as int].insert(best_pos as int, p);
                    before[best_nk as int].insert_ensures(best_pos as int, p);
                    assert(to_repair@[k] == cv);
                    assert forall|j: int| 0 <= j < cv.len() implies (#[trigger] cv[j]) < n by {
                        if j < best_pos {
                            assert(cv[j] == before[best_nk as int][j]);
                        } else if j == best_pos {
                            assert(cv[j] == p);
                        } else {
                            assert(cv[j] == before[best_nk as int][j - 1]);
                        }
                    }
                } else {
                    assert(to_repair@[k] == before[k]);
                }
            }
        }
        i += 1;
    }
    proof {
        assert(sv.subrange(0, sv.len() as int) =~= sv);
    }
}

/// Repair-based route exchange with the neighbor-bounded repair: the
/// practical default for larger instances. Same exchange structure as
/// `visma_crossover`, with the insertion search restricted to positions
/// near each patient's precomputed nearest neighbors.
pub fn visma_more_optimized(
    parent1: &Individual,
    parent2: &Individual,
    info: &Info,
    config: &Config,
    rng: &mut rand::rngs::StdRng,
) -> (res: (Individual, Individual))
    requires
        info.wf(),
        config.wf(),
        ind_wf(*parent1, *info),
        ind_wf(*parent2, *info),
    ensures
        ind_wf(res.0, *info),
        ind_wf(res.1, *info),
        res.0.nurses@.len() == parent1.nurses@.len(),
        res.1.nurses@.len() == parent2.nurses@.len(),
        res.0.fitness == parent1.fitness && res.0.feasible == parent1.feasible,
        res.1.fitness == parent2.fitness && res.1.feasible == parent2.feasible,
        config.crossover_rate == 0 ==> res.0@ == parent1@ && res.1@ == parent2@,
        res.0@ == parent1@ || exchange_occurred(res.0, *parent1, *parent2),
        res.1@ == parent2@ || exchange_occurred(res.1, *parent2, *parent1),
        config.crossover_rate == crate::config::RATE_UNIT && (forall|k: int|
            0 <= k < parent1.nurses@.len() ==> (#[trigger] parent1@[k]).len() > 0) && (forall|
            k: int,
        |
            0 <= k < parent2.nurses@.len() ==> (#[trigger] parent2@[k]).len() > 0)
            ==> exchange_occurred(res.0, *parent1, *parent2) && exchange_occurred(
            res.1,
            *parent2,
            *parent1,
        ),
{
    let ghost n = info.n_patients();
    let mut child1 = parent1.duplicate();
    let mut child2 = parent2.duplicate();
    let draw = rand_below(rng, crate::config::RATE_UNIT as u64);
    if draw >= config.crossover_rate as u64 {
        return (child1, child2);
    }
    let len1 = parent1.nurses.len();
    let len2 = parent2.nurses.len();
    let mut idx1: usize = 0;
    let mut found1 = false;
    let mut t: usize = 0;
    while t < 5
        invariant_except_break
            !found1,
        invariant
            len1 == parent1.nurses@.len(),
            len1 >= 1,
            idx1 < len1,
            t > 0 ==> exists|k: int|
                0 <= k < parent1.nurses@.len() && (#[trigger] parent1@[k]).len() == 0,
        ensures
            idx1 < len1,
            found1 ==> parent1@[idx1 as int].len() > 0,
            !found1 ==> exists|k: int|
                0 <= k < parent1.nurses@.len() && (#[trigger] parent1@[k]).len() == 0,
        decreases 5 - t,
    {
        idx1 = rand_index(rng, len1);
        if parent1.nurses[idx1].route.len() > 0 {
            found1 = true;
            break ;
        }
        proof {
            assert(parent1@[idx1 as int].len() == 0);
        }
        t += 1;
    }
    if !found1 {
        return (child1, child2);
    }
    let mut idx2: usize = 0;
    let mut found2 = false;
    let mut t2: usize = 0;
    while t2 < 5
        invariant_except_break
            !found2,
        invariant
            len2 == parent2.nurses@.len(),
            len2 >= 1,
            idx2 < len2,
            t2 > 0 ==> exists|k: int|
                0 <= k < parent2.nurses@.len() && (#[trigger] parent2@[k]).len() == 0,
        ensures
            idx2 < len2,
            found2 ==> parent2@[idx2 as int].len() > 0,
            !found2 ==> exists|k: int|
                0 <= k < parent2.nurses@.len() && (#[trigger] parent2@[k]).len() == 0,
        decreases 5 - t2,
    {
        idx2 = rand_index(rng, len2);
        if parent2.nurses[idx2].route.len() > 0 {
            found2 = true;
            break ;
        }
        proof {
            assert(parent2@[idx2 as int].len() == 0);
        }
        t2 += 1;
    }
    if !found2 {
        return (child1, child2);
    }
    proof {
        lemma_complete_routes_ok(parent1@, n);
        lemma_complete_routes_ok(parent2@, n);
    }
    let focus1 = remove_crossover(&mut child1, parent2, idx2);
    let focus2 = remove_crossover(&mut child2, parent1, idx1);
    proof {
        lemma_child_ready_for_repair(parent1@, child1@, parent2@, idx2 as int, n);
        lemma_child_ready_for_repair(parent2@, child2@, parent1@, idx1 as int, n);
        assert(parent2@[idx2 as int] == parent2.nurses@[idx2 as int].route@);
        assert(parent1@[idx1 as int] == parent1.nurses@[idx1 as int].route@);
    }
    let ghost removed1 = child1@;
    let ghost removed2 = child2@;
    repair_nurse_optimized(&mut child1, parent2, idx2, info, config);
    repair_nurse_optimized(&mut child2, parent1, idx1, info, config);
    proof {
        lemma_exchange_complete(parent1@, removed1, child1@, parent2@, idx2 as int, n);
        lemma_exchange_complete(parent2@, removed2, child2@, parent1@, idx1 as int, n);
        assert(exchange_occurred(child1, *parent1, *parent2)) by {
            assert(parent2@[idx2 as int].len() > 0);
            assert(forall|k: int|
                0 <= k < parent1.nurses@.len() ==> #[trigger] removed1[k] == kept_of(
                    parent1@[k],
                    parent2@[idx2 as int],
                ));
        }
        assert(exchange_occurred(child2, *parent2, *parent1)) by {
            assert(parent1@[idx1 as int].len() > 0);
            assert(forall|k: int|
                0 <= k < parent2.nurses@.len() ==> #[trigger] removed2[k] == kept_of(
                    parent2@[k],
                    parent1@[idx1 as int],
                ));
        }
    }
    (child1, child2)
}


/// Every member of a population is structurally well-formed.
pub open spec fn pop_wf(pop: Seq<Individual>, inst: Info) -> bool {
    forall|i: int| 0 <= i < pop.len() ==> ind_wf(#[trigger] pop[i], inst)
}

/// Breeds one pair of children from each consecutive pair of parent
/// indices. Children are appended in parent order; their cached fitness is
/// stale and must be recomputed before use. With `crossover_rate` zero every
/// child is a clone of its parent.
pub fn population_crossover(
    population: &Vec<Individual>,
    parent_indices: &Vec<usize>,
    info: &Info,
    config: &Config,
    rng: &mut rand::rngs::StdRng,
) -> (children: Vec<Individual>)
    requires
        info.wf(),
        config.wf(),
        pop_wf(population@, *info),
        parent_indices@.len() % 2 == 0,
        forall|t: int|
            0 <= t < parent_indices@.len() ==> (#[trigger] parent_indices@[t]) < population@.len(),
    ensures
        children@.len() == parent_indices@.len(),
        pop_wf(children@, *info),
        forall|t: int|
            0 <= t < children@.len() ==> (#[trigger] children@[t]).nurses@.len()
                == info.nbr_nurses as int,
        forall|t: int|
            0 <= t < children@.len() ==> (#[trigger] children@[t]).fitness
                == population@[parent_indices@[t] as int].fitness,
        config.crossover_rate == 0 ==> forall|t: int|
            0 <= t < children@.len() ==> (#[trigger] children@[t])@ == population@[parent_indices@[t] as int]@,
{
    let mut children: Vec<Individual> = Vec::new();
    let mut t: usize = 0;
    while t + 1 < parent_indices.len()
        invariant
            info.wf(),
            config.wf(),
            pop_wf(population@, *info),
            parent_indices@.len() % 2 == 0,
            forall|q: int|
                0 <= q < parent_indices@.len() ==> (#[trigger] parent_indices@[q])
                    < population@.len(),
            t % 2 == 0,
            t <= parent_indices@.len(),
            children@.len() == t,
            pop_wf(children@, *info),
            forall|q: int|
                0 <= q < children@.len() ==> (#[trigger] children@[q]).nurses@.len()
                    == info.nbr_nurses as int,
            forall|q: int|
                0 <= q < children@.len() ==> (#[trigger] children@[q]).fitness
                    == population@[parent_indices@[q] as int].fitness,
            config.crossover_rate == 0 ==> forall|q: int|
                0 <= q < children@.len() ==> (#[trigger] children@[q])@ == population@[parent_indices@[q] as int]@,
        decreases parent_indices@.len() - t,
    {
        let i1 = parent_indices[t];
        let i2 = parent_indices[t + 1];
        let (c1, c2) = match config.crossover_fn {
            crate::config::CrossoverFN::Visma => visma_crossover(
                &population[i1],
                &population[i2],
                info,
                config,
                rng,
            ),
            crate::config::CrossoverFN::VismaOptimized => visma_crossover(
                &population[i1],
                &population[i2],
                info,
                config,
                rng,
            ),
            crate::config::CrossoverFN::VismaIndexed => visma_crossover(
                &population[i1],
                &population[i2],
                info,
                config,
                rng,
            ),
            crate::config::CrossoverFN::VismaMoreOptimized => visma_more_optimized(
                &population[i1],
                &population[i2],
                info,
                config,
                rng,
            ),
        };
        children.push(c1);
        children.push(c2);
        t += 2;
    }
    children
}

} // verus!
