use vstd::prelude::*;
use vstd::multiset::Multiset;

use vstd::pervasive::VecAdditionalExecFns;

use crate::nurse::Nurse;

verus! {

/// The route structure of a list of nurses, as a sequence of visit
/// sequences.
pub open spec fn routes_of(nurses: Seq<Nurse>) -> Seq<Seq<usize>> {
    nurses.map_values(|n: Nurse| n.route@)
}

/// The multiset of patient ids across all routes of a candidate.
pub open spec fn routes_mset(rs: Seq<Seq<usize>>) -> Multiset<usize>
    decreases rs.len(),
{
    if rs.len() == 0 {
        Multiset::empty()
    } else {
        routes_mset(rs.drop_last()).add(rs.last().to_multiset())
    }
}

/// The ids `0 .. n` in order.
pub open spec fn full_seq(n: int) -> Seq<usize> {
    Seq::new(n as nat, |i: int| i as usize)
}

/// The multiset holding each patient id `0 .. n` exactly once.
pub open spec fn full_mset(n: int) -> Multiset<usize> {
    full_seq(n).to_multiset()
}

/// The patient-partition invariant: the routes of a candidate together visit
/// every patient of the instance exactly once.
pub open spec fn complete(rs: Seq<Seq<usize>>, n: int) -> bool {
    routes_mset(rs) == full_mset(n)
}

/// Replacing route `k` by `x` changes the candidate's patient multiset by
/// exactly the difference between the two routes, stated additively over
/// counts.
pub proof fn lemma_replace_route(rs: Seq<Seq<usize>>, k: int, x: Seq<usize>)
    requires
        0 <= k < rs.len(),
    ensures
        forall|v: usize|
            #![trigger routes_mset(rs.update(k, x)).count(v)]
            routes_mset(rs.update(k, x)).count(v) + rs[k].to_multiset().count(v) == routes_mset(
                rs,
            ).count(v) + x.to_multiset().count(v),
    decreases rs.len(),
{
    broadcast use vstd::multiset::group_multiset_axioms;

    let upd = rs.update(k, x);
    assert(routes_mset(upd) == routes_mset(upd.drop_last()).add(upd.last().to_multiset()));
    assert(routes_mset(rs) == routes_mset(rs.drop_last()).add(rs.last().to_multiset()));
    if k == rs.len() - 1 {
        assert(upd.drop_last() =~= rs.drop_last());
        assert(upd.last() == x);
    } else {
        assert(upd.drop_last() =~= rs.drop_last().update(k, x));
        assert(upd.last() == rs.last());
        lemma_replace_route(rs.drop_last(), k, x);
        assert(rs.drop_last()[k] == rs[k]);
    }
}

/// Each route's patient counts are included in the candidate's multiset.
pub proof fn lemma_route_mset_le(rs: Seq<Seq<usize>>, k: int)
    requires
        0 <= k < rs.len(),
    ensures
        rs[k].to_multiset().subset_of(routes_mset(rs)),
        rs[k].len() <= routes_mset(rs).len(),
    decreases rs.len(),
{
    broadcast use vstd::multiset::group_multiset_axioms;
    broadcast use vstd::seq_lib::group_to_multiset_ensures;

    if k == rs.len() - 1 {
        assert(rs.last() == rs[k]);
    } else {
        lemma_route_mset_le(rs.drop_last(), k);
        assert(rs.drop_last()[k] == rs[k]);
    }
}

/// The count of each id in the full multiset: one for ids below `n`, zero
/// otherwise.
pub proof fn lemma_full_mset_count(n: int, x: usize)
    requires
        0 <= n <= usize::MAX as int,
    ensures
        full_mset(n).count(x) == if (x as int) < n {
            1nat
        } else {
            0nat
        },
    decreases n,
{
    broadcast use vstd::multiset::group_multiset_axioms;
    broadcast use vstd::seq_lib::group_to_multiset_ensures;

    if n == 0 {
        assert(full_seq(0).len() == 0);
        assert(full_mset(0).len() == 0);
        assert(full_mset(0).count(x) <= full_mset(0).len());
    } else {
        lemma_full_mset_count(n - 1, x);
        assert(full_seq(n) =~= full_seq(n - 1).push((n - 1) as usize));
        assert(full_mset(n) == full_seq(n - 1).push((n - 1) as usize).to_multiset());
        assert(full_mset(n) =~= full_mset(n - 1).insert((n - 1) as usize));
    }
}

/// The full multiset over `n` patients has `n` members.
pub proof fn lemma_full_mset_len(n: int)
    requires
        n >= 0,
    ensures
        full_mset(n).len() == n,
{
    broadcast use vstd::seq_lib::group_to_multiset_ensures;

    assert(full_seq(n).len() == n);
}

/// A complete candidate has only valid patient ids, and each of its routes
/// is no longer than the patient count.
pub proof fn lemma_complete_routes_ok(rs: Seq<Seq<usize>>, n: int)
    requires
        complete(rs, n),
        0 <= n <= crate::io::MAX_PATIENTS as int,
    ensures
        crate::evaluate::routes_ok(rs, n),
        forall|k: int| 0 <= k < rs.len() ==> (#[trigger] rs[k]).len() <= n,
{
    broadcast use vstd::multiset::group_multiset_axioms;
    broadcast use vstd::seq_lib::group_to_multiset_ensures;

    lemma_full_mset_len(n);
    assert forall|k: int| 0 <= k < rs.len() implies (#[trigger] rs[k]).len() <= n by {
        lemma_route_mset_le(rs, k);
    }
    assert forall|k: int, i: int|
        0 <= k < rs.len() && 0 <= i < rs[k].len() implies (rs[k][i] as int) < n by {
        lemma_route_mset_le(rs, k);
        let x = rs[k][i];
        assert(rs[k].contains(x));
        assert(rs[k].to_multiset().count(x) > 0);
        assert(routes_mset(rs).count(x) > 0);
        lemma_full_mset_count(n, x);
    }
    assert forall|k: int| 0 <= k < rs.len() implies crate::evaluate::route_ok(
        #[trigger] rs[k],
        n,
    ) by {
        assert(rs[k].len() <= n <= crate::io::MAX_ROUTE as int);
    }
}

/// Inserts patient `p` at position `pos` of nurse `k`'s route. The
/// candidate's patient multiset gains exactly one occurrence of `p`.
pub(crate) fn nurse_insert(nurses: &mut Vec<Nurse>, k: usize, pos: usize, p: usize)
    requires
        k < old(nurses)@.len(),
        pos <= old(nurses)@[k as int].route@.len(),
    ensures
        final(nurses)@.len() == old(nurses)@.len(),
        forall|j: int|
            0 <= j < old(nurses)@.len() && j != k ==> final(nurses)@[j] == old(nurses)@[j],
        final(nurses)@[k as int].capacity == old(nurses)@[k as int].capacity,
        final(nurses)@[k as int].route@ == old(nurses)@[k as int].route@.insert(pos as int, p),
        routes_of(final(nurses)@) == routes_of(old(nurses)@).update(
            k as int,
            old(nurses)@[k as int].route@.insert(pos as int, p),
        ),
        routes_mset(routes_of(final(nurses)@)) == routes_mset(routes_of(old(nurses)@)).insert(p),
{
    let ghost ors = routes_of(old(nurses)@);
    let ghost r0 = old(nurses)@[k as int].route@;
    let mut tmp = Nurse::new();
    nurses.set_and_swap(k, &mut tmp);
    tmp.route.insert(pos, p);
    nurses.set_and_swap(k, &mut tmp);
    proof {
        broadcast use vstd::multiset::group_multiset_axioms;
        broadcast use vstd::seq_lib::group_to_multiset_ensures;

        let r1 = r0.insert(pos as int, p);
        assert(routes_of(nurses@) =~= ors.update(k as int, r1));
        lemma_replace_route(ors, k as int, r1);
        assert(r1.to_multiset() == r0.to_multiset().insert(p));
        assert forall|v: usize|
            routes_mset(routes_of(nurses@)).count(v) == routes_mset(ors).insert(p).count(
                v,
            ) by {
            assert(routes_mset(ors.update(k as int, r1)).count(v) + r0.to_multiset().count(v)
                == routes_mset(ors).count(v) + r1.to_multiset().count(v));
        }
        assert(routes_mset(routes_of(nurses@)) =~= routes_mset(ors).insert(p));
    }
}

/// Removes and returns the patient at position `pos` of nurse `k`'s route.
/// The candidate's patient multiset loses exactly that one occurrence.
pub(crate) fn nurse_remove(nurses: &mut Vec<Nurse>, k: usize, pos: usize) -> (p: usize)
    requires
        k < old(nurses)@.len(),
        pos < old(nurses)@[k as int].route@.len(),
    ensures
        p == old(nurses)@[k as int].route@[pos as int],
        final(nurses)@.len() == old(nurses)@.len(),
        forall|j: int|
            0 <= j < old(nurses)@.len() && j != k ==> final(nurses)@[j] == old(nurses)@[j],
        final(nurses)@[k as int].capacity == old(nurses)@[k as int].capacity,
        final(nurses)@[k as int].route@ == old(nurses)@[k as int].route@.remove(pos as int),
        routes_of(final(nurses)@) == routes_of(old(nurses)@).update(
            k as int,
            old(nurses)@[k as int].route@.remove(pos as int),
        ),
        routes_mset(routes_of(old(nurses)@)).count(p) >= 1,
        routes_mset(routes_of(final(nurses)@)).insert(p) == routes_mset(routes_of(old(nurses)@)),
{
    let ghost ors = routes_of(old(nurses)@);
    let ghost r0 = old(nurses)@[k as int].route@;
    let mut tmp = Nurse::new();
    nurses.set_and_swap(k, &mut tmp);
    let p = tmp.route.remove(pos);
    nurses.set_and_swap(k, &mut tmp);
    proof {
        broadcast use vstd::multiset::group_multiset_axioms;
        broadcast use vstd::seq_lib::group_to_multiset_ensures;

        let r1 = r0.remove(pos as int);
        assert(routes_of(nurses@) =~= ors.update(k as int, r1));
        lemma_replace_route(ors, k as int, r1);
        assert(r1.to_multiset() == r0.to_multiset().remove(p));
        assert(r0.contains(p));
        assert(r0.to_multiset().count(p) >= 1);
        lemma_route_mset_le(ors, k as int);
        assert(routes_mset(ors).count(p) >= 1);
        assert forall|v: usize|
            routes_mset(routes_of(nurses@)).insert(p).count(v) == routes_mset(ors).count(
                v,
            ) by {
            assert(routes_mset(ors.update(k as int, r1)).count(v) + r0.to_multiset().count(v)
                == routes_mset(ors).count(v) + r1.to_multiset().count(v));
        }
        assert(routes_mset(routes_of(nurses@)).insert(p) =~= routes_mset(ors));
    }
    p
}

/// Swaps the patients at positions `i` and `j` of nurse `k`'s route. The
/// candidate's patient multiset is unchanged.
pub(crate) fn nurse_swap_within(nurses: &mut Vec<Nurse>, k: usize, i: usize, j: usize)
    requires
        k < old(nurses)@.len(),
        i < old(nurses)@[k as int].route@.len(),
        j < old(nurses)@[k as int].route@.len(),
    ensures
        final(nurses)@.len() == old(nurses)@.len(),
        forall|jj: int|
            0 <= jj < old(nurses)@.len() && jj != k ==> final(nurses)@[jj] == old(nurses)@[jj],
        final(nurses)@[k as int].capacity == old(nurses)@[k as int].capacity,
        final(nurses)@[k as int].route@ == old(nurses)@[k as int].route@.update(
            i as int,
            old(nurses)@[k as int].route@[j as int],
        ).update(j as int, old(nurses)@[k as int].route@[i as int]),
        routes_mset(routes_of(final(nurses)@)) == routes_mset(routes_of(old(nurses)@)),
{
    let ghost ors = routes_of(old(nurses)@);
    let ghost r0 = old(nurses)@[k as int].route@;
    let mut tmp = Nurse::new();
    nurses.set_and_swap(k, &mut tmp);
    let a = tmp.route[i];
    let b = tmp.route[j];
    tmp.route.set(i, b);
    tmp.route.set(j, a);
    nurses.set_and_swap(k, &mut tmp);
    proof {
        broadcast use vstd::multiset::group_multiset_axioms;
        broadcast use vstd::seq_lib::group_to_multiset_ensures;

        let r1 = r0.update(i as int, b).update(j as int, a);
        assert(routes_of(nurses@) =~= ors.update(k as int, r1));
        lemma_replace_route(ors, k as int, r1);
        let ru = r0.update(i as int, b);
        assert(ru.to_multiset() == r0.to_multiset().insert(b).remove(r0[i as int]));
        assert(r1.to_multiset() == ru.to_multiset().insert(a).remove(ru[j as int]));
        assert(r0.contains(a) && r0.contains(b));
        assert(r0.to_multiset().count(a) >= 1);
        assert(r0.to_multiset().count(b) >= 1);
        assert forall|v: usize| r1.to_multiset().count(v) == r0.to_multiset().count(v) by {
            if i == j {
            } else {
                assert(ru[j as int] == r0[j as int]);
            }
        }
        assert forall|v: usize|
            routes_mset(routes_of(nurses@)).count(v) == routes_mset(ors).count(v) by {
            assert(routes_mset(ors.update(k as int, r1)).count(v) + r0.to_multiset().count(v)
                == routes_mset(ors).count(v) + r1.to_multiset().count(v));
        }
        assert(routes_mset(routes_of(nurses@)) =~= routes_mset(ors));
    }
}

/// Swaps the patient at position `i1` of nurse `k1`'s route with the patient
/// at position `i2` of nurse `k2`'s route. The candidate's patient multiset
/// is unchanged.
pub(crate) fn nurse_swap_cross(nurses: &mut Vec<Nurse>, k1: usize, i1: usize, k2: usize, i2: usize)
    requires
        k1 < old(nurses)@.len(),
        k2 < old(nurses)@.len(),
        k1 != k2,
        i1 < old(nurses)@[k1 as int].route@.len(),
        i2 < old(nurses)@[k2 as int].route@.len(),
    ensures
        final(nurses)@.len() == old(nurses)@.len(),
        forall|j: int|
            0 <= j < old(nurses)@.len() && j != k1 && j != k2 ==> final(nurses)@[j] == old(
                nurses,
            )@[j],
        final(nurses)@[k1 as int].capacity == old(nurses)@[k1 as int].capacity,
        final(nurses)@[k2 as int].capacity == old(nurses)@[k2 as int].capacity,
        final(nurses)@[k1 as int].route@ == old(nurses)@[k1 as int].route@.update(
            i1 as int,
            old(nurses)@[k2 as int].route@[i2 as int],
        ),
        final(nurses)@[k2 as int].route@ == old(nurses)@[k2 as int].route@.update(
            i2 as int,
            old(nurses)@[k1 as int].route@[i1 as int],
        ),
        routes_mset(routes_of(final(nurses)@)) == routes_mset(routes_of(old(nurses)@)),
{
    let ghost ors = routes_of(old(nurses)@);
    let ghost ra = old(nurses)@[k1 as int].route@;
    let ghost rb = old(nurses)@[k2 as int].route@;
    let a = nurses[k1].route[i1];
    let b = nurses[k2].route[i2];
    let mut tmp = Nurse::new();
    nurses.set_and_swap(k1, &mut tmp);
    tmp.route.set(i1, b);
    nurses.set_and_swap(k1, &mut tmp);
    let mut tmp2 = Nurse::new();
    nurses.set_and_swap(k2, &mut tmp2);
    tmp2.route.set(i2, a);
    nurses.set_and_swap(k2, &mut tmp2);
    proof {
        broadcast use vstd::multiset::group_multiset_axioms;
        broadcast use vstd::seq_lib::group_to_multiset_ensures;

        let ra1 = ra.update(i1 as int, b);
        let rb1 = rb.update(i2 as int, a);
        let mid = ors.update(k1 as int, ra1);
        assert(routes_of(nurses@) =~= mid.update(k2 as int, rb1));
        lemma_replace_route(ors, k1 as int, ra1);
        lemma_replace_route(mid, k2 as int, rb1);
        assert(mid[k2 as int] == rb);
        assert(ra1.to_multiset() == ra.to_multiset().insert(b).remove(ra[i1 as int]));
        assert(rb1.to_multiset() == rb.to_multiset().insert(a).remove(rb[i2 as int]));
        assert(ra.contains(a) && rb.contains(b));
        assert(ra.to_multiset().count(a) >= 1);
        assert(rb.to_multiset().count(b) >= 1);
        assert forall|v: usize|
            routes_mset(routes_of(nurses@)).count(v) == routes_mset(ors).count(v) by {
            assert(routes_mset(mid.update(k2 as int, rb1)).count(v) + rb.to_multiset().count(v)
                == routes_mset(mid).count(v) + rb1.to_multiset().count(v));
            assert(routes_mset(mid).count(v) + ra.to_multiset().count(v) == routes_mset(
                ors,
            ).count(v) + ra1.to_multiset().count(v));
        }
        assert(routes_mset(routes_of(nurses@)) =~= routes_mset(ors));
    }
}

/// Removes the contiguous block `[s, e)` from nurse `k`'s route and returns
/// it in order. The candidate's patient multiset loses exactly the block.
pub(crate) fn nurse_drain_block(nurses: &mut Vec<Nurse>, k: usize, s: usize, e: usize) -> (block:
    Vec<usize>)
    requires
        k < old(nurses)@.len(),
        s <= e <= old(nurses)@[k as int].route@.len(),
    ensures
        final(nurses)@.len() == old(nurses)@.len(),
        forall|j: int|
            0 <= j < old(nurses)@.len() && j != k ==> final(nurses)@[j] == old(nurses)@[j],
        final(nurses)@[k as int].capacity == old(nurses)@[k as int].capacity,
        block@ == old(nurses)@[k as int].route@.subrange(s as int, e as int),
        final(nurses)@[k as int].route@ == old(nurses)@[k as int].route@.subrange(0, s as int)
            + old(nurses)@[k as int].route@.subrange(
            e as int,
            old(nurses)@[k as int].route@.len() as int,
        ),
        routes_of(final(nurses)@) == routes_of(old(nurses)@).update(
            k as int,
            final(nurses)@[k as int].route@,
        ),
        routes_mset(routes_of(final(nurses)@)).add(block@.to_multiset()) == routes_mset(
            routes_of(old(nurses)@),
        ),
{
    let ghost ors = routes_of(old(nurses)@);
    let ghost r0 = old(nurses)@[k as int].route@;
    let ghost len0 = r0.len() as int;
    let mut tmp = Nurse::new();
    nurses.set_and_swap(k, &mut tmp);
    let mut block: Vec<usize> = Vec::new();
    let count = e - s;
    let mut c: usize = 0;
    while c < count
        invariant
            tmp.capacity == old(nurses)@[k as int].capacity,
            c <= count,
            count == e - s,
            s <= e <= len0,
            r0.len() == len0,
            block@ == r0.subrange(s as int, s as int + c as int),
            tmp.route@ == r0.subrange(0, s as int) + r0.subrange(s as int + c as int, len0),
        decreases count - c,
    {
        proof {
            assert(tmp.route@[s as int] == r0[s as int + c as int]);
        }
        let p = tmp.route.remove(s);
        block.push(p);
        proof {
            assert(block@ =~= r0.subrange(s as int, s as int + c as int + 1));
            assert(tmp.route@ =~= r0.subrange(0, s as int) + r0.subrange(
                s as int + c as int + 1,
                len0,
            ));
        }
        c += 1;
    }
    nurses.set_and_swap(k, &mut tmp);
    proof {
        broadcast use vstd::multiset::group_multiset_axioms;
        broadcast use vstd::seq_lib::group_to_multiset_ensures;
        broadcast use vstd::seq_lib::lemma_multiset_commutative;

        let pre = r0.subrange(0, s as int);
        let mid = r0.subrange(s as int, e as int);
        let post = r0.subrange(e as int, len0);
        let r1 = pre + post;
        assert(routes_of(nurses@) =~= ors.update(k as int, r1));
        lemma_replace_route(ors, k as int, r1);
        assert(r0 =~= (pre + mid) + post);
        assert(((pre + mid) + post).to_multiset() == (pre + mid).to_multiset().add(
            post.to_multiset(),
        ));
        assert((pre + mid).to_multiset() == pre.to_multiset().add(mid.to_multiset()));
        assert((pre + post).to_multiset() == pre.to_multiset().add(post.to_multiset()));
        assert forall|v: usize|
            routes_mset(routes_of(nurses@)).add(mid.to_multiset()).count(v) == routes_mset(
                ors,
            ).count(v) by {
            assert(routes_mset(ors.update(k as int, r1)).count(v) + r0.to_multiset().count(v)
                == routes_mset(ors).count(v) + r1.to_multiset().count(v));
        }
        assert(routes_mset(routes_of(nurses@)).add(mid.to_multiset()) =~= routes_mset(ors));
    }
    block
}

/// Inserts `block` as a contiguous run starting at position `pos` of nurse
/// `k`'s route. The candidate's patient multiset gains exactly the block.
pub(crate) fn nurse_insert_block(nurses: &mut Vec<Nurse>, k: usize, pos: usize, block: &Vec<usize>)
    requires
        k < old(nurses)@.len(),
        pos <= old(nurses)@[k as int].route@.len(),
        old(nurses)@[k as int].route@.len() + block@.len() <= usize::MAX,
    ensures
        final(nurses)@.len() == old(nurses)@.len(),
        forall|j: int|
            0 <= j < old(nurses)@.len() && j != k ==> final(nurses)@[j] == old(nurses)@[j],
        final(nurses)@[k as int].capacity == old(nurses)@[k as int].capacity,
        final(nurses)@[k as int].route@ == old(nurses)@[k as int].route@.subrange(0, pos as int)
            + block@ + old(nurses)@[k as int].route@.subrange(
            pos as int,
            old(nurses)@[k as int].route@.len() as int,
        ),
        routes_of(final(nurses)@) == routes_of(old(nurses)@).update(
            k as int,
            final(nurses)@[k as int].route@,
        ),
        routes_mset(routes_of(final(nurses)@)) == routes_mset(routes_of(old(nurses)@)).add(
            block@.to_multiset(),
        ),
{
    let ghost ors = routes_of(old(nurses)@);
    let ghost r0 = old(nurses)@[k as int].route@;
    let ghost len0 = r0.len() as int;
    let mut tmp = Nurse::new();
    nurses.set_and_swap(k, &mut tmp);
    let mut i: usize = 0;
    while i < block.len()
        invariant
            tmp.capacity == old(nurses)@[k as int].capacity,
            i <= block@.len(),
            pos <= len0,
            r0.len() == len0,
            pos + i <= tmp.route@.len(),
            tmp.route@.len() == len0 + i,
            len0 + block@.len() <= usize::MAX,
            tmp.route@ == r0.subrange(0, pos as int) + block@.subrange(0, i as int) + r0.subrange(
                pos as int,
                len0,
            ),
        decreases block@.len() - i,
    {
        tmp.route.insert(pos + i, block[i]);
        proof {
            assert(tmp.route@ =~= r0.subrange(0, pos as int) + block@.subrange(0, i as int + 1)
                + r0.subrange(pos as int, len0));
        }
        i += 1;
    }
    proof {
        assert(block@.subrange(0, block@.len() as int) =~= block@);
    }
    nurses.set_and_swap(k, &mut tmp);
    proof {
        broadcast use vstd::multiset::group_multiset_axioms;
        broadcast use vstd::seq_lib::group_to_multiset_ensures;
        broadcast use vstd::seq_lib::lemma_multiset_commutative;

        let pre = r0.subrange(0, pos as int);
        let post = r0.subrange(pos as int, len0);
        let r1 = pre + block@ + post;
        assert(routes_of(nurses@) =~= ors.update(k as int, r1));
        lemma_replace_route(ors, k as int, r1);
        assert(r0 =~= pre + post);
        assert((pre + post).to_multiset() == pre.to_multiset().add(post.to_multiset()));
        assert(((pre + block@) + post).to_multiset() == (pre + block@).to_multiset().add(
            post.to_multiset(),
        ));
        assert((pre + block@).to_multiset() == pre.to_multiset().add(block@.to_multiset()));
        assert forall|v: usize|
            routes_mset(routes_of(nurses@)).count(v) == routes_mset(ors).add(
                block@.to_multiset(),
            ).count(v) by {
            assert(routes_mset(ors.update(k as int, r1)).count(v) + r0.to_multiset().count(v)
                == routes_mset(ors).count(v) + r1.to_multiset().count(v));
        }
        assert(routes_mset(routes_of(nurses@)) =~= routes_mset(ors).add(block@.to_multiset()));
    }
}

} // verus!
