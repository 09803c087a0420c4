//! Properties of every exploration result.
use vstd::prelude::*;

use crate::explore::{dead_ids, discovered, discovered_paths, explored, is_run, reachable, reachable_set, Lts};
use crate::model::{DdsvError, SEdge, SState};
use crate::successors::Successors;

verus! {

/// Every state of the transition system is reachable from the start state
/// by zero or more steps.
pub proof fn lemma_soundness<T, N: Successors<T>>(
    l: Lts<T>,
    nx: N,
    s0: SState<T>,
    label0: Seq<char>,
)
    requires
        explored(l, nx, s0, label0),
    ensures
        forall|i: int| 0 <= i < l.states@.len() ==> #[trigger] reachable(nx, s0, l.states_v()[i]),
{
}

/// The outgoing list of every state is exactly what the enabled-transitions
/// function gives on it, in the same order (so also as multisets).
pub proof fn lemma_completeness<T, N: Successors<T>>(
    l: Lts<T>,
    nx: N,
    s0: SState<T>,
    label0: Seq<char>,
)
    requires
        explored(l, nx, s0, label0),
    ensures
        forall|i: int| 0 <= i < l.states@.len() ==> {
            &&& #[trigger] nx.step(l.states_v()[i]) matches Ok(es)
            &&& es == l.outs_v()[i]
            &&& es.to_multiset() == l.outs_v()[i].to_multiset()
        },
{
}

/// Once `n` expansions leave nothing new, no later one adds anything.
proof fn lemma_discovered_stable<T, N: Successors<T>>(
    nx: N,
    s0: SState<T>,
    n: nat,
    m: nat,
)
    requires
        discovered(nx, s0, n).len() == n,
        n <= m,
    ensures
        discovered(nx, s0, m) == discovered(nx, s0, n),
    decreases m - n,
{
    if n < m {
        lemma_discovered_stable(nx, s0, n, (m - 1) as nat);
    }
}

/// Two explorations from the same start state of the same processes give
/// the same states with the same ids, the same outgoing lists in the same
/// order, and the same deadlock paths.
pub proof fn lemma_determinism<T, N: Successors<T>>(
    l1: Lts<T>,
    l2: Lts<T>,
    nx: N,
    s0: SState<T>,
    label0: Seq<char>,
)
    requires
        explored(l1, nx, s0, label0),
        explored(l2, nx, s0, label0),
    ensures
        l1.states_v() == l2.states_v(),
        l1.outs_v() == l2.outs_v(),
        l1.deadlocks_v() == l2.deadlocks_v(),
{
    let n1 = l1.states@.len() as nat;
    let n2 = l2.states@.len() as nat;
    if n1 <= n2 {
        lemma_discovered_stable(nx, s0, n1, n2);
    } else {
        lemma_discovered_stable(nx, s0, n2, n1);
    }
    assert(l1.states_v() == l2.states_v());
    assert forall|i: int| 0 <= i < l1.outs_v().len() implies l1.outs_v()[i] == l2.outs_v()[i] by {
        assert(nx.step(l1.states_v()[i]) == Ok::<_, DdsvError>(l1.outs_v()[i]));
        assert(nx.step(l2.states_v()[i]) == Ok::<_, DdsvError>(l2.outs_v()[i]));
    }
    assert(l1.outs_v() =~= l2.outs_v());
    assert forall|m: int| 0 <= m < l1.deadlocks_v().len() implies l1.deadlocks_v()[m] == l2.deadlocks_v()[m] by {
        assert(l1.deadlocks_v()[m] == discovered_paths(nx, s0, label0, n1)[dead_ids(l1.outs_v())[m]]);
        assert(l2.deadlocks_v()[m] == discovered_paths(nx, s0, label0, n2)[dead_ids(l2.outs_v())[m]]);
    }
    assert(l1.deadlocks_v() =~= l2.deadlocks_v());
}

/// `dead_ids` lists, in increasing order, exactly the positions of empty lists.
pub proof fn lemma_dead_ids<T>(outs: Seq<Seq<SEdge<T>>>)
    ensures
        forall|m: int| 0 <= m < dead_ids(outs).len() ==> {
            &&& 0 <= #[trigger] dead_ids(outs)[m] < outs.len()
            &&& outs[dead_ids(outs)[m]].len() == 0
        },
        forall|m1: int, m2: int|
            0 <= m1 < m2 < dead_ids(outs).len() ==> #[trigger] dead_ids(outs)[m1] < #[trigger] dead_ids(outs)[m2],
        forall|i: int| 0 <= i < outs.len() && #[trigger] outs[i].len() == 0 ==> dead_ids(outs).contains(i),
    decreases outs.len(),
{
    if outs.len() > 0 {
        let prev = outs.drop_last();
        lemma_dead_ids(prev);
        assert forall|i: int| 0 <= i < outs.len() && #[trigger] outs[i].len() == 0 implies dead_ids(outs).contains(i) by {
            if i < outs.len() - 1 {
                assert(prev[i] == outs[i]);
                let m = choose|m: int| 0 <= m < dead_ids(prev).len() && dead_ids(prev)[m] == i;
                assert(dead_ids(outs)[m] == i);
            } else {
                assert(dead_ids(outs).last() == i);
            }
        }
        assert forall|m: int| 0 <= m < dead_ids(outs).len() implies {
            &&& 0 <= #[trigger] dead_ids(outs)[m] < outs.len()
            &&& outs[dead_ids(outs)[m]].len() == 0
        } by {
            if m < dead_ids(prev).len() {
                assert(prev[dead_ids(prev)[m]] == outs[dead_ids(prev)[m]]);
            }
        }
    }
}

/// A state is reported as a deadlock exactly when its outgoing list is
/// empty, once, and the reports come in order of node id.
pub proof fn lemma_deadlock_characterization<T, N: Successors<T>>(
    l: Lts<T>,
    nx: N,
    s0: SState<T>,
    label0: Seq<char>,
)
    requires
        explored(l, nx, s0, label0),
    ensures
        forall|i: int| 0 <= i < l.states@.len() ==> (#[trigger] l.outs_v()[i].len() == 0 <==> exists|m: int|
            0 <= m < l.deadlocks@.len() && l.deadlocks_v()[m].last().1 == l.states_v()[i]),
        forall|m1: int, m2: int| 0 <= m1 < m2 < l.deadlocks@.len() ==> l.deadlocks_v()[m1].last().1
            != l.deadlocks_v()[m2].last().1,
{
    let ov = l.outs_v();
    let sv = l.states_v();
    let dv = l.deadlocks_v();
    let dl = dead_ids(ov);
    lemma_dead_ids(ov);
    assert forall|i: int| 0 <= i < l.states@.len() implies (#[trigger] ov[i].len() == 0 <==> exists|m: int|
        0 <= m < l.deadlocks@.len() && dv[m].last().1 == sv[i]) by {
        if ov[i].len() == 0 {
            let m = choose|m: int| 0 <= m < dl.len() && dl[m] == i;
            assert(dv[m].last().1 == sv[i]);
        }
        if exists|m: int| 0 <= m < l.deadlocks@.len() && dv[m].last().1 == sv[i] {
            let m = choose|m: int| 0 <= m < l.deadlocks@.len() && dv[m].last().1 == sv[i];
            assert(sv[dl[m]] == sv[i]);
            assert(dl[m] == i);
        }
    }
    assert forall|m1: int, m2: int| 0 <= m1 < m2 < l.deadlocks@.len() implies dv[m1].last().1 != dv[m2].last().1 by {
        assert(dl[m1] < dl[m2]);
    }
}

/// Every deadlock path starts at the start state, takes enabled steps only,
/// and ends at a state whose outgoing list is empty.
pub proof fn lemma_path_validity<T, N: Successors<T>>(
    l: Lts<T>,
    nx: N,
    s0: SState<T>,
    label0: Seq<char>,
)
    requires
        explored(l, nx, s0, label0),
    ensures
        forall|m: int| 0 <= m < l.deadlocks@.len() ==> {
            let p = #[trigger] l.deadlocks_v()[m];
            &&& p.len() >= 1
            &&& p[0] == (label0, s0)
            &&& forall|i: int| 0 <= i < p.len() - 1 ==> (#[trigger] nx.step(p[i].1) matches Ok(es)
                && es.contains(p[i + 1]))
            &&& exists|j: int| 0 <= j < l.states@.len() && l.states_v()[j] == p.last().1 && l.outs_v()[j].len() == 0
        },
{
    lemma_dead_ids(l.outs_v());
    assert forall|m: int| 0 <= m < l.deadlocks@.len() implies exists|j: int|
        0 <= j < l.states@.len() && l.states_v()[j] == (#[trigger] l.deadlocks_v()[m]).last().1
            && l.outs_v()[j].len() == 0 by {
        let j = dead_ids(l.outs_v())[m];
        assert(is_run(nx, s0, l.deadlocks_v()[m]));
    }
    assert forall|m: int| 0 <= m < l.deadlocks@.len() implies is_run(nx, s0, #[trigger] l.deadlocks_v()[m]) by {
    }
}

/// Where at most `k` states are reachable, exploration stops after at most
/// `k` evaluations of the enabled-transitions function, one per state found.
pub proof fn lemma_bounded_exploration<T, N: Successors<T>>(
    l: Lts<T>,
    nx: N,
    s0: SState<T>,
    label0: Seq<char>,
    k: nat,
)
    requires
        explored(l, nx, s0, label0),
        reachable_set(nx, s0).finite(),
        reachable_set(nx, s0).len() <= k,
    ensures
        l.outgoing@.len() == l.states@.len(),
        l.states@.len() <= k,
{
}

} // verus!
