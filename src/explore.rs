//! Breadth-first exploration of the composed state space.
use vstd::prelude::*;

use crate::model::{
    edge_view, edges_view, locs_view, pure_processes, state_view, states_view, valuation_laws,
    DdsvError, Label, Path, Process, SEdge, SState, State,
};
use crate::successors::{copy_locations, initial_spec, make_initial_state, Composition, Successors};

verus! {

/// `p` is a run from `s0`: it starts at `s0`, and each step is one of the
/// enabled steps of the state before it.
pub open spec fn is_run<T, N: Successors<T>>(
    nx: N,
    s0: SState<T>,
    p: Seq<SEdge<T>>,
) -> bool {
    &&& p.len() >= 1
    &&& p[0].1 == s0
    &&& forall|i: int|
        0 <= i < p.len() - 1 ==> (#[trigger] nx.step(p[i].1) matches Ok(es) && es.contains(p[i + 1]))
}

/// `s` can be reached from `s0` by zero or more steps.
pub open spec fn reachable<T, N: Successors<T>>(
    nx: N,
    s0: SState<T>,
    s: SState<T>,
) -> bool {
    exists|p: Seq<SEdge<T>>| is_run(nx, s0, p) && p.last().1 == s
}

/// All states reachable from `s0`.
pub open spec fn reachable_set<T, N: Successors<T>>(
    nx: N,
    s0: SState<T>,
) -> Set<SState<T>> {
    Set::new(|s: SState<T>| reachable(nx, s0, s))
}

/// `xs` followed by the targets of `es` that are new, in order of first appearance.
pub open spec fn append_new<T>(xs: Seq<SState<T>>, es: Seq<SEdge<T>>) -> Seq<SState<T>>
    decreases es.len(),
{
    if es.len() == 0 {
        xs
    } else {
        let ys = append_new(xs, es.drop_last());
        if ys.contains(es.last().1) {
            ys
        } else {
            ys.push(es.last().1)
        }
    }
}

/// The states discovered once the first `k` of them have been expanded,
/// in order of discovery.
pub open spec fn discovered<T, N: Successors<T>>(
    nx: N,
    s0: SState<T>,
    k: nat,
) -> Seq<SState<T>>
    decreases k,
{
    if k == 0 {
        seq![s0]
    } else {
        let d = discovered(nx, s0, (k - 1) as nat);
        if k - 1 < d.len() {
            match nx.step(d[k - 1]) {
                Ok(es) => append_new(d, es),
                Err(_) => d,
            }
        } else {
            d
        }
    }
}

/// `qs` extended, for each target of `es` that is new to `xs` and to the
/// targets before it, by the path `base` followed by the step to it.
pub open spec fn append_new_paths<T>(
    xs: Seq<SState<T>>,
    qs: Seq<Seq<SEdge<T>>>,
    es: Seq<SEdge<T>>,
    base: Seq<SEdge<T>>,
) -> Seq<Seq<SEdge<T>>>
    decreases es.len(),
{
    if es.len() == 0 {
        qs
    } else {
        let rs = append_new_paths(xs, qs, es.drop_last(), base);
        if append_new(xs, es.drop_last()).contains(es.last().1) {
            rs
        } else {
            rs.push(base.push(es.last()))
        }
    }
}

/// The first-discovery paths of the states of `discovered(nx, s0, k)`, by
/// position: the path of the state whose expansion first found a state,
/// followed by the first step to it.
pub open spec fn discovered_paths<T, N: Successors<T>>(
    nx: N,
    s0: SState<T>,
    label0: Seq<char>,
    k: nat,
) -> Seq<Seq<SEdge<T>>>
    decreases k,
{
    if k == 0 {
        seq![seq![(label0, s0)]]
    } else {
        let d = discovered(nx, s0, (k - 1) as nat);
        let q = discovered_paths(nx, s0, label0, (k - 1) as nat);
        if k - 1 < d.len() {
            match nx.step(d[k - 1]) {
                Ok(es) => append_new_paths(d, q, es, q[k - 1]),
                Err(_) => q,
            }
        } else {
            q
        }
    }
}

/// Node ids whose outgoing list is empty, in increasing order.
pub open spec fn dead_ids<T>(outs: Seq<Seq<SEdge<T>>>) -> Seq<int>
    decreases outs.len(),
{
    if outs.len() == 0 {
        seq![]
    } else {
        let prev = dead_ids(outs.drop_last());
        if outs.last().len() == 0 {
            prev.push(outs.len() - 1)
        } else {
            prev
        }
    }
}

/// A labelled transition system: node `i` is `states[i]`, its outgoing
/// edges are `outgoing[i]`, and each deadlock comes with the path that
/// first reached it.
pub struct Lts<T> {
    pub states: Vec<State<T>>,
    pub outgoing: Vec<Vec<(Label, State<T>)>>,
    pub deadlocks: Vec<Path<T>>,
}

/// Outgoing lists as mathematical values.
pub open spec fn outs_view<T>(outs: Seq<Vec<(Label, State<T>)>>) -> Seq<Seq<SEdge<T>>> {
    outs.map_values(|o: Vec<(Label, State<T>)>| edges_view(o@))
}

/// Paths as mathematical values.
pub open spec fn paths_view<T>(ps: Seq<Path<T>>) -> Seq<Seq<SEdge<T>>> {
    ps.map_values(|p: Path<T>| edges_view(p@))
}

impl<T> Lts<T> {
    /// The states, by node id.
    pub open spec fn states_v(&self) -> Seq<SState<T>> {
        states_view(self.states@)
    }

    /// The outgoing lists, by node id.
    pub open spec fn outs_v(&self) -> Seq<Seq<SEdge<T>>> {
        outs_view(self.outgoing@)
    }

    /// The deadlock paths, in order of report.
    pub open spec fn deadlocks_v(&self) -> Seq<Seq<SEdge<T>>> {
        paths_view(self.deadlocks@)
    }
}

/// A copy of `s`.
pub fn clone_state<T: Clone + PartialEq>(s: &State<T>) -> (r: State<T>)
    requires
        valuation_laws::<T>(),
    ensures
        state_view(r) == state_view(*s),
{
    let v = s.0.clone();
    assert(cloned::<T>(s.0, v));
    (v, copy_locations(s.1.as_slice()))
}

/// A copy of `p`.
pub fn clone_path<T: Clone + PartialEq>(p: &Path<T>) -> (r: Path<T>)
    requires
        valuation_laws::<T>(),
    ensures
        edges_view(r@) == edges_view(p@),
{
    let mut r: Path<T> = Vec::new();
    let mut i: usize = 0;
    while i < p.len()
        invariant
            0 <= i <= p@.len(),
            valuation_laws::<T>(),
            edges_view(r@) == edges_view(p@.subrange(0, i as int)),
        decreases p@.len() - i,
    {
        let step = (p[i].0.clone(), clone_state(&p[i].1));
        let ghost before = r@;
        r.push(step);
        i = i + 1;
        assert(edges_view(r@) =~= edges_view(before).push(edge_view(p@[i - 1])));
        assert(edges_view(p@.subrange(0, i as int)) =~= edges_view(p@.subrange(0, i - 1)).push(
            edge_view(p@[i - 1])));
    }
    assert(p@.subrange(0, p@.len() as int) =~= p@);
    r
}

/// Whether two composite states are the same value.
pub fn same_state<T: Clone + PartialEq>(a: &State<T>, b: &State<T>) -> (r: bool)
    requires
        valuation_laws::<T>(),
    ensures
        r == (state_view(*a) == state_view(*b)),
{
    let eq_r = a.0 == b.0;
    assert(eq_r == (a.0 == b.0)) by {
        reveal(vstd::laws_eq::obeys_concrete_eq);
    }
    if !eq_r {
        return false;
    }
    if a.1.len() != b.1.len() {
        assert(locs_view(a.1@).len() != locs_view(b.1@).len());
        return false;
    }
    let mut i: usize = 0;
    while i < a.1.len()
        invariant
            0 <= i <= a.1@.len(),
            a.1@.len() == b.1@.len(),
            a.0 == b.0,
            forall|j: int| 0 <= j < i ==> (#[trigger] a.1@[j])@ == b.1@[j]@,
        decreases a.1@.len() - i,
    {
        if a.1[i] != b.1[i] {
            assert(locs_view(a.1@)[i as int] != locs_view(b.1@)[i as int]);
            return false;
        }
        i = i + 1;
    }
    assert(locs_view(a.1@) =~= locs_view(b.1@));
    true
}

/// The node id of `s` in `states`, if it is there.
pub fn find_state<T: Clone + PartialEq>(states: &Vec<State<T>>, s: &State<T>) -> (r: Option<usize>)
    requires
        valuation_laws::<T>(),
    ensures
        match r {
            None => !states_view(states@).contains(state_view(*s)),
            Some(i) => i < states@.len() && states_view(states@)[i as int] == state_view(*s),
        },
{
    let mut i: usize = 0;
    while i < states.len()
        invariant
            0 <= i <= states@.len(),
            valuation_laws::<T>(),
            forall|j: int| 0 <= j < i ==> states_view(states@)[j] != state_view(*s),
        decreases states@.len() - i,
    {
        if same_state(&states[i], s) {
            return Some(i);
        }
        i = i + 1;
    }
    None
}

/// Appending new targets keeps what was there, in place.
pub proof fn lemma_append_new_extends<T>(xs: Seq<SState<T>>, es: Seq<SEdge<T>>)
    ensures
        append_new(xs, es).len() >= xs.len(),
        append_new(xs, es).subrange(0, xs.len() as int) == xs,
    decreases es.len(),
{
    if es.len() > 0 {
        lemma_append_new_extends(xs, es.drop_last());
        let ys = append_new(xs, es.drop_last());
        assert(ys.push(es.last().1).subrange(0, xs.len() as int) =~= ys.subrange(0, xs.len() as int));
    }
}

/// Appending new paths keeps the paths that were there, in place.
pub proof fn lemma_append_new_paths_extends<T>(
    xs: Seq<SState<T>>,
    qs: Seq<Seq<SEdge<T>>>,
    es: Seq<SEdge<T>>,
    base: Seq<SEdge<T>>,
)
    ensures
        append_new_paths(xs, qs, es, base).len() >= qs.len(),
        append_new_paths(xs, qs, es, base).subrange(0, qs.len() as int) == qs,
    decreases es.len(),
{
    if es.len() > 0 {
        lemma_append_new_paths_extends(xs, qs, es.drop_last(), base);
        let rs = append_new_paths(xs, qs, es.drop_last(), base);
        assert(rs.push(base.push(es.last())).subrange(0, qs.len() as int) =~= rs.subrange(0, qs.len() as int));
    }
}

/// A sequence without repetition inside a finite set is no longer than it.
proof fn lemma_distinct_within<T>(xs: Seq<T>, s: Set<T>)
    requires
        xs.no_duplicates(),
        s.finite(),
        forall|i: int| 0 <= i < xs.len() ==> s.contains(#[trigger] xs[i]),
    ensures
        xs.len() <= s.len(),
{
    xs.unique_seq_to_set();
    assert(xs.to_set().subset_of(s));
    vstd::set_lib::lemma_len_subset(xs.to_set(), s);
}

/// More than `m` distinct states are reachable from `s0`.
pub open spec fn more_reachable_than<T, N: Successors<T>>(
    nx: N,
    s0: SState<T>,
    m: nat,
) -> bool {
    exists|xs: Seq<SState<T>>|
        xs.len() > m && xs.no_duplicates() && forall|i: int| 0 <= i < xs.len() ==> #[trigger] reachable(nx, s0, xs[i])
}

/// The exploration result for start state `s0` and first label `label0`.
pub open spec fn explored<T, N: Successors<T>>(
    l: Lts<T>,
    nx: N,
    s0: SState<T>,
    label0: Seq<char>,
) -> bool {
    let n = l.states@.len();
    let sv = l.states_v();
    let ov = l.outs_v();
    let dv = l.deadlocks_v();
    let dl = dead_ids(ov);
    &&& n >= 1
    &&& sv[0] == s0
    &&& l.outgoing@.len() == n
    &&& sv.no_duplicates()
    &&& sv == discovered(nx, s0, n as nat)
    &&& discovered(nx, s0, n as nat).len() == n
    &&& forall|i: int| 0 <= i < n ==> #[trigger] nx.step(sv[i]) == Ok::<_, DdsvError>(ov[i])
    &&& forall|i: int, e: SEdge<T>| 0 <= i < n && #[trigger] ov[i].contains(e) ==> sv.contains(e.1)
    &&& forall|i: int| 0 <= i < n ==> #[trigger] reachable(nx, s0, sv[i])
    &&& reachable_set(nx, s0).finite()
    &&& n <= reachable_set(nx, s0).len()
    &&& dv.len() == dl.len()
    &&& forall|m: int| 0 <= m < dv.len() ==> {
        &&& is_run(nx, s0, #[trigger] dv[m])
        &&& dv[m][0] == (label0, s0)
        &&& dv[m].last().1 == sv[dl[m]]
        &&& dv[m] == discovered_paths(nx, s0, label0, n as nat)[dl[m]]
    }
}

/// A run stays inside a set of states that holds `s0` and is closed under steps.
proof fn lemma_run_stays_inside<T, N: Successors<T>>(
    nx: N,
    s0: SState<T>,
    sv: Seq<SState<T>>,
    ov: Seq<Seq<SEdge<T>>>,
    p: Seq<SEdge<T>>,
    idx: int,
)
    requires
        sv.len() == ov.len(),
        sv.contains(s0),
        forall|i: int| 0 <= i < sv.len() ==> #[trigger] nx.step(sv[i]) == Ok::<_, DdsvError>(ov[i]),
        forall|i: int, e: SEdge<T>| 0 <= i < sv.len() && #[trigger] ov[i].contains(e) ==> sv.contains(e.1),
        is_run(nx, s0, p),
        0 <= idx < p.len(),
    ensures
        sv.contains(p[idx].1),
    decreases idx,
{
    if idx > 0 {
        lemma_run_stays_inside(nx, s0, sv, ov, p, idx - 1);
        let i = choose|i: int| 0 <= i < sv.len() && sv[i] == p[idx - 1].1;
        assert(nx.step(p[idx - 1].1) matches Ok(es) && es.contains(p[idx]));
        assert(ov[i].contains(p[idx]));
    }
}

/// A run extended by one enabled step of its last state is a run.
proof fn lemma_run_extends<T, N: Successors<T>>(
    nx: N,
    s0: SState<T>,
    p: Seq<SEdge<T>>,
    es: Seq<SEdge<T>>,
    j: int,
)
    requires
        is_run(nx, s0, p),
        nx.step(p.last().1) == Ok::<_, DdsvError>(es),
        0 <= j < es.len(),
    ensures
        is_run(nx, s0, p.push(es[j])),
        reachable(nx, s0, es[j].1),
{
    let p2 = p.push(es[j]);
    assert(es.contains(es[j]));
    assert forall|i: int| 0 <= i < p2.len() - 1 implies (#[trigger] nx.step(p2[i].1) matches Ok(es2)
        && es2.contains(p2[i + 1])) by {
        if i < p.len() - 1 {
            assert(p2[i] == p[i] && p2[i + 1] == p[i + 1]);
        } else {
            assert(p2[i] == p.last());
        }
    }
    assert(p2.last().1 == es[j].1);
}

/// Distinct reachable states, one more than `m`, witness that more than
/// `m` states are reachable.
proof fn lemma_one_more<T, N: Successors<T>>(
    nx: N,
    s0: SState<T>,
    pv: Seq<Seq<SEdge<T>>>,
    sv: Seq<SState<T>>,
    p: Seq<SEdge<T>>,
    m: nat,
)
    requires
        sv.len() >= m,
        pv.len() == sv.len(),
        sv.no_duplicates(),
        forall|i: int| 0 <= i < sv.len() ==> is_run(nx, s0, #[trigger] pv[i]),
        forall|i: int| 0 <= i < sv.len() ==> (#[trigger] pv[i]).last().1 == sv[i],
        is_run(nx, s0, p),
        !sv.contains(p.last().1),
    ensures
        more_reachable_than(nx, s0, m),
        reachable_set(nx, s0).finite() ==> reachable_set(nx, s0).len() > m,
{
    let xs = sv.push(p.last().1);
    assert forall|i: int| 0 <= i < xs.len() implies #[trigger] reachable(nx, s0, xs[i]) by {
        if i < sv.len() {
            assert(is_run(nx, s0, pv[i]));
            assert(pv[i].last().1 == xs[i]);
        } else {
            assert(xs[i] == p.last().1);
        }
    }
    assert(xs.no_duplicates());
    if reachable_set(nx, s0).finite() {
        assert forall|i: int| 0 <= i < xs.len() implies reachable_set(nx, s0).contains(#[trigger] xs[i]) by {
            assert(reachable(nx, s0, xs[i]));
        }
        lemma_distinct_within(xs, reachable_set(nx, s0));
    }
}

/// Explores every state reachable from `s0` breadth-first.  Node ids follow
/// the order of discovery; the states not yet expanded, `states[k..]`, are
/// the work queue, expanded first in first out.  The enabled-transitions
/// function is evaluated once per state found.  With `Some(m)` as
/// `max_states`, exploration stops with `StateSpaceExceeded` when a state
/// beyond the first `m` is found.
pub fn explore<T: Clone + PartialEq, N: Successors<T>>(
    s0: &State<T>,
    next: &N,
    label0: &str,
    max_states: Option<usize>,
) -> (result: Result<Lts<T>, DdsvError>)
    requires
        next.ready(),
        valuation_laws::<T>(),
        max_states is None ==> reachable_set(*next, state_view(*s0)).finite(),
    ensures
        result is Ok <==> {
            &&& forall|s: SState<T>| reachable(*next, state_view(*s0), s) ==> #[trigger] next.step(s) is Ok
            &&& (max_states matches Some(m) ==> reachable_set(*next, state_view(*s0)).finite()
                && reachable_set(*next, state_view(*s0)).len() <= m)
        },
        result matches Ok(l) ==> explored(l, *next, state_view(*s0), label0@),
        result matches Err(e) ==> {
            ||| e == DdsvError::StateSpaceExceeded && (max_states matches Some(m) && more_reachable_than(
                *next,
                state_view(*s0),
                m as nat,
            ))
            ||| exists|s: SState<T>|
                reachable(*next, state_view(*s0), s) && #[trigger] next.step(s) == Err::<Seq<SEdge<T>>, _>(e)
        },
{
    let ghost s0v = state_view(*s0);
    let ghost lab = label0@;
    let mut states: Vec<State<T>> = Vec::new();
    states.push(clone_state(s0));
    let mut first: Path<T> = Vec::new();
    first.push((label0.to_owned(), clone_state(s0)));
    let mut paths: Vec<Path<T>> = Vec::new();
    paths.push(first);
    let mut outgoing: Vec<Vec<(Label, State<T>)>> = Vec::new();
    let mut deadlocks: Vec<Path<T>> = Vec::new();
    proof {
        assert(states_view(states@) =~= seq![s0v]);
        assert(paths_view(paths@)[0] =~= seq![(lab, s0v)]);
        assert(paths_view(paths@) =~= seq![seq![(lab, s0v)]]);
        assert(outs_view(outgoing@) =~= seq![]);
        assert(paths_view(deadlocks@) =~= seq![]);
    }
    if let Some(m) = max_states {
        if m == 0 {
            proof {
                let xs = seq![s0v];
                assert(is_run(*next, s0v, paths_view(paths@)[0]));
                assert(reachable(*next, s0v, xs[0]));
                assert forall|i: int| 0 <= i < xs.len() implies #[trigger] reachable(*next, s0v, xs[i]) by {}
                assert(xs.no_duplicates());
                assert(more_reachable_than(*next, s0v, 0));
                if reachable_set(*next, s0v).finite() {
                    assert(reachable_set(*next, s0v).contains(s0v));
                    assert forall|i: int| 0 <= i < xs.len() implies reachable_set(*next, s0v).contains(#[trigger] xs[i]) by {}
                    lemma_distinct_within(xs, reachable_set(*next, s0v));
                }
            }
            return Err(DdsvError::StateSpaceExceeded);
        }
    }
    let ghost bound: int = match max_states {
        Some(m) => m as int,
        None => reachable_set(*next, s0v).len() as int,
    };
    let mut k: usize = 0;
    while k < states.len()
        invariant
            0 <= k <= states@.len(),
            states@.len() >= 1,
            states_view(states@)[0] == s0v,
            outgoing@.len() == k,
            paths@.len() == states@.len(),
            states_view(states@).no_duplicates(),
            forall|i: int| 0 <= i < k ==> #[trigger] next.step(states_view(states@)[i]) == Ok::<_, DdsvError>(outs_view(outgoing@)[i]),
            forall|i: int, e: SEdge<T>| 0 <= i < k && #[trigger] outs_view(outgoing@)[i].contains(e) ==> states_view(states@).contains(e.1),
            forall|i: int| 0 <= i < states@.len() ==> is_run(*next, s0v, #[trigger] paths_view(paths@)[i]),
            forall|i: int| 0 <= i < states@.len() ==> (#[trigger] paths_view(paths@)[i])[0] == (lab, s0v),
            forall|i: int| 0 <= i < states@.len() ==> (#[trigger] paths_view(paths@)[i]).last().1 == states_view(states@)[i],
            paths_view(deadlocks@).len() == dead_ids(outs_view(outgoing@)).len(),
            forall|m: int| 0 <= m < paths_view(deadlocks@).len() ==> #[trigger] paths_view(deadlocks@)[m] == paths_view(paths@)[dead_ids(outs_view(outgoing@))[m]],
            forall|m: int| 0 <= m < dead_ids(outs_view(outgoing@)).len() ==> 0 <= #[trigger] dead_ids(outs_view(outgoing@))[m] < k,
            states_view(states@) == discovered(*next, s0v, k as nat),
            paths_view(paths@) == discovered_paths(*next, s0v, lab, k as nat),
            s0v == state_view(*s0),
            lab == label0@,
            next.ready(),
            valuation_laws::<T>(),
            max_states is None ==> reachable_set(*next, s0v).finite(),
            max_states matches Some(m) ==> states@.len() <= m,
            bound == match max_states {
                Some(m) => m as int,
                None => reachable_set(*next, s0v).len() as int,
            },
        decreases bound - k,
    {
        proof {
            if max_states is None {
                let sv = states_view(states@);
                assert forall|i: int| 0 <= i < sv.len() implies reachable_set(*next, s0v).contains(#[trigger] sv[i]) by {
                    assert(is_run(*next, s0v, paths_view(paths@)[i]));
                }
                lemma_distinct_within(sv, reachable_set(*next, s0v));
            }
        }
        let ghost d = states_view(states@);
        let ghost dq = paths_view(paths@);
        let found = next.next(&states[k]);
        let trans = match found {
            Ok(v) => v,
            Err(e) => {
                proof {
                    assert(is_run(*next, s0v, paths_view(paths@)[k as int]));
                    assert(reachable(*next, s0v, d[k as int]));
                    assert(next.step(d[k as int]) == Err::<Seq<SEdge<T>>, _>(e));
                }
                return Err(e);
            },
        };
        let ghost es = edges_view(trans@);
        proof {
            assert(next.step(d[k as int]) == Ok::<_, DdsvError>(es));
            assert(es.subrange(0, 0) =~= seq![]);
        }
        let mut j: usize = 0;
        while j < trans.len()
            invariant
                0 <= k <= states@.len(),
                states@.len() >= 1,
                states_view(states@)[0] == s0v,
                outgoing@.len() == k,
                paths@.len() == states@.len(),
                states_view(states@).no_duplicates(),
                forall|i: int| 0 <= i < k ==> #[trigger] next.step(states_view(states@)[i]) == Ok::<_, DdsvError>(outs_view(outgoing@)[i]),
                forall|i: int, e: SEdge<T>| 0 <= i < k && #[trigger] outs_view(outgoing@)[i].contains(e) ==> states_view(states@).contains(e.1),
                forall|i: int| 0 <= i < states@.len() ==> is_run(*next, s0v, #[trigger] paths_view(paths@)[i]),
                forall|i: int| 0 <= i < states@.len() ==> (#[trigger] paths_view(paths@)[i])[0] == (lab, s0v),
                forall|i: int| 0 <= i < states@.len() ==> (#[trigger] paths_view(paths@)[i]).last().1 == states_view(states@)[i],
                paths_view(deadlocks@).len() == dead_ids(outs_view(outgoing@)).len(),
                forall|m: int| 0 <= m < paths_view(deadlocks@).len() ==> #[trigger] paths_view(deadlocks@)[m] == paths_view(paths@)[dead_ids(outs_view(outgoing@))[m]],
                forall|m: int| 0 <= m < dead_ids(outs_view(outgoing@)).len() ==> 0 <= #[trigger] dead_ids(outs_view(outgoing@))[m] < k,
                k < states@.len(),
                0 <= j <= trans@.len(),
                d == discovered(*next, s0v, k as nat),
                k < d.len(),
                es == edges_view(trans@),
                next.step(d[k as int]) == Ok::<_, DdsvError>(es),
                states_view(states@) == append_new(d, es.subrange(0, j as int)),
                dq == discovered_paths(*next, s0v, lab, k as nat),
                k < dq.len(),
                paths_view(paths@) == append_new_paths(d, dq, es.subrange(0, j as int), dq[k as int]),
                forall|i: int| 0 <= i < j ==> states_view(states@).contains(#[trigger] es[i].1),
                s0v == state_view(*s0),
                valuation_laws::<T>(),
                max_states matches Some(m) ==> states@.len() <= m,
            decreases trans@.len() - j,
        {
            proof {
                lemma_append_new_extends(d, es.subrange(0, j as int));
                lemma_append_new_paths_extends(d, dq, es.subrange(0, j as int), dq[k as int]);
                assert(paths_view(paths@).subrange(0, dq.len() as int)[k as int] == dq[k as int]);
                assert(states_view(states@)[k as int] == d[k as int]);
            }
            let ghost sv = states_view(states@);
            let ghost pv = paths_view(paths@);
            let target = &trans[j].1;
            let hit = find_state(&states, target);
            if hit.is_none() {
                let ghost p2 = pv[k as int].push(es[j as int]);
                proof {
                    lemma_run_extends(*next, s0v, pv[k as int], es, j as int);
                }
                if let Some(m) = max_states {
                    if states.len() >= m {
                        proof {
                            lemma_one_more(*next, s0v, pv, sv, p2, m as nat);
                        }
                        return Err(DdsvError::StateSpaceExceeded);
                    }
                }
                let mut v = clone_path(&paths[k]);
                let ghost vb = edges_view(v@);
                v.push((trans[j].0.clone(), clone_state(target)));
                states.push(clone_state(target));
                paths.push(v);
                proof {
                    assert(edges_view(v@) =~= vb.push(es[j as int]));
                    assert(states_view(states@) =~= sv.push(es[j as int].1));
                    assert(paths_view(paths@) =~= pv.push(vb.push(es[j as int])));
                    assert(vb == pv[k as int]);
                    assert(states_view(states@).no_duplicates());
                    assert forall|i: int, e: SEdge<T>| 0 <= i < k && #[trigger] outs_view(outgoing@)[i].contains(e)
                        implies states_view(states@).contains(e.1) by {
                        assert(sv.contains(e.1));
                        let w = choose|w: int| 0 <= w < sv.len() && sv[w] == e.1;
                        assert(states_view(states@)[w] == e.1);
                    }
                }
            }
            proof {
                let es_j = es.subrange(0, j + 1);
                assert(es_j.drop_last() =~= es.subrange(0, j as int));
                assert(es_j.last() == es[j as int]);
                assert(states_view(states@) == append_new(d, es_j));
                assert(paths_view(paths@) == append_new_paths(d, dq, es_j, dq[k as int]));
                assert forall|i: int| 0 <= i < j + 1 implies states_view(states@).contains(#[trigger] es[i].1) by {
                    if i < j {
                        assert(sv.contains(es[i].1));
                        let w = choose|w: int| 0 <= w < sv.len() && sv[w] == es[i].1;
                        assert(states_view(states@)[w] == es[i].1);
                    } else if hit.is_some() {
                        assert(states_view(states@) == sv);
                    } else {
                        assert(states_view(states@)[sv.len() as int] == es[i].1);
                    }
                }
            }
            j = j + 1;
        }
        let ghost dv0 = paths_view(deadlocks@);
        let ghost ov = outs_view(outgoing@);
        let ghost dl0 = dead_ids(ov);
        if trans.len() == 0 {
            deadlocks.push(clone_path(&paths[k]));
            assert(paths_view(deadlocks@) =~= dv0.push(paths_view(paths@)[k as int]));
        }
        outgoing.push(trans);
        proof {
            assert(es.subrange(0, es.len() as int) =~= es);
            assert(outs_view(outgoing@) =~= ov.push(es));
            assert(outs_view(outgoing@).drop_last() =~= ov);
            let dl = dead_ids(outs_view(outgoing@));
            if es.len() == 0 {
                assert(dl == dl0.push(k as int));
            } else {
                assert(dl == dl0);
            }
            assert forall|e: SEdge<T>| #[trigger] es.contains(e) implies states_view(states@).contains(e.1) by {
                let w = choose|w: int| 0 <= w < es.len() && es[w] == e;
                assert(states_view(states@).contains(es[w].1));
            }
            assert(outs_view(outgoing@)[k as int] == es);
            lemma_append_new_extends(d, es);
            assert forall|i: int| 0 <= i < k + 1 implies #[trigger] next.step(states_view(states@)[i])
                == Ok::<_, DdsvError>(outs_view(outgoing@)[i]) by {
                assert(states_view(states@).subrange(0, d.len() as int)[i] == d[i]);
                if i < k {
                    assert(outs_view(outgoing@)[i] == ov[i]);
                }
            }
        }
        k = k + 1;
    }
    let lts = Lts { states, outgoing, deadlocks };
    proof {
        let sv = lts.states_v();
        let ov = lts.outs_v();
        assert forall|i: int| 0 <= i < sv.len() implies #[trigger] reachable(*next, s0v, sv[i]) by {
            assert(is_run(*next, s0v, paths_view(paths@)[i]));
        }
        assert forall|i: int| 0 <= i < sv.len() implies reachable_set(*next, s0v).contains(#[trigger] sv[i]) by {
            assert(reachable(*next, s0v, sv[i]));
        }
        assert forall|s: SState<T>| reachable(*next, s0v, s) implies sv.contains(s) && #[trigger] next.step(s) is Ok by {
            let p = choose|p: Seq<SEdge<T>>| is_run(*next, s0v, p) && p.last().1 == s;
            assert(sv[0] == s0v);
            lemma_run_stays_inside(*next, s0v, sv, ov, p, p.len() - 1);
            let i = choose|i: int| 0 <= i < sv.len() && sv[i] == s;
            assert(next.step(sv[i]) == Ok::<_, DdsvError>(ov[i]));
        }
        let r = reachable_set(*next, s0v);
        assert forall|s: SState<T>| r.contains(s) implies sv.to_set().contains(s) by {
            assert(reachable(*next, s0v, s));
            let p = choose|p: Seq<SEdge<T>>| is_run(*next, s0v, p) && p.last().1 == s;
            lemma_run_stays_inside(*next, s0v, sv, ov, p, p.len() - 1);
        }
        assert(r.subset_of(sv.to_set()));
        sv.unique_seq_to_set();
        vstd::set_lib::lemma_len_subset(r, sv.to_set());
        lemma_distinct_within(sv, r);
    }
    Ok(lts)
}

/// Explores the states reachable from `s0` under the enabled-transitions
/// function `next`; `label0` marks the entry step of every reported path.
pub fn bfs<T: Clone + PartialEq, N: Successors<T>>(
    s0: State<T>,
    next: N,
    label0: &str,
) -> (result: Result<Lts<T>, DdsvError>)
    requires
        next.ready(),
        valuation_laws::<T>(),
        reachable_set(next, state_view(s0)).finite(),
    ensures
        result is Ok <==> forall|s: SState<T>|
            reachable(next, state_view(s0), s) ==> #[trigger] next.step(s) is Ok,
        result matches Ok(l) ==> explored(l, next, state_view(s0), label0@),
        result matches Err(e) ==> exists|s: SState<T>|
            reachable(next, state_view(s0), s) && #[trigger] next.step(s) == Err::<Seq<SEdge<T>>, _>(e),
{
    explore(&s0, &next, label0, None)
}

/// Explores as `bfs` does, without any finiteness demand: exploration stops
/// with `StateSpaceExceeded` as soon as a state beyond the first
/// `max_states` is found.
pub fn bfs_bounded<T: Clone + PartialEq, N: Successors<T>>(
    s0: State<T>,
    next: N,
    label0: &str,
    max_states: usize,
) -> (result: Result<Lts<T>, DdsvError>)
    requires
        next.ready(),
        valuation_laws::<T>(),
    ensures
        result is Ok <==> {
            &&& forall|s: SState<T>| reachable(next, state_view(s0), s) ==> #[trigger] next.step(s) is Ok
            &&& reachable_set(next, state_view(s0)).finite()
            &&& reachable_set(next, state_view(s0)).len() <= max_states
        },
        result matches Ok(l) ==> explored(l, next, state_view(s0), label0@),
        result matches Err(e) ==> {
            ||| e == DdsvError::StateSpaceExceeded && more_reachable_than(next, state_view(s0), max_states as nat)
            ||| exists|s: SState<T>|
                reachable(next, state_view(s0), s) && #[trigger] next.step(s) == Err::<Seq<SEdge<T>>, _>(e)
        },
{
    explore(&s0, &next, label0, Some(max_states))
}

/// The label of the entry step of every reported path.
pub open spec fn entry_label() -> Seq<char> {
    seq!['-', '-', '-']
}

/// Composes `ps` asynchronously from valuation `r0` and explores the result.
/// Fails with `EmptyProcess` where a process has no location, and otherwise
/// with the first error met while expanding a reachable state.
pub fn concurrent_composition<T: Clone + PartialEq, G: Fn(&T) -> bool, A: Fn(&T) -> T>(
    r0: T,
    ps: &[Process<G, A>],
) -> (result: Result<Lts<T>, DdsvError>)
    requires
        pure_processes::<T, G, A>(ps@),
        valuation_laws::<T>(),
        (forall|i: int| 0 <= i < ps@.len() ==> #[trigger] ps@[i]@.len() > 0) ==> reachable_set(
            (Composition { processes: ps }),
            initial_spec(r0, ps@),
        ).finite(),
    ensures
        (exists|i: int| 0 <= i < ps@.len() && #[trigger] ps@[i]@.len() == 0) ==> result
            == Err::<Lts<T>, _>(DdsvError::EmptyProcess),
        (forall|i: int| 0 <= i < ps@.len() ==> #[trigger] ps@[i]@.len() > 0) ==> {
            let nx = (Composition { processes: ps });
            &&& result is Ok <==> forall|s: SState<T>|
                reachable(nx, initial_spec(r0, ps@), s) ==> #[trigger] nx.step(s) is Ok
            &&& result matches Ok(l) ==> explored(l, nx, initial_spec(r0, ps@), entry_label())
            &&& result matches Err(e) ==> exists|s: SState<T>|
                reachable(nx, initial_spec(r0, ps@), s) && #[trigger] nx.step(s) == Err::<Seq<SEdge<T>>, _>(e)
        },
{
    let s0 = match make_initial_state(r0, ps) {
        Ok(s) => s,
        Err(e) => {
            return Err(e);
        },
    };
    proof {
        reveal_strlit("---");
        assert("---"@ =~= entry_label());
    }
    let next = Composition { processes: ps };
    proof {
        assert(state_view(s0) == initial_spec(r0, ps@));
    }
    explore(&s0, &next, "---", None)
}

impl<T: Clone + PartialEq> Lts<T> {
    /// The node id of state `s`, if `s` is a state of the system.
    pub fn id_of(&self, s: &State<T>) -> (r: Option<usize>)
        requires
            valuation_laws::<T>(),
        ensures
            match r {
                None => !self.states_v().contains(state_view(*s)),
                Some(i) => i < self.states@.len() && self.states_v()[i as int] == state_view(*s),
            },
    {
        find_state(&self.states, s)
    }
}

} // verus!
