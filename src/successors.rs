//! Enabled transitions of an asynchronous composition.
use vstd::prelude::*;

use crate::model::{
    action_of, guard_of, pure_processes, pure_trans, state_view, edges_view, valuation_laws,
    DdsvError, Label, Location, Process, SEdge, SState, State, Trans,
};

verus! {

/// The transitions of `ts` whose guard holds on `r`, in declared order, each
/// as its label, its target location and the valuation after its action.
pub open spec fn fired<T, G: Fn(&T) -> bool, A: Fn(&T) -> T>(
    r: T,
    ts: Seq<Trans<G, A>>,
) -> Seq<(Seq<char>, Seq<char>, T)>
    decreases ts.len(),
{
    if ts.len() == 0 {
        seq![]
    } else {
        let prev = fired(r, ts.drop_last());
        let t = ts.last();
        if guard_of(t.guard, r) {
            prev.push((t.label@, t.location@, action_of(t.action, r)))
        } else {
            prev
        }
    }
}

pub open spec fn fired_view<T>(v: Seq<(Label, Location, T)>) -> Seq<(Seq<char>, Seq<char>, T)> {
    v.map_values(|x: (Label, Location, T)| (x.0@, x.1@, x.2))
}

/// Position of the first entry of a process at location `loc`.
pub open spec fn loc_index<G, A>(p: Seq<(Location, Vec<Trans<G, A>>)>, loc: Seq<char>) -> Option<int>
    decreases p.len(),
{
    if p.len() == 0 {
        None
    } else {
        match loc_index(p.drop_last(), loc) {
            Some(i) => Some(i),
            None => if p.last().0@ == loc {
                Some(p.len() - 1)
            } else {
                None
            },
        }
    }
}

/// The steps of process `i` along the fired transitions `ts`, from `(r, locs)`.
pub open spec fn moves<T, G: Fn(&T) -> bool, A: Fn(&T) -> T>(
    ts: Seq<Trans<G, A>>,
    r: T,
    locs: Seq<Seq<char>>,
    i: int,
) -> Seq<SEdge<T>> {
    fired(r, ts).map_values(|f: (Seq<char>, Seq<char>, T)| (f.0, (f.2, locs.update(i, f.1))))
}

/// The enabled steps of the first `n` processes from state `s`, process by process.
pub open spec fn succ_upto<T, G: Fn(&T) -> bool, A: Fn(&T) -> T>(
    ps: Seq<Process<G, A>>,
    s: SState<T>,
    n: nat,
) -> Result<Seq<SEdge<T>>, DdsvError>
    decreases n,
{
    if n == 0 {
        Ok(seq![])
    } else {
        match succ_upto(ps, s, (n - 1) as nat) {
            Err(e) => Err(e),
            Ok(prev) => match loc_index(ps[n - 1]@, s.1[n - 1]) {
                None => Err(DdsvError::UnknownLocation),
                Some(j) => Ok(prev + moves(ps[n - 1]@[j].1@, s.0, s.1, n - 1)),
            },
        }
    }
}

/// The enabled-transitions function: every step that one process can take
/// from `s`, or `UnknownLocation` where a location has no process or a
/// process stands at a location it lacks.
pub open spec fn next_spec<T, G: Fn(&T) -> bool, A: Fn(&T) -> T>(
    ps: Seq<Process<G, A>>,
    s: SState<T>,
) -> Result<Seq<SEdge<T>>, DdsvError> {
    if s.1.len() > ps.len() {
        Err(DdsvError::UnknownLocation)
    } else {
        succ_upto(ps, s, s.1.len())
    }
}

/// The transitions of `transitions` whose guard holds on `r`, with the
/// label, the target location and the valuation that the action gives.
pub fn calc_transitions<T, G: Fn(&T) -> bool, A: Fn(&T) -> T>(
    r: &T,
    transitions: &[Trans<G, A>],
) -> (result: Vec<(Label, Location, T)>)
    requires
        forall|j: int| 0 <= j < transitions@.len() ==> pure_trans::<T, G, A>(#[trigger] transitions@[j]),
    ensures
        fired_view(result@) == fired(*r, transitions@),
        forall|j: int| 0 <= j < transitions@.len() ==> call_ensures(
            #[trigger] transitions@[j].guard,
            (r,),
            guard_of(transitions@[j].guard, *r),
        ),
        forall|j: int| 0 <= j < transitions@.len() && guard_of(transitions@[j].guard, *r) ==> call_ensures(
            #[trigger] transitions@[j].action,
            (r,),
            action_of(transitions@[j].action, *r),
        ),
{
    let mut result: Vec<(Label, Location, T)> = Vec::new();
    let mut i: usize = 0;
    while i < transitions.len()
        invariant
            0 <= i <= transitions@.len(),
            forall|j: int| 0 <= j < transitions@.len() ==> pure_trans::<T, G, A>(#[trigger] transitions@[j]),
            fired_view(result@) == fired(*r, transitions@.subrange(0, i as int)),
            forall|j: int| 0 <= j < i ==> call_ensures(
                #[trigger] transitions@[j].guard,
                (r,),
                guard_of(transitions@[j].guard, *r),
            ),
            forall|j: int| 0 <= j < i && guard_of(transitions@[j].guard, *r) ==> call_ensures(
                #[trigger] transitions@[j].action,
                (r,),
                action_of(transitions@[j].action, *r),
            ),
        decreases transitions@.len() - i,
    {
        let trans = &transitions[i];
        assert(transitions@.subrange(0, i + 1).drop_last() =~= transitions@.subrange(0, i as int));
        assert(pure_trans::<T, G, A>(transitions@[i as int]));
        if (trans.guard)(r) {
            let label = trans.label.clone();
            let location = trans.location.clone();
            let r_transed = (trans.action)(r);
            let ghost before = result@;
            result.push((label, location, r_transed));
            assert(fired_view(result@) =~= fired_view(before).push(
                (trans.label@, trans.location@, r_transed)));
        }
        i = i + 1;
    }
    assert(transitions@.subrange(0, transitions@.len() as int) =~= transitions@);
    result
}

/// Lookup of a process's transitions by location.
pub trait Visualize<G, A> {
    /// The process's entries, in order.
    spec fn entries(&self) -> Seq<(Location, Vec<Trans<G, A>>)>;

    /// The transitions leaving the first entry at `location`, if there is one.
    fn assoc(&self, location: &str) -> (r: Option<&Vec<Trans<G, A>>>)
        ensures
            match loc_index(self.entries(), location@) {
                None => r is None,
                Some(i) => r == Some(&self.entries()[i].1),
            },
    ;
}

impl<G, A> Visualize<G, A> for Vec<(Location, Vec<Trans<G, A>>)> {
    open spec fn entries(&self) -> Seq<(Location, Vec<Trans<G, A>>)> {
        self@
    }

    fn assoc(&self, location: &str) -> (r: Option<&Vec<Trans<G, A>>>) {
        let wanted: String = location.to_owned();
        let mut i: usize = 0;
        while i < self.len()
            invariant
                0 <= i <= self@.len(),
                wanted@ == location@,
                loc_index(self@.subrange(0, i as int), location@) is None,
            decreases self@.len() - i,
        {
            assert(self@.subrange(0, i + 1).drop_last() =~= self@.subrange(0, i as int));
            if self[i].0 == wanted {
                assert(self@.subrange(0, i + 1).last() == self@[i as int]);
                proof {
                    lemma_loc_index_prefix(self@, location@, i + 1);
                }
                return Some(&self[i].1);
            }
            i = i + 1;
        }
        assert(self@.subrange(0, self@.len() as int) =~= self@);
        None
    }
}

/// A hit in a prefix is the hit in the whole sequence.
proof fn lemma_loc_index_prefix<G, A>(p: Seq<(Location, Vec<Trans<G, A>>)>, loc: Seq<char>, n: int)
    requires
        0 <= n <= p.len(),
        loc_index(p.subrange(0, n), loc) is Some,
    ensures
        loc_index(p, loc) == loc_index(p.subrange(0, n), loc),
    decreases p.len() - n,
{
    if n < p.len() {
        assert(p.subrange(0, n + 1).drop_last() =~= p.subrange(0, n));
        lemma_loc_index_prefix(p, loc, n + 1);
    } else {
        assert(p.subrange(0, n) =~= p);
    }
}

/// A fresh vector holding the same locations.
pub fn copy_locations(locs: &[Location]) -> (r: Vec<Location>)
    ensures
        r@ == locs@,
{
    let mut r: Vec<Location> = Vec::new();
    let mut i: usize = 0;
    while i < locs.len()
        invariant
            0 <= i <= locs@.len(),
            r@ == locs@.subrange(0, i as int),
        decreases locs@.len() - i,
    {
        r.push(locs[i].clone());
        i = i + 1;
        assert(r@ =~= locs@.subrange(0, i as int));
    }
    assert(locs@.subrange(0, locs@.len() as int) =~= locs@);
    r
}

/// Every step that one of the processes can take from `(r, locs)`: process by
/// process, and within a process in the declared order of its transitions.
/// Fails with `UnknownLocation` where a process stands at a location it lacks.
pub fn collect_trans<T: Clone + PartialEq, G: Fn(&T) -> bool, A: Fn(&T) -> T>(
    r: &T,
    locs: &[Location],
    ps: &[Process<G, A>],
) -> (result: Result<Vec<(Label, State<T>)>, DdsvError>)
    requires
        locs@.len() <= ps@.len(),
        pure_processes::<T, G, A>(ps@),
        valuation_laws::<T>(),
    ensures
        match result {
            Ok(v) => next_spec(ps@, (*r, crate::model::locs_view(locs@))) == Ok::<_, DdsvError>(edges_view(v@)),
            Err(e) => next_spec(ps@, (*r, crate::model::locs_view(locs@))) == Err::<Seq<SEdge<T>>, _>(e),
        },
{
    let ghost s: SState<T> = (*r, crate::model::locs_view(locs@));
    let mut result: Vec<(Label, State<T>)> = Vec::new();
    assert(edges_view(result@) =~= seq![]);
    let mut i: usize = 0;
    while i < locs.len()
        invariant
            0 <= i <= locs@.len(),
            locs@.len() <= ps@.len(),
            pure_processes::<T, G, A>(ps@),
            valuation_laws::<T>(),
            s == (*r, crate::model::locs_view(locs@)),
            succ_upto(ps@, s, i as nat) == Ok::<_, DdsvError>(edges_view(result@)),
        decreases locs@.len() - i,
    {
        let process = &ps[i];
        let location = &locs[i];
        let found = process.assoc(location.as_str());
        match found {
            None => {
                proof {
                    lemma_succ_err_stays(ps@, s, (i + 1) as nat, locs@.len() as nat);
                }
                return Err(DdsvError::UnknownLocation);
            },
            Some(transitions) => {
                let ghost j = loc_index(ps@[i as int]@, s.1[i as int])->Some_0;
                proof {
                    lemma_loc_index_found(ps@[i as int]@, s.1[i as int]);
                }
                assert(pure_processes::<T, G, A>(ps@));
                assert forall|k: int| 0 <= k < transitions@.len() implies pure_trans::<T, G, A>(
                    #[trigger] transitions@[k]) by {
                    assert(crate::model::pure_process::<T, G, A>(ps@[i as int]));
                    assert(transitions@[k] == ps@[i as int]@[j].1@[k]);
                }
                let out = calc_transitions(r, transitions.as_slice());
                let ghost base = result@;
                let ghost mv = moves(transitions@, *r, s.1, i as int);
                let mut k: usize = 0;
                while k < out.len()
                    invariant
                        0 <= k <= out@.len(),
                        0 <= i < locs@.len(),
                        valuation_laws::<T>(),
                        s == (*r, crate::model::locs_view(locs@)),
                        fired_view(out@) == fired(*r, transitions@),
                        mv == moves(transitions@, *r, s.1, i as int),
                        edges_view(result@) == edges_view(base) + mv.subrange(0, k as int),
                    decreases out@.len() - k,
                {
                    let tuple = &out[k];
                    let mut locations = copy_locations(locs);
                    locations.set(i, tuple.1.clone());
                    let label = tuple.0.clone();
                    let valuation = tuple.2.clone();
                    assert(cloned::<T>(tuple.2, valuation));
                    let ghost before = result@;
                    result.push((label, (valuation, locations)));
                    proof {
                        assert(fired_view(out@)[k as int] == (tuple.0@, tuple.1@, tuple.2));
                        assert(crate::model::locs_view(locations@) =~= s.1.update(i as int, tuple.1@));
                        assert(edges_view(result@) =~= edges_view(before).push(mv[k as int]));
                        assert(mv.subrange(0, k + 1) =~= mv.subrange(0, k as int).push(mv[k as int]));
                    }
                    k = k + 1;
                }
                assert(mv.subrange(0, out@.len() as int) =~= mv);
            },
        }
        i = i + 1;
    }
    Ok(result)
}

/// A found position is in range and names the location looked for.
pub proof fn lemma_loc_index_found<G, A>(p: Seq<(Location, Vec<Trans<G, A>>)>, loc: Seq<char>)
    ensures
        loc_index(p, loc) matches Some(i) ==> 0 <= i < p.len() && p[i].0@ == loc,
    decreases p.len(),
{
    if p.len() > 0 {
        lemma_loc_index_found(p.drop_last(), loc);
    }
}

/// Once a process is at an unknown location, the later ones change nothing.
proof fn lemma_succ_err_stays<T, G: Fn(&T) -> bool, A: Fn(&T) -> T>(
    ps: Seq<Process<G, A>>,
    s: SState<T>,
    n: nat,
    m: nat,
)
    requires
        n <= m,
        succ_upto(ps, s, n) is Err,
    ensures
        succ_upto(ps, s, m) == succ_upto(ps, s, n),
    decreases m - n,
{
    if n < m {
        lemma_succ_err_stays(ps, s, n, (m - 1) as nat);
    }
}

/// The initial state: `r0` with every process at its first location.
pub open spec fn initial_spec<T, G, A>(r0: T, ps: Seq<Process<G, A>>) -> SState<T> {
    (r0, Seq::new(ps.len(), |i: int| ps[i]@[0].0@))
}

/// The initial state of the composition, or `EmptyProcess` where some
/// process has no location.
pub fn make_initial_state<T, G, A>(r0: T, ps: &[Process<G, A>]) -> (result: Result<State<T>, DdsvError>)
    ensures
        result is Ok <==> forall|i: int| 0 <= i < ps@.len() ==> #[trigger] ps@[i]@.len() > 0,
        result matches Ok(s) ==> state_view(s) == initial_spec(r0, ps@),
        result matches Err(e) ==> e == DdsvError::EmptyProcess,
{
    let mut v: Vec<Location> = Vec::new();
    let mut i: usize = 0;
    while i < ps.len()
        invariant
            0 <= i <= ps@.len(),
            v@.len() == i,
            forall|j: int| 0 <= j < i ==> #[trigger] ps@[j]@.len() > 0,
            forall|j: int| 0 <= j < i ==> (#[trigger] v@[j])@ == ps@[j]@[0].0@,
        decreases ps@.len() - i,
    {
        let process = &ps[i];
        if process.len() == 0 {
            return Err(DdsvError::EmptyProcess);
        }
        v.push(process[0].0.clone());
        i = i + 1;
    }
    let s = (r0, v);
    assert(state_view(s).1 =~= initial_spec(r0, ps@).1);
    Ok(s)
}

/// The enabled-transitions function of a fixed list of processes.
pub struct NextFunction<G, A> {
    pub processes: Vec<Process<G, A>>,
}

/// The enabled-transitions function of `ps`.
pub fn make_next_function<G, A>(ps: Vec<Process<G, A>>) -> (f: NextFunction<G, A>)
    ensures
        f.processes == ps,
{
    NextFunction { processes: ps }
}

/// An enabled-transitions function over composite states.
pub trait Successors<T> {
    /// What the function gives on a state.
    spec fn step(&self, s: SState<T>) -> Result<Seq<SEdge<T>>, DdsvError>;

    /// The function may be called on every state.
    spec fn ready(&self) -> bool;

    /// The steps enabled in `s`, or the error met on it.
    fn next(&self, s: &State<T>) -> (result: Result<Vec<(Label, State<T>)>, DdsvError>)
        requires
            self.ready(),
        ensures
            match result {
                Ok(v) => self.step(state_view(*s)) == Ok::<_, DdsvError>(edges_view(v@)),
                Err(e) => self.step(state_view(*s)) == Err::<Seq<SEdge<T>>, _>(e),
            },
    ;
}

/// Every step that one of `ps` can take from `s`, or `UnknownLocation`.
fn next_of_processes<T: Clone + PartialEq, G: Fn(&T) -> bool, A: Fn(&T) -> T>(
    ps: &[Process<G, A>],
    s: &State<T>,
) -> (result: Result<Vec<(Label, State<T>)>, DdsvError>)
    requires
        pure_processes::<T, G, A>(ps@),
        valuation_laws::<T>(),
    ensures
        match result {
            Ok(v) => next_spec(ps@, state_view(*s)) == Ok::<_, DdsvError>(edges_view(v@)),
            Err(e) => next_spec(ps@, state_view(*s)) == Err::<Seq<SEdge<T>>, _>(e),
        },
{
    if s.1.len() > ps.len() {
        return Err(DdsvError::UnknownLocation);
    }
    collect_trans(&s.0, s.1.as_slice(), ps)
}

impl<G, A> NextFunction<G, A> {
    /// Every step that one process can take from `s` (see `collect_trans`);
    /// `UnknownLocation` where `s` has more locations than there are processes.
    pub fn call<T: Clone + PartialEq>(&self, s: &State<T>) -> (result: Result<Vec<(Label, State<T>)>, DdsvError>)
        where
            G: Fn(&T) -> bool,
            A: Fn(&T) -> T,
        requires
            pure_processes::<T, G, A>(self.processes@),
            valuation_laws::<T>(),
        ensures
            match result {
                Ok(v) => next_spec(self.processes@, state_view(*s)) == Ok::<_, DdsvError>(edges_view(v@)),
                Err(e) => next_spec(self.processes@, state_view(*s)) == Err::<Seq<SEdge<T>>, _>(e),
            },
    {
        next_of_processes(self.processes.as_slice(), s)
    }
}

impl<T: Clone + PartialEq, G: Fn(&T) -> bool, A: Fn(&T) -> T> Successors<T> for NextFunction<G, A> {
    open spec fn step(&self, s: SState<T>) -> Result<Seq<SEdge<T>>, DdsvError> {
        next_spec(self.processes@, s)
    }

    open spec fn ready(&self) -> bool {
        pure_processes::<T, G, A>(self.processes@) && valuation_laws::<T>()
    }

    fn next(&self, s: &State<T>) -> (result: Result<Vec<(Label, State<T>)>, DdsvError>) {
        next_of_processes(self.processes.as_slice(), s)
    }
}

/// The enabled-transitions function of processes held elsewhere.
pub struct Composition<'a, G, A> {
    pub processes: &'a [Process<G, A>],
}

impl<'a, T: Clone + PartialEq, G: Fn(&T) -> bool, A: Fn(&T) -> T> Successors<T> for Composition<'a, G, A> {
    open spec fn step(&self, s: SState<T>) -> Result<Seq<SEdge<T>>, DdsvError> {
        next_spec(self.processes@, s)
    }

    open spec fn ready(&self) -> bool {
        pure_processes::<T, G, A>(self.processes@) && valuation_laws::<T>()
    }

    fn next(&self, s: &State<T>) -> (result: Result<Vec<(Label, State<T>)>, DdsvError>) {
        next_of_processes(self.processes, s)
    }
}

} // verus!
