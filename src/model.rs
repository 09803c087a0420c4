//! Data model: transitions, processes, composite states and their views.
use vstd::prelude::*;

verus! {

/// A transition event name, such as `read` or `lock`.
pub type Label = String;

/// A control point of one process, such as `P0` or `Q3`.
pub type Location = String;

/// A composite state: the shared valuation and one location per process.
pub type State<T> = (T, Vec<Location>);

/// A run prefix: each step names the event taken and the state it led to.
pub type Path<T> = Vec<(Label, State<T>)>;

/// A process: its locations in order, each with the transitions leaving it.
/// The first entry is the initial location.
pub type Process<G, A> = Vec<(Location, Vec<Trans<G, A>>)>;

/// A guarded transition towards `location`.  `guard` decides on the shared
/// valuation whether it may fire; `action` computes the valuation after it.
pub struct Trans<G, A> {
    pub label: Label,
    pub location: Location,
    pub guard: G,
    pub action: A,
}

/// What can go wrong while building or exploring a composition.
#[derive(PartialEq, Eq, Structural, Debug, Clone, Copy)]
pub enum DdsvError {
    /// A process has no locations at all.
    EmptyProcess,
    /// A state names a location that its process does not have.
    UnknownLocation,
    /// Exploration found more states than it was allowed to.
    StateSpaceExceeded,
}

/// A composite state as a mathematical value.
pub type SState<T> = (T, Seq<Seq<char>>);

/// A labelled edge towards a composite state, as a mathematical value.
pub type SEdge<T> = (Seq<char>, SState<T>);

/// Locations as character sequences.
pub open spec fn locs_view(locs: Seq<Location>) -> Seq<Seq<char>> {
    locs.map_values(|l: Location| l@)
}

/// A composite state as a mathematical value.
pub open spec fn state_view<T>(s: State<T>) -> SState<T> {
    (s.0, locs_view(s.1@))
}

/// A labelled edge as a mathematical value.
pub open spec fn edge_view<T>(e: (Label, State<T>)) -> SEdge<T> {
    (e.0@, state_view(e.1))
}

/// A list of labelled edges as mathematical values.
pub open spec fn edges_view<T>(es: Seq<(Label, State<T>)>) -> Seq<SEdge<T>> {
    es.map_values(|e: (Label, State<T>)| edge_view(e))
}

/// A list of composite states as mathematical values.
pub open spec fn states_view<T>(ss: Seq<State<T>>) -> Seq<SState<T>> {
    ss.map_values(|s: State<T>| state_view(s))
}

/// The value that a deterministic guard gives on `r`.
pub open spec fn guard_of<T, G: Fn(&T) -> bool>(g: G, r: T) -> bool {
    choose|b: bool| call_ensures(g, (&r,), b)
}

/// The valuation that a deterministic action gives on `r`.
pub open spec fn action_of<T, A: Fn(&T) -> T>(a: A, r: T) -> T {
    choose|s: T| call_ensures(a, (&r,), s)
}

/// Guard and action may be called on every valuation and are functions of it.
pub open spec fn pure_trans<T, G: Fn(&T) -> bool, A: Fn(&T) -> T>(t: Trans<G, A>) -> bool {
    &&& forall|r: &T| #[trigger] call_requires(t.guard, (r,))
    &&& forall|r: &T, b: bool| #[trigger] call_ensures(t.guard, (r,), b) ==> b == guard_of(t.guard, *r)
    &&& forall|r: &T| #[trigger] call_requires(t.action, (r,))
    &&& forall|r: &T, s: T| #[trigger] call_ensures(t.action, (r,), s) ==> s == action_of(t.action, *r)
}

/// Every transition of the process is pure.
pub open spec fn pure_process<T, G: Fn(&T) -> bool, A: Fn(&T) -> T>(p: Process<G, A>) -> bool {
    forall|i: int, j: int|
        0 <= i < p@.len() && 0 <= j < p@[i].1@.len() ==> pure_trans::<T, G, A>(#[trigger] p@[i].1@[j])
}

/// Every process of the list is pure.
pub open spec fn pure_processes<T, G: Fn(&T) -> bool, A: Fn(&T) -> T>(ps: Seq<Process<G, A>>) -> bool {
    forall|i: int| 0 <= i < ps.len() ==> pure_process::<T, G, A>(#[trigger] ps[i])
}

/// Equality on the valuation type is spec equality, and cloning copies.
pub open spec fn valuation_laws<T: Clone + PartialEq>() -> bool {
    &&& vstd::laws_eq::obeys_concrete_eq::<T>()
    &&& forall|a: T, b: T| #[trigger] cloned::<T>(a, b) ==> a == b
}

impl<G, A> Trans<G, A> {
    /// Builds a transition from its four parts.
    pub fn new(label: Label, location: Location, guard: G, action: A) -> (t: Trans<G, A>)
        ensures
            t.label == label,
            t.location == location,
            t.guard == guard,
            t.action == action,
    {
        Trans { label, location, guard, action }
    }
}

} // verus!
