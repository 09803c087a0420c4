//! Text renderings: deadlock reports and graph descriptions.
use vstd::prelude::*;
use vstd::string::StringExecFns;

use crate::explore::{find_state, Lts};
use crate::model::{
    edges_view, locs_view, valuation_laws, Location, Path, Process, SEdge, SState, Trans,
};

verus! {

/// Each location followed by one space.
pub open spec fn locations_text(ls: Seq<Seq<char>>) -> Seq<char>
    decreases ls.len(),
{
    if ls.len() == 0 {
        seq![]
    } else {
        locations_text(ls.drop_last()) + ls.last() + " "@
    }
}

/// The decimal digit for `d < 10`.
pub open spec fn digit_text(d: nat) -> Seq<char> {
    if d == 0 { "0"@ } else if d == 1 { "1"@ } else if d == 2 { "2"@ } else if d == 3 { "3"@ }
    else if d == 4 { "4"@ } else if d == 5 { "5"@ } else if d == 6 { "6"@ } else if d == 7 { "7"@ }
    else if d == 8 { "8"@ } else { "9"@ }
}

/// `n` in decimal notation, without leading zeros.
pub open spec fn decimal_text(n: nat) -> Seq<char>
    decreases n,
{
    if n < 10 {
        digit_text(n)
    } else {
        decimal_text(n / 10) + digit_text(n % 10)
    }
}

/// `n` spaces.
pub open spec fn spaces(n: nat) -> Seq<char>
    decreases n,
{
    if n == 0 {
        seq![]
    } else {
        spaces((n - 1) as nat) + " "@
    }
}

/// The label filled up with spaces to a width of ten.
pub open spec fn padded_label(label: Seq<char>) -> Seq<char> {
    if label.len() < 10 {
        label + spaces((10 - label.len()) as nat)
    } else {
        label
    }
}

/// One step of a deadlock report: its index, the padded label, the
/// rendering of the valuation and the locations.
pub open spec fn step_line(i: nat, label: Seq<char>, valuation: Seq<char>, locs: Seq<Seq<char>>) -> Seq<char> {
    decimal_text(i) + " "@ + padded_label(label) + " "@ + valuation + " "@ + locations_text(locs) + "\n"@
}

/// The report of the first `n` steps of a path; `rendered[i]` renders the
/// valuation of step `i`.
pub open spec fn path_text<T>(p: Seq<SEdge<T>>, rendered: Seq<Seq<char>>, n: nat) -> Seq<char>
    decreases n,
{
    if n == 0 {
        seq![]
    } else {
        let i = (n - 1) as nat;
        path_text(p, rendered, i) + step_line(i, p[i as int].0, rendered[i as int], p[i as int].1.1)
    }
}

/// Strings as character sequences.
pub open spec fn strings_view(v: Seq<String>) -> Seq<Seq<char>> {
    v.map_values(|s: String| s@)
}

/// The locations, each followed by one space.
pub fn print_locations(locations: &[Location]) -> (r: String)
    ensures
        r@ == locations_text(locs_view(locations@)),
{
    let mut r = String::new();
    let mut i: usize = 0;
    while i < locations.len()
        invariant
            0 <= i <= locations@.len(),
            r@ == locations_text(locs_view(locations@.subrange(0, i as int))),
        decreases locations@.len() - i,
    {
        r.append(locations[i].as_str());
        r.append(" ");
        assert(locs_view(locations@.subrange(0, i + 1)).drop_last() =~= locs_view(locations@.subrange(0, i as int)));
        i = i + 1;
    }
    assert(locations@.subrange(0, locations@.len() as int) =~= locations@);
    r
}

fn digit(d: usize) -> (r: &'static str)
    requires
        d < 10,
    ensures
        r@ == digit_text(d as nat),
{
    if d == 0 { "0" } else if d == 1 { "1" } else if d == 2 { "2" } else if d == 3 { "3" }
    else if d == 4 { "4" } else if d == 5 { "5" } else if d == 6 { "6" } else if d == 7 { "7" }
    else if d == 8 { "8" } else { "9" }
}

/// `n` in decimal notation.
pub fn decimal(n: usize) -> (r: String)
    ensures
        r@ == decimal_text(n as nat),
    decreases n,
{
    if n < 10 {
        String::from_str(digit(n))
    } else {
        let mut r = decimal(n / 10);
        r.append(digit(n % 10));
        r
    }
}

/// The label filled up with spaces to a width of ten.
pub fn pad_label(label: &str) -> (r: String)
    ensures
        r@ == padded_label(label@),
{
    let mut r = String::from_str(label);
    let n = label.unicode_len();
    if n < 10 {
        let mut k: usize = 0;
        while k < 10 - n
            invariant
                n == label@.len(),
                n < 10,
                0 <= k <= 10 - n,
                r@ == label@ + spaces(k as nat),
            decreases 10 - n - k,
        {
            r.append(" ");
            k = k + 1;
        }
    }
    r
}

/// The report of a path, one line per step; `rendered[i]` renders the
/// valuation of step `i`.
pub fn print_deadlock<T>(deadlock: &Path<T>, rendered: &[String]) -> (r: String)
    requires
        rendered@.len() == deadlock@.len(),
    ensures
        r@ == path_text(edges_view(deadlock@), strings_view(rendered@), deadlock@.len() as nat),
{
    let mut out = String::new();
    let mut i: usize = 0;
    while i < deadlock.len()
        invariant
            0 <= i <= deadlock@.len(),
            rendered@.len() == deadlock@.len(),
            out@ == path_text(edges_view(deadlock@), strings_view(rendered@), i as nat),
        decreases deadlock@.len() - i,
    {
        let step = &deadlock[i];
        out.append(decimal(i).as_str());
        out.append(" ");
        out.append(pad_label(step.0.as_str()).as_str());
        out.append(" ");
        out.append(rendered[i].as_str());
        out.append(" ");
        out.append(print_locations(step.1.1.as_slice()).as_str());
        out.append("\n");
        i = i + 1;
    }
    out
}

/// The reports of the first `n` deadlock paths, each under a rule.
pub open spec fn deadlocks_text<T>(dv: Seq<Seq<SEdge<T>>>, rendered: Seq<Seq<Seq<char>>>, n: nat) -> Seq<char>
    decreases n,
{
    if n == 0 {
        seq![]
    } else {
        let m = (n - 1) as int;
        deadlocks_text(dv, rendered, (n - 1) as nat) + "--------------------------------------\n"@
            + path_text(dv[m], rendered[m], dv[m].len())
    }
}

/// The reports of all deadlock paths of `lts`; `rendered[m][i]` renders the
/// valuation of step `i` of deadlock `m`.
pub fn lts_print_deadlock<T>(lts: &Lts<T>, rendered: &Vec<Vec<String>>) -> (r: String)
    requires
        rendered@.len() == lts.deadlocks@.len(),
        forall|m: int| 0 <= m < rendered@.len() ==> (#[trigger] rendered@[m])@.len() == lts.deadlocks@[m]@.len(),
    ensures
        r@ == deadlocks_text(lts.deadlocks_v(), rendered@.map_values(|v: Vec<String>| strings_view(v@)),
            lts.deadlocks@.len() as nat),
{
    let ghost rv = rendered@.map_values(|v: Vec<String>| strings_view(v@));
    let mut out = String::new();
    let mut m: usize = 0;
    while m < lts.deadlocks.len()
        invariant
            0 <= m <= lts.deadlocks@.len(),
            rendered@.len() == lts.deadlocks@.len(),
            forall|j: int| 0 <= j < rendered@.len() ==> (#[trigger] rendered@[j])@.len() == lts.deadlocks@[j]@.len(),
            rv == rendered@.map_values(|v: Vec<String>| strings_view(v@)),
            out@ == deadlocks_text(lts.deadlocks_v(), rv, m as nat),
        decreases lts.deadlocks@.len() - m,
    {
        out.append("--------------------------------------\n");
        let text = print_deadlock(&lts.deadlocks[m], rendered[m].as_slice());
        out.append(text.as_str());
        assert(lts.deadlocks_v()[m as int] == edges_view(lts.deadlocks@[m as int]@));
        m = m + 1;
    }
    out
}

/// The node id of `s` among `sv`, where it occurs.
pub open spec fn node_id<T>(sv: Seq<SState<T>>, s: SState<T>) -> int {
    choose|i: int| 0 <= i < sv.len() && sv[i] == s
}

/// The style of node `id`: the start state and the deadlocks are filled.
pub open spec fn node_style(id: nat, dead: bool) -> Seq<char> {
    if id == 0 {
        "style=filled,fillcolor=cyan"@
    } else if dead {
        "style=filled,fillcolor=pink"@
    } else {
        seq![]
    }
}

/// The graph node of state `id`.
pub open spec fn node_line(id: nat, locs: Seq<Seq<char>>, valuation: Seq<char>, dead: bool) -> Seq<char> {
    decimal_text(id) + " [label=\""@ + decimal_text(id) + "\\n"@ + locations_text(locs) + "\\n"@ + valuation
        + "\","@ + node_style(id, dead) + "];\n"@
}

/// The graph nodes of the first `n` states.
pub open spec fn nodes_text<T>(
    sv: Seq<SState<T>>,
    ov: Seq<Seq<SEdge<T>>>,
    rendered: Seq<Seq<char>>,
    n: nat,
) -> Seq<char>
    decreases n,
{
    if n == 0 {
        seq![]
    } else {
        let i = (n - 1) as int;
        nodes_text(sv, ov, rendered, (n - 1) as nat) + node_line(i as nat, sv[i].1, rendered[i], ov[i].len() == 0)
    }
}

/// The graph edges of the first `n` outgoing edges of state `id`.
pub open spec fn edges_text<T>(sv: Seq<SState<T>>, id: nat, es: Seq<SEdge<T>>, n: nat) -> Seq<char>
    decreases n,
{
    if n == 0 {
        seq![]
    } else {
        let e = es[n - 1];
        edges_text(sv, id, es, (n - 1) as nat) + decimal_text(id) + " -> "@ + decimal_text(node_id(sv, e.1) as nat)
            + " [label=\""@ + e.0 + "\"];\n"@
    }
}

/// The graph edges of the first `n` states.
pub open spec fn transitions_text<T>(sv: Seq<SState<T>>, ov: Seq<Seq<SEdge<T>>>, n: nat) -> Seq<char>
    decreases n,
{
    if n == 0 {
        seq![]
    } else {
        let i = (n - 1) as int;
        transitions_text(sv, ov, (n - 1) as nat) + edges_text(sv, i as nat, ov[i], ov[i].len())
    }
}

/// Node ids fit in a `usize`, and the outgoing lists match the states.
pub open spec fn well_formed<T>(lts: Lts<T>) -> bool {
    &&& lts.outgoing@.len() == lts.states@.len()
    &&& lts.states_v().no_duplicates()
    &&& forall|i: int, e: SEdge<T>| 0 <= i < lts.states@.len() && #[trigger] lts.outs_v()[i].contains(e)
        ==> lts.states_v().contains(e.1)
}

/// One graph node per state, labelled with its id, its locations and the
/// rendering `rendered[id]` of its valuation.
#[verifier::rlimit(40)]
pub fn emit_states<T>(lts: &Lts<T>, rendered: &[String]) -> (r: String)
    requires
        lts.outgoing@.len() == lts.states@.len(),
        rendered@.len() == lts.states@.len(),
    ensures
        r@ == nodes_text(lts.states_v(), lts.outs_v(), strings_view(rendered@), lts.states@.len() as nat),
{
    let mut out = String::new();
    let mut i: usize = 0;
    while i < lts.states.len()
        invariant
            0 <= i <= lts.states@.len(),
            lts.outgoing@.len() == lts.states@.len(),
            rendered@.len() == lts.states@.len(),
            out@ == nodes_text(lts.states_v(), lts.outs_v(), strings_view(rendered@), i as nat),
        decreases lts.states@.len() - i,
    {
        let id = decimal(i);
        out.append(id.as_str());
        out.append(" [label=\"");
        out.append(id.as_str());
        out.append("\\n");
        out.append(print_locations(lts.states[i].1.as_slice()).as_str());
        out.append("\\n");
        out.append(rendered[i].as_str());
        out.append("\",");
        if i == 0 {
            out.append("style=filled,fillcolor=cyan");
        } else if lts.outgoing[i].len() == 0 {
            out.append("style=filled,fillcolor=pink");
        }
        out.append("];\n");
        assert(lts.outs_v()[i as int].len() == lts.outgoing@[i as int]@.len());
        i = i + 1;
    }
    out
}

/// One graph edge per outgoing transition, from the id of its source to the
/// id of its target, labelled with its event.
pub fn emit_transitions<T: Clone + PartialEq>(lts: &Lts<T>) -> (r: String)
    requires
        well_formed(*lts),
        valuation_laws::<T>(),
    ensures
        r@ == transitions_text(lts.states_v(), lts.outs_v(), lts.states@.len() as nat),
{
    let ghost sv = lts.states_v();
    let ghost ov = lts.outs_v();
    let mut out = String::new();
    let mut i: usize = 0;
    while i < lts.outgoing.len()
        invariant
            0 <= i <= lts.states@.len(),
            well_formed(*lts),
            valuation_laws::<T>(),
            sv == lts.states_v(),
            ov == lts.outs_v(),
            out@ == transitions_text(sv, ov, i as nat),
        decreases lts.states@.len() - i,
    {
        let trans = &lts.outgoing[i];
        let ghost base = out@;
        let id = decimal(i);
        let mut j: usize = 0;
        while j < trans.len()
            invariant
                0 <= i < lts.states@.len(),
                0 <= j <= trans@.len(),
                trans == lts.outgoing@[i as int],
                well_formed(*lts),
                valuation_laws::<T>(),
                sv == lts.states_v(),
                ov == lts.outs_v(),
                id@ == decimal_text(i as nat),
                out@ == base + edges_text(sv, i as nat, ov[i as int], j as nat),
            decreases trans@.len() - j,
        {
            let (label, target) = &trans[j];
            proof {
                assert(ov[i as int][j as int] == crate::model::edge_view(trans@[j as int]));
                assert(ov[i as int].contains(ov[i as int][j as int]));
            }
            let tid = match find_state(&lts.states, target) {
                Some(t) => t,
                None => {
                    proof {
                        assert(sv.contains(crate::model::state_view(*target)));
                    }
                    0
                },
            };
            proof {
                let s = crate::model::state_view(*target);
                assert(sv[tid as int] == s);
                let c = node_id(sv, s);
                assert(0 <= c < sv.len() && sv[c] == s);
                assert(c == tid as int);
            }
            out.append(id.as_str());
            out.append(" -> ");
            out.append(decimal(tid).as_str());
            out.append(" [label=\"");
            out.append(label.as_str());
            out.append("\"];\n");
            j = j + 1;
        }
        assert(ov[i as int].len() == trans@.len());
        i = i + 1;
    }
    out
}

/// The graph description of `lts`; `rendered[id]` renders the valuation of
/// state `id`.
pub fn lts_dot<T: Clone + PartialEq>(lts: &Lts<T>, rendered: &[String]) -> (r: String)
    requires
        well_formed(*lts),
        valuation_laws::<T>(),
        rendered@.len() == lts.states@.len(),
    ensures
        r@ == "digraph{\n"@ + nodes_text(lts.states_v(), lts.outs_v(), strings_view(rendered@), lts.states@.len() as nat)
            + transitions_text(lts.states_v(), lts.outs_v(), lts.states@.len() as nat) + "}\n"@,
{
    let mut out = String::from_str("digraph{\n");
    out.append(emit_states(lts, rendered).as_str());
    out.append(emit_transitions(lts).as_str());
    out.append("}\n");
    out
}

/// What `{:?}` writes for a string: the characters in double quotes, with
/// quotes, backslashes and control characters escaped.
pub uninterp spec fn str_debug_of(s: Seq<char>) -> Seq<char>;

/// Relies on std's `Debug` for `str` (`format!("{:?}", s)`): the quoted,
/// escaped rendering, which depends on the characters alone.
#[verifier::external_body]
fn str_debug(s: &str) -> (r: String)
    ensures
        r@ == str_debug_of(s@),
{
    format!("{:?}", s)
}

/// `Trans { label: <label>, location: <location> }`, from the debug
/// renderings of the label and of the location.
pub open spec fn trans_debug_text(label_debug: Seq<char>, location_debug: Seq<char>) -> Seq<char> {
    "Trans { label: "@ + label_debug + ", location: "@ + location_debug + " }"@
}

/// The first `n` transitions of `ts`, separated by a comma and a space.
pub open spec fn trans_list_text<G, A>(ts: Seq<Trans<G, A>>, n: nat) -> Seq<char>
    decreases n,
{
    if n == 0 {
        seq![]
    } else {
        let t = ts[n - 1];
        trans_list_text(ts, (n - 1) as nat) + (if n > 1 { ", "@ } else { seq![] }) + trans_debug_text(
            str_debug_of(t.label@),
            str_debug_of(t.location@),
        )
    }
}

/// The first `n` entries of a process, separated by a comma and a space.
pub open spec fn entry_list_text<G, A>(p: Seq<(Location, Vec<Trans<G, A>>)>, n: nat) -> Seq<char>
    decreases n,
{
    if n == 0 {
        seq![]
    } else {
        let e = p[n - 1];
        entry_list_text(p, (n - 1) as nat) + (if n > 1 { ", "@ } else { seq![] }) + "("@ + str_debug_of(e.0@) + ", ["@
            + trans_list_text(e.1@, e.1@.len()) + "])"@
    }
}

/// `Trans { label: <label_debug>, location: <location_debug> }`, where the
/// two arguments are the debug renderings of a label and a location.
pub fn trans_debug_from(label_debug: &str, location_debug: &str) -> (r: String)
    ensures
        r@ == trans_debug_text(label_debug@, location_debug@),
{
    let mut r = String::from_str("Trans { label: ");
    r.append(label_debug);
    r.append(", location: ");
    r.append(location_debug);
    r.append(" }");
    r
}

impl<G, A> Trans<G, A> {
    /// The label and the target location as `{:?}` writes them, as in
    /// `Trans { label: "read", location: "P1" }`.
    pub fn debug_text(&self) -> (r: String)
        ensures
            r@ == trans_debug_text(str_debug_of(self.label@), str_debug_of(self.location@)),
    {
        let label = str_debug(self.label.as_str());
        let location = str_debug(self.location.as_str());
        trans_debug_from(label.as_str(), location.as_str())
    }
}

fn append_trans_list<G, A>(out: &mut String, ts: &[Trans<G, A>])
    ensures
        final(out)@ == old(out)@ + trans_list_text(ts@, ts@.len()),
{
    let ghost base = out@;
    let mut i: usize = 0;
    while i < ts.len()
        invariant
            0 <= i <= ts@.len(),
            out@ == base + trans_list_text(ts@, i as nat),
        decreases ts@.len() - i,
    {
        if i > 0 {
            out.append(", ");
        }
        out.append(ts[i].debug_text().as_str());
        i = i + 1;
    }
}

/// A list of transitions, as `[Trans { .. }, Trans { .. }]`.
pub fn transitions_debug<G, A>(ts: &[Trans<G, A>]) -> (r: String)
    ensures
        r@ == "["@ + trans_list_text(ts@, ts@.len()) + "]"@,
{
    let mut r = String::from_str("[");
    append_trans_list(&mut r, ts);
    r.append("]");
    r
}

/// A process as `{:?}` writes its entries, as in `[("P0", [Trans { .. }]), ("P1", [])]`.
pub fn process_debug<G, A>(p: &Process<G, A>) -> (r: String)
    ensures
        r@ == "["@ + entry_list_text(p@, p@.len()) + "]"@,
{
    let mut r = String::from_str("[");
    let mut i: usize = 0;
    while i < p.len()
        invariant
            0 <= i <= p@.len(),
            r@ == "["@ + entry_list_text(p@, i as nat),
        decreases p@.len() - i,
    {
        if i > 0 {
            r.append(", ");
        }
        r.append("(");
        r.append(str_debug(p[i].0.as_str()).as_str());
        r.append(", [");
        append_trans_list(&mut r, p[i].1.as_slice());
        r.append("])");
        i = i + 1;
    }
    r.append("]");
    r
}

/// Every location and every transition of the first `n` entries.
pub open spec fn process_edges_text<G, A>(p: Seq<(Location, Vec<Trans<G, A>>)>, n: nat) -> Seq<char>
    decreases n,
{
    if n == 0 {
        seq![]
    } else {
        let e = p[n - 1];
        process_edges_text(p, (n - 1) as nat) + trans_edges_text(e.0@, e.1@, e.1@.len())
    }
}

/// The first `n` transitions leaving `from`, as graph edges.
pub open spec fn trans_edges_text<G, A>(from: Seq<char>, ts: Seq<Trans<G, A>>, n: nat) -> Seq<char>
    decreases n,
{
    if n == 0 {
        seq![]
    } else {
        let t = ts[n - 1];
        trans_edges_text(from, ts, (n - 1) as nat) + from + " -> "@ + t.location@ + " [label=\""@ + t.label@
            + "\"];\n"@
    }
}

/// The locations of the first `n` entries, one graph node each.
pub open spec fn process_nodes_text<G, A>(p: Seq<(Location, Vec<Trans<G, A>>)>, n: nat) -> Seq<char>
    decreases n,
{
    if n == 0 {
        seq![]
    } else {
        process_nodes_text(p, (n - 1) as nat) + p[n - 1].0@ + ";\n"@
    }
}

/// The graph description of a process: one node per location, one edge per
/// transition.
pub fn process_dot<G, A>(p: &Process<G, A>) -> (r: String)
    ensures
        r@ == "digraph {\n"@ + process_nodes_text(p@, p@.len()) + process_edges_text(p@, p@.len()) + "}\n"@,
{
    let mut out = String::from_str("digraph {\n");
    let mut i: usize = 0;
    while i < p.len()
        invariant
            0 <= i <= p@.len(),
            out@ == "digraph {\n"@ + process_nodes_text(p@, i as nat),
        decreases p@.len() - i,
    {
        out.append(p[i].0.as_str());
        out.append(";\n");
        i = i + 1;
    }
    let ghost base = out@;
    let mut i: usize = 0;
    while i < p.len()
        invariant
            0 <= i <= p@.len(),
            out@ == base + process_edges_text(p@, i as nat),
        decreases p@.len() - i,
    {
        let ts = &p[i].1;
        let ghost mid = out@;
        let mut j: usize = 0;
        while j < ts.len()
            invariant
                0 <= i < p@.len(),
                ts == p@[i as int].1,
                0 <= j <= ts@.len(),
                out@ == mid + trans_edges_text(p@[i as int].0@, ts@, j as nat),
            decreases ts@.len() - j,
        {
            out.append(p[i].0.as_str());
            out.append(" -> ");
            out.append(ts[j].location.as_str());
            out.append(" [label=\"");
            out.append(ts[j].label.as_str());
            out.append("\"];\n");
            j = j + 1;
        }
        i = i + 1;
    }
    out.append("}\n");
    out
}

} // verus!
