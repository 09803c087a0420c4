use ddsv::explore::{bfs_bounded, concurrent_composition, Lts};
use ddsv::model::{DdsvError, Process, Trans};
use ddsv::successors::make_next_function;

#[derive(Clone, PartialEq, Eq, Hash, Debug)]
struct Vars {
    m0: i32,
    m1: i32,
    x: i32,
    t1: i32,
    t2: i32,
}

fn zero() -> Vars {
    Vars { m0: 0, m1: 0, x: 0, t1: 0, t2: 0 }
}

type Guard = fn(&Vars) -> bool;
type Action = fn(&Vars) -> Vars;

fn tr(label: &str, target: &str, guard: Guard, action: Action) -> Trans<Guard, Action> {
    Trans::new(String::from(label), String::from(target), guard, action)
}

fn locs(ls: &[&str]) -> Vec<String> {
    ls.iter().map(|l| String::from(*l)).collect()
}

fn always(_: &Vars) -> bool {
    true
}
fn m0_free(r: &Vars) -> bool {
    r.m0 == 0
}
fn m1_free(r: &Vars) -> bool {
    r.m1 == 0
}
fn lock0(r: &Vars) -> Vars {
    Vars { m0: 1, ..r.clone() }
}
fn lock1(r: &Vars) -> Vars {
    Vars { m1: 1, ..r.clone() }
}
fn unlock0(r: &Vars) -> Vars {
    Vars { m0: 0, ..r.clone() }
}
fn unlock1(r: &Vars) -> Vars {
    Vars { m1: 0, ..r.clone() }
}
fn read1(r: &Vars) -> Vars {
    Vars { t1: r.x, ..r.clone() }
}
fn inc1(r: &Vars) -> Vars {
    Vars { t1: r.t1 + 1, ..r.clone() }
}
fn write1(r: &Vars) -> Vars {
    Vars { x: r.t1, ..r.clone() }
}
fn read2(r: &Vars) -> Vars {
    Vars { t2: r.x, ..r.clone() }
}
fn inc2(r: &Vars) -> Vars {
    Vars { t2: r.t2 + 1, ..r.clone() }
}
fn write2(r: &Vars) -> Vars {
    Vars { x: r.t2, ..r.clone() }
}

fn mutex_process(n: [&str; 6], read: Action, inc: Action, write: Action) -> Process<Guard, Action> {
    vec![
        (String::from(n[0]), vec![tr("lock", n[1], m0_free, lock0)]),
        (String::from(n[1]), vec![tr("read", n[2], always, read)]),
        (String::from(n[2]), vec![tr("inc", n[3], always, inc)]),
        (String::from(n[3]), vec![tr("write", n[4], always, write)]),
        (String::from(n[4]), vec![tr("unlock", n[5], always, unlock0)]),
        (String::from(n[5]), vec![]),
    ]
}

fn inversion() -> Lts<Vars> {
    let p: Process<Guard, Action> = vec![
        (String::from("P0"), vec![tr("lock0", "P1", m0_free, lock0)]),
        (String::from("P1"), vec![tr("lock1", "P2", m1_free, lock1)]),
        (String::from("P2"), vec![tr("unlock1", "P3", always, unlock1)]),
        (String::from("P3"), vec![tr("unlock0", "P0", always, unlock0)]),
    ];
    let q: Process<Guard, Action> = vec![
        (String::from("Q0"), vec![tr("lock1", "Q1", m1_free, lock1)]),
        (String::from("Q1"), vec![tr("lock0", "Q2", m0_free, lock0)]),
        (String::from("Q2"), vec![tr("unlock0", "Q3", always, unlock0)]),
        (String::from("Q3"), vec![tr("unlock1", "Q0", always, unlock1)]),
    ];
    concurrent_composition(zero(), &[p, q]).unwrap()
}

#[test]
fn mutex_increment_always_writes_two() {
    let p = mutex_process(["P0", "P1", "P2", "P3", "P4", "P5"], read1, inc1, write1);
    let q = mutex_process(["Q0", "Q1", "Q2", "Q3", "Q4", "Q5"], read2, inc2, write2);
    let lts = concurrent_composition(zero(), &[p, q]).unwrap();
    assert!(!lts.deadlocks.is_empty());
    for d in &lts.deadlocks {
        let last = &d.last().unwrap().1;
        assert_eq!(last.0.x, 2);
        assert_eq!(last.1, locs(&["P5", "Q5"]));
    }
    for (i, s) in lts.states.iter().enumerate() {
        if lts.outgoing[i].is_empty() {
            assert_eq!(s.0.x, 2);
        }
    }
}

#[test]
fn lock_inversion_deadlocks() {
    let lts = inversion();
    let stuck = (Vars { m0: 1, m1: 1, ..zero() }, locs(&["P1", "Q1"]));
    let id = lts.id_of(&stuck).unwrap();
    assert!(lts.outgoing[id].is_empty());
    assert_eq!(lts.deadlocks.len(), 1);
    let path = &lts.deadlocks[0];
    assert_eq!(path[0].0, "---");
    assert_eq!(path[0].1, (zero(), locs(&["P0", "Q0"])));
    assert_eq!(path.last().unwrap().1, stuck);
    assert_eq!(path.len(), 3);
    assert_eq!(path[1].0, "lock0");
    assert_eq!(path[1].1, (Vars { m0: 1, ..zero() }, locs(&["P1", "Q0"])));
    assert_eq!(path[2].0, "lock1");
    assert_eq!(id, 4);
    assert_eq!(lts.states.len(), 10);
}

#[test]
fn lock_inversion_ids_are_reproducible() {
    let a = inversion();
    let b = inversion();
    assert_eq!(a.states, b.states);
    assert_eq!(a.outgoing, b.outgoing);
    for (i, s) in a.states.iter().enumerate() {
        assert_eq!(b.id_of(s), Some(i));
    }
}

#[test]
fn lock_inversion_first_ids_follow_breadth_first_order() {
    let lts = inversion();
    assert_eq!(lts.states[0], (zero(), locs(&["P0", "Q0"])));
    assert_eq!(lts.states[1], (Vars { m0: 1, ..zero() }, locs(&["P1", "Q0"])));
    assert_eq!(lts.states[2], (Vars { m1: 1, ..zero() }, locs(&["P0", "Q1"])));
    assert_eq!(lts.outgoing[0].len(), 2);
    assert_eq!(lts.outgoing[0][0].0, "lock0");
    assert_eq!(lts.outgoing[0][1].0, "lock1");
}

#[derive(Clone, PartialEq, Eq, Hash, Debug)]
struct Buffer {
    mutex: i32,
    cond: i32,
    count: i32,
}

type BGuard = fn(&Buffer) -> bool;
type BAction = fn(&Buffer) -> Buffer;

const MAX_COUNT: i32 = 3;
const P_INDEX: i32 = 1;
const Q_INDEX: i32 = 2;

fn b_true(_: &Buffer) -> bool {
    true
}
fn b_unlocked(r: &Buffer) -> bool {
    r.mutex == 0
}
fn can_wait_p(r: &Buffer) -> bool {
    r.count == MAX_COUNT
}
fn can_wait_q(r: &Buffer) -> bool {
    r.count == 0
}
fn can_produce(r: &Buffer) -> bool {
    r.count < MAX_COUNT
}
fn can_consume(r: &Buffer) -> bool {
    r.count > 0
}
fn can_wakeup_p(r: &Buffer) -> bool {
    (r.cond & P_INDEX) == 0
}
fn can_wakeup_q(r: &Buffer) -> bool {
    (r.cond & Q_INDEX) == 0
}
fn b_lock(r: &Buffer) -> Buffer {
    Buffer { mutex: 1, ..r.clone() }
}
fn wait_p(r: &Buffer) -> Buffer {
    Buffer { mutex: 0, cond: r.cond | P_INDEX, ..r.clone() }
}
fn wait_q(r: &Buffer) -> Buffer {
    Buffer { mutex: 0, cond: r.cond | Q_INDEX, ..r.clone() }
}
fn produce(r: &Buffer) -> Buffer {
    Buffer { count: r.count + 1, ..r.clone() }
}
fn consume(r: &Buffer) -> Buffer {
    Buffer { count: r.count - 1, ..r.clone() }
}
fn wakeup(r: &Buffer) -> Buffer {
    r.clone()
}
fn signal(r: &Buffer) -> Buffer {
    Buffer { cond: r.cond & (r.cond - 1), ..r.clone() }
}
fn b_unlock(r: &Buffer) -> Buffer {
    Buffer { mutex: 0, ..r.clone() }
}

fn btr(label: &str, target: &str, g: BGuard, a: BAction) -> Trans<BGuard, BAction> {
    Trans::new(String::from(label), String::from(target), g, a)
}

#[test]
fn producer_consumer_explores_every_wait() {
    let p: Process<BGuard, BAction> = vec![
        (String::from("P0"), vec![btr("lock", "P1", b_unlocked, b_lock)]),
        (
            String::from("P1"),
            vec![btr("wait", "P2", can_wait_p, wait_p), btr("produce", "P3", can_produce, produce)],
        ),
        (String::from("P2"), vec![btr("wakeup", "P0", can_wakeup_p, wakeup)]),
        (String::from("P3"), vec![btr("signal", "P4", b_true, signal)]),
        (String::from("P4"), vec![btr("unlock", "P0", b_true, b_unlock)]),
    ];
    let q: Process<BGuard, BAction> = vec![
        (String::from("Q0"), vec![btr("lock", "Q1", b_unlocked, b_lock)]),
        (
            String::from("Q1"),
            vec![btr("wait", "Q2", can_wait_q, wait_q), btr("consume", "Q3", can_consume, consume)],
        ),
        (String::from("Q2"), vec![btr("wakeup", "Q0", can_wakeup_q, wakeup)]),
        (String::from("Q3"), vec![btr("signal", "Q4", b_true, signal)]),
        (String::from("Q4"), vec![btr("unlock", "Q0", b_true, b_unlock)]),
    ];
    let lts = concurrent_composition(Buffer { mutex: 0, cond: 0, count: 0 }, &[p, q]).unwrap();
    // Signalling clears the lowest waiting bit, so in this model a waiter is
    // always woken: there is no state without successors.
    assert!(lts.deadlocks.is_empty());
    assert!(lts.outgoing.iter().all(|o| !o.is_empty()));
    assert!(lts.states.iter().any(|s| s.1 == locs(&["P2", "Q0"]) && s.0.count == MAX_COUNT));
    assert!(lts.states.iter().any(|s| s.1 == locs(&["P0", "Q2"]) && s.0.count == 0));
    assert!(lts.states.iter().all(|s| s.0.count >= 0 && s.0.count <= MAX_COUNT));
}

fn inversion_processes() -> Vec<Process<Guard, Action>> {
    let p: Process<Guard, Action> = vec![
        (String::from("P0"), vec![tr("lock0", "P1", m0_free, lock0)]),
        (String::from("P1"), vec![tr("lock1", "P2", m1_free, lock1)]),
        (String::from("P2"), vec![tr("unlock1", "P3", always, unlock1)]),
        (String::from("P3"), vec![tr("unlock0", "P0", always, unlock0)]),
    ];
    let q: Process<Guard, Action> = vec![
        (String::from("Q0"), vec![tr("lock1", "Q1", m1_free, lock1)]),
        (String::from("Q1"), vec![tr("lock0", "Q2", m0_free, lock0)]),
        (String::from("Q2"), vec![tr("unlock0", "Q3", always, unlock0)]),
        (String::from("Q3"), vec![tr("unlock1", "Q0", always, unlock1)]),
    ];
    vec![p, q]
}

#[test]
fn state_cap_stops_exploration() {
    let full = inversion();
    let s0 = (zero(), locs(&["P0", "Q0"]));
    let capped = bfs_bounded(s0.clone(), make_next_function(inversion_processes()), "---", 2);
    assert_eq!(capped.err(), Some(DdsvError::StateSpaceExceeded));
    let zero_cap = bfs_bounded(s0.clone(), make_next_function(inversion_processes()), "---", 0);
    assert_eq!(zero_cap.err(), Some(DdsvError::StateSpaceExceeded));
    let exact = bfs_bounded(
        s0.clone(),
        make_next_function(inversion_processes()),
        "---",
        full.states.len(),
    )
    .unwrap();
    assert_eq!(exact.states, full.states);
    assert_eq!(exact.outgoing, full.outgoing);
    assert_eq!(exact.deadlocks, full.deadlocks);
    let short = bfs_bounded(s0, make_next_function(inversion_processes()), "---", full.states.len() - 1);
    assert_eq!(short.err(), Some(DdsvError::StateSpaceExceeded));
}
