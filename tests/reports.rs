use ddsv::explore::concurrent_composition;
use ddsv::model::{Process, Trans};
use ddsv::report::{
    trans_debug_from,
    decimal, emit_states, emit_transitions, lts_dot, lts_print_deadlock, pad_label, print_deadlock,
    process_dot,
};

type Guard = fn(&u8) -> bool;
type Action = fn(&u8) -> u8;

fn yes(_: &u8) -> bool {
    true
}
fn same(r: &u8) -> u8 {
    *r
}

fn tr(label: &str, target: &str) -> Trans<Guard, Action> {
    Trans::new(String::from(label), String::from(target), yes, same)
}

fn strings(v: &[&str]) -> Vec<String> {
    v.iter().map(|s| String::from(*s)).collect()
}

fn two_step_loop() -> Process<Guard, Action> {
    vec![
        (String::from("A"), vec![tr("a", "B")]),
        (String::from("B"), vec![tr("b", "A")]),
    ]
}

fn one_step() -> Process<Guard, Action> {
    vec![(String::from("A"), vec![tr("a", "B")]), (String::from("B"), vec![])]
}

#[test]
fn decimal_writes_digits() {
    assert_eq!(decimal(0), "0");
    assert_eq!(decimal(7), "7");
    assert_eq!(decimal(120), "120");
    assert_eq!(decimal(4096), "4096");
}

#[test]
fn pad_label_fills_to_ten() {
    assert_eq!(pad_label("read"), "read      ");
    assert_eq!(pad_label("---"), "---       ");
    assert_eq!(pad_label("exactly_10"), "exactly_10");
    assert_eq!(pad_label("longer_than_ten"), "longer_than_ten");
}

#[test]
fn deadlock_report_lines() {
    let lts = concurrent_composition(0u8, &[one_step()]).unwrap();
    assert_eq!(lts.deadlocks.len(), 1);
    let text = print_deadlock(&lts.deadlocks[0], &strings(&["r=0", "r=0"]));
    assert_eq!(text, "0 ---        r=0 A \n1 a          r=0 B \n");
    let all = lts_print_deadlock(&lts, &vec![strings(&["r=0", "r=0"])]);
    assert_eq!(
        all,
        "--------------------------------------\n0 ---        r=0 A \n1 a          r=0 B \n"
    );
}

#[test]
fn lts_graph_description() {
    let lts = concurrent_composition(0u8, &[two_step_loop()]).unwrap();
    let rendered = strings(&["r0", "r1"]);
    assert_eq!(
        emit_states(&lts, &rendered),
        "0 [label=\"0\\nA \\nr0\",style=filled,fillcolor=cyan];\n1 [label=\"1\\nB \\nr1\",];\n"
    );
    assert_eq!(
        emit_transitions(&lts),
        "0 -> 1 [label=\"a\"];\n1 -> 0 [label=\"b\"];\n"
    );
    assert_eq!(
        lts_dot(&lts, &rendered),
        "digraph{\n0 [label=\"0\\nA \\nr0\",style=filled,fillcolor=cyan];\n1 [label=\"1\\nB \\nr1\",];\n0 -> 1 [label=\"a\"];\n1 -> 0 [label=\"b\"];\n}\n"
    );
}

#[test]
fn deadlock_nodes_are_pink() {
    let lts = concurrent_composition(0u8, &[one_step()]).unwrap();
    assert_eq!(
        emit_states(&lts, &strings(&["s", "t"])),
        "0 [label=\"0\\nA \\ns\",style=filled,fillcolor=cyan];\n1 [label=\"1\\nB \\nt\",style=filled,fillcolor=pink];\n"
    );
}

#[test]
fn process_graph_description() {
    assert_eq!(
        process_dot(&one_step()),
        "digraph {\nA;\nB;\nA -> B [label=\"a\"];\n}\n"
    );
}

#[test]
fn trans_debug_text() {
    assert_eq!(
        tr("lock", "P1").debug_text(),
        "Trans { label: \"lock\", location: \"P1\" }"
    );
}

#[test]
fn trans_debug_text_escapes_like_debug() {
    assert_eq!(
        tr("\"", "P\\1").debug_text(),
        "Trans { label: \"\\\"\", location: \"P\\\\1\" }"
    );
    assert_eq!(tr("a\nb", "P1").debug_text(), format!("Trans {{ label: {:?}, location: {:?} }}", "a\nb", "P1"));
}

#[test]
fn trans_debug_from_joins_renderings() {
    assert_eq!(trans_debug_from("<l>", "<p>"), "Trans { label: <l>, location: <p> }");
}
