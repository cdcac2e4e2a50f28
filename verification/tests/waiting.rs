use tiny_verilog::procedure::Edge;
use tiny_verilog::waiting::{contains_proc, WaitTable};

fn rise(name: &str) -> Edge {
    Edge::Rise(name.to_string())
}

fn any(name: &str) -> Edge {
    Edge::Any(name.to_string())
}

fn listed(table: &WaitTable) -> Vec<(Edge, usize)> {
    table.waiters().iter().map(|waiter| (waiter.edge.clone(), waiter.proc_id)).collect()
}

#[test]
fn new_table_is_empty() {
    let mut table = WaitTable::new();
    assert!(table.is_empty());
    assert_eq!(table.notify(&any("x")), vec![]);
}

#[test]
fn a_second_registration_changes_nothing() {
    let mut table = WaitTable::new();
    table.register(rise("clk"), 1);
    table.register(rise("clk"), 1);
    assert_eq!(listed(&table), vec![(rise("clk"), 1)]);
}

#[test]
fn notify_returns_those_blocked_on_exactly_this_edge() {
    let mut table = WaitTable::new();
    table.register(rise("clk"), 3);
    table.register(any("clk"), 1);
    table.register(rise("clk"), 0);
    table.register(rise("rst"), 2);
    assert_eq!(table.notify(&rise("clk")), vec![3, 0]);
    assert_eq!(listed(&table), vec![(any("clk"), 1), (rise("rst"), 2)]);
    assert_eq!(table.notify(&rise("clk")), vec![]);
    assert_eq!(table.notify(&Edge::Fall("clk".to_string())), vec![]);
    assert_eq!(listed(&table), vec![(any("clk"), 1), (rise("rst"), 2)]);
}

#[test]
fn scrub_removes_every_registration_of_the_procedures() {
    let mut table = WaitTable::new();
    table.register(rise("a"), 0);
    table.register(any("b"), 1);
    table.register(any("c"), 0);
    table.register(any("c"), 2);
    table.scrub(&vec![0, 2]);
    assert_eq!(listed(&table), vec![(any("b"), 1)]);
    table.scrub(&vec![]);
    assert_eq!(listed(&table), vec![(any("b"), 1)]);
    table.scrub(&vec![1]);
    assert!(table.is_empty());
}

#[test]
fn procedures_are_found_in_a_list() {
    assert!(contains_proc(&vec![4, 2], 2));
    assert!(!contains_proc(&vec![4, 2], 3));
    assert!(!contains_proc(&vec![], 0));
}
