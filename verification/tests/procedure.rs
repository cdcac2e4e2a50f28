use tiny_verilog::procedure::{
    clone_edges, contains_name, same_edges, Edge, Expression, Operand, Procedure, ProcedureType,
    Statement,
};

fn var(name: &str) -> Operand {
    Operand::Identifier(name.to_string())
}

fn assign(target: &str, value: usize) -> Statement {
    Statement::BlockingAssign { id: var(target), expr: Expression::Const(Operand::Literal(value)) }
}

fn strings(names: &[&str]) -> Vec<String> {
    names.iter().map(|name| name.to_string()).collect()
}

#[test]
fn always_procedure_wraps_after_its_last_statement() {
    let mut p = Procedure { kind: ProcedureType::Always, counter: 0, stmts: vec![] };
    p.push(assign("a", 1));
    p.push(assign("b", 2));
    assert_eq!(p.next_stmt(), Some(assign("a", 1)));
    assert_eq!(p.next_stmt(), Some(assign("b", 2)));
    assert_eq!(p.counter, 2);
    assert_eq!(p.next_stmt(), Some(assign("a", 1)));
    assert_eq!(p.counter, 1);
}

#[test]
fn always_procedure_yields_the_statement_n_places_on() {
    let stmts = vec![assign("a", 0), assign("b", 1), assign("c", 2)];
    let mut p = Procedure { kind: ProcedureType::Always, counter: 1, stmts: stmts.clone() };
    for n in 0..10 {
        assert_eq!(p.next_stmt(), Some(stmts[(1 + n) % 3].clone()));
    }
}

#[test]
fn initial_procedure_runs_once_and_stays_dormant() {
    let mut p = Procedure { kind: ProcedureType::Initial, counter: 0, stmts: vec![] };
    p.push(assign("a", 1));
    p.push(Statement::Delay { dly: 7 });
    assert_eq!(p.next_stmt(), Some(assign("a", 1)));
    assert_eq!(p.next_stmt(), Some(Statement::Delay { dly: 7 }));
    assert_eq!(p.next_stmt(), None);
    assert_eq!(p.next_stmt(), None);
    assert_eq!(p.counter, 2);
}

#[test]
fn empty_procedures_yield_nothing() {
    let mut once = Procedure { kind: ProcedureType::Initial, counter: 0, stmts: vec![] };
    let mut again = Procedure { kind: ProcedureType::Always, counter: 0, stmts: vec![] };
    assert_eq!(once.next_stmt(), None);
    assert_eq!(again.next_stmt(), None);
    assert_eq!(again.counter, 0);
}

#[test]
fn counter_beyond_the_end_yields_nothing() {
    let mut again =
        Procedure { kind: ProcedureType::Always, counter: 5, stmts: vec![assign("a", 1)] };
    assert_eq!(again.next_stmt(), None);
    assert_eq!(again.counter, 5);
}

#[test]
fn push_adds_at_the_end() {
    let mut p = Procedure { kind: ProcedureType::Initial, counter: 0, stmts: vec![assign("a", 1)] };
    p.push(assign("b", 2));
    assert_eq!(p.stmts, vec![assign("a", 1), assign("b", 2)]);
    assert_eq!(p.counter, 0);
    assert_eq!(p.kind, ProcedureType::Initial);
}

#[test]
fn operand_identifier() {
    assert_eq!(var("clk").get_identifier(), Some("clk".to_string()));
    assert_eq!(Operand::Literal(3).get_identifier(), None);
}

#[test]
fn expression_identifiers_left_to_right() {
    assert_eq!(Expression::Const(var("a")).get_identifiers(), strings(&["a"]));
    assert_eq!(Expression::Const(Operand::Literal(1)).get_identifiers(), strings(&[]));
    assert_eq!(Expression::And(var("a"), var("b")).get_identifiers(), strings(&["a", "b"]));
    assert_eq!(Expression::Or(var("b"), var("b")).get_identifiers(), strings(&["b", "b"]));
    assert_eq!(
        Expression::Or(Operand::Literal(1), var("c")).get_identifiers(),
        strings(&["c"])
    );
    assert_eq!(Expression::Not(var("n")).get_identifiers(), strings(&["n"]));
}

#[test]
fn statement_identifiers_target_first() {
    let blocking =
        Statement::BlockingAssign { id: var("y"), expr: Expression::And(var("a"), var("y")) };
    assert_eq!(blocking.get_identifiers(), strings(&["y", "a", "y"]));
    let deferred = Statement::NonBlockingAssign {
        id: Operand::Literal(4),
        expr: Expression::Const(var("a")),
    };
    assert_eq!(deferred.get_identifiers(), strings(&["a"]));
    assert_eq!(Statement::Delay { dly: 3 }.get_identifiers(), strings(&[]));
    let wait = Statement::AtChange { edges: vec![Edge::Rise("clk".to_string())] };
    assert_eq!(wait.get_identifiers(), strings(&[]));
}

#[test]
fn procedure_identifiers_each_once_in_order_of_first_occurrence() {
    let p = Procedure {
        kind: ProcedureType::Initial,
        counter: 0,
        stmts: vec![
            Statement::NonBlockingAssign { id: var("c"), expr: Expression::Or(var("b"), var("a")) },
            Statement::Delay { dly: 1 },
            Statement::BlockingAssign {
                id: var("a"),
                expr: Expression::And(var("b"), Operand::Literal(3)),
            },
            Statement::BlockingAssign { id: var("d"), expr: Expression::Not(var("c")) },
        ],
    };
    assert_eq!(p.get_identifiers(), strings(&["c", "b", "a", "d"]));
}

#[test]
fn equality_goes_by_what_is_named() {
    assert_eq!(var("a"), var("a"));
    assert_ne!(var("a"), var("b"));
    assert_ne!(var("a"), Operand::Literal(0));
    assert_eq!(Edge::Rise("clk".to_string()), Edge::Rise("clk".to_string()));
    assert_ne!(Edge::Rise("clk".to_string()), Edge::Fall("clk".to_string()));
    assert_ne!(Edge::Any("clk".to_string()), Edge::Any("clock".to_string()));
    assert_ne!(Expression::And(var("a"), var("b")), Expression::Or(var("a"), var("b")));
    assert_ne!(assign("a", 1), assign("a", 2));
    assert_ne!(
        assign("a", 1),
        Statement::NonBlockingAssign {
            id: var("a"),
            expr: Expression::Const(Operand::Literal(1))
        }
    );
}

#[test]
fn clones_are_equal() {
    let wait = Statement::AtChange {
        edges: vec![Edge::Rise("a".to_string()), Edge::Any("b".to_string())],
    };
    assert_eq!(wait.clone(), wait);
    let edges = vec![Edge::Fall("x".to_string()), Edge::Any("y".to_string())];
    assert_eq!(clone_edges(&edges), edges);
    assert!(same_edges(&edges, &clone_edges(&edges)));
    assert!(!same_edges(&edges, &vec![Edge::Fall("x".to_string())]));
    assert!(!same_edges(
        &edges,
        &vec![Edge::Any("y".to_string()), Edge::Fall("x".to_string())]
    ));
}

#[test]
fn names_are_found_in_a_list() {
    let list = strings(&["a", "b"]);
    assert!(contains_name(&list, &"b".to_string()));
    assert!(!contains_name(&list, &"c".to_string()));
    assert!(!contains_name(&strings(&[]), &"a".to_string()));
}
