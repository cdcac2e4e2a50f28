use tiny_verilog::engine::{Engine, Snapshot};
use tiny_verilog::procedure::{
    Edge, Expression, Operand, Procedure, ProcedureType, Statement,
};
use tiny_verilog::test_procs::{
    build_clock, build_flop, build_proc1, build_proc2, build_proc3, build_proc4, build_proc5,
    build_proc6,
};

fn var(name: &str) -> Operand {
    Operand::Identifier(name.to_string())
}

fn set(target: &str, value: usize) -> Statement {
    Statement::BlockingAssign { id: var(target), expr: Expression::Const(Operand::Literal(value)) }
}

fn set_or(target: &str, left: &str, right: &str) -> Statement {
    Statement::BlockingAssign { id: var(target), expr: Expression::Or(var(left), var(right)) }
}

fn defer(target: &str, value: usize) -> Statement {
    Statement::NonBlockingAssign {
        id: var(target),
        expr: Expression::Const(Operand::Literal(value)),
    }
}

fn run(procedures: Vec<Procedure>) -> Engine {
    let mut engine = Engine::new();
    for p in procedures {
        engine.add_proc(p);
    }
    assert_eq!(engine.init(), Ok(()));
    assert_eq!(engine.run().result, Ok(()));
    engine
}

#[test]
fn proc1_is_one_delay() {
    let p = build_proc1();
    assert_eq!(p.kind, ProcedureType::Initial);
    assert_eq!(p.counter, 0);
    assert_eq!(p.stmts, vec![Statement::Delay { dly: 34 }]);
    let engine = run(vec![p]);
    assert_eq!(engine.time(), 34);
}

#[test]
fn proc2_defers_c_and_writes_a() {
    let p = build_proc2();
    assert_eq!(p.kind, ProcedureType::Initial);
    assert_eq!(p.counter, 0);
    assert_eq!(
        p.stmts,
        vec![
            Statement::NonBlockingAssign { id: var("c"), expr: Expression::Or(var("b"), var("a")) },
            Statement::BlockingAssign {
                id: var("a"),
                expr: Expression::And(var("b"), Operand::Literal(3))
            },
        ]
    );
    let engine = run(vec![
        Procedure { kind: ProcedureType::Initial, counter: 0, stmts: vec![set("b", 6)] },
        p,
    ]);
    assert_eq!(engine.value_of("c"), Some(6));
    assert_eq!(engine.value_of("a"), Some(2));
}

#[test]
fn proc3_is_blocking_throughout() {
    let p = build_proc3();
    assert_eq!(p.kind, ProcedureType::Initial);
    assert_eq!(
        p.stmts,
        vec![set("a1", 31), set("a2", 32), set_or("a3", "a1", "a2"), set("a1", 0)]
    );
    let engine = run(vec![p]);
    assert_eq!(engine.value_of("a1"), Some(0));
    assert_eq!(engine.value_of("a2"), Some(32));
    assert_eq!(engine.value_of("a3"), Some(63));
    assert_eq!(engine.time(), 0);
}

#[test]
fn proc4_reads_b1_before_the_deferred_write() {
    let p = build_proc4();
    assert_eq!(p.kind, ProcedureType::Initial);
    assert_eq!(
        p.stmts,
        vec![set("b1", 5), set("b2", 10), defer("b1", 100), set_or("b3", "b1", "b2")]
    );
    let engine = run(vec![p]);
    assert_eq!(engine.value_of("b3"), Some(15));
    assert_eq!(engine.value_of("b1"), Some(100));
    assert_eq!(engine.value_of("b2"), Some(10));
}

#[test]
fn proc5_does_the_same_behind_a_delay() {
    let p = build_proc5();
    assert_eq!(p.kind, ProcedureType::Initial);
    assert_eq!(
        p.stmts,
        vec![
            Statement::Delay { dly: 5 },
            set("c1", 1280),
            set("c2", 2560),
            defer("c1", 25600),
            set_or("c3", "c1", "c2"),
        ]
    );
    let engine = run(vec![p]);
    assert_eq!(engine.time(), 5);
    assert_eq!(engine.value_of("c3"), Some(15 * 256));
    assert_eq!(engine.value_of("c1"), Some(100 * 256));
}

#[test]
fn proc6_follows_b3_and_c3() {
    let p = build_proc6();
    assert_eq!(p.kind, ProcedureType::Always);
    assert_eq!(p.counter, 0);
    assert_eq!(
        p.stmts,
        vec![
            Statement::AtChange {
                edges: vec![Edge::Any("b3".to_string()), Edge::Any("c3".to_string())]
            },
            Statement::NonBlockingAssign {
                id: var("at_b3_c3"),
                expr: Expression::Or(var("b3"), var("c3"))
            },
        ]
    );
    let mut engine = Engine::new();
    engine.add_proc(build_proc4());
    engine.add_proc(build_proc5());
    engine.add_proc(p);
    assert_eq!(engine.init(), Ok(()));
    let report = engine.run();
    assert_eq!(report.result, Ok(()));
    assert_eq!(engine.value_of("at_b3_c3"), Some(15 | 15 * 256));
    assert_eq!(
        engine.identifiers(),
        &vec![
            "b1".to_string(),
            "b2".into(),
            "b3".into(),
            "c1".into(),
            "c2".into(),
            "c3".into(),
            "at_b3_c3".into()
        ]
    );
    assert_eq!(
        report.snapshots,
        vec![
            Snapshot { time: 0, values: vec![None, None, None, None, None, None, None] },
            Snapshot {
                time: 0,
                values: vec![Some(100), Some(10), Some(15), None, None, None, Some(15)]
            },
            Snapshot {
                time: 5,
                values: vec![
                    Some(100),
                    Some(10),
                    Some(15),
                    Some(25600),
                    Some(2560),
                    Some(3840),
                    Some(3855)
                ]
            },
            Snapshot {
                time: 5,
                values: vec![
                    Some(100),
                    Some(10),
                    Some(15),
                    Some(25600),
                    Some(2560),
                    Some(3840),
                    Some(3855)
                ]
            },
        ]
    );
}

#[test]
fn clock_rises_and_falls() {
    let p = build_clock(5, 2);
    assert_eq!(p.kind, ProcedureType::Initial);
    assert_eq!(p.counter, 0);
    assert_eq!(
        p.stmts,
        vec![
            set("clk", 0),
            Statement::Delay { dly: 5 },
            set("clk", 1),
            Statement::Delay { dly: 5 },
            set("clk", 0),
            Statement::Delay { dly: 5 },
            set("clk", 1),
            Statement::Delay { dly: 5 },
            set("clk", 0),
        ]
    );
    assert_eq!(build_clock(7, 0).stmts, vec![set("clk", 0)]);
    assert_eq!(build_clock(1, 100).stmts.len(), 401);
    let mut engine = Engine::new();
    engine.add_proc(p);
    assert_eq!(engine.init(), Ok(()));
    let report = engine.run();
    assert_eq!(report.result, Ok(()));
    assert_eq!(engine.time(), 20);
    assert_eq!(
        report.snapshots,
        vec![
            Snapshot { time: 0, values: vec![None] },
            Snapshot { time: 0, values: vec![Some(0)] },
            Snapshot { time: 5, values: vec![Some(1)] },
            Snapshot { time: 10, values: vec![Some(0)] },
            Snapshot { time: 15, values: vec![Some(1)] },
            Snapshot { time: 20, values: vec![Some(0)] },
            Snapshot { time: 20, values: vec![Some(0)] },
        ]
    );
}

#[test]
fn flop_takes_its_input_when_the_clock_changes() {
    let p = build_flop("d", "q");
    assert_eq!(p.kind, ProcedureType::Always);
    assert_eq!(p.counter, 0);
    assert_eq!(
        p.stmts,
        vec![
            Statement::AtChange { edges: vec![Edge::Any("clk".to_string())] },
            Statement::BlockingAssign { id: var("q"), expr: Expression::Const(var("d")) },
        ]
    );
    let mut engine = Engine::new();
    engine.add_proc(build_clock(5, 1));
    engine.add_proc(p);
    engine.add_proc(Procedure {
        kind: ProcedureType::Initial,
        counter: 0,
        stmts: vec![
            set("d", 7),
            Statement::Delay { dly: 7 },
            set("d", 9),
        ],
    });
    assert_eq!(engine.init(), Ok(()));
    let report = engine.run();
    assert_eq!(report.result, Ok(()));
    assert_eq!(engine.identifiers(), &vec!["clk".to_string(), "q".into(), "d".into()]);
    assert_eq!(
        report.snapshots,
        vec![
            Snapshot { time: 0, values: vec![None, None, None] },
            Snapshot { time: 0, values: vec![Some(0), Some(7), Some(7)] },
            Snapshot { time: 5, values: vec![Some(1), Some(7), Some(7)] },
            Snapshot { time: 7, values: vec![Some(1), Some(7), Some(9)] },
            Snapshot { time: 10, values: vec![Some(0), Some(9), Some(9)] },
            Snapshot { time: 10, values: vec![Some(0), Some(9), Some(9)] },
        ]
    );
}
