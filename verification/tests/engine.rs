use tiny_verilog::diagnostic::Diagnostic;
use tiny_verilog::engine::{fired_edges, Engine, Snapshot, DEFAULT_LIMIT};
use tiny_verilog::model::{Phase, SimError};
use tiny_verilog::procedure::{
    Edge, Expression, Operand, Procedure, ProcedureType, Statement,
};
use tiny_verilog::timeheap::TimeHeap;

fn var(name: &str) -> Operand {
    Operand::Identifier(name.to_string())
}

fn lit(value: usize) -> Expression {
    Expression::Const(Operand::Literal(value))
}

fn set(target: &str, value: usize) -> Statement {
    Statement::BlockingAssign { id: var(target), expr: lit(value) }
}

fn copy(target: &str, source: &str) -> Statement {
    Statement::BlockingAssign { id: var(target), expr: Expression::Const(var(source)) }
}

fn defer(target: &str, expr: Expression) -> Statement {
    Statement::NonBlockingAssign { id: var(target), expr }
}

fn delay(dly: usize) -> Statement {
    Statement::Delay { dly }
}

fn wait(edges: Vec<Edge>) -> Statement {
    Statement::AtChange { edges }
}

fn any(name: &str) -> Edge {
    Edge::Any(name.to_string())
}

fn rise(name: &str) -> Edge {
    Edge::Rise(name.to_string())
}

fn fall(name: &str) -> Edge {
    Edge::Fall(name.to_string())
}

fn once(stmts: Vec<Statement>) -> Procedure {
    Procedure { kind: ProcedureType::Initial, counter: 0, stmts }
}

fn again(stmts: Vec<Statement>) -> Procedure {
    Procedure { kind: ProcedureType::Always, counter: 0, stmts }
}

fn engine_of(procedures: Vec<Procedure>) -> Engine {
    let mut engine = Engine::new();
    for p in procedures {
        engine.add_proc(p);
    }
    assert_eq!(engine.init(), Ok(()));
    engine
}

fn scheduled(heap: &TimeHeap) -> bool {
    !heap.is_empty()
}

#[test]
fn init_without_procedures_fails() {
    let mut engine = Engine::new();
    assert_eq!(engine.init(), Err(SimError::NoProcedures));
    assert_eq!(engine.time(), 0);
    assert!(!scheduled(engine.scheduler()));
}

#[test]
fn init_schedules_every_procedure_for_time_zero() {
    let mut engine = engine_of(vec![once(vec![set("a", 1)]), once(vec![]), again(vec![])]);
    assert_eq!(engine.scheduler().next_time(), Some(0));
    assert_eq!(engine.procedures().len(), 3);
    assert_eq!(engine.step(), Ok(Phase::Advanced));
    assert!(!scheduled(engine.scheduler()));
    assert_eq!(engine.active_queue().len(), 1);
}

#[test]
fn init_lists_the_variables_in_the_order_of_their_first_occurrence() {
    let engine = engine_of(vec![
        once(vec![defer("c", Expression::Or(var("b"), var("a"))), delay(3)]),
        again(vec![wait(vec![any("zz")]), copy("a", "d"), set("c", 1)]),
    ]);
    assert_eq!(
        engine.identifiers(),
        &vec!["c".to_string(), "b".to_string(), "a".to_string(), "d".to_string()]
    );
}

#[test]
fn new_engine_has_the_default_limit() {
    assert_eq!(DEFAULT_LIMIT, 1000000);
    let mut engine = Engine::new();
    engine.add_proc(again(vec![delay(0)]));
    assert_eq!(engine.init(), Ok(()));
    for _ in 0..1000 {
        assert_eq!(engine.step(), Ok(Phase::Advanced));
    }
}

#[test]
fn blocking_then_non_blocking_in_one_instant() {
    let mut engine = engine_of(vec![
        once(vec![set("x", 5)]),
        once(vec![
            defer("y", Expression::Const(var("x"))),
            Statement::BlockingAssign { id: var("z"), expr: Expression::Or(var("x"), var("y")) },
        ]),
    ]);
    assert_eq!(engine.step(), Ok(Phase::Advanced));
    assert_eq!(engine.step(), Ok(Phase::Executed));
    assert_eq!(engine.value_of("x"), Some(5));
    assert_eq!(engine.step(), Ok(Phase::Executed));
    assert_eq!(engine.value_of("y"), None);
    assert_eq!(engine.deferred_queue().len(), 1);
    assert_eq!(engine.deferred_queue()[0], set("y", 5));
    assert_eq!(engine.step(), Ok(Phase::Executed));
    assert_eq!(engine.value_of("x"), Some(5));
    assert_eq!(engine.value_of("y"), None);
    assert_eq!(engine.value_of("z"), Some(5));
    assert_eq!(engine.step(), Ok(Phase::Promoted));
    assert_eq!(engine.value_of("y"), None);
    assert_eq!(engine.step(), Ok(Phase::Executed));
    assert_eq!(engine.value_of("y"), Some(5));
    assert_eq!(engine.step(), Ok(Phase::Starved));
    assert_eq!(engine.step(), Ok(Phase::Starved));
    assert_eq!(engine.time(), 0);
}

#[test]
fn blocking_write_is_seen_by_the_next_statement() {
    let mut engine = engine_of(vec![once(vec![set("a", 6), copy("b", "a"), copy("c", "b")])]);
    assert_eq!(engine.run().result, Ok(()));
    assert_eq!(engine.value_of("b"), Some(6));
    assert_eq!(engine.value_of("c"), Some(6));
}

#[test]
fn non_blocking_write_is_not_seen_before_promotion() {
    let mut engine = engine_of(vec![once(vec![
        set("x", 1),
        defer("x", lit(2)),
        copy("seen", "x"),
        defer("later", Expression::Const(var("x"))),
    ])]);
    assert_eq!(engine.run().result, Ok(()));
    assert_eq!(engine.value_of("seen"), Some(1));
    assert_eq!(engine.value_of("later"), Some(1));
    assert_eq!(engine.value_of("x"), Some(2));
}

#[test]
fn non_blocking_reads_do_not_see_other_pending_writes() {
    let mut engine = engine_of(vec![once(vec![
        set("a", 1),
        set("b", 2),
        defer("a", Expression::Const(var("b"))),
        defer("b", Expression::Const(var("a"))),
    ])]);
    assert_eq!(engine.run().result, Ok(()));
    assert_eq!(engine.value_of("a"), Some(2));
    assert_eq!(engine.value_of("b"), Some(1));
}

#[test]
fn procedures_due_at_one_time_are_resumed_in_one_step() {
    let mut engine = engine_of(vec![
        once(vec![delay(3), set("a", 1)]),
        once(vec![delay(3), set("b", 1), delay(1)]),
        once(vec![delay(4), set("c", 1)]),
    ]);
    assert_eq!(engine.step(), Ok(Phase::Advanced));
    assert_eq!(engine.time(), 0);
    assert_eq!(engine.active_queue().len(), 0);
    assert_eq!(engine.step(), Ok(Phase::Advanced));
    assert_eq!(engine.time(), 3);
    assert_eq!(engine.active_queue().len(), 2);
    assert_eq!(engine.active_queue()[0], set("a", 1));
    assert_eq!(engine.active_queue()[1], set("b", 1));
    assert_eq!(engine.scheduler().next_time(), Some(4));
    assert_eq!(engine.procedures()[0].counter, 2);
    assert_eq!(engine.procedures()[1].counter, 3);
    assert_eq!(engine.procedures()[2].counter, 1);
    assert_eq!(engine.step(), Ok(Phase::Executed));
    assert_eq!(engine.step(), Ok(Phase::Executed));
    assert_eq!(engine.time(), 3);
    assert_eq!(engine.step(), Ok(Phase::Advanced));
    assert_eq!(engine.time(), 4);
    assert_eq!(engine.active_queue().len(), 1);
}

#[test]
fn edges_of_a_write() {
    let x = "x".to_string();
    assert_eq!(fired_edges(Some(0), 5, &x), vec![any("x"), rise("x")]);
    assert_eq!(fired_edges(Some(5), 0, &x), vec![any("x"), fall("x")]);
    assert_eq!(fired_edges(Some(5), 3, &x), vec![any("x")]);
    assert_eq!(fired_edges(Some(5), 5, &x), vec![]);
    assert_eq!(fired_edges(Some(0), 0, &x), vec![]);
    assert_eq!(fired_edges(None, 0, &x), vec![any("x")]);
    assert_eq!(fired_edges(None, 9, &x), vec![any("x")]);
}

fn counted(edge: Edge, writes: Vec<usize>) -> (Option<usize>, Option<usize>) {
    let mut driver = vec![];
    for value in writes {
        driver.push(set("x", value));
    }
    let mut engine = engine_of(vec![
        again(vec![wait(vec![edge]), copy("second", "first"), set("first", 1)]),
        once(driver),
    ]);
    assert_eq!(engine.run().result, Ok(()));
    (engine.value_of("first"), engine.value_of("second"))
}

#[test]
fn a_rise_wakes_those_waiting_for_a_rise_or_for_any_change() {
    assert_eq!(counted(rise("x"), vec![0, 5]), (Some(1), Some(0)));
    assert_eq!(counted(fall("x"), vec![0, 5]), (None, None));
    assert_eq!(counted(any("x"), vec![0, 5]), (Some(1), Some(1)));
}

#[test]
fn a_fall_wakes_those_waiting_for_a_fall_or_for_any_change() {
    assert_eq!(counted(fall("x"), vec![5, 0]), (Some(1), Some(0)));
    assert_eq!(counted(rise("x"), vec![5, 0]), (None, None));
    assert_eq!(counted(any("x"), vec![5, 0]), (Some(1), Some(1)));
}

#[test]
fn a_change_between_values_that_are_not_zero_is_neither_rise_nor_fall() {
    assert_eq!(counted(rise("x"), vec![5, 3]), (None, None));
    assert_eq!(counted(fall("x"), vec![5, 3]), (None, None));
    assert_eq!(counted(any("x"), vec![5, 3]), (Some(1), Some(1)));
}

#[test]
fn a_write_of_the_same_value_wakes_nobody() {
    assert_eq!(counted(any("x"), vec![5, 5, 5]), (Some(1), Some(0)));
    assert_eq!(counted(any("y"), vec![5, 6]), (None, None));
}

#[test]
fn rising_clock_wakes_the_waiting_procedure_in_the_same_instant() {
    let mut engine = engine_of(vec![
        again(vec![wait(vec![rise("clk")]), set("seen", 1)]),
        once(vec![set("clk", 0), set("clk", 1)]),
    ]);
    assert_eq!(engine.step(), Ok(Phase::Advanced));
    assert_eq!(engine.step(), Ok(Phase::Executed));
    assert_eq!(engine.active_queue().len(), 1);
    assert_eq!(engine.step(), Ok(Phase::Executed));
    assert_eq!(engine.value_of("clk"), Some(1));
    assert_eq!(engine.active_queue().len(), 1);
    assert_eq!(engine.active_queue()[0], set("seen", 1));
    assert_eq!(engine.wait_table().waiters().len(), 1);
    assert_eq!(engine.step(), Ok(Phase::Executed));
    assert_eq!(engine.value_of("seen"), Some(1));
    assert_eq!(engine.time(), 0);
    assert_eq!(engine.step(), Ok(Phase::Starved));
}

#[test]
fn a_procedure_waiting_on_two_edges_of_one_write_wakes_once() {
    let mut engine = engine_of(vec![
        again(vec![
            wait(vec![any("x"), rise("x")]),
            copy("third", "second"),
            copy("second", "first"),
            set("first", 1),
        ]),
        once(vec![set("x", 0), set("x", 1)]),
    ]);
    assert_eq!(engine.run().result, Ok(()));
    assert_eq!(engine.value_of("first"), Some(1));
    assert_eq!(engine.value_of("second"), Some(1));
    assert_eq!(engine.value_of("third"), Some(0));
}

#[test]
fn a_woken_procedure_loses_its_other_registrations() {
    let mut engine = engine_of(vec![
        once(vec![wait(vec![any("x"), any("y")]), set("a", 1), wait(vec![any("z")]), set("a", 2)]),
        once(vec![set("x", 1), delay(1), set("y", 1), delay(1), set("z", 1)]),
    ]);
    let report = engine.run();
    assert_eq!(report.result, Ok(()));
    assert_eq!(engine.identifiers(), &vec!["a".to_string(), "x".into(), "y".into(), "z".into()]);
    assert_eq!(
        report.snapshots,
        vec![
            Snapshot { time: 0, values: vec![None, None, None, None] },
            Snapshot { time: 0, values: vec![Some(1), Some(1), None, None] },
            Snapshot { time: 1, values: vec![Some(1), Some(1), Some(1), None] },
            Snapshot { time: 2, values: vec![Some(2), Some(1), Some(1), Some(1)] },
            Snapshot { time: 2, values: vec![Some(2), Some(1), Some(1), Some(1)] },
        ]
    );
    assert!(engine.wait_table().is_empty());
}

#[test]
fn assignments_only_end_within_the_first_instant() {
    let mut engine = engine_of(vec![once(vec![
        set("a", 1),
        defer("b", lit(2)),
        set("c", 3),
        defer("d", lit(4)),
    ])]);
    let mut steps = 0;
    loop {
        match engine.step() {
            Ok(Phase::Starved) => break,
            Ok(_) => steps += 1,
            Err(error) => panic!("{:?}", error),
        }
    }
    assert_eq!(steps, 1 + 4 + 1 + 2);
    assert_eq!(engine.time(), 0);
    assert_eq!(engine.value_of("d"), Some(4));
}

#[test]
fn assignments_only_offer_their_snapshots_at_time_zero() {
    let mut engine = engine_of(vec![once(vec![set("a", 1)])]);
    let report = engine.run();
    assert_eq!(report.result, Ok(()));
    assert_eq!(
        report.snapshots,
        vec![
            Snapshot { time: 0, values: vec![None] },
            Snapshot { time: 0, values: vec![Some(1)] },
            Snapshot { time: 0, values: vec![Some(1)] },
        ]
    );
}

#[test]
fn a_delay_suspends_until_its_time() {
    let mut engine = engine_of(vec![once(vec![set("a", 1), delay(34), set("a", 2)])]);
    assert_eq!(engine.step(), Ok(Phase::Advanced));
    assert_eq!(engine.scheduler().next_time(), Some(34));
    assert_eq!(engine.step(), Ok(Phase::Executed));
    assert_eq!(engine.time(), 0);
    assert_eq!(engine.step(), Ok(Phase::Advanced));
    assert_eq!(engine.time(), 34);
    assert_eq!(engine.value_of("a"), Some(1));
    assert_eq!(engine.step(), Ok(Phase::Executed));
    assert_eq!(engine.value_of("a"), Some(2));
    assert_eq!(engine.step(), Ok(Phase::Starved));
    assert_eq!(engine.time(), 34);
}

#[test]
fn snapshots_come_in_the_order_of_their_times() {
    let mut engine = engine_of(vec![
        again(vec![delay(3), defer("t", Expression::Not(var("t")))]),
        once(vec![delay(10), set("stop", 1), delay(usize::MAX)]),
    ]);
    let report = engine.run();
    assert_eq!(report.result, Err(SimError::TimeOverflow { proc_id: 1 }));
    let times: Vec<usize> = report.snapshots.iter().map(|snapshot| snapshot.time).collect();
    assert_eq!(times, vec![0, 0, 3, 6, 9, 10]);
    assert_eq!(engine.time(), 10);
}

#[test]
fn loop_without_delay_is_reported() {
    let mut engine = Engine::with_limit(50);
    engine.add_proc(again(vec![
        wait(vec![any("x")]),
        Statement::BlockingAssign { id: var("x"), expr: Expression::Not(var("x")) },
    ]));
    engine.add_proc(once(vec![set("x", 1)]));
    assert_eq!(engine.init(), Ok(()));
    let report = engine.run();
    assert_eq!(report.result, Err(SimError::CombinationalLoop));
    assert_eq!(engine.time(), 0);
    assert_eq!(engine.step(), Err(SimError::CombinationalLoop));
}

#[test]
fn the_limit_counts_the_steps_of_one_instant() {
    let mut engine = Engine::with_limit(3);
    engine.add_proc(once(vec![set("a", 1), set("b", 2), delay(1), set("c", 3), set("d", 4)]));
    assert_eq!(engine.init(), Ok(()));
    assert_eq!(engine.run().result, Ok(()));
    assert_eq!(engine.time(), 1);

    let mut engine = Engine::with_limit(2);
    engine.add_proc(once(vec![set("a", 1), set("b", 2), delay(1), set("c", 3), set("d", 4)]));
    assert_eq!(engine.init(), Ok(()));
    assert_eq!(engine.step(), Ok(Phase::Advanced));
    assert_eq!(engine.step(), Ok(Phase::Executed));
    assert_eq!(engine.step(), Err(SimError::CombinationalLoop));
    assert_eq!(engine.value_of("b"), None);
}

#[test]
fn an_engine_without_steps_to_take_fails_at_once() {
    let mut engine = Engine::with_limit(0);
    engine.add_proc(once(vec![set("a", 1)]));
    assert_eq!(engine.init(), Ok(()));
    assert_eq!(engine.step(), Err(SimError::CombinationalLoop));
}

#[test]
fn a_delay_of_zero_in_a_loop_is_reported() {
    let mut engine = Engine::with_limit(20);
    engine.add_proc(again(vec![delay(0)]));
    assert_eq!(engine.init(), Ok(()));
    assert_eq!(engine.run().result, Err(SimError::CombinationalLoop));
}

#[test]
fn a_procedure_that_never_suspends_is_reported() {
    let mut engine = engine_of(vec![once(vec![set("a", 1)]), again(vec![set("x", 1), set("y", 2)])]);
    assert_eq!(engine.step(), Err(SimError::NeverSuspends { proc_id: 1 }));
}

#[test]
fn a_delay_beyond_the_largest_time_is_reported() {
    let mut engine = engine_of(vec![once(vec![delay(1), delay(usize::MAX)])]);
    assert_eq!(engine.step(), Ok(Phase::Advanced));
    assert_eq!(engine.step(), Err(SimError::TimeOverflow { proc_id: 0 }));
    assert_eq!(engine.time(), 1);

    let mut engine = engine_of(vec![once(vec![delay(usize::MAX), set("a", 1)])]);
    assert_eq!(engine.run().result, Ok(()));
    assert_eq!(engine.time(), usize::MAX);
    assert_eq!(engine.value_of("a"), Some(1));
}

#[test]
fn an_undefined_variable_reads_as_zero() {
    let engine = Engine::new();
    assert_eq!(engine.lookup(&var("nowhere")), 0);
    assert_eq!(engine.lookup(&Operand::Literal(12)), 12);
    assert_eq!(engine.value_of("nowhere"), None);
}

#[test]
fn a_read_without_a_value_is_remarked_on() {
    let mut engine = engine_of(vec![once(vec![
        set("a", 1),
        Statement::BlockingAssign { id: var("c"), expr: Expression::Or(var("x"), var("a")) },
        defer("d", Expression::And(var("y"), var("x"))),
        copy("e", "c"),
    ])]);
    assert_eq!(engine.step(), Ok(Phase::Advanced));
    assert_eq!(engine.diagnostics(), &vec![]);
    assert_eq!(engine.step(), Ok(Phase::Executed));
    assert_eq!(engine.diagnostics(), &vec![]);
    assert_eq!(engine.step(), Ok(Phase::Executed));
    assert_eq!(engine.diagnostics(), &vec![Diagnostic::UndefinedVariable("x".to_string())]);
    assert_eq!(engine.value_of("c"), Some(1));
    assert_eq!(engine.step(), Ok(Phase::Executed));
    assert_eq!(
        engine.diagnostics(),
        &vec![
            Diagnostic::UndefinedVariable("y".to_string()),
            Diagnostic::UndefinedVariable("x".to_string())
        ]
    );
    assert_eq!(engine.step(), Ok(Phase::Executed));
    assert_eq!(engine.diagnostics(), &vec![]);
    assert_eq!(engine.step(), Ok(Phase::Promoted));
    assert_eq!(engine.step(), Ok(Phase::Executed));
    assert_eq!(engine.value_of("d"), Some(0));
    assert_eq!(engine.step(), Ok(Phase::Starved));
    assert_eq!(engine.diagnostics(), &vec![]);
}

#[test]
fn a_run_reports_every_remark_in_order() {
    let ignored = Statement::NonBlockingAssign { id: Operand::Literal(3), expr: lit(4) };
    let mut engine = engine_of(vec![
        once(vec![copy("a", "b"), delay(2), copy("a", "c")]),
        once(vec![delay(1), ignored.clone(), Statement::BlockingAssign {
            id: var("n"),
            expr: Expression::Not(var("m")),
        }]),
    ]);
    let report = engine.run();
    assert_eq!(report.result, Ok(()));
    assert_eq!(
        report.diagnostics,
        vec![
            Diagnostic::UndefinedVariable("b".to_string()),
            Diagnostic::IgnoredStatement(ignored),
            Diagnostic::UndefinedVariable("m".to_string()),
            Diagnostic::UndefinedVariable("c".to_string()),
        ]
    );
    assert_eq!(engine.value_of("n"), Some(usize::MAX));
    assert_eq!(engine.diagnostics(), &vec![]);
}

#[test]
fn the_scenario_of_two_procedures_remarks_on_the_read_of_y() {
    let mut engine = engine_of(vec![
        once(vec![set("x", 5)]),
        once(vec![
            defer("y", Expression::Const(var("x"))),
            Statement::BlockingAssign { id: var("z"), expr: Expression::Or(var("x"), var("y")) },
        ]),
    ]);
    let report = engine.run();
    assert_eq!(report.result, Ok(()));
    assert_eq!(report.diagnostics, vec![Diagnostic::UndefinedVariable("y".to_string())]);
    assert_eq!(engine.value_of("x"), Some(5));
    assert_eq!(engine.value_of("y"), Some(5));
    assert_eq!(engine.value_of("z"), Some(5));
}

#[test]
fn expressions_combine_bit_by_bit() {
    let mut engine = engine_of(vec![once(vec![set("a", 12), set("b", 10)])]);
    assert_eq!(engine.run().result, Ok(()));
    assert_eq!(engine.evaluate(&Expression::Const(var("a"))), 12);
    assert_eq!(engine.evaluate(&Expression::And(var("a"), var("b"))), 8);
    assert_eq!(engine.evaluate(&Expression::Or(var("a"), var("b"))), 14);
    assert_eq!(engine.evaluate(&Expression::Not(var("a"))), !12usize);
    assert_eq!(engine.evaluate(&Expression::Not(Operand::Literal(0))), usize::MAX);
    assert_eq!(engine.evaluate(&Expression::And(var("a"), var("missing"))), 0);
    assert_eq!(engine.evaluate(&Expression::Or(Operand::Literal(1), var("missing"))), 1);
}

#[test]
fn an_assignment_to_a_literal_is_ignored() {
    let mut engine = engine_of(vec![once(vec![
        Statement::BlockingAssign { id: Operand::Literal(1), expr: lit(2) },
        Statement::NonBlockingAssign { id: Operand::Literal(1), expr: lit(2) },
        set("a", 1),
    ])]);
    assert_eq!(engine.step(), Ok(Phase::Advanced));
    assert_eq!(engine.step(), Ok(Phase::Executed));
    assert_eq!(
        engine.diagnostics(),
        &vec![Diagnostic::IgnoredStatement(Statement::BlockingAssign {
            id: Operand::Literal(1),
            expr: lit(2)
        })]
    );
    assert_eq!(engine.step(), Ok(Phase::Executed));
    assert_eq!(
        engine.diagnostics(),
        &vec![Diagnostic::IgnoredStatement(Statement::NonBlockingAssign {
            id: Operand::Literal(1),
            expr: lit(2)
        })]
    );
    assert_eq!(engine.deferred_queue().len(), 0);
    assert_eq!(engine.step(), Ok(Phase::Executed));
    assert_eq!(engine.diagnostics(), &vec![]);
    assert_eq!(engine.step(), Ok(Phase::Starved));
    assert_eq!(engine.snapshot(), Snapshot { time: 0, values: vec![Some(1)] });
}

#[test]
fn a_procedure_added_after_the_start_waits_for_the_next_start() {
    let mut engine = engine_of(vec![once(vec![set("a", 1), delay(5)])]);
    assert_eq!(engine.run().result, Ok(()));
    assert_eq!(engine.time(), 5);
    engine.add_proc(once(vec![set("b", 2)]));
    assert_eq!(engine.run().result, Ok(()));
    assert_eq!(engine.value_of("b"), None);
    assert_eq!(engine.init(), Ok(()));
    assert_eq!(engine.time(), 0);
    assert_eq!(engine.identifiers(), &vec!["a".to_string(), "b".to_string()]);
    assert_eq!(engine.run().result, Ok(()));
    assert_eq!(engine.value_of("b"), Some(2));
    assert_eq!(engine.value_of("a"), Some(1));
}

#[test]
fn a_wait_without_edges_blocks_for_good() {
    let mut engine = engine_of(vec![again(vec![wait(vec![]), set("a", 1)]), once(vec![set("x", 1)])]);
    assert_eq!(engine.run().result, Ok(()));
    assert_eq!(engine.value_of("a"), None);
    assert_eq!(engine.procedures()[0].counter, 1);
}

#[test]
fn what_the_engine_shows() {
    let mut engine = engine_of(vec![
        again(vec![wait(vec![rise("clk"), any("d")]), defer("q", Expression::Const(var("d")))]),
        once(vec![set("d", 7), set("clk", 0), delay(2), set("clk", 1)]),
    ]);
    assert_eq!(
        engine.show_proc(),
        "\nProcedure 0\nALWAYS\n @(posedge clk or d)\n q <= d\n\nProcedure 1\nINITIAL\n d = 7\n clk = 0\n #2\n clk = 1\n"
    );
    assert_eq!(
        engine.show_identifiers(),
        "\nIdentifiers\n--------------------------------------\n q\n d\n clk\n--------------------------------------\n\n"
    );
    assert_eq!(engine.step(), Ok(Phase::Advanced));
    assert_eq!(
        engine.show_blocked_pids(),
        "\nBlocked Procedures\n--------------------------------------\n posedge clk -> 0\n d -> 0\n--------------------------------------\n\n"
    );
    assert_eq!(engine.step(), Ok(Phase::Executed));
    assert_eq!(
        engine.show_queues(),
        "\nActive Queue\n--------------------------------------\n clk = 0\n q <= d\n--------------------------------------\n\n\nNonblocking Assignment Queue\n--------------------------------------\n--------------------------------------\n\n"
    );
    assert_eq!(engine.step(), Ok(Phase::Executed));
    assert_eq!(engine.step(), Ok(Phase::Executed));
    assert_eq!(
        engine.show_queues(),
        "\nActive Queue\n--------------------------------------\n--------------------------------------\n\n\nNonblocking Assignment Queue\n--------------------------------------\n q = 7\n--------------------------------------\n\n"
    );
    assert_eq!(
        engine.show_symtable(),
        "\nSymbol Table\n--------------------------------------\n d = 7\n clk = 0\n--------------------------------------\n\n"
    );
}

#[test]
fn assignments_only_need_exactly_their_steps_of_the_limit() {
    let design = || once(vec![set("a", 1), defer("b", lit(2))]);
    let mut engine = Engine::with_limit(5);
    engine.add_proc(design());
    assert_eq!(engine.init(), Ok(()));
    assert_eq!(engine.run().result, Ok(()));
    assert_eq!(engine.value_of("b"), Some(2));
    assert_eq!(engine.time(), 0);

    let mut engine = Engine::with_limit(4);
    engine.add_proc(design());
    assert_eq!(engine.init(), Ok(()));
    assert_eq!(engine.run().result, Err(SimError::CombinationalLoop));
    assert_eq!(engine.value_of("b"), None);

    let mut engine = Engine::with_limit(3);
    engine.add_proc(once(vec![set("a", 1), set("c", 3)]));
    assert_eq!(engine.init(), Ok(()));
    assert_eq!(engine.run().result, Ok(()));
}
