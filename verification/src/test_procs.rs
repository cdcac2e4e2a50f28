//! Ready-made procedures for trying the engine out.

use vstd::prelude::*;
use crate::procedure::{
    edge_views,
    Edge,
    EdgeView,
    Expression,
    ExpressionView,
    Operand,
    OperandView,
    Procedure,
    ProcedureType,
    ProcedureView,
    Statement,
    StatementView,
    Value,
};

verus! {

/// The blocking assignment of a literal to a variable.
pub open spec fn set_to(target: Seq<char>, value: Value) -> StatementView {
    StatementView::BlockingAssign {
        id: OperandView::Identifier(target),
        expr: ExpressionView::Const(OperandView::Literal(value)),
    }
}

/// The blocking assignment of `left | right` to a variable.
pub open spec fn set_to_or(target: Seq<char>, left: Seq<char>, right: Seq<char>) -> StatementView {
    StatementView::BlockingAssign {
        id: OperandView::Identifier(target),
        expr: ExpressionView::Or(OperandView::Identifier(left), OperandView::Identifier(right)),
    }
}

/// The non-blocking assignment of a literal to a variable.
pub open spec fn defer_to(target: Seq<char>, value: Value) -> StatementView {
    StatementView::NonBlockingAssign {
        id: OperandView::Identifier(target),
        expr: ExpressionView::Const(OperandView::Literal(value)),
    }
}

/// The non-blocking assignment of `left | right` to a variable.
pub open spec fn defer_to_or(
    target: Seq<char>,
    left: Seq<char>,
    right: Seq<char>,
) -> StatementView {
    StatementView::NonBlockingAssign {
        id: OperandView::Identifier(target),
        expr: ExpressionView::Or(OperandView::Identifier(left), OperandView::Identifier(right)),
    }
}

/// A wait for any change of one of the variables.
pub open spec fn wait_for(vars: Seq<Seq<char>>) -> StatementView {
    StatementView::AtChange { edges: vars.map_values(|var: Seq<char>| EdgeView::Any(var)) }
}

/// The statements of a clock of `cycles` periods: `clk` starts at 0; in each
/// period it rises to 1 after `half_period` and falls to 0 after another.
pub open spec fn clock_stmts(half_period: usize, cycles: nat) -> Seq<StatementView>
    decreases cycles,
{
    if cycles == 0 {
        seq![set_to("clk"@, 0)]
    } else {
        clock_stmts(half_period, (cycles - 1) as nat) + seq![
            StatementView::Delay { dly: half_period },
            set_to("clk"@, 1),
            StatementView::Delay { dly: half_period },
            set_to("clk"@, 0),
        ]
    }
}

/// A procedure that runs once and only waits 34 units of time.
pub fn build_proc1() -> (p: Procedure)
    ensures
        p@ == (ProcedureView {
            kind: ProcedureType::Initial,
            counter: 0,
            stmts: seq![StatementView::Delay { dly: 34 }],
        }),
{
    let mut p = Procedure { kind: ProcedureType::Initial, counter: 0, stmts: Vec::new() };
    p.push(Statement::Delay { dly: 34 });
    assert(p@.stmts =~= seq![StatementView::Delay { dly: 34 }]);
    p
}

/// A procedure that runs once: `c <= b | a`, then `a = b & 3`.
pub fn build_proc2() -> (p: Procedure)
    ensures
        p@ == (ProcedureView {
            kind: ProcedureType::Initial,
            counter: 0,
            stmts: seq![
                defer_to_or("c"@, "b"@, "a"@),
                StatementView::BlockingAssign {
                    id: OperandView::Identifier("a"@),
                    expr: ExpressionView::And(
                        OperandView::Identifier("b"@),
                        OperandView::Literal(3),
                    ),
                },
            ],
        }),
{
    let mut p = Procedure { kind: ProcedureType::Initial, counter: 0, stmts: Vec::new() };
    p.push(
        Statement::NonBlockingAssign {
            id: Operand::Identifier("c".to_string()),
            expr: Expression::Or(
                Operand::Identifier("b".to_string()),
                Operand::Identifier("a".to_string()),
            ),
        },
    );
    p.push(
        Statement::BlockingAssign {
            id: Operand::Identifier("a".to_string()),
            expr: Expression::And(Operand::Identifier("b".to_string()), Operand::Literal(3)),
        },
    );
    assert(p@.stmts =~= seq![
        defer_to_or("c"@, "b"@, "a"@),
        StatementView::BlockingAssign {
            id: OperandView::Identifier("a"@),
            expr: ExpressionView::And(OperandView::Identifier("b"@), OperandView::Literal(3)),
        },
    ]);
    p
}

/// A procedure that runs once, of blocking assignments only:
/// `a1 = 31`, `a2 = 32`, `a3 = a1 | a2`, `a1 = 0`.
pub fn build_proc3() -> (p: Procedure)
    ensures
        p@ == (ProcedureView {
            kind: ProcedureType::Initial,
            counter: 0,
            stmts: seq![
                set_to("a1"@, 31),
                set_to("a2"@, 32),
                set_to_or("a3"@, "a1"@, "a2"@),
                set_to("a1"@, 0),
            ],
        }),
{
    let mut p = Procedure { kind: ProcedureType::Initial, counter: 0, stmts: Vec::new() };
    p.push(
        Statement::BlockingAssign {
            id: Operand::Identifier("a1".to_string()),
            expr: Expression::Const(Operand::Literal(31)),
        },
    );
    p.push(
        Statement::BlockingAssign {
            id: Operand::Identifier("a2".to_string()),
            expr: Expression::Const(Operand::Literal(32)),
        },
    );
    p.push(
        Statement::BlockingAssign {
            id: Operand::Identifier("a3".to_string()),
            expr: Expression::Or(
                Operand::Identifier("a1".to_string()),
                Operand::Identifier("a2".to_string()),
            ),
        },
    );
    p.push(
        Statement::BlockingAssign {
            id: Operand::Identifier("a1".to_string()),
            expr: Expression::Const(Operand::Literal(0)),
        },
    );
    assert(p@.stmts =~= seq![
        set_to("a1"@, 31),
        set_to("a2"@, 32),
        set_to_or("a3"@, "a1"@, "a2"@),
        set_to("a1"@, 0),
    ]);
    p
}

/// A procedure that runs once, with a non-blocking assignment among blocking
/// ones: `b1 = 5`, `b2 = 10`, `b1 <= 100`, `b3 = b1 | b2`.
pub fn build_proc4() -> (p: Procedure)
    ensures
        p@ == (ProcedureView {
            kind: ProcedureType::Initial,
            counter: 0,
            stmts: seq![
                set_to("b1"@, 5),
                set_to("b2"@, 10),
                defer_to("b1"@, 100),
                set_to_or("b3"@, "b1"@, "b2"@),
            ],
        }),
{
    let mut p = Procedure { kind: ProcedureType::Initial, counter: 0, stmts: Vec::new() };
    p.push(
        Statement::BlockingAssign {
            id: Operand::Identifier("b1".to_string()),
            expr: Expression::Const(Operand::Literal(5)),
        },
    );
    p.push(
        Statement::BlockingAssign {
            id: Operand::Identifier("b2".to_string()),
            expr: Expression::Const(Operand::Literal(10)),
        },
    );
    p.push(
        Statement::NonBlockingAssign {
            id: Operand::Identifier("b1".to_string()),
            expr: Expression::Const(Operand::Literal(100)),
        },
    );
    p.push(
        Statement::BlockingAssign {
            id: Operand::Identifier("b3".to_string()),
            expr: Expression::Or(
                Operand::Identifier("b1".to_string()),
                Operand::Identifier("b2".to_string()),
            ),
        },
    );
    assert(p@.stmts =~= seq![
        set_to("b1"@, 5),
        set_to("b2"@, 10),
        defer_to("b1"@, 100),
        set_to_or("b3"@, "b1"@, "b2"@),
    ]);
    p
}

/// A procedure that runs once, like the one before but behind a delay:
/// `#5`, `c1 = 1280`, `c2 = 2560`, `c1 <= 25600`, `c3 = c1 | c2`.
pub fn build_proc5() -> (p: Procedure)
    ensures
        p@ == (ProcedureView {
            kind: ProcedureType::Initial,
            counter: 0,
            stmts: seq![
                StatementView::Delay { dly: 5 },
                set_to("c1"@, 1280),
                set_to("c2"@, 2560),
                defer_to("c1"@, 25600),
                set_to_or("c3"@, "c1"@, "c2"@),
            ],
        }),
{
    let mut p = Procedure { kind: ProcedureType::Initial, counter: 0, stmts: Vec::new() };
    p.push(Statement::Delay { dly: 5 });
    p.push(
        Statement::BlockingAssign {
            id: Operand::Identifier("c1".to_string()),
            expr: Expression::Const(Operand::Literal(5 * 256)),
        },
    );
    p.push(
        Statement::BlockingAssign {
            id: Operand::Identifier("c2".to_string()),
            expr: Expression::Const(Operand::Literal(10 * 256)),
        },
    );
    p.push(
        Statement::NonBlockingAssign {
            id: Operand::Identifier("c1".to_string()),
            expr: Expression::Const(Operand::Literal(100 * 256)),
        },
    );
    p.push(
        Statement::BlockingAssign {
            id: Operand::Identifier("c3".to_string()),
            expr: Expression::Or(
                Operand::Identifier("c1".to_string()),
                Operand::Identifier("c2".to_string()),
            ),
        },
    );
    assert(p@.stmts =~= seq![
        StatementView::Delay { dly: 5 },
        set_to("c1"@, 1280),
        set_to("c2"@, 2560),
        defer_to("c1"@, 25600),
        set_to_or("c3"@, "c1"@, "c2"@),
    ]);
    p
}

/// A procedure that starts again: it waits for a change of `b3` or `c3`, then
/// `at_b3_c3 <= b3 | c3`.
pub fn build_proc6() -> (p: Procedure)
    ensures
        p@ == (ProcedureView {
            kind: ProcedureType::Always,
            counter: 0,
            stmts: seq![
                wait_for(seq!["b3"@, "c3"@]),
                defer_to_or("at_b3_c3"@, "b3"@, "c3"@),
            ],
        }),
{
    let mut p = Procedure { kind: ProcedureType::Always, counter: 0, stmts: Vec::new() };
    let mut edges: Vec<Edge> = Vec::new();
    edges.push(Edge::Any("b3".to_string()));
    edges.push(Edge::Any("c3".to_string()));
    assert(edge_views(edges@) =~= seq!["b3"@, "c3"@].map_values(
        |var: Seq<char>| EdgeView::Any(var),
    ));
    p.push(Statement::AtChange { edges });
    p.push(
        Statement::NonBlockingAssign {
            id: Operand::Identifier("at_b3_c3".to_string()),
            expr: Expression::Or(
                Operand::Identifier("b3".to_string()),
                Operand::Identifier("c3".to_string()),
            ),
        },
    );
    assert(p@.stmts =~= seq![
        wait_for(seq!["b3"@, "c3"@]),
        defer_to_or("at_b3_c3"@, "b3"@, "c3"@),
    ]);
    p
}

/// A clock that runs once through `cycles` periods: `clk` starts at 0; in
/// each period it rises to 1 after `half_period` and falls to 0 after another.
pub fn build_clock(half_period: usize, cycles: usize) -> (p: Procedure)
    ensures
        p@ == (ProcedureView {
            kind: ProcedureType::Initial,
            counter: 0,
            stmts: clock_stmts(half_period, cycles as nat),
        }),
{
    let mut p = Procedure { kind: ProcedureType::Initial, counter: 0, stmts: Vec::new() };
    p.push(
        Statement::BlockingAssign {
            id: Operand::Identifier("clk".to_string()),
            expr: Expression::Const(Operand::Literal(0)),
        },
    );
    assert(p@.stmts =~= clock_stmts(half_period, 0));
    let mut done: usize = 0;
    while done < cycles
        invariant
            done <= cycles,
            p@ == (ProcedureView {
                kind: ProcedureType::Initial,
                counter: 0,
                stmts: clock_stmts(half_period, done as nat),
            }),
        decreases cycles - done,
    {
        p.push(Statement::Delay { dly: half_period });
        p.push(
            Statement::BlockingAssign {
                id: Operand::Identifier("clk".to_string()),
                expr: Expression::Const(Operand::Literal(1)),
            },
        );
        p.push(Statement::Delay { dly: half_period });
        p.push(
            Statement::BlockingAssign {
                id: Operand::Identifier("clk".to_string()),
                expr: Expression::Const(Operand::Literal(0)),
            },
        );
        done += 1;
        assert(p@.stmts =~= clock_stmts(half_period, done as nat));
    }
    p
}

/// A flip-flop that starts again: it waits for a change of `clk`, then
/// `ff_out = ff_in`.
pub fn build_flop(ff_in: &str, ff_out: &str) -> (p: Procedure)
    ensures
        p@ == (ProcedureView {
            kind: ProcedureType::Always,
            counter: 0,
            stmts: seq![
                wait_for(seq!["clk"@]),
                StatementView::BlockingAssign {
                    id: OperandView::Identifier(ff_out@),
                    expr: ExpressionView::Const(OperandView::Identifier(ff_in@)),
                },
            ],
        }),
{
    let mut p = Procedure { kind: ProcedureType::Always, counter: 0, stmts: Vec::new() };
    let mut edges: Vec<Edge> = Vec::new();
    edges.push(Edge::Any("clk".to_string()));
    assert(edge_views(edges@) =~= seq!["clk"@].map_values(|var: Seq<char>| EdgeView::Any(var)));
    p.push(Statement::AtChange { edges });
    p.push(
        Statement::BlockingAssign {
            id: Operand::Identifier(ff_out.to_string()),
            expr: Expression::Const(Operand::Identifier(ff_in.to_string())),
        },
    );
    assert(p@.stmts =~= seq![
        wait_for(seq!["clk"@]),
        StatementView::BlockingAssign {
            id: OperandView::Identifier(ff_out@),
            expr: ExpressionView::Const(OperandView::Identifier(ff_in@)),
        },
    ]);
    p
}

} // verus!
