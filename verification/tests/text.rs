use tiny_verilog::procedure::{
    Edge, Expression, Operand, Procedure, ProcedureType, Statement,
};
use tiny_verilog::text::{binary_text, decimal_text, numeral_text};

fn var(name: &str) -> Operand {
    Operand::Identifier(name.to_string())
}

#[test]
fn numbers_in_decimal() {
    assert_eq!(decimal_text(0), "0");
    assert_eq!(decimal_text(7), "7");
    assert_eq!(decimal_text(10), "10");
    assert_eq!(decimal_text(25600), "25600");
    assert_eq!(decimal_text(1234567890), "1234567890");
    assert_eq!(decimal_text(usize::MAX), format!("{}", usize::MAX));
}

#[test]
fn numbers_in_binary() {
    assert_eq!(binary_text(0), "0");
    assert_eq!(binary_text(1), "1");
    assert_eq!(binary_text(5), "101");
    assert_eq!(binary_text(3840), "111100000000");
    assert_eq!(binary_text(usize::MAX), format!("{:b}", usize::MAX));
}

#[test]
fn numbers_to_other_bases() {
    assert_eq!(numeral_text(8, 8), "10");
    assert_eq!(numeral_text(26, 3), "222");
}

#[test]
fn operands_as_text() {
    assert_eq!(Operand::Literal(31).to_string(), "31");
    assert_eq!(var("a1").to_string(), "a1");
}

#[test]
fn expressions_as_text() {
    assert_eq!(Expression::Const(Operand::Literal(3)).to_string(), "3");
    assert_eq!(Expression::And(var("b"), Operand::Literal(3)).to_string(), "b & 3");
    assert_eq!(Expression::Or(var("b"), var("a")).to_string(), "b | a");
    assert_eq!(Expression::Not(var("x")).to_string(), "~x");
}

#[test]
fn edges_as_text() {
    assert_eq!(Edge::Any("clk".to_string()).to_string(), "clk");
    assert_eq!(Edge::Rise("clk".to_string()).to_string(), "posedge clk");
    assert_eq!(Edge::Fall("clk".to_string()).to_string(), "negedge clk");
}

#[test]
fn statements_as_text() {
    assert_eq!(Statement::Delay { dly: 34 }.to_string(), "#34");
    assert_eq!(
        Statement::BlockingAssign {
            id: var("a"),
            expr: Expression::And(var("b"), Operand::Literal(3))
        }
        .to_string(),
        "a = b & 3"
    );
    assert_eq!(
        Statement::NonBlockingAssign { id: var("c"), expr: Expression::Or(var("b"), var("a")) }
            .to_string(),
        "c <= b | a"
    );
    assert_eq!(Statement::AtChange { edges: vec![] }.to_string(), "@()");
    assert_eq!(
        Statement::AtChange { edges: vec![Edge::Rise("clk".to_string())] }.to_string(),
        "@(posedge clk)"
    );
    assert_eq!(
        Statement::AtChange {
            edges: vec![
                Edge::Any("b3".to_string()),
                Edge::Fall("c3".to_string()),
                Edge::Rise("d".to_string())
            ]
        }
        .to_string(),
        "@(b3 or negedge c3 or posedge d)"
    );
}

#[test]
fn kinds_as_text() {
    assert_eq!(ProcedureType::Initial.to_string(), "INITIAL");
    assert_eq!(ProcedureType::Always.to_string(), "ALWAYS");
}

#[test]
fn procedures_as_text() {
    let p = Procedure {
        kind: ProcedureType::Always,
        counter: 0,
        stmts: vec![
            Statement::AtChange { edges: vec![Edge::Any("clk".to_string())] },
            Statement::BlockingAssign { id: var("q"), expr: Expression::Const(var("d")) },
        ],
    };
    assert_eq!(p.show(), "ALWAYS\n @(clk)\n q = d\n");
    let empty = Procedure { kind: ProcedureType::Initial, counter: 0, stmts: vec![] };
    assert_eq!(empty.show(), "INITIAL\n");
}
