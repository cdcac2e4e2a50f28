//! How numbers, operands, expressions, edges, statements and procedures are
//! written out.

use vstd::prelude::*;
use vstd::string::*;
use crate::procedure::{
    Edge,
    EdgeView,
    Expression,
    ExpressionView,
    Operand,
    OperandView,
    Procedure,
    ProcedureType,
    ProcedureView,
    Statement,
    StatementView,
};

verus! {

/// The character of a digit below ten.
pub open spec fn digit(d: nat) -> char {
    if d == 0 {
        '0'
    } else if d == 1 {
        '1'
    } else if d == 2 {
        '2'
    } else if d == 3 {
        '3'
    } else if d == 4 {
        '4'
    } else if d == 5 {
        '5'
    } else if d == 6 {
        '6'
    } else if d == 7 {
        '7'
    } else if d == 8 {
        '8'
    } else {
        '9'
    }
}

/// The digits of a number to a base of at most ten, the most significant
/// first, without leading zeros.
pub open spec fn numeral(n: nat, base: nat) -> Seq<char>
    decreases n,
{
    if n < base || base < 2 {
        seq![digit(n)]
    } else {
        proof {
            vstd::arithmetic::div_mod::lemma_div_decreases(n as int, base as int);
        }
        numeral(n / base, base).push(digit(n % base))
    }
}

/// The decimal digits of a number.
pub open spec fn decimal(n: nat) -> Seq<char> {
    numeral(n, 10)
}

/// The binary digits of a number.
pub open spec fn binary(n: nat) -> Seq<char> {
    numeral(n, 2)
}

/// The parts in order, with the separator between each two.
pub open spec fn joined(parts: Seq<Seq<char>>, separator: Seq<char>) -> Seq<char>
    decreases parts.len(),
{
    if parts.len() == 0 {
        Seq::empty()
    } else if parts.len() == 1 {
        parts[0]
    } else {
        joined(parts.drop_last(), separator) + separator + parts.last()
    }
}

/// The parts in order, one after the other.
pub open spec fn concatenated(parts: Seq<Seq<char>>) -> Seq<char>
    decreases parts.len(),
{
    if parts.len() == 0 {
        Seq::empty()
    } else {
        concatenated(parts.drop_last()) + parts.last()
    }
}

impl OperandView {
    /// A literal is written as its decimal digits, a variable as its name.
    pub open spec fn text(self) -> Seq<char> {
        match self {
            OperandView::Literal(value) => decimal(value as nat),
            OperandView::Identifier(name) => name,
        }
    }
}

impl ExpressionView {
    /// `a`, `a & b`, `a | b` or `~a`.
    pub open spec fn text(self) -> Seq<char> {
        match self {
            ExpressionView::Const(a) => a.text(),
            ExpressionView::And(a, b) => a.text() + " & "@ + b.text(),
            ExpressionView::Or(a, b) => a.text() + " | "@ + b.text(),
            ExpressionView::Not(a) => "~"@ + a.text(),
        }
    }
}

impl EdgeView {
    /// `x` for any change, `posedge x` for a rise, `negedge x` for a fall.
    pub open spec fn text(self) -> Seq<char> {
        match self {
            EdgeView::Any(var) => var,
            EdgeView::Rise(var) => "posedge "@ + var,
            EdgeView::Fall(var) => "negedge "@ + var,
        }
    }
}

impl StatementView {
    /// `#d` for a delay, `x = e` and `x <= e` for the assignments, and
    /// `@(e1 or e2)` for a wait.
    pub open spec fn text(self) -> Seq<char> {
        match self {
            StatementView::Delay { dly } => "#"@ + decimal(dly as nat),
            StatementView::BlockingAssign { id, expr } => id.text() + " = "@ + expr.text(),
            StatementView::NonBlockingAssign { id, expr } => id.text() + " <= "@ + expr.text(),
            StatementView::AtChange { edges } => "@("@ + joined(
                edges.map_values(|edge: EdgeView| edge.text()),
                " or "@,
            ) + ")"@,
        }
    }
}

/// How the kind of a procedure is written.
pub open spec fn kind_text(kind: ProcedureType) -> Seq<char> {
    match kind {
        ProcedureType::Initial => "INITIAL"@,
        ProcedureType::Always => "ALWAYS"@,
    }
}

impl ProcedureView {
    /// The kind on a line of its own, then each statement on a line of its
    /// own behind a blank.
    pub open spec fn text(self) -> Seq<char> {
        kind_text(self.kind) + "\n"@ + concatenated(
            self.stmts.map_values(|stmt: StatementView| " "@ + stmt.text() + "\n"@),
        )
    }
}

/// The text of one digit.
fn digit_str(d: usize) -> (text: &'static str)
    requires
        d < 10,
    ensures
        text@ == seq![digit(d as nat)],
{
    proof {
        reveal_strlit("0");
        reveal_strlit("1");
        reveal_strlit("2");
        reveal_strlit("3");
        reveal_strlit("4");
        reveal_strlit("5");
        reveal_strlit("6");
        reveal_strlit("7");
        reveal_strlit("8");
        reveal_strlit("9");
    }
    let text = if d == 0 {
        "0"
    } else if d == 1 {
        "1"
    } else if d == 2 {
        "2"
    } else if d == 3 {
        "3"
    } else if d == 4 {
        "4"
    } else if d == 5 {
        "5"
    } else if d == 6 {
        "6"
    } else if d == 7 {
        "7"
    } else if d == 8 {
        "8"
    } else {
        "9"
    };
    text
}

/// Writes a number to a base from two to ten.
pub fn numeral_text(n: usize, base: usize) -> (text: String)
    requires
        2 <= base <= 10,
    ensures
        text@ == numeral(n as nat, base as nat),
    decreases n,
{
    if n < base {
        digit_str(n).to_string()
    } else {
        proof {
            vstd::arithmetic::div_mod::lemma_div_decreases(n as int, base as int);
        }
        let mut text = numeral_text(n / base, base);
        text.append(digit_str(n % base));
        text
    }
}

/// Writes a number in decimal digits.
pub fn decimal_text(n: usize) -> (text: String)
    ensures
        text@ == decimal(n as nat),
{
    numeral_text(n, 10)
}

/// Writes a number in binary digits.
pub fn binary_text(n: usize) -> (text: String)
    ensures
        text@ == binary(n as nat),
{
    numeral_text(n, 2)
}

impl Operand {
    /// Writes the operand: a literal as its decimal digits, a variable as its name.
    pub fn to_string(&self) -> (text: String)
        ensures
            text@ == self@.text(),
    {
        match self {
            Operand::Literal(num) => decimal_text(*num),
            Operand::Identifier(var) => var.clone(),
        }
    }
}

impl Expression {
    /// Writes the expression: `a`, `a & b`, `a | b` or `~a`.
    pub fn to_string(&self) -> (text: String)
        ensures
            text@ == self@.text(),
    {
        match self {
            Expression::Const(a) => a.to_string(),
            Expression::And(a, b) => {
                let mut text = a.to_string();
                text.append(" & ");
                text.append(b.to_string().as_str());
                text
            },
            Expression::Or(a, b) => {
                let mut text = a.to_string();
                text.append(" | ");
                text.append(b.to_string().as_str());
                text
            },
            Expression::Not(a) => {
                let mut text = "~".to_string();
                text.append(a.to_string().as_str());
                text
            },
        }
    }
}

impl Edge {
    /// Writes the edge: `x` for any change, `posedge x` for a rise,
    /// `negedge x` for a fall.
    pub fn to_string(&self) -> (text: String)
        ensures
            text@ == self@.text(),
    {
        match self {
            Edge::Any(var) => var.clone(),
            Edge::Rise(var) => {
                let mut text = "posedge ".to_string();
                text.append(var.as_str());
                text
            },
            Edge::Fall(var) => {
                let mut text = "negedge ".to_string();
                text.append(var.as_str());
                text
            },
        }
    }
}

impl Statement {
    /// Writes the statement: `#d` for a delay, `x = e` and `x <= e` for the
    /// assignments, and `@(e1 or e2)` for a wait.
    pub fn to_string(&self) -> (text: String)
        ensures
            text@ == self@.text(),
    {
        match self {
            Statement::Delay { dly } => {
                let mut text = "#".to_string();
                text.append(decimal_text(*dly).as_str());
                text
            },
            Statement::BlockingAssign { id, expr } => {
                let mut text = id.to_string();
                text.append(" = ");
                text.append(expr.to_string().as_str());
                text
            },
            Statement::NonBlockingAssign { id, expr } => {
                let mut text = id.to_string();
                text.append(" <= ");
                text.append(expr.to_string().as_str());
                text
            },
            Statement::AtChange { edges } => {
                let ghost parts = self@->edges.map_values(|edge: EdgeView| edge.text());
                let mut list = String::new();
                let mut i: usize = 0;
                while i < edges.len()
                    invariant
                        i <= edges.len(),
                        parts.len() == edges.len(),
                        forall|k: int| 0 <= k < edges.len() ==> parts[k] == edges[k]@.text(),
                        list@ == joined(parts.take(i as int), " or "@),
                    decreases edges.len() - i,
                {
                    assert(parts.take(i + 1).drop_last() =~= parts.take(i as int));
                    if i > 0 {
                        list.append(" or ");
                    }
                    list.append(edges[i].to_string().as_str());
                    i += 1;
                }
                assert(parts.take(i as int) =~= parts);
                let mut text = "@(".to_string();
                text.append(list.as_str());
                text.append(")");
                text
            },
        }
    }
}

impl ProcedureType {
    /// Writes the kind: `INITIAL` or `ALWAYS`.
    pub fn to_string(&self) -> (text: String)
        ensures
            text@ == kind_text(*self),
    {
        match self {
            ProcedureType::Initial => "INITIAL".to_string(),
            ProcedureType::Always => "ALWAYS".to_string(),
        }
    }
}

impl Procedure {
    /// Writes the procedure: its kind on a line of its own, then each
    /// statement on a line of its own behind a blank.
    pub fn show(&self) -> (text: String)
        ensures
            text@ == self@.text(),
    {
        let ghost lines = self@.stmts.map_values(|stmt: StatementView| " "@ + stmt.text() + "\n"@);
        let mut text = self.kind.to_string();
        text.append("\n");
        let mut body = String::new();
        let mut i: usize = 0;
        while i < self.stmts.len()
            invariant
                i <= self.stmts.len(),
                lines.len() == self.stmts.len(),
                forall|k: int|
                    0 <= k < self.stmts.len() ==> lines[k] == " "@ + self.stmts[k]@.text() + "\n"@,
                body@ == concatenated(lines.take(i as int)),
            decreases self.stmts.len() - i,
        {
            assert(lines.take(i + 1).drop_last() =~= lines.take(i as int));
            body.append(" ");
            body.append(self.stmts[i].to_string().as_str());
            body.append("\n");
            i += 1;
        }
        assert(lines.take(i as int) =~= lines);
        text.append(body.as_str());
        text
    }
}

} // verus!
