//! What the engine remarks on while it goes on: nothing that stops a
//! simulation, but what a designer will want to know.

use vstd::prelude::*;
use vstd::std_specs::cmp::PartialEqSpecImpl;
use crate::procedure::{ExpressionView, OperandView, Statement, StatementView, Value};

verus! {

/// A remark of the engine.
#[derive(Debug)]
pub enum Diagnostic {
    /// A variable was read that has no value: it was read as 0.
    UndefinedVariable(String),
    /// A statement was found in the active queue that cannot be executed
    /// there: an assignment to a literal, a delay or a wait. It was ignored.
    IgnoredStatement(Statement),
}

/// What a [`Diagnostic`] stands for.
pub enum DiagnosticView {
    UndefinedVariable(Seq<char>),
    IgnoredStatement(StatementView),
}

impl View for Diagnostic {
    type V = DiagnosticView;

    open spec fn view(&self) -> DiagnosticView {
        match *self {
            Diagnostic::UndefinedVariable(name) => DiagnosticView::UndefinedVariable(name@),
            Diagnostic::IgnoredStatement(stmt) => DiagnosticView::IgnoredStatement(stmt@),
        }
    }
}

impl Clone for Diagnostic {
    fn clone(&self) -> (copy: Diagnostic)
        ensures
            copy@ == self@,
    {
        match self {
            Diagnostic::UndefinedVariable(name) => Diagnostic::UndefinedVariable(name.clone()),
            Diagnostic::IgnoredStatement(stmt) => Diagnostic::IgnoredStatement(stmt.clone()),
        }
    }
}

impl PartialEq for Diagnostic {
    fn eq(&self, other: &Diagnostic) -> (equal: bool) {
        match (self, other) {
            (Diagnostic::UndefinedVariable(a), Diagnostic::UndefinedVariable(b)) => *a == *b,
            (Diagnostic::IgnoredStatement(a), Diagnostic::IgnoredStatement(b)) => *a == *b,
            _ => false,
        }
    }
}

impl PartialEqSpecImpl for Diagnostic {
    open spec fn obeys_eq_spec() -> bool {
        true
    }

    open spec fn eq_spec(&self, other: &Diagnostic) -> bool {
        self@ == other@
    }
}

/// What a list of remarks stands for.
pub open spec fn diagnostic_views(diagnostics: Seq<Diagnostic>) -> Seq<DiagnosticView> {
    diagnostics.map_values(|diagnostic: Diagnostic| diagnostic@)
}

/// The remark that reading the operand calls for: one if it is a variable
/// without a value, none else.
pub open spec fn unread(store: Map<Seq<char>, Value>, operand: OperandView) -> Seq<DiagnosticView> {
    match operand {
        OperandView::Identifier(var) if !store.contains_key(var) => seq![
            DiagnosticView::UndefinedVariable(var),
        ],
        _ => Seq::empty(),
    }
}

/// The remarks that evaluating the expression calls for, operand by operand.
pub open spec fn unread_in(store: Map<Seq<char>, Value>, expr: ExpressionView) -> Seq<
    DiagnosticView,
> {
    match expr {
        ExpressionView::Const(a) => unread(store, a),
        ExpressionView::And(a, b) => unread(store, a) + unread(store, b),
        ExpressionView::Or(a, b) => unread(store, a) + unread(store, b),
        ExpressionView::Not(a) => unread(store, a),
    }
}

} // verus!
