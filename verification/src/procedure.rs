//! Operands, expressions, edges, statements and procedures.
//!
//! Every type that holds a name has a view in which the name is a sequence of
//! characters; contracts speak of the views.

use vstd::prelude::*;
use vstd::std_specs::cmp::PartialEqSpecImpl;

verus! {

/// The unit of storage and of logic operations.
pub type Value = usize;

/// Simulated time.
pub type Time = usize;

/// The position of a procedure in the engine's list.
pub type ProcId = usize;

/// The names that a list of strings holds.
pub open spec fn names(list: Seq<String>) -> Seq<Seq<char>> {
    list.map_values(|name: String| name@)
}

/// An item is in a sequence with one more item if it is that item or was in the sequence.
pub proof fn lemma_push_contains<A>(items: Seq<A>, last: A, item: A)
    ensures
        items.push(last).contains(item) <==> items.contains(item) || item == last,
{
    if items.contains(item) {
        let i = items.index_of(item);
        assert(items.push(last)[i] == item);
    }
    if item == last {
        assert(items.push(last)[items.len() as int] == item);
    }
}

/// The items of a sequence in the order of their first occurrence, each once.
pub open spec fn distinct<A>(items: Seq<A>) -> Seq<A>
    decreases items.len(),
{
    if items.len() == 0 {
        Seq::empty()
    } else {
        let kept = distinct(items.drop_last());
        if kept.contains(items.last()) {
            kept
        } else {
            kept.push(items.last())
        }
    }
}

/// `distinct` keeps exactly the items of the sequence, and none of them twice.
pub proof fn lemma_distinct<A>(items: Seq<A>)
    ensures
        distinct(items).no_duplicates(),
        forall|item: A|
            #![trigger distinct(items).contains(item)]
            #![trigger items.contains(item)]
            distinct(items).contains(item) <==> items.contains(item),
    decreases items.len(),
{
    if items.len() > 0 {
        let front = items.drop_last();
        let kept = distinct(front);
        lemma_distinct(front);
        assert(items =~= front.push(items.last()));
        assert forall|item: A| distinct(items).contains(item) <==> items.contains(item) by {
            assert(distinct(items).contains(item) <==> kept.contains(item) || item
                == items.last()) by {
                if kept.contains(item) {
                    let k = kept.index_of(item);
                    assert(distinct(items)[k] == item);
                }
                if item == items.last() && !kept.contains(item) {
                    assert(distinct(items)[kept.len() as int] == item);
                }
            }
        }
    }
}

/// A sequence that holds no item twice is its own list of distinct items.
pub proof fn lemma_distinct_same<A>(items: Seq<A>)
    requires
        items.no_duplicates(),
    ensures
        distinct(items) == items,
    decreases items.len(),
{
    if items.len() > 0 {
        let front = items.drop_last();
        lemma_distinct_same(front);
    }
}

/// Items that were listed once each add to a list what the full list of them adds.
pub proof fn lemma_distinct_absorbs<A>(before: Seq<A>, items: Seq<A>)
    ensures
        distinct(before + distinct(items)) == distinct(before + items),
    decreases items.len(),
{
    if items.len() > 0 {
        let front = items.drop_last();
        let last = items.last();
        let kept = distinct(front);
        lemma_distinct_absorbs(before, front);
        lemma_distinct(front);
        lemma_distinct(before + front);
        assert((before + items).drop_last() =~= before + front);
        if kept.contains(last) {
            let i = front.index_of(last);
            assert((before + front)[before.len() + i] == last);
        } else {
            assert((before + kept.push(last)).drop_last() =~= before + kept);
        }
    }
}

/// A literal value or a named reference into the value store.
#[derive(Debug)]
pub enum Operand {
    Literal(Value),
    Identifier(String),
}

/// What an [`Operand`] stands for.
pub enum OperandView {
    Literal(Value),
    Identifier(Seq<char>),
}

impl View for Operand {
    type V = OperandView;

    open spec fn view(&self) -> OperandView {
        match *self {
            Operand::Literal(value) => OperandView::Literal(value),
            Operand::Identifier(name) => OperandView::Identifier(name@),
        }
    }
}

impl OperandView {
    /// The variables that the operand names: one for an identifier, none for a literal.
    pub open spec fn identifiers(self) -> Seq<Seq<char>> {
        match self {
            OperandView::Literal(_) => Seq::empty(),
            OperandView::Identifier(name) => seq![name],
        }
    }
}

impl Clone for Operand {
    fn clone(&self) -> (copy: Operand)
        ensures
            copy@ == self@,
    {
        match self {
            Operand::Literal(value) => Operand::Literal(*value),
            Operand::Identifier(name) => Operand::Identifier(name.clone()),
        }
    }
}

impl PartialEq for Operand {
    fn eq(&self, other: &Operand) -> (equal: bool) {
        match (self, other) {
            (Operand::Literal(a), Operand::Literal(b)) => *a == *b,
            (Operand::Identifier(a), Operand::Identifier(b)) => *a == *b,
            _ => false,
        }
    }
}

impl PartialEqSpecImpl for Operand {
    open spec fn obeys_eq_spec() -> bool {
        true
    }

    open spec fn eq_spec(&self, other: &Operand) -> bool {
        self@ == other@
    }
}

impl Operand {
    /// The name of the variable, if the operand is one.
    pub fn get_identifier(&self) -> (name: Option<String>)
        ensures
            match name {
                Some(text) => self@ == OperandView::Identifier(text@),
                None => self@ is Literal,
            },
    {
        match self {
            Operand::Identifier(var) => Some(var.clone()),
            Operand::Literal(_) => None,
        }
    }
}

/// A constant, or a bitwise combination of operands.
#[derive(Debug)]
pub enum Expression {
    Const(Operand),
    And(Operand, Operand),
    Or(Operand, Operand),
    Not(Operand),
}

/// What an [`Expression`] stands for.
pub enum ExpressionView {
    Const(OperandView),
    And(OperandView, OperandView),
    Or(OperandView, OperandView),
    Not(OperandView),
}

impl View for Expression {
    type V = ExpressionView;

    open spec fn view(&self) -> ExpressionView {
        match *self {
            Expression::Const(a) => ExpressionView::Const(a@),
            Expression::And(a, b) => ExpressionView::And(a@, b@),
            Expression::Or(a, b) => ExpressionView::Or(a@, b@),
            Expression::Not(a) => ExpressionView::Not(a@),
        }
    }
}

impl ExpressionView {
    /// The variables that the expression reads, left to right.
    pub open spec fn identifiers(self) -> Seq<Seq<char>> {
        match self {
            ExpressionView::Const(a) => a.identifiers(),
            ExpressionView::And(a, b) => a.identifiers() + b.identifiers(),
            ExpressionView::Or(a, b) => a.identifiers() + b.identifiers(),
            ExpressionView::Not(a) => a.identifiers(),
        }
    }
}

impl Clone for Expression {
    fn clone(&self) -> (copy: Expression)
        ensures
            copy@ == self@,
    {
        match self {
            Expression::Const(a) => Expression::Const(a.clone()),
            Expression::And(a, b) => Expression::And(a.clone(), b.clone()),
            Expression::Or(a, b) => Expression::Or(a.clone(), b.clone()),
            Expression::Not(a) => Expression::Not(a.clone()),
        }
    }
}

impl PartialEq for Expression {
    fn eq(&self, other: &Expression) -> (equal: bool) {
        match (self, other) {
            (Expression::Const(a), Expression::Const(c)) => *a == *c,
            (Expression::And(a, b), Expression::And(c, d)) => *a == *c && *b == *d,
            (Expression::Or(a, b), Expression::Or(c, d)) => *a == *c && *b == *d,
            (Expression::Not(a), Expression::Not(c)) => *a == *c,
            _ => false,
        }
    }
}

impl PartialEqSpecImpl for Expression {
    open spec fn obeys_eq_spec() -> bool {
        true
    }

    open spec fn eq_spec(&self, other: &Expression) -> bool {
        self@ == other@
    }
}

impl Expression {
    /// The variables that the expression reads, left to right.
    pub fn get_identifiers(&self) -> (vars: Vec<String>)
        ensures
            names(vars@) == self@.identifiers(),
    {
        let mut vars: Vec<String> = Vec::new();
        match self {
            Expression::Const(a) | Expression::Not(a) => {
                if let Some(var) = a.get_identifier() {
                    vars.push(var);
                }
            },
            Expression::And(a, b) | Expression::Or(a, b) => {
                if let Some(var) = a.get_identifier() {
                    vars.push(var);
                }
                if let Some(var) = b.get_identifier() {
                    vars.push(var);
                }
            },
        }
        vars
    }
}

/// A condition on one variable that wakes the procedures waiting for it.
#[derive(Debug, Hash)]
pub enum Edge {
    /// From zero to a value that is not zero.
    Rise(String),
    /// From a value that is not zero to zero.
    Fall(String),
    /// Any change of the value.
    Any(String),
}

/// What an [`Edge`] stands for.
pub enum EdgeView {
    Rise(Seq<char>),
    Fall(Seq<char>),
    Any(Seq<char>),
}

impl View for Edge {
    type V = EdgeView;

    open spec fn view(&self) -> EdgeView {
        match *self {
            Edge::Rise(name) => EdgeView::Rise(name@),
            Edge::Fall(name) => EdgeView::Fall(name@),
            Edge::Any(name) => EdgeView::Any(name@),
        }
    }
}

impl EdgeView {
    /// The variable that the edge watches.
    pub open spec fn variable(self) -> Seq<char> {
        match self {
            EdgeView::Rise(name) => name,
            EdgeView::Fall(name) => name,
            EdgeView::Any(name) => name,
        }
    }
}

impl Clone for Edge {
    fn clone(&self) -> (copy: Edge)
        ensures
            copy@ == self@,
    {
        match self {
            Edge::Rise(name) => Edge::Rise(name.clone()),
            Edge::Fall(name) => Edge::Fall(name.clone()),
            Edge::Any(name) => Edge::Any(name.clone()),
        }
    }
}

impl PartialEq for Edge {
    fn eq(&self, other: &Edge) -> (equal: bool) {
        match (self, other) {
            (Edge::Rise(a), Edge::Rise(b)) => *a == *b,
            (Edge::Fall(a), Edge::Fall(b)) => *a == *b,
            (Edge::Any(a), Edge::Any(b)) => *a == *b,
            _ => false,
        }
    }
}

impl PartialEqSpecImpl for Edge {
    open spec fn obeys_eq_spec() -> bool {
        true
    }

    open spec fn eq_spec(&self, other: &Edge) -> bool {
        self@ == other@
    }
}

impl Eq for Edge {

}

/// What a list of edges stands for.
pub open spec fn edge_views(edges: Seq<Edge>) -> Seq<EdgeView> {
    edges.map_values(|edge: Edge| edge@)
}

/// A copy of a list of edges.
pub fn clone_edges(edges: &Vec<Edge>) -> (copy: Vec<Edge>)
    ensures
        edge_views(copy@) == edge_views(edges@),
{
    let mut copy: Vec<Edge> = Vec::new();
    let mut i: usize = 0;
    while i < edges.len()
        invariant
            i <= edges.len(),
            copy.len() == i,
            forall|k: int| 0 <= k < i ==> copy[k]@ == edges[k]@,
        decreases edges.len() - i,
    {
        copy.push(edges[i].clone());
        i += 1;
    }
    copy
}

/// Whether two lists of edges stand for the same edges in the same order.
pub fn same_edges(left: &Vec<Edge>, right: &Vec<Edge>) -> (equal: bool)
    ensures
        equal == (edge_views(left@) == edge_views(right@)),
{
    if left.len() != right.len() {
        return false;
    }
    let mut i: usize = 0;
    while i < left.len()
        invariant
            i <= left.len(),
            left.len() == right.len(),
            forall|k: int| 0 <= k < i ==> left[k]@ == right[k]@,
        decreases left.len() - i,
    {
        if !(left[i] == right[i]) {
            assert(edge_views(left@)[i as int] != edge_views(right@)[i as int]);
            return false;
        }
        i += 1;
    }
    assert(edge_views(left@) =~= edge_views(right@));
    true
}

/// One step of a procedure.
#[derive(Debug)]
pub enum Statement {
    /// Suspend the procedure until simulated time has advanced by `dly`.
    Delay { dly: Time },
    /// Evaluate `expr` and write it to `id` at once.
    BlockingAssign { id: Operand, expr: Expression },
    /// Evaluate `expr` at once; write it to `id` when the instant's active work is done.
    NonBlockingAssign { id: Operand, expr: Expression },
    /// Suspend the procedure until one of the edges fires.
    AtChange { edges: Vec<Edge> },
}

/// What a [`Statement`] stands for.
pub enum StatementView {
    Delay { dly: Time },
    BlockingAssign { id: OperandView, expr: ExpressionView },
    NonBlockingAssign { id: OperandView, expr: ExpressionView },
    AtChange { edges: Seq<EdgeView> },
}

impl View for Statement {
    type V = StatementView;

    open spec fn view(&self) -> StatementView {
        match *self {
            Statement::Delay { dly } => StatementView::Delay { dly },
            Statement::BlockingAssign { id, expr } => StatementView::BlockingAssign {
                id: id@,
                expr: expr@,
            },
            Statement::NonBlockingAssign { id, expr } => StatementView::NonBlockingAssign {
                id: id@,
                expr: expr@,
            },
            Statement::AtChange { edges } => StatementView::AtChange { edges: edge_views(edges@) },
        }
    }
}

impl StatementView {
    /// The variables of an assignment, the target first; none for a delay or a wait.
    pub open spec fn identifiers(self) -> Seq<Seq<char>> {
        match self {
            StatementView::BlockingAssign { id, expr } => id.identifiers() + expr.identifiers(),
            StatementView::NonBlockingAssign { id, expr } => id.identifiers() + expr.identifiers(),
            _ => Seq::empty(),
        }
    }

    /// Whether the statement suspends its procedure: a delay or a wait.
    pub open spec fn suspends(self) -> bool {
        self is Delay || self is AtChange
    }
}

impl Clone for Statement {
    fn clone(&self) -> (copy: Statement)
        ensures
            copy@ == self@,
    {
        match self {
            Statement::Delay { dly } => Statement::Delay { dly: *dly },
            Statement::BlockingAssign { id, expr } => Statement::BlockingAssign {
                id: id.clone(),
                expr: expr.clone(),
            },
            Statement::NonBlockingAssign { id, expr } => Statement::NonBlockingAssign {
                id: id.clone(),
                expr: expr.clone(),
            },
            Statement::AtChange { edges } => Statement::AtChange { edges: clone_edges(edges) },
        }
    }
}

impl PartialEq for Statement {
    fn eq(&self, other: &Statement) -> (equal: bool) {
        match (self, other) {
            (Statement::Delay { dly: a }, Statement::Delay { dly: b }) => *a == *b,
            (
                Statement::BlockingAssign { id: a, expr: b },
                Statement::BlockingAssign { id: c, expr: d },
            ) => *a == *c && *b == *d,
            (
                Statement::NonBlockingAssign { id: a, expr: b },
                Statement::NonBlockingAssign { id: c, expr: d },
            ) => *a == *c && *b == *d,
            (Statement::AtChange { edges: a }, Statement::AtChange { edges: b }) => same_edges(
                a,
                b,
            ),
            _ => false,
        }
    }
}

impl PartialEqSpecImpl for Statement {
    open spec fn obeys_eq_spec() -> bool {
        true
    }

    open spec fn eq_spec(&self, other: &Statement) -> bool {
        self@ == other@
    }
}

impl Statement {
    /// The variables of an assignment, the target first; none for a delay or a wait.
    pub fn get_identifiers(&self) -> (vars: Vec<String>)
        ensures
            names(vars@) == self@.identifiers(),
    {
        let mut vars: Vec<String> = Vec::new();
        match self {
            Statement::BlockingAssign { id, expr } | Statement::NonBlockingAssign { id, expr } => {
                if let Some(var) = id.get_identifier() {
                    vars.push(var);
                }
                let mut read = expr.get_identifiers();
                vars.append(&mut read);
            },
            _ => {},
        }
        vars
    }
}

/// What a list of statements stands for.
pub open spec fn statement_views(stmts: Seq<Statement>) -> Seq<StatementView> {
    stmts.map_values(|stmt: Statement| stmt@)
}

/// The variables of a list of statements, statement by statement.
pub open spec fn identifiers_of(stmts: Seq<StatementView>) -> Seq<Seq<char>>
    decreases stmts.len(),
{
    if stmts.len() == 0 {
        Seq::empty()
    } else {
        identifiers_of(stmts.drop_last()) + stmts.last().identifiers()
    }
}

/// Whether a procedure runs once or starts again when it has reached its end.
#[derive(Debug, Clone, Copy, PartialEq, Eq, Structural)]
pub enum ProcedureType {
    /// Runs once: at its end the procedure stays dormant.
    Initial,
    /// Starts again at its first statement when it has reached its end.
    Always,
}

/// A list of statements and a cursor into it.
#[derive(Debug)]
pub struct Procedure {
    pub kind: ProcedureType,
    pub counter: usize,
    pub stmts: Vec<Statement>,
}

/// What a [`Procedure`] stands for.
pub struct ProcedureView {
    pub kind: ProcedureType,
    pub counter: nat,
    pub stmts: Seq<StatementView>,
}

impl View for Procedure {
    type V = ProcedureView;

    open spec fn view(&self) -> ProcedureView {
        ProcedureView {
            kind: self.kind,
            counter: self.counter as nat,
            stmts: statement_views(self.stmts@),
        }
    }
}

impl ProcedureView {
    /// The place of the next statement: the counter, or the start where a
    /// procedure that starts again has reached its end.
    pub open spec fn cursor(self) -> int {
        if self.kind is Always && self.counter == self.stmts.len() {
            0
        } else {
            self.counter as int
        }
    }

    /// The statement that the next step yields, if one is left.
    pub open spec fn next(self) -> Option<StatementView> {
        if self.cursor() < self.stmts.len() {
            Some(self.stmts[self.cursor()])
        } else {
            None
        }
    }

    /// The procedure after the next step: the cursor has passed the statement
    /// that the step yielded.
    pub open spec fn advanced(self) -> ProcedureView {
        ProcedureView {
            kind: self.kind,
            counter: if self.cursor() < self.stmts.len() {
                (self.cursor() + 1) as nat
            } else {
                self.cursor() as nat
            },
            stmts: self.stmts,
        }
    }

    /// The statement that the last step yielded, as far as the cursor shows it.
    pub open spec fn last_yielded(self) -> Option<StatementView> {
        if 0 < self.counter <= self.stmts.len() {
            Some(self.stmts[self.counter - 1])
        } else {
            None
        }
    }

    /// The procedure after `n` steps.
    pub open spec fn advanced_by(self, n: nat) -> ProcedureView
        decreases n,
    {
        if n == 0 {
            self
        } else {
            self.advanced_by((n - 1) as nat).advanced()
        }
    }

    /// The variables of the procedure's statements, each once, in the order of
    /// their first occurrence.
    pub open spec fn identifiers(self) -> Seq<Seq<char>> {
        distinct(identifiers_of(self.stmts))
    }
}

/// Whether `name` is among the names of `list`.
pub fn contains_name(list: &Vec<String>, name: &String) -> (found: bool)
    ensures
        found == names(list@).contains(name@),
{
    let mut i: usize = 0;
    while i < list.len()
        invariant
            i <= list.len(),
            forall|k: int| 0 <= k < i ==> list[k]@ != name@,
        decreases list.len() - i,
    {
        if list[i] == *name {
            assert(names(list@)[i as int] == name@);
            return true;
        }
        i += 1;
    }
    false
}

impl Procedure {
    /// Yields the next statement in program order and moves the cursor past it.
    /// A procedure that runs once yields nothing when no statement is left; one
    /// that starts again wraps to its first statement.
    pub fn next_stmt(&mut self) -> (stmt: Option<Statement>)
        ensures
            final(self)@ == old(self)@.advanced(),
            match stmt {
                Some(found) => old(self)@.next() == Some(found@),
                None => old(self)@.next() is None,
            },
    {
        if let ProcedureType::Always = self.kind {
            if self.counter == self.stmts.len() {
                self.counter = 0;
            }
        }
        if self.counter < self.stmts.len() {
            let stmt = self.stmts[self.counter].clone();
            self.counter += 1;
            Some(stmt)
        } else {
            None
        }
    }

    /// Adds a statement at the end of the procedure.
    pub fn push(&mut self, stmt: Statement)
        ensures
            final(self)@ == (ProcedureView {
                stmts: old(self)@.stmts.push(stmt@),
                ..old(self)@
            }),
    {
        self.stmts.push(stmt);
        assert(statement_views(self.stmts@) =~= statement_views(old(self).stmts@).push(stmt@));
    }

    /// The variables that the procedure's assignments name, each once, in the
    /// order of their first occurrence.
    pub fn get_identifiers(&self) -> (vars: Vec<String>)
        ensures
            names(vars@) == self@.identifiers(),
    {
        let mut vars: Vec<String> = Vec::new();
        let mut i: usize = 0;
        while i < self.stmts.len()
            invariant
                i <= self.stmts.len(),
                names(vars@) == distinct(identifiers_of(self@.stmts.take(i as int))),
            decreases self.stmts.len() - i,
        {
            let stmt_vars = self.stmts[i].get_identifiers();
            let ghost before = identifiers_of(self@.stmts.take(i as int));
            let ghost found = names(stmt_vars@);
            let mut j: usize = 0;
            while j < stmt_vars.len()
                invariant
                    j <= stmt_vars.len(),
                    found == names(stmt_vars@),
                    names(vars@) == distinct(before + found.take(j as int)),
                decreases stmt_vars.len() - j,
            {
                let ghost so_far = before + found.take(j as int);
                let ghost next = before + found.take(j + 1);
                assert(next.drop_last() =~= so_far);
                if !contains_name(&vars, &stmt_vars[j]) {
                    vars.push(stmt_vars[j].clone());
                }
                j += 1;
            }
            proof {
                let upto = self@.stmts.take(i + 1);
                assert(found.take(j as int) =~= found);
                assert(upto.drop_last() =~= self@.stmts.take(i as int));
            }
            i += 1;
        }
        assert(self@.stmts.take(i as int) =~= self@.stmts);
        vars
    }
}

} // verus!
