//! The simulation as a mathematical state machine.
//!
//! [`EngineView`] is what an engine stands for; its functions say what reading
//! an operand, writing a variable, resuming a procedure and taking one step of
//! the master loop do to it. The engine's contracts speak of these functions.

use vstd::prelude::*;
use crate::diagnostic::{unread_in, DiagnosticView};
use crate::procedure::{
    distinct,
    identifiers_of,
    EdgeView,
    ExpressionView,
    OperandView,
    ProcId,
    ProcedureView,
    StatementView,
    Time,
    Value,
};
use crate::timeheap::{batch_at, earliest, later, Entry};
use crate::waiting::{is_blocked, registered, without_procs, WaiterView};
use crate::waking::roused;

verus! {

/// Why a simulation cannot start or go on.
#[derive(Debug, Clone, Copy, PartialEq, Eq, Structural)]
pub enum SimError {
    /// No procedure was added before the engine was initialised.
    NoProcedures,
    /// An instant took as many steps as the engine's limit allows and was
    /// not done. Every step at one simulated time counts: each statement
    /// executed, each promotion of the deferred queue and each resumption of
    /// the procedures due at that time. A design with a loop without delay
    /// never settles and ends so; so does any design whose busiest instant
    /// needs more steps than the limit.
    CombinationalLoop,
    /// The procedure yielded more assignments in a row than it has statements:
    /// it starts again and holds no statement that suspends it.
    NeverSuspends { proc_id: ProcId },
    /// The procedure's delay leads beyond the largest time.
    TimeOverflow { proc_id: ProcId },
}

/// What one step of the master loop did.
#[derive(Debug, Clone, Copy, PartialEq, Eq, Structural)]
pub enum Phase {
    /// The oldest statement of the active queue was executed.
    Executed,
    /// The deferred assignments were moved to the active queue.
    Promoted,
    /// The procedures due at the earliest scheduled time were resumed.
    Advanced,
    /// Nothing is active, deferred or scheduled: the simulation has ended.
    Starved,
}

/// The value of a variable, if it has one.
pub open spec fn prior_value(store: Map<Seq<char>, Value>, var: Seq<char>) -> Option<Value> {
    if store.contains_key(var) {
        Some(store[var])
    } else {
        None
    }
}

/// The value of an operand: the literal, or the variable's value, which is 0
/// for a variable that was never written.
pub open spec fn lookup_value(store: Map<Seq<char>, Value>, operand: OperandView) -> Value {
    match operand {
        OperandView::Literal(value) => value,
        OperandView::Identifier(var) => match prior_value(store, var) {
            Some(value) => value,
            None => 0,
        },
    }
}

/// The value of an expression.
pub open spec fn evaluate_in(store: Map<Seq<char>, Value>, expr: ExpressionView) -> Value {
    match expr {
        ExpressionView::Const(a) => lookup_value(store, a),
        ExpressionView::And(a, b) => lookup_value(store, a) & lookup_value(store, b),
        ExpressionView::Or(a, b) => lookup_value(store, a) | lookup_value(store, b),
        ExpressionView::Not(a) => !lookup_value(store, a),
    }
}

/// The edges that fire when `value` is written to `var`. A variable that had
/// no value changes; one that had the same value does not. From zero is a
/// rise, to zero is a fall.
pub open spec fn transitions(prior: Option<Value>, value: Value, var: Seq<char>) -> Seq<EdgeView> {
    match prior {
        None => seq![EdgeView::Any(var)],
        Some(before) => if before == value {
            Seq::empty()
        } else if before == 0 {
            seq![EdgeView::Any(var), EdgeView::Rise(var)]
        } else if value == 0 {
            seq![EdgeView::Any(var), EdgeView::Fall(var)]
        } else {
            seq![EdgeView::Any(var)]
        },
    }
}

/// The assignment that a non-blocking assignment leaves behind: its target
/// and the value that its expression had.
pub open spec fn resolved(var: Seq<char>, value: Value) -> StatementView {
    StatementView::BlockingAssign {
        id: OperandView::Identifier(var),
        expr: ExpressionView::Const(OperandView::Literal(value)),
    }
}

/// Whether the statement is a blocking assignment of a literal to a variable.
pub open spec fn is_resolved(stmt: StatementView) -> bool {
    stmt matches StatementView::BlockingAssign {
        id: OperandView::Identifier(_),
        expr: ExpressionView::Const(OperandView::Literal(_)),
    }
}

/// The registrations after the procedure was registered under each of the edges.
pub open spec fn register_all(
    waiters: Seq<WaiterView>,
    edges: Seq<EdgeView>,
    proc_id: ProcId,
) -> Seq<WaiterView>
    decreases edges.len(),
{
    if edges.len() == 0 {
        waiters
    } else {
        registered(
            register_all(waiters, edges.drop_last(), proc_id),
            WaiterView { edge: edges.last(), proc_id },
        )
    }
}

/// The entries that schedule each of the first `n` procedures for time 0.
pub open spec fn all_at_zero(n: nat) -> Seq<Entry> {
    Seq::new(n, |i: int| Entry { time: 0, proc_id: i as usize })
}

/// The variables of a list of procedures, procedure by procedure.
pub open spec fn identifiers_across(procedures: Seq<ProcedureView>) -> Seq<Seq<char>>
    decreases procedures.len(),
{
    if procedures.len() == 0 {
        Seq::empty()
    } else {
        identifiers_across(procedures.drop_last()) + identifiers_of(
            procedures.last().stmts,
        )
    }
}

/// What is offered to a tracer: the time, and for each variable of the design
/// its value, if it has one.
pub struct SnapshotView {
    pub time: Time,
    pub values: Seq<Option<Value>>,
}

/// What an engine stands for.
#[verifier::ext_equal]
pub struct EngineView {
    /// The procedures, each at the place of its identifier.
    pub procedures: Seq<ProcedureView>,
    /// The statements ready to execute within the current instant, oldest first.
    pub active: Seq<StatementView>,
    /// The resolved non-blocking assignments of the current instant, oldest first.
    pub deferred: Seq<StatementView>,
    /// The variables that have a value.
    pub store: Map<Seq<char>, Value>,
    /// The procedures blocked on edges.
    pub waiting: Seq<WaiterView>,
    /// The procedures blocked until a time.
    pub agenda: Seq<Entry>,
    /// The current simulated time.
    pub time: Time,
    /// The steps taken within the current instant.
    pub deltas: usize,
    /// The most steps that one instant may take.
    pub limit: usize,
    /// The variables of the design, in the order of their first occurrence.
    pub vars: Seq<Seq<char>>,
    /// What the last step remarked on.
    pub noted: Seq<DiagnosticView>,
}

impl EngineView {
    /// Whether the procedure is blocked until a time.
    pub open spec fn scheduled(self, proc_id: ProcId) -> bool {
        exists|i: int| 0 <= i < self.agenda.len() && #[trigger] self.agenda[i].proc_id == proc_id
    }

    /// Whether the procedure is blocked on an edge.
    pub open spec fn blocked(self, proc_id: ProcId) -> bool {
        is_blocked(self.waiting, proc_id)
    }

    /// Whether every procedure that is scheduled or blocked is one of the engine's.
    pub open spec fn bounded(self) -> bool {
        &&& forall|i: int|
            0 <= i < self.agenda.len() ==> (#[trigger] self.agenda[i]).proc_id
                < self.procedures.len()
        &&& forall|i: int|
            0 <= i < self.waiting.len() ==> (#[trigger] self.waiting[i]).proc_id
                < self.procedures.len()
    }

    /// Whether the procedure is neither scheduled nor blocked.
    pub open spec fn idle(self, proc_id: ProcId) -> bool {
        !self.scheduled(proc_id) && !self.blocked(proc_id)
    }

    /// The engine's invariant. Every scheduled or blocked procedure is one of
    /// the engine's. No scheduled time lies in the past. A procedure is
    /// scheduled at most once, and none is scheduled and blocked at once. The
    /// active queue holds no delay and no wait; the deferred queue holds
    /// resolved assignments only.
    pub open spec fn wf(self) -> bool {
        &&& self.bounded()
        &&& forall|i: int|
            0 <= i < self.agenda.len() ==> (#[trigger] self.agenda[i]).time >= self.time
        &&& forall|i: int, j: int|
            0 <= i < j < self.agenda.len() ==> (#[trigger] self.agenda[i]).proc_id
                != (#[trigger] self.agenda[j]).proc_id
        &&& forall|i: int, j: int|
            0 <= i < self.agenda.len() && 0 <= j < self.waiting.len()
                ==> (#[trigger] self.agenda[i]).proc_id != (#[trigger] self.waiting[j]).proc_id
        &&& forall|i: int| 0 <= i < self.active.len() ==> !(#[trigger] self.active[i]).suspends()
        &&& forall|i: int| 0 <= i < self.deferred.len() ==> is_resolved(#[trigger] self.deferred[i])
    }

    /// Whether nothing is left to do within the current instant.
    pub open spec fn quiescent(self) -> bool {
        self.active.len() == 0 && self.deferred.len() == 0
    }

    /// What a tracer is offered in this state.
    pub open spec fn snapshot(self) -> SnapshotView {
        SnapshotView {
            time: self.time,
            values: self.vars.map_values(|var: Seq<char>| prior_value(self.store, var)),
        }
    }

    /// The state in which a simulation starts: every procedure is scheduled
    /// for time 0, nothing is queued or blocked, and the variables of the
    /// design are listed.
    pub open spec fn initialised(self) -> EngineView {
        EngineView {
            procedures: self.procedures,
            active: Seq::empty(),
            deferred: Seq::empty(),
            store: self.store,
            waiting: Seq::empty(),
            agenda: all_at_zero(self.procedures.len()),
            time: 0,
            deltas: 0,
            limit: self.limit,
            vars: distinct(identifiers_across(self.procedures)),
            noted: Seq::empty(),
        }
    }

    /// The state with more remarks.
    pub open spec fn noting(self, remarks: Seq<DiagnosticView>) -> EngineView {
        EngineView { noted: self.noted + remarks, ..self }
    }

    /// Resumes a procedure: it yields statements until one suspends it or none
    /// is left. A delay schedules it, a wait registers it under each edge, any
    /// other statement joins the active queue. It may yield `budget`
    /// assignments; one more is an error.
    pub open spec fn pump(self, proc_id: ProcId, budget: nat) -> (EngineView, Result<(), SimError>)
        decreases budget,
    {
        let procedure = self.procedures[proc_id as int];
        let moved = EngineView {
            procedures: self.procedures.update(proc_id as int, procedure.advanced()),
            ..self
        };
        match procedure.next() {
            None => (moved, Ok(())),
            Some(StatementView::Delay { dly }) => if self.time + dly > usize::MAX {
                (moved, Err(SimError::TimeOverflow { proc_id }))
            } else {
                (
                    EngineView {
                        agenda: moved.agenda.push(
                            Entry { time: (self.time + dly) as usize, proc_id },
                        ),
                        ..moved
                    },
                    Ok(()),
                )
            },
            Some(StatementView::AtChange { edges }) => (
                EngineView { waiting: register_all(moved.waiting, edges, proc_id), ..moved },
                Ok(()),
            ),
            Some(stmt) => if budget == 0 {
                (moved, Err(SimError::NeverSuspends { proc_id }))
            } else {
                (EngineView { active: moved.active.push(stmt), ..moved }).pump(
                    proc_id,
                    (budget - 1) as nat,
                )
            },
        }
    }

    /// Resumes a procedure with a budget of as many assignments as it has statements.
    pub open spec fn resume(self, proc_id: ProcId) -> (EngineView, Result<(), SimError>) {
        self.pump(proc_id, self.procedures[proc_id as int].stmts.len())
    }

    /// Resumes the procedures in turn, up to the first error.
    pub open spec fn resume_all(self, procs: Seq<ProcId>) -> (EngineView, Result<(), SimError>)
        decreases procs.len(),
    {
        if procs.len() == 0 {
            (self, Ok(()))
        } else {
            let (next, result) = self.resume(procs[0]);
            if result is Err {
                (next, result)
            } else {
                next.resume_all(procs.drop_first())
            }
        }
    }

    /// The procedures that a write of `value` to `var` wakes, each once.
    pub open spec fn woken_by(self, var: Seq<char>, value: Value) -> Seq<ProcId> {
        distinct(roused(self.waiting, transitions(prior_value(self.store, var), value, var)))
    }

    /// Writes a variable: the store takes the value, the edges that the change
    /// fires are notified, and the procedures blocked on them lose all their
    /// registrations, under whatever edge, and are resumed.
    pub open spec fn write(self, var: Seq<char>, value: Value) -> (
        EngineView,
        Result<(), SimError>,
    ) {
        let woken = self.woken_by(var, value);
        (EngineView {
            store: self.store.insert(var, value),
            waiting: without_procs(self.waiting, woken),
            ..self
        }).resume_all(woken)
    }

    /// Executes a statement of the active queue. A blocking assignment to a
    /// variable is evaluated and written; a non-blocking one is evaluated and
    /// deferred; anything else is ignored. Each variable that the evaluation
    /// reads without finding a value is remarked on, and so is a statement
    /// that is ignored.
    pub open spec fn execute(self, stmt: StatementView) -> (EngineView, Result<(), SimError>) {
        match stmt {
            StatementView::BlockingAssign { id: OperandView::Identifier(var), expr } => self.noting(
                unread_in(self.store, expr),
            ).write(var, evaluate_in(self.store, expr)),
            StatementView::NonBlockingAssign { id: OperandView::Identifier(var), expr } => (
                EngineView {
                    deferred: self.deferred.push(resolved(var, evaluate_in(self.store, expr))),
                    ..self.noting(unread_in(self.store, expr))
                },
                Ok(()),
            ),
            _ => (self.noting(seq![DiagnosticView::IgnoredStatement(stmt)]), Ok(())),
        }
    }

    /// Whether nothing is active, deferred or scheduled.
    pub open spec fn starved(self) -> bool {
        self.quiescent() && self.agenda.len() == 0
    }

    /// The state at the start of a step: the remarks of the step before are
    /// gone, and where nothing is left of the current instant and the
    /// earliest scheduled time lies after it, that time becomes the current
    /// one and a new instant starts.
    pub open spec fn arrived(self) -> EngineView {
        if self.quiescent() && self.agenda.len() > 0 && earliest(self.agenda) > self.time {
            EngineView { time: earliest(self.agenda), deltas: 0, noted: Seq::empty(), ..self }
        } else {
            EngineView { noted: Seq::empty(), ..self }
        }
    }

    /// One step of the master loop. The active queue comes first, then the
    /// deferred queue, then the scheduler; each step counts against the
    /// instant's limit.
    pub open spec fn step(self) -> (EngineView, Result<Phase, SimError>) {
        if self.starved() {
            (self.arrived(), Ok(Phase::Starved))
        } else if self.arrived().deltas >= self.limit {
            (self.arrived(), Err(SimError::CombinationalLoop))
        } else {
            let now = EngineView { deltas: (self.arrived().deltas + 1) as usize, ..self.arrived() };
            if now.active.len() > 0 {
                let (next, result) = (EngineView { active: now.active.drop_first(), ..now }).execute(
                    now.active[0],
                );
                (next, outcome(result, Phase::Executed))
            } else if now.deferred.len() > 0 {
                (
                    EngineView { active: now.deferred, deferred: Seq::empty(), ..now },
                    Ok(Phase::Promoted),
                )
            } else {
                let t = earliest(now.agenda);
                let (next, result) = (EngineView { agenda: later(now.agenda, t), ..now }).resume_all(
                    batch_at(now.agenda, t),
                );
                (next, outcome(result, Phase::Advanced))
            }
        }
    }

    /// The state after `n` steps.
    pub open spec fn after(self, n: nat) -> EngineView
        decreases n,
    {
        if n == 0 {
            self
        } else {
            self.after((n - 1) as nat).step().0
        }
    }

    /// Whether the simulation ends with the step that follows the first `n`:
    /// each of the first `n` steps did work, and the next one finds the
    /// simulation starved or fails.
    pub open spec fn halts_after(self, n: nat) -> bool {
        &&& forall|k: nat| k < n ==> goes_on(#[trigger] self.after(k).step().1)
        &&& !goes_on(self.after(n).step().1)
    }

    /// The remarks of the first `n` steps, step by step.
    pub open spec fn chronicle(self, n: nat) -> Seq<DiagnosticView>
        decreases n,
    {
        if n == 0 {
            Seq::empty()
        } else {
            self.chronicle((n - 1) as nat) + self.after(n).noted
        }
    }

    /// The snapshots offered before each of the first `n` steps: one for each
    /// state in which nothing was left of its instant.
    pub open spec fn history(self, n: nat) -> Seq<SnapshotView>
        decreases n,
    {
        if n == 0 {
            Seq::empty()
        } else {
            let before = self.history((n - 1) as nat);
            let state = self.after((n - 1) as nat);
            if state.quiescent() {
                before.push(state.snapshot())
            } else {
                before
            }
        }
    }
}

/// How a simulation ended, given the result of its last step.
pub open spec fn verdict(result: Result<Phase, SimError>) -> Result<(), SimError> {
    match result {
        Ok(_) => Ok(()),
        Err(error) => Err(error),
    }
}

/// The result of a step that did the work of `phase`, unless it failed.
pub open spec fn outcome(result: Result<(), SimError>, phase: Phase) -> Result<Phase, SimError> {
    match result {
        Ok(_) => Ok(phase),
        Err(error) => Err(error),
    }
}

/// Whether the master loop goes on after a step with this result.
pub open spec fn goes_on(result: Result<Phase, SimError>) -> bool {
    result is Ok && result != Ok::<Phase, SimError>(Phase::Starved)
}

} // verus!
