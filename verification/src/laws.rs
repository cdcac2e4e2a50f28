//! What holds of every simulation: laws of the state machine, each proved
//! from its definition.

use vstd::prelude::*;
use crate::consistency::{
    lemma_execute_same_instant,
    lemma_pump_resumed,
    lemma_resume_all_same_instant,
    lemma_step_wf,
    lemma_woken_blocked,
    lemma_write_same_instant,
    resumed,
};
use crate::diagnostic::unread_in;
use crate::model::{
    evaluate_in,
    lookup_value,
    prior_value,
    register_all,
    resolved,
    transitions,
    EngineView,
    Phase,
    SimError,
};
use crate::procedure::{
    lemma_distinct,
    lemma_push_contains,
    EdgeView,
    ExpressionView,
    OperandView,
    ProcId,
    StatementView,
    Value,
};
use crate::timeheap::{
    batch_at,
    earliest,
    later,
    lemma_batch_at,
    lemma_due_later,
    lemma_earliest,
};
use crate::waiting::{lemma_without_procs, without_procs, WaiterView};
use crate::waking::{lemma_fired_rouses, lemma_roused_listened, listens, roused};

verus! {

/// Edge classification. A write that changes a variable's value fires "any
/// change"; it fires "rises" exactly from zero to a value that is not zero,
/// and "falls" exactly from a value that is not zero to zero. A write of the
/// value that the variable has fires nothing, and no write fires an edge on
/// another variable.
pub proof fn lemma_edge_classification(before: Value, value: Value, var: Seq<char>)
    ensures
        transitions(Some(before), value, var).contains(EdgeView::Any(var)) <==> before != value,
        transitions(Some(before), value, var).contains(EdgeView::Rise(var)) <==> before == 0
            && value != 0,
        transitions(Some(before), value, var).contains(EdgeView::Fall(var)) <==> before != 0
            && value == 0,
        before == value ==> transitions(Some(before), value, var).len() == 0,
        forall|edge: EdgeView| #[trigger]
            transitions(Some(before), value, var).contains(edge) ==> edge.variable() == var,
{
    let fired = transitions(Some(before), value, var);
    if before != value {
        assert(fired[0] == EdgeView::Any(var));
    }
}

/// The first write to a variable fires "any change" and nothing else.
pub proof fn lemma_first_write_is_a_change(value: Value, var: Seq<char>)
    ensures
        transitions(None, value, var) == seq![EdgeView::Any(var)],
{
}

/// Blocking-write visibility. When a blocking assignment to a variable has
/// been executed, the store holds the value that its expression had, and
/// every later read of the variable finds it.
pub proof fn lemma_blocking_write_visible(m: EngineView, var: Seq<char>, expr: ExpressionView)
    requires
        m.bounded(),
    ensures
        ({
            let value = evaluate_in(m.store, expr);
            let stmt = StatementView::BlockingAssign { id: OperandView::Identifier(var), expr };
            &&& m.execute(stmt).0.store == m.store.insert(var, value)
            &&& lookup_value(m.execute(stmt).0.store, OperandView::Identifier(var)) == value
            &&& evaluate_in(
                m.execute(stmt).0.store,
                ExpressionView::Const(OperandView::Identifier(var)),
            ) == value
        }),
{
    lemma_write_same_instant(m.noting(unread_in(m.store, expr)), var, evaluate_in(m.store, expr));
}

/// Non-blocking deferral. When a non-blocking assignment to a variable has
/// been executed, the store is as it was: every read finds what it found
/// before. The value that the expression had waits at the end of the deferred
/// queue, as a blocking assignment of that value.
pub proof fn lemma_non_blocking_write_deferred(m: EngineView, var: Seq<char>, expr: ExpressionView)
    ensures
        ({
            let value = evaluate_in(m.store, expr);
            let stmt = StatementView::NonBlockingAssign { id: OperandView::Identifier(var), expr };
            &&& m.execute(stmt).0.store == m.store
            &&& m.execute(stmt).0.active == m.active
            &&& m.execute(stmt).0.deferred == m.deferred.push(resolved(var, value))
            &&& m.execute(stmt).1 is Ok
        }),
{
}

/// The statement that the next step executes, if it executes one.
pub open spec fn executing(m: EngineView) -> Option<StatementView> {
    if m.active.len() > 0 && m.deltas < m.limit {
        Some(m.active[0])
    } else {
        None
    }
}

/// The store changes by the execution of a blocking assignment to a variable
/// and by nothing else: not by a non-blocking assignment, not by the
/// promotion of the deferred queue, not by the resumption of procedures.
pub proof fn lemma_store_changes_by_blocking_writes_only(m: EngineView)
    requires
        m.bounded(),
    ensures
        match executing(m) {
            Some(StatementView::BlockingAssign { id: OperandView::Identifier(var), expr }) => m.step().0.store
                == m.store.insert(var, evaluate_in(m.store, expr)),
            _ => m.step().0.store == m.store,
        },
{
    let arrived = m.arrived();
    if !m.starved() && arrived.deltas < m.limit {
        let now = EngineView { deltas: (arrived.deltas + 1) as usize, ..arrived };
        if now.active.len() > 0 {
            let popped = EngineView { active: now.active.drop_first(), ..now };
            match now.active[0] {
                StatementView::BlockingAssign { id: OperandView::Identifier(var), expr } => {
                    lemma_write_same_instant(
                        popped.noting(unread_in(popped.store, expr)),
                        var,
                        evaluate_in(popped.store, expr),
                    );
                },
                _ => {},
            }
        } else {
            let t = earliest(now.agenda);
            let batch = batch_at(now.agenda, t);
            let taken = EngineView { agenda: later(now.agenda, t), ..now };
            lemma_batch_at(now.agenda, t);
            assert forall|i: int| 0 <= i < batch.len() implies batch[i]
                < taken.procedures.len() by {
                assert(batch.contains(batch[i]));
            }
            lemma_resume_all_same_instant(taken, batch);
        }
    }
}

/// The order of the phases. A step executes a statement exactly while the
/// active queue holds one. The deferred queue is promoted only when the
/// active queue is empty, and the scheduler is asked only when both queues
/// are: so the clock moves only when nothing is left of the instant.
pub proof fn lemma_phase_order(m: EngineView)
    requires
        m.bounded(),
    ensures
        m.step().1 == Ok::<Phase, SimError>(Phase::Executed) ==> m.active.len() > 0,
        m.step().1 == Ok::<Phase, SimError>(Phase::Promoted) ==> m.active.len() == 0
            && m.deferred.len() > 0 && m.step().0.active == m.deferred && m.step().0.deferred.len()
            == 0,
        m.step().1 == Ok::<Phase, SimError>(Phase::Advanced) ==> m.quiescent() && m.agenda.len()
            > 0,
        m.step().1 == Ok::<Phase, SimError>(Phase::Starved) <==> m.starved(),
        m.step().0.time != m.time ==> m.quiescent(),
        m.active.len() > 0 && m.step().1 is Ok ==> m.step().1 == Ok::<Phase, SimError>(
            Phase::Executed,
        ),
{
    let arrived = m.arrived();
    if !m.starved() && arrived.deltas < m.limit {
        let now = EngineView { deltas: (arrived.deltas + 1) as usize, ..arrived };
        if now.active.len() > 0 {
            let popped = EngineView { active: now.active.drop_first(), ..now };
            lemma_execute_same_instant(popped, now.active[0]);
        }
    }
}

/// Whether the procedure is at rest: dormant, because no statement is left;
/// blocked until a time, behind a delay or before its first resumption; or
/// blocked on each edge of the wait that it has reached.
pub open spec fn at_rest(m: EngineView, proc_id: ProcId) -> bool {
    let procedure = m.procedures[proc_id as int];
    ||| procedure.next() is None
    ||| m.scheduled(proc_id)
    ||| procedure.last_yielded() matches Some(StatementView::AtChange { edges }) && forall|i: int|
        0 <= i < edges.len() ==> m.waiting.contains(
            WaiterView { edge: #[trigger] edges[i], proc_id },
        )
}

/// Whether every procedure is at rest.
pub open spec fn settled(m: EngineView) -> bool {
    forall|proc_id: ProcId| proc_id < m.procedures.len() ==> at_rest(m, proc_id)
}

/// Whether a procedure is at rest depends on its statements and cursor, on
/// the scheduler and on the wait table only.
pub proof fn lemma_rest_depends(m: EngineView, r: EngineView, proc_id: ProcId)
    requires
        at_rest(m, proc_id),
        r.procedures[proc_id as int] == m.procedures[proc_id as int],
        r.agenda == m.agenda,
        r.waiting == m.waiting,
    ensures
        at_rest(r, proc_id),
{
}

/// Registering a procedure under edges registers it under each of them and
/// keeps what was registered.
pub proof fn lemma_register_all_contains(
    waiters: Seq<WaiterView>,
    edges: Seq<EdgeView>,
    proc_id: ProcId,
)
    ensures
        forall|i: int|
            0 <= i < edges.len() ==> register_all(waiters, edges, proc_id).contains(
                WaiterView { edge: #[trigger] edges[i], proc_id },
            ),
        forall|waiter: WaiterView|
            waiters.contains(waiter) ==> #[trigger] register_all(waiters, edges, proc_id).contains(
                waiter,
            ),
    decreases edges.len(),
{
    if edges.len() > 0 {
        let front = edges.drop_last();
        let before = register_all(waiters, front, proc_id);
        let last = WaiterView { edge: edges.last(), proc_id };
        lemma_register_all_contains(waiters, front, proc_id);
        assert forall|waiter: WaiterView| before.contains(waiter) || waiter
            == last implies #[trigger] register_all(waiters, edges, proc_id).contains(waiter) by {
            lemma_push_contains(before, last, waiter);
        }
        assert forall|i: int| 0 <= i < edges.len() implies register_all(
            waiters,
            edges,
            proc_id,
        ).contains(WaiterView { edge: #[trigger] edges[i], proc_id }) by {
            if i < front.len() {
                assert(front[i] == edges[i]);
            }
        }
    }
}

/// A procedure that was resumed without error is at rest: it has yielded a
/// delay and is scheduled, or a wait and is registered under each of its
/// edges, or nothing and is dormant.
pub proof fn lemma_pump_rests(m: EngineView, proc_id: ProcId, budget: nat)
    requires
        proc_id < m.procedures.len(),
        m.pump(proc_id, budget).1 is Ok,
    ensures
        at_rest(m.pump(proc_id, budget).0, proc_id),
    decreases budget,
{
    let procedure = m.procedures[proc_id as int];
    let moved = EngineView {
        procedures: m.procedures.update(proc_id as int, procedure.advanced()),
        ..m
    };
    let r = m.pump(proc_id, budget).0;
    match procedure.next() {
        None => {},
        Some(StatementView::Delay { dly }) => {
            assert(r.agenda[m.agenda.len() as int].proc_id == proc_id);
        },
        Some(StatementView::AtChange { edges }) => {
            lemma_register_all_contains(m.waiting, edges, proc_id);
        },
        Some(stmt) => {
            let queued = EngineView { active: moved.active.push(stmt), ..moved };
            lemma_pump_rests(queued, proc_id, (budget - 1) as nat);
        },
    }
}

/// The resumption of one procedure leaves every other procedure at rest that
/// was at rest.
pub proof fn lemma_resumed_keeps_rest(m: EngineView, r: EngineView, proc_id: ProcId, other: ProcId)
    requires
        resumed(m, r, proc_id),
        other < m.procedures.len(),
        other != proc_id,
        at_rest(m, other),
    ensures
        at_rest(r, other),
{
    if m.scheduled(other) {
        let i = choose|i: int| 0 <= i < m.agenda.len() && #[trigger] m.agenda[i].proc_id == other;
        assert(r.agenda[i] == m.agenda[i]);
    } else if m.procedures[other as int].next() is Some {
        let edges = m.procedures[other as int].last_yielded()->0->edges;
        assert forall|i: int| 0 <= i < edges.len() implies r.waiting.contains(
            WaiterView { edge: #[trigger] edges[i], proc_id: other },
        ) by {
            let waiter = WaiterView { edge: edges[i], proc_id: other };
            let k = m.waiting.index_of(waiter);
            assert(r.waiting[k] == m.waiting[k]);
        }
    }
}

/// When procedures have been resumed without error, each of them is at rest,
/// and so is every other procedure that was. The cursors of the others are
/// where they were.
pub proof fn lemma_resume_all_rests(m: EngineView, procs: Seq<ProcId>)
    requires
        forall|i: int| 0 <= i < procs.len() ==> procs[i] < m.procedures.len(),
        m.resume_all(procs).1 is Ok,
    ensures
        m.resume_all(procs).0.procedures.len() == m.procedures.len(),
        forall|proc_id: ProcId|
            proc_id < m.procedures.len() && (procs.contains(proc_id) || at_rest(m, proc_id))
                ==> #[trigger] at_rest(m.resume_all(procs).0, proc_id),
        forall|proc_id: ProcId|
            proc_id < m.procedures.len() && !procs.contains(proc_id) ==> #[trigger] m.resume_all(
                procs,
            ).0.procedures[proc_id as int] == m.procedures[proc_id as int],
    decreases procs.len(),
{
    if procs.len() > 0 {
        let budget = m.procedures[procs[0] as int].stmts.len();
        let (next, result) = m.resume(procs[0]);
        let rest = procs.drop_first();
        lemma_pump_resumed(m, procs[0], budget);
        lemma_pump_rests(m, procs[0], budget);
        lemma_resume_all_rests(next, rest);
        let r = m.resume_all(procs).0;
        assert forall|proc_id: ProcId|
            proc_id < m.procedures.len() && (procs.contains(proc_id) || at_rest(
                m,
                proc_id,
            )) implies at_rest(r, proc_id) by {
            if procs.contains(proc_id) && proc_id != procs[0] {
                let i = procs.index_of(proc_id);
                assert(rest[i - 1] == proc_id);
            } else if proc_id != procs[0] {
                lemma_resumed_keeps_rest(m, next, procs[0], proc_id);
            }
        }
    }
}

/// A write wakes exactly the procedures that are registered under an edge
/// that it fires, each once.
pub proof fn lemma_woken_exactly(m: EngineView, var: Seq<char>, value: Value, proc_id: ProcId)
    ensures
        m.woken_by(var, value).no_duplicates(),
        m.woken_by(var, value).contains(proc_id) <==> listens(
            m.waiting,
            transitions(prior_value(m.store, var), value, var),
            proc_id,
        ),
{
    let fired = transitions(prior_value(m.store, var), value, var);
    lemma_distinct(roused(m.waiting, fired));
    if roused(m.waiting, fired).contains(proc_id) {
        lemma_roused_listened(m.waiting, fired, proc_id);
    }
    if listens(m.waiting, fired, proc_id) {
        let i = choose|i: int|
            0 <= i < m.waiting.len() && (#[trigger] m.waiting[i]).proc_id == proc_id
                && fired.contains(m.waiting[i].edge);
        lemma_fired_rouses(m.waiting, fired, m.waiting[i].edge, proc_id);
    }
}

/// A write that ends without error leaves every procedure at rest, if every
/// procedure was: those that it wakes come to rest again, and the others keep
/// their registrations.
pub proof fn lemma_write_settled(m: EngineView, var: Seq<char>, value: Value)
    requires
        m.bounded(),
        settled(m),
        m.write(var, value).1 is Ok,
    ensures
        settled(m.write(var, value).0),
{
    let woken = m.woken_by(var, value);
    let left = without_procs(m.waiting, woken);
    let stored = EngineView { store: m.store.insert(var, value), waiting: left, ..m };
    assert forall|i: int| 0 <= i < woken.len() implies woken[i] < stored.procedures.len() by {
        lemma_woken_blocked(m, var, value, woken[i]);
    }
    assert forall|proc_id: ProcId|
        proc_id < m.procedures.len() && !woken.contains(proc_id) implies at_rest(
        stored,
        proc_id,
    ) by {
        assert(at_rest(m, proc_id));
        let procedure = m.procedures[proc_id as int];
        if procedure.next() is Some && !m.scheduled(proc_id) {
            let edges = procedure.last_yielded()->0->edges;
            assert forall|i: int| 0 <= i < edges.len() implies left.contains(
                WaiterView { edge: #[trigger] edges[i], proc_id },
            ) by {
                let waiter = WaiterView { edge: edges[i], proc_id };
                lemma_without_procs(m.waiting, woken, waiter);
            }
        }
    }
    lemma_resume_all_rests(stored, woken);
}

/// The state in which a simulation starts has every procedure at rest: each
/// is scheduled.
pub proof fn lemma_initialised_settled(m: EngineView)
    requires
        m.procedures.len() <= usize::MAX,
    ensures
        settled(m.initialised()),
{
    let start = m.initialised();
    assert forall|proc_id: ProcId| proc_id < start.procedures.len() implies at_rest(
        start,
        proc_id,
    ) by {
        assert(start.agenda[proc_id as int].proc_id == proc_id);
    }
}

/// Between the steps of a simulation every procedure is at rest. A step that
/// ends without error leaves every procedure dormant, scheduled, or registered
/// under each edge of the wait that it has reached, if every procedure was so
/// before. With the invariant, by which none is scheduled and registered at
/// once, each procedure is in one of these states only.
pub proof fn lemma_step_settled(m: EngineView)
    requires
        m.wf(),
        settled(m),
        m.step().1 is Ok,
    ensures
        settled(m.step().0),
        m.step().0.wf(),
{
    lemma_step_wf(m);
    let arrived = m.arrived();
    assert(settled(arrived)) by {
        assert forall|proc_id: ProcId| proc_id < arrived.procedures.len() implies at_rest(
            arrived,
            proc_id,
        ) by {
            lemma_rest_depends(m, arrived, proc_id);
        }
    }
    if !m.starved() && arrived.deltas < m.limit {
        let now = EngineView { deltas: (arrived.deltas + 1) as usize, ..arrived };
        if now.active.len() > 0 {
            let popped = EngineView { active: now.active.drop_first(), ..now };
            match now.active[0] {
                StatementView::BlockingAssign { id: OperandView::Identifier(var), expr } => {
                    let noted = popped.noting(unread_in(popped.store, expr));
                    assert forall|proc_id: ProcId|
                        proc_id < noted.procedures.len() implies at_rest(noted, proc_id) by {
                        lemma_rest_depends(arrived, noted, proc_id);
                    }
                    lemma_write_settled(noted, var, evaluate_in(popped.store, expr));
                },
                _ => {
                    let r = popped.execute(now.active[0]).0;
                    assert forall|proc_id: ProcId| proc_id < r.procedures.len() implies at_rest(
                        r,
                        proc_id,
                    ) by {
                        lemma_rest_depends(arrived, r, proc_id);
                    }
                },
            }
        } else if now.deferred.len() > 0 {
            let r = m.step().0;
            assert forall|proc_id: ProcId| proc_id < r.procedures.len() implies at_rest(
                r,
                proc_id,
            ) by {
                lemma_rest_depends(arrived, r, proc_id);
            }
        } else {
            let t = earliest(now.agenda);
            let batch = batch_at(now.agenda, t);
            let rest = later(now.agenda, t);
            let taken = EngineView { agenda: rest, ..now };
            lemma_due_later(now.agenda, t);
            lemma_batch_at(now.agenda, t);
            assert forall|i: int| 0 <= i < batch.len() implies batch[i]
                < taken.procedures.len() by {
                assert(batch.contains(batch[i]));
            }
            assert forall|proc_id: ProcId|
                proc_id < taken.procedures.len() && !batch.contains(proc_id) implies at_rest(
                taken,
                proc_id,
            ) by {
                assert(at_rest(arrived, proc_id));
                if arrived.scheduled(proc_id) {
                    let i = choose|i: int|
                        0 <= i < now.agenda.len() && #[trigger] now.agenda[i].proc_id == proc_id;
                    let entry = now.agenda[i];
                    assert(rest.contains(entry));
                }
            }
            lemma_resume_all_rests(taken, batch);
        }
    }
}

/// Same-instant batching. A step that asks the scheduler sets the clock to the
/// earliest scheduled time and resumes, within that step, every procedure
/// scheduled for that time: each comes to rest at its next delay or wait, or
/// at its end, before the scheduler is asked again. The cursors of the
/// procedures scheduled for later times stay where they are, and nothing
/// remains scheduled before the new time.
pub proof fn lemma_same_instant_batching(m: EngineView)
    requires
        m.wf(),
        m.quiescent(),
        m.agenda.len() > 0,
        m.step().1 is Ok,
    ensures
        m.step().1 == Ok::<Phase, SimError>(Phase::Advanced),
        m.step().0.time == earliest(m.agenda),
        m.step().0.procedures.len() == m.procedures.len(),
        forall|i: int|
            0 <= i < m.agenda.len() && (#[trigger] m.agenda[i]).time == earliest(m.agenda)
                ==> at_rest(m.step().0, m.agenda[i].proc_id),
        forall|i: int|
            0 <= i < m.agenda.len() && (#[trigger] m.agenda[i]).time != earliest(m.agenda)
                ==> m.step().0.procedures[m.agenda[i].proc_id as int]
                == m.procedures[m.agenda[i].proc_id as int],
        forall|i: int|
            0 <= i < m.step().0.agenda.len() ==> (#[trigger] m.step().0.agenda[i]).time
                >= earliest(m.agenda),
{
    lemma_step_wf(m);
    lemma_earliest(m.agenda);
    let arrived = m.arrived();
    let now = EngineView { deltas: (arrived.deltas + 1) as usize, ..arrived };
    let t = earliest(now.agenda);
    let batch = batch_at(now.agenda, t);
    let taken = EngineView { agenda: later(now.agenda, t), ..now };
    lemma_batch_at(now.agenda, t);
    assert forall|i: int| 0 <= i < batch.len() implies batch[i] < taken.procedures.len() by {
        assert(batch.contains(batch[i]));
    }
    lemma_resume_all_same_instant(taken, batch);
    lemma_resume_all_rests(taken, batch);
}

} // verus!
