//! Proofs that the steps of the state machine keep the engine's invariant.

use vstd::prelude::*;
use crate::diagnostic::unread_in;
use crate::model::{evaluate_in, goes_on, prior_value, register_all, transitions, EngineView};
use crate::procedure::{
    lemma_distinct,
    lemma_distinct_same,
    EdgeView,
    OperandView,
    ProcId,
    StatementView,
    Time,
    Value,
};
use crate::timeheap::{
    batch_at,
    due,
    earliest,
    later,
    lemma_batch_at,
    lemma_due_later,
    lemma_earliest,
    Entry,
};
use crate::waiting::{lemma_without_procs, without_procs, WaiterView};
use crate::waking::{lemma_roused_listened, roused};

verus! {

/// Whether `after` holds the registrations of `before` and, behind them, only
/// registrations of `proc_id`.
pub open spec fn waiting_grown(
    before: Seq<WaiterView>,
    after: Seq<WaiterView>,
    proc_id: ProcId,
) -> bool {
    &&& before.len() <= after.len()
    &&& forall|i: int| 0 <= i < before.len() ==> #[trigger] after[i] == before[i]
    &&& forall|i: int| before.len() <= i < after.len() ==> (#[trigger] after[i]).proc_id == proc_id
}

/// Whether `after` holds the entries of `before` and, behind them, at most one
/// entry: of `proc_id`, at `time` or later.
pub open spec fn agenda_grown(
    before: Seq<Entry>,
    after: Seq<Entry>,
    proc_id: ProcId,
    time: Time,
) -> bool {
    &&& before.len() <= after.len() <= before.len() + 1
    &&& forall|i: int| 0 <= i < before.len() ==> #[trigger] after[i] == before[i]
    &&& forall|i: int|
        before.len() <= i < after.len() ==> (#[trigger] after[i]).proc_id == proc_id
            && after[i].time >= time
}

/// Whether `after` holds the statements of `before` and, behind them, only
/// statements that do not suspend.
pub open spec fn active_grown(before: Seq<StatementView>, after: Seq<StatementView>) -> bool {
    &&& before.len() <= after.len()
    &&& forall|i: int| 0 <= i < before.len() ==> #[trigger] after[i] == before[i]
    &&& forall|i: int| before.len() <= i < after.len() ==> !(#[trigger] after[i]).suspends()
}

/// Whether `after` differs from `before` only in what resuming `proc_id` may
/// change: the cursors, the active queue, and one registration of `proc_id`
/// with the scheduler or some with the wait table.
pub open spec fn resumed(before: EngineView, after: EngineView, proc_id: ProcId) -> bool {
    &&& after.procedures.len() == before.procedures.len()
    &&& forall|other: int|
        0 <= other < before.procedures.len() && other != proc_id
            ==> #[trigger] after.procedures[other] == before.procedures[other]
    &&& after.store == before.store
    &&& after.deferred == before.deferred
    &&& after.time == before.time
    &&& after.deltas == before.deltas
    &&& after.limit == before.limit
    &&& after.vars == before.vars
    &&& after.noted == before.noted
    &&& active_grown(before.active, after.active)
    &&& agenda_grown(before.agenda, after.agenda, proc_id, before.time)
    &&& waiting_grown(before.waiting, after.waiting, proc_id)
    &&& after.agenda == before.agenda || after.waiting == before.waiting
}

/// Registering a procedure under edges adds registrations of that procedure only.
pub proof fn lemma_register_all_grown(
    waiters: Seq<WaiterView>,
    edges: Seq<EdgeView>,
    proc_id: ProcId,
)
    ensures
        waiting_grown(waiters, register_all(waiters, edges, proc_id), proc_id),
    decreases edges.len(),
{
    if edges.len() > 0 {
        lemma_register_all_grown(waiters, edges.drop_last(), proc_id);
    }
}

/// Resuming a procedure changes nothing but its cursor, the end of the active
/// queue and that procedure's own registration.
pub proof fn lemma_pump_resumed(m: EngineView, proc_id: ProcId, budget: nat)
    requires
        proc_id < m.procedures.len(),
    ensures
        resumed(m, m.pump(proc_id, budget).0, proc_id),
    decreases budget,
{
    let procedure = m.procedures[proc_id as int];
    let moved = EngineView {
        procedures: m.procedures.update(proc_id as int, procedure.advanced()),
        ..m
    };
    match procedure.next() {
        None => {},
        Some(StatementView::Delay { dly }) => {},
        Some(StatementView::AtChange { edges }) => {
            lemma_register_all_grown(m.waiting, edges, proc_id);
        },
        Some(stmt) => {
            if budget > 0 {
                let queued = EngineView { active: moved.active.push(stmt), ..moved };
                lemma_pump_resumed(queued, proc_id, (budget - 1) as nat);
            }
        },
    }
}

/// Whether `after` differs from `before` only in what resuming procedures may
/// change: not the store, the deferred queue, the time, the count of steps,
/// the limit, the variables or the number of procedures.
pub open spec fn same_instant(before: EngineView, after: EngineView) -> bool {
    &&& after.procedures.len() == before.procedures.len()
    &&& after.store == before.store
    &&& after.deferred == before.deferred
    &&& after.time == before.time
    &&& after.deltas == before.deltas
    &&& after.limit == before.limit
    &&& after.vars == before.vars
    &&& after.noted == before.noted
}

/// Resuming procedures leaves the store, the deferred queue and the clock as they are.
pub proof fn lemma_resume_all_same_instant(m: EngineView, procs: Seq<ProcId>)
    requires
        forall|i: int| 0 <= i < procs.len() ==> procs[i] < m.procedures.len(),
    ensures
        same_instant(m, m.resume_all(procs).0),
    decreases procs.len(),
{
    if procs.len() > 0 {
        lemma_pump_resumed(m, procs[0], m.procedures[procs[0] as int].stmts.len());
        let (next, result) = m.resume(procs[0]);
        if result is Ok {
            lemma_resume_all_same_instant(next, procs.drop_first());
        }
    }
}

/// Resuming idle procedures, each once, keeps the invariant.
pub proof fn lemma_resume_all_wf(m: EngineView, procs: Seq<ProcId>)
    requires
        m.wf(),
        procs.no_duplicates(),
        forall|i: int| 0 <= i < procs.len() ==> procs[i] < m.procedures.len() && m.idle(procs[i]),
    ensures
        m.resume_all(procs).0.wf(),
    decreases procs.len(),
{
    if procs.len() > 0 {
        lemma_pump_resumed(m, procs[0], m.procedures[procs[0] as int].stmts.len());
        let (next, result) = m.resume(procs[0]);
        if result is Ok {
            let rest = procs.drop_first();
            lemma_resume_all_wf(next, rest);
        }
    }
}

/// A write changes the store at the written variable only, and leaves the
/// deferred queue and the clock as they are.
pub proof fn lemma_write_same_instant(m: EngineView, var: Seq<char>, value: Value)
    requires
        m.bounded(),
    ensures
        same_instant(EngineView { store: m.store.insert(var, value), ..m }, m.write(var, value).0),
{
    let woken = m.woken_by(var, value);
    let stored = EngineView {
        store: m.store.insert(var, value),
        waiting: without_procs(m.waiting, woken),
        ..m
    };
    assert forall|i: int| 0 <= i < woken.len() implies woken[i] < stored.procedures.len() by {
        lemma_woken_blocked(m, var, value, woken[i]);
    }
    lemma_resume_all_same_instant(stored, woken);
}

/// Every procedure that a write wakes was blocked.
pub proof fn lemma_woken_blocked(m: EngineView, var: Seq<char>, value: Value, proc_id: ProcId)
    requires
        m.woken_by(var, value).contains(proc_id),
    ensures
        m.blocked(proc_id),
{
    let fired = transitions(prior_value(m.store, var), value, var);
    lemma_distinct(roused(m.waiting, fired));
    lemma_roused_listened(m.waiting, fired, proc_id);
}

/// A write keeps the invariant.
pub proof fn lemma_write_wf(m: EngineView, var: Seq<char>, value: Value)
    requires
        m.wf(),
    ensures
        m.write(var, value).0.wf(),
{
    let fired = transitions(prior_value(m.store, var), value, var);
    let woken = m.woken_by(var, value);
    let left = without_procs(m.waiting, woken);
    let stored = EngineView { store: m.store.insert(var, value), waiting: left, ..m };
    assert forall|j: int| 0 <= j < left.len() implies m.waiting.contains(#[trigger] left[j])
        && !woken.contains(left[j].proc_id) by {
        lemma_without_procs(m.waiting, woken, left[j]);
    }
    lemma_distinct(roused(m.waiting, fired));
    assert forall|i: int| 0 <= i < woken.len() implies woken[i] < stored.procedures.len()
        && stored.idle(woken[i]) by {
        lemma_woken_blocked(m, var, value, woken[i]);
    }
    lemma_resume_all_wf(stored, woken);
}

/// Executing a statement that does not suspend keeps the invariant.
pub proof fn lemma_execute_wf(m: EngineView, stmt: StatementView)
    requires
        m.wf(),
    ensures
        m.execute(stmt).0.wf(),
{
    match stmt {
        StatementView::BlockingAssign { id: OperandView::Identifier(var), expr } => {
            lemma_write_wf(m.noting(unread_in(m.store, expr)), var, evaluate_in(m.store, expr));
        },
        _ => {},
    }
}

/// Whether no procedure has two entries.
pub open spec fn once_each(entries: Seq<Entry>) -> bool {
    forall|i: int, j: int|
        0 <= i < j < entries.len() ==> (#[trigger] entries[i]).proc_id
            != (#[trigger] entries[j]).proc_id
}

/// Where no procedure has two entries, extraction hands out no procedure
/// twice, leaves none with two entries, and leaves no entry of a procedure
/// that it hands out.
pub proof fn lemma_extraction_once_each(entries: Seq<Entry>, t: Time)
    requires
        once_each(entries),
    ensures
        once_each(later(entries, t)),
        due(entries, t).no_duplicates(),
        forall|i: int, j: int|
            0 <= i < due(entries, t).len() && 0 <= j < later(entries, t).len() ==> (
            #[trigger] due(entries, t)[i]) != (#[trigger] later(entries, t)[j]).proc_id,
    decreases entries.len(),
{
    if entries.len() > 0 {
        let front = entries.drop_last();
        let last = entries.last();
        lemma_extraction_once_each(front, t);
        lemma_due_later(front, t);
        let d = due(front, t);
        let l = later(front, t);
        assert forall|i: int| 0 <= i < d.len() implies #[trigger] d[i] != last.proc_id by {
            assert(d.contains(d[i]));
        }
        assert forall|j: int| 0 <= j < l.len() implies (#[trigger] l[j]).proc_id
            != last.proc_id by {
            assert(l.contains(l[j]));
        }
    }
}

/// A step keeps the invariant.
pub proof fn lemma_step_wf(m: EngineView)
    requires
        m.wf(),
    ensures
        m.step().0.wf(),
{
    let arrived = m.arrived();
    assert(arrived.wf()) by {
        if m.agenda.len() > 0 {
            lemma_earliest(m.agenda);
        }
    }
    if !m.starved() && arrived.deltas < m.limit {
        let now = EngineView { deltas: (arrived.deltas + 1) as usize, ..arrived };
        if now.active.len() > 0 {
            let popped = EngineView { active: now.active.drop_first(), ..now };
            lemma_execute_wf(popped, now.active[0]);
        } else {
            let t = earliest(now.agenda);
            let batch = batch_at(now.agenda, t);
            let rest = later(now.agenda, t);
            let taken = EngineView { agenda: rest, ..now };
            lemma_extraction_once_each(now.agenda, t);
            lemma_distinct_same(due(now.agenda, t));
            lemma_due_later(now.agenda, t);
            assert forall|i: int| 0 <= i < rest.len() implies now.agenda.contains(
                #[trigger] rest[i],
            ) by {
            }
            assert forall|i: int| 0 <= i < batch.len() implies batch[i] < taken.procedures.len()
                && taken.idle(batch[i]) by {
                assert(batch.contains(batch[i]));
            }
            lemma_resume_all_wf(taken, batch);
        }
    }
}

/// The state in which a simulation starts keeps the invariant.
pub proof fn lemma_initialised_wf(m: EngineView)
    requires
        m.procedures.len() <= usize::MAX,
    ensures
        m.initialised().wf(),
{
}

/// A step never turns the clock back and never changes the limit. A step
/// after which the master loop goes on either starts a later instant or
/// counts against the limit of the current one.
pub proof fn lemma_step_progress(m: EngineView)
    requires
        m.bounded(),
    ensures
        m.step().0.limit == m.limit,
        m.step().0.time >= m.time,
        m.step().0.procedures.len() == m.procedures.len(),
        m.step().0.vars == m.vars,
        goes_on(m.step().1) ==> m.step().0.time > m.time || (m.step().0.deltas == m.deltas + 1
            && m.deltas < m.limit),
{
    let arrived = m.arrived();
    if !m.starved() && arrived.deltas < m.limit {
        let now = EngineView { deltas: (arrived.deltas + 1) as usize, ..arrived };
        if now.active.len() > 0 {
            let popped = EngineView { active: now.active.drop_first(), ..now };
            lemma_execute_same_instant(popped, now.active[0]);
        } else {
            let t = earliest(now.agenda);
            let batch = batch_at(now.agenda, t);
            let taken = EngineView { agenda: later(now.agenda, t), ..now };
            lemma_batch_at(now.agenda, t);
            assert forall|i: int| 0 <= i < batch.len() implies batch[i]
                < taken.procedures.len() by {
                assert(batch.contains(batch[i]));
            }
            lemma_resume_all_same_instant(taken, batch);
        }
    }
}

/// Executing a statement leaves the clock, the limit, the variables and the
/// number of procedures as they are.
pub proof fn lemma_execute_same_instant(m: EngineView, stmt: StatementView)
    requires
        m.bounded(),
    ensures
        m.execute(stmt).0.time == m.time,
        m.execute(stmt).0.deltas == m.deltas,
        m.execute(stmt).0.limit == m.limit,
        m.execute(stmt).0.vars == m.vars,
        m.execute(stmt).0.procedures.len() == m.procedures.len(),
{
    match stmt {
        StatementView::BlockingAssign { id: OperandView::Identifier(var), expr } => {
            lemma_write_same_instant(
                m.noting(unread_in(m.store, expr)),
                var,
                evaluate_in(m.store, expr),
            );
        },
        _ => {},
    }
}

} // verus!
