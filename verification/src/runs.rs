//! Laws of whole runs: what holds of the states that a simulation passes
//! through, of the snapshots that it offers, and of how it ends.

use vstd::prelude::*;
use crate::consistency::{lemma_step_progress, lemma_step_wf};
use crate::diagnostic::unread_in;
use crate::laws::{lemma_step_settled, settled};
use crate::model::{
    evaluate_in,
    goes_on,
    is_resolved,
    prior_value,
    transitions,
    EngineView,
    Phase,
    SimError,
    SnapshotView,
};
use crate::procedure::{distinct, OperandView, ProcId, ProcedureView, StatementView, Value};
use crate::timeheap::{batch_at, due, later, Entry};
use crate::waking::lemma_no_one_to_calm;

verus! {

/// The state after one step more is the state that the steps lead to from
/// the state after the first.
pub proof fn lemma_after_shift(m: EngineView, n: nat)
    ensures
        m.after(n + 1) == m.step().0.after(n),
    decreases n,
{
    if n > 0 {
        lemma_after_shift(m, (n - 1) as nat);
    } else {
        assert(m.after(1) == m.after(0).step().0);
    }
}

/// A simulation ends once: if it ends after `n` steps and after `k` steps,
/// `n` and `k` are the same.
pub proof fn lemma_halts_once(m: EngineView, n: nat, k: nat)
    requires
        m.halts_after(n),
        m.halts_after(k),
    ensures
        n == k,
{
}

/// A simulation that goes on after its first step and ends `n` steps after
/// it ends after `n + 1` steps.
pub proof fn lemma_halts_shift(m: EngineView, n: nat)
    requires
        goes_on(m.step().1),
        m.step().0.halts_after(n),
    ensures
        m.halts_after(n + 1),
{
    assert forall|k: nat| k < n + 1 implies goes_on(#[trigger] m.after(k).step().1) by {
        if k > 0 {
            lemma_after_shift(m, (k - 1) as nat);
        }
    }
    lemma_after_shift(m, n);
}

/// Every state of a simulation keeps the invariant. The clock never runs
/// backwards, and the limit, the variables and the number of procedures stay
/// as they are.
pub proof fn lemma_after_wf(m: EngineView, n: nat)
    requires
        m.wf(),
    ensures
        m.after(n).wf(),
        m.after(n).time >= m.time,
        m.after(n).limit == m.limit,
        m.after(n).vars == m.vars,
        m.after(n).procedures.len() == m.procedures.len(),
    decreases n,
{
    if n > 0 {
        lemma_after_wf(m, (n - 1) as nat);
        lemma_step_wf(m.after((n - 1) as nat));
        lemma_step_progress(m.after((n - 1) as nat));
    }
}

/// As long as no step fails, every state of a simulation has every procedure
/// at rest, if the first state has.
pub proof fn lemma_after_settled(m: EngineView, n: nat)
    requires
        m.wf(),
        settled(m),
        forall|k: nat| k < n ==> (#[trigger] m.after(k).step().1) is Ok,
    ensures
        settled(m.after(n)),
    decreases n,
{
    if n > 0 {
        lemma_after_settled(m, (n - 1) as nat);
        lemma_after_wf(m, (n - 1) as nat);
        lemma_step_settled(m.after((n - 1) as nat));
    }
}

/// Whether the snapshots are in the order of their times.
pub open spec fn in_time_order(snapshots: Seq<SnapshotView>) -> bool {
    forall|i: int, j: int|
        0 <= i <= j < snapshots.len() ==> (#[trigger] snapshots[i]).time
            <= (#[trigger] snapshots[j]).time
}

/// Snapshots are offered in the order of their times: none is earlier than
/// one offered before it, and none is later than the clock. Each holds one
/// place for each variable of the design.
pub proof fn lemma_history_ordered(m: EngineView, n: nat)
    requires
        m.wf(),
    ensures
        in_time_order(m.history(n)),
        forall|i: int|
            0 <= i < m.history(n).len() ==> m.time <= (#[trigger] m.history(n)[i]).time
                <= m.after(n).time && m.history(n)[i].values.len() == m.vars.len(),
    decreases n,
{
    if n > 0 {
        lemma_history_ordered(m, (n - 1) as nat);
        lemma_after_wf(m, (n - 1) as nat);
        lemma_step_progress(m.after((n - 1) as nat));
    }
}

/// Whether no procedure is scheduled or blocked.
pub open spec fn unattended(m: EngineView) -> bool {
    m.agenda.len() == 0 && m.waiting.len() == 0
}

/// Whether executing the statement defers a write.
pub open spec fn defers(stmt: StatementView) -> bool {
    stmt matches StatementView::NonBlockingAssign { id: OperandView::Identifier(_), .. }
}

/// How many of the statements defer a write.
pub open spec fn deferrals(stmts: Seq<StatementView>) -> nat
    decreases stmts.len(),
{
    if stmts.len() == 0 {
        0
    } else {
        deferrals(stmts.drop_first()) + if defers(stmts[0]) {
            1nat
        } else {
            0nat
        }
    }
}

/// The steps that a simulation without scheduled or blocked procedures has
/// before it: one for each active statement and, if a write is or will be
/// deferred, one for the promotion and one for each deferred write.
pub open spec fn steps_left(m: EngineView) -> nat {
    let writes = m.deferred.len() + deferrals(m.active);
    m.active.len() + if writes > 0 {
        1 + writes
    } else {
        0
    }
}

/// Resolved assignments defer nothing.
pub proof fn lemma_resolved_defer_nothing(stmts: Seq<StatementView>)
    requires
        forall|i: int| 0 <= i < stmts.len() ==> is_resolved(#[trigger] stmts[i]),
    ensures
        deferrals(stmts) == 0,
    decreases stmts.len(),
{
    if stmts.len() > 0 {
        lemma_resolved_defer_nothing(stmts.drop_first());
    }
}

/// Where no procedure is blocked, a write changes the store and nothing else.
pub proof fn lemma_write_unattended(m: EngineView, var: Seq<char>, value: Value)
    requires
        m.waiting.len() == 0,
    ensures
        m.write(var, value) == (EngineView { store: m.store.insert(var, value), ..m }, Ok::<
            (),
            SimError,
        >(())),
{
    let fired = transitions(prior_value(m.store, var), value, var);
    lemma_no_one_to_calm(fired);
}

/// A step of a simulation without scheduled or blocked procedures, with work
/// left and within its limit, does one step of that work and goes on: it
/// counts against the limit and leaves the clock as it is.
pub proof fn lemma_unattended_step(m: EngineView)
    requires
        m.wf(),
        unattended(m),
        steps_left(m) > 0,
        m.deltas < m.limit,
    ensures
        goes_on(m.step().1),
        m.step().0.wf(),
        unattended(m.step().0),
        steps_left(m.step().0) + 1 == steps_left(m),
        m.step().0.deltas == m.deltas + 1,
        m.step().0.time == m.time,
        m.step().0.limit == m.limit,
{
    let now = EngineView { deltas: (m.deltas + 1) as usize, ..m.arrived() };
    if m.active.len() > 0 {
        let popped = EngineView { active: now.active.drop_first(), ..now };
        match now.active[0] {
            StatementView::BlockingAssign { id: OperandView::Identifier(var), expr } => {
                lemma_write_unattended(
                    popped.noting(unread_in(popped.store, expr)),
                    var,
                    evaluate_in(popped.store, expr),
                );
            },
            _ => {},
        }
    } else {
        lemma_resolved_defer_nothing(m.deferred);
    }
}

/// A simulation without scheduled or blocked procedures ends starved when
/// its queues are worked off, with the clock where it was: after one step for
/// each active statement and, if a write is or will be deferred, one for the
/// promotion and one for each deferred write.
pub proof fn lemma_unattended_halts(m: EngineView)
    requires
        m.wf(),
        unattended(m),
        m.deltas + steps_left(m) <= m.limit,
    ensures
        m.halts_after(steps_left(m)),
        m.after(steps_left(m)).starved(),
        m.after(steps_left(m)).step().1 == Ok::<Phase, SimError>(Phase::Starved),
        m.after(steps_left(m)).time == m.time,
    decreases steps_left(m),
{
    if steps_left(m) > 0 {
        lemma_unattended_step(m);
        let next = m.step().0;
        let n = steps_left(next);
        lemma_unattended_halts(next);
        lemma_halts_shift(m, n);
        lemma_after_shift(m, n);
    }
}

/// A procedure that runs once and has only assignments left yields them all
/// in one resumption, in order, and is dormant then.
pub proof fn lemma_pump_assignments(m: EngineView, proc_id: ProcId, budget: nat)
    requires
        proc_id < m.procedures.len(),
        m.procedures[proc_id as int].kind is Initial,
        m.procedures[proc_id as int].counter <= m.procedures[proc_id as int].stmts.len(),
        forall|i: int|
            m.procedures[proc_id as int].counter <= i < m.procedures[proc_id as int].stmts.len()
                ==> !(#[trigger] m.procedures[proc_id as int].stmts[i]).suspends(),
        budget >= m.procedures[proc_id as int].stmts.len() - m.procedures[proc_id as int].counter,
    ensures
        ({
            let p = m.procedures[proc_id as int];
            m.pump(proc_id, budget) == (
                EngineView {
                    procedures: m.procedures.update(
                        proc_id as int,
                        ProcedureView { counter: p.stmts.len(), ..p },
                    ),
                    active: m.active + p.stmts.subrange(p.counter as int, p.stmts.len() as int),
                    ..m
                },
                Ok::<(), SimError>(()),
            )
        }),
    decreases m.procedures[proc_id as int].stmts.len() - m.procedures[proc_id as int].counter,
{
    let p = m.procedures[proc_id as int];
    let len: nat = p.stmts.len();
    let moved = EngineView {
        procedures: m.procedures.update(proc_id as int, p.advanced()),
        ..m
    };
    if p.counter != len {
        let stmt = p.stmts[p.counter as int];
        let queued = EngineView { active: moved.active.push(stmt), ..moved };
        lemma_pump_assignments(queued, proc_id, (budget - 1) as nat);
    }
}

/// Termination. A simulation of one procedure that runs once and holds only
/// assignments ends starved within the instant in which it starts: the clock
/// stays at 0. It takes one step to resume the procedure, one for each
/// statement and, if a write is deferred, one for the promotion and one for
/// each deferred write. The law holds of every limit that allows that many
/// steps.
pub proof fn lemma_assignments_end_in_one_instant(m: EngineView)
    requires
        m.procedures.len() == 1,
        m.procedures[0].kind is Initial,
        m.procedures[0].counter == 0,
        forall|i: int|
            0 <= i < m.procedures[0].stmts.len() ==> !(#[trigger] m.procedures[0].stmts[i]).suspends(),
        1 + m.procedures[0].stmts.len() + if deferrals(m.procedures[0].stmts) > 0 {
            1 + deferrals(m.procedures[0].stmts)
        } else {
            0
        } <= m.limit,
    ensures
        ({
            let start = m.initialised();
            let stmts = m.procedures[0].stmts;
            let n = 1 + stmts.len() + if deferrals(stmts) > 0 {
                1 + deferrals(stmts)
            } else {
                0
            };
            &&& start.halts_after(n)
            &&& start.after(n).step().1 == Ok::<Phase, SimError>(Phase::Starved)
            &&& start.after(n).time == 0
            &&& start.after(n).starved()
        }),
{
    let start = m.initialised();
    let p = m.procedures[0];
    assert(batch_at(start.agenda, 0) =~= seq![0usize]) by {
        reveal_with_fuel(due, 2);
        reveal_with_fuel(distinct, 2);
    }
    assert(later(start.agenda, 0) =~= Seq::<Entry>::empty()) by {
        reveal_with_fuel(later, 2);
    }
    let now = EngineView { deltas: 1, ..start };
    let taken = EngineView { agenda: Seq::<Entry>::empty(), ..now };
    lemma_pump_assignments(taken, 0, p.stmts.len());
    let pumped = taken.resume(0).0;
    assert(taken.resume_all(seq![0usize]) == (pumped, Ok::<(), SimError>(()))) by {
        reveal_with_fuel(EngineView::resume_all, 2);
    }
    assert(pumped.active =~= p.stmts);
    lemma_unattended_halts(pumped);
    lemma_halts_shift(start, steps_left(pumped));
    lemma_after_shift(start, steps_left(pumped));
}

} // verus!
