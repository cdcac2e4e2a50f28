//! The engine: it owns the value store, the procedures, the scheduler, the
//! wait table and the two queues, and drives the master loop.

use std::collections::VecDeque;
use vstd::prelude::*;
use vstd::hash_map::StringHashMap;
use crate::consistency::{lemma_step_progress, lemma_step_wf};
use crate::diagnostic::{diagnostic_views, unread, unread_in, Diagnostic};
use crate::laws::{lemma_initialised_settled, lemma_step_settled, settled};
use crate::model::{
    all_at_zero,
    evaluate_in,
    goes_on,
    identifiers_across,
    lookup_value,
    prior_value,
    register_all,
    transitions,
    verdict,
    EngineView,
    Phase,
    SimError,
    SnapshotView,
};
use crate::procedure::{
    contains_name,
    distinct,
    edge_views,
    identifiers_of,
    lemma_distinct,
    lemma_distinct_absorbs,
    names,
    statement_views,
    Edge,
    Expression,
    Operand,
    ProcId,
    Procedure,
    ProcedureView,
    Statement,
    Time,
    Value,
};
use crate::runs::{in_time_order, lemma_history_ordered};
use crate::timeheap::{batch_at, earliest, later, lemma_batch_at, TimeHeap};
use crate::waiting::{contains_proc, without_procs, WaitTable};
use crate::waking::{
    calmed,
    lemma_fired_rouses,
    lemma_roused_listened,
    lemma_scrub_after_calm,
    roused,
};

verus! {

/// The most steps that one instant may take in an engine made by [`Engine::new`].
pub const DEFAULT_LIMIT: usize = 1000000;

/// What a list of procedures stands for.
pub open spec fn procedure_views(procedures: Seq<Procedure>) -> Seq<ProcedureView> {
    procedures.map_values(|procedure: Procedure| procedure@)
}

/// The edges that fire when `value` is written to `var`, whose value was `prior`.
pub fn fired_edges(prior: Option<Value>, value: Value, var: &String) -> (edges: Vec<Edge>)
    ensures
        edge_views(edges@) == transitions(prior, value, var@),
{
    let mut edges: Vec<Edge> = Vec::new();
    match prior {
        None => {
            edges.push(Edge::Any(var.clone()));
        },
        Some(before) => {
            if before != value {
                edges.push(Edge::Any(var.clone()));
                if before == 0 {
                    edges.push(Edge::Rise(var.clone()));
                } else if value == 0 {
                    edges.push(Edge::Fall(var.clone()));
                }
            }
        },
    }
    edges
}

/// The simulation engine.
pub struct Engine {
    procedures: Vec<Procedure>,
    q_active: VecDeque<Statement>,
    q_nba: VecDeque<Statement>,
    symtable: StringHashMap<Value>,
    waiting: WaitTable,
    timeheap: TimeHeap,
    time: Time,
    deltas: usize,
    limit: usize,
    vars: Vec<String>,
    diagnostics: Vec<Diagnostic>,
}

impl View for Engine {
    type V = EngineView;

    closed spec fn view(&self) -> EngineView {
        EngineView {
            procedures: procedure_views(self.procedures@),
            active: statement_views(self.q_active@),
            deferred: statement_views(self.q_nba@),
            store: self.symtable@,
            waiting: self.waiting@,
            agenda: self.timeheap@,
            time: self.time,
            deltas: self.deltas,
            limit: self.limit,
            vars: names(self.vars@),
            noted: diagnostic_views(self.diagnostics@),
        }
    }
}

impl Engine {
    /// An engine without procedures, at time 0, whose instants may take
    /// [`DEFAULT_LIMIT`] steps.
    pub fn new() -> (engine: Engine)
        ensures
            engine@ == Engine::empty_view(DEFAULT_LIMIT),
            engine@.wf(),
    {
        Engine::with_limit(DEFAULT_LIMIT)
    }

    /// An engine without procedures, at time 0, whose instants may take `limit` steps.
    pub fn with_limit(limit: usize) -> (engine: Engine)
        ensures
            engine@ == Engine::empty_view(limit),
            engine@.wf(),
    {
        let engine = Engine {
            procedures: Vec::new(),
            q_active: VecDeque::new(),
            q_nba: VecDeque::new(),
            symtable: StringHashMap::new(),
            waiting: WaitTable::new(),
            timeheap: TimeHeap::new(),
            time: 0,
            deltas: 0,
            limit,
            vars: Vec::new(),
            diagnostics: Vec::new(),
        };
        engine
    }

    /// What an engine without procedures stands for.
    pub open spec fn empty_view(limit: usize) -> EngineView {
        EngineView {
            procedures: Seq::empty(),
            active: Seq::empty(),
            deferred: Seq::empty(),
            store: Map::empty(),
            waiting: Seq::empty(),
            agenda: Seq::empty(),
            time: 0,
            deltas: 0,
            limit,
            vars: Seq::empty(),
            noted: Seq::empty(),
        }
    }

    /// Adds a procedure; its identifier is its place in the list. The
    /// procedure takes part in the simulation from the next initialisation on.
    pub fn add_proc(&mut self, p: Procedure)
        ensures
            final(self)@ == (EngineView {
                procedures: old(self)@.procedures.push(p@),
                ..old(self)@
            }),
            old(self)@.wf() ==> final(self)@.wf(),
    {
        self.procedures.push(p);
    }

    /// The value of an operand: the literal, or the variable's value, which is
    /// 0 for a variable that was never written.
    pub fn lookup(&self, op: &Operand) -> (value: Value)
        ensures
            value == lookup_value(self@.store, op@),
    {
        match op {
            Operand::Literal(num) => *num,
            Operand::Identifier(id) => match self.symtable.get(id.as_str()) {
                Some(n) => *n,
                None => 0,
            },
        }
    }

    /// The value of an expression in the current store.
    pub fn evaluate(&self, expr: &Expression) -> (value: Value)
        ensures
            value == evaluate_in(self@.store, expr@),
    {
        match expr {
            Expression::Const(a) => self.lookup(a),
            Expression::Not(b) => !self.lookup(b),
            Expression::And(a, b) => self.lookup(a) & self.lookup(b),
            Expression::Or(a, b) => self.lookup(a) | self.lookup(b),
        }
    }

    /// Remarks on the operand if it is a variable without a value.
    fn remark_unread(&mut self, op: &Operand)
        ensures
            final(self)@ == old(self)@.noting(unread(old(self)@.store, op@)),
    {
        if let Operand::Identifier(id) = op {
            if !self.symtable.contains_key(id.as_str()) {
                self.diagnostics.push(Diagnostic::UndefinedVariable(id.clone()));
                return ;
            }
        }
    }

    /// Remarks on each variable without a value that the expression reads.
    fn remark_unread_in(&mut self, expr: &Expression)
        ensures
            final(self)@ == old(self)@.noting(unread_in(old(self)@.store, expr@)),
    {
        match expr {
            Expression::Const(a) | Expression::Not(a) => {
                self.remark_unread(a);
            },
            Expression::And(a, b) | Expression::Or(a, b) => {
                self.remark_unread(a);
                self.remark_unread(b);
            },
        }
    }

    /// Sets the current time and starts a new instant.
    fn update_time(&mut self, time: Time)
        ensures
            final(self)@ == (EngineView { time, deltas: 0, ..old(self)@ }),
    {
        self.time = time;
        self.deltas = 0;
    }

    /// Puts a resolved assignment at the end of the deferred queue.
    fn schedule_nba(&mut self, stmt: Statement)
        ensures
            final(self)@ == (EngineView {
                deferred: old(self)@.deferred.push(stmt@),
                ..old(self)@
            }),
    {
        self.q_nba.push_back(stmt);
    }

    /// Resumes a procedure: it yields statements until one suspends it or none
    /// is left. A delay schedules it, a wait registers it under each of its
    /// edges, any other statement joins the active queue.
    fn get_events_from_pid(&mut self, pid: ProcId) -> (result: Result<(), SimError>)
        requires
            pid < old(self)@.procedures.len(),
        ensures
            (final(self)@, result) == old(self)@.resume(pid),
            final(self)@.procedures.len() == old(self)@.procedures.len(),
    {
        let mut left: usize = self.procedures[pid].stmts.len();
        loop
            invariant
                pid < self@.procedures.len(),
                self@.procedures.len() == old(self)@.procedures.len(),
                self@.pump(pid, left as nat) == old(self)@.resume(pid),
            decreases left,
        {
            let ghost before = self@;
            let found = self.procedures[pid].next_stmt();
            proof {
                assert(procedure_views(self.procedures@) =~= before.procedures.update(
                    pid as int,
                    before.procedures[pid as int].advanced(),
                ));
            }
            match found {
                None => {
                    return Ok(());
                },
                Some(Statement::Delay { dly }) => {
                    match self.time.checked_add(dly) {
                        Some(trig_time) => {
                            self.timeheap.push(pid, trig_time);
                            return Ok(());
                        },
                        None => {
                            return Err(SimError::TimeOverflow { proc_id: pid });
                        },
                    }
                },
                Some(Statement::AtChange { edges }) => {
                    let ghost waiters = self.waiting@;
                    let ghost wanted = edge_views(edges@);
                    for edge in it: edges
                        invariant
                            edge_views(it.seq()) == wanted,
                            self.waiting@ == register_all(
                                waiters,
                                wanted.take(it.index() as int),
                                pid,
                            ),
                            self@ == (EngineView {
                                waiting: self.waiting@,
                                ..before.pump(pid, 0).0
                            }),
                    {
                        assert(wanted.take(it.index() + 1).drop_last() =~= wanted.take(
                            it.index() as int,
                        ));
                        self.waiting.register(edge, pid);
                    }
                    assert(wanted.take(wanted.len() as int) =~= wanted);
                    return Ok(());
                },
                Some(stmt) => {
                    if left == 0 {
                        return Err(SimError::NeverSuspends { proc_id: pid });
                    }
                    left -= 1;
                    let ghost queued = self@.active;
                    self.q_active.push_back(stmt);
                    assert(statement_views(self.q_active@) =~= queued.push(stmt@));
                },
            }
        }
    }

    /// Resumes the procedures in turn, up to the first error.
    fn resume_each(&mut self, procs: &Vec<ProcId>) -> (result: Result<(), SimError>)
        requires
            forall|i: int| 0 <= i < procs.len() ==> procs[i] < old(self)@.procedures.len(),
        ensures
            (final(self)@, result) == old(self)@.resume_all(procs@),
            final(self)@.procedures.len() == old(self)@.procedures.len(),
    {
        let mut i: usize = 0;
        assert(procs@.skip(0) =~= procs@);
        while i < procs.len()
            invariant
                i <= procs.len(),
                self@.procedures.len() == old(self)@.procedures.len(),
                forall|k: int| 0 <= k < procs.len() ==> procs[k] < self@.procedures.len(),
                self@.resume_all(procs@.skip(i as int)) == old(self)@.resume_all(procs@),
            decreases procs.len() - i,
        {
            assert(procs@.skip(i as int).drop_first() =~= procs@.skip(i + 1));
            match self.get_events_from_pid(procs[i]) {
                Ok(_) => {},
                Err(error) => {
                    return Err(error);
                },
            }
            i += 1;
        }
        Ok(())
    }

    /// Resumes the procedures that are due at the earliest scheduled time.
    fn get_events(&mut self) -> (result: Result<(), SimError>)
        requires
            old(self)@.bounded(),
            old(self)@.agenda.len() > 0,
        ensures
            (final(self)@, result) == (EngineView {
                agenda: later(old(self)@.agenda, earliest(old(self)@.agenda)),
                ..old(self)@
            }).resume_all(batch_at(old(self)@.agenda, earliest(old(self)@.agenda))),
    {
        let (_, proc_ids) = self.timeheap.activate();
        proof {
            let agenda = old(self)@.agenda;
            lemma_batch_at(agenda, earliest(agenda));
            assert forall|i: int| 0 <= i < proc_ids.len() implies proc_ids[i]
                < self@.procedures.len() by {
                assert(proc_ids@.contains(proc_ids[i]));
            }
        }
        self.resume_each(&proc_ids)
    }

    /// Removes every registration of these procedures from the wait table.
    fn scrub_waiting_list(&mut self, pids: &Vec<ProcId>)
        ensures
            final(self)@ == (EngineView {
                waiting: without_procs(old(self)@.waiting, pids@),
                ..old(self)@
            }),
    {
        self.waiting.scrub(pids);
    }

    /// Notifies each of the edges in turn and scrubs the procedures that this
    /// returned from the wait table. Returns those procedures, each once.
    fn wake(&mut self, fired: &Vec<Edge>) -> (woken: Vec<ProcId>)
        ensures
            woken@ == distinct(roused(old(self)@.waiting, edge_views(fired@))),
            final(self)@ == (EngineView {
                waiting: without_procs(old(self)@.waiting, woken@),
                ..old(self)@
            }),
    {
        let mut woken: Vec<ProcId> = Vec::new();
        let ghost edges = edge_views(fired@);
        let ghost mut gathered: Seq<ProcId> = Seq::empty();
        let mut k: usize = 0;
        assert(edges.skip(0) =~= edges);
        while k < fired.len()
            invariant
                k <= fired.len(),
                edges == edge_views(fired@),
                self@ == (EngineView { waiting: self@.waiting, ..old(self)@ }),
                woken@ == distinct(gathered),
                gathered + roused(self@.waiting, edges.skip(k as int)) == roused(
                    old(self)@.waiting,
                    edges,
                ),
                calmed(self@.waiting, edges.skip(k as int)) == calmed(old(self)@.waiting, edges),
            decreases fired.len() - k,
        {
            let procs = self.waiting.notify(&fired[k]);
            proof {
                assert(edges.skip(k as int).drop_first() =~= edges.skip(k + 1));
            }
            let mut j: usize = 0;
            while j < procs.len()
                invariant
                    j <= procs.len(),
                    woken@ == distinct(gathered + procs@.take(j as int)),
                decreases procs.len() - j,
            {
                proof {
                    let next = gathered + procs@.take(j + 1);
                    assert(next.drop_last() =~= gathered + procs@.take(j as int));
                }
                if !contains_proc(&woken, procs[j]) {
                    woken.push(procs[j]);
                }
                j += 1;
            }
            proof {
                assert(procs@.take(j as int) =~= procs@);
                gathered = gathered + procs@;
            }
            k += 1;
        }
        self.scrub_waiting_list(&woken);
        proof {
            let waiters = old(self)@.waiting;
            lemma_distinct(gathered);
            assert forall|i: int|
                0 <= i < waiters.len() && edges.contains((#[trigger] waiters[i]).edge) implies woken@.contains(
                waiters[i].proc_id,
            ) by {
                lemma_fired_rouses(waiters, edges, waiters[i].edge, waiters[i].proc_id);
            }
            lemma_scrub_after_calm(waiters, edges, woken@);
        }
        woken
    }

    /// Writes a variable: the store takes the value, the edges that the change
    /// fires are notified, and the procedures blocked on them are resumed.
    fn update_variable(&mut self, var: String, value: Value) -> (result: Result<(), SimError>)
        requires
            old(self)@.bounded(),
        ensures
            (final(self)@, result) == old(self)@.write(var@, value),
    {
        let prior = match self.symtable.get(var.as_str()) {
            Some(before) => Some(*before),
            None => None,
        };
        let fired = fired_edges(prior, value, &var);
        self.symtable.insert(var, value);
        let ghost stored = self@;
        let woken = self.wake(&fired);
        proof {
            assert forall|i: int| 0 <= i < woken.len() implies woken[i]
                < self@.procedures.len() by {
                let gathered = roused(stored.waiting, edge_views(fired@));
                lemma_distinct(gathered);
                lemma_roused_listened(stored.waiting, edge_views(fired@), woken[i]);
            }
        }
        self.resume_each(&woken)
    }

    /// Executes a statement of the active queue. A blocking assignment to a
    /// variable is evaluated and written at once; a non-blocking one is
    /// evaluated at once and its write deferred; an assignment to a literal, a
    /// delay or a wait is ignored.
    fn execute(&mut self, stmt: Statement) -> (result: Result<(), SimError>)
        requires
            old(self)@.bounded(),
        ensures
            (final(self)@, result) == old(self)@.execute(stmt@),
    {
        match stmt {
            Statement::BlockingAssign { id: Operand::Identifier(var), expr } => {
                self.remark_unread_in(&expr);
                let value = self.evaluate(&expr);
                self.update_variable(var, value)
            },
            Statement::NonBlockingAssign { id: Operand::Identifier(var), expr } => {
                self.remark_unread_in(&expr);
                let value = self.evaluate(&expr);
                let stmt = Statement::BlockingAssign {
                    id: Operand::Identifier(var),
                    expr: Expression::Const(Operand::Literal(value)),
                };
                self.schedule_nba(stmt);
                Ok(())
            },
            ignored => {
                self.diagnostics.push(Diagnostic::IgnoredStatement(ignored));
                Ok(())
            },
        }
    }

    /// Lists the variables that the procedures' assignments name, each once,
    /// in the order of their first occurrence.
    fn get_identifier_list(&mut self)
        ensures
            final(self)@ == (EngineView {
                vars: distinct(identifiers_across(old(self)@.procedures)),
                ..old(self)@
            }),
    {
        let mut vars: Vec<String> = Vec::new();
        let ghost procedures = self@.procedures;
        let mut i: usize = 0;
        while i < self.procedures.len()
            invariant
                i <= self.procedures.len(),
                procedures == self@.procedures,
                self@ == old(self)@,
                names(vars@) == distinct(identifiers_across(procedures.take(i as int))),
            decreases self.procedures.len() - i,
        {
            let proc_vars = self.procedures[i].get_identifiers();
            let ghost before = identifiers_across(procedures.take(i as int));
            let ghost found = names(proc_vars@);
            let mut j: usize = 0;
            while j < proc_vars.len()
                invariant
                    j <= proc_vars.len(),
                    found == names(proc_vars@),
                    names(vars@) == distinct(before + found.take(j as int)),
                decreases proc_vars.len() - j,
            {
                proof {
                    let next = before + found.take(j + 1);
                    assert(next.drop_last() =~= before + found.take(j as int));
                }
                if !contains_name(&vars, &proc_vars[j]) {
                    vars.push(proc_vars[j].clone());
                }
                j += 1;
            }
            proof {
                let upto = procedures.take(i + 1);
                let all = identifiers_of(procedures[i as int].stmts);
                assert(found.take(j as int) =~= found);
                assert(upto.drop_last() =~= procedures.take(i as int));
                lemma_distinct_absorbs(before, all);
            }
            i += 1;
        }
        assert(procedures.take(i as int) =~= procedures);
        self.vars = vars;
    }

    /// Starts a simulation: every procedure is scheduled for time 0, the
    /// clock is set to 0, the queues and the wait table are emptied, and the
    /// variables of the design are listed. The store keeps its values and the
    /// procedures keep their cursors. Fails, and changes nothing, where the
    /// engine has no procedure.
    pub fn init(&mut self) -> (result: Result<(), SimError>)
        ensures
            old(self)@.procedures.len() == 0 ==> result == Err::<(), SimError>(
                SimError::NoProcedures,
            ) && final(self)@ == old(self)@,
            old(self)@.procedures.len() > 0 ==> result is Ok && final(self)@ == old(
                self,
            )@.initialised() && final(self)@.wf() && settled(final(self)@),
    {
        if self.procedures.len() == 0 {
            return Err(SimError::NoProcedures);
        }
        self.q_active = VecDeque::new();
        self.q_nba = VecDeque::new();
        self.waiting = WaitTable::new();
        self.timeheap = TimeHeap::new();
        self.time = 0;
        self.deltas = 0;
        self.diagnostics = Vec::new();
        let n: usize = self.procedures.len();
        let mut i: usize = 0;
        while i < n
            invariant
                i <= n == self.procedures.len(),
                self.timeheap@ == all_at_zero(i as nat),
                self@ == (EngineView {
                    agenda: self.timeheap@,
                    vars: old(self)@.vars,
                    ..old(self)@.initialised()
                }),
            decreases n - i,
        {
            self.timeheap.push(i, 0);
            i += 1;
        }
        self.get_identifier_list();
        proof {
            lemma_initialised_settled(old(self)@);
        }
        Ok(())
    }

    /// What a tracer is offered now: the time, and for each variable of the
    /// design its value, if it has one.
    pub fn snapshot(&self) -> (snapshot: Snapshot)
        ensures
            snapshot@ == self@.snapshot(),
    {
        let mut values: Vec<Option<Value>> = Vec::new();
        let mut i: usize = 0;
        while i < self.vars.len()
            invariant
                i <= self.vars.len(),
                values.len() == i,
                forall|k: int| 0 <= k < i ==> values[k] == prior_value(self@.store, self.vars[k]@),
            decreases self.vars.len() - i,
        {
            let value = match self.symtable.get(self.vars[i].as_str()) {
                Some(found) => Some(*found),
                None => None,
            };
            values.push(value);
            i += 1;
        }
        let snapshot = Snapshot { time: self.time, values };
        assert(snapshot@.values =~= self@.snapshot().values);
        snapshot
    }

    /// One step of the master loop. The active queue comes first: its oldest
    /// statement is executed, so that step by step the queue is worked off
    /// in the order in which it was filled. Else the deferred assignments are
    /// moved to the active queue. Else the procedures due at the earliest
    /// scheduled time are resumed, and that time becomes the current one.
    /// Where nothing is active, deferred or scheduled, the simulation has
    /// ended. A step that would exceed the limit of its instant fails.
    pub fn step(&mut self) -> (result: Result<Phase, SimError>)
        requires
            old(self)@.wf(),
        ensures
            (final(self)@, result) == old(self)@.step(),
            final(self)@.wf(),
            settled(old(self)@) && result is Ok ==> settled(final(self)@),
    {
        proof {
            lemma_step_wf(self@);
            if settled(self@) && self@.step().1 is Ok {
                lemma_step_settled(self@);
            }
        }
        self.diagnostics = Vec::new();
        if self.q_active.len() == 0 && self.q_nba.len() == 0 {
            match self.timeheap.next_time() {
                None => {
                    return Ok(Phase::Starved);
                },
                Some(t) => {
                    if t > self.time {
                        self.update_time(t);
                    }
                },
            }
        }
        assert(self@ == old(self)@.arrived());
        if self.deltas >= self.limit {
            return Err(SimError::CombinationalLoop);
        }
        self.deltas += 1;
        let ghost now = self@;
        match self.q_active.pop_front() {
            Some(stmt) => {
                assert(statement_views(self.q_active@) =~= now.active.drop_first());
                match self.execute(stmt) {
                    Ok(_) => Ok(Phase::Executed),
                    Err(error) => Err(error),
                }
            },
            None => {
                if self.q_nba.len() > 0 {
                    std::mem::swap(&mut self.q_active, &mut self.q_nba);
                    Ok(Phase::Promoted)
                } else {
                    match self.get_events() {
                        Ok(_) => Ok(Phase::Advanced),
                        Err(error) => Err(error),
                    }
                }
            },
        }
    }

    /// Runs the master loop until the simulation is starved or fails. Before
    /// each step that finds nothing left of the current instant, and once at
    /// the end, it records what a tracer is offered.
    pub fn run(&mut self) -> (report: RunReport)
        requires
            old(self)@.wf(),
        ensures
            final(self)@.wf(),
            exists|n: nat|
                {
                    &&& old(self)@.halts_after(n)
                    &&& final(self)@ == old(self)@.after(n + 1)
                    &&& report.result == verdict(old(self)@.after(n).step().1)
                    &&& snapshot_views(report.snapshots@) == #[trigger] old(self)@.history(
                        n + 1,
                    ).push(final(self)@.snapshot())
                    &&& diagnostic_views(report.diagnostics@) == old(self)@.chronicle(n + 1)
                },
            report.result is Ok ==> final(self)@.starved(),
            settled(old(self)@) && report.result is Ok ==> settled(final(self)@),
            in_time_order(snapshot_views(report.snapshots@)),
            snapshot_views(report.snapshots@).last() == final(self)@.snapshot(),
    {
        let mut snapshots: Vec<Snapshot> = Vec::new();
        let mut diagnostics: Vec<Diagnostic> = Vec::new();
        let ghost start = self@;
        let ghost mut n: nat = 0;
        loop
            invariant
                start == old(self)@,
                start.wf(),
                self@.wf(),
                self@ == start.after(n),
                forall|k: nat| k < n ==> goes_on(#[trigger] start.after(k).step().1),
                snapshot_views(snapshots@) == start.history(n),
                diagnostic_views(diagnostics@) == start.chronicle(n),
                settled(start) ==> settled(self@),
            decreases usize::MAX - self@.time, self@.limit - self@.deltas,
        {
            if self.q_active.len() == 0 && self.q_nba.len() == 0 {
                let snapshot = self.snapshot();
                snapshots.push(snapshot);
            }
            let ghost before = self@;
            assert(snapshot_views(snapshots@) == start.history(n + 1));
            let result = self.step();
            proof {
                lemma_step_progress(before);
            }
            let ghost remarked = diagnostic_views(diagnostics@);
            let mut i: usize = 0;
            while i < self.diagnostics.len()
                invariant
                    i <= self.diagnostics.len(),
                    diagnostics.len() == remarked.len() + i,
                    forall|k: int| 0 <= k < remarked.len() ==> diagnostics[k]@ == remarked[k],
                    forall|k: int|
                        0 <= k < i ==> diagnostics[remarked.len() + k]@ == self.diagnostics[k]@,
                decreases self.diagnostics.len() - i,
            {
                diagnostics.push(self.diagnostics[i].clone());
                i += 1;
            }
            let ended = match result {
                Ok(Phase::Starved) => Some(Ok(())),
                Err(error) => Some(Err(error)),
                Ok(_) => None,
            };
            if let Some(result) = ended {
                let ghost recorded = snapshot_views(snapshots@);
                let snapshot = self.snapshot();
                snapshots.push(snapshot);
                assert(snapshot_views(snapshots@) =~= recorded.push(self@.snapshot()));
                proof {
                    lemma_history_ordered(start, n + 1);
                }
                return RunReport { snapshots, diagnostics, result };
            }
            proof {
                n = n + 1;
            }
        }
    }

    /// What the last step remarked on.
    pub fn diagnostics(&self) -> (diagnostics: &Vec<Diagnostic>)
        ensures
            diagnostic_views(diagnostics@) == self@.noted,
    {
        &self.diagnostics
    }

    /// The current simulated time.
    pub fn time(&self) -> (time: Time)
        ensures
            time == self@.time,
    {
        self.time
    }

    /// The value of a variable, if it has one.
    pub fn value_of(&self, name: &str) -> (value: Option<Value>)
        ensures
            value == prior_value(self@.store, name@),
    {
        match self.symtable.get(name) {
            Some(found) => Some(*found),
            None => None,
        }
    }

    /// The variables of the design, as the last initialisation listed them.
    pub fn identifiers(&self) -> (vars: &Vec<String>)
        ensures
            names(vars@) == self@.vars,
    {
        &self.vars
    }

    /// The procedures, each at the place of its identifier.
    pub fn procedures(&self) -> (procedures: &Vec<Procedure>)
        ensures
            procedure_views(procedures@) == self@.procedures,
    {
        &self.procedures
    }

    /// The statements ready to execute within the current instant, oldest first.
    pub fn active_queue(&self) -> (queue: &VecDeque<Statement>)
        ensures
            statement_views(queue@) == self@.active,
    {
        &self.q_active
    }

    /// The resolved non-blocking assignments of the current instant, oldest first.
    pub fn deferred_queue(&self) -> (queue: &VecDeque<Statement>)
        ensures
            statement_views(queue@) == self@.deferred,
    {
        &self.q_nba
    }

    /// The procedures blocked on edges.
    pub fn wait_table(&self) -> (table: &WaitTable)
        ensures
            table@ == self@.waiting,
    {
        &self.waiting
    }

    /// The procedures blocked until a time.
    pub fn scheduler(&self) -> (heap: &TimeHeap)
        ensures
            heap@ == self@.agenda,
    {
        &self.timeheap
    }
}

/// What a tracer is offered: the time, and for each variable of the design,
/// in the order of [`Engine::identifiers`], its value, if it has one.
#[derive(Debug, PartialEq, Eq)]
pub struct Snapshot {
    pub time: Time,
    pub values: Vec<Option<Value>>,
}

impl View for Snapshot {
    type V = SnapshotView;

    open spec fn view(&self) -> SnapshotView {
        SnapshotView { time: self.time, values: self.values@ }
    }
}

/// What a list of snapshots stands for.
pub open spec fn snapshot_views(snapshots: Seq<Snapshot>) -> Seq<SnapshotView> {
    snapshots.map_values(|snapshot: Snapshot| snapshot@)
}

/// What a run recorded, and how it ended.
#[derive(Debug)]
pub struct RunReport {
    /// What a tracer was offered, in the order in which it was offered.
    pub snapshots: Vec<Snapshot>,
    /// What the steps remarked on, in the order of the remarks.
    pub diagnostics: Vec<Diagnostic>,
    /// `Ok` where the simulation was starved; else why it failed.
    pub result: Result<(), SimError>,
}

} // verus!
