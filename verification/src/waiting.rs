//! The wait table: which procedure is blocked on which edge.
//!
//! A procedure may be registered under several edges at once, and several
//! procedures under one edge. The table keeps the registrations in the order
//! in which they were made, each pair of edge and procedure once.

use vstd::prelude::*;
use crate::procedure::{lemma_push_contains, Edge, EdgeView, ProcId};

verus! {

/// A procedure blocked on an edge.
#[derive(Debug)]
pub struct Waiter {
    pub edge: Edge,
    pub proc_id: ProcId,
}

/// What a [`Waiter`] stands for.
pub struct WaiterView {
    pub edge: EdgeView,
    pub proc_id: ProcId,
}

impl View for Waiter {
    type V = WaiterView;

    open spec fn view(&self) -> WaiterView {
        WaiterView { edge: self.edge@, proc_id: self.proc_id }
    }
}

/// The registrations with one more, unless it was made before.
pub open spec fn registered(waiters: Seq<WaiterView>, waiter: WaiterView) -> Seq<WaiterView> {
    if waiters.contains(waiter) {
        waiters
    } else {
        waiters.push(waiter)
    }
}

/// The procedures blocked on exactly this edge, in the order of their registration.
pub open spec fn blocked_on(waiters: Seq<WaiterView>, edge: EdgeView) -> Seq<ProcId>
    decreases waiters.len(),
{
    if waiters.len() == 0 {
        Seq::empty()
    } else {
        let before = blocked_on(waiters.drop_last(), edge);
        if waiters.last().edge == edge {
            before.push(waiters.last().proc_id)
        } else {
            before
        }
    }
}

/// The registrations under other edges than this one.
pub open spec fn without_edge(waiters: Seq<WaiterView>, edge: EdgeView) -> Seq<WaiterView>
    decreases waiters.len(),
{
    if waiters.len() == 0 {
        Seq::empty()
    } else {
        let before = without_edge(waiters.drop_last(), edge);
        if waiters.last().edge == edge {
            before
        } else {
            before.push(waiters.last())
        }
    }
}

/// The registrations of other procedures than these.
pub open spec fn without_procs(waiters: Seq<WaiterView>, procs: Seq<ProcId>) -> Seq<WaiterView>
    decreases waiters.len(),
{
    if waiters.len() == 0 {
        Seq::empty()
    } else {
        let before = without_procs(waiters.drop_last(), procs);
        if procs.contains(waiters.last().proc_id) {
            before
        } else {
            before.push(waiters.last())
        }
    }
}

/// Whether the procedure is registered under some edge.
pub open spec fn is_blocked(waiters: Seq<WaiterView>, proc_id: ProcId) -> bool {
    exists|i: int| 0 <= i < waiters.len() && #[trigger] waiters[i].proc_id == proc_id
}

/// A procedure is blocked on an edge exactly if it is registered under it.
pub proof fn lemma_blocked_on(waiters: Seq<WaiterView>, edge: EdgeView, proc_id: ProcId)
    ensures
        blocked_on(waiters, edge).contains(proc_id) <==> waiters.contains(
            WaiterView { edge, proc_id },
        ),
    decreases waiters.len(),
{
    if waiters.len() > 0 {
        let front = waiters.drop_last();
        lemma_blocked_on(front, edge, proc_id);
        assert(waiters =~= front.push(waiters.last()));
        lemma_push_contains(blocked_on(front, edge), waiters.last().proc_id, proc_id);
    }
}

/// A notification leaves exactly the registrations under other edges.
pub proof fn lemma_without_edge(waiters: Seq<WaiterView>, edge: EdgeView, waiter: WaiterView)
    ensures
        without_edge(waiters, edge).contains(waiter) <==> waiters.contains(waiter) && waiter.edge
            != edge,
    decreases waiters.len(),
{
    if waiters.len() > 0 {
        let front = waiters.drop_last();
        lemma_without_edge(front, edge, waiter);
        assert(waiters =~= front.push(waiters.last()));
        lemma_push_contains(without_edge(front, edge), waiters.last(), waiter);
    }
}

/// A scrub leaves exactly the registrations of other procedures.
pub proof fn lemma_without_procs(waiters: Seq<WaiterView>, procs: Seq<ProcId>, waiter: WaiterView)
    ensures
        without_procs(waiters, procs).contains(waiter) <==> waiters.contains(waiter)
            && !procs.contains(waiter.proc_id),
    decreases waiters.len(),
{
    if waiters.len() > 0 {
        let front = waiters.drop_last();
        lemma_without_procs(front, procs, waiter);
        assert(waiters =~= front.push(waiters.last()));
        lemma_push_contains(without_procs(front, procs), waiters.last(), waiter);
    }
}

/// Where no registration is made twice, a notification returns no procedure
/// twice, and neither a notification nor a scrub leaves a registration twice.
pub proof fn lemma_each_once(waiters: Seq<WaiterView>, edge: EdgeView, procs: Seq<ProcId>)
    requires
        waiters.no_duplicates(),
    ensures
        blocked_on(waiters, edge).no_duplicates(),
        without_edge(waiters, edge).no_duplicates(),
        without_procs(waiters, procs).no_duplicates(),
    decreases waiters.len(),
{
    if waiters.len() > 0 {
        let front = waiters.drop_last();
        let last = waiters.last();
        lemma_each_once(front, edge, procs);
        lemma_blocked_on(front, edge, last.proc_id);
        lemma_without_edge(front, edge, last);
        lemma_without_procs(front, procs, last);
    }
}

/// The registrations: which procedure is blocked on which edge. No
/// registration is held twice.
pub struct WaitTable {
    waiters: Vec<Waiter>,
}

impl View for WaitTable {
    type V = Seq<WaiterView>;

    closed spec fn view(&self) -> Seq<WaiterView> {
        self.waiters@.map_values(|waiter: Waiter| waiter@)
    }
}

/// Whether `proc_id` is among `procs`.
pub fn contains_proc(procs: &Vec<ProcId>, proc_id: ProcId) -> (found: bool)
    ensures
        found == procs@.contains(proc_id),
{
    let mut i: usize = 0;
    while i < procs.len()
        invariant
            i <= procs.len(),
            forall|k: int| 0 <= k < i ==> procs[k] != proc_id,
        decreases procs.len() - i,
    {
        if procs[i] == proc_id {
            return true;
        }
        i += 1;
    }
    false
}

impl WaitTable {
    /// No registration is held twice.
    #[verifier::type_invariant]
    spec fn each_once(&self) -> bool {
        self@.no_duplicates()
    }

    /// A table without registrations.
    pub fn new() -> (table: WaitTable)
        ensures
            table@ == Seq::<WaiterView>::empty(),
    {
        let table = WaitTable { waiters: Vec::new() };
        table
    }

    /// The registrations, in the order in which they were made, each once.
    pub fn waiters(&self) -> (waiters: &Vec<Waiter>)
        ensures
            waiters@.map_values(|waiter: Waiter| waiter@) == self@,
            self@.no_duplicates(),
    {
        proof {
            use_type_invariant(self);
        }
        &self.waiters
    }

    /// Whether no procedure is blocked.
    pub fn is_empty(&self) -> (empty: bool)
        ensures
            empty == (self@.len() == 0),
    {
        self.waiters.len() == 0
    }

    /// Adds the procedure to those blocked on the edge. A second registration
    /// of the same procedure under the same edge changes nothing.
    pub fn register(&mut self, edge: Edge, proc_id: ProcId)
        ensures
            final(self)@ == registered(old(self)@, WaiterView { edge: edge@, proc_id }),
    {
        proof {
            use_type_invariant(&*self);
        }
        let ghost waiter = WaiterView { edge: edge@, proc_id };
        let mut i: usize = 0;
        while i < self.waiters.len()
            invariant
                i <= self.waiters.len(),
                forall|k: int| 0 <= k < i ==> self@[k] != waiter,
                waiter == (WaiterView { edge: edge@, proc_id }),
            decreases self.waiters.len() - i,
        {
            if self.waiters[i].proc_id == proc_id && self.waiters[i].edge == edge {
                assert(self@[i as int] == waiter);
                return ;
            }
            i += 1;
        }
        let mut waiters: Vec<Waiter> = Vec::new();
        std::mem::swap(&mut waiters, &mut self.waiters);
        waiters.push(Waiter { edge, proc_id });
        assert(waiters@.map_values(|waiter: Waiter| waiter@) =~= old(self)@.push(waiter));
        self.waiters = waiters;
    }

    /// Removes and returns every procedure blocked on exactly this edge, in the
    /// order of their registration; none if there is none.
    pub fn notify(&mut self, edge: &Edge) -> (procs: Vec<ProcId>)
        ensures
            procs@ == blocked_on(old(self)@, edge@),
            procs@.no_duplicates(),
            final(self)@ == without_edge(old(self)@, edge@),
    {
        proof {
            use_type_invariant(&*self);
            lemma_each_once(self@, edge@, Seq::empty());
        }
        let mut procs: Vec<ProcId> = Vec::new();
        let mut rest: Vec<Waiter> = Vec::new();
        let mut waiters: Vec<Waiter> = Vec::new();
        std::mem::swap(&mut waiters, &mut self.waiters);
        let ghost all = old(self)@;
        for waiter in it: waiters
            invariant
                it.seq().map_values(|waiter: Waiter| waiter@) == all,
                procs@ == blocked_on(all.take(it.index() as int), edge@),
                rest@.map_values(|waiter: Waiter| waiter@) == without_edge(
                    all.take(it.index() as int),
                    edge@,
                ),
        {
            assert(all.take(it.index() + 1).drop_last() =~= all.take(it.index() as int));
            if waiter.edge == *edge {
                procs.push(waiter.proc_id);
            } else {
                rest.push(waiter);
            }
        }
        assert(all.take(all.len() as int) =~= all);
        self.waiters = rest;
        procs
    }

    /// Removes every registration of these procedures, under whatever edge.
    pub fn scrub(&mut self, procs: &Vec<ProcId>)
        ensures
            final(self)@ == without_procs(old(self)@, procs@),
    {
        proof {
            use_type_invariant(&*self);
            lemma_each_once(self@, EdgeView::Any(Seq::empty()), procs@);
        }
        let mut rest: Vec<Waiter> = Vec::new();
        let mut waiters: Vec<Waiter> = Vec::new();
        std::mem::swap(&mut waiters, &mut self.waiters);
        let ghost all = old(self)@;
        for waiter in it: waiters
            invariant
                it.seq().map_values(|waiter: Waiter| waiter@) == all,
                rest@.map_values(|waiter: Waiter| waiter@) == without_procs(
                    all.take(it.index() as int),
                    procs@,
                ),
        {
            assert(all.take(it.index() + 1).drop_last() =~= all.take(it.index() as int));
            if !contains_proc(procs, waiter.proc_id) {
                rest.push(waiter);
            }
        }
        assert(all.take(all.len() as int) =~= all);
        self.waiters = rest;
    }
}

} // verus!
