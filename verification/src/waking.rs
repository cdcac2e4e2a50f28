//! Which procedures the firing of edges wakes, and what the notifications
//! leave in the wait table.

use vstd::prelude::*;
use crate::procedure::{EdgeView, ProcId};
use crate::waiting::{
    blocked_on,
    lemma_blocked_on,
    lemma_without_edge,
    without_edge,
    without_procs,
    WaiterView,
};

verus! {

/// The procedures that notifying each of the edges in turn returns.
pub open spec fn roused(waiters: Seq<WaiterView>, fired: Seq<EdgeView>) -> Seq<ProcId>
    decreases fired.len(),
{
    if fired.len() == 0 {
        Seq::empty()
    } else {
        blocked_on(waiters, fired[0]) + roused(without_edge(waiters, fired[0]), fired.drop_first())
    }
}

/// The registrations that notifying each of the edges in turn leaves.
pub open spec fn calmed(waiters: Seq<WaiterView>, fired: Seq<EdgeView>) -> Seq<WaiterView>
    decreases fired.len(),
{
    if fired.len() == 0 {
        waiters
    } else {
        calmed(without_edge(waiters, fired[0]), fired.drop_first())
    }
}

/// Whether the procedure is registered under one of the edges.
pub open spec fn listens(waiters: Seq<WaiterView>, fired: Seq<EdgeView>, proc_id: ProcId) -> bool {
    exists|i: int|
        0 <= i < waiters.len() && (#[trigger] waiters[i]).proc_id == proc_id && fired.contains(
            waiters[i].edge,
        )
}

/// Every procedure that the notifications return was registered under one of
/// the edges.
pub proof fn lemma_roused_listened(waiters: Seq<WaiterView>, fired: Seq<EdgeView>, proc_id: ProcId)
    requires
        roused(waiters, fired).contains(proc_id),
    ensures
        listens(waiters, fired, proc_id),
    decreases fired.len(),
{
    if fired.len() > 0 {
        let first = blocked_on(waiters, fired[0]);
        let left = without_edge(waiters, fired[0]);
        let i = roused(waiters, fired).index_of(proc_id);
        if i < first.len() {
            lemma_blocked_on(waiters, fired[0], proc_id);
        } else {
            lemma_roused_listened(left, fired.drop_first(), proc_id);
            let k = choose|k: int|
                0 <= k < left.len() && (#[trigger] left[k]).proc_id == proc_id
                    && fired.drop_first().contains(left[k].edge);
            lemma_without_edge(waiters, fired[0], left[k]);
        }
    }
}

/// A procedure registered under an edge that fires is among those that the
/// notifications return.
pub proof fn lemma_fired_rouses(
    waiters: Seq<WaiterView>,
    fired: Seq<EdgeView>,
    edge: EdgeView,
    proc_id: ProcId,
)
    requires
        waiters.contains(WaiterView { edge, proc_id }),
        fired.contains(edge),
    ensures
        roused(waiters, fired).contains(proc_id),
    decreases fired.len(),
{
    let first = blocked_on(waiters, fired[0]);
    let rest = roused(without_edge(waiters, fired[0]), fired.drop_first());
    if fired[0] == edge {
        lemma_blocked_on(waiters, edge, proc_id);
        let i = first.index_of(proc_id);
        assert((first + rest)[i] == proc_id);
    } else {
        lemma_without_edge(waiters, fired[0], WaiterView { edge, proc_id });
        let k = fired.index_of(edge);
        assert(fired.drop_first()[k - 1] == edge);
        lemma_fired_rouses(without_edge(waiters, fired[0]), fired.drop_first(), edge, proc_id);
        let i = rest.index_of(proc_id);
        assert((first + rest)[first.len() + i] == proc_id);
    }
}

/// The notifications drop a registration under an edge that fires and keep
/// one under an edge that does not.
pub proof fn lemma_calmed_push(waiters: Seq<WaiterView>, waiter: WaiterView, fired: Seq<EdgeView>)
    ensures
        calmed(waiters.push(waiter), fired) == if fired.contains(waiter.edge) {
            calmed(waiters, fired)
        } else {
            calmed(waiters, fired).push(waiter)
        },
    decreases fired.len(),
{
    if fired.len() > 0 {
        let rest = fired.drop_first();
        assert(waiters.push(waiter).drop_last() =~= waiters);
        if waiter.edge != fired[0] {
            lemma_calmed_push(without_edge(waiters, fired[0]), waiter, rest);
            if fired.contains(waiter.edge) {
                let k = fired.index_of(waiter.edge);
                assert(rest[k - 1] == waiter.edge);
            }
        }
    }
}

/// Where the procedures include every one that is registered under an edge
/// that fires, scrubbing them after the notifications leaves what scrubbing
/// them alone leaves: the registrations of the other procedures.
pub proof fn lemma_scrub_after_calm(
    waiters: Seq<WaiterView>,
    fired: Seq<EdgeView>,
    procs: Seq<ProcId>,
)
    requires
        forall|i: int|
            0 <= i < waiters.len() && fired.contains((#[trigger] waiters[i]).edge)
                ==> procs.contains(waiters[i].proc_id),
    ensures
        without_procs(calmed(waiters, fired), procs) == without_procs(waiters, procs),
    decreases waiters.len(),
{
    if waiters.len() == 0 {
        lemma_no_one_to_calm(fired);
    } else {
        let front = waiters.drop_last();
        let last = waiters.last();
        assert(waiters =~= front.push(last));
        lemma_scrub_after_calm(front, fired, procs);
        lemma_calmed_push(front, last, fired);
        if !fired.contains(last.edge) {
            assert(calmed(front, fired).push(last).drop_last() =~= calmed(front, fired));
        }
    }
}

/// Where no procedure is blocked, no edge rouses one, and none is blocked
/// after the notifications.
pub proof fn lemma_no_one_to_calm(fired: Seq<EdgeView>)
    ensures
        roused(Seq::<WaiterView>::empty(), fired) == Seq::<ProcId>::empty(),
        calmed(Seq::<WaiterView>::empty(), fired) == Seq::<WaiterView>::empty(),
    decreases fired.len(),
{
    if fired.len() > 0 {
        lemma_no_one_to_calm(fired.drop_first());
    }
}

} // verus!
