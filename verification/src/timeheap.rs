//! The time scheduler: which procedure resumes at which simulated time.
//!
//! Extraction takes, in one operation, every entry that shares the earliest
//! time, and hands out the set of their procedures: each procedure once,
//! however often it was entered, in the order in which they were first entered.

use vstd::prelude::*;
use crate::procedure::{distinct, lemma_distinct, lemma_push_contains, ProcId, Time};
use crate::waiting::contains_proc;

verus! {

/// A procedure and the time at which it resumes.
#[derive(Debug, Clone, Copy, PartialEq, Eq, Structural)]
pub struct Entry {
    pub time: Time,
    pub proc_id: ProcId,
}

/// The earliest time among the entries; 0 where there is none.
pub open spec fn earliest(entries: Seq<Entry>) -> Time
    decreases entries.len(),
{
    if entries.len() == 0 {
        0
    } else if entries.len() == 1 {
        entries[0].time
    } else {
        let before = earliest(entries.drop_last());
        if entries.last().time < before {
            entries.last().time
        } else {
            before
        }
    }
}

/// The procedures entered for time `t`, each as often as it was entered, in
/// the order in which they were entered.
pub open spec fn due(entries: Seq<Entry>, t: Time) -> Seq<ProcId>
    decreases entries.len(),
{
    if entries.len() == 0 {
        Seq::empty()
    } else {
        let before = due(entries.drop_last(), t);
        if entries.last().time == t {
            before.push(entries.last().proc_id)
        } else {
            before
        }
    }
}

/// The procedures that resume at time `t`: those entered for `t`, each once,
/// in the order in which they were first entered.
pub open spec fn batch_at(entries: Seq<Entry>, t: Time) -> Seq<ProcId> {
    distinct(due(entries, t))
}

/// The entries of another time than `t`, in the order in which they were entered.
pub open spec fn later(entries: Seq<Entry>, t: Time) -> Seq<Entry>
    decreases entries.len(),
{
    if entries.len() == 0 {
        Seq::empty()
    } else {
        let before = later(entries.drop_last(), t);
        if entries.last().time == t {
            before
        } else {
            before.push(entries.last())
        }
    }
}

/// The earliest time is the time of an entry, and no entry has an earlier one.
pub proof fn lemma_earliest(entries: Seq<Entry>)
    requires
        entries.len() > 0,
    ensures
        exists|i: int| 0 <= i < entries.len() && #[trigger] entries[i].time == earliest(entries),
        forall|i: int| 0 <= i < entries.len() ==> earliest(entries) <= #[trigger] entries[i].time,
    decreases entries.len(),
{
    if entries.len() == 1 {
        assert(entries[0].time == earliest(entries));
    } else {
        let front = entries.drop_last();
        lemma_earliest(front);
        assert forall|k: int| 0 <= k < entries.len() implies earliest(entries)
            <= #[trigger] entries[k].time by {
            if k < front.len() {
                assert(front[k].time == entries[k].time);
            }
        }
    }
}

/// Extraction at time `t` hands out exactly the procedures entered for `t`
/// and leaves exactly the entries of other times.
pub proof fn lemma_due_later(entries: Seq<Entry>, t: Time)
    ensures
        due(entries, t).len() + later(entries, t).len() == entries.len(),
        forall|p: ProcId|
            #![trigger due(entries, t).contains(p)]
            #![trigger entries.contains(Entry { time: t, proc_id: p })]
            due(entries, t).contains(p) <==> entries.contains(Entry { time: t, proc_id: p }),
        forall|e: Entry|
            #![trigger later(entries, t).contains(e)]
            #![trigger entries.contains(e)]
            later(entries, t).contains(e) <==> entries.contains(e) && e.time != t,
    decreases entries.len(),
{
    if entries.len() > 0 {
        let front = entries.drop_last();
        let last = entries.last();
        lemma_due_later(front, t);
        assert(entries =~= front.push(last));
        assert forall|p: ProcId|
            due(entries, t).contains(p) <==> entries.contains(Entry { time: t, proc_id: p }) by {
            lemma_push_contains(due(front, t), last.proc_id, p);
        }
        assert forall|e: Entry| later(entries, t).contains(e) <==> entries.contains(e) && e.time
            != t by {
            lemma_push_contains(later(front, t), last, e);
        }
    }
}

/// The batch of time `t` is a set: it holds exactly the procedures entered
/// for `t`, and none of them twice.
pub proof fn lemma_batch_at(entries: Seq<Entry>, t: Time)
    ensures
        batch_at(entries, t).no_duplicates(),
        forall|p: ProcId|
            #![trigger batch_at(entries, t).contains(p)]
            #![trigger entries.contains(Entry { time: t, proc_id: p })]
            batch_at(entries, t).contains(p) <==> entries.contains(Entry { time: t, proc_id: p }),
{
    lemma_distinct(due(entries, t));
    lemma_due_later(entries, t);
}

/// The scheduler's entries, in the order in which they were entered.
pub struct TimeHeap {
    heap: Vec<Entry>,
}

impl View for TimeHeap {
    type V = Seq<Entry>;

    closed spec fn view(&self) -> Seq<Entry> {
        self.heap@
    }
}

impl TimeHeap {
    /// A scheduler without entries.
    pub fn new() -> (heap: TimeHeap)
        ensures
            heap@ == Seq::<Entry>::empty(),
    {
        TimeHeap { heap: Vec::new() }
    }

    /// Enters procedure `proc_id` to resume at `time`.
    pub fn push(&mut self, proc_id: ProcId, time: Time)
        ensures
            final(self)@ == old(self)@.push(Entry { time, proc_id }),
    {
        self.heap.push(Entry { time, proc_id });
    }

    /// Whether nothing is scheduled.
    pub fn is_empty(&self) -> (empty: bool)
        ensures
            empty == (self@.len() == 0),
    {
        self.heap.len() == 0
    }

    /// The earliest time for which a procedure is entered, if there is one.
    pub fn next_time(&self) -> (time: Option<Time>)
        ensures
            time == if self@.len() == 0 {
                None
            } else {
                Some(earliest(self@))
            },
    {
        if self.heap.len() == 0 {
            return None;
        }
        let mut t: Time = self.heap[0].time;
        let mut i: usize = 1;
        while i < self.heap.len()
            invariant
                1 <= i <= self.heap.len(),
                t == earliest(self.heap@.take(i as int)),
            decreases self.heap.len() - i,
        {
            assert(self.heap@.take(i + 1).drop_last() =~= self.heap@.take(i as int));
            if self.heap[i].time < t {
                t = self.heap[i].time;
            }
            i += 1;
        }
        assert(self.heap@.take(i as int) =~= self.heap@);
        Some(t)
    }

    /// Removes every entry of the earliest time and returns that time with
    /// the set of the procedures entered for it: each procedure once, however
    /// often it was entered, in the order in which they were first entered.
    /// Without entries it returns no time and no procedure.
    pub fn activate(&mut self) -> (batch: (Option<Time>, Vec<ProcId>))
        ensures
            old(self)@.len() == 0 ==> batch.0 is None && batch.1@.len() == 0 && final(self)@ == old(
                self,
            )@,
            old(self)@.len() > 0 ==> batch.0 == Some(earliest(old(self)@)) && batch.1@ == batch_at(
                old(self)@,
                earliest(old(self)@),
            ) && final(self)@ == later(old(self)@, earliest(old(self)@)),
            batch.1@.no_duplicates(),
    {
        let mut proc_ids: Vec<ProcId> = Vec::new();
        let t = match self.next_time() {
            Some(t) => t,
            None => {
                return (None, proc_ids);
            },
        };
        let mut rest: Vec<Entry> = Vec::new();
        let mut i: usize = 0;
        while i < self.heap.len()
            invariant
                i <= self.heap.len(),
                proc_ids@ == batch_at(self.heap@.take(i as int), t),
                rest@ == later(self.heap@.take(i as int), t),
            decreases self.heap.len() - i,
        {
            assert(self.heap@.take(i + 1).drop_last() =~= self.heap@.take(i as int));
            let entry = self.heap[i];
            if entry.time == t {
                proof {
                    let before = due(self.heap@.take(i as int), t);
                    assert(before.push(entry.proc_id).drop_last() =~= before);
                }
                if !contains_proc(&proc_ids, entry.proc_id) {
                    proc_ids.push(entry.proc_id);
                }
            } else {
                rest.push(entry);
            }
            i += 1;
        }
        assert(self.heap@.take(i as int) =~= self.heap@);
        proof {
            lemma_batch_at(self.heap@, t);
        }
        self.heap = rest;
        (Some(t), proc_ids)
    }
}

} // verus!
