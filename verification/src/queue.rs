//! The task queue: a bounded FIFO of pending transcoding jobs. A submission
//! to a full queue fails immediately — back-pressure is surfaced to the
//! caller, never absorbed by unbounded buffering — and every job carries a
//! distinct ticket that pairs it one-to-one with the request waiting for it.

use vstd::prelude::*;
use crate::quality::TargetFormat;

verus! {

/// One pending transcoding job: the normalized request parameters plus the
/// ticket of the one-shot handoff that the submitting request waits on.
pub struct Job {
    pub url: Vec<u8>,
    pub quality: u8,
    pub keep_color: bool,
    pub format: TargetFormat,
    pub ticket: u64,
}

/// A bounded FIFO channel of pending jobs. `next_ticket` grows by one per
/// accepted submission, so tickets in the queue are strictly increasing.
pub struct TaskQueue {
    pub jobs: Vec<Job>,
    pub capacity: usize,
    pub next_ticket: u64,
}

impl TaskQueue {
    /// Well-formedness: the queue never holds more than its capacity, and
    /// tickets increase strictly from front to back, all below the next one
    /// to be issued.
    pub open spec fn wf(self) -> bool {
        &&& self.jobs@.len() <= self.capacity
        &&& forall|i: int, j: int|
            0 <= i < j < self.jobs@.len() ==> (#[trigger] self.jobs@[i]).ticket < (
            #[trigger] self.jobs@[j]).ticket
        &&& forall|i: int|
            0 <= i < self.jobs@.len() ==> (#[trigger] self.jobs@[i]).ticket < self.next_ticket
    }

    /// An empty queue with the configured capacity.
    pub fn new(capacity: usize) -> (q: TaskQueue)
        ensures
            q.wf(),
            q.jobs@.len() == 0,
            q.capacity == capacity,
            q.next_ticket == 0,
    {
        TaskQueue { jobs: Vec::new(), capacity, next_ticket: 0 }
    }

    /// How many jobs are queued but not yet taken by a worker.
    pub fn queued_count(&self) -> (n: usize)
        ensures
            n == self.jobs@.len(),
    {
        self.jobs.len()
    }

    /// Enqueues a job, or fails immediately when the queue is full — the
    /// caller is never blocked waiting for space. On success the issued
    /// ticket is returned and the job sits at the back of the FIFO.
    pub fn submit(&mut self, url: Vec<u8>, quality: u8, keep_color: bool, format: TargetFormat)
        -> (r: Option<u64>)
        requires
            old(self).wf(),
            old(self).next_ticket < u64::MAX,
        ensures
            final(self).wf(),
            final(self).capacity == old(self).capacity,
            // back-pressure: a full queue rejects and nothing changes
            (r is None <==> old(self).jobs@.len() == old(self).capacity),
            r is None ==> *final(self) == *old(self),
            // acceptance: the job went to the back with the issued ticket
            (r matches Some(t) ==> {
                &&& t == old(self).next_ticket
                &&& final(self).next_ticket == old(self).next_ticket + 1
                &&& final(self).jobs@.len() == old(self).jobs@.len() + 1
                &&& final(self).jobs@.drop_last() =~= old(self).jobs@
                &&& final(self).jobs@.last().url@ == url@
                &&& final(self).jobs@.last().quality == quality
                &&& final(self).jobs@.last().keep_color == keep_color
                &&& final(self).jobs@.last().format == format
                &&& final(self).jobs@.last().ticket == t
            }),
    {
        if self.jobs.len() == self.capacity {
            return None;
        }
        let ticket = self.next_ticket;
        self.jobs.push(Job { url, quality, keep_color, format, ticket });
        self.next_ticket = self.next_ticket + 1;
        proof {
            assert(self.jobs@.drop_last() =~= old(self).jobs@);
        }
        Some(ticket)
    }

    /// Takes the job at the front of the FIFO, if any; jobs leave in exactly
    /// the order they were submitted.
    pub fn take_next(&mut self) -> (r: Option<Job>)
        requires
            old(self).wf(),
        ensures
            final(self).wf(),
            final(self).capacity == old(self).capacity,
            final(self).next_ticket == old(self).next_ticket,
            (r is None <==> old(self).jobs@.len() == 0),
            r is None ==> *final(self) == *old(self),
            (r matches Some(job) ==> {
                &&& job == old(self).jobs@[0]
                &&& final(self).jobs@ =~= old(self).jobs@.skip(1)
            }),
    {
        if self.jobs.len() == 0 {
            return None;
        }
        let job = self.jobs.remove(0);
        proof {
            assert(self.jobs@ =~= old(self).jobs@.skip(1));
        }
        Some(job)
    }
}

/// One-to-one pairing of jobs and waiting requests: no two jobs in a
/// well-formed queue carry the same ticket, so a delivered result can match
/// at most one pending call.
pub proof fn lemma_tickets_distinct(q: TaskQueue)
    requires
        q.wf(),
    ensures
        forall|i: int, j: int|
            0 <= i < q.jobs@.len() && 0 <= j < q.jobs@.len() && i != j ==> (
            #[trigger] q.jobs@[i]).ticket != (#[trigger] q.jobs@[j]).ticket,
{
}

} // verus!
