use std::collections::VecDeque;
use tokio::sync::oneshot::Sender;
use vstd::prelude::*;

use crate::proto::JobSummary;

verus! {

/// The reply channel of a waiting request: one value may be sent on it.
#[verifier::external_type_specification]
#[verifier::external_body]
#[verifier::reject_recursive_types(T)]
pub struct ExSender<T>(Sender<T>);

/// Relies on `tokio::sync::oneshot::Sender::send`: hands `endpoint` to the
/// waiting receiver. It fails when the receiver has already gone; which of the
/// two happens depends on the other side, so nothing is stated of the result.
#[verifier::external_body]
pub(crate) fn send_endpoint(responder: Sender<String>, endpoint: String) -> (delivered: bool) {
    responder.send(endpoint).is_ok()
}

/// A request parked until a worker announces capacity. `submitted_at` is in
/// milliseconds since the Unix epoch.
pub struct Job {
    pub job_id: u128,
    pub submitted_at: u64,
    pub responder: Sender<String>,
}

/// The monitoring summary of `j`.
pub open spec fn summary_of(j: Job) -> JobSummary {
    JobSummary { job_id: j.job_id, submitted_at: j.submitted_at }
}

/// First-in first-out queue of waiting requests, bounded by `max_size`.
pub struct PendingQueue {
    inner: VecDeque<Job>,
    max_size: usize,
}

impl View for PendingQueue {
    type V = Seq<Job>;

    closed spec fn view(&self) -> Seq<Job> {
        self.inner@
    }
}

impl PendingQueue {
    /// The queue never holds more than its bound.
    pub closed spec fn wf(&self) -> bool {
        self.inner@.len() <= self.max_size
    }

    /// The bound the queue was made with.
    pub closed spec fn capacity(&self) -> nat {
        self.max_size as nat
    }

    pub fn new(max_size: usize) -> (r: PendingQueue)
        ensures
            r.wf(),
            r@ == Seq::<Job>::empty(),
            r.capacity() == max_size,
    {
        PendingQueue { inner: VecDeque::new(), max_size }
    }

    pub fn len(&self) -> (r: usize)
        ensures
            r == self@.len(),
    {
        self.inner.len()
    }

    /// Appends `job` at the back; fails, dropping `job`, when the queue is full.
    pub fn enqueue(&mut self, job: Job) -> (r: Result<(), ()>)
        requires
            old(self).wf(),
        ensures
            final(self).wf(),
            final(self).capacity() == old(self).capacity(),
            old(self)@.len() < old(self).capacity() ==> r is Ok && final(self)@ == old(self)@.push(
                job,
            ),
            old(self)@.len() >= old(self).capacity() ==> r is Err && final(self)@ == old(self)@,
    {
        if self.inner.len() < self.max_size {
            self.inner.push_back(job);
            Ok(())
        } else {
            Err(())
        }
    }

    /// Removes and returns the oldest waiting job.
    pub fn dequeue(&mut self) -> (r: Option<Job>)
        requires
            old(self).wf(),
        ensures
            final(self).wf(),
            final(self).capacity() == old(self).capacity(),
            old(self)@.len() > 0 ==> r == Some(old(self)@[0]) && final(self)@ == old(
                self,
            )@.drop_first(),
            old(self)@.len() == 0 ==> r is None && final(self)@ == old(self)@,
    {
        self.inner.pop_front()
    }

    /// Removes and returns the oldest job with identifier `job_id`, if any.
    pub fn remove_job_by_id(&mut self, job_id: u128) -> (r: Option<Job>)
        requires
            old(self).wf(),
        ensures
            final(self).wf(),
            final(self).capacity() == old(self).capacity(),
            match r {
                Some(job) => exists|i: int|
                    {
                        &&& 0 <= i < old(self)@.len()
                        &&& old(self)@[i] == job
                        &&& job.job_id == job_id
                        &&& (forall|k: int| 0 <= k < i ==> old(self)@[k].job_id != job_id)
                        &&& final(self)@ == old(self)@.remove(i)
                    },
                None => {
                    &&& forall|k: int| 0 <= k < old(self)@.len() ==> old(self)@[k].job_id != job_id
                    &&& final(self)@ == old(self)@
                },
            },
    {
        let mut i: usize = 0;
        while i < self.inner.len()
            invariant
                self.inner@ == old(self).inner@,
                self.max_size == old(self).max_size,
                self.wf(),
                i <= self.inner@.len(),
                forall|k: int| 0 <= k < i ==> self.inner@[k].job_id != job_id,
            decreases self.inner@.len() - i,
        {
            if self.inner[i].job_id == job_id {
                let r = self.inner.remove(i);
                proof {
                    let k = i as int;
                    assert(old(self)@[k].job_id == job_id);
                    assert(self.inner@.len() == old(self)@.len() - 1);
                    assert(r == Some(old(self)@[k]) && self@ == old(self)@.remove(k));
                }
                return r;
            }
            i += 1;
        }
        None
    }

    /// Removes every job with identifier `job_id`, keeping the others in order.
    pub fn remove_all_with_id(&mut self, job_id: u128)
        requires
            old(self).wf(),
        ensures
            final(self).wf(),
            final(self).capacity() == old(self).capacity(),
            final(self)@ == old(self)@.filter(|j: Job| j.job_id != job_id),
    {
        let ghost q0 = self.inner@;
        let ghost keep = |j: Job| j.job_id != job_id;
        let ghost mut p: int = 0;
        let mut i: usize = 0;
        proof {
            reveal(Seq::filter);
            assert(q0.subrange(0, 0) =~= Seq::<Job>::empty());
            assert(q0.subrange(0, 0).filter(keep) =~= Seq::<Job>::empty());
            assert(self.inner@ =~= q0.subrange(0, 0).filter(keep) + q0.subrange(0, q0.len() as int));
        }
        while i < self.inner.len()
            invariant
                q0 == old(self).inner@,
                keep == (|j: Job| j.job_id != job_id),
                self.max_size == old(self).max_size,
                self.wf(),
                0 <= p <= q0.len(),
                i == q0.subrange(0, p).filter(keep).len(),
                self.inner@ == q0.subrange(0, p).filter(keep) + q0.subrange(p, q0.len() as int),
            decreases q0.len() - p,
        {
            proof {
                assert(self.inner@[i as int] == q0[p]);
                reveal(Seq::filter);
                assert(q0.subrange(0, p + 1).drop_last() =~= q0.subrange(0, p));
                assert(q0.subrange(0, p + 1).last() == q0[p]);
            }
            let ghost f = q0.subrange(0, p).filter(keep);
            let ghost t = q0.subrange(p, q0.len() as int);
            if self.inner[i].job_id == job_id {
                let _ = self.inner.remove(i);
                proof {
                    assert(!keep(q0[p]));
                    assert(q0.subrange(0, p + 1).filter(keep) == f);
                    assert(t.drop_first() =~= q0.subrange(p + 1, q0.len() as int));
                    assert(self.inner@ =~= q0.subrange(0, p + 1).filter(keep) + q0.subrange(
                        p + 1,
                        q0.len() as int,
                    ));
                }
            } else {
                proof {
                    assert(keep(q0[p]));
                    assert(q0.subrange(0, p + 1).filter(keep) == f.push(q0[p]));
                    assert(self.inner@ =~= q0.subrange(0, p + 1).filter(keep) + q0.subrange(
                        p + 1,
                        q0.len() as int,
                    ));
                }
                i += 1;
            }
            proof {
                p = p + 1;
            }
        }
        proof {
            assert(p == q0.len()) by {
                if p < q0.len() {
                    assert(self.inner@.len() > i);
                }
            }
            assert(q0.subrange(0, p) =~= q0);
            assert(self.inner@ =~= q0.filter(keep));
        }
    }

    /// The identifiers of the waiting jobs, oldest first.
    pub fn job_ids(&self) -> (r: Vec<u128>)
        ensures
            r@ == self@.map_values(|j: Job| j.job_id),
    {
        let mut out: Vec<u128> = Vec::new();
        let mut i: usize = 0;
        while i < self.inner.len()
            invariant
                i <= self.inner@.len(),
                out@ == self.inner@.subrange(0, i as int).map_values(|j: Job| j.job_id),
            decreases self.inner@.len() - i,
        {
            out.push(self.inner[i].job_id);
            proof {
                assert(self.inner@.subrange(0, i + 1) =~= self.inner@.subrange(0, i as int).push(
                    self.inner@[i as int],
                ));
            }
            i += 1;
        }
        assert(self.inner@.subrange(0, self.inner@.len() as int) =~= self.inner@);
        out
    }

    /// Identifier and submission time of each waiting job, oldest first.
    pub fn snapshot(&self) -> (r: Vec<JobSummary>)
        ensures
            r@ == self@.map_values(|j: Job| summary_of(j)),
    {
        let mut out: Vec<JobSummary> = Vec::new();
        let mut i: usize = 0;
        while i < self.inner.len()
            invariant
                i <= self.inner@.len(),
                out@ == self.inner@.subrange(0, i as int).map_values(|j: Job| summary_of(j)),
            decreases self.inner@.len() - i,
        {
            let j = &self.inner[i];
            out.push(JobSummary { job_id: j.job_id, submitted_at: j.submitted_at });
            proof {
                assert(self.inner@.subrange(0, i + 1) =~= self.inner@.subrange(0, i as int).push(
                    self.inner@[i as int],
                ));
            }
            i += 1;
        }
        assert(self.inner@.subrange(0, self.inner@.len() as int) =~= self.inner@);
        out
    }
}

} // verus!
