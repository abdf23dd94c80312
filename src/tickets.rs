use std::sync::atomic::{AtomicUsize, Ordering};
use std::sync::Arc;
use vstd::prelude::*;

verus! {

/// Relies on `AtomicUsize::fetch_sub`: takes one from the counter, wrapping
/// around instead of panicking, and opens no invariant.
#[verifier::external_body]
fn release(counter: &AtomicUsize)
    opens_invariants none
    no_unwind
{
    counter.fetch_sub(1, Ordering::SeqCst);
}

/// A scope-bound handle on a worker's count of running jobs: acquiring it
/// adds one to the counter, dropping it takes one away, on every exit path.
pub struct JobTicket {
    counter: Arc<AtomicUsize>,
}

impl JobTicket {
    /// The counter this ticket is held against.
    pub closed spec fn counter(&self) -> Arc<AtomicUsize> {
        self.counter
    }

    /// Acquires a ticket, adding one to `counter`.
    pub fn acquire(counter: Arc<AtomicUsize>) -> (r: JobTicket)
        ensures
            r.counter() == counter,
    {
        counter.fetch_add(1, Ordering::SeqCst);
        JobTicket { counter }
    }
}

impl Drop for JobTicket {
    /// Releases the ticket, taking one from the counter.
    fn drop(&mut self)
        opens_invariants none
        no_unwind
    {
        release(&self.counter);
    }
}

/// A scope-bound handle on the count of jobs waiting in a worker's queue,
/// with the same discipline as `JobTicket`.
pub struct QueueTicket {
    counter: Arc<AtomicUsize>,
}

impl QueueTicket {
    /// The counter this ticket is held against.
    pub closed spec fn counter(&self) -> Arc<AtomicUsize> {
        self.counter
    }

    /// Acquires a ticket, adding one to `counter`.
    pub fn acquire(counter: Arc<AtomicUsize>) -> (r: QueueTicket)
        ensures
            r.counter() == counter,
    {
        counter.fetch_add(1, Ordering::SeqCst);
        QueueTicket { counter }
    }
}

impl Drop for QueueTicket {
    /// Releases the ticket, taking one from the counter.
    fn drop(&mut self)
        opens_invariants none
        no_unwind
    {
        release(&self.counter);
    }
}

} // verus!
