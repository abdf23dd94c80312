use tokio::sync::oneshot::Sender;
use vstd::prelude::*;

use crate::errors::OrchestratorError;
use crate::ids::fresh_id;
use crate::proto::{
    HeartbeatUpdate, MonitoringInfo, RegisterWorkerRequest, RegisterWorkerResponse,
    UnregisterWorkerRequest, WorkerInfo,
};
use crate::queue::{summary_of, send_endpoint, Job, PendingQueue};
use crate::registry::{
    after_heartbeat, has_credit, seqs_kept, ids_unique, is_pick, records_as_map, with_credits,
    HeartbeatOutcome, WorkerRegistry,
};

verus! {

/// Bound of the orchestrator's wait queue.
pub const MAX_QUEUE_SIZE: usize = 10;

/// How long a queued request waits for a worker, in seconds.
pub const QUEUE_TIMEOUT_SECS: u64 = 30;

/// Decimal digit `d` as a character.
pub open spec fn digit_char(d: nat) -> char {
    seq!['0', '1', '2', '3', '4', '5', '6', '7', '8', '9'][d as int]
}

/// Decimal notation of `n`, without leading zeros.
pub open spec fn decimal(n: nat) -> Seq<char>
    decreases n,
{
    if n < 10 {
        seq![digit_char(n)]
    } else {
        decimal(n / 10).push(digit_char(n % 10))
    }
}

/// The endpoint of a worker at `host` listening on `port`.
pub open spec fn endpoint_of(host: Seq<char>, port: u16) -> Seq<char> {
    "http://"@ + host + ":"@ + decimal(port as nat)
}

/// Decimal digit `d` as a one-character string.
fn digit_str(d: u16) -> (r: &'static str)
    requires
        d < 10,
    ensures
        r@ == seq![digit_char(d as nat)],
{
    proof {
        reveal_strlit("0");
        reveal_strlit("1");
        reveal_strlit("2");
        reveal_strlit("3");
        reveal_strlit("4");
        reveal_strlit("5");
        reveal_strlit("6");
        reveal_strlit("7");
        reveal_strlit("8");
        reveal_strlit("9");
    }
    let r = if d == 0 {
        "0"
    } else if d == 1 {
        "1"
    } else if d == 2 {
        "2"
    } else if d == 3 {
        "3"
    } else if d == 4 {
        "4"
    } else if d == 5 {
        "5"
    } else if d == 6 {
        "6"
    } else if d == 7 {
        "7"
    } else if d == 8 {
        "8"
    } else {
        "9"
    };
    assert(r@ =~= seq![digit_char(d as nat)]);
    r
}

/// Decimal notation of `n`.
pub fn decimal_string(n: u16) -> (r: String)
    ensures
        r@ == decimal(n as nat),
    decreases n,
{
    if n < 10 {
        String::from_str(digit_str(n))
    } else {
        let mut s = decimal_string(n / 10);
        s.append(digit_str(n % 10));
        assert(s@ =~= decimal(n as nat));
        s
    }
}

/// The endpoint of a worker at `host` listening on `port`.
pub fn http_endpoint(host: &str, port: u16) -> (r: String)
    ensures
        r@ == endpoint_of(host@, port),
{
    let port_text = decimal_string(port);
    String::from_str("http://").concat(host).concat(":").concat(port_text.as_str())
}

/// Request to overwrite the credit balance of a worker.
#[derive(Clone, Copy, Debug, PartialEq, Eq, Structural)]
pub struct UpdateCreditsRequest {
    pub worker_id: u128,
    pub credits: usize,
}

/// A worker reserved for a job: the job's identifier and the worker's endpoint.
#[derive(Clone, Debug, PartialEq, Eq)]
pub struct OrchestratorSubmitResponse {
    pub job_id: u128,
    pub worker_endpoint: String,
}

/// The immediate answer to a request for a worker.
pub enum Dispatch {
    /// A worker was reserved.
    Assigned(OrchestratorSubmitResponse),
    /// No worker had a credit: the request waits in the queue under this job identifier.
    Queued(u128),
}

/// How the wait of a queued request ended.
pub enum WaitOutcome {
    /// A heartbeat handed over this endpoint.
    Delivered(String),
    /// The reply channel closed without a value.
    Closed,
    /// Nothing came within the timeout.
    TimedOut,
}

/// The relation between the state before and after a request for a worker
/// that was given the job identifier `job_id` at time `now`.
pub open spec fn dispatch_done(
    reg0: Map<u128, WorkerInfo>,
    q0: Seq<Job>,
    cap: nat,
    reg1: Map<u128, WorkerInfo>,
    q1: Seq<Job>,
    job_id: u128,
    now: u64,
    responder: Sender<String>,
    r: Result<Dispatch, OrchestratorError>,
) -> bool {
    if reg0.is_empty() {
        r == Err::<Dispatch, OrchestratorError>(OrchestratorError::NoWorkers) && reg1 == reg0 && q1
            == q0
    } else if has_credit(reg0) {
        &&& q1 == q0
        &&& match r {
            Ok(Dispatch::Assigned(resp)) => {
                &&& resp.job_id == job_id
                &&& exists|id: u128|
                    {
                        &&& is_pick(reg0, id)
                        &&& resp.worker_endpoint@ == reg0[id].endpoint@
                        &&& reg1 == reg0.insert(
                            id,
                            with_credits(reg0[id], (reg0[id].credits - 1) as usize),
                        )
                    }
            },
            _ => false,
        }
    } else if q0.len() < cap {
        &&& r == Ok::<Dispatch, OrchestratorError>(Dispatch::Queued(job_id))
        &&& reg1 == reg0
        &&& q1 == q0.push(Job { job_id, submitted_at: now, responder })
    } else {
        r == Err::<Dispatch, OrchestratorError>(OrchestratorError::QueueFull) && reg1 == reg0 && q1
            == q0
    }
}

/// Registers the worker that connected from `peer_ip` and listens on
/// `req.port`, at time `now`.
pub fn register_worker(
    registry: &mut WorkerRegistry,
    peer_ip: &str,
    req: RegisterWorkerRequest,
    now: u64,
) -> (r: RegisterWorkerResponse)
    requires
        old(registry).wf(),
    ensures
        final(registry).wf(),
        !old(registry)@.contains_key(r.worker_id),
        final(registry)@.contains_key(r.worker_id),
        final(registry)@[r.worker_id].endpoint@ == endpoint_of(peer_ip@, req.port),
        final(registry)@ == old(registry)@.insert(
            r.worker_id,
            WorkerInfo {
                endpoint: final(registry)@[r.worker_id].endpoint,
                id: r.worker_id,
                credits: req.initial_credits,
                seq: 0,
                last_seen: now,
            },
        ),
{
    let endpoint = http_endpoint(peer_ip, req.port);
    let id = registry.register(endpoint, req.initial_credits, now);
    RegisterWorkerResponse { worker_id: id }
}

/// Removes a worker that shuts down.
pub fn unregister_worker(registry: &mut WorkerRegistry, req: UnregisterWorkerRequest) -> (r: Result<
    (),
    OrchestratorError,
>)
    requires
        old(registry).wf(),
    ensures
        final(registry).wf(),
        final(registry)@ == old(registry)@.remove(req.worker_id),
        r is Ok <==> old(registry)@.contains_key(req.worker_id),
        r is Err ==> r == Err::<(), OrchestratorError>(OrchestratorError::WorkerNotFound),
{
    if registry.unregister(req.worker_id) {
        Ok(())
    } else {
        Err(OrchestratorError::WorkerNotFound)
    }
}

/// Overwrites the credit balance of a worker.
pub fn update_credits(registry: &mut WorkerRegistry, req: UpdateCreditsRequest) -> (r: Result<
    (),
    OrchestratorError,
>)
    requires
        old(registry).wf(),
    ensures
        final(registry).wf(),
        r is Ok <==> old(registry)@.contains_key(req.worker_id),
        r is Ok ==> final(registry)@ == old(registry)@.insert(
            req.worker_id,
            with_credits(old(registry)@[req.worker_id], req.credits),
        ),
        r is Err ==> r == Err::<(), OrchestratorError>(OrchestratorError::WorkerNotFound)
            && final(registry)@ == old(registry)@,
{
    if registry.update_credits(req.worker_id, req.credits) {
        Ok(())
    } else {
        Err(OrchestratorError::WorkerNotFound)
    }
}

/// Answers a request for a worker under the job identifier `job_id`, at time
/// `now`: fails when no worker is registered; reserves a credit of the worker
/// that `pick_and_decrement` chooses; else parks the request in the queue with
/// `responder` as its reply channel, or fails when the queue is full.
pub fn request_worker_with_id(
    registry: &mut WorkerRegistry,
    queue: &mut PendingQueue,
    job_id: u128,
    now: u64,
    responder: Sender<String>,
) -> (r: Result<Dispatch, OrchestratorError>)
    requires
        old(registry).wf(),
        old(queue).wf(),
    ensures
        final(registry).wf(),
        final(queue).wf(),
        final(queue).capacity() == old(queue).capacity(),
        seqs_kept(old(registry)@, final(registry)@),
        r matches Ok(Dispatch::Assigned(_)) ==> final(registry).total_credits() == old(
            registry,
        ).total_credits() - 1,
        !(r matches Ok(Dispatch::Assigned(_))) ==> final(registry).total_credits() == old(
            registry,
        ).total_credits(),
        dispatch_done(
            old(registry)@,
            old(queue)@,
            old(queue).capacity(),
            final(registry)@,
            final(queue)@,
            job_id,
            now,
            responder,
            r,
        ),
{
    if registry.len() == 0 {
        return Err(OrchestratorError::NoWorkers);
    }
    match registry.pick_and_decrement() {
        Some((_id, endpoint)) => {
            Ok(Dispatch::Assigned(OrchestratorSubmitResponse { job_id, worker_endpoint: endpoint }))
        },
        None => {
            let job = Job { job_id, submitted_at: now, responder };
            match queue.enqueue(job) {
                Ok(()) => Ok(Dispatch::Queued(job_id)),
                Err(()) => Err(OrchestratorError::QueueFull),
            }
        },
    }
}

/// Answers a request for a worker as `request_worker_with_id` does, under a
/// freshly drawn job identifier that no waiting job has.
pub fn request_worker(
    registry: &mut WorkerRegistry,
    queue: &mut PendingQueue,
    now: u64,
    responder: Sender<String>,
) -> (r: Result<Dispatch, OrchestratorError>)
    requires
        old(registry).wf(),
        old(queue).wf(),
    ensures
        final(registry).wf(),
        final(queue).wf(),
        final(queue).capacity() == old(queue).capacity(),
        seqs_kept(old(registry)@, final(registry)@),
        r matches Ok(Dispatch::Assigned(_)) ==> final(registry).total_credits() == old(
            registry,
        ).total_credits() - 1,
        !(r matches Ok(Dispatch::Assigned(_))) ==> final(registry).total_credits() == old(
            registry,
        ).total_credits(),
        exists|job_id: u128|
            (forall|i: int| 0 <= i < old(queue)@.len() ==> old(queue)@[i].job_id != job_id)
                && dispatch_done(
                old(registry)@,
                old(queue)@,
                old(queue).capacity(),
                final(registry)@,
                final(queue)@,
                job_id,
                now,
                responder,
                r,
            ),
{
    let taken = queue.job_ids();
    let job_id = fresh_id(&taken);
    proof {
        assert forall|i: int| 0 <= i < queue@.len() implies queue@[i].job_id != job_id by {
            assert(taken@[i] == queue@[i].job_id);
        }
    }
    request_worker_with_id(registry, queue, job_id, now, responder)
}

/// Ends the wait of the queued request `job_id`: a delivered endpoint is the
/// answer; a closed channel is an internal error; on timeout the request is
/// taken out of the queue if it is still there, so no job with that
/// identifier remains.
pub fn conclude_wait(queue: &mut PendingQueue, job_id: u128, outcome: WaitOutcome) -> (r: Result<
    OrchestratorSubmitResponse,
    OrchestratorError,
>)
    requires
        old(queue).wf(),
    ensures
        final(queue).wf(),
        final(queue).capacity() == old(queue).capacity(),
        match outcome {
            WaitOutcome::Delivered(endpoint) => {
                &&& r == Ok::<OrchestratorSubmitResponse, OrchestratorError>(
                    OrchestratorSubmitResponse { job_id, worker_endpoint: endpoint },
                )
                &&& final(queue)@ == old(queue)@
            },
            WaitOutcome::Closed => {
                &&& r == Err::<OrchestratorSubmitResponse, OrchestratorError>(
                    OrchestratorError::Internal,
                )
                &&& final(queue)@ == old(queue)@
            },
            WaitOutcome::TimedOut => {
                &&& r == Err::<OrchestratorSubmitResponse, OrchestratorError>(
                    OrchestratorError::RequestTimeout,
                )
                &&& final(queue)@ == old(queue)@.filter(|j: Job| j.job_id != job_id)
                &&& forall|k: int|
                    0 <= k < final(queue)@.len() ==> final(queue)@[k].job_id != job_id
            },
        },
{
    match outcome {
        WaitOutcome::Delivered(endpoint) => Ok(
            OrchestratorSubmitResponse { job_id, worker_endpoint: endpoint },
        ),
        WaitOutcome::Closed => Err(OrchestratorError::Internal),
        WaitOutcome::TimedOut => {
            queue.remove_all_with_id(job_id);
            proof {
                old(queue)@.filter_lemma(|j: Job| j.job_id != job_id);
            }
            Err(OrchestratorError::RequestTimeout)
        },
    }
}

/// Read-only view of the registry and the queue.
pub fn get_monitoring_info(registry: &WorkerRegistry, queue: &PendingQueue) -> (r: MonitoringInfo)
    requires
        registry.wf(),
    ensures
        ids_unique(r.workers@),
        records_as_map(r.workers@) == registry@,
        r.pending@ == queue@.map_values(|j: Job| summary_of(j)),
{
    MonitoringInfo { workers: registry.snapshot(), pending: queue.snapshot() }
}

/// Number of `true` entries of `s`.
pub open spec fn delivered_count(s: Seq<bool>) -> nat
    decreases s.len(),
{
    if s.len() == 0 {
        0
    } else {
        delivered_count(s.drop_last()) + if s.last() {
            1nat
        } else {
            0nat
        }
    }
}

/// Handles a heartbeat received at time `now`. An unknown worker is an error;
/// a stale heartbeat is accepted and changes nothing. Otherwise the worker's
/// record takes the new sequence number and credits, then waiting requests,
/// oldest first, are handed the worker's endpoint until `credits` of them
/// have it or the queue is empty; a request whose receiver has gone is
/// skipped and does not count. The worker keeps the credits that no request
/// took.
///
/// Returns, for each request taken from the queue in order, whether it was
/// handed the endpoint.
pub fn handle_heartbeat_received(
    registry: &mut WorkerRegistry,
    queue: &mut PendingQueue,
    heartbeat: HeartbeatUpdate,
    now: u64,
) -> (r: Result<Vec<bool>, OrchestratorError>)
    requires
        old(registry).wf(),
        old(queue).wf(),
    ensures
        final(registry).wf(),
        final(queue).wf(),
        final(queue).capacity() == old(queue).capacity(),
        seqs_kept(old(registry)@, final(registry)@),
        !old(registry)@.contains_key(heartbeat.worker_id) ==> {
            &&& r matches Err(OrchestratorError::WorkerNotFound)
            &&& final(registry)@ == old(registry)@
            &&& final(queue)@ == old(queue)@
        },
        old(registry)@.contains_key(heartbeat.worker_id) && heartbeat.seq <= old(
            registry,
        )@[heartbeat.worker_id].seq ==> {
            &&& r matches Ok(outcomes) && outcomes@.len() == 0
            &&& final(registry)@ == old(registry)@
            &&& final(queue)@ == old(queue)@
        },
        old(registry)@.contains_key(heartbeat.worker_id) && heartbeat.seq > old(
            registry,
        )@[heartbeat.worker_id].seq ==> match r {
            Ok(outcomes) => {
                let taken = outcomes@.len();
                let assigned = delivered_count(outcomes@);
                &&& taken <= old(queue)@.len()
                &&& final(queue)@ == old(queue)@.subrange(taken as int, old(queue)@.len() as int)
                &&& assigned <= heartbeat.credits
                &&& (assigned < heartbeat.credits ==> taken == old(queue)@.len())
                &&& (taken > 0 ==> delivered_count(outcomes@.drop_last()) < heartbeat.credits)
                &&& final(registry)@ == old(registry)@.insert(
                    heartbeat.worker_id,
                    after_heartbeat(
                        old(registry)@[heartbeat.worker_id],
                        heartbeat.seq,
                        (heartbeat.credits - assigned) as usize,
                        now,
                    ),
                )
                &&& final(registry).total_credits() == old(registry).total_credits() - old(
                    registry,
                )@[heartbeat.worker_id].credits + heartbeat.credits - assigned
            },
            Err(_) => false,
        },
{
    let id = heartbeat.worker_id;
    let credits = heartbeat.credits;
    let mut outcomes: Vec<bool> = Vec::new();
    match registry.apply_heartbeat(id, heartbeat.seq, credits, now) {
        HeartbeatOutcome::Unknown => {
            return Err(OrchestratorError::WorkerNotFound);
        },
        HeartbeatOutcome::Stale => {
            return Ok(outcomes);
        },
        HeartbeatOutcome::Updated => {},
    }
    assert(queue@.subrange(0, queue@.len() as int) =~= queue@);
    let endpoint = match registry.get_worker_info(id) {
        Some(info) => info.endpoint,
        None => {
            return Err(OrchestratorError::WorkerNotFound);
        },
    };
    let ghost q0 = queue@;
    let mut assigned: usize = 0;
    while assigned < credits
        invariant
            queue.wf(),
            queue.capacity() == old(queue).capacity(),
            q0 == old(queue)@,
            outcomes@.len() <= q0.len(),
            queue@ == q0.subrange(outcomes@.len() as int, q0.len() as int),
            assigned == delivered_count(outcomes@),
            assigned <= credits,
            outcomes@.len() > 0 ==> delivered_count(outcomes@.drop_last()) < credits,
        ensures
            queue.wf(),
            queue.capacity() == old(queue).capacity(),
            outcomes@.len() <= q0.len(),
            queue@ == q0.subrange(outcomes@.len() as int, q0.len() as int),
            assigned == delivered_count(outcomes@),
            assigned <= credits,
            outcomes@.len() > 0 ==> delivered_count(outcomes@.drop_last()) < credits,
            assigned < credits ==> outcomes@.len() == q0.len(),
        decreases queue@.len(),
    {
        match queue.dequeue() {
            Some(job) => {
                let delivered = send_endpoint(job.responder, endpoint.clone());
                let ghost before = outcomes@;
                outcomes.push(delivered);
                if delivered {
                    assigned += 1;
                }
                proof {
                    assert(outcomes@.drop_last() =~= before);
                    assert(queue@ =~= q0.subrange(outcomes@.len() as int, q0.len() as int));
                }
            },
            None => {
                break;
            },
        }
    }
    registry.update_credits(id, credits - assigned);
    proof {
        let w = old(registry)@[id];
        assert(with_credits(after_heartbeat(w, heartbeat.seq, credits, now), (credits
            - assigned) as usize) == after_heartbeat(w, heartbeat.seq, (credits - assigned) as usize, now));
    }
    Ok(outcomes)
}

} // verus!
