use mini_lambda::dispatch::{
    conclude_wait, decimal_string, get_monitoring_info, http_endpoint, handle_heartbeat_received, register_worker,
    request_worker, request_worker_with_id, unregister_worker, update_credits, Dispatch,
    UpdateCreditsRequest, WaitOutcome, MAX_QUEUE_SIZE,
};
use mini_lambda::errors::OrchestratorError;
use mini_lambda::proto::{HeartbeatUpdate, RegisterWorkerRequest, UnregisterWorkerRequest};
use mini_lambda::queue::{Job, PendingQueue};
use mini_lambda::registry::WorkerRegistry;
use tokio::sync::oneshot;

#[test]
fn no_workers_request_is_refused() {
    let mut reg = WorkerRegistry::new();
    let mut queue = PendingQueue::new(MAX_QUEUE_SIZE);
    let (tx, _rx) = oneshot::channel::<String>();
    let r = request_worker(&mut reg, &mut queue, 0, tx);
    assert!(matches!(r, Err(OrchestratorError::NoWorkers)));
    assert_eq!(OrchestratorError::NoWorkers.status_code(), 503);
    assert_eq!(queue.len(), 0);
}

#[test]
fn request_with_credit_is_assigned_at_once() {
    let mut reg = WorkerRegistry::new();
    let mut queue = PendingQueue::new(MAX_QUEUE_SIZE);
    let id = reg.register("http://w:1".to_string(), 1, 0);
    let (tx, _rx) = oneshot::channel::<String>();
    match request_worker_with_id(&mut reg, &mut queue, 77, 5, tx) {
        Ok(Dispatch::Assigned(resp)) => {
            assert_eq!(resp.job_id, 77);
            assert_eq!(resp.worker_endpoint, "http://w:1");
        }
        _ => panic!("expected an assignment"),
    }
    assert_eq!(reg.get_worker_info(id).unwrap().credits, 0);
    assert_eq!(queue.len(), 0);
}

#[test]
fn queued_request_unblocked_by_heartbeat() {
    let mut reg = WorkerRegistry::new();
    let mut queue = PendingQueue::new(MAX_QUEUE_SIZE);
    let id = reg.register("http://w:1".to_string(), 1, 0);
    // client A takes the only credit
    let (tx_a, _rx_a) = oneshot::channel::<String>();
    assert!(matches!(
        request_worker_with_id(&mut reg, &mut queue, 1, 0, tx_a),
        Ok(Dispatch::Assigned(_))
    ));
    // the worker is busy: its heartbeat carries no credit
    let busy = HeartbeatUpdate { worker_id: id, seq: 1, credits: 0 };
    assert_eq!(handle_heartbeat_received(&mut reg, &mut queue, busy, 10), Ok(vec![]));
    // client B waits
    let (tx_b, mut rx_b) = oneshot::channel::<String>();
    assert!(matches!(
        request_worker_with_id(&mut reg, &mut queue, 2, 11, tx_b),
        Ok(Dispatch::Queued(2))
    ));
    assert_eq!(queue.len(), 1);
    // A finished: the next heartbeat hands B the worker
    let free = HeartbeatUpdate { worker_id: id, seq: 2, credits: 1 };
    assert_eq!(handle_heartbeat_received(&mut reg, &mut queue, free, 20), Ok(vec![true]));
    assert_eq!(rx_b.try_recv().unwrap(), "http://w:1");
    assert_eq!(queue.len(), 0);
    // the credit donated to B is reserved
    assert_eq!(reg.get_worker_info(id).unwrap().credits, 0);
    let r = conclude_wait(&mut queue, 2, WaitOutcome::Delivered("http://w:1".to_string()));
    let resp = r.unwrap();
    assert_eq!(resp.job_id, 2);
    assert_eq!(resp.worker_endpoint, "http://w:1");
}

#[test]
fn queue_overflow_is_refused() {
    let mut reg = WorkerRegistry::new();
    let mut queue = PendingQueue::new(2);
    reg.register("http://w:1".to_string(), 0, 0);
    let mut receivers = Vec::new();
    for job in 0..2u128 {
        let (tx, rx) = oneshot::channel::<String>();
        receivers.push(rx);
        let r = request_worker_with_id(&mut reg, &mut queue, job, 0, tx);
        assert!(matches!(r, Ok(Dispatch::Queued(j)) if j == job));
    }
    let (tx, _rx) = oneshot::channel::<String>();
    let r = request_worker_with_id(&mut reg, &mut queue, 9, 0, tx);
    assert!(matches!(r, Err(OrchestratorError::QueueFull)));
    assert_eq!(OrchestratorError::QueueFull.status_code(), 429);
    assert_eq!(queue.len(), 2);
}

#[test]
fn waiter_timeout_removes_job_from_pending() {
    let mut reg = WorkerRegistry::new();
    let mut queue = PendingQueue::new(MAX_QUEUE_SIZE);
    reg.register("http://w:1".to_string(), 0, 0);
    let (tx, _rx) = oneshot::channel::<String>();
    assert!(matches!(
        request_worker_with_id(&mut reg, &mut queue, 42, 3, tx),
        Ok(Dispatch::Queued(42))
    ));
    let info = get_monitoring_info(&reg, &queue);
    assert_eq!(info.pending.len(), 1);
    assert_eq!(info.pending[0].job_id, 42);
    assert_eq!(info.pending[0].submitted_at, 3);
    let r = conclude_wait(&mut queue, 42, WaitOutcome::TimedOut);
    assert!(matches!(r, Err(OrchestratorError::RequestTimeout)));
    assert_eq!(OrchestratorError::RequestTimeout.status_code(), 408);
    let info = get_monitoring_info(&reg, &queue);
    assert!(info.pending.iter().all(|j| j.job_id != 42));
}

#[test]
fn closed_channel_is_internal_error() {
    let mut queue = PendingQueue::new(MAX_QUEUE_SIZE);
    let r = conclude_wait(&mut queue, 1, WaitOutcome::Closed);
    assert!(matches!(r, Err(OrchestratorError::Internal)));
    assert_eq!(OrchestratorError::Internal.status_code(), 500);
}

#[test]
fn stale_heartbeat_rejected() {
    let mut reg = WorkerRegistry::new();
    let mut queue = PendingQueue::new(MAX_QUEUE_SIZE);
    let id = reg.register("http://w:1".to_string(), 1, 0);
    let fresh = HeartbeatUpdate { worker_id: id, seq: 5, credits: 3 };
    assert_eq!(handle_heartbeat_received(&mut reg, &mut queue, fresh, 1), Ok(vec![]));
    let delayed = HeartbeatUpdate { worker_id: id, seq: 4, credits: 0 };
    assert_eq!(handle_heartbeat_received(&mut reg, &mut queue, delayed, 2), Ok(vec![]));
    let info = reg.get_worker_info(id).unwrap();
    assert_eq!(info.credits, 3);
    assert_eq!(info.seq, 5);
}

#[test]
fn heartbeat_from_unknown_worker_is_not_found() {
    let mut reg = WorkerRegistry::new();
    let mut queue = PendingQueue::new(MAX_QUEUE_SIZE);
    let hb = HeartbeatUpdate { worker_id: 5, seq: 1, credits: 1 };
    assert_eq!(
        handle_heartbeat_received(&mut reg, &mut queue, hb, 0),
        Err(OrchestratorError::WorkerNotFound)
    );
    assert_eq!(OrchestratorError::WorkerNotFound.status_code(), 404);
}

#[test]
fn heartbeat_skips_departed_waiters() {
    let mut reg = WorkerRegistry::new();
    let mut queue = PendingQueue::new(MAX_QUEUE_SIZE);
    let id = reg.register("http://w:1".to_string(), 0, 0);
    let (tx1, rx1) = oneshot::channel::<String>();
    let (tx2, mut rx2) = oneshot::channel::<String>();
    let (tx3, mut rx3) = oneshot::channel::<String>();
    queue.enqueue(Job { job_id: 1, submitted_at: 0, responder: tx1 }).unwrap();
    queue.enqueue(Job { job_id: 2, submitted_at: 0, responder: tx2 }).unwrap();
    queue.enqueue(Job { job_id: 3, submitted_at: 0, responder: tx3 }).unwrap();
    drop(rx1);
    let hb = HeartbeatUpdate { worker_id: id, seq: 1, credits: 1 };
    assert_eq!(handle_heartbeat_received(&mut reg, &mut queue, hb, 0), Ok(vec![false, true]));
    assert_eq!(rx2.try_recv().unwrap(), "http://w:1");
    assert!(rx3.try_recv().is_err());
    assert_eq!(queue.len(), 1);
    assert_eq!(reg.get_worker_info(id).unwrap().credits, 0);
}

#[test]
fn credits_balance_after_dispatch_and_heartbeat() {
    let mut reg = WorkerRegistry::new();
    let mut queue = PendingQueue::new(MAX_QUEUE_SIZE);
    let id = reg.register("http://w:1".to_string(), 2, 0);
    assert!(reg.pick_and_decrement().is_some());
    assert!(reg.pick_and_decrement().is_some());
    assert_eq!(reg.get_worker_info(id).unwrap().credits, 0);
    let (tx, _rx) = oneshot::channel::<String>();
    queue.enqueue(Job { job_id: 1, submitted_at: 0, responder: tx }).unwrap();
    let hb = HeartbeatUpdate { worker_id: id, seq: 1, credits: 2 };
    assert_eq!(handle_heartbeat_received(&mut reg, &mut queue, hb, 0), Ok(vec![true]));
    assert_eq!(reg.get_worker_info(id).unwrap().credits, 1);
}

#[test]
fn queue_never_exceeds_its_bound() {
    let mut queue = PendingQueue::new(3);
    for job in 0..10u128 {
        let (tx, _rx) = oneshot::channel::<String>();
        let r = queue.enqueue(Job { job_id: job, submitted_at: 0, responder: tx });
        assert_eq!(r.is_ok(), job < 3);
        assert!(queue.len() <= 3);
    }
    let first = queue.dequeue().unwrap();
    assert_eq!(first.job_id, 0);
    let removed = queue.remove_job_by_id(2).unwrap();
    assert_eq!(removed.job_id, 2);
    assert!(queue.remove_job_by_id(2).is_none());
    let snap = queue.snapshot();
    assert_eq!(snap.len(), 1);
    assert_eq!(snap[0].job_id, 1);
}

#[test]
fn register_worker_builds_endpoint_from_peer_and_port() {
    let mut reg = WorkerRegistry::new();
    let resp = register_worker(
        &mut reg,
        "10.0.0.7",
        RegisterWorkerRequest { port: 4242, initial_credits: 1 },
        9,
    );
    let info = reg.get_worker_info(resp.worker_id).unwrap();
    assert_eq!(info.endpoint, "http://10.0.0.7:4242");
    assert_eq!(info.credits, 1);
    assert_eq!(info.seq, 0);
    assert_eq!(info.last_seen, 9);
}

#[test]
fn unregister_and_update_of_unknown_worker_fail() {
    let mut reg = WorkerRegistry::new();
    let id = reg.register("http://w:1".to_string(), 1, 0);
    assert_eq!(
        update_credits(&mut reg, UpdateCreditsRequest { worker_id: id, credits: 4 }),
        Ok(())
    );
    assert_eq!(reg.get_worker_info(id).unwrap().credits, 4);
    assert_eq!(unregister_worker(&mut reg, UnregisterWorkerRequest { worker_id: id }), Ok(()));
    assert_eq!(
        unregister_worker(&mut reg, UnregisterWorkerRequest { worker_id: id }),
        Err(OrchestratorError::WorkerNotFound)
    );
    assert_eq!(
        update_credits(&mut reg, UpdateCreditsRequest { worker_id: id, credits: 4 }),
        Err(OrchestratorError::WorkerNotFound)
    );
}

#[test]
fn orchestrator_error_messages() {
    assert_eq!(OrchestratorError::NoWorkers.message(), "no workers registered");
    assert_eq!(OrchestratorError::QueueFull.message(), "job queue is full");
    assert_eq!(OrchestratorError::RequestTimeout.message(), "request timed out");
}

#[test]
fn timed_out_job_leaves_no_entry_behind() {
    let mut queue = PendingQueue::new(MAX_QUEUE_SIZE);
    for job in [7u128, 8, 7] {
        let (tx, _rx) = oneshot::channel::<String>();
        queue.enqueue(Job { job_id: job, submitted_at: 0, responder: tx }).unwrap();
    }
    let r = conclude_wait(&mut queue, 7, WaitOutcome::TimedOut);
    assert!(matches!(r, Err(OrchestratorError::RequestTimeout)));
    assert_eq!(queue.job_ids(), vec![8]);
}

#[test]
fn drawn_job_ids_are_not_already_waiting() {
    let mut reg = WorkerRegistry::new();
    let mut queue = PendingQueue::new(MAX_QUEUE_SIZE);
    reg.register("http://w:1".to_string(), 0, 0);
    let mut ids = Vec::new();
    for _ in 0..5 {
        let (tx, _rx) = oneshot::channel::<String>();
        match request_worker(&mut reg, &mut queue, 0, tx) {
            Ok(Dispatch::Queued(id)) => {
                assert!(!ids.contains(&id));
                ids.push(id);
            }
            _ => panic!("expected the request to wait"),
        }
    }
    assert_eq!(queue.job_ids(), ids);
}

#[test]
fn heartbeat_stops_once_credits_are_handed_out() {
    let mut reg = WorkerRegistry::new();
    let mut queue = PendingQueue::new(MAX_QUEUE_SIZE);
    let id = reg.register("http://w:1".to_string(), 0, 0);
    let mut receivers = Vec::new();
    for job in 0..3u128 {
        let (tx, rx) = oneshot::channel::<String>();
        receivers.push(rx);
        queue.enqueue(Job { job_id: job, submitted_at: 0, responder: tx }).unwrap();
    }
    let hb = HeartbeatUpdate { worker_id: id, seq: 1, credits: 2 };
    assert_eq!(handle_heartbeat_received(&mut reg, &mut queue, hb, 0), Ok(vec![true, true]));
    assert_eq!(queue.job_ids(), vec![2]);
    assert_eq!(reg.get_worker_info(id).unwrap().credits, 0);
    assert_eq!(receivers[0].try_recv().unwrap(), "http://w:1");
    assert_eq!(receivers[1].try_recv().unwrap(), "http://w:1");
    assert!(receivers[2].try_recv().is_err());
}

#[test]
fn endpoints_write_ports_in_decimal() {
    assert_eq!(decimal_string(0), "0");
    assert_eq!(decimal_string(10), "10");
    assert_eq!(decimal_string(65535), "65535");
    assert_eq!(http_endpoint("1.2.3.4", 1000), "http://1.2.3.4:1000");
    assert_eq!(http_endpoint("::1", 7), "http://::1:7");
}
