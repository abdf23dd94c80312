use mini_lambda::monitor::{vanished_ids, App};
use mini_lambda::proto::{JobSummary, WorkerInfo};

fn worker(id: u128, credits: usize) -> WorkerInfo {
    WorkerInfo { endpoint: format!("http://w{}:1", id), id, credits, seq: 0, last_seen: 0 }
}

fn job(job_id: u128) -> JobSummary {
    JobSummary { job_id, submitted_at: 0 }
}

#[test]
fn vanished_jobs_are_attributed_to_recent_credit_drops() {
    let mut app = App::new();
    app.process_snapshot(vec![worker(1, 2), worker(2, 1)], vec![job(10), job(11), job(12)], 100);
    assert!(app.dispatches.is_empty());
    assert!(app.dispatched_jobs.is_empty());
    assert_eq!(app.prev_credits.get(&1), Some(&2));

    // worker 1 lost two credits; jobs 10 and 11 left the queue
    app.process_snapshot(vec![worker(1, 0), worker(2, 1)], vec![job(12)], 200);
    assert_eq!(app.dispatched_jobs.len(), 2);
    let latest = &app.dispatched_jobs[0];
    assert_eq!(latest.job_id, 11);
    assert_eq!(latest.worker, "http://w1:1");
    assert_eq!(latest.when, 200);
    assert_eq!(app.dispatched_jobs[1].job_id, 10);
    assert_eq!(app.dispatched_jobs[1].worker, "http://w1:1");
    assert!(app.dispatches.is_empty());
    assert_eq!(app.workers.len(), 2);
    assert_eq!(app.pending.len(), 1);

    // job 12 leaves with no credit drop to attribute it to
    app.process_snapshot(vec![worker(1, 1), worker(2, 1)], vec![], 300);
    assert_eq!(app.dispatched_jobs[0].job_id, 12);
    assert_eq!(app.dispatched_jobs[0].worker, "-");
}

#[test]
fn credit_drops_are_logged_most_recent_first() {
    let mut app = App::new();
    app.record_credit_delta(&[worker(1, 5), worker(2, 5)], 1);
    assert!(app.dispatches.is_empty());
    app.record_credit_delta(&[worker(1, 3), worker(2, 4)], 2);
    assert_eq!(app.dispatches.len(), 2);
    assert_eq!(app.dispatches[0].worker_endpoint, "http://w2:1");
    assert_eq!(app.dispatches[0].count, 1);
    assert_eq!(app.dispatches[1].worker_endpoint, "http://w1:1");
    assert_eq!(app.dispatches[1].count, 2);
    assert_eq!(app.dispatches[1].when, 2);
    // a rise in credits is no dispatch
    app.record_credit_delta(&[worker(1, 5)], 3);
    assert_eq!(app.dispatches.len(), 2);
}

#[test]
fn dispatch_log_keeps_the_latest_hundred() {
    let mut app = App::new();
    app.record_credit_delta(&[worker(1, 1000)], 0);
    for step in 1..=150usize {
        app.record_credit_delta(&[worker(1, 1000 - step)], step as i64);
    }
    assert_eq!(app.dispatches.len(), 100);
    assert_eq!(app.dispatches[0].when, 150);
}

#[test]
fn vanished_ids_lists_each_missing_job_once() {
    let prev = vec![job(1), job(2), job(1), job(3)];
    let next = vec![job(2)];
    assert_eq!(vanished_ids(&prev, &next), vec![1, 3]);
}
