use std::num::NonZero;
use std::sync::atomic::{AtomicUsize, Ordering};
use std::sync::Arc;

use mini_lambda::client::{after_hash_submission, hash_submission, SubmitStep};
use mini_lambda::errors::WorkerError;
use mini_lambda::guest::fib;
use mini_lambda::module_cache::ModuleCache;
use mini_lambda::proto::{hash_wasm_module, JobManifest};
use mini_lambda::tickets::{JobTicket, QueueTicket};
use mini_lambda::worker::{
    available_credits, check_module_bytes, find_module, heartbeat_update, job_accepted_message,
    orchestrator_base, store_module,
};

type TestCache = ModuleCache<String>;

#[test]
fn put_and_get_returns_same_arc() {
    let mut cache = TestCache::new_with_capacity(NonZero::new(4).unwrap().get());
    let key = "modA".to_string();
    let value = Arc::new("module-a".to_string());
    cache.put(key.clone(), value.clone());

    let got = cache.get(&key).expect("expected to find module");
    // Arc::ptr_eq verifies we got the same allocation back
    assert!(Arc::ptr_eq(&got, &value));
}

#[test]
fn lru_eviction_happens_when_capacity_exceeded() {
    // small capacity to exercise eviction
    let mut cache = TestCache::new_with_capacity(NonZero::new(2).unwrap().get());
    let a = Arc::new("A".to_string());
    let b = Arc::new("B".to_string());
    let c = Arc::new("C".to_string());

    cache.put("a".to_string(), a.clone());
    cache.put("b".to_string(), b.clone());

    // access "a" so "b" becomes LRU
    let _ = cache.get("a");

    // inserting c should evict "b"
    cache.put("c".to_string(), c.clone());

    assert!(cache.get("a").is_some(), "recently used entry should remain");
    assert!(cache.get("b").is_none(), "least-recently-used entry should be evicted");
    assert!(cache.get("c").is_some(), "new entry should be present");
}

#[test]
fn new_with_capacity_respects_capacity() {
    let cap = 3;
    let mut cache = TestCache::new_with_capacity(NonZero::new(cap).unwrap().get());
    for i in 0..cap {
        cache.put(format!("k{}", i), Arc::new(format!("v{}", i)));
    }
    // adding one more should evict one entry
    cache.put("extra".to_string(), Arc::new("v_extra".to_string()));

    // total entries should not exceed capacity
    let mut found = 0;
    for i in 0..cap {
        if cache.get(&format!("k{}", i)).is_some() {
            found += 1;
        }
    }
    if cache.get("extra").is_some() {
        found += 1;
    }
    assert!(found <= cap, "cache should not exceed configured capacity");
}

#[test]
fn replacing_a_key_keeps_other_entries() {
    let mut cache = TestCache::new_with_capacity(2);
    cache.put("a".to_string(), Arc::new("A1".to_string()));
    cache.put("b".to_string(), Arc::new("B".to_string()));
    cache.put("a".to_string(), Arc::new("A2".to_string()));
    assert_eq!(*cache.get("a").unwrap(), "A2");
    assert_eq!(*cache.get("b").unwrap(), "B");
    // "a" is now least recently used and goes first
    cache.put("c".to_string(), Arc::new("C".to_string()));
    assert!(cache.get("a").is_none());
    assert_eq!(*cache.get("b").unwrap(), "B");
    assert_eq!(*cache.get("c").unwrap(), "C");
}

#[test]
fn default_cache_holds_128_modules() {
    let mut cache: ModuleCache<u32> = ModuleCache::new();
    for i in 0..129u32 {
        cache.put(format!("m{}", i), Arc::new(i));
    }
    assert!(cache.get("m0").is_none());
    for i in 1..129u32 {
        assert_eq!(*cache.get(&format!("m{}", i)).unwrap(), i);
    }
}

#[test]
fn acquire_increments_and_drop_decrements() {
    let counter = Arc::new(AtomicUsize::new(0));

    {
        let _t1 = JobTicket::acquire(counter.clone());
        assert_eq!(counter.load(Ordering::SeqCst), 1);

        {
            let _t2 = JobTicket::acquire(counter.clone());
            assert_eq!(counter.load(Ordering::SeqCst), 2);

            // t2 drops at end of this inner scope
        }
        assert_eq!(counter.load(Ordering::SeqCst), 1);

        // t1 drops at end of outer scope
    }

    assert_eq!(counter.load(Ordering::SeqCst), 0);
}

#[test]
fn multiple_tickets_work_and_independent_scopes() {
    let counter = Arc::new(AtomicUsize::new(0));

    let t1 = JobTicket::acquire(counter.clone());
    assert_eq!(counter.load(Ordering::SeqCst), 1);

    let t2 = JobTicket::acquire(counter.clone());
    assert_eq!(counter.load(Ordering::SeqCst), 2);

    drop(t1);
    assert_eq!(counter.load(Ordering::SeqCst), 1);

    drop(t2);
    assert_eq!(counter.load(Ordering::SeqCst), 0);
}

#[test]
fn queue_ticket_counts_while_held() {
    let counter = Arc::new(AtomicUsize::new(0));
    let t = QueueTicket::acquire(counter.clone());
    assert_eq!(counter.load(Ordering::SeqCst), 1);
    drop(t);
    assert_eq!(counter.load(Ordering::SeqCst), 0);
}

#[test]
fn module_hash_is_hex_sha256() {
    assert_eq!(
        hash_wasm_module(b"abc"),
        "ba7816bf8f01cfea414140de5dae2223b00361a396177a9cb410ff61f20015ad"
    );
    assert_eq!(
        hash_wasm_module(b""),
        "e3b0c44298fc1c149afbf4c8996fb92427ae41e4649b934ca495991b7852b855"
    );
}

#[test]
fn cached_submission_round_trip() {
    let bytes = b"\0asm\x01\0\0\0".to_vec();
    let mut cache: ModuleCache<String> = ModuleCache::new();
    let manifest = JobManifest { call_args: vec!["10".to_string()] };
    let hash_req = hash_submission(&bytes, manifest);
    // first submission: the worker does not know the module
    let miss = find_module(&mut cache, &hash_req.module_hash);
    let status = match &miss {
        Err(e) => e.to_http_response().0,
        Ok(_) => 201,
    };
    assert_eq!(status, 404);
    assert!(matches!(miss, Err(WorkerError::ModuleNotFound(ref h)) if *h == hash_req.module_hash));
    assert_eq!(after_hash_submission(status), SubmitStep::UploadModule);
    // the upload stores the module under the hash the worker recomputes
    assert!(check_module_bytes(&bytes).is_ok());
    let compiled = Arc::new("compiled".to_string());
    let stored = store_module(&mut cache, &bytes, compiled.clone());
    assert_eq!(stored, hash_req.module_hash);
    // second submission: found by hash
    let hit = find_module(&mut cache, &hash_req.module_hash).unwrap();
    assert!(Arc::ptr_eq(&hit, &compiled));
    assert_eq!(after_hash_submission(201), SubmitStep::Finished);
    assert_eq!(fib(10), 55);
    assert_eq!(format!("fib({}) = {}", 10, fib(10)), "fib(10) = 55");
}

#[test]
fn empty_submissions_are_invalid() {
    let mut cache: ModuleCache<String> = ModuleCache::new();
    let r = check_module_bytes(&[]);
    assert_eq!(r, Err(WorkerError::Validation("empty wasm module".to_string())));
    let r = find_module(&mut cache, "");
    assert!(matches!(r, Err(WorkerError::Validation(ref m)) if m == "empty module hash"));
    assert_eq!(WorkerError::Validation("x".to_string()).to_http_response().0, 400);
}

#[test]
fn worker_error_status_codes() {
    let m = || "m".to_string();
    assert_eq!(WorkerError::Validation(m()).to_http_response(), (400, m()));
    assert_eq!(WorkerError::Compile(m()).to_http_response(), (400, m()));
    assert_eq!(WorkerError::Execution(m()).to_http_response(), (422, m()));
    assert_eq!(WorkerError::ModuleNotFound(m()).to_http_response(), (404, m()));
    assert_eq!(
        WorkerError::Io(m()).to_http_response(),
        (500, "internal I/O error".to_string())
    );
    assert_eq!(
        WorkerError::JoinError(m()).to_http_response(),
        (500, "wasm thread panicked".to_string())
    );
    assert_eq!(WorkerError::Registration(m()).to_http_response(), (500, m()));
    assert_eq!(WorkerError::Unregistration(m()).to_http_response(), (500, m()));
    assert_eq!(WorkerError::Heartbeat(m()).to_http_response(), (500, m()));
}

#[test]
fn heartbeat_carries_next_seq_and_free_credits() {
    let hb = heartbeat_update(7, 4, 0);
    assert_eq!(hb.worker_id, 7);
    assert_eq!(hb.seq, 5);
    assert_eq!(hb.credits, 1);
    let busy = heartbeat_update(7, 5, 1);
    assert_eq!(busy.credits, 0);
    assert_eq!(available_credits(3), 0);
    assert_eq!(heartbeat_update(7, usize::MAX, 0).seq, usize::MAX);
}

#[test]
fn orchestrator_base_normalizes_address() {
    assert_eq!(orchestrator_base("127.0.0.1:8080"), "http://127.0.0.1:8080");
    assert_eq!(orchestrator_base("http://host:1//"), "http://host:1");
    assert_eq!(orchestrator_base("https://host/"), "https://host");
}

#[test]
fn accepted_message_carries_output() {
    assert_eq!(job_accepted_message("fib(10) = 55\n"), "job accepted, output: fib(10) = 55\n");
}
