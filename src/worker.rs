use std::sync::Arc;
use vstd::prelude::*;

use crate::errors::WorkerError;
use crate::module_cache::{after_get, after_put, found, keys_of, lemma_put_then_get, ModuleCache};
use crate::proto::{hash_wasm_module, module_hash_of, HeartbeatUpdate};
use crate::text::{is_prefix, join_url, starts_with, trim_trailing_slashes, without_trailing_slashes};

verus! {

/// Jobs a worker runs at once.
pub const MAX_CREDITS: usize = 1;

/// Credits a worker announces when it registers.
pub const INITIAL_CREDITS: usize = MAX_CREDITS;

/// Period of the worker's heartbeat, in milliseconds.
pub const HEARTBEAT_INTERVAL_MS: u64 = 500;

/// Age in milliseconds past which the orchestrator forgets a silent worker.
pub const LIVENESS_TIMEOUT_MS: u64 = 3 * HEARTBEAT_INTERVAL_MS;

/// Credits left to a worker running `active_jobs` jobs; never negative.
pub open spec fn credits_left(active_jobs: usize) -> usize {
    if active_jobs < MAX_CREDITS {
        (MAX_CREDITS - active_jobs) as usize
    } else {
        0
    }
}

/// The orchestrator base address given on the command line, with the scheme
/// `http://` added when none is given and trailing slashes removed.
pub open spec fn base_url_of(arg: Seq<char>) -> Seq<char> {
    if is_prefix("http://"@, arg) || is_prefix("https://"@, arg) {
        without_trailing_slashes(arg)
    } else {
        "http://"@ + without_trailing_slashes(arg)
    }
}

pub fn available_credits(active_jobs: usize) -> (r: usize)
    ensures
        r == credits_left(active_jobs),
{
    MAX_CREDITS.saturating_sub(active_jobs)
}

/// The heartbeat a worker sends after `previous_seq`, while running
/// `active_jobs` jobs. The sequence number grows by one, and stays put at
/// its largest value.
pub fn heartbeat_update(worker_id: u128, previous_seq: usize, active_jobs: usize) -> (r:
    HeartbeatUpdate)
    ensures
        r.worker_id == worker_id,
        previous_seq < usize::MAX ==> r.seq == previous_seq + 1,
        previous_seq == usize::MAX ==> r.seq == previous_seq,
        r.credits == credits_left(active_jobs),
{
    HeartbeatUpdate {
        worker_id,
        seq: previous_seq.saturating_add(1),
        credits: available_credits(active_jobs),
    }
}

/// The orchestrator base address to use for a command-line argument.
pub fn orchestrator_base(arg: &str) -> (r: String)
    ensures
        r@ == base_url_of(arg@),
{
    let trimmed = trim_trailing_slashes(arg);
    if starts_with(arg, "http://") || starts_with(arg, "https://") {
        String::from_str(trimmed)
    } else {
        join_url("http://", trimmed)
    }
}

/// Rejects an empty module.
pub fn check_module_bytes(module_bytes: &[u8]) -> (r: Result<(), WorkerError>)
    ensures
        match r {
            Ok(()) => module_bytes@.len() > 0,
            Err(WorkerError::Validation(m)) => module_bytes@.len() == 0 && m@
                == "empty wasm module"@,
            Err(_) => false,
        },
{
    if module_bytes.len() == 0 {
        Err(WorkerError::Validation(String::from_str("empty wasm module")))
    } else {
        Ok(())
    }
}

/// Stores a compiled module under the content hash of its bytes, and returns that hash.
pub fn store_module<T>(cache: &mut ModuleCache<T>, module_bytes: &[u8], module: Arc<T>) -> (r:
    String)
    requires
        old(cache).wf(),
    ensures
        final(cache).wf(),
        final(cache).capacity() == old(cache).capacity(),
        r@ == module_hash_of(module_bytes@),
        final(cache).bounded(),
        found(final(cache).entries(), module_hash_of(module_bytes@)) == Some(module),
        final(cache).entries() == after_put(
            old(cache).entries(),
            old(cache).capacity(),
            module_hash_of(module_bytes@),
            module,
        ),
{
    let hash = hash_wasm_module(module_bytes);
    cache.put(hash.clone(), module);
    hash
}

/// The cached module named by `module_hash`. An empty hash is invalid; an
/// unknown one is reported as missing, which tells the client to upload the
/// module itself.
pub fn find_module<T>(cache: &mut ModuleCache<T>, module_hash: &str) -> (r: Result<
    Arc<T>,
    WorkerError,
>)
    requires
        old(cache).wf(),
    ensures
        final(cache).wf(),
        final(cache).capacity() == old(cache).capacity(),
        final(cache).bounded(),
        module_hash@.len() == 0 ==> final(cache).entries() == old(cache).entries(),
        module_hash@.len() > 0 ==> final(cache).entries() == after_get(
            old(cache).entries(),
            module_hash@,
        ),
        match r {
            Ok(m) => module_hash@.len() > 0 && found(old(cache).entries(), module_hash@) == Some(m),
            Err(WorkerError::Validation(msg)) => module_hash@.len() == 0 && msg@
                == "empty module hash"@,
            Err(WorkerError::ModuleNotFound(h)) => {
                &&& module_hash@.len() > 0
                &&& found(old(cache).entries(), module_hash@) is None
                &&& h@ == module_hash@
            },
            Err(_) => false,
        },
{
    proof {
        cache.lemma_wf_bounded();
    }
    if module_hash.unicode_len() == 0 {
        return Err(WorkerError::Validation(String::from_str("empty module hash")));
    }
    match cache.get(module_hash) {
        Some(m) => Ok(m),
        None => Err(WorkerError::ModuleNotFound(String::from_str(module_hash))),
    }
}

/// A module uploaded in full is then found under the hash that a client
/// computes from the same bytes: the worker and the client name it alike,
/// so later hash-only submissions hit until the entry is evicted.
pub proof fn lemma_uploaded_module_found_by_hash<T>(
    entries: Seq<(Seq<char>, Arc<T>)>,
    cap: nat,
    module_bytes: Seq<u8>,
    module: Arc<T>,
)
    requires
        keys_of(entries).no_duplicates(),
        entries.len() <= cap,
        cap > 0,
    ensures
        found(
            after_put(entries, cap, module_hash_of(module_bytes), module),
            module_hash_of(module_bytes),
        ) == Some(module),
{
    lemma_put_then_get(entries, cap, module_hash_of(module_bytes), module);
}

/// The message a worker returns with the output of a job.
pub fn job_accepted_message(output: &str) -> (r: String)
    ensures
        r@ == "job accepted, output: "@ + output@,
{
    join_url("job accepted, output: ", output)
}

} // verus!
