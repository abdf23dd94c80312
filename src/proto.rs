use sha2::{Digest, Sha256};
use vstd::prelude::*;

verus! {

/// Metadata that a client sends along with a module.
#[derive(Clone, Debug, PartialEq, Eq)]
pub struct JobManifest {
    pub call_args: Vec<String>,
}

/// A submission that names a module by its content hash only.
#[derive(Clone, Debug, PartialEq, Eq)]
pub struct JobSubmissionHash {
    /// Hex-encoded SHA-256 digest of the module bytes.
    pub module_hash: String,
    pub manifest: JobManifest,
}

/// A submission that carries the module bytes themselves.
#[derive(Clone, Debug, PartialEq, Eq)]
pub struct JobSubmissionWasm {
    pub module_bytes: Vec<u8>,
    pub manifest: JobManifest,
}

/// Response returned by a worker when it has run a job.
#[derive(Clone, Debug, PartialEq, Eq)]
pub struct SubmitResponse {
    pub job_id: u128,
    pub message: Option<String>,
}

/// Registration request: the port the worker listens on and its starting credits.
#[derive(Clone, Copy, Debug, PartialEq, Eq, Structural)]
pub struct RegisterWorkerRequest {
    pub port: u16,
    pub initial_credits: usize,
}

/// Request sent by a worker that shuts down.
#[derive(Clone, Copy, Debug, PartialEq, Eq, Structural)]
pub struct UnregisterWorkerRequest {
    pub worker_id: u128,
}

/// Response to a registration: the identifier assigned to the worker.
#[derive(Clone, Copy, Debug, PartialEq, Eq, Structural)]
pub struct RegisterWorkerResponse {
    pub worker_id: u128,
}

/// Periodic capacity announcement of a worker.
#[derive(Clone, Copy, Debug, PartialEq, Eq, Structural)]
pub struct HeartbeatUpdate {
    pub worker_id: u128,
    pub seq: usize,
    pub credits: usize,
}

/// What the orchestrator knows of one worker. `last_seen` is in milliseconds
/// since the Unix epoch.
#[derive(Clone, Debug, PartialEq, Eq)]
pub struct WorkerInfo {
    pub endpoint: String,
    pub id: u128,
    pub credits: usize,
    pub seq: usize,
    pub last_seen: u64,
}

impl WorkerInfo {
    /// A field-by-field copy.
    pub fn duplicate(&self) -> (r: WorkerInfo)
        ensures
            r == *self,
    {
        WorkerInfo {
            endpoint: self.endpoint.clone(),
            id: self.id,
            credits: self.credits,
            seq: self.seq,
            last_seen: self.last_seen,
        }
    }
}

/// A job waiting in the orchestrator's queue, without its reply channel.
/// `submitted_at` is in milliseconds since the Unix epoch.
#[derive(Clone, Copy, Debug, PartialEq, Eq, Structural)]
pub struct JobSummary {
    pub job_id: u128,
    pub submitted_at: u64,
}

/// Monitoring snapshot returned by the orchestrator.
#[derive(Clone, Debug, PartialEq, Eq)]
pub struct MonitoringInfo {
    pub workers: Vec<WorkerInfo>,
    pub pending: Vec<JobSummary>,
}

/// The SHA-256 digest of `b`.
pub uninterp spec fn sha256_of(b: Seq<u8>) -> Seq<u8>;

/// Lower-case hexadecimal digit `d`.
pub open spec fn hex_digit(d: nat) -> char {
    seq!['0', '1', '2', '3', '4', '5', '6', '7', '8', '9', 'a', 'b', 'c', 'd', 'e', 'f'][d as int]
}

/// Lower-case hexadecimal notation of `b`: two digits per byte, high digit first.
pub open spec fn hex_of(b: Seq<u8>) -> Seq<char>
    decreases b.len(),
{
    if b.len() == 0 {
        Seq::empty()
    } else {
        hex_of(b.drop_last()) + seq![hex_digit(b.last() as nat / 16), hex_digit(b.last() as nat % 16)]
    }
}

/// The content hash that names a module: hex of the SHA-256 digest of its bytes.
pub open spec fn module_hash_of(b: Seq<u8>) -> Seq<char> {
    hex_of(sha256_of(b))
}

/// Relies on `sha2::Sha256::digest`: the 32-byte SHA-256 digest of `b`.
#[verifier::external_body]
fn sha256_digest(b: &[u8]) -> (r: Vec<u8>)
    ensures
        r@ == sha256_of(b@),
        r@.len() == 32,
{
    Sha256::digest(b).to_vec()
}

/// Relies on `hex::encode`: each byte as two lower-case hexadecimal digits.
#[verifier::external_body]
fn hex_encode(b: &[u8]) -> (r: String)
    ensures
        r@ == hex_of(b@),
{
    hex::encode(b)
}

/// The content hash of a module, under which workers cache it.
pub fn hash_wasm_module(module_bytes: &[u8]) -> (r: String)
    ensures
        r@ == module_hash_of(module_bytes@),
        r@.len() == 64,
{
    let digest = sha256_digest(module_bytes);
    proof {
        lemma_hex_len(digest@);
    }
    hex_encode(digest.as_slice())
}

proof fn lemma_hex_len(b: Seq<u8>)
    ensures
        hex_of(b).len() == 2 * b.len(),
    decreases b.len(),
{
    if b.len() > 0 {
        lemma_hex_len(b.drop_last());
    }
}

} // verus!
