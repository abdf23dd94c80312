use vstd::prelude::*;

use crate::proto::{hash_wasm_module, module_hash_of, JobManifest, JobSubmissionHash, JobSubmissionWasm};
use crate::text::{join_url, trim_trailing_slashes, without_trailing_slashes};

verus! {

/// What a client does next while submitting a module.
#[derive(Clone, Copy, Debug, PartialEq, Eq, Structural)]
pub enum SubmitStep {
    /// The worker does not have the module: send its bytes.
    UploadModule,
    /// The job ran; read the response.
    Finished,
    /// The submission failed.
    Failed,
}

/// An HTTP status in the success range.
pub open spec fn is_success(status: u16) -> bool {
    200 <= status < 300
}

/// Next step after the hash-only submission answered with `status`: a
/// missing module (404) is uploaded in full.
pub fn after_hash_submission(status: u16) -> (r: SubmitStep)
    ensures
        status == 404 ==> r == SubmitStep::UploadModule,
        status != 404 && is_success(status) ==> r == SubmitStep::Finished,
        status != 404 && !is_success(status) ==> r == SubmitStep::Failed,
{
    if status == 404 {
        SubmitStep::UploadModule
    } else if 200 <= status && status < 300 {
        SubmitStep::Finished
    } else {
        SubmitStep::Failed
    }
}

/// Next step after the full upload answered with `status`.
pub fn after_module_upload(status: u16) -> (r: SubmitStep)
    ensures
        is_success(status) ==> r == SubmitStep::Finished,
        !is_success(status) ==> r == SubmitStep::Failed,
{
    if 200 <= status && status < 300 {
        SubmitStep::Finished
    } else {
        SubmitStep::Failed
    }
}

/// The hash-only submission of a module.
pub fn hash_submission(wasm_bytes: &[u8], manifest: JobManifest) -> (r: JobSubmissionHash)
    ensures
        r.module_hash@ == module_hash_of(wasm_bytes@),
        r.manifest == manifest,
{
    JobSubmissionHash { module_hash: hash_wasm_module(wasm_bytes), manifest }
}

/// The full submission of a module.
pub fn wasm_submission(wasm_bytes: Vec<u8>, manifest: JobManifest) -> (r: JobSubmissionWasm)
    ensures
        r.module_bytes == wasm_bytes,
        r.manifest == manifest,
{
    JobSubmissionWasm { module_bytes: wasm_bytes, manifest }
}

/// The address of `path` on the server at `server`, whose trailing slashes are dropped.
pub fn endpoint_url(server: &str, path: &str) -> (r: String)
    ensures
        r@ == without_trailing_slashes(server@) + path@,
{
    join_url(trim_trailing_slashes(server), path)
}

} // verus!
