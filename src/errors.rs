use vstd::prelude::*;

verus! {

/// Errors that the orchestrator reports to its callers.
#[derive(Debug, Clone, Copy, PartialEq, Eq, Structural)]
pub enum OrchestratorError {
    NoWorkers,
    WorkerNotFound,
    QueueFull,
    Internal,
    RequestTimeout,
}

impl OrchestratorError {
    /// The HTTP status that each error maps to.
    pub open spec fn spec_status(self) -> u16 {
        match self {
            OrchestratorError::NoWorkers => 503,
            OrchestratorError::WorkerNotFound => 404,
            OrchestratorError::QueueFull => 429,
            OrchestratorError::Internal => 500,
            OrchestratorError::RequestTimeout => 408,
        }
    }

    pub open spec fn spec_message(self) -> Seq<char> {
        match self {
            OrchestratorError::NoWorkers => "no workers registered"@,
            OrchestratorError::WorkerNotFound => "worker not found"@,
            OrchestratorError::QueueFull => "job queue is full"@,
            OrchestratorError::Internal => "internal server error"@,
            OrchestratorError::RequestTimeout => "request timed out"@,
        }
    }

    pub fn status_code(&self) -> (r: u16)
        ensures
            r == self.spec_status(),
    {
        match self {
            OrchestratorError::NoWorkers => 503,
            OrchestratorError::WorkerNotFound => 404,
            OrchestratorError::QueueFull => 429,
            OrchestratorError::Internal => 500,
            OrchestratorError::RequestTimeout => 408,
        }
    }

    /// The human-readable text carried in the error body.
    pub fn message(&self) -> (r: String)
        ensures
            r@ == self.spec_message(),
    {
        match self {
            OrchestratorError::NoWorkers => String::from_str("no workers registered"),
            OrchestratorError::WorkerNotFound => String::from_str("worker not found"),
            OrchestratorError::QueueFull => String::from_str("job queue is full"),
            OrchestratorError::Internal => String::from_str("internal server error"),
            OrchestratorError::RequestTimeout => String::from_str("request timed out"),
        }
    }
}

/// Errors that can occur in the worker. Causes that come from the runtime
/// (I/O, a panicked execution thread) are carried as their text.
#[derive(Debug, Clone, PartialEq, Eq)]
pub enum WorkerError {
    Validation(String),
    Compile(String),
    Execution(String),
    ModuleNotFound(String),
    Io(String),
    JoinError(String),
    Registration(String),
    Unregistration(String),
    Heartbeat(String),
}

impl WorkerError {
    pub open spec fn spec_status(&self) -> u16 {
        match self {
            WorkerError::Validation(_) => 400,
            WorkerError::Compile(_) => 400,
            WorkerError::Execution(_) => 422,
            WorkerError::ModuleNotFound(_) => 404,
            _ => 500,
        }
    }

    /// The body text of the HTTP response: the carried message, except for
    /// runtime failures, whose details are not exposed.
    pub open spec fn spec_body(&self) -> Seq<char> {
        match self {
            WorkerError::Validation(m) => m@,
            WorkerError::Compile(m) => m@,
            WorkerError::Execution(m) => m@,
            WorkerError::ModuleNotFound(m) => m@,
            WorkerError::Io(_) => "internal I/O error"@,
            WorkerError::JoinError(_) => "wasm thread panicked"@,
            WorkerError::Registration(m) => m@,
            WorkerError::Unregistration(m) => m@,
            WorkerError::Heartbeat(m) => m@,
        }
    }

    /// Status code and body text of the HTTP response for this error.
    pub fn to_http_response(&self) -> (r: (u16, String))
        ensures
            r.0 == self.spec_status(),
            r.1@ == self.spec_body(),
    {
        match self {
            WorkerError::Validation(msg) => (400, msg.clone()),
            WorkerError::Compile(msg) => (400, msg.clone()),
            WorkerError::Execution(msg) => (422, msg.clone()),
            WorkerError::ModuleNotFound(msg) => (404, msg.clone()),
            WorkerError::Io(_) => (500, String::from_str("internal I/O error")),
            WorkerError::JoinError(_) => (500, String::from_str("wasm thread panicked")),
            WorkerError::Registration(msg) => (500, msg.clone()),
            WorkerError::Unregistration(msg) => (500, msg.clone()),
            WorkerError::Heartbeat(msg) => (500, msg.clone()),
        }
    }
}

} // verus!
