//! Control plane of a small function-as-a-service fabric: a worker registry
//! with credit-based dispatch, a bounded wait queue for requests that find no
//! free worker, heartbeat handling, and the worker-side module cache.

mod ids;

pub mod errors;
pub mod proto;
pub mod text;

pub mod dispatch;
pub mod queue;
pub mod registry;

pub mod module_cache;
pub mod tickets;
pub mod worker;

pub mod client;
pub mod guest;
pub mod monitor;
