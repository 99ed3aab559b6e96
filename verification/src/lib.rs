//! One-way local-to-cloud file synchronization core.
//!
//! The library holds the verified heart of the sync daemon: the durable job
//! queue and its state machine, the change-token model, the watcher and
//! scanner decision pipelines, the processor transitions with bounded
//! exponential backoff, and the engine's control-plane state.  All I/O (the
//! filesystem walk, the notification subscription, the embedded database
//! file, the remote HTTP client) lives outside and hands the library plain
//! values.

pub mod config;
pub mod error;
pub mod paths;
pub mod processor;
pub mod queue;
pub mod store;
pub mod strutil;
pub mod sync;
pub mod watcher;
pub mod token;
pub mod types;
