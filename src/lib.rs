//! Chain head coordination: one canonical append point for an agent's
//! hash-linked, append-only log.
//!
//! - [`chain`]: the records of the log and the check that a batch links onto a head.
//! - [`local`]: the in-memory coordinator and its shared, lock-guarded handle.
//! - [`wire`]: the binary schema that the networked coordinator speaks.
//! - [`remote`]: the decisions of the networked coordinator, from request to result.
//! - [`scenario_def`]: declarative descriptions of sharded network scenarios.
//! - [`rate_limit`], [`entry`]: small value types of the surrounding system.

pub mod chain;
pub mod error;
pub mod local;
pub mod wire;
pub mod remote;
pub mod scenario_def;
pub mod rate_limit;
pub mod entry;
