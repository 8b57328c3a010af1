//! A deterministic replay and recovery engine for a replicated state machine
//! driven by a consensus log.
//!
//! Given a sequence of finalized blocks and a set of signed checkpoints
//! (catch-up packages), the engine reconstructs the execution state by
//! re-delivering every finalized block's payload to an execution pipeline,
//! verifies that the resulting state matches committed checkpoints, and
//! supports live replay against a consensus pool as well as restoration from
//! an archival spool.
//!
//! The collaborating subsystems (state manager, message routing, consensus and
//! certification pools, registry client and local store, query path, archival
//! spool) are represented by in-memory models over plain values; the engine's
//! decisions against them are verified. Host-side concerns (disk pools,
//! blocking backoff sleeps, logging) live outside this crate.

pub mod types;
pub mod hexenc;
pub mod state_manager;
pub mod routing;
pub mod pool;
pub mod registry;
pub mod backup;
pub mod player;
