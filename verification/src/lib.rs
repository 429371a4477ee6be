//! Core of a participant node in a decentralized compute network.
//!
//! The library holds the verified logic of the node: the versioned, signed
//! message envelope codec, the node identity and envelope authentication tag,
//! the task registry with eligibility filtering, the execution coordinator
//! (deduplication, bounded concurrency, timeouts, result publication), and
//! the node orchestrator's lifecycle state machine. The surrounding process
//! (sockets, signals, the metrics endpoint) drives these functions from
//! outside and performs the actual I/O.

pub mod codec;
pub mod coordinator;
pub mod identity;
pub mod node;
pub mod registry;
