//! A signaling relay core: a registry of connected clients, each with a
//! bounded delivery queue, a router that validates and delivers directed or
//! broadcast messages, a liveness sweeper that evicts unresponsive clients,
//! and the per-session filter that turns queued items into the outgoing
//! stream.
//!
//! The surrounding transport (the push stream, identity cookies, timers) is
//! deliberately out of scope: callers hand the relay plain identifiers and
//! messages and drain the resulting queues.

pub mod broadcast;
pub mod laws;
pub mod messages;
