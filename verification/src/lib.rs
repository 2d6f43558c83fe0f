//! A "ping for TCP ports" library: the verified core of a diagnostic tool
//! that resolves a target once and then probes a TCP endpoint on a fixed
//! cadence, reporting connection latency.
//!
//! The library holds the logic: address literals and their canonical text
//! form, latency arithmetic, the exact report lines, and the decisions the
//! probe loop takes. The surrounding binary performs the sockets, the DNS
//! lookups and the printing, and feeds their outcomes back in as plain
//! values.

use vstd::prelude::*;

pub mod ip;
pub mod probe;
pub mod resolve;
pub mod text;

verus! {

/// Milliseconds allowed for one TCP connect attempt before it counts as
/// failed.
pub const PROBE_TIMEOUT_MS: u64 = 2000;

/// Milliseconds slept between two probe attempts.
pub const TICK_INTERVAL_MS: u64 = 1000;

} // verus!
