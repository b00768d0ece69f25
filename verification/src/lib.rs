//! Core of a real-time notification hub.
//!
//! External clients open one or more concurrent streaming connections
//! ("sessions") under a shared logical identity ("client"). The hub keeps a
//! directory from client identity to the set of live sessions, drives a
//! per-connection state machine with heartbeat-based liveness, decodes tagged
//! wire envelopes, and fans notifications out to every session of a client.

use vstd::prelude::*;

pub mod client;
pub mod codec;
pub mod codec_laws;
pub mod context;
pub mod dispatch;
pub mod laws;
pub mod messages;
pub mod session;
pub mod strutil;

verus! {

/// Heartbeat probe period, in milliseconds.
pub const HEARTBEAT_PERIOD_MS: u64 = 5000;

/// A peer silent for longer than this, in milliseconds, is disconnected.
pub const CLIENT_TIMEOUT_MS: u64 = 10000;

} // verus!
