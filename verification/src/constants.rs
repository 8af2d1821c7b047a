//! Numbers that the server and the clients must agree on.
use vstd::prelude::*;

verus! {

/// Most clients the server holds at once.
pub const MAX_CLIENTS: usize = 10;

/// A client silent for more than this many seconds is dropped.
pub const CLIENT_TIMEOUT_SECS: u64 = 5;

/// Server ticks per second.
pub const TICK_RATE: u64 = 60;

/// Default UDP port of the server.
pub const SERVER_PORT: u16 = 34254;

/// Nanoseconds in a second; timestamps are counted in nanoseconds.
pub const NANOS_PER_SEC: u64 = 1_000_000_000;

} // verus!
