//! Machine-limit bounds shared across the simulation.
//!
//! The simulation works in integer milliseconds and integer counts.  These
//! caps keep every intermediate product comfortably inside `u64`/`i64`
//! arithmetic; they are far above anything a real level configuration uses.

use vstd::prelude::*;

verus! {

/// Longest supported run of simulated time, in milliseconds (about 24 days).
pub const MAX_SIM_MS: u64 = 0x8000_0000;

/// Longest supported single tick, in milliseconds.
pub const MAX_TICK_MS: u64 = 1000;

/// Most requests a run may ever create (handled + dropped + in flight).
pub const MAX_TOTAL_REQUESTS: usize = 0x4000_0000;

/// Longest supported ramp-up or ramp-down phase of a schedule, in milliseconds.
pub const MAX_RAMP_MS: u64 = 600_000;

/// Highest supported peak request rate of a schedule, in requests per second.
pub const MAX_RPS: u64 = 1000;

/// Most schedules a scenario may hold.
pub const MAX_SCHEDULES: usize = 64;

/// Most servers a simulation may hold.
pub const MAX_SERVERS: usize = 1024;

/// Most upgrade points a level may grant.
pub const MAX_POINTS: usize = 250_000;

/// Largest magnitude of a screen coordinate handed in by the presentation
/// layer.
pub const MAX_COORD: i64 = 1_000_000;

} // verus!
