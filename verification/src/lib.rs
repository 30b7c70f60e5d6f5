//! Core simulation engine for a web-hosting load-balancing puzzle.
//!
//! Requests arrive according to ramp-up/ramp-down schedules, servers consume
//! them from bounded queues (processing them directly or proxying them to
//! other servers round-robin), and a level is passed when enough requests
//! were handled quickly enough.  All quantities are integers: time is in
//! milliseconds, percentages are in permille, and the scheduler's fractional
//! request accumulator is an exact rational with a fixed denominator.

pub mod game_stats;
pub mod levels;
pub mod limits;
pub mod load_balancer;
pub mod load_scenarios;
pub mod requests;
pub mod results;
pub mod server;
pub mod simulation;
pub mod states;
pub mod timer;
