//! A visibility-timeout message queue: messages move between a ready /
//! in-flight sequence, a delayed index and a dead-letter sequence.

use vstd::prelude::*;

pub mod clock;
pub mod commands;
pub mod delayed_msgs;
pub mod error;
pub mod identity;
pub mod laws;
pub mod loader;
pub mod pop;
pub mod q_type;
pub mod record;
pub mod registry;
pub mod retention;
pub mod seq_facts;
pub mod server;
pub mod text;
pub mod valq_msg;
pub mod valq_type;

verus! {

/// Visibility timeout given to a queue created without one, in seconds.
pub const VISIBILITY_TIMEOUT_DEFAULT: u64 = 30;

/// Largest visibility timeout, and largest extension, in seconds (12 hours).
pub const VISIBILITY_TIMEOUT_MAX: u64 = 43_200;

/// Delivery attempts allowed to a queue created without a limit.
pub const DELIVERY_ATTEMPTS_DEFAULT: u64 = 5;

/// Largest delivery-attempt limit.
pub const DELIVERY_ATTEMPTS_MAX: u64 = 20;

/// Retention of dead-lettered messages for a queue created without one (1 day).
pub const RETENTION_PERIOD_DEFAULT: u64 = 86_400;

/// Longest retention period (7 days).
pub const RETENTION_PERIOD_MAX: u64 = 604_800;

/// Shortest retention period.
pub const RETENTION_PERIOD_MIN: u64 = 60;

} // verus!
