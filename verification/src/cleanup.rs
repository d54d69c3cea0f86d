//! How long an idle room lives, and how often idle rooms are swept.

use vstd::prelude::*;

use crate::time::Duration;

verus! {

/// A room idle for this many nanoseconds (24 hours) is removed.
pub const ROOM_TTL_NS: u64 = 86_400_000_000_000;

/// Idle rooms are swept this often, in nanoseconds (10 minutes).
pub const SWEEP_INTERVAL_NS: u64 = 600_000_000_000;

/// A room idle for this long is removed.
pub fn room_ttl() -> (d: Duration)
    ensures
        d.ns() == ROOM_TTL_NS,
{
    Duration::from_hours(24)
}

/// How often idle rooms are swept.
pub fn sweep_interval() -> (d: Duration)
    ensures
        d.ns() == SWEEP_INTERVAL_NS,
{
    Duration::from_mins(10)
}

} // verus!
