//! Liveness tracking for a WebSocket connection.

use vstd::prelude::*;

use crate::time::{Duration, Instant};

verus! {

/// How often the server sends a Ping frame, in nanoseconds.
pub const HEARTBEAT_INTERVAL_NS: u64 = 30_000_000_000;

/// How long a connection may go without a Pong before it is closed, in
/// nanoseconds: two intervals plus slack, so one dropped Pong does not kill a
/// live connection.
pub const CLIENT_TIMEOUT_NS: u64 = 90_000_000_000;

/// How often the server sends a Ping frame.
pub fn heartbeat_interval() -> (d: Duration)
    ensures
        d.ns() == HEARTBEAT_INTERVAL_NS,
{
    Duration::from_nanos(HEARTBEAT_INTERVAL_NS)
}

/// How long a connection may go without a Pong before it is closed.
pub fn client_timeout() -> (d: Duration)
    ensures
        d.ns() == CLIENT_TIMEOUT_NS,
{
    Duration::from_nanos(CLIENT_TIMEOUT_NS)
}

/// Tracks when a connection last proved it was alive.
#[derive(Debug)]
pub struct Heartbeat {
    timeout: Duration,
    last_pong: Instant,
}

impl Heartbeat {
    /// The silence after which the peer counts as gone.
    pub closed spec fn timeout(self) -> Duration {
        self.timeout
    }

    /// When the peer last answered.
    pub closed spec fn last_pong(self) -> Instant {
        self.last_pong
    }

    /// Whether the peer, last heard from at `last_pong`, has been silent for
    /// longer than `timeout` at `now`.
    pub open spec fn stale_at(timeout: Duration, last_pong: Instant, now: Instant) -> bool {
        now.elapsed_since(last_pong) > timeout.ns()
    }

    /// Start tracking, treating `now` as the last known-good moment.
    pub fn new(timeout: Duration, now: Instant) -> (h: Self)
        ensures
            h.timeout() == timeout,
            h.last_pong() == now,
    {
        Heartbeat { timeout, last_pong: now }
    }

    /// Record that the peer answered a Ping.
    pub fn record_pong(&mut self, now: Instant)
        ensures
            final(self).timeout() == old(self).timeout(),
            final(self).last_pong() == now,
    {
        self.last_pong = now;
    }

    /// Whether the peer has been silent for longer than the timeout.
    pub fn is_stale(&self, now: Instant) -> (b: bool)
        ensures
            b == Self::stale_at(self.timeout(), self.last_pong(), now),
    {
        now.duration_since(self.last_pong).as_nanos() > self.timeout.as_nanos()
    }
}

/// A pong resets the clock: right after recording a pong at `t`, the
/// connection stays fresh through `t + timeout` and goes stale only after it.
pub proof fn lemma_pong_resets_staleness(timeout: Duration, t: Instant, now: Instant)
    ensures
        now.ns() <= t.ns() + timeout.ns() ==> !Heartbeat::stale_at(timeout, t, now),
        now.ns() > t.ns() + timeout.ns() ==> Heartbeat::stale_at(timeout, t, now),
{
}

} // verus!
