//! Per-connection policy: origin checks, liveness, join resolution and the
//! translation of client messages into room mutations.

pub mod heartbeat;
pub mod origin;
pub mod dispatch;
pub mod join;
pub mod session;
