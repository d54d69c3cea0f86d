//! Turn coordination for a shared-room turn tracker: the room state machine,
//! its identifiers and players, persistence snapshots, the wire model, and the
//! small policy functions around them. Clock reads, sockets, files and the
//! HTTP server live outside this crate; everything here takes plain values.

pub mod time;
pub mod domain;
pub mod text;
pub mod gate;
pub mod error;
pub mod ratelimit;
pub mod ws;
pub mod wire;
pub mod registry;
pub mod persist;
pub mod cleanup;
pub mod server;
