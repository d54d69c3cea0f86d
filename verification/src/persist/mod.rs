//! Durable room-state persistence: snapshot records and file locations.

pub mod file;
pub mod lock;
pub mod snapshot;
pub mod writer;
