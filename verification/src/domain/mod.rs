//! Pure business types: identifiers, players and the room state machine.

pub mod ids;
pub mod player;
pub mod nudges;
pub mod room;
pub mod laws;
