//! Authoritative state of a shared poker table: the card model, the table
//! snapshot, the game actor's state transitions and the decisions that a
//! connection's session loop takes on each event.

pub mod cards;
pub mod events;
pub mod player;
pub mod table;
pub mod game;
pub mod session;
