//! Command handling for a game lobby server: lobby and room command handlers
//! that turn a client's command into a list of actions, over a verified model
//! of clients, rooms and teams, with the engine-message framer they rely on.
use vstd::prelude::*;

pub mod actions;
pub mod common;
pub mod engine;
pub mod inroom;
pub mod laws;
pub mod lobby;
pub mod model;
pub mod names;
pub mod protocol;

verus! {

} // verus!
