//! Server-side engine for a room-based, turn-based multiplayer card game:
//! a keyed store of live rooms, a registry of connected users with their
//! pending events, the room lifecycle and the card-play engine.

pub mod card;
pub mod error;
pub mod game;
pub mod laws;
pub mod room;
pub mod rooms;
pub mod session;
pub mod store;


use vstd::prelude::*;

verus! {

/// Liveness probe answered by the server's health route.
pub fn hello_world() -> (r: &'static str)
    ensures
        r@ == "Hello, world!"@,
{
    proof {
        reveal_strlit("Hello, world!");
    }
    "Hello, world!"
}

} // verus!
