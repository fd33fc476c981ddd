//! Core of a real-time presence/position synchronization server.
//!
//! Clients announce an identity, stream position updates, and observe every
//! other connected client.  This crate holds the verified core: the player
//! registry (the single source of truth for connected players), the session
//! state machine that drives joins, moves and leaves, the bounded-history
//! notification bus that fans events out to every session, and the wire
//! codec for the tagged textual envelopes exchanged with clients.
//!
//! Transport, handshake and task plumbing are outside collaborators and live
//! with the binary, not here.
use vstd::prelude::*;

pub mod messages;
pub mod bus;
pub mod codec;
pub mod registry;
pub mod session;

verus! {

} // verus!
