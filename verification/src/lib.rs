//! Verified core of a multi-room, horizontally scalable chat server.
//!
//! Clients connect over WebSocket, are placed in the default room, may join
//! or leave further rooms, change their display name and exchange text
//! messages scoped to a room.  Several server processes cooperate through a
//! shared pub/sub broker and a shared key-value store, so membership and
//! messages are visible across the fleet.
//!
//! This crate holds the logic of that core: the single-writer chat-server
//! actor over local sessions and rooms, the hub's subscription bookkeeping
//! and script requests, the per-connection session protocol, the wire frames,
//! and a model of the shared membership index that the atomic scripts
//! maintain.  The surrounding process — sockets, the broker connection, the
//! async run loops — performs the effects these functions decide on.

use vstd::prelude::*;

pub mod config;
pub mod frames;
pub mod hub;
pub mod index;
pub mod seqs;
pub mod server;
pub mod session;
pub mod user;

verus! {

} // verus!
