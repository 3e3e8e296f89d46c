//! Core of a room-based chat hub.
//!
//! Clients join a default "hub" room, may relocate into named rooms, exchange
//! broadcast messages with co-located peers, and issue inline slash-commands.
//! This crate holds the verified core: the room registry, occupant and history
//! bookkeeping, message routing, command interpretation, room migration with
//! history catch-up, and broadcast fan-out. The transport and the per-connection
//! task plumbing live outside the library and drive it through plain values.

pub mod command_bus;
pub mod laws;
pub mod commands;
pub mod messages;
pub mod recv_routing;
pub mod registry;
pub mod room;
pub mod rooms;
pub mod user;
pub mod util;
