//! A chat service's real-time subscription and fan-out router.
//!
//! The library keeps a process-local view of which users listen to which
//! conversations and which live connections each user holds, decides for
//! every inbound chat message which connections must receive it, and encodes
//! and decodes the envelopes that travel over the cross-process broadcast
//! medium.  Everything here is plain data and decisions; the surrounding
//! HTTP, websocket, database and broadcast plumbing lives outside.

pub mod ids;
pub mod numbers;
pub mod text;
pub mod messages;
pub mod codec;
pub mod registry;
pub mod subscriptions;
pub mod router;
pub mod database;
pub mod bridge;
pub mod laws;
pub mod api;
