//! Room registry and broadcast engine for a real-time message relay.
//!
//! Clients open persistent bidirectional connections, join a named room, and
//! every message one client sends is fanned out to all other clients currently
//! in that room.  This crate holds the in-memory core of such a relay: the
//! registry that maps room identifiers to rooms, the per-room member sets, the
//! fan-out algorithm with bounded per-connection outbound queues, and the
//! lifecycle rules for rooms and connections.  Transport plumbing (accepting
//! connections, HTTP routing) and the durable metadata store stay outside; the
//! store is reached only through the [`store::IRoomRepository`] interface.

pub mod errors;
pub mod models;
pub mod store;
pub mod registry;
pub mod connection;
pub mod broadcast;
pub mod session;
pub mod dtos;
pub mod config;
