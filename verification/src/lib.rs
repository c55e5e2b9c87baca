//! Authoritative-server / thin-client state replication for a real-time
//! multiplayer simulation.
//!
//! One server owns the true world state; each client keeps a partial,
//! eventually-consistent mirror.  This crate holds the replication core:
//! the component codec and wire message protocol, the per-client identity
//! translation between server-global entity ids and client-local handles,
//! the server's per-connection fan-out queues and late-join bootstrap, and
//! the client-side reconciliation of authoritative positions with locally
//! predicted movement.

pub mod art;
pub mod bootstrap;
pub mod client;
pub mod combat;
pub mod config;
pub mod controls;
pub mod codec;
pub mod components;
pub mod geom;
pub mod ids;
pub mod item;
pub mod mirror;
pub mod renderer;
pub mod server;
pub mod sync;
