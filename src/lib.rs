//! An in-memory realtime pub/sub broker speaking the Pusher client protocol.
//!
//! The library holds the realtime plane: channels and their subscribers,
//! connections with their outbound queues, the per-application registries,
//! the subscription signature, the wire envelopes and the protocol engine.
//! Sockets, HTTP routing and JSON decoding live around it.

pub mod text;
pub mod channel;
pub mod connection;
pub mod connection_manager;
pub mod channel_manager;
pub mod auth;
pub mod protocol;
pub mod error;
pub mod application;
pub mod application_manager;
pub mod laws;
