//! Synchronization core of a real-time chat client.
//!
//! The library keeps a local view of multiple chat rooms consistent with a
//! remote chat server: it groups chronologically ordered messages into visual
//! runs of consecutive same-author messages, caches per-room histories,
//! reconciles live incoming events and room-switch events into the shared
//! state, and encodes/decodes the wire records that travel over the duplex
//! connection. All state-transforming logic lives here, verified; the network
//! and UI plumbing around it does not.

pub mod channel;
pub mod controller;
pub mod grouping;
pub mod messages;
pub mod store;
pub mod user;
pub mod wire;
