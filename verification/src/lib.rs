//! Core of a room-based chat service: the wire protocol and its binary
//! codec, the per-connection protocol engine, the room-subscription state
//! machine, the durable-store model with its history query, and the
//! client-side command layer.

pub mod client;
pub mod codec;
pub mod engine;
pub mod protocol;
pub mod session;
pub mod store;
pub mod subscriber;
pub mod text;
