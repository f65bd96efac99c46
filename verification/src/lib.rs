//! A launcher and session broker for Model Context Protocol tool servers.
//!
//! The crate holds the decisions of a broker that starts a child tool server,
//! frames the byte stream it exchanges with the child, writes and reads the
//! messages in the frames, correlates responses with outstanding calls and
//! supervises restarts. Nothing here touches a process or a stream: the
//! embedding program spawns the child, moves the bytes and tells the broker
//! what happened.

pub mod command;
pub mod framing;
pub mod message;
pub mod pending;
pub mod reader;
pub mod registry;
pub mod session;
pub mod supervisor;
pub mod theorems;
pub mod wire;
