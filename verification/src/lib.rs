//! Automatic thread opening for chat channels.
//!
//! The library holds the decision logic of a small chat integration: derive a
//! short thread title from a message's text, filter inbound message events by
//! author kind and a channel allow-list, and build the one thread-creation
//! request that is owed for a qualifying event.  The surrounding process (the
//! gateway connection, configuration reading, the outbound request itself)
//! stays outside.

pub mod config;
pub mod dispatch;
pub mod text;
pub mod title;
