//! Core of a peer-to-peer encrypted local-network messaging layer: a registry
//! of discovered peers, length-prefixed framing and serialization of messages,
//! authenticated encryption of frame bodies, and the decisions behind
//! broadcasting a message to every known peer.

pub mod bytes;
pub mod chat;
pub mod cipher;
pub mod command;
pub mod message;
pub mod protocol;
pub mod registry;
