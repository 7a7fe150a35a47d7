//! The endpoint core of the Real-Time Publish-Subscribe (RTPS) wire protocol:
//! history cache, matched-peer proxies, the stateful writer and reader engines,
//! the wire format of RTPS messages and the submessage receiver.
//!
//! Every function is verified against its contract. The few calls into other
//! crates stand behind small trusted wrappers whose doc comments say what is
//! assumed of them.

pub mod common;
pub mod structure;
pub mod discovery;
pub mod messages;
pub mod network;
pub mod rtps;
pub mod security;
pub mod participant;
pub mod dds;
