//! What the engines ask of the network and of the event loop, kept as values
//! for the caller to carry out.

pub mod constant;
pub mod udp_sender;
pub mod event_loop;
