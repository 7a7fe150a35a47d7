//! RTPS messages: their parts as values, and their form on the wire.

pub mod wire;
pub mod elements;
pub mod parameter_list;
pub mod header;
pub mod submessages;
pub mod body;
pub mod body_io;
pub mod serialization;
