//! The writer and reader engines and the proxies they keep of their matched
//! peers.

pub mod rtps_writer_proxy;
pub mod rtps_reader_proxy;
pub mod qos;
pub mod ddsdata;
pub mod writer;
pub mod writer_messages;
pub mod writer_state;
pub mod writer_maintenance;
pub mod writer_send;
