//! Helpers shared by the engines: sorting of sequence numbers and the bit set
//! that carries sets of them on the wire.

pub mod sorted;
pub mod seq_num_set;
pub mod timed_event_handler;
pub mod bit_set;
