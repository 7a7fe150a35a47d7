//! The reader engine and the receiver that interprets incoming messages.

pub mod reader;
pub mod reader_handlers;
pub mod message_receiver;
pub mod message_receiver_handlers;
pub mod message_receiver_run;
