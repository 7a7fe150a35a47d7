//! Shared value types: identifiers, sequence numbers, instants, locators, and
//! the history cache that holds cache changes.

pub mod guid;
pub mod sequence_number;
pub mod time;
pub mod locator;
pub mod cache_change;
pub mod history_cache;
