use vstd::prelude::*;

verus! {

/// What a timer stands for when it expires.
#[allow(non_camel_case_types)]
#[derive(PartialEq, Eq, Structural, Clone, Copy, Debug)]
pub enum TimerMessageType {
    writer_heartbeat,
    writer_cache_cleaning,
    reader_acknack,
}

} // verus!
