use vstd::prelude::*;

verus! {

/// A writer's sequence number: a signed 64-bit counter that starts at 1.
/// Zero stands for "no sample".
pub type SequenceNumber = i64;

/// The value the protocol reserves for an unknown sequence number: high word
/// -1, low word 0.
pub const SEQUENCENUMBER_UNKNOWN: SequenceNumber = -4294967296;

/// The sequence number before the first: "no sample".
pub const SEQUENCENUMBER_ZERO: SequenceNumber = 0;

/// All sequence numbers `s` with `lo <= s < hi`.
pub open spec fn seq_range(lo: int, hi: int) -> Set<SequenceNumber> {
    Set::new(|s: SequenceNumber| lo <= s < hi)
}

/// `s` holds its elements in strictly ascending order.
pub open spec fn strictly_ascending(s: Seq<SequenceNumber>) -> bool {
    forall|i: int, j: int| 0 <= i < j < s.len() ==> s[i] < s[j]
}

} // verus!
