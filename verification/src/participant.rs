use vstd::prelude::*;
use crate::messages::header::{ProtocolVersion, VendorId};
use crate::structure::locator::Locator;

verus! {

/// What a participant announces of itself: the version of the protocol it
/// speaks, who made it, and where it can be reached by default.
pub struct Participant {
    pub protocol_version: ProtocolVersion,
    pub vendor_id: VendorId,
    pub default_unicast_locator_list: Locator,
    pub default_multicast_locator_list: Locator,
}

} // verus!
