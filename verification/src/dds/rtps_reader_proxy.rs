use vstd::prelude::*;
use std::collections::HashSet;
use crate::common::seq_num_set::{
    at_least,
    within,
    sorted_elements,
    least_element,
    remove_below,
    insert_within,
};
use crate::discovery::DiscoveredReaderData;
use crate::structure::guid::{EntityId, GUID};
use crate::structure::locator::{LocatorList, clone_locators};
use crate::structure::sequence_number::{SequenceNumber, strictly_ascending};

verus! {

/// What a writer knows of one matched reader: where to reach it, which changes
/// it is still owed, which it has asked for again, and how far it has
/// acknowledged.
#[derive(Debug)]
pub struct RtpsReaderProxy {
    /// Identifies the remote matched reader.
    pub remote_reader_guid: GUID,
    /// Identifies the group to which the matched reader belongs.
    pub remote_group_entity_id: EntityId,
    /// Unicast addresses at which the reader can be reached. May be empty.
    pub unicast_locator_list: LocatorList,
    /// Multicast addresses at which the reader can be reached. May be empty.
    pub multicast_locator_list: LocatorList,
    /// Whether the reader expects in-line QoS with every data message.
    pub expects_in_line_qos: bool,
    /// Whether the reader acknowledges what it receives.
    pub is_reliable: bool,
    /// Changes that were never transmitted to the reader.
    pub unsent: HashSet<SequenceNumber>,
    /// Changes that the reader has asked for by a negative acknowledgement.
    pub requested: HashSet<SequenceNumber>,
    /// The reader has acknowledged every change up to this one.
    pub highest_acked: SequenceNumber,
    /// The heartbeats sent to this reader.
    pub heartbeat_count: i32,
}

/// The larger of `highest` and `base - 1`.
pub open spec fn acked_after(highest: SequenceNumber, base: SequenceNumber) -> int {
    if base - 1 > highest {
        base - 1
    } else {
        highest as int
    }
}

impl RtpsReaderProxy {
    /// The changes never transmitted to the reader.
    pub open spec fn unsent_set(&self) -> Set<SequenceNumber> {
        self.unsent@
    }

    /// The changes the reader has asked for again.
    pub open spec fn requested_set(&self) -> Set<SequenceNumber> {
        self.requested@
    }

    /// Everything but the two sets of changes and the acknowledged mark is as
    /// in `other`.
    pub open spec fn same_peer(&self, other: &RtpsReaderProxy) -> bool {
        &&& self.remote_reader_guid == other.remote_reader_guid
        &&& self.remote_group_entity_id == other.remote_group_entity_id
        &&& self.unicast_locator_list == other.unicast_locator_list
        &&& self.multicast_locator_list == other.multicast_locator_list
        &&& self.expects_in_line_qos == other.expects_in_line_qos
        &&& self.is_reliable == other.is_reliable
        &&& self.heartbeat_count == other.heartbeat_count
    }

    /// Whether the reader has acknowledged the change. A reader that is not
    /// reliable never answers, and counts as having acknowledged everything.
    pub open spec fn spec_sequence_is_acked(&self, sequence_number: SequenceNumber) -> bool {
        !self.is_reliable || sequence_number <= self.highest_acked
    }

    /// Whether anything is owed to the reader: a change never sent, or one it
    /// has asked for again.
    pub open spec fn spec_can_send(&self) -> bool {
        exists|s: SequenceNumber| self.unsent_set().contains(s) || self.requested_set().contains(s)
    }

    /// The record of a newly matched reader: nothing is owed to it yet, and it
    /// has acknowledged nothing.
    pub fn new(
        remote_reader_guid: GUID,
        remote_group_entity_id: EntityId,
        unicast_locator_list: LocatorList,
        multicast_locator_list: LocatorList,
        is_reliable: bool,
    ) -> (r: Self)
        ensures
            r.remote_reader_guid == remote_reader_guid,
            r.remote_group_entity_id == remote_group_entity_id,
            r.unicast_locator_list == unicast_locator_list,
            r.multicast_locator_list == multicast_locator_list,
            r.is_reliable == is_reliable,
            !r.expects_in_line_qos,
            r.unsent_set() == Set::<SequenceNumber>::empty(),
            r.requested_set() == Set::<SequenceNumber>::empty(),
            r.highest_acked == 0,
            r.heartbeat_count == 0,
    {
        Self {
            remote_reader_guid,
            remote_group_entity_id,
            unicast_locator_list,
            multicast_locator_list,
            expects_in_line_qos: false,
            is_reliable,
            unsent: HashSet::new(),
            requested: HashSet::new(),
            highest_acked: 0,
            heartbeat_count: 0,
        }
    }

    /// The proxy of the reader that `discovered` describes. There is none
    /// where the description names no reader.
    pub fn from_discovered_reader_data(discovered: &DiscoveredReaderData) -> (r: Option<
        RtpsReaderProxy,
    >)
        ensures
            r is None <==> discovered.reader_proxy.remote_reader_guid is None,
            r matches Some(p) ==> {
                &&& Some(p.remote_reader_guid) == discovered.reader_proxy.remote_reader_guid
                &&& p.remote_group_entity_id == EntityId::spec_unknown()
                &&& p.unicast_locator_list@ == discovered.reader_proxy.unicast_locator_list@
                &&& p.multicast_locator_list@ == discovered.reader_proxy.multicast_locator_list@
                &&& p.expects_in_line_qos == discovered.reader_proxy.expects_inline_qos
                &&& p.is_reliable == discovered.reliable
                &&& p.unsent_set() == Set::<SequenceNumber>::empty()
                &&& p.requested_set() == Set::<SequenceNumber>::empty()
                &&& p.highest_acked == 0
                &&& p.heartbeat_count == 0
            },
    {
        let guid = match &discovered.reader_proxy.remote_reader_guid {
            Some(g) => *g,
            None => {
                return None;
            },
        };
        Some(
            RtpsReaderProxy {
                remote_reader_guid: guid,
                remote_group_entity_id: EntityId::unknown(),
                unicast_locator_list: clone_locators(&discovered.reader_proxy.unicast_locator_list),
                multicast_locator_list: clone_locators(
                    &discovered.reader_proxy.multicast_locator_list,
                ),
                expects_in_line_qos: discovered.reader_proxy.expects_inline_qos,
                is_reliable: discovered.reliable,
                unsent: HashSet::new(),
                requested: HashSet::new(),
                highest_acked: 0,
                heartbeat_count: 0,
            },
        )
    }

    /// The changes never transmitted to the reader, in ascending order.
    pub fn unsent_changes(&self) -> (r: Vec<SequenceNumber>)
        ensures
            strictly_ascending(r@),
            r@.to_set() == self.unsent_set(),
    {
        sorted_elements(&self.unsent)
    }

    /// The changes the reader has asked for again, in ascending order.
    pub fn requested_changes(&self) -> (r: Vec<SequenceNumber>)
        ensures
            strictly_ascending(r@),
            r@.to_set() == self.requested_set(),
    {
        sorted_elements(&self.requested)
    }

    /// The lowest change never transmitted to the reader.
    pub fn next_unsent_change(&self) -> (r: Option<SequenceNumber>)
        ensures
            r is None <==> self.unsent_set() =~= Set::<SequenceNumber>::empty(),
            r matches Some(m) ==> self.unsent_set().contains(m) && forall|x: SequenceNumber|
                self.unsent_set().contains(x) ==> m <= x,
    {
        least_element(&self.unsent)
    }

    /// The lowest change the reader has asked for again.
    pub fn next_requested_change(&self) -> (r: Option<SequenceNumber>)
        ensures
            r is None <==> self.requested_set() =~= Set::<SequenceNumber>::empty(),
            r matches Some(m) ==> self.requested_set().contains(m) && forall|x: SequenceNumber|
                self.requested_set().contains(x) ==> m <= x,
    {
        least_element(&self.requested)
    }

    /// Marks `sequence_number` as transmitted.
    pub fn remove_unsend_change(&mut self, sequence_number: SequenceNumber)
        ensures
            final(self).unsent_set() == old(self).unsent_set().remove(sequence_number),
            final(self).requested_set() == old(self).requested_set(),
            final(self).highest_acked == old(self).highest_acked,
            final(self).same_peer(old(self)),
    {
        self.unsent.remove(&sequence_number);
    }

    /// Marks `sequence_number` as no longer asked for.
    pub fn remove_requested_change(&mut self, sequence_number: SequenceNumber)
        ensures
            final(self).requested_set() == old(self).requested_set().remove(sequence_number),
            final(self).unsent_set() == old(self).unsent_set(),
            final(self).highest_acked == old(self).highest_acked,
            final(self).same_peer(old(self)),
    {
        self.requested.remove(&sequence_number);
    }

    /// Called after the writer has published `new_last_seq`: the reader is
    /// now owed that change.
    pub fn unsend_changes_set(&mut self, new_last_seq: SequenceNumber)
        ensures
            final(self).unsent_set() == old(self).unsent_set().insert(new_last_seq),
            final(self).requested_set() == old(self).requested_set(),
            final(self).highest_acked == old(self).highest_acked,
            final(self).same_peer(old(self)),
    {
        self.unsent.insert(new_last_seq);
    }

    /// Called on a negative acknowledgement: the reader asks for `requested`
    /// again. Only what the writer still holds, the changes from `first` to
    /// `last`, is taken up.
    pub fn add_requested_changes(
        &mut self,
        requested: &Vec<SequenceNumber>,
        first: SequenceNumber,
        last: SequenceNumber,
    )
        ensures
            final(self).requested_set() == old(self).requested_set().union(
                within(requested@, first, last),
            ),
            final(self).unsent_set() == old(self).unsent_set(),
            final(self).highest_acked == old(self).highest_acked,
            final(self).same_peer(old(self)),
    {
        insert_within(&mut self.requested, requested, first, last);
    }

    /// Called on a positive acknowledgement: the reader has every change below
    /// `base`. The acknowledged mark rises to `base - 1` unless it is there or
    /// higher already, and nothing below `base` stays owed or asked for.
    pub fn acked_changes_set(&mut self, base: SequenceNumber)
        ensures
            final(self).highest_acked == acked_after(old(self).highest_acked, base),
            final(self).highest_acked >= old(self).highest_acked,
            final(self).unsent_set() == at_least(old(self).unsent_set(), base),
            final(self).requested_set() == at_least(old(self).requested_set(), base),
            final(self).same_peer(old(self)),
    {
        if base > i64::MIN {
            if base - 1 > self.highest_acked {
                self.highest_acked = base - 1;
            }
        }
        remove_below(&mut self.unsent, base);
        remove_below(&mut self.requested, base);
    }

    /// Whether the reader has acknowledged `sequence_number`. A best-effort
    /// reader acknowledges nothing and counts as having everything.
    #[verifier::when_used_as_spec(spec_sequence_is_acked)]
    pub fn sequence_is_acked(&self, sequence_number: SequenceNumber) -> (r: bool)
        ensures
            r == self.spec_sequence_is_acked(sequence_number),
    {
        if !self.is_reliable {
            return true;
        }
        sequence_number <= self.highest_acked
    }

    /// Whether anything is owed to the reader or asked for by it.
    #[verifier::when_used_as_spec(spec_can_send)]
    pub fn can_send(&self) -> (r: bool)
        ensures
            r == self.spec_can_send(),
    {
        let r = !self.unsent.is_empty() || !self.requested.is_empty();
        proof {
            if !r {
                assert forall|s: SequenceNumber|
                    !(self.unsent_set().contains(s) || self.requested_set().contains(s)) by {}
            } else if !self.unsent@.is_empty() {
                let s = choose|s: SequenceNumber| self.unsent@.contains(s);
                assert(self.unsent_set().contains(s));
            } else {
                let s = choose|s: SequenceNumber| self.requested@.contains(s);
                assert(self.requested_set().contains(s));
            }
        }
        r
    }

    /// Counts one more heartbeat sent to this reader.
    pub fn increase_heartbeat_count(&mut self)
        ensures
            final(self).heartbeat_count == if old(self).heartbeat_count == i32::MAX {
                i32::MAX
            } else {
                (old(self).heartbeat_count + 1) as i32
            },
            final(self).remote_reader_guid == old(self).remote_reader_guid,
            final(self).remote_group_entity_id == old(self).remote_group_entity_id,
            final(self).unicast_locator_list == old(self).unicast_locator_list,
            final(self).multicast_locator_list == old(self).multicast_locator_list,
            final(self).expects_in_line_qos == old(self).expects_in_line_qos,
            final(self).unsent_set() == old(self).unsent_set(),
            final(self).requested_set() == old(self).requested_set(),
            final(self).highest_acked == old(self).highest_acked,
            final(self).is_reliable == old(self).is_reliable,
    {
        if self.heartbeat_count < i32::MAX {
            self.heartbeat_count = self.heartbeat_count + 1;
        }
    }
}

} // verus!
