use vstd::prelude::*;
use std::collections::HashMap;
use crate::common::sorted::{sorted_distinct, lemma_push_to_set};
use crate::discovery::DiscoveredWriterData;
use crate::structure::guid::{EntityId, GUID};
use crate::structure::locator::{LocatorList, clone_locators};
use crate::structure::sequence_number::{SequenceNumber, seq_range, strictly_ascending};
use crate::structure::time::Instant;

verus! {

/// `m` is in `s` and nothing in `s` is below it.
pub open spec fn is_least(s: Set<SequenceNumber>, m: SequenceNumber) -> bool {
    s.contains(m) && forall|x: SequenceNumber| s.contains(x) ==> m <= x
}

/// `m` is in `s` and nothing in `s` is above it.
pub open spec fn is_greatest(s: Set<SequenceNumber>, m: SequenceNumber) -> bool {
    s.contains(m) && forall|x: SequenceNumber| s.contains(x) ==> m >= x
}

/// Where the search for missing changes starts: at the least received
/// sequence number, but not below 1; at 1 when nothing was received.
pub open spec fn missing_lower_bound(received: Set<SequenceNumber>) -> int {
    if exists|m: SequenceNumber| is_least(received, m) {
        let m = choose|m: SequenceNumber| is_least(received, m);
        if m < 1 {
            1
        } else {
            m as int
        }
    } else {
        1
    }
}

/// The sequence numbers from the lower bound up to, not including, `hb_last`
/// that were not received.
pub open spec fn missing_set(received: Set<SequenceNumber>, hb_last: SequenceNumber) -> Set<
    SequenceNumber,
> {
    Set::new(
        |s: SequenceNumber| missing_lower_bound(received) <= s < hb_last && !received.contains(s),
    )
}

/// The keys of `m` that are below `bound`.
pub open spec fn keys_below(m: Map<SequenceNumber, Instant>, bound: SequenceNumber) -> Set<
    SequenceNumber,
> {
    Set::new(|k: SequenceNumber| m.contains_key(k) && k < bound)
}

/// `m` without its keys below `bound`.
pub open spec fn from_key(m: Map<SequenceNumber, Instant>, bound: SequenceNumber) -> Map<
    SequenceNumber,
    Instant,
> {
    m.restrict(Set::new(|k: SequenceNumber| k >= bound))
}

/// What a reader knows of one matched writer: where to reach it, which of its
/// changes have arrived and when, and the counters that pace acknowledgements.
#[derive(Debug)]
pub struct RtpsWriterProxy {
    /// Identifies the remote matched writer.
    pub remote_writer_guid: GUID,
    /// Unicast addresses at which the writer can be reached. May be empty.
    pub unicast_locator_list: LocatorList,
    /// Multicast addresses at which the writer can be reached. May be empty.
    pub multicast_locator_list: LocatorList,
    /// Identifies the group to which the matched writer belongs.
    pub remote_group_entity_id: EntityId,
    /// The sequence numbers received from the writer, each with the instant of
    /// its arrival.
    pub changes: HashMap<SequenceNumber, Instant>,
    /// The highest sequence number the writer is known to have reached.
    pub hb_last_seen: SequenceNumber,
    pub received_heartbeat_count: i32,
    pub sent_ack_nack_count: i32,
}

impl RtpsWriterProxy {
    /// The sequence numbers received, each with the instant of its arrival.
    pub open spec fn received(&self) -> Map<SequenceNumber, Instant> {
        self.changes@
    }

    /// The highest sequence number the writer is known to have reached.
    pub open spec fn hb_last(&self) -> SequenceNumber {
        self.hb_last_seen
    }

    /// Every received sequence number lies between 1 and `hb_last()`.
    pub open spec fn wf(&self) -> bool {
        &&& self.received().dom().finite()
        &&& forall|k: SequenceNumber|
            self.received().contains_key(k) ==> 1 <= k <= self.hb_last()
    }

    /// The record of a newly matched writer: nothing was received from it, and
    /// no heartbeat was seen.
    pub fn new(
        remote_writer_guid: GUID,
        unicast_locator_list: LocatorList,
        multicast_locator_list: LocatorList,
        remote_group_entity_id: EntityId,
    ) -> (r: Self)
        ensures
            r.wf(),
            r.remote_writer_guid == remote_writer_guid,
            r.unicast_locator_list == unicast_locator_list,
            r.multicast_locator_list == multicast_locator_list,
            r.remote_group_entity_id == remote_group_entity_id,
            r.received() == Map::<SequenceNumber, Instant>::empty(),
            r.hb_last() == 0,
            r.received_heartbeat_count == 0,
            r.sent_ack_nack_count == 0,
    {
        Self {
            remote_writer_guid,
            unicast_locator_list,
            multicast_locator_list,
            remote_group_entity_id,
            changes: HashMap::new(),
            hb_last_seen: 0,
            received_heartbeat_count: 0,
            sent_ack_nack_count: 0,
        }
    }

    /// Takes over the addresses and the group of `other`; what was received
    /// stays.
    pub fn update_contents(&mut self, other: RtpsWriterProxy)
        ensures
            final(self).unicast_locator_list == other.unicast_locator_list,
            final(self).multicast_locator_list == other.multicast_locator_list,
            final(self).remote_group_entity_id == other.remote_group_entity_id,
            final(self).remote_writer_guid == old(self).remote_writer_guid,
            final(self).received() == old(self).received(),
            final(self).hb_last() == old(self).hb_last(),
            final(self).received_heartbeat_count == old(self).received_heartbeat_count,
            final(self).sent_ack_nack_count == old(self).sent_ack_nack_count,
    {
        self.unicast_locator_list = other.unicast_locator_list;
        self.multicast_locator_list = other.multicast_locator_list;
        self.remote_group_entity_id = other.remote_group_entity_id;
    }

    /// The last sequence number that a heartbeat of the writer announced.
    pub fn hb_last_seen(&self) -> (r: SequenceNumber)
        ensures
            r == self.hb_last(),
    {
        self.hb_last_seen
    }

    /// Records the last sequence number that a heartbeat announced. The known
    /// last sequence number never goes down.
    pub fn update_hb_last_seen(&mut self, hb_last_sn: SequenceNumber)
        requires
            old(self).wf(),
        ensures
            final(self).wf(),
            final(self).hb_last() == if hb_last_sn > old(self).hb_last() {
                hb_last_sn
            } else {
                old(self).hb_last()
            },
            final(self).received() == old(self).received(),
            final(self).remote_writer_guid == old(self).remote_writer_guid,
            final(self).unicast_locator_list == old(self).unicast_locator_list,
            final(self).multicast_locator_list == old(self).multicast_locator_list,
            final(self).remote_group_entity_id == old(self).remote_group_entity_id,
            final(self).received_heartbeat_count == old(self).received_heartbeat_count,
            final(self).sent_ack_nack_count == old(self).sent_ack_nack_count,
    {
        if hb_last_sn > self.hb_last_seen {
            self.hb_last_seen = hb_last_sn;
        }
    }

    /// The received sequence numbers, in no particular order.
    fn keys(&self) -> (r: Vec<SequenceNumber>)
        ensures
            r@.no_duplicates(),
            r@.to_set() == self.received().dom(),
            r@.len() == self.received().dom().len(),
    {
        let mut out: Vec<SequenceNumber> = Vec::new();
        for k in it: self.changes.keys()
            invariant
                it.seq().unref().to_set() == self.changes@.dom(),
                it.seq().len() == self.changes@.dom().len(),
                it.seq().unref().no_duplicates(),
                out@ == it.seq().unref().subrange(0, it.index() as int),
                it.index() == it.seq().len() ==> out@ == it.seq().unref(),
        {
            assert(it.seq().unref()[it.index() as int] == *k);
            out.push(*k);
            assert(out@ =~= it.seq().unref().subrange(0, it.index() + 1));
            assert(it.index() + 1 == it.seq().len() ==> out@ =~= it.seq().unref());
        }
        out
    }

    /// Whether a change below `hb_last_sn` is missing.
    pub fn changes_are_missing(&self, hb_last_sn: SequenceNumber) -> (r: bool)
        requires
            self.wf(),
        ensures
            r <==> exists|s: SequenceNumber|
                missing_set(self.received().dom(), hb_last_sn).contains(s),
    {
        let mut s: SequenceNumber = match self.available_changes_min() {
            Some(m) => *m,
            None => 1,
        };
        proof {
            lemma_lower_bound(self.received().dom(), s);
        }
        let ghost lb = s;
        while s < hb_last_sn
            invariant
                lb <= s,
                lb == missing_lower_bound(self.received().dom()),
                forall|x: SequenceNumber| lb <= x < s ==> self.received().contains_key(x),
            decreases hb_last_sn - s,
        {
            if !self.changes.contains_key(&s) {
                assert(missing_set(self.received().dom(), hb_last_sn).contains(s));
                return true;
            }
            s = s + 1;
        }
        false
    }

    /// The least change below `hb_last_sn` that is missing.
    pub fn first_missing_change(&self, hb_last_sn: SequenceNumber) -> (r: Option<SequenceNumber>)
        requires
            self.wf(),
        ensures
            r is None <==> forall|s: SequenceNumber|
                !missing_set(self.received().dom(), hb_last_sn).contains(s),
            r matches Some(m) ==> is_least(missing_set(self.received().dom(), hb_last_sn), m),
    {
        let mut s: SequenceNumber = match self.available_changes_min() {
            Some(m) => *m,
            None => 1,
        };
        proof {
            lemma_lower_bound(self.received().dom(), s);
        }
        let ghost lb = s;
        while s < hb_last_sn
            invariant
                lb <= s,
                lb == missing_lower_bound(self.received().dom()),
                forall|x: SequenceNumber| lb <= x < s ==> self.received().contains_key(x),
            decreases hb_last_sn - s,
        {
            if !self.changes.contains_key(&s) {
                assert(missing_set(self.received().dom(), hb_last_sn).contains(s));
                return Some(s);
            }
            s = s + 1;
        }
        None
    }

    /// Marks `seq_num` as received at `instant`. A sequence number below 1
    /// names no sample and is ignored. Adding one a second time only renews
    /// its instant.
    pub fn received_changes_add(&mut self, seq_num: SequenceNumber, instant: Instant)
        requires
            old(self).wf(),
        ensures
            final(self).wf(),
            seq_num >= 1 ==> final(self).received() == old(self).received().insert(
                seq_num,
                instant,
            ),
            seq_num >= 1 ==> final(self).hb_last() == if seq_num > old(self).hb_last() {
                seq_num
            } else {
                old(self).hb_last()
            },
            seq_num < 1 ==> final(self).received() == old(self).received(),
            seq_num < 1 ==> final(self).hb_last() == old(self).hb_last(),
            final(self).remote_writer_guid == old(self).remote_writer_guid,
            final(self).unicast_locator_list == old(self).unicast_locator_list,
            final(self).multicast_locator_list == old(self).multicast_locator_list,
            final(self).remote_group_entity_id == old(self).remote_group_entity_id,
            final(self).received_heartbeat_count == old(self).received_heartbeat_count,
            final(self).sent_ack_nack_count == old(self).sent_ack_nack_count,
    {
        if seq_num >= 1 {
            if seq_num > self.hb_last_seen {
                self.hb_last_seen = seq_num;
            }
            self.changes.insert(seq_num, instant);
        }
    }

    /// The greatest sequence number received.
    pub fn available_changes_max(&self) -> (r: Option<SequenceNumber>)
        ensures
            r is None <==> self.received().dom() =~= Set::<SequenceNumber>::empty(),
            r matches Some(m) ==> is_greatest(self.received().dom(), m),
    {
        let mut best: Option<SequenceNumber> = None;
        for k in it: self.changes.keys()
            invariant
                it.seq().unref().to_set() == self.changes@.dom(),
                it.seq().len() == self.changes@.dom().len(),
                best is None <==> it.index() == 0,
                best matches Some(b) ==> self.changes@.dom().contains(b) && forall|j: int|
                    0 <= j < it.index() ==> b >= #[trigger] it.seq().unref()[j],
        {
            assert(it.seq().unref()[it.index() as int] == *k);
            assert(it.seq().unref().to_set().contains(*k));
            match best {
                None => {
                    best = Some(*k);
                },
                Some(b) => {
                    if *k > b {
                        best = Some(*k);
                    }
                },
            }
        }
        best
    }

    /// The least sequence number received.
    pub fn available_changes_min(&self) -> (r: Option<&SequenceNumber>)
        ensures
            r is None <==> self.received().dom() =~= Set::<SequenceNumber>::empty(),
            r matches Some(m) ==> is_least(self.received().dom(), *m),
    {
        let mut best: Option<&SequenceNumber> = None;
        for k in it: self.changes.keys()
            invariant
                it.seq().unref().to_set() == self.changes@.dom(),
                it.seq().len() == self.changes@.dom().len(),
                best is None <==> it.index() == 0,
                best matches Some(b) ==> self.changes@.dom().contains(*b) && forall|j: int|
                    0 <= j < it.index() ==> *b <= #[trigger] it.seq().unref()[j],
        {
            assert(it.seq().unref()[it.index() as int] == *k);
            assert(it.seq().unref().to_set().contains(*k));
            match best {
                None => {
                    best = Some(k);
                },
                Some(b) => {
                    if *k < *b {
                        best = Some(k);
                    }
                },
            }
        }
        best
    }

    /// Forgets that `seq_num` was received and returns the instant at which
    /// it had arrived.
    pub fn set_irrelevant_change(&mut self, seq_num: SequenceNumber) -> (r: Instant)
        requires
            old(self).wf(),
            old(self).received().contains_key(seq_num),
        ensures
            final(self).wf(),
            r == old(self).received()[seq_num],
            final(self).received() == old(self).received().remove(seq_num),
            final(self).hb_last() == old(self).hb_last(),
            final(self).remote_writer_guid == old(self).remote_writer_guid,
            final(self).unicast_locator_list == old(self).unicast_locator_list,
            final(self).multicast_locator_list == old(self).multicast_locator_list,
            final(self).remote_group_entity_id == old(self).remote_group_entity_id,
            final(self).received_heartbeat_count == old(self).received_heartbeat_count,
            final(self).sent_ack_nack_count == old(self).sent_ack_nack_count,
    {
        match self.changes.remove(&seq_num) {
            Some(i) => i,
            None => Instant { nanos: 0 },
        }
    }

    /// Forgets every received sequence number below `smallest_seqnum` and
    /// returns the instants at which they had arrived, in ascending order of
    /// their sequence numbers.
    pub fn irrelevant_changes_up_to(&mut self, smallest_seqnum: SequenceNumber) -> (r: Vec<
        Instant,
    >)
        requires
            old(self).wf(),
        ensures
            final(self).wf(),
            final(self).received() == from_key(old(self).received(), smallest_seqnum),
            forall|k: SequenceNumber|
                final(self).received().contains_key(k) ==> k >= smallest_seqnum,
            exists|ks: Seq<SequenceNumber>|
                #![trigger strictly_ascending(ks)]
                strictly_ascending(ks) && ks.to_set() == keys_below(
                    old(self).received(),
                    smallest_seqnum,
                ) && r@ == ks.map_values(|k: SequenceNumber| old(self).received()[k]),
            final(self).hb_last() == old(self).hb_last(),
            final(self).remote_writer_guid == old(self).remote_writer_guid,
            final(self).unicast_locator_list == old(self).unicast_locator_list,
            final(self).multicast_locator_list == old(self).multicast_locator_list,
            final(self).remote_group_entity_id == old(self).remote_group_entity_id,
            final(self).received_heartbeat_count == old(self).received_heartbeat_count,
            final(self).sent_ack_nack_count == old(self).sent_ack_nack_count,
    {
        let all = self.keys();
        let mut remove: Vec<SequenceNumber> = Vec::new();
        let mut i: usize = 0;
        while i < all.len()
            invariant
                i <= all.len(),
                all@.no_duplicates(),
                remove@.no_duplicates(),
                forall|x: SequenceNumber|
                    remove@.contains(x) <==> (all@.subrange(0, i as int).contains(x) && x
                        < smallest_seqnum),
            decreases all.len() - i,
        {
            let ghost before = remove@;
            let ghost pre = all@.subrange(0, i as int);
            let ghost cur = all@.subrange(0, i as int + 1);
            let k = all[i];
            assert(cur =~= pre.push(k));
            if k < smallest_seqnum {
                assert(!pre.contains(k)) by {
                    if pre.contains(k) {
                        let j = choose|j: int| 0 <= j < pre.len() && pre[j] == k;
                        assert(all@[j] == all@[i as int]);
                    }
                }
                assert(!before.contains(k));
                remove.push(k);
                assert(remove@ =~= before.push(k));
                assert forall|a: int, b: int|
                    0 <= a < remove@.len() && 0 <= b < remove@.len() && a != b implies remove@[a]
                    != remove@[b] by {
                    if a < before.len() && b < before.len() {
                        assert(before[a] != before[b]);
                    } else if a < before.len() {
                        assert(before.contains(before[a]));
                    } else {
                        assert(before.contains(before[b]));
                    }
                }
            }
            proof {
                assert forall|x: SequenceNumber| remove@.contains(x) <==> (cur.contains(x) && x
                    < smallest_seqnum) by {
                    if remove@.contains(x) {
                        let j = choose|j: int| 0 <= j < remove@.len() && remove@[j] == x;
                        if j < before.len() {
                            assert(before[j] == x);
                            assert(before.contains(x));
                            let jj = choose|jj: int| 0 <= jj < pre.len() && pre[jj] == x;
                            assert(cur[jj] == x);
                        } else {
                            assert(cur[i as int] == x);
                        }
                    }
                    if cur.contains(x) && x < smallest_seqnum {
                        let j = choose|j: int| 0 <= j < cur.len() && cur[j] == x;
                        if j < i {
                            assert(pre[j] == x);
                            assert(before.contains(x));
                            let jj = choose|jj: int| 0 <= jj < before.len() && before[jj] == x;
                            assert(remove@[jj] == x);
                        } else {
                            assert(remove@[before.len() as int] == x);
                        }
                    }
                }
            }
            i += 1;
        }
        proof {
            assert(all@.subrange(0, all.len() as int) =~= all@);
        }
        let ordered = sorted_distinct(&remove);
        proof {
            assert forall|x: SequenceNumber| ordered@.to_set().contains(x) <==> keys_below(
                self.received(),
                smallest_seqnum,
            ).contains(x) by {
                assert(ordered@.to_set().contains(x) <==> remove@.to_set().contains(x));
                assert(all@.to_set().contains(x) <==> self.received().dom().contains(x));
            }
            assert(ordered@.to_set() =~= keys_below(self.received(), smallest_seqnum));
        }
        let mut instants: Vec<Instant> = Vec::new();
        let mut j: usize = 0;
        while j < ordered.len()
            invariant
                j <= ordered.len(),
                strictly_ascending(ordered@),
                ordered@.to_set() == keys_below(old(self).received(), smallest_seqnum),
                self.hb_last_seen == old(self).hb_last_seen,
                self.remote_writer_guid == old(self).remote_writer_guid,
                self.unicast_locator_list == old(self).unicast_locator_list,
                self.multicast_locator_list == old(self).multicast_locator_list,
                self.remote_group_entity_id == old(self).remote_group_entity_id,
                self.received_heartbeat_count == old(self).received_heartbeat_count,
                self.sent_ack_nack_count == old(self).sent_ack_nack_count,
                self.received() == old(self).received().remove_keys(
                    ordered@.subrange(0, j as int).to_set(),
                ),
                instants@ == ordered@.subrange(0, j as int).map_values(
                    |k: SequenceNumber| old(self).received()[k],
                ),
            decreases ordered.len() - j,
        {
            let rm = ordered[j];
            let ghost before = instants@;
            let ghost before_map = self.received();
            assert(ordered@.to_set().contains(rm));
            assert(old(self).received().contains_key(rm));
            assert(!ordered@.subrange(0, j as int).to_set().contains(rm)) by {
                if ordered@.subrange(0, j as int).contains(rm) {
                    let q = choose|q: int|
                        0 <= q < j && ordered@.subrange(0, j as int)[q] == rm;
                    assert(ordered@[q] < ordered@[j as int]);
                }
            }
            match self.changes.remove(&rm) {
                Some(i) => {
                    instants.push(i);
                },
                None => (),
            }
            proof {
                let pre = ordered@.subrange(0, j as int);
                let cur = ordered@.subrange(0, j as int + 1);
                assert(cur =~= pre.push(rm));
                lemma_push_to_set(pre, rm);
                assert(self.received() =~= old(self).received().remove_keys(cur.to_set()));
                assert(instants@ =~= cur.map_values(|k: SequenceNumber| old(self).received()[k]));
            }
            j += 1;
        }
        proof {
            assert(ordered@.subrange(0, ordered.len() as int) =~= ordered@);
            assert(self.received() =~= from_key(old(self).received(), smallest_seqnum));
            assert(strictly_ascending(ordered@));
        }
        instants
    }

    /// The sequence numbers below `hb_last_sn` that are missing, in ascending
    /// order.
    pub fn missing_changes(&self, hb_last_sn: SequenceNumber) -> (r: Vec<SequenceNumber>)
        requires
            self.wf(),
        ensures
            strictly_ascending(r@),
            r@.to_set() == missing_set(self.received().dom(), hb_last_sn),
    {
        let mut result: Vec<SequenceNumber> = Vec::new();
        let mut s: SequenceNumber = match self.available_changes_min() {
            Some(m) => *m,
            None => 1,
        };
        proof {
            lemma_lower_bound(self.received().dom(), s);
        }
        let ghost lb = s;
        while s < hb_last_sn
            invariant
                lb <= s,
                s <= hb_last_sn || s == lb,
                lb == missing_lower_bound(self.received().dom()),
                strictly_ascending(result@),
                forall|i: int| 0 <= i < result@.len() ==> result@[i] < s,
                forall|x: SequenceNumber|
                    result@.contains(x) <==> (lb <= x < s && !self.received().contains_key(x)),
            decreases hb_last_sn - s,
        {
            let ghost before = result@;
            if !self.changes.contains_key(&s) {
                result.push(s);
                assert forall|x: SequenceNumber| result@.contains(x) <==> (lb <= x < s + 1
                    && !self.received().contains_key(x)) by {
                    if result@.contains(x) {
                        let j = choose|j: int| 0 <= j < result@.len() && result@[j] == x;
                        if j < before.len() {
                            assert(before[j] == x);
                            assert(before.contains(x));
                        }
                    }
                    if lb <= x < s + 1 && !self.received().contains_key(x) {
                        if x < s {
                            assert(before.contains(x));
                            let j = choose|j: int| 0 <= j < before.len() && before[j] == x;
                            assert(result@[j] == x);
                        } else {
                            assert(result@[before.len() as int] == x);
                        }
                    }
                }
            }
            s = s + 1;
        }
        proof {
            assert forall|x: SequenceNumber| result@.to_set().contains(x) <==> missing_set(
                self.received().dom(),
                hb_last_sn,
            ).contains(x) by {
                if lb <= x < hb_last_sn {
                    assert(x < s);
                }
            }
            assert(result@.to_set() =~= missing_set(self.received().dom(), hb_last_sn));
        }
        result
    }

    /// The proxy of the writer that `discovered_writer_data` describes. There
    /// is none where the description names no writer.
    pub fn from_discovered_writer_data(discovered_writer_data: &DiscoveredWriterData) -> (r:
        Option<RtpsWriterProxy>)
        ensures
            r is None <==> discovered_writer_data.writer_proxy.remote_writer_guid is None,
            r matches Some(p) ==> {
                &&& p.wf()
                &&& Some(p.remote_writer_guid)
                    == discovered_writer_data.writer_proxy.remote_writer_guid
                &&& p.remote_group_entity_id == EntityId::spec_unknown()
                &&& p.unicast_locator_list@
                    == discovered_writer_data.writer_proxy.unicast_locator_list@
                &&& p.multicast_locator_list@
                    == discovered_writer_data.writer_proxy.multicast_locator_list@
                &&& p.received() == Map::<SequenceNumber, Instant>::empty()
                &&& p.hb_last() == 0
                &&& p.received_heartbeat_count == 0
                &&& p.sent_ack_nack_count == 0
            },
    {
        let remote_writer_guid = match &discovered_writer_data.writer_proxy.remote_writer_guid {
            Some(v) => *v,
            None => {
                return None;
            },
        };
        Some(
            RtpsWriterProxy {
                remote_writer_guid,
                remote_group_entity_id: EntityId::unknown(),
                unicast_locator_list: clone_locators(
                    &discovered_writer_data.writer_proxy.unicast_locator_list,
                ),
                multicast_locator_list: clone_locators(
                    &discovered_writer_data.writer_proxy.multicast_locator_list,
                ),
                changes: HashMap::new(),
                hb_last_seen: 0,
                received_heartbeat_count: 0,
                sent_ack_nack_count: 0,
            },
        )
    }
}

/// Where every element of a set is at least 1, the search for missing changes
/// starts at its least element, or at 1 where the set is empty.
pub proof fn lemma_lower_bound(received: Set<SequenceNumber>, s: SequenceNumber)
    requires
        forall|k: SequenceNumber| received.contains(k) ==> 1 <= k,
        is_least(received, s) || (received =~= Set::<SequenceNumber>::empty() && s == 1),
    ensures
        missing_lower_bound(received) == s,
{
    if is_least(received, s) {
        let m = choose|m: SequenceNumber| is_least(received, m);
        assert(m <= s && s <= m);
    } else {
        assert forall|m: SequenceNumber| !is_least(received, m) by {}
    }
}

/// The missing changes are the range from the least received sequence number
/// (from 1, where none was received) up to, not including, `hb_last_sn`,
/// without what was received.
pub proof fn lemma_missing_set_is_range_without_received(
    proxy: RtpsWriterProxy,
    hb_last_sn: SequenceNumber,
)
    requires
        proxy.wf(),
    ensures
        forall|m: SequenceNumber| #[trigger]
            is_least(proxy.received().dom(), m) ==> missing_set(
                proxy.received().dom(),
                hb_last_sn,
            ) == seq_range(m as int, hb_last_sn as int).difference(proxy.received().dom()),
        proxy.received().dom() =~= Set::<SequenceNumber>::empty() ==> missing_set(
            proxy.received().dom(),
            hb_last_sn,
        ) == seq_range(1, hb_last_sn as int),
{
    let dom = proxy.received().dom();
    assert forall|m: SequenceNumber| #[trigger] is_least(dom, m) implies missing_set(
        dom,
        hb_last_sn,
    ) == seq_range(m as int, hb_last_sn as int).difference(dom) by {
        lemma_lower_bound(dom, m);
        assert(missing_set(dom, hb_last_sn) =~= seq_range(
            m as int,
            hb_last_sn as int,
        ).difference(dom));
    }
    if dom =~= Set::<SequenceNumber>::empty() {
        lemma_lower_bound(dom, 1);
        assert(missing_set(dom, hb_last_sn) =~= seq_range(1, hb_last_sn as int));
    }
}

} // verus!
