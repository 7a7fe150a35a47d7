use vstd::prelude::*;
use crate::common::seq_num_set::{at_least, within};
use crate::common::timed_event_handler::Timeout;
use crate::dds::qos::History;
use crate::dds::rtps_reader_proxy::{RtpsReaderProxy, acked_after};
use crate::dds::writer::{
    Writer,
    acked_by_all,
    acked_prefix_len,
    cache_contiguous,
    cache_first,
    cleaning_depth,
    evicted_by_cleaning,
    evicted_under,
    writer_inv,
};
use crate::dds::writer_state::{
    acked_count,
    lemma_cleaning_keeps_depth,
    lemma_from_sequence_number_contiguous,
    lemma_reader_index,
    reader_index,
};
use crate::messages::submessages::AckNack;
use crate::network::constant::TimerMessageType;
use crate::structure::cache_change::CacheChangeView;
use crate::structure::history_cache::lemma_timed_filter;
use crate::structure::guid::{EntityId, GuidPrefix, GUID};
use crate::structure::sequence_number::SequenceNumber;
use crate::structure::time::Instant;

verus! {

/// `new` are the readers `old`, each with no more owed or asked for than
/// before but for sequence numbers between 1 and `last`.
pub open spec fn readers_follow(
    new: Seq<RtpsReaderProxy>,
    old: Seq<RtpsReaderProxy>,
    last: SequenceNumber,
) -> bool {
    &&& new.len() == old.len()
    &&& forall|i: int| 0 <= i < new.len() ==> (#[trigger] new[i]).same_peer(&old[i])
    &&& forall|i: int, s: SequenceNumber|
        0 <= i < new.len() && #[trigger] new[i].unsent_set().contains(s) ==> old[i].unsent_set().contains(
            s,
        ) || 1 <= s <= last
    &&& forall|i: int, s: SequenceNumber|
        0 <= i < new.len() && #[trigger] new[i].requested_set().contains(s)
            ==> old[i].requested_set().contains(s) || 1 <= s <= last
}

/// What holds of a writer still holds when its readers are followed by
/// others in the sense of `readers_follow`.
pub proof fn lemma_inv_readers(
    first: SequenceNumber,
    last: SequenceNumber,
    guid: GUID,
    cache: Seq<CacheChangeView>,
    instants: Map<SequenceNumber, Instant>,
    old: Seq<RtpsReaderProxy>,
    new: Seq<RtpsReaderProxy>,
)
    requires
        writer_inv(first, last, guid, cache, instants, old),
        readers_follow(new, old, last),
    ensures
        writer_inv(first, last, guid, cache, instants, new),
{
    assert forall|i: int, s: SequenceNumber|
        0 <= i < new.len() && #[trigger] new[i].unsent_set().contains(s) implies 1 <= s
        <= last by {
        if old[i].unsent_set().contains(s) {
        }
    }
    assert forall|i: int, s: SequenceNumber|
        0 <= i < new.len() && #[trigger] new[i].requested_set().contains(s) implies 1 <= s
        <= last by {
        if old[i].requested_set().contains(s) {
        }
    }
    assert forall|i: int, j: int| 0 <= i < j < new.len() implies !((
    #[trigger] new[i]).remote_group_entity_id == (#[trigger] new[j]).remote_group_entity_id
        && new[i].remote_reader_guid == new[j].remote_reader_guid) by {
        assert(new[i].same_peer(&old[i]));
        assert(new[j].same_peer(&old[j]));
    }
}

impl Writer {
    /// The least index of a matched reader with GUID `guid`.
    pub fn matched_reader_index(&self, guid: GUID) -> (r: Option<usize>)
        ensures
            r is None <==> reader_index(self.readers@, guid) == self.readers@.len(),
            r matches Some(i) ==> i == reader_index(self.readers@, guid) && i
                < self.readers@.len(),
    {
        proof {
            lemma_reader_index(self.readers@, guid);
        }
        let mut i: usize = 0;
        while i < self.readers.len()
            invariant
                i <= self.readers.len(),
                forall|j: int| 0 <= j < i ==> (#[trigger] self.readers@[j]).remote_reader_guid != guid,
            decreases self.readers.len() - i,
        {
            if self.readers[i].remote_reader_guid == guid {
                proof {
                    lemma_reader_index(self.readers@, guid);
                    let f = reader_index(self.readers@, guid);
                    if f < i {
                        assert(self.readers@[f].remote_reader_guid == guid);
                    }
                    if f > i {
                        assert(self.readers@[i as int].remote_reader_guid != guid);
                    }
                }
                return Some(i);
            }
            i += 1;
        }
        proof {
            lemma_reader_index(self.readers@, guid);
            let f = reader_index(self.readers@, guid);
            if f < self.readers@.len() {
                assert(self.readers@[f].remote_reader_guid == guid);
            }
        }
        None
    }

    /// The matched reader with the identity that `guid_prefix` and
    /// `reader_entity_id` make up.
    pub fn reader_lookup(&self, guid_prefix: GuidPrefix, reader_entity_id: EntityId) -> (r: Option<
        &RtpsReaderProxy,
    >)
        ensures
            r is None <==> reader_index(
                self.readers@,
                GUID { prefix: guid_prefix, entity_id: reader_entity_id },
            ) == self.readers@.len(),
            r matches Some(p) ==> *p == self.readers@[reader_index(
                self.readers@,
                GUID { prefix: guid_prefix, entity_id: reader_entity_id },
            )],
    {
        let search_guid: GUID = GUID::new_with_prefix_and_id(guid_prefix, reader_entity_id);
        match self.matched_reader_index(search_guid) {
            Some(i) => Some(&self.readers[i]),
            None => None,
        }
    }

    /// The matched reader with the identity that `guid_prefix` and
    /// `reader_entity_id` make up, to be changed in place.
    pub fn matched_reader_lookup(
        &mut self,
        guid_prefix: GuidPrefix,
        reader_entity_id: EntityId,
    ) -> (r: Option<&mut RtpsReaderProxy>)
        ensures
            r is None <==> reader_index(
                old(self).readers@,
                GUID { prefix: guid_prefix, entity_id: reader_entity_id },
            ) == old(self).readers@.len(),
            r is None ==> *final(self) == *old(self),
            r matches Some(p) ==> {
                let idx = reader_index(
                    old(self).readers@,
                    GUID { prefix: guid_prefix, entity_id: reader_entity_id },
                );
                &&& *p == old(self).readers@[idx]
                &&& final(self).readers@ == old(self).readers@.update(idx, *final(p))
                &&& final(self).same_settings(old(self))
                &&& final(self).cache() == old(self).cache()
                &&& final(self).timed() == old(self).timed()
                &&& final(self).instants() == old(self).instants()
                &&& final(self).first_change_sequence_number == old(self).first_change_sequence_number
                &&& final(self).last_change_sequence_number == old(self).last_change_sequence_number
                &&& final(self).heartbeat_message_counter == old(self).heartbeat_message_counter
                &&& final(self).udp_sender == old(self).udp_sender
            },
    {
        let search_guid: GUID = GUID::new_with_prefix_and_id(guid_prefix, reader_entity_id);
        match self.matched_reader_index(search_guid) {
            Some(i) => Some(&mut self.readers[i]),
            None => None,
        }
    }

    /// Takes up a newly matched reader.
    pub fn matched_reader_add(&mut self, reader_proxy: RtpsReaderProxy)
        requires
            old(self).wf(),
            forall|i: int|
                0 <= i < old(self).readers@.len() ==> !((
                #[trigger] old(self).readers@[i]).remote_group_entity_id
                    == reader_proxy.remote_group_entity_id
                        && old(self).readers@[i].remote_reader_guid == reader_proxy.remote_reader_guid),
            forall|s: SequenceNumber|
                reader_proxy.unsent_set().contains(s) || reader_proxy.requested_set().contains(s)
                    ==> 1 <= s <= old(self).last_change_sequence_number,
        ensures
            final(self).wf(),
            final(self).readers@ == old(self).readers@.push(reader_proxy),
            final(self).same_settings(old(self)),
            final(self).cache() == old(self).cache(),
            final(self).timed() == old(self).timed(),
            final(self).instants() == old(self).instants(),
            final(self).first_change_sequence_number == old(self).first_change_sequence_number,
            final(self).last_change_sequence_number == old(self).last_change_sequence_number,
            final(self).heartbeat_message_counter == old(self).heartbeat_message_counter,
            final(self).udp_sender == old(self).udp_sender,
    {
        self.readers.push(reader_proxy);
    }

    /// Drops the first matched reader that has the group and the GUID of
    /// `reader_proxy`, if there is one.
    pub fn matched_reader_remove(&mut self, reader_proxy: RtpsReaderProxy)
        requires
            old(self).wf(),
        ensures
            final(self).wf(),
            final(self).readers@.len() <= old(self).readers@.len(),
            final(self).readers@.len() == old(self).readers@.len() <==> forall|i: int|
                0 <= i < old(self).readers@.len() ==> !((
                #[trigger] old(self).readers@[i]).remote_group_entity_id
                    == reader_proxy.remote_group_entity_id
                        && old(self).readers@[i].remote_reader_guid == reader_proxy.remote_reader_guid),
            final(self).readers@.len() == old(self).readers@.len() ==> final(self).readers@
                == old(self).readers@,
            final(self).readers@.len() < old(self).readers@.len() ==> exists|i: int|
                0 <= i < old(self).readers@.len()
                    && (#[trigger] old(self).readers@[i]).remote_group_entity_id == reader_proxy.remote_group_entity_id
                    && old(self).readers@[i].remote_reader_guid == reader_proxy.remote_reader_guid
                    && final(self).readers@ == old(self).readers@.remove(i),
            final(self).same_settings(old(self)),
            final(self).cache() == old(self).cache(),
            final(self).timed() == old(self).timed(),
            final(self).instants() == old(self).instants(),
            final(self).first_change_sequence_number == old(self).first_change_sequence_number,
            final(self).last_change_sequence_number == old(self).last_change_sequence_number,
            final(self).heartbeat_message_counter == old(self).heartbeat_message_counter,
            final(self).udp_sender == old(self).udp_sender,
    {
        let mut i: usize = 0;
        let mut pos: Option<usize> = None;
        while i < self.readers.len()
            invariant_except_break
                pos is None,
            invariant
                i <= self.readers.len(),
                self.readers == old(self).readers,
                forall|j: int|
                    0 <= j < i ==> !((#[trigger] self.readers@[j]).remote_group_entity_id
                        == reader_proxy.remote_group_entity_id
                        && self.readers@[j].remote_reader_guid == reader_proxy.remote_reader_guid),
            ensures
                pos is None ==> forall|j: int|
                    0 <= j < self.readers@.len() ==> !((
                    #[trigger] self.readers@[j]).remote_group_entity_id
                        == reader_proxy.remote_group_entity_id
                        && self.readers@[j].remote_reader_guid == reader_proxy.remote_reader_guid),
                pos matches Some(p) ==> p < self.readers@.len()
                    && self.readers@[p as int].remote_group_entity_id
                    == reader_proxy.remote_group_entity_id
                    && self.readers@[p as int].remote_reader_guid
                    == reader_proxy.remote_reader_guid,
                self.readers == old(self).readers,
            decreases self.readers.len() - i,
        {
            if self.readers[i].remote_group_entity_id == reader_proxy.remote_group_entity_id
                && self.readers[i].remote_reader_guid == reader_proxy.remote_reader_guid {
                pos = Some(i);
                break ;
            }
            i += 1;
        }
        match pos {
            Some(p) => {
                self.readers.remove(p);
                proof {
                    let new = self.readers@;
                    let old_r = old(self).readers@;
                    assert(new == old_r.remove(p as int));
                    assert forall|a: int, b: int| 0 <= a < b < new.len() implies !((
                    #[trigger] new[a]).remote_group_entity_id == (
                    #[trigger] new[b]).remote_group_entity_id && new[a].remote_reader_guid
                        == new[b].remote_reader_guid) by {
                        let aa = if a < p {
                            a
                        } else {
                            a + 1
                        };
                        let bb = if b < p {
                            b
                        } else {
                            b + 1
                        };
                        assert(new[a] == old_r[aa]);
                        assert(new[b] == old_r[bb]);
                    }
                    assert forall|k: int, s: SequenceNumber|
                        0 <= k < new.len() && #[trigger] new[k].unsent_set().contains(
                            s,
                        ) implies 1 <= s <= self.last_change_sequence_number by {
                        let kk = if k < p {
                            k
                        } else {
                            k + 1
                        };
                        assert(new[k] == old_r[kk]);
                        assert(old_r[kk].unsent_set().contains(s));
                    }
                    assert forall|k: int, s: SequenceNumber|
                        0 <= k < new.len() && #[trigger] new[k].requested_set().contains(
                            s,
                        ) implies 1 <= s <= self.last_change_sequence_number by {
                        let kk = if k < p {
                            k
                        } else {
                            k + 1
                        };
                        assert(new[k] == old_r[kk]);
                        assert(old_r[kk].requested_set().contains(s));
                    }
                }
            },
            None => {},
        }
    }

    /// Takes an acknowledgement that came from the participant `guid_prefix`.
    /// A writer that is not reliable ignores it, and so does a writer that
    /// does not know the reader. Where the acknowledgement names missing
    /// changes, those of them that the writer still holds are marked as asked
    /// for; where it names none, the reader has everything below the base of
    /// the acknowledgement.
    pub fn handle_ack_nack(&mut self, guid_prefix: GuidPrefix, an: AckNack)
        requires
            old(self).wf(),
        ensures
            final(self).wf(),
            final(self).readers@.len() == old(self).readers@.len(),
            ({
                let guid = GUID { prefix: guid_prefix, entity_id: an.reader_id };
                let idx = reader_index(old(self).readers@, guid);
                let members = an@.reader_sn_state.members();
                let first_held = cache_first(
                    old(self).cache(),
                    old(self).last_change_sequence_number,
                );
                if !old(self).spec_is_reliable() || idx == old(self).readers@.len() {
                    final(self).readers@ == old(self).readers@
                } else {
                    &&& forall|j: int|
                        0 <= j < old(self).readers@.len()
                            && j != idx ==>
                            #[trigger] final(self).readers@[j] == old(self).readers@[j]
                    &&& final(self).readers@[idx].same_peer(&old(self).readers@[idx])
                    &&& if members =~= Set::<SequenceNumber>::empty() {
                        &&& final(self).readers@[idx].highest_acked == acked_after(
                            old(self).readers@[idx].highest_acked,
                            an@.reader_sn_state.base,
                        )
                        &&& final(self).readers@[idx].unsent_set() == at_least(
                            old(self).readers@[idx].unsent_set(),
                            an@.reader_sn_state.base,
                        )
                        &&& final(self).readers@[idx].requested_set() == at_least(
                            old(self).readers@[idx].requested_set(),
                            an@.reader_sn_state.base,
                        )
                    } else {
                        &&& final(self).readers@[idx].highest_acked == old(self).readers@[idx].highest_acked
                        &&& final(self).readers@[idx].unsent_set() == old(self).readers@[idx].unsent_set()
                        &&& final(self).readers@[idx].requested_set() == old(self).readers@[idx].requested_set().union(
                            Set::new(
                                |s: SequenceNumber|
                                    members.contains(s)
                                        && first_held <= s <= old(self).last_change_sequence_number,
                            ),
                        )
                    }
                }
            }),
            final(self).same_settings(old(self)),
            final(self).cache() == old(self).cache(),
            final(self).timed() == old(self).timed(),
            final(self).instants() == old(self).instants(),
            final(self).first_change_sequence_number == old(self).first_change_sequence_number,
            final(self).last_change_sequence_number == old(self).last_change_sequence_number,
            final(self).heartbeat_message_counter == old(self).heartbeat_message_counter,
            final(self).udp_sender == old(self).udp_sender,
    {
        if !self.is_reliable() {
            return ;
        }
        let guid = GUID::new_with_prefix_and_id(guid_prefix, an.reader_id);
        let idx = match self.matched_reader_index(guid) {
            Some(i) => i,
            None => {
                return ;
            },
        };
        let last = self.last_change_sequence_number;
        let held = self.history_cache.len();
        let first_held: SequenceNumber = last - (held as i64) + 1;
        let missing = an.reader_sn_state.elements();
        let ghost members = an@.reader_sn_state.members();
        if missing.len() > 0 {
            // The reader misses changes: what of them is still held is asked for.
            self.readers[idx].add_requested_changes(&missing, first_held, last);
            proof {
                assert(missing@.to_set().contains(missing@[0]));
                assert(within(missing@, first_held, last) =~= Set::new(
                    |s: SequenceNumber| members.contains(s) && first_held <= s <= last,
                )) by {
                    assert forall|s: SequenceNumber| missing@.contains(s) <==> members.contains(
                        s,
                    ) by {
                        assert(missing@.to_set().contains(s) <==> missing@.contains(s));
                    }
                }
            }
        } else {
            proof {
                assert forall|s: SequenceNumber| !members.contains(s) by {
                    if members.contains(s) {
                        assert(missing@.to_set().contains(s));
                        assert(missing@.contains(s));
                    }
                }
                assert(members =~= Set::<SequenceNumber>::empty());
            }
            self.readers[idx].acked_changes_set(an.reader_sn_state.base);
        }
        proof {
            assert(readers_follow(self.readers@, old(self).readers@, last));
            lemma_inv_readers(
                self.first_change_sequence_number,
                last,
                self.guid,
                self.cache(),
                self.instants(),
                old(self).readers@,
                self.readers@,
            );
        }
    }

    /// Removes from the front of the history cache the acknowledged changes
    /// beyond the last `depth`, and returns their sequence numbers in
    /// ascending order. A negative `depth` keeps none.
    fn remove_all_acked_changes_but_keep_depth(&mut self, depth: i32) -> (removed: Vec<
        SequenceNumber,
    >)
        requires
            old(self).wf(),
        ensures
            evicted_by_cleaning(old(self).cache(), old(self).readers@, depth) <= old(self).cache().len(),
            removed@ == Seq::new(
                evicted_by_cleaning(old(self).cache(), old(self).readers@, depth),
                |k: int|
                    (cache_first(old(self).cache(), old(self).last_change_sequence_number)
                        + k) as i64,
            ),
            final(self).cache() == old(self).cache().subrange(
                evicted_by_cleaning(old(self).cache(), old(self).readers@, depth) as int,
                old(self).cache().len() as int,
            ),
            forall|i: int|
                0 <= i < final(self).timed().len() ==> old(self).timed().contains(
                    #[trigger] final(self).timed()[i],
                ),
            final(self).history_cache.wf(),
            final(self).same_settings(old(self)),
            final(self).instants() == old(self).instants(),
            final(self).readers == old(self).readers,
            final(self).first_change_sequence_number == old(self).first_change_sequence_number,
            final(self).last_change_sequence_number == old(self).last_change_sequence_number,
            final(self).heartbeat_message_counter == old(self).heartbeat_message_counter,
            final(self).udp_sender == old(self).udp_sender,
            final(self).timed_event_handler == old(self).timed_event_handler,
            final(self).key_to_instant == old(self).key_to_instant,
            final(self).writer_is_disposed == old(self).writer_is_disposed,
    {
        let len = self.history_cache.len();
        let last = self.last_change_sequence_number;
        let first_held: SequenceNumber = last - (len as i64) + 1;
        proof {
            crate::dds::writer_state::lemma_acked_prefix_facts(
                self.cache(),
                last,
                self.readers@,
            );
        }
        // Who has acknowledged a change has acknowledged every earlier one,
        // so the acknowledged changes are the oldest ones held.
        let mut acked: usize = 0;
        loop
            invariant
                acked <= len,
                len == self.cache().len(),
                last == self.last_change_sequence_number,
                first_held == last - len + 1,
                cache_contiguous(self.cache(), last),
                acked <= acked_prefix_len(self.cache(), self.readers@),
                acked_prefix_len(self.cache(), self.readers@) <= len,
                forall|i: int|
                    0 <= i < self.cache().len() ==> (acked_by_all(
                        self.readers@,
                        (#[trigger] self.cache()[i]).sequence_number,
                    ) <==> i < acked_prefix_len(self.cache(), self.readers@)),
            ensures
                acked == acked_prefix_len(self.cache(), self.readers@),
            decreases len - acked,
        {
            if acked >= len {
                break ;
            }
            let sn: SequenceNumber = first_held + (acked as i64);
            assert(self.cache()[acked as int].sequence_number == sn);
            if !self.change_with_sequence_number_is_acked_by_all(&sn) {
                break ;
            }
            acked += 1;
        }
        let amount_need_to_remove: usize = if depth < 0 {
            acked
        } else if acked > depth as usize {
            acked - depth as usize
        } else {
            0
        };
        let mut removed_change_sequence_numbers: Vec<SequenceNumber> = Vec::new();
        if amount_need_to_remove == 0 {
            assert(self.cache().subrange(0, self.cache().len() as int) =~= self.cache());
            assert forall|i: int| 0 <= i < self.timed().len() implies old(self).timed().contains(
                #[trigger] self.timed()[i],
            ) by {
                assert(old(self).timed()[i] == self.timed()[i]);
            }
            assert(removed_change_sequence_numbers@ =~= Seq::new(
                0nat,
                |k: int| (cache_first(self.cache(), last) + k) as i64,
            ));
            return removed_change_sequence_numbers;
        }
        let bound: SequenceNumber = first_held + (amount_need_to_remove as i64);
        proof {
            lemma_from_sequence_number_contiguous(
                self.cache(),
                last,
                amount_need_to_remove as int,
            );
        }
        self.history_cache.remove_changes_up_to(bound);
        proof {
            lemma_timed_filter(
                old(self).timed(),
                |c: CacheChangeView| c.sequence_number >= bound,
            );
        }
        let mut index: usize = 0;
        while index < amount_need_to_remove
            invariant
                index <= amount_need_to_remove <= len,
                first_held == last - len + 1,
                len <= last,
                removed_change_sequence_numbers@ == Seq::new(
                    index as nat,
                    |k: int| (first_held + k) as i64,
                ),
            decreases amount_need_to_remove - index,
        {
            removed_change_sequence_numbers.push(first_held + (index as i64));
            assert(removed_change_sequence_numbers@ =~= Seq::new(
                (index + 1) as nat,
                |k: int| (first_held + k) as i64,
            ));
            index = index + 1;
        }
        assert(removed_change_sequence_numbers@ =~= Seq::new(
            amount_need_to_remove as nat,
            |k: int| (cache_first(old(self).cache(), last) + k) as i64,
        ));
        removed_change_sequence_numbers
    }

    /// One pass of cache cleaning, to be called when the cleaning timer
    /// expires. Under the history policy "keep last `depth`" the oldest
    /// changes that every reader has acknowledged are removed, all but the
    /// last `depth` of them; under "keep all" nothing is removed; with no
    /// policy set, and in a best-effort writer without readers, every
    /// acknowledged change is removed. The instants of the removed changes
    /// are forgotten, and the timer is asked for again.
    pub fn handle_cache_cleaning(&mut self)
        requires
            old(self).wf(),
            old(self).timed_event_handler is Some,
        ensures
            final(self).wf(),
            ({
                let n = evicted_under(
                    old(self).qos_policies.history,
                    old(self).spec_is_reliable(),
                    old(self).cache(),
                    old(self).readers@,
                );
                &&& n <= old(self).cache().len()
                &&& final(self).cache() == old(self).cache().subrange(
                    n as int,
                    old(self).cache().len() as int,
                )
                &&& final(self).instants() == old(self).instants().restrict(
                    Set::new(
                        |s: SequenceNumber|
                            s >= cache_first(
                                old(self).cache(),
                                old(self).last_change_sequence_number,
                            ) + n,
                    ),
                )
            }),
            match cleaning_depth(
                old(self).qos_policies.history,
                old(self).spec_is_reliable(),
                old(self).readers@.len(),
            ) {
                Some(depth) => depth >= 0 ==> acked_count(
                    final(self).cache(),
                    final(self).readers@,
                ) == if acked_count(old(self).cache(), old(self).readers@) < depth {
                    acked_count(old(self).cache(), old(self).readers@)
                } else {
                    depth as nat
                },
                None => true,
            },
            final(self).timed_event_handler matches Some(h)
                && h@ == old(self).timed_event_handler.unwrap()@.push(
                Timeout {
                    duration: old(self).cache_cleaning_period,
                    kind: TimerMessageType::writer_cache_cleaning,
                },
            ),
            final(self).same_settings(old(self)),
            final(self).readers == old(self).readers,
            final(self).first_change_sequence_number == old(self).first_change_sequence_number,
            final(self).last_change_sequence_number == old(self).last_change_sequence_number,
            final(self).heartbeat_message_counter == old(self).heartbeat_message_counter,
            final(self).udp_sender == old(self).udp_sender,
    {
        let ghost oc = old(self).cache();
        let ghost last = self.last_change_sequence_number;
        let ghost first_held = cache_first(oc, last);
        let keep_all = match self.qos_policies.history {
            Some(History::KeepAll) => true,
            _ => false,
        };
        let depth: i32 = match self.qos_policies.history {
            Some(History::KeepLast { depth: d }) => if !self.is_reliable()
                && self.readers.len() == 0 {
                0
            } else {
                d
            },
            _ => 0,
        };
        let removed_changes = if keep_all {
            proof {
                assert(oc.subrange(0, oc.len() as int) =~= oc);
                assert forall|q: int| 0 <= q < self.timed().len() implies
                    old(self).timed().contains(#[trigger] self.timed()[q]) by {
                    assert(old(self).timed()[q] == self.timed()[q]);
                }
            }
            Vec::new()
        } else {
            proof {
                if depth >= 0 {
                    lemma_cleaning_keeps_depth(oc, last, self.readers@, depth);
                }
            }
            self.remove_all_acked_changes_but_keep_depth(depth)
        };
        let ghost n = removed_changes@.len() as int;
        assert(n == evicted_under(
            old(self).qos_policies.history,
            old(self).spec_is_reliable(),
            oc,
            old(self).readers@,
        ));
        assert(removed_changes@ =~= Seq::new(n as nat, |k: int| (first_held + k) as i64));
        let ghost held = self.timed();
        // What is no longer held has no instant any more.
        let mut i: usize = 0;
        while i < removed_changes.len()
            invariant
                i <= removed_changes.len(),
                n == removed_changes@.len(),
                removed_changes@ == Seq::new(n as nat, |k: int| (first_held + k) as i64),
                first_held + n <= last + 1,
                1 <= first_held,
                0 <= n <= oc.len(),
                self.cache() == oc.subrange(n, oc.len() as int),
                self.history_cache.wf(),
                self.timed() == held,
                forall|q: int| 0 <= q < held.len() ==> old(self).timed().contains(#[trigger] held[q]),
                self.instants() == old(self).instants().restrict(
                    Set::new(|s: SequenceNumber| !(first_held <= s < first_held + i)),
                ),
                self.same_settings(old(self)),
                self.readers == old(self).readers,
                self.first_change_sequence_number == old(self).first_change_sequence_number,
                self.last_change_sequence_number == old(self).last_change_sequence_number,
                self.heartbeat_message_counter == old(self).heartbeat_message_counter,
                self.udp_sender == old(self).udp_sender,
                self.timed_event_handler == old(self).timed_event_handler,
            decreases removed_changes.len() - i,
        {
            let sq = removed_changes[i];
            assert(sq == first_held + i);
            let ghost cache_before = self.history_cache;
            self.sequence_number_to_instant.remove(&sq);
            assert(self.history_cache == cache_before);
            assert(self.instants() =~= old(self).instants().restrict(
                Set::new(|s: SequenceNumber| !(first_held <= s < first_held + i + 1)),
            ));
            i += 1;
        }
        let period = self.cache_cleaning_period;
        let ghost cache_before = self.history_cache;
        match &mut self.timed_event_handler {
            Some(h) => {
                h.set_timeout(&period, TimerMessageType::writer_cache_cleaning);
            },
            None => {},
        }
        proof {
            assert(self.history_cache == cache_before);
            assert(self.timed() == held);
            let cache = self.cache();
            let oi = old(self).instants();
            assert(cache_contiguous(cache, last)) by {
                assert forall|k: int| 0 <= k < cache.len() implies (
                #[trigger] cache[k]).sequence_number == last - cache.len() + 1 + k by {
                    assert(cache[k] == oc[k + n]);
                }
            }
            assert forall|k: int| 0 <= k < cache.len() implies (#[trigger] cache[k]).writer_guid
                == self.guid by {
                assert(cache[k] == oc[k + n]);
            }
            assert(self.instants() =~= oi.restrict(
                Set::new(|s: SequenceNumber| s >= first_held + n),
            )) by {
                assert forall|s: SequenceNumber| oi.contains_key(s) implies first_held <= s by {}
            }
            assert forall|s: SequenceNumber| #[trigger]
                self.instants().contains_key(s) <==> cache_first(cache, last) <= s <= last by {
                assert(oi.contains_key(s) <==> first_held <= s <= last);
            }
            let ot = old(self).timed();
            let nt = self.timed();
            assert forall|q: int| 0 <= q < nt.len() implies self.instants().contains_key(
                (#[trigger] nt[q]).change.sequence_number,
            ) && self.instants()[nt[q].change.sequence_number] == nt[q].instant by {
                assert(ot.contains(nt[q]));
                let k = choose|k: int| 0 <= k < ot.len() && ot[k] == nt[q];
                assert(oi.contains_key(ot[k].change.sequence_number) && oi[
                    ot[k].change.sequence_number
                ] == ot[k].instant);
                assert(cache[q] == nt[q].change);
                assert(cache[q].sequence_number == last - cache.len() + 1 + q);
            }
            if !keep_all && depth >= 0 {
                lemma_cleaning_keeps_depth(oc, last, self.readers@, depth);
            }
        }
    }

    /// Whether the writer may send: some reader is owed or has asked for a
    /// change and, where the writer is reliable, every reader has
    /// acknowledged the last change.
    pub fn can_send_some(&self) -> (r: bool)
        ensures
            r == ((exists|i: int|
                0 <= i < self.readers@.len() && (#[trigger] self.readers@[i]).spec_can_send()) && (
            !self.spec_is_reliable() || acked_by_all(
                self.readers@,
                self.last_change_sequence_number,
            ))),
    {
        if self.is_reliable() {
            let last_change_is_acked: bool = self.change_with_sequence_number_is_acked_by_all(
                &self.last_change_sequence_number,
            );
            if !last_change_is_acked {
                return false;
            }
        }
        let mut i: usize = 0;
        while i < self.readers.len()
            invariant
                i <= self.readers.len(),
                !self.spec_is_reliable() || acked_by_all(
                    self.readers@,
                    self.last_change_sequence_number,
                ),
                forall|j: int| 0 <= j < i ==> !(#[trigger] self.readers@[j]).spec_can_send(),
            decreases self.readers.len() - i,
        {
            if self.readers[i].can_send() {
                assert(self.readers@[i as int].spec_can_send());
                return true;
            }
            i += 1;
        }
        false
    }

    /// Whether no reader is still owed the change `sequence_number`.
    pub fn sequence_is_sent_to_all_readers(&self, sequence_number: SequenceNumber) -> (r: bool)
        ensures
            r == forall|i: int|
                0 <= i < self.readers@.len() ==> !(#[trigger] self.readers@[i]).unsent_set().contains(
                    sequence_number,
                ),
    {
        let mut i: usize = 0;
        while i < self.readers.len()
            invariant
                i <= self.readers.len(),
                forall|j: int|
                    0 <= j < i ==> !(#[trigger] self.readers@[j]).unsent_set().contains(
                        sequence_number,
                    ),
            decreases self.readers.len() - i,
        {
            if self.readers[i].unsent.contains(&sequence_number) {
                assert(self.readers@[i as int].unsent_set().contains(sequence_number));
                return false;
            }
            i += 1;
        }
        true
    }

    /// The readers that are still owed the change `sequence_number`, in the
    /// order in which they were matched.
    pub fn sequence_needs_to_be_send_to(&self, sequence_number: SequenceNumber) -> (r: Vec<
        &RtpsReaderProxy,
    >)
        ensures
            r@.map_values(|p: &RtpsReaderProxy| *p) == self.readers@.filter(
                |p: RtpsReaderProxy| p.unsent_set().contains(sequence_number),
            ),
    {
        let ghost pred = |p: RtpsReaderProxy| p.unsent_set().contains(sequence_number);
        let mut readers_remaining: Vec<&RtpsReaderProxy> = Vec::new();
        let mut i: usize = 0;
        proof {
            reveal(Seq::filter);
            assert(self.readers@.subrange(0, 0) =~= Seq::<RtpsReaderProxy>::empty());
            assert(readers_remaining@.map_values(|p: &RtpsReaderProxy| *p) =~= Seq::<
                RtpsReaderProxy,
            >::empty());
        }
        while i < self.readers.len()
            invariant
                i <= self.readers.len(),
                pred == |p: RtpsReaderProxy| p.unsent_set().contains(sequence_number),
                readers_remaining@.map_values(|p: &RtpsReaderProxy| *p)
                    == self.readers@.subrange(0, i as int).filter(pred),
            decreases self.readers.len() - i,
        {
            let ghost before = readers_remaining@;
            proof {
                reveal(Seq::filter);
                let cur = self.readers@.subrange(0, i + 1);
                assert(cur.drop_last() =~= self.readers@.subrange(0, i as int));
                assert(cur.last() == self.readers@[i as int]);
            }
            if self.readers[i].unsent.contains(&sequence_number) {
                readers_remaining.push(&self.readers[i]);
                assert(readers_remaining@.map_values(|p: &RtpsReaderProxy| *p)
                    =~= before.map_values(|p: &RtpsReaderProxy| *p).push(
                    self.readers@[i as int],
                ));
            }
            i += 1;
        }
        assert(self.readers@.subrange(0, self.readers.len() as int) =~= self.readers@);
        readers_remaining
    }
}

} // verus!
