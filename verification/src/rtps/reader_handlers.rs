use vstd::prelude::*;
use crate::dds::rtps_writer_proxy::{RtpsWriterProxy, from_key, is_least, missing_set};
use crate::messages::elements::{SequenceNumberSet, SequenceNumberSetView};
use crate::messages::parameter_list::{PID_KEY_HASH, PID_STATUS_INFO};
use crate::messages::submessages::{AckNack, AckNackView, Data, DataFrag, DataView, Gap, GapView, Heartbeat, HeartbeatFrag};
use crate::rtps::message_receiver::MessageReceiverState;
use crate::rtps::reader::{
    PendingAckNack,
    PendingAckNackView,
    Reader,
    ACKNACK_MAX_BITS,
    change_kind_of,
    change_of,
    find_parameter,
    key_hash_of,
    pending_view,
    writer_index,
};
use crate::structure::cache_change::{CacheChange, ChangeKind, InstanceHandle};
use crate::structure::guid::{GuidPrefix, GUID};
use crate::structure::history_cache::{TimedChange, filed_under};
use crate::structure::sequence_number::SequenceNumber;
use crate::structure::time::Instant;

verus! {

/// The larger of two sequence numbers.
pub open spec fn max_sn(a: SequenceNumber, b: SequenceNumber) -> SequenceNumber {
    if a >= b {
        a
    } else {
        b
    }
}

/// One more than `c`, or `c` where it is at its greatest value.
pub open spec fn next_i32(c: i32) -> i32 {
    if c == i32::MAX {
        c
    } else {
        (c + 1) as i32
    }
}

/// The base of the acknowledgement that answers a heartbeat: the least
/// change from `missing`, or one past `hb_last` where nothing is missing.
pub open spec fn answer_base(first_missing: Option<SequenceNumber>, hb_last: SequenceNumber) -> SequenceNumber {
    match first_missing {
        Some(m) => m,
        None => if hb_last == i64::MAX {
            hb_last
        } else {
            (hb_last + 1) as i64
        },
    }
}

/// The number of bits in the set of that acknowledgement: as many as there
/// are sequence numbers from the base up to, not including, `hb_last`, but
/// no more than one acknowledgement can hold.
pub open spec fn answer_bits(base: SequenceNumber, hb_last: SequenceNumber) -> u32 {
    if hb_last <= base {
        0u32
    } else if hb_last - base >= ACKNACK_MAX_BITS {
        ACKNACK_MAX_BITS
    } else {
        (hb_last - base) as u32
    }
}

impl Reader {
    /// `self` is as `pre` but for its matched writers, its cache, what it
    /// wants sent and what it has notified.
    pub open spec fn same_reader(&self, pre: &Reader) -> bool {
        &&& self.guid == pre.guid
        &&& self.like_stateless == pre.like_stateless
        &&& self.nack_response_delay == pre.nack_response_delay
    }

    /// `self` has the matched writers of `pre`, all as they were but the
    /// one at `idx`, which is the same writer as before.
    pub open spec fn writers_but(&self, pre: &Reader, idx: int) -> bool {
        &&& self.matched_writers@.len() == pre.matched_writers@.len()
        &&& forall|j: int|
            0 <= j < pre.matched_writers@.len() && j != idx ==> #[trigger] self.matched_writers@[j]
                == pre.matched_writers@[j]
        &&& 0 <= idx < pre.matched_writers@.len() ==> {
            &&& self.matched_writers@[idx].remote_writer_guid
                == pre.matched_writers@[idx].remote_writer_guid
            &&& self.matched_writers@[idx].unicast_locator_list
                == pre.matched_writers@[idx].unicast_locator_list
            &&& self.matched_writers@[idx].multicast_locator_list
                == pre.matched_writers@[idx].multicast_locator_list
            &&& self.matched_writers@[idx].remote_group_entity_id
                == pre.matched_writers@[idx].remote_group_entity_id
        }
    }

    /// Whether `pre` takes the data `d` from the participant `source`: it
    /// bears a sequence number, its writer is matched or the reader is
    /// stateless, and it has not arrived from that writer before.
    pub open spec fn accepts(pre: &Reader, d: DataView, source: GuidPrefix) -> bool {
        let idx = writer_index(
            pre.matched_writers@,
            GUID { prefix: source, entity_id: d.writer_id },
        );
        &&& d.writer_sn >= 1
        &&& idx < pre.matched_writers@.len() || pre.like_stateless
        &&& idx < pre.matched_writers@.len() ==> !pre.matched_writers@[idx].received().contains_key(
            d.writer_sn,
        )
    }

    /// `post` is `pre` after it was given the data `d` from the participant
    /// `source` at `now`. Where the reader takes the data, the change that
    /// the data stands for is added to the cache, the writer's record says
    /// that the change arrived at `now`, and the data reader is notified.
    /// Where it does not, nothing changes.
    pub open spec fn data_handled(
        pre: &Reader,
        post: &Reader,
        d: DataView,
        source: GuidPrefix,
        now: Instant,
    ) -> bool {
        let idx = writer_index(
            pre.matched_writers@,
            GUID { prefix: source, entity_id: d.writer_id },
        );
        &&& post.same_reader(pre)
        &&& post.pending_acknacks == pre.pending_acknacks
        &&& if Reader::accepts(pre, d, source) {
            &&& post.history_cache@ == pre.history_cache@.push(change_of(d, source))
            &&& post.history_cache.timed() == pre.history_cache.timed().push(
                TimedChange {
                    instant: filed_under(pre.history_cache.timed(), now),
                    change: change_of(d, source),
                },
            )
            &&& post.notifications == if pre.notifications == u64::MAX {
                u64::MAX
            } else {
                (pre.notifications + 1) as u64
            }
            &&& post.writers_but(pre, idx)
            &&& idx < pre.matched_writers@.len() ==> {
                &&& post.matched_writers@[idx].received()
                    == pre.matched_writers@[idx].received().insert(d.writer_sn, now)
                &&& post.matched_writers@[idx].hb_last() == max_sn(
                    pre.matched_writers@[idx].hb_last(),
                    d.writer_sn,
                )
                &&& post.matched_writers@[idx].received_heartbeat_count
                    == pre.matched_writers@[idx].received_heartbeat_count
                &&& post.matched_writers@[idx].sent_ack_nack_count
                    == pre.matched_writers@[idx].sent_ack_nack_count
            }
        } else {
            &&& post.history_cache.timed() == pre.history_cache.timed()
            &&& post.notifications == pre.notifications
            &&& post.matched_writers@ == pre.matched_writers@
        }
    }

    /// `post` is `pre` after it was given the heartbeat `hb` from the
    /// participant `source`. A heartbeat of a writer that is not matched
    /// changes nothing. Else the writer's record takes up the last sequence
    /// number and the count of the heartbeat; and where the heartbeat asks
    /// for an answer or a change is missing, an acknowledgement waits to be
    /// sent after the reader's response delay: its base is the least missing
    /// change, or one past the last known sequence number where none is
    /// missing, and its set holds the missing changes from the base on, as
    /// far as one acknowledgement has room.
    pub open spec fn heartbeat_handled(
        pre: &Reader,
        post: &Reader,
        hb: Heartbeat,
        final_flag_set: bool,
        source: GuidPrefix,
    ) -> bool {
        let guid = GUID { prefix: source, entity_id: hb.writer_id };
        let idx = writer_index(pre.matched_writers@, guid);
        &&& post.same_reader(pre)
        &&& post.history_cache.timed() == pre.history_cache.timed()
        &&& post.notifications == pre.notifications
        &&& if idx == pre.matched_writers@.len() {
            &&& post.matched_writers@ == pre.matched_writers@
            &&& post.pending_acknacks@ == pre.pending_acknacks@
        } else {
            let w = pre.matched_writers@[idx];
            let h = max_sn(w.hb_last(), hb.last_sn);
            let missing = missing_set(w.received().dom(), h);
            let answers = !final_flag_set || exists|s: SequenceNumber| missing.contains(s);
            &&& post.writers_but(pre, idx)
            &&& post.matched_writers@[idx].received() == w.received()
            &&& post.matched_writers@[idx].hb_last() == h
            &&& post.matched_writers@[idx].received_heartbeat_count == hb.count
            &&& post.matched_writers@[idx].sent_ack_nack_count == if answers {
                next_i32(w.sent_ack_nack_count)
            } else {
                w.sent_ack_nack_count
            }
            &&& if answers {
                &&& post.pending_acknacks@.len() == pre.pending_acknacks@.len() + 1
                &&& pending_view(post.pending_acknacks@).drop_last() == pending_view(
                    pre.pending_acknacks@,
                )
                &&& ({
                    let p = pending_view(post.pending_acknacks@).last();
                    &&& p.writer_guid == guid
                    &&& p.delay == pre.nack_response_delay
                    &&& p.acknack.reader_id == pre.guid.entity_id
                    &&& p.acknack.writer_id == hb.writer_id
                    &&& p.acknack.count == next_i32(w.sent_ack_nack_count)
                    &&& p.acknack.reader_sn_state.wf()
                    &&& (exists|s: SequenceNumber| missing.contains(s)) ==> is_least(
                        missing,
                        p.acknack.reader_sn_state.base,
                    )
                    &&& (forall|s: SequenceNumber| !missing.contains(s))
                        ==> p.acknack.reader_sn_state.base == answer_base(None, h)
                    &&& p.acknack.reader_sn_state.num_bits == answer_bits(
                        p.acknack.reader_sn_state.base,
                        h,
                    )
                    &&& forall|s: SequenceNumber|
                        p.acknack.reader_sn_state.members().contains(s) <==> missing.contains(s)
                            && s < p.acknack.reader_sn_state.base + ACKNACK_MAX_BITS
                })
            } else {
                post.pending_acknacks@ == pre.pending_acknacks@
            }
        }
    }

    /// `post` is `pre` after it was given the gap `gap` from the participant
    /// `source`: the record of the gap's writer, where it is matched, has
    /// forgotten every change below the start of the gap and below the base
    /// of the gap's list.
    pub open spec fn gap_handled(pre: &Reader, post: &Reader, gap: GapView, source: GuidPrefix) -> bool {
        let guid = GUID { prefix: source, entity_id: gap.writer_id };
        let idx = writer_index(pre.matched_writers@, guid);
        &&& post.same_reader(pre)
        &&& post.history_cache.timed() == pre.history_cache.timed()
        &&& post.notifications == pre.notifications
        &&& post.pending_acknacks == pre.pending_acknacks
        &&& if idx == pre.matched_writers@.len() {
            post.matched_writers@ == pre.matched_writers@
        } else {
            let w = pre.matched_writers@[idx];
            &&& post.writers_but(pre, idx)
            &&& post.matched_writers@[idx].received() == from_key(
                w.received(),
                max_sn(gap.gap_start, gap.gap_list.base),
            )
            &&& post.matched_writers@[idx].hb_last() == w.hb_last()
            &&& post.matched_writers@[idx].received_heartbeat_count == w.received_heartbeat_count
            &&& post.matched_writers@[idx].sent_ack_nack_count == w.sent_ack_nack_count
        }
    }

    /// What the wf of a reader needs of changed writers.
    proof fn lemma_wf_after(pre: &Reader, post: &Reader, idx: int)
        requires
            pre.wf(),
            post.history_cache.wf(),
            post.writers_but(pre, idx),
            0 <= idx < pre.matched_writers@.len() ==> post.matched_writers@[idx].wf(),
        ensures
            post.wf(),
    {
        assert forall|i: int| 0 <= i < post.matched_writers@.len() implies (
        #[trigger] post.matched_writers@[i]).wf() by {
            if i != idx {
                assert(post.matched_writers@[i] == pre.matched_writers@[i]);
            }
        }
        assert forall|i: int, j: int| 0 <= i < j < post.matched_writers@.len() implies (
        #[trigger] post.matched_writers@[i]).remote_writer_guid != (
        #[trigger] post.matched_writers@[j]).remote_writer_guid by {
            assert(post.matched_writers@[i].remote_writer_guid
                == pre.matched_writers@[i].remote_writer_guid);
            assert(post.matched_writers@[j].remote_writer_guid
                == pre.matched_writers@[j].remote_writer_guid);
        }
    }

    /// Takes a data submessage that came from the participant named in
    /// `mr_state`, at `now`.
    pub fn handle_data_msg(
        &mut self,
        data: Data,
        data_flags: u8,
        mr_state: &MessageReceiverState,
        now: Instant,
    )
        requires
            old(self).wf(),
        ensures
            final(self).wf(),
            Reader::data_handled(old(self), final(self), data@, mr_state.source_guid_prefix, now),
    {
        let source = mr_state.source_guid_prefix;
        let writer_guid = GUID::new(source, data.writer_id);
        let sn = data.writer_sn;
        if sn < 1 {
            return ;
        }
        let found = self.matched_writer_index(writer_guid);
        match found {
            Some(i) => {
                if self.matched_writers[i].changes.contains_key(&sn) {
                    return ;
                }
            },
            None => {
                if !self.like_stateless {
                    return ;
                }
            },
        }
        let kind = if data.serialized_payload.is_some() {
            ChangeKind::ALIVE
        } else {
            let unregistered = match &data.inline_qos {
                Some(list) => match find_parameter(list, PID_STATUS_INFO) {
                    Some(v) => v.len() >= 4 && v[3] % 4 == 2,
                    None => false,
                },
                None => false,
            };
            if unregistered {
                ChangeKind::NOT_ALIVE_UNREGISTERED
            } else {
                ChangeKind::NOT_ALIVE_DISPOSED
            }
        };
        let key_hash: u128 = match &data.inline_qos {
            Some(list) => match find_parameter(list, PID_KEY_HASH) {
                Some(v) => if v.len() == 16 {
                    vstd::bytes::u128_from_le_bytes(v.as_slice())
                } else {
                    0
                },
                None => 0,
            },
            None => 0,
        };
        assert(kind == change_kind_of(data@));
        assert(key_hash == key_hash_of(data@));
        let change = CacheChange::new(
            kind,
            writer_guid,
            sn,
            InstanceHandle { key_hash },
            data.serialized_payload,
        );
        assert(change@ == change_of(data@, source));
        self.history_cache.add_change_at(change, now);
        match found {
            Some(i) => {
                self.matched_writers[i].received_changes_add(sn, now);
                proof {
                    Reader::lemma_wf_after(old(self), self, i as int);
                }
            },
            None => {
                proof {
                    Reader::lemma_wf_after(old(self), self, old(self).matched_writers@.len() as int);
                }
            },
        }
        self.notify_cache_change();
    }

    /// Takes a heartbeat that came from the participant named in `mr_state`.
    pub fn handle_heartbeat_msg(
        &mut self,
        heartbeat: &Heartbeat,
        final_flag_set: bool,
        mr_state: MessageReceiverState,
    )
        requires
            old(self).wf(),
        ensures
            final(self).wf(),
            Reader::heartbeat_handled(
                old(self),
                final(self),
                *heartbeat,
                final_flag_set,
                mr_state.source_guid_prefix,
            ),
    {
        let writer_guid = GUID::new(mr_state.source_guid_prefix, heartbeat.writer_id);
        let i = match self.matched_writer_index(writer_guid) {
            Some(i) => i,
            None => {
                return ;
            },
        };
        let ghost w = old(self).matched_writers@[i as int];
        self.matched_writers[i].update_hb_last_seen(heartbeat.last_sn);
        self.matched_writers[i].received_heartbeat_count = heartbeat.count;
        let h = self.matched_writers[i].hb_last_seen();
        let first_missing = self.matched_writers[i].first_missing_change(h);
        let ghost missing = missing_set(w.received().dom(), h);
        proof {
            assert(self.matched_writers@[i as int].received() == w.received());
            Reader::lemma_wf_after(old(self), self, i as int);
        }
        if final_flag_set && first_missing.is_none() {
            return ;
        }
        let base: SequenceNumber = match first_missing {
            Some(m) => m,
            None => if h == i64::MAX {
                h
            } else {
                h + 1
            },
        };
        let num_bits: u32 = if h <= base {
            0
        } else if h as i128 - base as i128 >= ACKNACK_MAX_BITS as i128 {
            ACKNACK_MAX_BITS
        } else {
            (h - base) as u32
        };
        let mut set = SequenceNumberSet::with_bits(base, num_bits);
        let mut k: u32 = 0;
        while k < num_bits
            invariant
                k <= num_bits <= ACKNACK_MAX_BITS,
                i < self.matched_writers@.len(),
                self.matched_writers@[i as int].received() == w.received(),
                missing == missing_set(w.received().dom(), h),
                num_bits > 0 ==> base + num_bits <= h,
                first_missing matches Some(m) ==> m == base && is_least(missing, m),
                first_missing is None ==> num_bits == 0,
                set@.wf(),
                set@.base == base,
                set@.num_bits == num_bits,
                forall|s: SequenceNumber|
                    set@.members().contains(s) <==> missing.contains(s) && s < base + k,
            decreases num_bits - k,
        {
            let s: SequenceNumber = base + (k as i64);
            if !self.matched_writers[i].changes.contains_key(&s) {
                assert(missing.contains(s)) by {
                    assert(missing.contains(base));
                }
                set.insert(s);
            }
            k += 1;
        }
        if self.matched_writers[i].sent_ack_nack_count < i32::MAX {
            self.matched_writers[i].sent_ack_nack_count = self.matched_writers[i].sent_ack_nack_count
                + 1;
        }
        let count = self.matched_writers[i].sent_ack_nack_count;
        let acknack = AckNack {
            reader_id: self.guid.entity_id,
            writer_id: heartbeat.writer_id,
            reader_sn_state: set,
            count,
        };
        let pending = PendingAckNack { writer_guid, acknack, delay: self.nack_response_delay };
        let ghost before = self.pending_acknacks@;
        self.pending_acknacks.push(pending);
        proof {
            assert(pending_view(self.pending_acknacks@) =~= pending_view(before).push(pending@));
            assert(pending_view(self.pending_acknacks@).drop_last() =~= pending_view(before));
            assert(forall|s: SequenceNumber| missing.contains(s) ==> s < h);
            Reader::lemma_wf_after(old(self), self, i as int);
            let pre = old(self);
            let idx = i as int;
            let p = pending_view(self.pending_acknacks@).last();
            assert(idx == writer_index(pre.matched_writers@, writer_guid));
            assert(h == max_sn(w.hb_last(), heartbeat.last_sn));
            assert(self.same_reader(pre));
            assert(self.writers_but(pre, idx));
            assert(self.matched_writers@[idx].received() == w.received());
            assert(self.matched_writers@[idx].hb_last() == h);
            assert(self.matched_writers@[idx].received_heartbeat_count == heartbeat.count);
            assert(self.matched_writers@[idx].sent_ack_nack_count == next_i32(
                w.sent_ack_nack_count,
            ));
            assert(p == pending@);
            assert(p.acknack.reader_sn_state.num_bits == answer_bits(base, h));
            assert(!final_flag_set || exists|s: SequenceNumber| missing.contains(s)) by {
                if final_flag_set {
                    assert(missing.contains(first_missing.unwrap()));
                }
            }
            assert forall|s: SequenceNumber|
                p.acknack.reader_sn_state.members().contains(s) <==> missing.contains(s) && s
                    < p.acknack.reader_sn_state.base + ACKNACK_MAX_BITS by {}
        }
    }

    /// Takes a gap that came from the participant named in `mr_state`.
    pub fn handle_gap_msg(&mut self, gap: &Gap, mr_state: &MessageReceiverState)
        requires
            old(self).wf(),
        ensures
            final(self).wf(),
            Reader::gap_handled(old(self), final(self), gap@, mr_state.source_guid_prefix),
    {
        let writer_guid = GUID::new(mr_state.source_guid_prefix, gap.writer_id);
        let i = match self.matched_writer_index(writer_guid) {
            Some(i) => i,
            None => {
                return ;
            },
        };
        let bound = if gap.gap_start >= gap.gap_list.base {
            gap.gap_start
        } else {
            gap.gap_list.base
        };
        let _ = self.matched_writers[i].irrelevant_changes_up_to(bound);
        proof {
            Reader::lemma_wf_after(old(self), self, i as int);
        }
    }

    /// Takes a run of fragments. This reader does not put fragments
    /// together: a sample that comes in fragments is left to the writer to
    /// send again whole, and the reader stays as it is.
    pub fn handle_datafrag_msg(
        &mut self,
        datafrag: &DataFrag,
        datafrag_flags: u8,
        mr_state: &MessageReceiverState,
    )
        ensures
            *final(self) == *old(self),
    {
    }

    /// Takes the news of how many fragments of a sample a writer holds. As
    /// the reader does not put fragments together, it stays as it is.
    pub fn handle_heartbeatfrag_msg(
        &mut self,
        heartbeatfrag: &HeartbeatFrag,
        mr_state: &MessageReceiverState,
    )
        ensures
            *final(self) == *old(self),
    {
    }

    /// Nothing has arrived from the writer `w` yet, neither data nor a
    /// heartbeat.
    pub open spec fn silent(w: RtpsWriterProxy) -> bool {
        w.received_heartbeat_count == 0 && w.received().dom() =~= Set::<SequenceNumber>::empty()
    }

    /// The writer `w` after it was asked to announce itself, where it was
    /// silent: one more acknowledgement counts as sent to it.
    pub open spec fn writer_asked(w: RtpsWriterProxy) -> RtpsWriterProxy {
        if Self::silent(w) {
            RtpsWriterProxy { sent_ack_nack_count: next_i32(w.sent_ack_nack_count), ..w }
        } else {
            w
        }
    }

    /// The acknowledgement by which the reader asks the silent writer `w`
    /// to announce itself: base 0, an empty set, the next count.
    pub open spec fn preemptive_acknack(&self, w: RtpsWriterProxy) -> PendingAckNackView {
        PendingAckNackView {
            writer_guid: w.remote_writer_guid,
            acknack: AckNackView {
                reader_id: self.guid.entity_id,
                writer_id: w.remote_writer_guid.entity_id,
                reader_sn_state: SequenceNumberSetView { base: 0, num_bits: 0, bitmap: Seq::empty() },
                count: next_i32(w.sent_ack_nack_count),
            },
            delay: self.nack_response_delay,
        }
    }

    /// The acknowledgements by which the reader asks the silent ones among
    /// `writers`, in their order, to announce themselves.
    pub open spec fn preemptive_acknacks(&self, writers: Seq<RtpsWriterProxy>) -> Seq<
        PendingAckNackView,
    >
        decreases writers.len(),
    {
        if writers.len() == 0 {
            Seq::empty()
        } else {
            let front = self.preemptive_acknacks(writers.drop_last());
            if Self::silent(writers.last()) {
                front.push(self.preemptive_acknack(writers.last()))
            } else {
                front
            }
        }
    }

    /// `post` is `pre` after it has asked its silent writers to announce
    /// themselves: behind what waited to be sent wait the acknowledgements
    /// that `preemptive_acknacks` gives, each silent writer has one more
    /// acknowledgement counted, and all else is as it was.
    pub open spec fn preemptive_asked(pre: &Reader, post: &Reader) -> bool {
        &&& post.same_reader(pre)
        &&& post.history_cache == pre.history_cache
        &&& post.notifications == pre.notifications
        &&& post.matched_writers@ == pre.matched_writers@.map_values(
            |w: RtpsWriterProxy| Self::writer_asked(w),
        )
        &&& pending_view(post.pending_acknacks@) == pending_view(pre.pending_acknacks@)
            + pre.preemptive_acknacks(pre.matched_writers@)
    }

    /// Asks every matched writer from which nothing has arrived yet, neither
    /// data nor heartbeat, to announce itself: an acknowledgement with base 0
    /// and an empty set waits to be sent to each of them.
    pub fn send_preemptive_acknacks(&mut self)
        requires
            old(self).wf(),
        ensures
            final(self).wf(),
            Self::preemptive_asked(old(self), final(self)),
    {
        let n = self.matched_writers.len();
        let ghost writers = old(self).matched_writers@;
        let ghost waiting = pending_view(old(self).pending_acknacks@);
        let mut i: usize = 0;
        proof {
            assert(writers.subrange(0, 0) =~= Seq::<RtpsWriterProxy>::empty());
            assert(pending_view(self.pending_acknacks@) =~= waiting + old(self).preemptive_acknacks(
                writers.subrange(0, 0),
            ));
        }
        while i < n
            invariant
                i <= n,
                n == writers.len(),
                writers == old(self).matched_writers@,
                waiting == pending_view(old(self).pending_acknacks@),
                self.matched_writers@.len() == n,
                old(self).wf(),
                self.same_reader(old(self)),
                self.history_cache == old(self).history_cache,
                self.notifications == old(self).notifications,
                forall|j: int| i <= j < n ==> #[trigger] self.matched_writers@[j] == writers[j],
                forall|j: int|
                    0 <= j < i ==> #[trigger] self.matched_writers@[j] == Self::writer_asked(
                        writers[j],
                    ),
                pending_view(self.pending_acknacks@) == waiting + old(self).preemptive_acknacks(
                    writers.subrange(0, i as int),
                ),
            decreases n - i,
        {
            let ghost before_w = self.matched_writers@;
            let ghost before_p = self.pending_acknacks@;
            proof {
                let next = writers.subrange(0, i + 1);
                assert(next.drop_last() =~= writers.subrange(0, i as int));
                assert(next.last() == writers[i as int]);
                assert(self.matched_writers@[i as int] == writers[i as int]);
            }
            let silent = self.matched_writers[i].received_heartbeat_count == 0
                && self.matched_writers[i].changes.is_empty();
            assert(silent == Self::silent(writers[i as int]));
            if silent {
                if self.matched_writers[i].sent_ack_nack_count < i32::MAX {
                    self.matched_writers[i].sent_ack_nack_count =
                        self.matched_writers[i].sent_ack_nack_count + 1;
                }
                assert(self.matched_writers@[i as int] == Self::writer_asked(writers[i as int]));
                let writer_guid = self.matched_writers[i].remote_writer_guid;
                let acknack = AckNack {
                    reader_id: self.guid.entity_id,
                    writer_id: writer_guid.entity_id,
                    reader_sn_state: SequenceNumberSet::new(0),
                    count: self.matched_writers[i].sent_ack_nack_count,
                };
                let pending = PendingAckNack {
                    writer_guid,
                    acknack,
                    delay: self.nack_response_delay,
                };
                assert(pending@ == old(self).preemptive_acknack(writers[i as int]));
                self.pending_acknacks.push(pending);
                proof {
                    assert(pending_view(self.pending_acknacks@) =~= pending_view(before_p).push(
                        pending@,
                    ));
                    assert(pending_view(self.pending_acknacks@) =~= waiting
                        + old(self).preemptive_acknacks(writers.subrange(0, i + 1)));
                }
            }
            proof {
                assert forall|j: int| i + 1 <= j < n implies #[trigger] self.matched_writers@[j]
                    == writers[j] by {
                    assert(self.matched_writers@[j] == before_w[j]);
                }
                assert forall|j: int| 0 <= j < i + 1 implies #[trigger] self.matched_writers@[j]
                    == Self::writer_asked(writers[j]) by {
                    if j != i {
                        assert(self.matched_writers@[j] == before_w[j]);
                    }
                }
            }
            i += 1;
        }
        proof {
            assert(writers.subrange(0, n as int) =~= writers);
            assert(self.matched_writers@ =~= writers.map_values(
                |w: RtpsWriterProxy| Self::writer_asked(w),
            ));
            assert forall|a: int| 0 <= a < self.matched_writers@.len() implies (
            #[trigger] self.matched_writers@[a]).wf() by {
                assert(writers[a].wf());
            }
            assert forall|a: int, b: int| 0 <= a < b < self.matched_writers@.len() implies (
            #[trigger] self.matched_writers@[a]).remote_writer_guid != (
            #[trigger] self.matched_writers@[b]).remote_writer_guid by {
                assert(self.matched_writers@[a].remote_writer_guid == writers[a].remote_writer_guid);
                assert(self.matched_writers@[b].remote_writer_guid == writers[b].remote_writer_guid);
            }
        }
    }
}

} // verus!
