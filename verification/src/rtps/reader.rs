use vstd::prelude::*;
use crate::dds::rtps_writer_proxy::RtpsWriterProxy;
use crate::messages::parameter_list::{ParameterList, ParameterView, PID_KEY_HASH, PID_STATUS_INFO};
use crate::messages::submessages::{AckNack, AckNackView, DataView};
use crate::structure::cache_change::{CacheChangeView, ChangeKind};
use crate::structure::guid::{EntityId, GuidPrefix, GUID};
use crate::structure::history_cache::HistoryCache;
use crate::structure::locator::LocatorList;
use crate::structure::sequence_number::SequenceNumber;
use crate::structure::time::{Duration, Instant};

verus! {

/// The greatest number of bits in the set of an acknowledgement.
pub const ACKNACK_MAX_BITS: u32 = 256;

/// An acknowledgement that a reader wants sent to a writer after a delay.
#[derive(Debug, PartialEq, Eq)]
pub struct PendingAckNack {
    pub writer_guid: GUID,
    pub acknack: AckNack,
    pub delay: Duration,
}

/// An acknowledgement to send, as plain values.
pub struct PendingAckNackView {
    pub writer_guid: GUID,
    pub acknack: AckNackView,
    pub delay: Duration,
}

impl View for PendingAckNack {
    type V = PendingAckNackView;

    open spec fn view(&self) -> PendingAckNackView {
        PendingAckNackView {
            writer_guid: self.writer_guid,
            acknack: self.acknack@,
            delay: self.delay,
        }
    }
}

/// The acknowledgements of `v` as plain values.
pub open spec fn pending_view(v: Seq<PendingAckNack>) -> Seq<PendingAckNackView> {
    v.map_values(|p: PendingAckNack| p@)
}

/// The least index of a writer with GUID `guid` among `writers`, or their
/// number where there is none.
pub open spec fn writer_index(writers: Seq<RtpsWriterProxy>, guid: GUID) -> int
    decreases writers.len(),
{
    if writers.len() == 0 {
        0
    } else if writers[0].remote_writer_guid == guid {
        0
    } else {
        1 + writer_index(writers.drop_first(), guid)
    }
}

/// `writer_index` is the first place of `guid` among `writers`, or their
/// number where `guid` is not among them.
pub proof fn lemma_writer_index(writers: Seq<RtpsWriterProxy>, guid: GUID)
    ensures
        0 <= writer_index(writers, guid) <= writers.len(),
        writer_index(writers, guid) < writers.len() ==> writers[writer_index(
            writers,
            guid,
        )].remote_writer_guid == guid,
        forall|i: int|
            0 <= i < writer_index(writers, guid) ==> (#[trigger] writers[i]).remote_writer_guid
                != guid,
    decreases writers.len(),
{
    if writers.len() == 0 {
    } else if writers[0].remote_writer_guid == guid {
    } else {
        let t = writers.drop_first();
        lemma_writer_index(t, guid);
        assert forall|i: int| 0 <= i < writer_index(writers, guid) implies (
        #[trigger] writers[i]).remote_writer_guid != guid by {
            if i > 0 {
                assert(t[i - 1] == writers[i]);
            }
        }
    }
}

/// The value of the first parameter with id `pid` in `ps`.
pub open spec fn first_parameter(ps: Seq<ParameterView>, pid: u16) -> Option<Seq<u8>>
    decreases ps.len(),
{
    if ps.len() == 0 {
        None
    } else if ps[0].parameter_id == pid {
        Some(ps[0].value)
    } else {
        first_parameter(ps.drop_first(), pid)
    }
}

/// What a data submessage says of its instance: alive where it carries a
/// payload; else unregistered where its status parameter says unregistered
/// and not disposed; else disposed.
pub open spec fn change_kind_of(d: DataView) -> ChangeKind {
    if d.serialized_payload is Some {
        ChangeKind::ALIVE
    } else {
        match d.inline_qos {
            Some(ps) => match first_parameter(ps, PID_STATUS_INFO) {
                Some(v) => if v.len() >= 4 && v[3] % 4 == 2 {
                    ChangeKind::NOT_ALIVE_UNREGISTERED
                } else {
                    ChangeKind::NOT_ALIVE_DISPOSED
                },
                None => ChangeKind::NOT_ALIVE_DISPOSED,
            },
            None => ChangeKind::NOT_ALIVE_DISPOSED,
        }
    }
}

/// The key hash that a data submessage carries in line; 0 where it carries
/// none of sixteen bytes.
pub open spec fn key_hash_of(d: DataView) -> u128 {
    match d.inline_qos {
        Some(ps) => match first_parameter(ps, PID_KEY_HASH) {
            Some(v) => if v.len() == 16 {
                vstd::bytes::spec_u128_from_le_bytes(v)
            } else {
                0u128
            },
            None => 0u128,
        },
        None => 0u128,
    }
}

/// The change that the data submessage `d` from the participant `source`
/// stands for.
pub open spec fn change_of(d: DataView, source: GuidPrefix) -> CacheChangeView {
    CacheChangeView {
        kind: change_kind_of(d),
        writer_guid: GUID { prefix: source, entity_id: d.writer_id },
        key_hash: key_hash_of(d),
        sequence_number: d.writer_sn,
        data_value: d.serialized_payload,
    }
}

/// The value of the first parameter of `list` with id `pid`.
pub fn find_parameter<'a>(list: &'a ParameterList, pid: u16) -> (r: Option<&'a Vec<u8>>)
    ensures
        match first_parameter(list@, pid) {
            Some(v) => r matches Some(x) && x@ == v,
            None => r is None,
        },
{
    let mut i: usize = 0;
    assert(list@.subrange(0, list@.len() as int) =~= list@);
    while i < list.parameters.len()
        invariant
            i <= list.parameters.len(),
            first_parameter(list@, pid) == first_parameter(
                list@.subrange(i as int, list@.len() as int),
                pid,
            ),
        decreases list.parameters.len() - i,
    {
        let ghost cur = list@.subrange(i as int, list@.len() as int);
        assert(cur[0] == list.parameters@[i as int]@);
        assert(cur.drop_first() =~= list@.subrange(i + 1, list@.len() as int));
        if list.parameters[i].parameter_id == pid {
            return Some(&list.parameters[i].value);
        }
        i += 1;
    }
    None
}

/// The reader of one topic. It takes the samples that its matched writers
/// send, keeps them in its history cache, and acknowledges them.
///
/// The reader touches neither socket nor timer: the acknowledgements it
/// wants sent wait in `pending_acknacks`, each with the delay after which it
/// is to go out.
#[derive(Debug)]
pub struct Reader {
    pub guid: GUID,
    /// The changes received, in the order of their arrival.
    pub history_cache: HistoryCache,
    /// What the reader knows of each matched writer.
    pub matched_writers: Vec<RtpsWriterProxy>,
    /// A stateless reader takes data from any writer.
    pub like_stateless: bool,
    /// How long the reader waits before it answers a heartbeat.
    pub nack_response_delay: Duration,
    pub pending_acknacks: Vec<PendingAckNack>,
    /// How often the reader has told its data reader of a change.
    pub notifications: u64,
}

impl Reader {
    /// The instants of the cache never go back, every matched writer's
    /// record is well formed, and no two matched writers have the same GUID.
    pub open spec fn wf(&self) -> bool {
        &&& self.history_cache.wf()
        &&& forall|i: int| 0 <= i < self.matched_writers@.len() ==> (#[trigger] self.matched_writers@[i]).wf()
        &&& forall|i: int, j: int|
            0 <= i < j < self.matched_writers@.len() ==> (
            #[trigger] self.matched_writers@[i]).remote_writer_guid != (
            #[trigger] self.matched_writers@[j]).remote_writer_guid
    }

    /// Whether the reader is matched with a writer of that entity id.
    pub open spec fn spec_contains_writer(&self, entity_id: EntityId) -> bool {
        exists|i: int|
            0 <= i < self.matched_writers@.len() && (
            #[trigger] self.matched_writers@[i]).remote_writer_guid.entity_id == entity_id
    }

    /// A reader that is matched with no writer and holds no change.
    pub fn new(guid: GUID, like_stateless: bool) -> (r: Reader)
        ensures
            r.wf(),
            r.guid == guid,
            r.like_stateless == like_stateless,
            r.history_cache@ == Seq::<CacheChangeView>::empty(),
            r.matched_writers@ == Seq::<RtpsWriterProxy>::empty(),
            r.pending_acknacks@ == Seq::<PendingAckNack>::empty(),
            r.nack_response_delay == (Duration { seconds: 0, nanos: 200_000_000 }),
            r.notifications == 0,
    {
        Reader {
            guid,
            history_cache: HistoryCache::new(),
            matched_writers: Vec::new(),
            like_stateless,
            nack_response_delay: Duration::from_millis(200),
            pending_acknacks: Vec::new(),
            notifications: 0,
        }
    }

    /// The GUID of the reader.
    pub fn guid(&self) -> (r: GUID)
        ensures
            r == self.guid,
    {
        self.guid
    }

    /// The entity id of the reader.
    pub fn entity_id(&self) -> (r: EntityId)
        ensures
            r == self.guid.entity_id,
    {
        self.guid.entity_id
    }

    /// Whether a writer with entity id `entity_id` is matched.
    #[verifier::when_used_as_spec(spec_contains_writer)]
    pub fn contains_writer(&self, entity_id: EntityId) -> (r: bool)
        ensures
            r == self.spec_contains_writer(entity_id),
    {
        let mut i: usize = 0;
        while i < self.matched_writers.len()
            invariant
                i <= self.matched_writers.len(),
                forall|j: int|
                    0 <= j < i ==> (#[trigger] self.matched_writers@[j]).remote_writer_guid.entity_id
                        != entity_id,
            decreases self.matched_writers.len() - i,
        {
            if self.matched_writers[i].remote_writer_guid.entity_id == entity_id {
                assert(self.matched_writers@[i as int].remote_writer_guid.entity_id == entity_id);
                return true;
            }
            i += 1;
        }
        false
    }

    /// The index of the matched writer with GUID `guid`.
    pub fn matched_writer_index(&self, guid: GUID) -> (r: Option<usize>)
        ensures
            r is None <==> writer_index(self.matched_writers@, guid)
                == self.matched_writers@.len(),
            r matches Some(i) ==> i == writer_index(self.matched_writers@, guid) && i
                < self.matched_writers@.len(),
    {
        let mut i: usize = 0;
        while i < self.matched_writers.len()
            invariant
                i <= self.matched_writers.len(),
                forall|j: int|
                    0 <= j < i ==> (#[trigger] self.matched_writers@[j]).remote_writer_guid != guid,
            decreases self.matched_writers.len() - i,
        {
            if self.matched_writers[i].remote_writer_guid == guid {
                proof {
                    lemma_writer_index(self.matched_writers@, guid);
                    let f = writer_index(self.matched_writers@, guid);
                    if f < i {
                        assert(self.matched_writers@[f].remote_writer_guid == guid);
                    }
                    if f > i {
                        assert(self.matched_writers@[i as int].remote_writer_guid != guid);
                    }
                }
                return Some(i);
            }
            i += 1;
        }
        proof {
            lemma_writer_index(self.matched_writers@, guid);
            let f = writer_index(self.matched_writers@, guid);
            if f < self.matched_writers@.len() {
                assert(self.matched_writers@[f].remote_writer_guid == guid);
            }
        }
        None
    }

    /// Takes up a newly matched writer. A writer that is matched already
    /// only has its addresses renewed.
    pub fn matched_writer_add(
        &mut self,
        remote_writer_guid: GUID,
        remote_group_entity_id: EntityId,
        unicast_locator_list: LocatorList,
        multicast_locator_list: LocatorList,
    )
        requires
            old(self).wf(),
        ensures
            final(self).wf(),
            final(self).guid == old(self).guid,
            final(self).history_cache == old(self).history_cache,
            final(self).pending_acknacks == old(self).pending_acknacks,
            final(self).like_stateless == old(self).like_stateless,
            final(self).nack_response_delay == old(self).nack_response_delay,
            final(self).notifications == old(self).notifications,
            ({
                let idx = writer_index(old(self).matched_writers@, remote_writer_guid);
                if idx == old(self).matched_writers@.len() {
                    &&& final(self).matched_writers@.len() == idx + 1
                    &&& forall|j: int|
                        0 <= j < idx ==>
                            #[trigger] final(self).matched_writers@[j] == old(self).matched_writers@[j]
                    &&& final(self).matched_writers@[idx].remote_writer_guid == remote_writer_guid
                    &&& final(self).matched_writers@[idx].received() == Map::<
                        SequenceNumber,
                        Instant,
                    >::empty()
                    &&& final(self).matched_writers@[idx].hb_last() == 0
                    &&& final(self).matched_writers@[idx].unicast_locator_list
                        == unicast_locator_list
                    &&& final(self).matched_writers@[idx].multicast_locator_list
                        == multicast_locator_list
                    &&& final(self).matched_writers@[idx].remote_group_entity_id
                        == remote_group_entity_id
                } else {
                    &&& final(self).matched_writers@.len() == old(self).matched_writers@.len()
                    &&& forall|j: int|
                        0 <= j < old(self).matched_writers@.len() && j != idx
                            ==> #[trigger] final(self).matched_writers@[j] == old(self).matched_writers@[j]
                    &&& final(self).matched_writers@[idx].remote_writer_guid == remote_writer_guid
                    &&& final(self).matched_writers@[idx].received() == old(self).matched_writers@[idx].received()
                    &&& final(self).matched_writers@[idx].hb_last() == old(self).matched_writers@[idx].hb_last()
                    &&& final(self).matched_writers@[idx].unicast_locator_list
                        == unicast_locator_list
                    &&& final(self).matched_writers@[idx].multicast_locator_list
                        == multicast_locator_list
                    &&& final(self).matched_writers@[idx].remote_group_entity_id
                        == remote_group_entity_id
                }
            }),
    {
        let proxy = RtpsWriterProxy::new(
            remote_writer_guid,
            unicast_locator_list,
            multicast_locator_list,
            remote_group_entity_id,
        );
        match self.matched_writer_index(remote_writer_guid) {
            Some(i) => {
                proof {
                    lemma_writer_index(self.matched_writers@, remote_writer_guid);
                }
                self.matched_writers[i].update_contents(proxy);
                proof {
                    assert(self.matched_writers@[i as int].wf());
                    assert forall|j: int|
                        0 <= j < self.matched_writers@.len()
                            && j != i implies #[trigger] self.matched_writers@[j]
                        == old(self).matched_writers@[j] by {}
                }
            },
            None => {
                proof {
                    lemma_writer_index(self.matched_writers@, remote_writer_guid);
                }
                self.matched_writers.push(proxy);
                proof {
                    let idx = old(self).matched_writers@.len() as int;
                    assert(self.matched_writers@[idx] == proxy);
                    assert forall|j: int| 0 <= j < idx implies #[trigger] self.matched_writers@[j]
                        == old(self).matched_writers@[j] by {}
                }
            },
        }
    }

    /// Tells the data reader that there is something to read.
    pub fn notify_cache_change(&mut self)
        ensures
            final(self).notifications == if old(self).notifications == u64::MAX {
                u64::MAX
            } else {
                (old(self).notifications + 1) as u64
            },
            final(self).guid == old(self).guid,
            final(self).history_cache == old(self).history_cache,
            final(self).matched_writers == old(self).matched_writers,
            final(self).pending_acknacks == old(self).pending_acknacks,
            final(self).like_stateless == old(self).like_stateless,
            final(self).nack_response_delay == old(self).nack_response_delay,
    {
        if self.notifications < u64::MAX {
            self.notifications = self.notifications + 1;
        }
    }

    /// Hands out the acknowledgements that wait, and forgets them.
    pub fn take_pending_acknacks(&mut self) -> (r: Vec<PendingAckNack>)
        ensures
            r == old(self).pending_acknacks,
            final(self).pending_acknacks@ == Seq::<PendingAckNack>::empty(),
            final(self).guid == old(self).guid,
            final(self).history_cache == old(self).history_cache,
            final(self).matched_writers == old(self).matched_writers,
            final(self).like_stateless == old(self).like_stateless,
            final(self).nack_response_delay == old(self).nack_response_delay,
            final(self).notifications == old(self).notifications,
    {
        let mut out: Vec<PendingAckNack> = Vec::new();
        std::mem::swap(&mut out, &mut self.pending_acknacks);
        out
    }
}

} // verus!
