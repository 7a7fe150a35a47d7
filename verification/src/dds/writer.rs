use vstd::prelude::*;
use std::collections::BTreeMap;
use std::collections::HashMap;
use std::collections::hash_map::DefaultHasher;
use std::hash::Hasher;
use vstd::std_specs::hash::DefaultHasherAdditionalSpecFns;
use mio::Token;
use mio_extras::channel::Receiver;
use crate::common::timed_event_handler::TimedEventHandler;
use crate::dds::ddsdata::DDSData;
use crate::dds::qos::{History, QosPolicies, Reliability};
use crate::dds::rtps_reader_proxy::RtpsReaderProxy;
use crate::messages::header::{ProtocolVersion, VendorId};
use crate::messages::wire::Endianness;
use crate::network::event_loop::{token_from_usize, token_value};
use crate::network::udp_sender::UDPSender;
use crate::structure::cache_change::{CacheChange, CacheChangeView};
use crate::structure::guid::{EntityId, GUID};
use crate::structure::history_cache::{HistoryCache, TimedChange, first_index_of};
use crate::structure::sequence_number::SequenceNumber;
use crate::structure::time::{Duration, Instant};

verus! {

/// The changes in `cache` bear, in order, the sequence numbers that end in
/// `last` without a gap.
pub open spec fn cache_contiguous(cache: Seq<CacheChangeView>, last: SequenceNumber) -> bool {
    &&& cache.len() <= last
    &&& forall|i: int|
        0 <= i < cache.len() ==> (#[trigger] cache[i]).sequence_number == last - cache.len() + 1
            + i
}

/// The lowest sequence number that `cache` holds; one past `last` where it
/// holds none.
pub open spec fn cache_first(cache: Seq<CacheChangeView>, last: SequenceNumber) -> int {
    last - cache.len() + 1
}

/// The stateful writer of one topic. It numbers the samples it is given,
/// keeps them in its history cache, sends them to its matched readers and
/// takes their acknowledgements.
///
/// The writer touches neither socket nor clock nor timer: what it wants sent
/// it leaves in `udp_sender`, the timers it wants set in its timed event
/// handler, and it is told the time where it needs it.
pub struct Writer {
    pub source_version: ProtocolVersion,
    pub source_vendor_id: VendorId,
    pub endianness: Endianness,
    pub heartbeat_message_counter: i32,
    /// If true the writer pushes changes to its readers; if false it only
    /// announces them by heartbeats and sends them on request.
    pub push_mode: bool,
    /// The period at which the writer announces by a heartbeat what it has.
    pub heartbeat_period: Option<Duration>,
    /// The period at which the writer cleans its history cache.
    pub cache_cleaning_period: Duration,
    /// How long the writer may wait before it answers a negative
    /// acknowledgement.
    pub nack_response_delay: Duration,
    /// How long after sending a change the writer ignores requests for it.
    pub nack_suppression_duration: Duration,
    /// The sequence number of the last change the writer made.
    pub last_change_sequence_number: SequenceNumber,
    /// 0 before the first change is made, 1 from then on.
    pub first_change_sequence_number: SequenceNumber,
    /// The largest serialized payload the writer may send.
    pub data_max_size_serialized: u64,
    pub guid: GUID,
    pub cache_change_receiver: Receiver<DDSData>,
    /// What the writer knows of each matched reader.
    pub readers: Vec<RtpsReaderProxy>,
    pub udp_sender: UDPSender,
    /// The changes of this writer that are still held.
    pub history_cache: HistoryCache,
    pub my_topic_name: String,
    /// The instant at which each held change was made.
    pub sequence_number_to_instant: BTreeMap<SequenceNumber, Instant>,
    /// The instant of the latest change of each instance.
    pub key_to_instant: HashMap<u128, Instant>,
    /// Set when the last change given to the writer was not an alive one.
    pub writer_is_disposed: bool,
    pub timed_event_handler: Option<TimedEventHandler>,
    pub qos_policies: QosPolicies,
}

/// What holds at all times of a writer's sequence numbers `first` and
/// `last`, its identity, its cache, the instants of its changes and its
/// readers: the writer has made the changes 1 to `last`; the cache holds the
/// latest of them without a gap, each under the writer's identity and under
/// an instant that is not before those of the earlier ones; and what a reader
/// is owed or has asked for is among the changes made, that is between
/// `first` and `last` once a change was made.
pub open spec fn writer_inv(
    first: SequenceNumber,
    last: SequenceNumber,
    guid: GUID,
    cache: Seq<CacheChangeView>,
    instants: Map<SequenceNumber, Instant>,
    readers: Seq<RtpsReaderProxy>,
) -> bool {
    &&& 0 <= first <= last < i64::MAX
    &&& first == if last == 0 {
        0i64
    } else {
        1i64
    }
    &&& cache_contiguous(cache, last)
    &&& forall|i: int| 0 <= i < cache.len() ==> (#[trigger] cache[i]).writer_guid == guid
    &&& forall|s: SequenceNumber|
        #[trigger] instants.contains_key(s) <==> cache_first(cache, last) <= s <= last
    &&& forall|a: SequenceNumber, b: SequenceNumber|
        #[trigger] instants.contains_key(a) && #[trigger] instants.contains_key(b) && a <= b
            ==> instants[a].nanos <= instants[b].nanos
    &&& forall|i: int, s: SequenceNumber|
        0 <= i < readers.len() && #[trigger] readers[i].unsent_set().contains(s) ==> 1 <= s
            <= last
    &&& forall|i: int, s: SequenceNumber|
        0 <= i < readers.len() && #[trigger] readers[i].requested_set().contains(s) ==> 1 <= s
            <= last
    &&& readers_distinct(readers)
}

/// `instants` gives for each change of `timed` the instant under which it is
/// held.
pub open spec fn index_agrees(timed: Seq<TimedChange>, instants: Map<SequenceNumber, Instant>) -> bool {
    forall|i: int|
        0 <= i < timed.len() ==> instants.contains_key(
            (#[trigger] timed[i]).change.sequence_number,
        ) && instants[timed[i].change.sequence_number] == timed[i].instant
}

/// No two of `readers` have the same group and the same GUID.
pub open spec fn readers_distinct(readers: Seq<RtpsReaderProxy>) -> bool {
    forall|i: int, j: int|
        0 <= i < j < readers.len() ==> !((#[trigger] readers[i]).remote_group_entity_id
            == (#[trigger] readers[j]).remote_group_entity_id && readers[i].remote_reader_guid
            == readers[j].remote_reader_guid)
}

/// Every reader of `readers` has acknowledged `sn`.
pub open spec fn acked_by_all(readers: Seq<RtpsReaderProxy>, sn: SequenceNumber) -> bool {
    forall|i: int| 0 <= i < readers.len() ==> (#[trigger] readers[i]).spec_sequence_is_acked(sn)
}

/// The number of changes at the front of `cache` that every reader has
/// acknowledged. Where the cache is contiguous these are all of its
/// acknowledged changes, since who has acknowledged a change has
/// acknowledged every earlier one.
pub open spec fn acked_prefix_len(cache: Seq<CacheChangeView>, readers: Seq<RtpsReaderProxy>) -> nat
    decreases cache.len(),
{
    if cache.len() == 0 {
        0
    } else if acked_by_all(readers, cache[0].sequence_number) {
        1 + acked_prefix_len(cache.drop_first(), readers)
    } else {
        0
    }
}

/// The changes that a cleaning pass keeping `depth` acknowledged changes
/// removes from the front of `cache`.
pub open spec fn evicted_by_cleaning(
    cache: Seq<CacheChangeView>,
    readers: Seq<RtpsReaderProxy>,
    depth: i32,
) -> nat {
    let acked = acked_prefix_len(cache, readers);
    if depth < 0 {
        acked
    } else if acked > depth {
        (acked - depth) as nat
    } else {
        0
    }
}

/// How many acknowledged changes a cleaning pass keeps: all of them, which
/// is no depth at all, under the policy "keep all"; none where no policy is
/// set, and none where the writer is best-effort and has no reader; else the
/// depth of the policy "keep last".
pub open spec fn cleaning_depth(
    history: Option<History>,
    reliable: bool,
    readers: nat,
) -> Option<i32> {
    match history {
        Some(History::KeepAll) => None,
        None => Some(0i32),
        Some(History::KeepLast { depth }) => if !reliable && readers == 0 {
            Some(0i32)
        } else {
            Some(depth)
        },
    }
}

/// The number of changes that a cleaning pass removes.
pub open spec fn evicted_under(
    history: Option<History>,
    reliable: bool,
    cache: Seq<CacheChangeView>,
    readers: Seq<RtpsReaderProxy>,
) -> nat {
    match cleaning_depth(history, reliable, readers.len()) {
        None => 0,
        Some(depth) => evicted_by_cleaning(cache, readers, depth),
    }
}

impl Writer {
    /// Whether the writer's policies ask for reliable delivery.
    pub open spec fn spec_is_reliable(&self) -> bool {
        self.qos_policies.spec_is_reliable()
    }

    /// The changes that the writer holds.
    pub open spec fn cache(&self) -> Seq<CacheChangeView> {
        self.history_cache@
    }

    /// The instant of each held change.
    pub open spec fn instants(&self) -> Map<SequenceNumber, Instant> {
        self.sequence_number_to_instant@
    }

    /// The changes that the writer holds, each with the instant under which
    /// the cache holds it.
    pub open spec fn timed(&self) -> Seq<TimedChange> {
        self.history_cache.timed()
    }

    /// What holds of a writer at all times: see `writer_inv`; besides, the
    /// writer's index gives for each held change the instant under which
    /// the cache holds it.
    pub open spec fn wf(&self) -> bool {
        &&& writer_inv(
            self.first_change_sequence_number,
            self.last_change_sequence_number,
            self.guid,
            self.cache(),
            self.instants(),
            self.readers@,
        )
        &&& self.history_cache.wf()
        &&& index_agrees(self.timed(), self.instants())
    }

    /// Everything but the readers, the cache and its indices, the counters,
    /// and what waits to be sent or set is as in `other`.
    pub open spec fn same_settings(&self, other: &Writer) -> bool {
        &&& self.source_version == other.source_version
        &&& self.source_vendor_id == other.source_vendor_id
        &&& self.endianness == other.endianness
        &&& self.push_mode == other.push_mode
        &&& self.heartbeat_period == other.heartbeat_period
        &&& self.cache_cleaning_period == other.cache_cleaning_period
        &&& self.nack_response_delay == other.nack_response_delay
        &&& self.nack_suppression_duration == other.nack_suppression_duration
        &&& self.data_max_size_serialized == other.data_max_size_serialized
        &&& self.guid == other.guid
        &&& self.my_topic_name == other.my_topic_name
        &&& self.qos_policies == other.qos_policies
    }

    /// A writer with identity `guid` on topic `topic_name` that has made no
    /// change and has no reader. A reliable writer announces what it has
    /// every three seconds; a best-effort writer never does.
    pub fn new(
        guid: GUID,
        cache_change_receiver: Receiver<DDSData>,
        topic_name: String,
        qos_policies: QosPolicies,
    ) -> (r: Writer)
        ensures
            r.wf(),
            r.guid == guid,
            r.my_topic_name == topic_name,
            r.qos_policies == qos_policies,
            r.source_version == ProtocolVersion::spec_v2_3(),
            r.source_vendor_id == VendorId::spec_unknown(),
            r.endianness == Endianness::LittleEndian,
            r.heartbeat_message_counter == 1,
            r.push_mode,
            r.heartbeat_period == if qos_policies.spec_is_reliable() {
                Some(Duration { seconds: 3, nanos: 0 })
            } else {
                None::<Duration>
            },
            r.cache_cleaning_period == (Duration { seconds: 120, nanos: 0 }),
            r.nack_response_delay == (Duration { seconds: 0, nanos: 200_000_000 }),
            r.nack_suppression_duration == (Duration { seconds: 0, nanos: 0 }),
            r.last_change_sequence_number == 0,
            r.first_change_sequence_number == 0,
            r.data_max_size_serialized == 999999999,
            r.readers@ == Seq::<RtpsReaderProxy>::empty(),
            r.cache() == Seq::<CacheChangeView>::empty(),
            r.instants() == Map::<SequenceNumber, Instant>::empty(),
            r.udp_sender@.len() == 0,
            !r.writer_is_disposed,
            r.timed_event_handler is None,
    {
        let heartbeat_period = match &qos_policies.reliability {
            Some(r) => match r {
                Reliability::BestEffort => None,
                Reliability::Reliable { max_blocking_time: _ } => Some(Duration::from_secs(3)),
            },
            None => None,
        };
        Writer {
            source_version: ProtocolVersion::v2_3(),
            source_vendor_id: VendorId::unknown(),
            endianness: Endianness::LittleEndian,
            heartbeat_message_counter: 1,
            push_mode: true,
            heartbeat_period,
            cache_cleaning_period: Duration::from_secs(2 * 60),
            nack_response_delay: Duration::from_millis(200),
            nack_suppression_duration: Duration::from_nanos(0),
            last_change_sequence_number: 0,
            first_change_sequence_number: 0,
            data_max_size_serialized: 999999999,
            guid,
            cache_change_receiver,
            readers: Vec::new(),
            udp_sender: UDPSender::new(),
            history_cache: HistoryCache::new(),
            my_topic_name: topic_name,
            sequence_number_to_instant: BTreeMap::new(),
            key_to_instant: HashMap::new(),
            writer_is_disposed: false,
            timed_event_handler: None,
            qos_policies,
        }
    }

    /// The token under which the writer's channel from its data writer is
    /// registered: the writer's entity id as a number.
    pub fn get_entity_token(&self) -> (r: Token)
        ensures
            token_value(r) == self.guid.entity_id.spec_as_u32(),
    {
        let id = self.guid.entity_id.as_usize();
        token_from_usize(id)
    }

    /// The token under which the writer's timers are registered: a hash of
    /// the writer's entity id.
    pub fn get_timed_event_entity_token(&self) -> (r: Token)
        ensures
            token_value(r) == DefaultHasher::spec_finish(
                seq![vstd::bytes::spec_u64_to_le_bytes(self.guid.entity_id.spec_as_u32() as u64)],
            ) % 0x1_0000_0000,
    {
        let mut hasher = DefaultHasher::new();
        let id = self.guid.entity_id.as_usize() as u64;
        let bytes = vstd::bytes::u64_to_le_bytes(id);
        hasher.write(bytes.as_slice());
        let hashed: u64 = hasher.finish();
        assert(hasher@ =~= seq![vstd::bytes::spec_u64_to_le_bytes(id)]);
        token_from_usize((hashed % 0x1_0000_0000) as usize)
    }

    /// The channel on which the data writer hands over its samples.
    pub fn cache_change_receiver(&self) -> (r: &Receiver<DDSData>)
        ensures
            *r == self.cache_change_receiver,
    {
        &self.cache_change_receiver
    }

    /// The entity id of the writer.
    pub fn get_entity_id(&self) -> (r: EntityId)
        ensures
            r == self.guid.entity_id,
    {
        self.guid.entity_id
    }

    /// The GUID of the writer.
    pub fn get_guid(&self) -> (r: GUID)
        ensures
            r == self.guid,
    {
        self.guid
    }

    /// Whether the writer's policies ask for reliable delivery.
    #[verifier::when_used_as_spec(spec_is_reliable)]
    pub fn is_reliable(&self) -> (r: bool)
        ensures
            r == self.spec_is_reliable(),
    {
        self.qos_policies.is_reliable()
    }

    /// The name of the topic that the writer publishes.
    pub fn topic_name(&self) -> (r: &String)
        ensures
            *r == self.my_topic_name,
    {
        &self.my_topic_name
    }

    /// The policies that the writer works under.
    pub fn get_qos(&self) -> (r: &QosPolicies)
        ensures
            *r == self.qos_policies,
    {
        &self.qos_policies
    }

    /// Replaces the policies of the writer.
    pub fn set_qos(&mut self, new_qos: &QosPolicies)
        requires
            old(self).wf(),
        ensures
            final(self).wf(),
            final(self).qos_policies == *new_qos,
            final(self).cache() == old(self).cache(),
            final(self).timed() == old(self).timed(),
            final(self).readers == old(self).readers,
            final(self).last_change_sequence_number == old(self).last_change_sequence_number,
    {
        self.qos_policies = *new_qos;
    }

    /// The instant at which the held change `seqnumber` was made.
    pub fn sequence_number_to_instant(&self, seqnumber: SequenceNumber) -> (r: Option<&Instant>)
        ensures
            r is Some <==> self.instants().contains_key(seqnumber),
            r matches Some(i) ==> *i == self.instants()[seqnumber],
    {
        self.sequence_number_to_instant.get(&seqnumber)
    }

    /// A copy of the held change with sequence number `sequence_number`.
    pub fn find_cache_change(&self, sequence_number: SequenceNumber) -> (r: Option<CacheChange>)
        requires
            self.wf(),
        ensures
            r is Some <==> cache_first(self.cache(), self.last_change_sequence_number)
                <= sequence_number <= self.last_change_sequence_number,
            r matches Some(c) ==> c@ == self.cache()[sequence_number - cache_first(
                self.cache(),
                self.last_change_sequence_number,
            )],
    {
        let ghost f = cache_first(self.cache(), self.last_change_sequence_number);
        match self.history_cache.get_change(sequence_number) {
            Some(c) => {
                proof {
                    crate::structure::history_cache::lemma_first_index_of(
                        self.cache(),
                        sequence_number,
                    );
                    let idx = first_index_of(self.cache(), sequence_number);
                    assert(self.cache()[idx].sequence_number == sequence_number);
                }
                Some(c.clone())
            },
            None => {
                proof {
                    if f <= sequence_number <= self.last_change_sequence_number {
                        assert(self.cache()[sequence_number - f].sequence_number
                            == sequence_number);
                    }
                }
                None
            },
        }
    }
}

} // verus!
