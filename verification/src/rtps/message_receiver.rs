use vstd::prelude::*;
use mio_extras::channel::SyncSender;
use crate::messages::header::{Header, ProtocolVersion, VendorId};
use crate::messages::submessages::{
    AckSubmessage,
    BodyView,
    Data,
    DataFrag,
    SecurePostfix,
    SecurePrefix,
    Submessage,
    SubmessageView,
    INFOREPLY_FLAG_MULTICAST,
};
use crate::messages::wire::spec_flag_set;
use crate::rtps::reader::Reader;
use crate::security::security_plugins::SecurityPlugins;
use crate::structure::guid::{EntityId, GuidPrefix, GUID};
use crate::structure::history_cache::sequence_numbers_of;
use crate::structure::locator::{Locator, clone_locators};
use crate::structure::sequence_number::SequenceNumber;
use crate::structure::time::Timestamp;

verus! {

/// What kind of security wrapper was taken off a message before its content
/// reached a reader or writer.
#[derive(Clone, Copy, Debug, PartialEq, Eq)]
pub struct SecureWrapping {
}

/// The part of the receiver's state that goes with a submessage to the
/// reader or writer it is for.
#[derive(Debug, PartialEq, Eq)]
pub struct MessageReceiverState {
    pub source_guid_prefix: GuidPrefix,
    pub unicast_reply_locator_list: Vec<Locator>,
    pub multicast_reply_locator_list: Vec<Locator>,
    pub source_timestamp: Option<Timestamp>,
    pub secure_rtps_wrapped: Option<SecureWrapping>,
}

impl Default for MessageReceiverState {
    fn default() -> (r: MessageReceiverState)
        ensures
            r.source_guid_prefix == GuidPrefix::spec_unknown(),
            r.unicast_reply_locator_list@ == Seq::<Locator>::empty(),
            r.multicast_reply_locator_list@ == Seq::<Locator>::empty(),
            r.source_timestamp == Some(Timestamp::spec_invalid()),
            r.secure_rtps_wrapped is None,
    {
        MessageReceiverState {
            source_guid_prefix: GuidPrefix::default(),
            unicast_reply_locator_list: Vec::new(),
            multicast_reply_locator_list: Vec::new(),
            source_timestamp: Some(Timestamp::invalid()),
            secure_rtps_wrapped: None,
        }
    }
}

impl Clone for MessageReceiverState {
    fn clone(&self) -> (r: MessageReceiverState)
        ensures
            r.source_guid_prefix == self.source_guid_prefix,
            r.unicast_reply_locator_list@ == self.unicast_reply_locator_list@,
            r.multicast_reply_locator_list@ == self.multicast_reply_locator_list@,
            r.source_timestamp == self.source_timestamp,
            r.secure_rtps_wrapped == self.secure_rtps_wrapped,
    {
        MessageReceiverState {
            source_guid_prefix: self.source_guid_prefix,
            unicast_reply_locator_list: crate::structure::locator::clone_locators(
                &self.unicast_reply_locator_list,
            ),
            multicast_reply_locator_list: crate::structure::locator::clone_locators(
                &self.multicast_reply_locator_list,
            ),
            source_timestamp: self.source_timestamp,
            secure_rtps_wrapped: self.secure_rtps_wrapped,
        }
    }
}

/// How deep messages secured as a whole may be nested in one another.
pub const MAX_SECURE_NESTING: usize = 8;

/// Where the receiver stands in taking a secured submessage, which comes as
/// a prefix, one submessage and a postfix.
#[derive(Debug, PartialEq, Eq)]
pub enum SecureReceiverState {
    /// The prefix has come.
    Prefix(SecurePrefix),
    /// The prefix and the submessage behind it have come.
    SecureSubmessage(SecurePrefix, Submessage),
}

/// What a secure receiver state holds, as values.
pub enum SecureStateView {
    Idle,
    Prefix(Seq<u8>),
    SecureSubmessage(Seq<u8>, SubmessageView),
}

/// Where a receiver with the state `s` stands, as plain values.
pub open spec fn secure_view(s: Option<SecureReceiverState>) -> SecureStateView {
    match s {
        None => SecureStateView::Idle,
        Some(SecureReceiverState::Prefix(p)) => SecureStateView::Prefix(p.content@),
        Some(SecureReceiverState::SecureSubmessage(p, m)) => SecureStateView::SecureSubmessage(
            p.content@,
            m@,
        ),
    }
}

/// What the interpreter submessages of a message have told the receiver so
/// far.
pub struct InterpreterState {
    pub source_version: ProtocolVersion,
    pub source_vendor_id: VendorId,
    pub source_guid_prefix: GuidPrefix,
    pub dest_guid_prefix: GuidPrefix,
    pub unicast_reply_locator_list: Seq<Locator>,
    pub multicast_reply_locator_list: Seq<Locator>,
    pub source_timestamp: Option<Timestamp>,
}

/// The state in which the receiver of the participant `own` starts on a
/// message with header `header`: the message is for this participant, it
/// comes from whom the header names, and it bears no timestamp and no reply
/// locators.
pub open spec fn entry_state(own: GuidPrefix, header: Header) -> InterpreterState {
    InterpreterState {
        source_version: header.protocol_version,
        source_vendor_id: header.vendor_id,
        source_guid_prefix: header.guid_prefix,
        dest_guid_prefix: own,
        unicast_reply_locator_list: Seq::empty(),
        multicast_reply_locator_list: Seq::empty(),
        source_timestamp: None,
    }
}

/// The state after the interpreter submessage `body` with flags `flags` in
/// state `s`. A timestamp sets the time of what follows, or takes it away. A
/// source names a new sender and forgets time and reply locators. A reply
/// sets the reply locators, the multicast ones only where the flags announce
/// them and they are there. A destination names the participant spoken to;
/// the unknown prefix stands for this participant.
pub open spec fn interpreted(s: InterpreterState, own: GuidPrefix, body: BodyView, flags: u8) -> InterpreterState {
    match body {
        BodyView::InfoTimestamp(x) => InterpreterState { source_timestamp: x.timestamp, ..s },
        BodyView::InfoSource(x) => InterpreterState {
            source_guid_prefix: x.guid_prefix,
            source_version: x.protocol_version,
            source_vendor_id: x.vendor_id,
            unicast_reply_locator_list: Seq::empty(),
            multicast_reply_locator_list: Seq::empty(),
            source_timestamp: None,
            ..s
        },
        BodyView::InfoReply(x) => InterpreterState {
            unicast_reply_locator_list: x.unicast_locator_list,
            multicast_reply_locator_list: match x.multicast_locator_list {
                Some(ll) => if spec_flag_set(flags, INFOREPLY_FLAG_MULTICAST) {
                    ll
                } else {
                    Seq::empty()
                },
                None => Seq::empty(),
            },
            ..s
        },
        BodyView::InfoDestination(x) => InterpreterState {
            dest_guid_prefix: if x.guid_prefix == GuidPrefix::spec_unknown() {
                own
            } else {
                x.guid_prefix
            },
            ..s
        },
        _ => s,
    }
}

/// Whether `body` is an interpreter submessage.
pub open spec fn is_interpreter(body: BodyView) -> bool {
    body is InfoTimestamp || body is InfoSource || body is InfoReply || body is InfoDestination
}

/// Whether `body` is a submessage of a writer.
pub open spec fn is_writer_body(body: BodyView) -> bool {
    body is Data || body is DataFrag || body is Gap || body is Heartbeat || body is HeartbeatFrag
}

/// Whether `body` is a submessage of the security extension.
pub open spec fn is_security(body: BodyView) -> bool {
    body is SecureBody || body is SecurePrefix || body is SecurePostfix || body is SecureRTPSPrefix
        || body is SecureRTPSPostfix
}

/// The state after the submessages `subs`, none of which is of the security
/// extension, in state `s`.
pub open spec fn interpreted_all(s: InterpreterState, own: GuidPrefix, subs: Seq<SubmessageView>) -> InterpreterState
    decreases subs.len(),
{
    if subs.len() == 0 {
        s
    } else {
        interpreted(
            interpreted_all(s, own, subs.drop_last()),
            own,
            subs.last().body,
            subs.last().flags,
        )
    }
}

/// Whether a data submessage for `reader_id` from the writer `writer_id` is
/// for `reader`. Data for no reader in particular is for every reader that
/// is matched with the writer, for the built-in participant reader where it
/// comes from a built-in participant writer, and for the stateless
/// participant reader where it comes from a stateless participant writer.
pub open spec fn data_target(reader: &Reader, reader_id: EntityId, writer_id: EntityId) -> bool {
    if reader_id == EntityId::spec_unknown() {
        reader.spec_contains_writer(writer_id) || (writer_id
            == EntityId::spec_spdp_builtin_participant_writer() && reader.guid.entity_id
            == EntityId::spec_spdp_builtin_participant_reader()) || (writer_id
            == EntityId::spec_p2p_builtin_participant_stateless_writer() && reader.guid.entity_id
            == EntityId::spec_p2p_builtin_participant_stateless_reader())
    } else {
        reader.guid.entity_id == reader_id
    }
}

/// Whether a heartbeat for `reader_id` from the writer `writer_id` is for
/// `reader`.
pub open spec fn heartbeat_target(reader: &Reader, reader_id: EntityId, writer_id: EntityId) -> bool {
    if reader_id == EntityId::spec_unknown() {
        reader.spec_contains_writer(writer_id)
    } else {
        reader.guid.entity_id == reader_id
    }
}

/// The submessage sequence interpreter of one participant. It reads each
/// datagram, follows the interpreter submessages in it, and hands the
/// submessages of writers to the readers they are for and the submessages
/// of readers on to the writer side.
pub struct MessageReceiver<P: SecurityPlugins> {
    pub available_readers: Vec<Reader>,
    /// Acknowledgements go to the writer side through this channel, each
    /// with the prefix of the participant it came from.
    pub acknack_sender: SyncSender<(GuidPrefix, AckSubmessage)>,
    /// Every sign of life of a remote participant goes to discovery through
    /// this channel, past the readers, which drop what they have seen.
    pub spdp_liveness_sender: SyncSender<GuidPrefix>,
    pub security_plugins: P,
    pub own_guid_prefix: GuidPrefix,
    pub source_version: ProtocolVersion,
    pub source_vendor_id: VendorId,
    pub source_guid_prefix: GuidPrefix,
    pub dest_guid_prefix: GuidPrefix,
    pub unicast_reply_locator_list: Vec<Locator>,
    pub multicast_reply_locator_list: Vec<Locator>,
    pub source_timestamp: Option<Timestamp>,
    /// The submessages taken from the message at hand.
    pub submessage_count: usize,
    pub secure_receiver_state: Option<SecureReceiverState>,
    pub secure_rtps_wrapped: Option<SecureWrapping>,
}

/// How often `readers` names `id`.
pub open spec fn occurrences(readers: Seq<EntityId>, id: EntityId) -> nat
    decreases readers.len(),
{
    if readers.len() == 0 {
        0
    } else if readers.last() == id {
        occurrences(readers.drop_last(), id) + 1
    } else {
        occurrences(readers.drop_last(), id)
    }
}

/// The count `n` after `times` more notifications; it stays at its greatest
/// value once it has got there.
pub open spec fn notified(n: u64, times: nat) -> u64 {
    if n + times > u64::MAX {
        u64::MAX
    } else {
        (n + times) as u64
    }
}

impl<P: SecurityPlugins> MessageReceiver<P> {
    /// What the interpreter submessages have told the receiver so far.
    pub open spec fn interp(&self) -> InterpreterState {
        InterpreterState {
            source_version: self.source_version,
            source_vendor_id: self.source_vendor_id,
            source_guid_prefix: self.source_guid_prefix,
            dest_guid_prefix: self.dest_guid_prefix,
            unicast_reply_locator_list: self.unicast_reply_locator_list@,
            multicast_reply_locator_list: self.multicast_reply_locator_list@,
            source_timestamp: self.source_timestamp,
        }
    }

    /// Where the receiver stands in taking a secured submessage.
    pub open spec fn secure(&self) -> SecureStateView {
        secure_view(self.secure_receiver_state)
    }

    /// Every reader is well formed, and no two have the same entity id.
    pub open spec fn wf(&self) -> bool {
        &&& forall|i: int| 0 <= i < self.available_readers@.len() ==>
            (#[trigger] self.available_readers@[i]).wf()
        &&& forall|i: int, j: int|
            0 <= i < j < self.available_readers@.len() ==> (
            #[trigger] self.available_readers@[i]).guid.entity_id != (
            #[trigger] self.available_readers@[j]).guid.entity_id
    }

    /// Whether what follows is meant for this participant.
    pub open spec fn spec_for_us(&self) -> bool {
        self.dest_guid_prefix == self.own_guid_prefix || self.dest_guid_prefix
            == GuidPrefix::spec_unknown()
    }

    /// The readers are those of `pre`, each with the identity it had.
    pub open spec fn same_readers_as(&self, pre: &Self) -> bool {
        &&& self.available_readers@.len() == pre.available_readers@.len()
        &&& forall|j: int|
            0 <= j < pre.available_readers@.len() ==> (#[trigger] self.available_readers@[j]).guid
                == pre.available_readers@[j].guid
    }

    /// All but the readers is as in `pre`.
    pub open spec fn same_but_readers(&self, pre: &Self) -> bool {
        &&& self.acknack_sender == pre.acknack_sender
        &&& self.spdp_liveness_sender == pre.spdp_liveness_sender
        &&& self.security_plugins == pre.security_plugins
        &&& self.own_guid_prefix == pre.own_guid_prefix
        &&& self.interp() == pre.interp()
        &&& self.submessage_count == pre.submessage_count
        &&& self.secure_receiver_state == pre.secure_receiver_state
        &&& self.secure_rtps_wrapped == pre.secure_rtps_wrapped
    }

    /// All but what the interpreter submessages set is as in `pre`.
    pub open spec fn same_but_interp(&self, pre: &Self) -> bool {
        &&& self.available_readers == pre.available_readers
        &&& self.acknack_sender == pre.acknack_sender
        &&& self.spdp_liveness_sender == pre.spdp_liveness_sender
        &&& self.security_plugins == pre.security_plugins
        &&& self.own_guid_prefix == pre.own_guid_prefix
        &&& self.submessage_count == pre.submessage_count
        &&& self.secure_receiver_state == pre.secure_receiver_state
        &&& self.secure_rtps_wrapped == pre.secure_rtps_wrapped
    }

    /// A receiver for the participant `participant_guid_prefix`, without
    /// readers.
    pub fn new(
        participant_guid_prefix: GuidPrefix,
        acknack_sender: SyncSender<(GuidPrefix, AckSubmessage)>,
        spdp_liveness_sender: SyncSender<GuidPrefix>,
        security_plugins: P,
    ) -> (r: Self)
        ensures
            r.wf(),
            r.available_readers@ == Seq::<Reader>::empty(),
            r.acknack_sender == acknack_sender,
            r.spdp_liveness_sender == spdp_liveness_sender,
            r.security_plugins == security_plugins,
            r.own_guid_prefix == participant_guid_prefix,
            r.interp() == (InterpreterState {
                source_version: ProtocolVersion::spec_v2_3(),
                source_vendor_id: VendorId::spec_unknown(),
                source_guid_prefix: GuidPrefix::spec_unknown(),
                dest_guid_prefix: GuidPrefix::spec_unknown(),
                unicast_reply_locator_list: seq![Locator::spec_invalid()],
                multicast_reply_locator_list: seq![Locator::spec_invalid()],
                source_timestamp: None,
            }),
            r.submessage_count == 0,
            r.secure() is Idle,
            r.secure_rtps_wrapped is None,
    {
        let mut unicast: Vec<Locator> = Vec::new();
        unicast.push(Locator::invalid());
        let mut multicast: Vec<Locator> = Vec::new();
        multicast.push(Locator::invalid());
        let r = Self {
            available_readers: Vec::new(),
            acknack_sender,
            spdp_liveness_sender,
            security_plugins,
            own_guid_prefix: participant_guid_prefix,
            source_version: ProtocolVersion::v2_3(),
            source_vendor_id: VendorId::unknown(),
            source_guid_prefix: GuidPrefix::unknown(),
            dest_guid_prefix: GuidPrefix::unknown(),
            unicast_reply_locator_list: unicast,
            multicast_reply_locator_list: multicast,
            source_timestamp: None,
            submessage_count: 0,
            secure_receiver_state: None,
            secure_rtps_wrapped: None,
        };
        assert(r.interp().unicast_reply_locator_list =~= seq![Locator::spec_invalid()]);
        assert(r.interp().multicast_reply_locator_list =~= seq![Locator::spec_invalid()]);
        r
    }

    /// Forgets what the last message has told: sender, destination, time,
    /// reply locators, and any secured submessage that was under way.
    pub fn reset(&mut self)
        ensures
            final(self).interp() == (InterpreterState {
                source_version: ProtocolVersion::spec_v2_3(),
                source_vendor_id: VendorId::spec_unknown(),
                source_guid_prefix: GuidPrefix::spec_unknown(),
                dest_guid_prefix: GuidPrefix::spec_unknown(),
                unicast_reply_locator_list: Seq::empty(),
                multicast_reply_locator_list: Seq::empty(),
                source_timestamp: None,
            }),
            final(self).submessage_count == 0,
            final(self).secure() is Idle,
            final(self).secure_rtps_wrapped is None,
            final(self).available_readers == old(self).available_readers,
            final(self).acknack_sender == old(self).acknack_sender,
            final(self).spdp_liveness_sender == old(self).spdp_liveness_sender,
            final(self).security_plugins == old(self).security_plugins,
            final(self).own_guid_prefix == old(self).own_guid_prefix,
    {
        self.source_version = ProtocolVersion::v2_3();
        self.source_vendor_id = VendorId::unknown();
        self.source_guid_prefix = GuidPrefix::unknown();
        self.dest_guid_prefix = GuidPrefix::unknown();
        self.unicast_reply_locator_list.clear();
        self.multicast_reply_locator_list.clear();
        self.source_timestamp = None;
        self.submessage_count = 0;
        self.secure_receiver_state = None;
        self.secure_rtps_wrapped = None;
    }

    /// Starts on a message with header `header`: see `entry_state`.
    pub fn begin_message(&mut self, header: &Header)
        ensures
            final(self).interp() == entry_state(old(self).own_guid_prefix, *header),
            final(self).submessage_count == 0,
            final(self).secure() is Idle,
            final(self).secure_rtps_wrapped is None,
            final(self).available_readers == old(self).available_readers,
            final(self).acknack_sender == old(self).acknack_sender,
            final(self).spdp_liveness_sender == old(self).spdp_liveness_sender,
            final(self).security_plugins == old(self).security_plugins,
            final(self).own_guid_prefix == old(self).own_guid_prefix,
    {
        self.reset();
        self.dest_guid_prefix = self.own_guid_prefix;
        self.source_guid_prefix = header.guid_prefix;
        self.source_version = header.protocol_version;
        self.source_vendor_id = header.vendor_id;
    }

    /// The part of the receiver's state that goes with a submessage.
    pub fn clone_partial_message_receiver_state(&self) -> (r: MessageReceiverState)
        ensures
            r.source_guid_prefix == self.source_guid_prefix,
            r.unicast_reply_locator_list@ == self.unicast_reply_locator_list@,
            r.multicast_reply_locator_list@ == self.multicast_reply_locator_list@,
            r.source_timestamp == self.source_timestamp,
            r.secure_rtps_wrapped == self.secure_rtps_wrapped,
    {
        MessageReceiverState {
            source_guid_prefix: self.source_guid_prefix,
            unicast_reply_locator_list: clone_locators(&self.unicast_reply_locator_list),
            multicast_reply_locator_list: clone_locators(&self.multicast_reply_locator_list),
            source_timestamp: self.source_timestamp,
            secure_rtps_wrapped: self.secure_rtps_wrapped,
        }
    }

    /// Reader `i` is the first reader with entity id `reader_id`.
    pub open spec fn is_first_reader(&self, i: int, reader_id: EntityId) -> bool {
        &&& 0 <= i < self.available_readers@.len()
        &&& self.available_readers@[i].guid.entity_id == reader_id
        &&& forall|j: int|
            0 <= j < i ==> (#[trigger] self.available_readers@[j]).guid.entity_id != reader_id
    }

    /// The index of the first reader with entity id `reader_id`.
    pub fn reader_index(&self, reader_id: EntityId) -> (r: Option<usize>)
        ensures
            r is None <==> forall|j: int|
                0 <= j < self.available_readers@.len() ==> (
                #[trigger] self.available_readers@[j]).guid.entity_id != reader_id,
            r matches Some(i) ==> i < self.available_readers@.len()
                && self.available_readers@[i as int].guid.entity_id == reader_id
                && self.is_first_reader(i as int, reader_id),
    {
        let mut i: usize = 0;
        while i < self.available_readers.len()
            invariant
                i <= self.available_readers.len(),
                forall|j: int|
                    0 <= j < i ==> (#[trigger] self.available_readers@[j]).guid.entity_id
                        != reader_id,
            decreases self.available_readers.len() - i,
        {
            if self.available_readers[i].guid.entity_id == reader_id {
                return Some(i);
            }
            i += 1;
        }
        None
    }

    /// The reader with entity id `reader_id`, to be changed in place.
    pub fn reader_mut(&mut self, reader_id: EntityId) -> (r: Option<&mut Reader>)
        ensures
            r is None <==> forall|j: int|
                0 <= j < old(self).available_readers@.len() ==>
                    (#[trigger] old(self).available_readers@[j]).guid.entity_id != reader_id,
            r is None ==> *final(self) == *old(self),
            r matches Some(x) ==> x.guid.entity_id == reader_id && final(self).same_but_readers(
                old(self),
            ) && exists|i: int|
                0 <= i < old(self).available_readers@.len()
                    && *x == #[trigger] old(self).available_readers@[i]
                    && final(self).available_readers@ == old(self).available_readers@.update(i, *final(x)),
    {
        match self.reader_index(reader_id) {
            Some(i) => Some(&mut self.available_readers[i]),
            None => None,
        }
    }

    /// Takes up a reader. A reader whose entity id is taken already is not
    /// added.
    pub fn add_reader(&mut self, new_reader: Reader)
        requires
            old(self).wf(),
            new_reader.wf(),
        ensures
            final(self).wf(),
            final(self).same_but_readers(old(self)),
            final(self).available_readers@ == if forall|j: int|
                0 <= j < old(self).available_readers@.len() ==>
                    (#[trigger] old(self).available_readers@[j]).guid.entity_id != new_reader.guid.entity_id {
                old(self).available_readers@.push(new_reader)
            } else {
                old(self).available_readers@
            },
    {
        let eid = new_reader.guid().entity_id;
        match self.reader_index(eid) {
            Some(_) => {},
            None => {
                self.available_readers.push(new_reader);
            },
        }
    }

    /// Gives up the reader with the entity id of `old_reader_guid`, and
    /// hands it out.
    pub fn remove_reader(&mut self, old_reader_guid: GUID) -> (r: Option<Reader>)
        requires
            old(self).wf(),
        ensures
            final(self).wf(),
            final(self).same_but_readers(old(self)),
            r is None <==> forall|j: int|
                0 <= j < old(self).available_readers@.len() ==>
                    (#[trigger] old(self).available_readers@[j]).guid.entity_id != old_reader_guid.entity_id,
            r is None ==> final(self).available_readers@ == old(self).available_readers@,
            r matches Some(x) ==> x.guid.entity_id == old_reader_guid.entity_id && exists|i: int|
                0 <= i < old(self).available_readers@.len()
                    && x == #[trigger] old(self).available_readers@[i]
                    && final(self).available_readers@ == old(self).available_readers@.remove(i),
    {
        match self.reader_index(old_reader_guid.entity_id) {
            Some(i) => {
                let r = self.available_readers.remove(i);
                proof {
                    let new = self.available_readers@;
                    let old_r = old(self).available_readers@;
                    assert forall|a: int| 0 <= a < new.len() implies (#[trigger] new[a]).wf() by {
                        let aa = if a < i {
                            a
                        } else {
                            a + 1
                        };
                        assert(new[a] == old_r[aa]);
                    }
                    assert forall|a: int, b: int| 0 <= a < b < new.len() implies (
                    #[trigger] new[a]).guid.entity_id != (#[trigger] new[b]).guid.entity_id by {
                        let aa = if a < i {
                            a
                        } else {
                            a + 1
                        };
                        let bb = if b < i {
                            b
                        } else {
                            b + 1
                        };
                        assert(new[a] == old_r[aa]);
                        assert(new[b] == old_r[bb]);
                    }
                }
                Some(r)
            },
            None => None,
        }
    }

    /// Tells each of the readers `readers` that there is something to read:
    /// a reader is told as often as `readers` names it. A name that no
    /// reader bears is passed over.
    pub fn notify_data_to_readers(&mut self, readers: Vec<EntityId>)
        requires
            old(self).wf(),
        ensures
            final(self).wf(),
            final(self).same_but_readers(old(self)),
            final(self).same_readers_as(old(self)),
            forall|j: int|
                0 <= j < old(self).available_readers@.len() ==> #[trigger] final(self).available_readers@[j]
                    == (Reader {
                    notifications: notified(
                        old(self).available_readers@[j].notifications,
                        occurrences(readers@, old(self).available_readers@[j].guid.entity_id),
                    ),
                    ..old(self).available_readers@[j]
                }),
    {
        let mut k: usize = 0;
        proof {
            assert(readers@.subrange(0, 0) =~= Seq::<EntityId>::empty());
        }
        while k < readers.len()
            invariant
                k <= readers.len(),
                self.wf(),
                old(self).wf(),
                self.same_but_readers(old(self)),
                self.same_readers_as(old(self)),
                forall|j: int|
                    0 <= j < old(self).available_readers@.len() ==> #[trigger] self.available_readers@[j]
                        == (Reader {
                        notifications: notified(
                            old(self).available_readers@[j].notifications,
                            occurrences(
                                readers@.subrange(0, k as int),
                                old(self).available_readers@[j].guid.entity_id,
                            ),
                        ),
                        ..old(self).available_readers@[j]
                    }),
            decreases readers.len() - k,
        {
            let eid = readers[k];
            let ghost before = self.available_readers@;
            proof {
                let cur = readers@.subrange(0, k + 1);
                assert(cur.drop_last() =~= readers@.subrange(0, k as int));
                assert(cur.last() == eid);
            }
            match self.reader_index(eid) {
                Some(i) => {
                    self.available_readers[i].notify_cache_change();
                    proof {
                        assert forall|j: int|
                            0 <= j < self.available_readers@.len()
                                && j != i implies #[trigger] self.available_readers@[j]
                            == before[j] && old(self).available_readers@[j].guid.entity_id != eid by {
                            assert(before[j].guid == old(self).available_readers@[j].guid);
                            assert(before[i as int].guid == old(self).available_readers@[i as int].guid);
                            if j < i {
                                assert(old(self).available_readers@[j].guid.entity_id
                                    != old(self).available_readers@[i as int].guid.entity_id);
                            } else {
                                assert(old(self).available_readers@[i as int].guid.entity_id
                                    != old(self).available_readers@[j].guid.entity_id);
                            }
                        }
                        assert(self.available_readers@[i as int].wf());
                    }
                },
                None => {
                    proof {
                        assert forall|j: int|
                            0 <= j < self.available_readers@.len() implies
                            old(self).available_readers@[j].guid.entity_id != eid by {
                            assert(self.available_readers@[j].guid.entity_id != eid);
                        }
                    }
                },
            }
            k += 1;
        }
        proof {
            assert(readers@.subrange(0, readers.len() as int) =~= readers@);
        }
    }

    /// Has every reader ask the writers it has not heard of yet to announce
    /// themselves, as `Reader::preemptive_asked` says. All but the readers
    /// stays as it is.
    pub fn send_preemptive_acknacks(&mut self)
        requires
            old(self).wf(),
        ensures
            final(self).wf(),
            final(self).same_but_readers(old(self)),
            final(self).same_readers_as(old(self)),
            forall|j: int|
                0 <= j < old(self).available_readers@.len() ==> Reader::preemptive_asked(
                    &old(self).available_readers@[j],
                    #[trigger] &final(self).available_readers@[j],
                ),
    {
        let n = self.available_readers.len();
        let mut i: usize = 0;
        while i < n
            invariant
                i <= n,
                n == old(self).available_readers@.len(),
                self.wf(),
                self.same_but_readers(old(self)),
                self.same_readers_as(old(self)),
                forall|j: int| i <= j < n ==>
                    #[trigger] self.available_readers@[j] == old(self).available_readers@[j],
                forall|j: int|
                    0 <= j < i ==> Reader::preemptive_asked(
                        &old(self).available_readers@[j],
                        #[trigger] &self.available_readers@[j],
                    ),
            decreases n - i,
        {
            let ghost before = self.available_readers@;
            self.available_readers[i].send_preemptive_acknacks();
            proof {
                assert forall|j: int|
                    0 <= j < self.available_readers@.len()
                        && j != i implies #[trigger] self.available_readers@[j]
                    == before[j] by {}
                assert(before[i as int] == old(self).available_readers@[i as int]);
                assert(Reader::preemptive_asked(
                    &old(self).available_readers@[i as int],
                    &self.available_readers@[i as int],
                ));
                assert forall|j: int| 0 <= j < i + 1 implies Reader::preemptive_asked(
                    &old(self).available_readers@[j],
                    #[trigger] &self.available_readers@[j],
                ) by {
                    if j < i {
                        assert(self.available_readers@[j] == before[j]);
                    }
                }
            }
            i += 1;
        }
    }

    /// The least and the greatest sequence number in the history cache of
    /// the first reader with entity id `reader_id`; nothing where there is
    /// no such reader or its cache is empty.
    pub fn get_reader_history_cache_start_and_end_seq_num(&self, reader_id: EntityId) -> (r: Vec<
        SequenceNumber,
    >)
        ensures
            r@.len() == 0 || r@.len() == 2,
            r@.len() == 2 <==> exists|i: int|
                #![trigger self.is_first_reader(i, reader_id)]
                self.is_first_reader(i, reader_id)
                    && self.available_readers@[i].history_cache@.len() > 0,
            r@.len() == 2 ==> exists|i: int|
                #![trigger self.is_first_reader(i, reader_id)]
                {
                    let cache = self.available_readers@[i].history_cache@;
                    &&& self.is_first_reader(i, reader_id)
                    &&& sequence_numbers_of(cache).contains(r@[0])
                    &&& sequence_numbers_of(cache).contains(r@[1])
                    &&& forall|k: int|
                        0 <= k < cache.len() ==> r@[0] <= (#[trigger] cache[k]).sequence_number
                            <= r@[1]
                },
    {
        let mut out: Vec<SequenceNumber> = Vec::new();
        match self.reader_index(reader_id) {
            Some(i) => {
                let cache = &self.available_readers[i].history_cache;
                let lo = cache.get_seq_num_min();
                let hi = cache.get_seq_num_max();
                proof {
                    assert forall|j: int| self.is_first_reader(j, reader_id) implies j == i by {
                        if j < i {
                            assert(self.available_readers@[j].guid.entity_id != reader_id);
                        } else if i < j {
                            assert(self.available_readers@[i as int].guid.entity_id != reader_id);
                        }
                    }
                }
                match (lo, hi) {
                    (Some(a), Some(b)) => {
                        out.push(*a);
                        out.push(*b);
                        assert(self.is_first_reader(i as int, reader_id));
                    },
                    _ => {},
                }
            },
            None => {},
        }
        out
    }
}

} // verus!
