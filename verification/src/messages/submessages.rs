use vstd::prelude::*;
use crate::messages::elements::{SequenceNumberSet, SequenceNumberSetView};
use crate::messages::header::{Header, ProtocolVersion, VendorId};
use crate::messages::parameter_list::{ParameterList, ParameterView};
use crate::structure::cache_change::{
    SerializedPayload,
    SerializedPayloadView,
    clone_bytes,
    clone_payload,
    payload_view,
};
use crate::structure::guid::{EntityId, GuidPrefix};
use crate::structure::locator::Locator;
use crate::structure::sequence_number::SequenceNumber;
use crate::structure::time::Timestamp;

verus! {

/// The kind octets of the submessages.
pub const SUBMESSAGE_KIND_PAD: u8 = 0x01;

pub const SUBMESSAGE_KIND_ACKNACK: u8 = 0x06;

pub const SUBMESSAGE_KIND_HEARTBEAT: u8 = 0x07;

pub const SUBMESSAGE_KIND_GAP: u8 = 0x08;

pub const SUBMESSAGE_KIND_INFO_TS: u8 = 0x09;

pub const SUBMESSAGE_KIND_INFO_SRC: u8 = 0x0c;

pub const SUBMESSAGE_KIND_INFO_DST: u8 = 0x0e;

pub const SUBMESSAGE_KIND_INFO_REPLY: u8 = 0x0f;

pub const SUBMESSAGE_KIND_NACK_FRAG: u8 = 0x12;

pub const SUBMESSAGE_KIND_HEARTBEAT_FRAG: u8 = 0x13;

pub const SUBMESSAGE_KIND_DATA: u8 = 0x15;

pub const SUBMESSAGE_KIND_DATA_FRAG: u8 = 0x16;

pub const SUBMESSAGE_KIND_SEC_BODY: u8 = 0x30;

pub const SUBMESSAGE_KIND_SEC_PREFIX: u8 = 0x31;

pub const SUBMESSAGE_KIND_SEC_POSTFIX: u8 = 0x32;

pub const SUBMESSAGE_KIND_SRTPS_PREFIX: u8 = 0x33;

pub const SUBMESSAGE_KIND_SRTPS_POSTFIX: u8 = 0x34;

/// Data: an in-line QoS list is present.
pub const DATA_FLAG_INLINE_QOS: u8 = 0x02;

/// Data: a serialized payload holding the sample is present.
pub const DATA_FLAG_DATA: u8 = 0x04;

/// Data: a serialized payload holding the key is present.
pub const DATA_FLAG_KEY: u8 = 0x08;

/// DataFrag: an in-line QoS list is present.
pub const DATAFRAG_FLAG_INLINE_QOS: u8 = 0x02;

/// Heartbeat: the reader need not answer.
pub const HEARTBEAT_FLAG_FINAL: u8 = 0x02;

/// Heartbeat: the writer asserts its liveliness.
pub const HEARTBEAT_FLAG_LIVELINESS: u8 = 0x04;

/// AckNack: the writer need not answer.
pub const ACKNACK_FLAG_FINAL: u8 = 0x02;

/// InfoTimestamp: later submessages bear no timestamp.
pub const INFOTIMESTAMP_FLAG_INVALIDATE: u8 = 0x02;

/// InfoReply: a multicast locator list is present.
pub const INFOREPLY_FLAG_MULTICAST: u8 = 0x02;

/// The four bytes in front of every submessage.
#[derive(PartialEq, Eq, Structural, Clone, Copy, Debug)]
pub struct SubmessageHeader {
    pub kind: u8,
    pub flags: u8,
    pub content_length: u16,
}

/// Gives the time of the submessages that follow, or takes it away.
#[derive(Clone, Copy, Debug, PartialEq, Eq)]
pub struct InfoTimestamp {
    pub timestamp: Option<Timestamp>,
}

/// Names the participant that the submessages that follow are for.
#[derive(Clone, Copy, Debug, PartialEq, Eq)]
pub struct InfoDestination {
    pub guid_prefix: GuidPrefix,
}

/// Names another sender for the submessages that follow.
#[derive(Clone, Copy, Debug, PartialEq, Eq)]
pub struct InfoSource {
    pub protocol_version: ProtocolVersion,
    pub vendor_id: VendorId,
    pub guid_prefix: GuidPrefix,
}

/// Says where to send replies to the submessages that follow.
#[derive(Debug, PartialEq, Eq)]
pub struct InfoReply {
    pub unicast_locator_list: Vec<Locator>,
    pub multicast_locator_list: Option<Vec<Locator>>,
}

/// An `InfoReply` as plain values.
pub struct InfoReplyView {
    pub unicast_locator_list: Seq<Locator>,
    pub multicast_locator_list: Option<Seq<Locator>>,
}

/// An optional locator list as plain values.
pub open spec fn locators_view(l: Option<Vec<Locator>>) -> Option<Seq<Locator>> {
    match l {
        Some(v) => Some(v@),
        None => None,
    }
}

impl View for InfoReply {
    type V = InfoReplyView;

    open spec fn view(&self) -> InfoReplyView {
        InfoReplyView {
            unicast_locator_list: self.unicast_locator_list@,
            multicast_locator_list: locators_view(self.multicast_locator_list),
        }
    }
}

/// An optional parameter list as plain values.
pub open spec fn qos_view(q: Option<ParameterList>) -> Option<Seq<ParameterView>> {
    match q {
        Some(l) => Some(l@),
        None => None,
    }
}

/// A copy of an optional parameter list.
pub fn clone_qos(q: &Option<ParameterList>) -> (r: Option<ParameterList>)
    ensures
        qos_view(r) == qos_view(*q),
{
    match q {
        Some(l) => Some(l.clone()),
        None => None,
    }
}

/// A sample, or the news that an instance was disposed or unregistered.
#[derive(Debug, PartialEq, Eq)]
pub struct Data {
    pub reader_id: EntityId,
    pub writer_id: EntityId,
    pub writer_sn: SequenceNumber,
    pub inline_qos: Option<ParameterList>,
    pub serialized_payload: Option<SerializedPayload>,
}

/// A `Data` as plain values.
pub struct DataView {
    pub reader_id: EntityId,
    pub writer_id: EntityId,
    pub writer_sn: SequenceNumber,
    pub inline_qos: Option<Seq<ParameterView>>,
    pub serialized_payload: Option<SerializedPayloadView>,
}

impl View for Data {
    type V = DataView;

    open spec fn view(&self) -> DataView {
        DataView {
            reader_id: self.reader_id,
            writer_id: self.writer_id,
            writer_sn: self.writer_sn,
            inline_qos: qos_view(self.inline_qos),
            serialized_payload: payload_view(self.serialized_payload),
        }
    }
}

impl Clone for Data {
    fn clone(&self) -> (r: Data)
        ensures
            r@ == self@,
    {
        Data {
            reader_id: self.reader_id,
            writer_id: self.writer_id,
            writer_sn: self.writer_sn,
            inline_qos: clone_qos(&self.inline_qos),
            serialized_payload: clone_payload(&self.serialized_payload),
        }
    }
}

/// A run of fragments of a sample too large for one message.
#[derive(Debug, PartialEq, Eq)]
pub struct DataFrag {
    pub reader_id: EntityId,
    pub writer_id: EntityId,
    pub writer_sn: SequenceNumber,
    pub fragment_starting_num: u32,
    pub fragments_in_submessage: u16,
    pub fragment_size: u16,
    pub data_size: u32,
    pub inline_qos: Option<ParameterList>,
    pub serialized_payload: Vec<u8>,
}

/// A `DataFrag` as plain values.
pub struct DataFragView {
    pub reader_id: EntityId,
    pub writer_id: EntityId,
    pub writer_sn: SequenceNumber,
    pub fragment_starting_num: u32,
    pub fragments_in_submessage: u16,
    pub fragment_size: u16,
    pub data_size: u32,
    pub inline_qos: Option<Seq<ParameterView>>,
    pub serialized_payload: Seq<u8>,
}

impl View for DataFrag {
    type V = DataFragView;

    open spec fn view(&self) -> DataFragView {
        DataFragView {
            reader_id: self.reader_id,
            writer_id: self.writer_id,
            writer_sn: self.writer_sn,
            fragment_starting_num: self.fragment_starting_num,
            fragments_in_submessage: self.fragments_in_submessage,
            fragment_size: self.fragment_size,
            data_size: self.data_size,
            inline_qos: qos_view(self.inline_qos),
            serialized_payload: self.serialized_payload@,
        }
    }
}

impl Clone for DataFrag {
    fn clone(&self) -> (r: DataFrag)
        ensures
            r@ == self@,
    {
        DataFrag {
            reader_id: self.reader_id,
            writer_id: self.writer_id,
            writer_sn: self.writer_sn,
            fragment_starting_num: self.fragment_starting_num,
            fragments_in_submessage: self.fragments_in_submessage,
            fragment_size: self.fragment_size,
            data_size: self.data_size,
            inline_qos: clone_qos(&self.inline_qos),
            serialized_payload: clone_bytes(&self.serialized_payload),
        }
    }
}

/// The range of sequence numbers a writer holds.
#[derive(Clone, Copy, Debug, PartialEq, Eq)]
pub struct Heartbeat {
    pub reader_id: EntityId,
    pub writer_id: EntityId,
    pub first_sn: SequenceNumber,
    pub last_sn: SequenceNumber,
    pub count: i32,
}

/// Announces which fragments of a change the writer has.
#[derive(Clone, Copy, Debug, PartialEq, Eq)]
pub struct HeartbeatFrag {
    pub reader_id: EntityId,
    pub writer_id: EntityId,
    pub writer_sn: SequenceNumber,
    pub last_fragment_num: u32,
    pub count: i32,
}

/// Sequence numbers that a writer will never deliver: those from `gap_start`
/// up to, not including, the base of `gap_list`, and those in `gap_list`.
#[derive(Debug, PartialEq, Eq)]
pub struct Gap {
    pub reader_id: EntityId,
    pub writer_id: EntityId,
    pub gap_start: SequenceNumber,
    pub gap_list: SequenceNumberSet,
}

/// A `Gap` as plain values.
pub struct GapView {
    pub reader_id: EntityId,
    pub writer_id: EntityId,
    pub gap_start: SequenceNumber,
    pub gap_list: SequenceNumberSetView,
}

impl View for Gap {
    type V = GapView;

    open spec fn view(&self) -> GapView {
        GapView {
            reader_id: self.reader_id,
            writer_id: self.writer_id,
            gap_start: self.gap_start,
            gap_list: self.gap_list@,
        }
    }
}

/// A reader's acknowledgement: it has everything below the base of
/// `reader_sn_state` and misses what is in it.
#[derive(Debug, PartialEq, Eq)]
pub struct AckNack {
    pub reader_id: EntityId,
    pub writer_id: EntityId,
    pub reader_sn_state: SequenceNumberSet,
    pub count: i32,
}

/// An `AckNack` as plain values.
pub struct AckNackView {
    pub reader_id: EntityId,
    pub writer_id: EntityId,
    pub reader_sn_state: SequenceNumberSetView,
    pub count: i32,
}

impl View for AckNack {
    type V = AckNackView;

    open spec fn view(&self) -> AckNackView {
        AckNackView {
            reader_id: self.reader_id,
            writer_id: self.writer_id,
            reader_sn_state: self.reader_sn_state@,
            count: self.count,
        }
    }
}

/// A reader's request for fragments of one sample. The set of fragment
/// numbers has the form of a set of sequence numbers with a 32-bit base.
#[derive(Debug, PartialEq, Eq)]
pub struct NackFrag {
    pub reader_id: EntityId,
    pub writer_id: EntityId,
    pub writer_sn: SequenceNumber,
    pub fragment_base: u32,
    pub fragment_num_bits: u32,
    pub fragment_bitmap: Vec<u32>,
    pub count: i32,
}

/// A `NackFrag` as plain values.
pub struct NackFragView {
    pub reader_id: EntityId,
    pub writer_id: EntityId,
    pub writer_sn: SequenceNumber,
    pub fragment_base: u32,
    pub fragment_num_bits: u32,
    pub fragment_bitmap: Seq<u32>,
    pub count: i32,
}

impl View for NackFrag {
    type V = NackFragView;

    open spec fn view(&self) -> NackFragView {
        NackFragView {
            reader_id: self.reader_id,
            writer_id: self.writer_id,
            writer_sn: self.writer_sn,
            fragment_base: self.fragment_base,
            fragment_num_bits: self.fragment_num_bits,
            fragment_bitmap: self.fragment_bitmap@,
            count: self.count,
        }
    }
}

/// The submessage in front of a secured submessage. Its content is opaque to
/// this crate.
#[derive(Debug, PartialEq, Eq)]
pub struct SecurePrefix {
    pub content: Vec<u8>,
}

/// A secured submessage in its encoded form.
#[derive(Debug, PartialEq, Eq)]
pub struct SecureBody {
    pub content: Vec<u8>,
}

/// The submessage behind a secured submessage.
#[derive(Debug, PartialEq, Eq)]
pub struct SecurePostfix {
    pub content: Vec<u8>,
}

/// The submessage in front of a message secured as a whole.
#[derive(Debug, PartialEq, Eq)]
pub struct SecureRTPSPrefix {
    pub content: Vec<u8>,
}

/// The submessage behind a message secured as a whole.
#[derive(Debug, PartialEq, Eq)]
pub struct SecureRTPSPostfix {
    pub content: Vec<u8>,
}

/// Submessages that change how the receiver reads what follows.
#[derive(Debug, PartialEq, Eq)]
pub enum InterpreterSubmessage {
    InfoTimestamp(InfoTimestamp, u8),
    InfoSource(InfoSource, u8),
    InfoReply(InfoReply, u8),
    InfoDestination(InfoDestination, u8),
}

/// Submessages that a writer sends to readers.
#[derive(Debug, PartialEq, Eq)]
pub enum WriterSubmessage {
    Data(Data, u8),
    DataFrag(DataFrag, u8),
    Gap(Gap, u8),
    Heartbeat(Heartbeat, u8),
    HeartbeatFrag(HeartbeatFrag, u8),
}

/// Submessages that a reader sends to writers.
#[derive(Debug, PartialEq, Eq)]
pub enum ReaderSubmessage {
    AckNack(AckNack, u8),
    NackFrag(NackFrag, u8),
}

/// What the receiver forwards to the writer side.
#[derive(Debug, PartialEq, Eq)]
pub enum AckSubmessage {
    AckNack(AckNack),
    NackFrag(NackFrag),
}

/// Submessages of the security extension.
#[derive(Debug, PartialEq, Eq)]
pub enum SecuritySubmessage {
    SecureBody(SecureBody, u8),
    SecurePrefix(SecurePrefix, u8),
    SecurePostfix(SecurePostfix, u8),
    SecureRTPSPrefix(SecureRTPSPrefix, u8),
    SecureRTPSPostfix(SecureRTPSPostfix, u8),
}

/// The body of a submessage, by whom it is for: the interpreter of the
/// message, a reader, a writer, or the security extension.
#[derive(Debug, PartialEq, Eq)]
pub enum SubmessageBody {
    Interpreter(InterpreterSubmessage),
    Writer(WriterSubmessage),
    Reader(ReaderSubmessage),
    Security(SecuritySubmessage),
}

/// What a submessage says, whatever group it belongs to.
pub enum BodyView {
    InfoTimestamp(InfoTimestamp),
    InfoSource(InfoSource),
    InfoReply(InfoReplyView),
    InfoDestination(InfoDestination),
    Data(DataView),
    DataFrag(DataFragView),
    Gap(GapView),
    Heartbeat(Heartbeat),
    HeartbeatFrag(HeartbeatFrag),
    AckNack(AckNackView),
    NackFrag(NackFragView),
    SecureBody(Seq<u8>),
    SecurePrefix(Seq<u8>),
    SecurePostfix(Seq<u8>),
    SecureRTPSPrefix(Seq<u8>),
    SecureRTPSPostfix(Seq<u8>),
}

impl InterpreterSubmessage {
    /// The body as plain values.
    pub open spec fn body(&self) -> BodyView {
        match self {
            InterpreterSubmessage::InfoTimestamp(x, _) => BodyView::InfoTimestamp(*x),
            InterpreterSubmessage::InfoSource(x, _) => BodyView::InfoSource(*x),
            InterpreterSubmessage::InfoReply(x, _) => BodyView::InfoReply(x@),
            InterpreterSubmessage::InfoDestination(x, _) => BodyView::InfoDestination(*x),
        }
    }

    /// The flags that came with the body.
    pub open spec fn flags(&self) -> u8 {
        match self {
            InterpreterSubmessage::InfoTimestamp(_, f) => *f,
            InterpreterSubmessage::InfoSource(_, f) => *f,
            InterpreterSubmessage::InfoReply(_, f) => *f,
            InterpreterSubmessage::InfoDestination(_, f) => *f,
        }
    }
}

impl WriterSubmessage {
    /// The body as plain values.
    pub open spec fn body(&self) -> BodyView {
        match self {
            WriterSubmessage::Data(x, _) => BodyView::Data(x@),
            WriterSubmessage::DataFrag(x, _) => BodyView::DataFrag(x@),
            WriterSubmessage::Gap(x, _) => BodyView::Gap(x@),
            WriterSubmessage::Heartbeat(x, _) => BodyView::Heartbeat(*x),
            WriterSubmessage::HeartbeatFrag(x, _) => BodyView::HeartbeatFrag(*x),
        }
    }

    /// The flags that came with the body.
    pub open spec fn flags(&self) -> u8 {
        match self {
            WriterSubmessage::Data(_, f) => *f,
            WriterSubmessage::DataFrag(_, f) => *f,
            WriterSubmessage::Gap(_, f) => *f,
            WriterSubmessage::Heartbeat(_, f) => *f,
            WriterSubmessage::HeartbeatFrag(_, f) => *f,
        }
    }
}

impl ReaderSubmessage {
    /// The body as plain values.
    pub open spec fn body(&self) -> BodyView {
        match self {
            ReaderSubmessage::AckNack(x, _) => BodyView::AckNack(x@),
            ReaderSubmessage::NackFrag(x, _) => BodyView::NackFrag(x@),
        }
    }

    /// The flags that came with the body.
    pub open spec fn flags(&self) -> u8 {
        match self {
            ReaderSubmessage::AckNack(_, f) => *f,
            ReaderSubmessage::NackFrag(_, f) => *f,
        }
    }
}

impl SecuritySubmessage {
    /// The body as plain values.
    pub open spec fn body(&self) -> BodyView {
        match self {
            SecuritySubmessage::SecureBody(x, _) => BodyView::SecureBody(x.content@),
            SecuritySubmessage::SecurePrefix(x, _) => BodyView::SecurePrefix(x.content@),
            SecuritySubmessage::SecurePostfix(x, _) => BodyView::SecurePostfix(x.content@),
            SecuritySubmessage::SecureRTPSPrefix(x, _) => BodyView::SecureRTPSPrefix(x.content@),
            SecuritySubmessage::SecureRTPSPostfix(x, _) => BodyView::SecureRTPSPostfix(
                x.content@,
            ),
        }
    }

    /// The flags that came with the body.
    pub open spec fn flags(&self) -> u8 {
        match self {
            SecuritySubmessage::SecureBody(_, f) => *f,
            SecuritySubmessage::SecurePrefix(_, f) => *f,
            SecuritySubmessage::SecurePostfix(_, f) => *f,
            SecuritySubmessage::SecureRTPSPrefix(_, f) => *f,
            SecuritySubmessage::SecureRTPSPostfix(_, f) => *f,
        }
    }
}

impl SubmessageBody {
    /// The body as plain values.
    pub open spec fn body(&self) -> BodyView {
        match self {
            SubmessageBody::Interpreter(m) => m.body(),
            SubmessageBody::Writer(m) => m.body(),
            SubmessageBody::Reader(m) => m.body(),
            SubmessageBody::Security(m) => m.body(),
        }
    }

    /// The flags that came with the body.
    pub open spec fn flags(&self) -> u8 {
        match self {
            SubmessageBody::Interpreter(m) => m.flags(),
            SubmessageBody::Writer(m) => m.flags(),
            SubmessageBody::Reader(m) => m.flags(),
            SubmessageBody::Security(m) => m.flags(),
        }
    }
}

/// One submessage: its header and what it says.
#[derive(Debug, PartialEq, Eq)]
pub struct Submessage {
    pub header: SubmessageHeader,
    pub body: SubmessageBody,
}

/// A submessage as plain values.
pub struct SubmessageView {
    pub header: SubmessageHeader,
    pub flags: u8,
    pub body: BodyView,
}

impl View for Submessage {
    type V = SubmessageView;

    open spec fn view(&self) -> SubmessageView {
        SubmessageView { header: self.header, flags: self.body.flags(), body: self.body.body() }
    }
}

/// The submessages of `v` as plain values.
pub open spec fn submessages_view(v: Seq<Submessage>) -> Seq<SubmessageView> {
    v.map_values(|s: Submessage| s@)
}

/// One RTPS message: a header and the submessages behind it.
#[derive(Debug, PartialEq, Eq)]
pub struct Message {
    pub header: Header,
    pub submessages: Vec<Submessage>,
}

/// A message as plain values.
pub struct MessageView {
    pub header: Header,
    pub submessages: Seq<SubmessageView>,
}

impl View for Message {
    type V = MessageView;

    open spec fn view(&self) -> MessageView {
        MessageView { header: self.header, submessages: submessages_view(self.submessages@) }
    }
}

impl Message {
    /// A message with the given header and no submessage.
    pub fn new(header: Header) -> (r: Message)
        ensures
            r@ == (MessageView { header, submessages: Seq::empty() }),
    {
        let r = Message { header, submessages: Vec::new() };
        assert(r@.submessages =~= Seq::<SubmessageView>::empty());
        r
    }

    /// Puts `submessage` at the end of the message.
    pub fn add_submessage(&mut self, submessage: Submessage)
        ensures
            final(self)@ == (MessageView {
                header: old(self)@.header,
                submessages: old(self)@.submessages.push(submessage@),
            }),
    {
        self.submessages.push(submessage);
        assert(self@.submessages =~= old(self)@.submessages.push(submessage@));
    }

    /// The sequence numbers of the data submessages, in the order in which
    /// the message holds them.
    pub fn get_data_sub_message_sequence_numbers(&self) -> (r: Vec<SequenceNumber>)
        ensures
            r@ == data_sequence_numbers(self@.submessages),
    {
        let mut out: Vec<SequenceNumber> = Vec::new();
        let mut i: usize = 0;
        while i < self.submessages.len()
            invariant
                i <= self.submessages.len(),
                out@ == data_sequence_numbers(
                    submessages_view(self.submessages@).subrange(0, i as int),
                ),
            decreases self.submessages.len() - i,
        {
            proof {
                let cur = submessages_view(self.submessages@).subrange(0, i + 1);
                assert(cur.drop_last() =~= submessages_view(self.submessages@).subrange(
                    0,
                    i as int,
                ));
                assert(cur.last() == self.submessages@[i as int]@);
            }
            match &self.submessages[i].body {
                SubmessageBody::Writer(WriterSubmessage::Data(d, _)) => {
                    out.push(d.writer_sn);
                },
                _ => {},
            }
            i += 1;
        }
        assert(submessages_view(self.submessages@).subrange(0, self.submessages.len() as int)
            =~= submessages_view(self.submessages@));
        out
    }
}

/// The sequence numbers of the data submessages among `subs`, in order.
pub open spec fn data_sequence_numbers(subs: Seq<SubmessageView>) -> Seq<SequenceNumber>
    decreases subs.len(),
{
    if subs.len() == 0 {
        Seq::empty()
    } else {
        let before = data_sequence_numbers(subs.drop_last());
        match subs.last().body {
            BodyView::Data(d) => before.push(d.writer_sn),
            _ => before,
        }
    }
}

} // verus!
