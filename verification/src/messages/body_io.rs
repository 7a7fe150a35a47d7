use vstd::prelude::*;
use crate::messages::body::{
    acknack_at,
    acknack_bytes,
    body_at,
    body_bytes,
    body_writable,
    data_at,
    data_bytes,
    data_frag_at,
    data_frag_bytes,
    gap_at,
    gap_bytes,
    heartbeat_at,
    heartbeat_bytes,
    heartbeat_frag_at,
    heartbeat_frag_bytes,
    info_destination_at,
    info_destination_bytes,
    info_reply_at,
    info_reply_bytes,
    info_source_at,
    info_source_bytes,
    info_timestamp_at,
    info_timestamp_bytes,
    nack_frag_at,
    nack_frag_bytes,
    payload_bytes,
    qos_at,
    qos_bytes,
};
use crate::messages::elements::{
    SequenceNumberSet,
    put_locator_list,
    put_words,
    read_locator_list,
    read_words,
    words_for,
};
use crate::messages::header::{ProtocolVersion, VendorId};
use crate::messages::parameter_list::{
    ParameterList,
    parameters_writable,
    put_parameter_list,
    read_parameter_list,
};
use crate::messages::submessages::{
    AckNack,
    Data,
    DataFrag,
    Gap,
    Heartbeat,
    HeartbeatFrag,
    InfoDestination,
    InfoReply,
    InfoSource,
    InfoTimestamp,
    InterpreterSubmessage,
    NackFrag,
    ReaderSubmessage,
    SecureBody,
    SecurePostfix,
    SecurePrefix,
    SecureRTPSPostfix,
    SecureRTPSPrefix,
    SecuritySubmessage,
    SubmessageBody,
    WriterSubmessage,
    qos_view,
    DATAFRAG_FLAG_INLINE_QOS,
    DATA_FLAG_DATA,
    DATA_FLAG_INLINE_QOS,
    DATA_FLAG_KEY,
    INFOREPLY_FLAG_MULTICAST,
    INFOTIMESTAMP_FLAG_INVALIDATE,
    SUBMESSAGE_KIND_ACKNACK,
    SUBMESSAGE_KIND_DATA,
    SUBMESSAGE_KIND_DATA_FRAG,
    SUBMESSAGE_KIND_GAP,
    SUBMESSAGE_KIND_HEARTBEAT,
    SUBMESSAGE_KIND_HEARTBEAT_FRAG,
    SUBMESSAGE_KIND_INFO_DST,
    SUBMESSAGE_KIND_INFO_REPLY,
    SUBMESSAGE_KIND_INFO_SRC,
    SUBMESSAGE_KIND_INFO_TS,
    SUBMESSAGE_KIND_NACK_FRAG,
    SUBMESSAGE_KIND_SEC_BODY,
    SUBMESSAGE_KIND_SEC_POSTFIX,
    SUBMESSAGE_KIND_SEC_PREFIX,
    SUBMESSAGE_KIND_SRTPS_POSTFIX,
    SUBMESSAGE_KIND_SRTPS_PREFIX,
};
use crate::messages::wire::{
    Endianness,
    copy_range,
    endianness_of,
    flag_set,
    put_bytes,
    put_entity_id,
    put_guid_prefix,
    put_i32,
    put_sn,
    put_u16,
    put_u32,
    read_entity_id,
    read_guid_prefix,
    read_i32,
    read_sn,
    read_u16,
    read_u32,
};
use crate::structure::cache_change::{SerializedPayload, payload_view};
use crate::structure::time::Timestamp;

verus! {

/// Appends the body of an InfoTimestamp submessage to `buf`.
pub fn write_info_timestamp(buf: &mut Vec<u8>, x: &InfoTimestamp, e: Endianness)
    ensures
        final(buf)@ == old(buf)@ + info_timestamp_bytes(*x, e),
{
    match x.timestamp {
        Some(t) => {
            put_i32(buf, t.seconds, e);
            put_u32(buf, t.fraction, e);
        },
        None => {},
    }
    assert(buf@ =~= old(buf)@ + info_timestamp_bytes(*x, e));
}

/// Reads the body of an InfoTimestamp submessage from `s`, which holds the body and
/// nothing else; `None` where `s` does not hold such a body.
pub fn read_info_timestamp(flags: u8, s: &[u8]) -> (r: Option<InfoTimestamp>)
    ensures
        r == info_timestamp_at(flags, s@),
{
    let e = endianness_of(flags);
    if flag_set(flags, INFOTIMESTAMP_FLAG_INVALIDATE) {
        return Some(InfoTimestamp { timestamp: None });
    }
    if s.len() < 8 {
        return None;
    }
    Some(
        InfoTimestamp {
            timestamp: Some(Timestamp { seconds: read_i32(s, 0, e), fraction: read_u32(s, 4, e) }),
        },
    )
}

/// Appends the body of an InfoDestination submessage to `buf`.
pub fn write_info_destination(buf: &mut Vec<u8>, x: &InfoDestination)
    ensures
        final(buf)@ == old(buf)@ + info_destination_bytes(*x),
{
    put_guid_prefix(buf, x.guid_prefix);
}

/// Reads the body of an InfoDestination submessage from `s`, which holds the body and
/// nothing else; `None` where `s` does not hold such a body.
pub fn read_info_destination(s: &[u8]) -> (r: Option<InfoDestination>)
    ensures
        r == info_destination_at(s@),
{
    if s.len() < 12 {
        return None;
    }
    Some(InfoDestination { guid_prefix: read_guid_prefix(s, 0) })
}

/// Appends the body of an InfoSource submessage to `buf`.
pub fn write_info_source(buf: &mut Vec<u8>, x: &InfoSource, e: Endianness)
    ensures
        final(buf)@ == old(buf)@ + info_source_bytes(*x, e),
{
    put_u32(buf, 0, e);
    buf.push(x.protocol_version.major);
    buf.push(x.protocol_version.minor);
    buf.push(x.vendor_id.first);
    buf.push(x.vendor_id.second);
    put_guid_prefix(buf, x.guid_prefix);
    assert(buf@ =~= old(buf)@ + info_source_bytes(*x, e));
}

/// Reads the body of an InfoSource submessage from `s`, which holds the body and
/// nothing else; `None` where `s` does not hold such a body.
pub fn read_info_source(s: &[u8]) -> (r: Option<InfoSource>)
    ensures
        r == info_source_at(s@),
{
    if s.len() < 20 {
        return None;
    }
    Some(
        InfoSource {
            protocol_version: ProtocolVersion { major: s[4], minor: s[5] },
            vendor_id: VendorId { first: s[6], second: s[7] },
            guid_prefix: read_guid_prefix(s, 8),
        },
    )
}

/// Appends the body of an InfoReply submessage to `buf`.
pub fn write_info_reply(buf: &mut Vec<u8>, x: &InfoReply, e: Endianness)
    requires
        body_writable(crate::messages::submessages::BodyView::InfoReply(x@)),
    ensures
        final(buf)@ == old(buf)@ + info_reply_bytes(x@, e),
{
    put_locator_list(buf, &x.unicast_locator_list, e);
    match &x.multicast_locator_list {
        Some(m) => {
            put_locator_list(buf, m, e);
        },
        None => {},
    }
    assert(buf@ =~= old(buf)@ + info_reply_bytes(x@, e));
}

/// Reads the body of an InfoReply submessage from `s`, which holds the body and
/// nothing else; `None` where `s` does not hold such a body.
pub fn read_info_reply(flags: u8, s: &[u8]) -> (r: Option<InfoReply>)
    ensures
        match info_reply_at(flags, s@) {
            Some(v) => r matches Some(x) && x@ == v,
            None => r is None,
        },
{
    let e = endianness_of(flags);
    match read_locator_list(s, 0, e) {
        None => None,
        Some((u, end)) => {
            if flag_set(flags, INFOREPLY_FLAG_MULTICAST) {
                match read_locator_list(s, end, e) {
                    None => None,
                    Some((m, _)) => Some(
                        InfoReply { unicast_locator_list: u, multicast_locator_list: Some(m) },
                    ),
                }
            } else {
                Some(InfoReply { unicast_locator_list: u, multicast_locator_list: None })
            }
        },
    }
}

/// Appends the body of a Heartbeat submessage to `buf`.
pub fn write_heartbeat(buf: &mut Vec<u8>, x: &Heartbeat, e: Endianness)
    ensures
        final(buf)@ == old(buf)@ + heartbeat_bytes(*x, e),
{
    put_entity_id(buf, x.reader_id);
    put_entity_id(buf, x.writer_id);
    put_sn(buf, x.first_sn, e);
    put_sn(buf, x.last_sn, e);
    put_i32(buf, x.count, e);
    assert(buf@ =~= old(buf)@ + heartbeat_bytes(*x, e));
}

/// Reads the body of a Heartbeat submessage from `s`, which holds the body and
/// nothing else; `None` where `s` does not hold such a body.
pub fn read_heartbeat(flags: u8, s: &[u8]) -> (r: Option<Heartbeat>)
    ensures
        r == heartbeat_at(flags, s@),
{
    let e = endianness_of(flags);
    if s.len() < 28 {
        return None;
    }
    Some(
        Heartbeat {
            reader_id: read_entity_id(s, 0),
            writer_id: read_entity_id(s, 4),
            first_sn: read_sn(s, 8, e),
            last_sn: read_sn(s, 16, e),
            count: read_i32(s, 24, e),
        },
    )
}

/// Appends the body of a HeartbeatFrag submessage to `buf`.
pub fn write_heartbeat_frag(buf: &mut Vec<u8>, x: &HeartbeatFrag, e: Endianness)
    ensures
        final(buf)@ == old(buf)@ + heartbeat_frag_bytes(*x, e),
{
    put_entity_id(buf, x.reader_id);
    put_entity_id(buf, x.writer_id);
    put_sn(buf, x.writer_sn, e);
    put_u32(buf, x.last_fragment_num, e);
    put_i32(buf, x.count, e);
    assert(buf@ =~= old(buf)@ + heartbeat_frag_bytes(*x, e));
}

/// Reads the body of a HeartbeatFrag submessage from `s`, which holds the body and
/// nothing else; `None` where `s` does not hold such a body.
pub fn read_heartbeat_frag(flags: u8, s: &[u8]) -> (r: Option<HeartbeatFrag>)
    ensures
        r == heartbeat_frag_at(flags, s@),
{
    let e = endianness_of(flags);
    if s.len() < 24 {
        return None;
    }
    Some(
        HeartbeatFrag {
            reader_id: read_entity_id(s, 0),
            writer_id: read_entity_id(s, 4),
            writer_sn: read_sn(s, 8, e),
            last_fragment_num: read_u32(s, 16, e),
            count: read_i32(s, 20, e),
        },
    )
}

/// Appends the body of a Gap submessage to `buf`.
pub fn write_gap(buf: &mut Vec<u8>, x: &Gap, e: Endianness)
    ensures
        final(buf)@ == old(buf)@ + gap_bytes(x@, e),
{
    put_entity_id(buf, x.reader_id);
    put_entity_id(buf, x.writer_id);
    put_sn(buf, x.gap_start, e);
    x.gap_list.write_to(buf, e);
    assert(buf@ =~= old(buf)@ + gap_bytes(x@, e));
}

/// Reads the body of a Gap submessage from `s`, which holds the body and
/// nothing else; `None` where `s` does not hold such a body.
pub fn read_gap(flags: u8, s: &[u8]) -> (r: Option<Gap>)
    ensures
        match gap_at(flags, s@) {
            Some(v) => r matches Some(x) && x@ == v,
            None => r is None,
        },
{
    let e = endianness_of(flags);
    if s.len() < 16 {
        return None;
    }
    match SequenceNumberSet::read_from(s, 16, e) {
        None => None,
        Some((set, _)) => Some(
            Gap {
                reader_id: read_entity_id(s, 0),
                writer_id: read_entity_id(s, 4),
                gap_start: read_sn(s, 8, e),
                gap_list: set,
            },
        ),
    }
}

/// Appends the body of an AckNack submessage to `buf`.
pub fn write_acknack(buf: &mut Vec<u8>, x: &AckNack, e: Endianness)
    ensures
        final(buf)@ == old(buf)@ + acknack_bytes(x@, e),
{
    put_entity_id(buf, x.reader_id);
    put_entity_id(buf, x.writer_id);
    x.reader_sn_state.write_to(buf, e);
    put_i32(buf, x.count, e);
    assert(buf@ =~= old(buf)@ + acknack_bytes(x@, e));
}

/// Reads the body of an AckNack submessage from `s`, which holds the body and
/// nothing else; `None` where `s` does not hold such a body.
pub fn read_acknack(flags: u8, s: &[u8]) -> (r: Option<AckNack>)
    ensures
        match acknack_at(flags, s@) {
            Some(v) => r matches Some(x) && x@ == v,
            None => r is None,
        },
{
    let e = endianness_of(flags);
    let len = s.len();
    if len < 8 {
        return None;
    }
    match SequenceNumberSet::read_from(s, 8, e) {
        None => None,
        Some((set, end)) => {
            if len - end < 4 {
                return None;
            }
            Some(
                AckNack {
                    reader_id: read_entity_id(s, 0),
                    writer_id: read_entity_id(s, 4),
                    reader_sn_state: set,
                    count: read_i32(s, end, e),
                },
            )
        },
    }
}

/// Appends the body of a NackFrag submessage to `buf`.
pub fn write_nack_frag(buf: &mut Vec<u8>, x: &NackFrag, e: Endianness)
    ensures
        final(buf)@ == old(buf)@ + nack_frag_bytes(x@, e),
{
    put_entity_id(buf, x.reader_id);
    put_entity_id(buf, x.writer_id);
    put_sn(buf, x.writer_sn, e);
    put_u32(buf, x.fragment_base, e);
    put_u32(buf, x.fragment_num_bits, e);
    put_words(buf, &x.fragment_bitmap, e);
    put_i32(buf, x.count, e);
    assert(buf@ =~= old(buf)@ + nack_frag_bytes(x@, e));
}

/// Reads the body of a NackFrag submessage from `s`, which holds the body and
/// nothing else; `None` where `s` does not hold such a body.
pub fn read_nack_frag(flags: u8, s: &[u8]) -> (r: Option<NackFrag>)
    ensures
        match nack_frag_at(flags, s@) {
            Some(v) => r matches Some(x) && x@ == v,
            None => r is None,
        },
{
    let e = endianness_of(flags);
    let len = s.len();
    if len < 24 {
        return None;
    }
    let num_bits = read_u32(s, 20, e);
    let n = words_for(num_bits);
    if len - 24 < 4 || (len - 28) / 4 < n {
        return None;
    }
    let bitmap = read_words(s, 24, n, e);
    Some(
        NackFrag {
            reader_id: read_entity_id(s, 0),
            writer_id: read_entity_id(s, 4),
            writer_sn: read_sn(s, 8, e),
            fragment_base: read_u32(s, 16, e),
            fragment_num_bits: num_bits,
            fragment_bitmap: bitmap,
            count: read_i32(s, 24 + 4 * n, e),
        },
    )
}

fn write_qos(buf: &mut Vec<u8>, q: &Option<ParameterList>, e: Endianness)
    requires
        match qos_view(*q) {
            Some(ps) => parameters_writable(ps),
            None => true,
        },
    ensures
        final(buf)@ == old(buf)@ + qos_bytes(qos_view(*q), e),
{
    match q {
        Some(l) => {
            put_parameter_list(buf, l, e);
        },
        None => {
            assert(buf@ =~= old(buf)@ + qos_bytes(qos_view(*q), e));
        },
    }
}

fn read_qos(flags: u8, mask: u8, s: &[u8], start: usize) -> (r: Option<
    (Option<ParameterList>, usize),
>)
    requires
        start <= s@.len(),
    ensures
        match qos_at(flags, mask, s@, start as int) {
            Some((q, end)) => r matches Some((x, n)) && qos_view(x) == q && n == end && n
                <= s@.len(),
            None => r is None,
        },
{
    let e = endianness_of(flags);
    if flag_set(flags, mask) {
        match read_parameter_list(s, start, e) {
            None => None,
            Some((ps, end)) => Some((Some(ps), end)),
        }
    } else {
        Some((None, start))
    }
}

fn write_payload(buf: &mut Vec<u8>, p: &Option<SerializedPayload>)
    ensures
        final(buf)@ == old(buf)@ + payload_bytes(payload_view(*p)),
{
    match p {
        Some(x) => {
            put_u16(buf, x.representation_identifier, Endianness::BigEndian);
            put_u16(buf, x.representation_options, Endianness::BigEndian);
            put_bytes(buf, x.value.as_slice());
        },
        None => {},
    }
    assert(buf@ =~= old(buf)@ + payload_bytes(payload_view(*p)));
}

/// Appends the body of a Data submessage to `buf`.
pub fn write_data(buf: &mut Vec<u8>, x: &Data, e: Endianness)
    requires
        body_writable(crate::messages::submessages::BodyView::Data(x@)),
    ensures
        final(buf)@ == old(buf)@ + data_bytes(x@, e),
{
    put_u16(buf, 0, e);
    put_u16(buf, 16, e);
    put_entity_id(buf, x.reader_id);
    put_entity_id(buf, x.writer_id);
    put_sn(buf, x.writer_sn, e);
    write_qos(buf, &x.inline_qos, e);
    write_payload(buf, &x.serialized_payload);
    assert(buf@ =~= old(buf)@ + data_bytes(x@, e));
}

/// Reads the body of a Data submessage from `s`, which holds the body and
/// nothing else; `None` where `s` does not hold such a body.
pub fn read_data(flags: u8, s: &[u8]) -> (r: Option<Data>)
    ensures
        match data_at(flags, s@) {
            Some(v) => r matches Some(x) && x@ == v,
            None => r is None,
        },
{
    let e = endianness_of(flags);
    let len = s.len();
    if len < 20 {
        return None;
    }
    let octets = read_u16(s, 2, e) as usize;
    if octets < 16 || octets > len - 4 {
        return None;
    }
    match read_qos(flags, DATA_FLAG_INLINE_QOS, s, 4 + octets) {
        None => None,
        Some((qos, end)) => {
            if flag_set(flags, DATA_FLAG_DATA) || flag_set(flags, DATA_FLAG_KEY) {
                if len - end < 4 {
                    return None;
                }
                let payload = SerializedPayload {
                    representation_identifier: read_u16(s, end, Endianness::BigEndian),
                    representation_options: read_u16(s, end + 2, Endianness::BigEndian),
                    value: copy_range(s, end + 4, len),
                };
                Some(
                    Data {
                        reader_id: read_entity_id(s, 4),
                        writer_id: read_entity_id(s, 8),
                        writer_sn: read_sn(s, 12, e),
                        inline_qos: qos,
                        serialized_payload: Some(payload),
                    },
                )
            } else {
                Some(
                    Data {
                        reader_id: read_entity_id(s, 4),
                        writer_id: read_entity_id(s, 8),
                        writer_sn: read_sn(s, 12, e),
                        inline_qos: qos,
                        serialized_payload: None,
                    },
                )
            }
        },
    }
}

/// Appends the body of a DataFrag submessage to `buf`.
pub fn write_data_frag(buf: &mut Vec<u8>, x: &DataFrag, e: Endianness)
    requires
        body_writable(crate::messages::submessages::BodyView::DataFrag(x@)),
    ensures
        final(buf)@ == old(buf)@ + data_frag_bytes(x@, e),
{
    put_u16(buf, 0, e);
    put_u16(buf, 28, e);
    put_entity_id(buf, x.reader_id);
    put_entity_id(buf, x.writer_id);
    put_sn(buf, x.writer_sn, e);
    put_u32(buf, x.fragment_starting_num, e);
    put_u16(buf, x.fragments_in_submessage, e);
    put_u16(buf, x.fragment_size, e);
    put_u32(buf, x.data_size, e);
    write_qos(buf, &x.inline_qos, e);
    put_bytes(buf, x.serialized_payload.as_slice());
    assert(buf@ =~= old(buf)@ + data_frag_bytes(x@, e));
}

/// Reads the body of a DataFrag submessage from `s`, which holds the body and
/// nothing else; `None` where `s` does not hold such a body.
pub fn read_data_frag(flags: u8, s: &[u8]) -> (r: Option<DataFrag>)
    ensures
        match data_frag_at(flags, s@) {
            Some(v) => r matches Some(x) && x@ == v,
            None => r is None,
        },
{
    let e = endianness_of(flags);
    let len = s.len();
    if len < 32 {
        return None;
    }
    let octets = read_u16(s, 2, e) as usize;
    if octets < 28 || octets > len - 4 {
        return None;
    }
    match read_qos(flags, DATAFRAG_FLAG_INLINE_QOS, s, 4 + octets) {
        None => None,
        Some((qos, end)) => {
            Some(
                DataFrag {
                    reader_id: read_entity_id(s, 4),
                    writer_id: read_entity_id(s, 8),
                    writer_sn: read_sn(s, 12, e),
                    fragment_starting_num: read_u32(s, 20, e),
                    fragments_in_submessage: read_u16(s, 24, e),
                    fragment_size: read_u16(s, 26, e),
                    data_size: read_u32(s, 28, e),
                    inline_qos: qos,
                    serialized_payload: copy_range(s, end, len),
                },
            )
        },
    }
}

/// Appends the bytes of `body` in the byte order its flags announce.
pub fn write_body(buf: &mut Vec<u8>, body: &SubmessageBody)
    requires
        body_writable(body.body()),
    ensures
        final(buf)@ == old(buf)@ + body_bytes(body.body(), body.flags()),
{
    reveal(body_bytes);
    match body {
        SubmessageBody::Interpreter(m) => match m {
            InterpreterSubmessage::InfoTimestamp(x, f) => write_info_timestamp(
                buf,
                x,
                endianness_of(*f),
            ),
            InterpreterSubmessage::InfoSource(x, f) => write_info_source(buf, x, endianness_of(*f)),
            InterpreterSubmessage::InfoReply(x, f) => write_info_reply(buf, x, endianness_of(*f)),
            InterpreterSubmessage::InfoDestination(x, _) => write_info_destination(buf, x),
        },
        SubmessageBody::Writer(m) => match m {
            WriterSubmessage::Data(x, f) => write_data(buf, x, endianness_of(*f)),
            WriterSubmessage::DataFrag(x, f) => write_data_frag(buf, x, endianness_of(*f)),
            WriterSubmessage::Gap(x, f) => write_gap(buf, x, endianness_of(*f)),
            WriterSubmessage::Heartbeat(x, f) => write_heartbeat(buf, x, endianness_of(*f)),
            WriterSubmessage::HeartbeatFrag(x, f) => write_heartbeat_frag(
                buf,
                x,
                endianness_of(*f),
            ),
        },
        SubmessageBody::Reader(m) => match m {
            ReaderSubmessage::AckNack(x, f) => write_acknack(buf, x, endianness_of(*f)),
            ReaderSubmessage::NackFrag(x, f) => write_nack_frag(buf, x, endianness_of(*f)),
        },
        SubmessageBody::Security(m) => match m {
            SecuritySubmessage::SecureBody(x, _) => put_bytes(buf, x.content.as_slice()),
            SecuritySubmessage::SecurePrefix(x, _) => put_bytes(buf, x.content.as_slice()),
            SecuritySubmessage::SecurePostfix(x, _) => put_bytes(buf, x.content.as_slice()),
            SecuritySubmessage::SecureRTPSPrefix(x, _) => put_bytes(buf, x.content.as_slice()),
            SecuritySubmessage::SecureRTPSPostfix(x, _) => put_bytes(buf, x.content.as_slice()),
        },
    }
}

/// Reads the body of kind `kind` from the bytes `s`, which hold it alone.
pub fn read_body(kind: u8, flags: u8, s: &[u8]) -> (r: Option<SubmessageBody>)
    ensures
        match body_at(kind, flags, s@) {
            Some(b) => r matches Some(x) && x.body() == b && x.flags() == flags,
            None => r is None,
        },
{
    reveal(body_at);
    if kind == SUBMESSAGE_KIND_INFO_TS {
        match read_info_timestamp(flags, s) {
            Some(x) => Some(
                SubmessageBody::Interpreter(InterpreterSubmessage::InfoTimestamp(x, flags)),
            ),
            None => None,
        }
    } else if kind == SUBMESSAGE_KIND_INFO_SRC {
        match read_info_source(s) {
            Some(x) => Some(SubmessageBody::Interpreter(InterpreterSubmessage::InfoSource(x, flags))),
            None => None,
        }
    } else if kind == SUBMESSAGE_KIND_INFO_REPLY {
        match read_info_reply(flags, s) {
            Some(x) => Some(SubmessageBody::Interpreter(InterpreterSubmessage::InfoReply(x, flags))),
            None => None,
        }
    } else if kind == SUBMESSAGE_KIND_INFO_DST {
        match read_info_destination(s) {
            Some(x) => Some(
                SubmessageBody::Interpreter(InterpreterSubmessage::InfoDestination(x, flags)),
            ),
            None => None,
        }
    } else if kind == SUBMESSAGE_KIND_DATA {
        match read_data(flags, s) {
            Some(x) => Some(SubmessageBody::Writer(WriterSubmessage::Data(x, flags))),
            None => None,
        }
    } else if kind == SUBMESSAGE_KIND_DATA_FRAG {
        match read_data_frag(flags, s) {
            Some(x) => Some(SubmessageBody::Writer(WriterSubmessage::DataFrag(x, flags))),
            None => None,
        }
    } else if kind == SUBMESSAGE_KIND_GAP {
        match read_gap(flags, s) {
            Some(x) => Some(SubmessageBody::Writer(WriterSubmessage::Gap(x, flags))),
            None => None,
        }
    } else if kind == SUBMESSAGE_KIND_HEARTBEAT {
        match read_heartbeat(flags, s) {
            Some(x) => Some(SubmessageBody::Writer(WriterSubmessage::Heartbeat(x, flags))),
            None => None,
        }
    } else if kind == SUBMESSAGE_KIND_HEARTBEAT_FRAG {
        match read_heartbeat_frag(flags, s) {
            Some(x) => Some(SubmessageBody::Writer(WriterSubmessage::HeartbeatFrag(x, flags))),
            None => None,
        }
    } else if kind == SUBMESSAGE_KIND_ACKNACK {
        match read_acknack(flags, s) {
            Some(x) => Some(SubmessageBody::Reader(ReaderSubmessage::AckNack(x, flags))),
            None => None,
        }
    } else if kind == SUBMESSAGE_KIND_NACK_FRAG {
        match read_nack_frag(flags, s) {
            Some(x) => Some(SubmessageBody::Reader(ReaderSubmessage::NackFrag(x, flags))),
            None => None,
        }
    } else if kind == SUBMESSAGE_KIND_SEC_BODY {
        let content = copy_range(s, 0, s.len());
        assert(content@ =~= s@);
        Some(SubmessageBody::Security(SecuritySubmessage::SecureBody(SecureBody { content }, flags)))
    } else if kind == SUBMESSAGE_KIND_SEC_PREFIX {
        let content = copy_range(s, 0, s.len());
        assert(content@ =~= s@);
        Some(
            SubmessageBody::Security(
                SecuritySubmessage::SecurePrefix(SecurePrefix { content }, flags),
            ),
        )
    } else if kind == SUBMESSAGE_KIND_SEC_POSTFIX {
        let content = copy_range(s, 0, s.len());
        assert(content@ =~= s@);
        Some(
            SubmessageBody::Security(
                SecuritySubmessage::SecurePostfix(SecurePostfix { content }, flags),
            ),
        )
    } else if kind == SUBMESSAGE_KIND_SRTPS_PREFIX {
        let content = copy_range(s, 0, s.len());
        assert(content@ =~= s@);
        Some(
            SubmessageBody::Security(
                SecuritySubmessage::SecureRTPSPrefix(SecureRTPSPrefix { content }, flags),
            ),
        )
    } else if kind == SUBMESSAGE_KIND_SRTPS_POSTFIX {
        let content = copy_range(s, 0, s.len());
        assert(content@ =~= s@);
        Some(
            SubmessageBody::Security(
                SecuritySubmessage::SecureRTPSPostfix(SecureRTPSPostfix { content }, flags),
            ),
        )
    } else {
        None
    }
}

} // verus!
