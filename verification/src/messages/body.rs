use vstd::prelude::*;
use crate::messages::elements::{
    sn_set_at,
    words_at,
    words_bytes,
    spec_words_for,
    locator_list_at,
    locator_list_bytes,
    lemma_u32_embedded,
    lemma_i32_embedded,
    lemma_sn_embedded,
    lemma_words_embedded,
    lemma_sn_set_embedded,
    lemma_locator_list_embedded,
};
use crate::messages::header::{ProtocolVersion, VendorId};
use crate::messages::parameter_list::{
    ParameterView,
    parameter_list_at,
    parameter_list_bytes,
    parameters_exact,
    parameters_writable,
    lemma_parameter_list_embedded,
    lemma_u16_embedded,
};
use crate::messages::submessages::{
    AckNack,
    AckNackView,
    BodyView,
    DATAFRAG_FLAG_INLINE_QOS,
    DATA_FLAG_DATA,
    DATA_FLAG_INLINE_QOS,
    DATA_FLAG_KEY,
    Data,
    DataFrag,
    DataFragView,
    DataView,
    Gap,
    GapView,
    Heartbeat,
    HeartbeatFrag,
    INFOREPLY_FLAG_MULTICAST,
    INFOTIMESTAMP_FLAG_INVALIDATE,
    InfoDestination,
    InfoReply,
    InfoReplyView,
    InfoSource,
    InfoTimestamp,
    NackFrag,
    NackFragView,
    SUBMESSAGE_KIND_ACKNACK,
    SUBMESSAGE_KIND_DATA,
    SUBMESSAGE_KIND_DATA_FRAG,
    SUBMESSAGE_KIND_GAP,
    SUBMESSAGE_KIND_HEARTBEAT,
    SUBMESSAGE_KIND_HEARTBEAT_FRAG,
    SUBMESSAGE_KIND_INFO_DST,
    SUBMESSAGE_KIND_INFO_REPLY,
    SUBMESSAGE_KIND_INFO_SRC,
    SUBMESSAGE_KIND_INFO_TS,
    SUBMESSAGE_KIND_NACK_FRAG,
    SUBMESSAGE_KIND_SEC_BODY,
    SUBMESSAGE_KIND_SEC_POSTFIX,
    SUBMESSAGE_KIND_SEC_PREFIX,
    SUBMESSAGE_KIND_SRTPS_POSTFIX,
    SUBMESSAGE_KIND_SRTPS_PREFIX,
    SecureBody,
    SecurePostfix,
    SecurePrefix,
    SecureRTPSPostfix,
    SecureRTPSPrefix,
};
use crate::messages::wire::{
    Endianness,
    entity_id_at,
    entity_id_bytes,
    guid_prefix_at,
    guid_prefix_bytes,
    i32_at,
    i32_bytes,
    sn_at,
    sn_bytes,
    spec_endianness_of,
    spec_flag_set,
    u16_at,
    u16_bytes,
    u32_at,
    u32_bytes,
};
use crate::structure::cache_change::SerializedPayloadView;
use crate::structure::guid::{EntityId, GuidPrefix};
use crate::structure::time::Timestamp;

verus! {

/// Where `s` holds the bytes of an entity id at `off`, reading `s` at `off` gives
/// it back.
pub proof fn lemma_entity_id_embedded(s: Seq<u8>, off: int, id: EntityId)
    requires
        0 <= off,
        off + 4 <= s.len(),
        s.subrange(off, off + 4) == entity_id_bytes(id),
    ensures
        entity_id_at(s, off) == id,
{
    let t = s.subrange(off, off + 4);
    assert(t[0] == s[off] && t[1] == s[off + 1] && t[2] == s[off + 2] && t[3] == s[off + 3]);
    assert(entity_id_at(s, off).entity_key =~= id.entity_key);
}

/// Where `s` holds the bytes of a GUID prefix at `off`, reading `s` at `off` gives
/// it back.
pub proof fn lemma_guid_prefix_embedded(s: Seq<u8>, off: int, p: GuidPrefix)
    requires
        0 <= off,
        off + 12 <= s.len(),
        s.subrange(off, off + 12) == guid_prefix_bytes(p),
    ensures
        guid_prefix_at(s, off) == p,
{
    let t = s.subrange(off, off + 12);
    assert forall|k: int| 0 <= k < 12 implies guid_prefix_at(s, off).bytes[k] == p.bytes[k] by {
        assert(t[k] == s[off + k]);
    }
    assert(guid_prefix_at(s, off).bytes =~= p.bytes);
}

/// The kind octet under which a body travels.
pub open spec fn body_kind(b: BodyView) -> u8 {
    match b {
        BodyView::InfoTimestamp(_) => SUBMESSAGE_KIND_INFO_TS,
        BodyView::InfoSource(_) => SUBMESSAGE_KIND_INFO_SRC,
        BodyView::InfoReply(_) => SUBMESSAGE_KIND_INFO_REPLY,
        BodyView::InfoDestination(_) => SUBMESSAGE_KIND_INFO_DST,
        BodyView::Data(_) => SUBMESSAGE_KIND_DATA,
        BodyView::DataFrag(_) => SUBMESSAGE_KIND_DATA_FRAG,
        BodyView::Gap(_) => SUBMESSAGE_KIND_GAP,
        BodyView::Heartbeat(_) => SUBMESSAGE_KIND_HEARTBEAT,
        BodyView::HeartbeatFrag(_) => SUBMESSAGE_KIND_HEARTBEAT_FRAG,
        BodyView::AckNack(_) => SUBMESSAGE_KIND_ACKNACK,
        BodyView::NackFrag(_) => SUBMESSAGE_KIND_NACK_FRAG,
        BodyView::SecureBody(_) => SUBMESSAGE_KIND_SEC_BODY,
        BodyView::SecurePrefix(_) => SUBMESSAGE_KIND_SEC_PREFIX,
        BodyView::SecurePostfix(_) => SUBMESSAGE_KIND_SEC_POSTFIX,
        BodyView::SecureRTPSPrefix(_) => SUBMESSAGE_KIND_SRTPS_PREFIX,
        BodyView::SecureRTPSPostfix(_) => SUBMESSAGE_KIND_SRTPS_POSTFIX,
    }
}

/// Whether `kind` is the kind octet of a submessage this crate reads.
pub open spec fn spec_known_kind(kind: u8) -> bool {
    kind == SUBMESSAGE_KIND_INFO_TS || kind == SUBMESSAGE_KIND_INFO_SRC || kind
        == SUBMESSAGE_KIND_INFO_REPLY || kind == SUBMESSAGE_KIND_INFO_DST || kind
        == SUBMESSAGE_KIND_DATA || kind == SUBMESSAGE_KIND_DATA_FRAG || kind
        == SUBMESSAGE_KIND_GAP || kind == SUBMESSAGE_KIND_HEARTBEAT || kind
        == SUBMESSAGE_KIND_HEARTBEAT_FRAG || kind == SUBMESSAGE_KIND_ACKNACK || kind
        == SUBMESSAGE_KIND_NACK_FRAG || kind == SUBMESSAGE_KIND_SEC_BODY || kind
        == SUBMESSAGE_KIND_SEC_PREFIX || kind == SUBMESSAGE_KIND_SEC_POSTFIX || kind
        == SUBMESSAGE_KIND_SRTPS_PREFIX || kind == SUBMESSAGE_KIND_SRTPS_POSTFIX
}

/// The body of an InfoTimestamp submessage on the wire.
pub open spec fn info_timestamp_bytes(x: InfoTimestamp, e: Endianness) -> Seq<u8> {
    match x.timestamp {
        Some(t) => i32_bytes(t.seconds, e) + u32_bytes(t.fraction, e),
        None => Seq::empty(),
    }
}

/// The body of an InfoTimestamp submessage that `s` holds; `None` where `s` does not
/// hold such a body.
pub open spec fn info_timestamp_at(flags: u8, s: Seq<u8>) -> Option<InfoTimestamp> {
    let e = spec_endianness_of(flags);
    if spec_flag_set(flags, INFOTIMESTAMP_FLAG_INVALIDATE) {
        Some(InfoTimestamp { timestamp: None })
    } else if s.len() < 8 {
        None
    } else {
        Some(
            InfoTimestamp {
                timestamp: Some(Timestamp { seconds: i32_at(s, 0, e), fraction: u32_at(s, 4, e) }),
            },
        )
    }
}

/// The body of an InfoDestination submessage on the wire.
pub open spec fn info_destination_bytes(x: InfoDestination) -> Seq<u8> {
    guid_prefix_bytes(x.guid_prefix)
}

/// The body of an InfoDestination submessage that `s` holds; `None` where `s` does not
/// hold such a body.
pub open spec fn info_destination_at(s: Seq<u8>) -> Option<InfoDestination> {
    if s.len() < 12 {
        None
    } else {
        Some(InfoDestination { guid_prefix: guid_prefix_at(s, 0) })
    }
}

/// The body of an InfoSource submessage on the wire.
pub open spec fn info_source_bytes(x: InfoSource, e: Endianness) -> Seq<u8> {
    u32_bytes(0, e) + seq![
        x.protocol_version.major,
        x.protocol_version.minor,
        x.vendor_id.first,
        x.vendor_id.second,
    ] + guid_prefix_bytes(x.guid_prefix)
}

/// The body of an InfoSource submessage that `s` holds; `None` where `s` does not
/// hold such a body.
pub open spec fn info_source_at(s: Seq<u8>) -> Option<InfoSource> {
    if s.len() < 20 {
        None
    } else {
        Some(
            InfoSource {
                protocol_version: ProtocolVersion { major: s[4], minor: s[5] },
                vendor_id: VendorId { first: s[6], second: s[7] },
                guid_prefix: guid_prefix_at(s, 8),
            },
        )
    }
}

/// The body of an InfoReply submessage on the wire.
pub open spec fn info_reply_bytes(x: InfoReplyView, e: Endianness) -> Seq<u8> {
    locator_list_bytes(x.unicast_locator_list, e) + match x.multicast_locator_list {
        Some(m) => locator_list_bytes(m, e),
        None => Seq::empty(),
    }
}

/// The body of an InfoReply submessage that `s` holds; `None` where `s` does not
/// hold such a body.
pub open spec fn info_reply_at(flags: u8, s: Seq<u8>) -> Option<InfoReplyView> {
    let e = spec_endianness_of(flags);
    match locator_list_at(s, 0, e) {
        None => None,
        Some((u, end)) => {
            if spec_flag_set(flags, INFOREPLY_FLAG_MULTICAST) {
                match locator_list_at(s, end, e) {
                    None => None,
                    Some((m, _)) => Some(
                        InfoReplyView { unicast_locator_list: u, multicast_locator_list: Some(m) },
                    ),
                }
            } else {
                Some(InfoReplyView { unicast_locator_list: u, multicast_locator_list: None })
            }
        },
    }
}

/// The body of a Heartbeat submessage on the wire.
pub open spec fn heartbeat_bytes(x: Heartbeat, e: Endianness) -> Seq<u8> {
    entity_id_bytes(x.reader_id) + entity_id_bytes(x.writer_id) + sn_bytes(x.first_sn, e)
        + sn_bytes(x.last_sn, e) + i32_bytes(x.count, e)
}

/// The body of a Heartbeat submessage that `s` holds; `None` where `s` does not
/// hold such a body.
pub open spec fn heartbeat_at(flags: u8, s: Seq<u8>) -> Option<Heartbeat> {
    let e = spec_endianness_of(flags);
    if s.len() < 28 {
        None
    } else {
        Some(
            Heartbeat {
                reader_id: entity_id_at(s, 0),
                writer_id: entity_id_at(s, 4),
                first_sn: sn_at(s, 8, e),
                last_sn: sn_at(s, 16, e),
                count: i32_at(s, 24, e),
            },
        )
    }
}

/// The body of a HeartbeatFrag submessage on the wire.
pub open spec fn heartbeat_frag_bytes(x: HeartbeatFrag, e: Endianness) -> Seq<u8> {
    entity_id_bytes(x.reader_id) + entity_id_bytes(x.writer_id) + sn_bytes(x.writer_sn, e)
        + u32_bytes(x.last_fragment_num, e) + i32_bytes(x.count, e)
}

/// The body of a HeartbeatFrag submessage that `s` holds; `None` where `s` does not
/// hold such a body.
pub open spec fn heartbeat_frag_at(flags: u8, s: Seq<u8>) -> Option<HeartbeatFrag> {
    let e = spec_endianness_of(flags);
    if s.len() < 24 {
        None
    } else {
        Some(
            HeartbeatFrag {
                reader_id: entity_id_at(s, 0),
                writer_id: entity_id_at(s, 4),
                writer_sn: sn_at(s, 8, e),
                last_fragment_num: u32_at(s, 16, e),
                count: i32_at(s, 20, e),
            },
        )
    }
}

/// The body of a Gap submessage on the wire.
pub open spec fn gap_bytes(x: GapView, e: Endianness) -> Seq<u8> {
    entity_id_bytes(x.reader_id) + entity_id_bytes(x.writer_id) + sn_bytes(x.gap_start, e)
        + x.gap_list.bytes(e)
}

/// The body of a Gap submessage that `s` holds; `None` where `s` does not
/// hold such a body.
pub open spec fn gap_at(flags: u8, s: Seq<u8>) -> Option<GapView> {
    let e = spec_endianness_of(flags);
    if s.len() < 16 {
        None
    } else {
        match sn_set_at(s, 16, e) {
            None => None,
            Some((set, _)) => Some(
                GapView {
                    reader_id: entity_id_at(s, 0),
                    writer_id: entity_id_at(s, 4),
                    gap_start: sn_at(s, 8, e),
                    gap_list: set,
                },
            ),
        }
    }
}

/// The body of an AckNack submessage on the wire.
pub open spec fn acknack_bytes(x: AckNackView, e: Endianness) -> Seq<u8> {
    entity_id_bytes(x.reader_id) + entity_id_bytes(x.writer_id) + x.reader_sn_state.bytes(e)
        + i32_bytes(x.count, e)
}

/// The body of an AckNack submessage that `s` holds; `None` where `s` does not
/// hold such a body.
pub open spec fn acknack_at(flags: u8, s: Seq<u8>) -> Option<AckNackView> {
    let e = spec_endianness_of(flags);
    if s.len() < 8 {
        None
    } else {
        match sn_set_at(s, 8, e) {
            None => None,
            Some((set, end)) => {
                if end + 4 > s.len() {
                    None
                } else {
                    Some(
                        AckNackView {
                            reader_id: entity_id_at(s, 0),
                            writer_id: entity_id_at(s, 4),
                            reader_sn_state: set,
                            count: i32_at(s, end, e),
                        },
                    )
                }
            },
        }
    }
}

/// The body of a NackFrag submessage on the wire.
pub open spec fn nack_frag_bytes(x: NackFragView, e: Endianness) -> Seq<u8> {
    entity_id_bytes(x.reader_id) + entity_id_bytes(x.writer_id) + sn_bytes(x.writer_sn, e)
        + u32_bytes(x.fragment_base, e) + u32_bytes(x.fragment_num_bits, e) + words_bytes(
        x.fragment_bitmap,
        e,
    ) + i32_bytes(x.count, e)
}

/// The body of a NackFrag submessage that `s` holds; `None` where `s` does not
/// hold such a body.
pub open spec fn nack_frag_at(flags: u8, s: Seq<u8>) -> Option<NackFragView> {
    let e = spec_endianness_of(flags);
    if s.len() < 24 {
        None
    } else {
        let num_bits = u32_at(s, 20, e);
        let n = spec_words_for(num_bits) as int;
        if 24 + 4 * n + 4 > s.len() {
            None
        } else {
            Some(
                NackFragView {
                    reader_id: entity_id_at(s, 0),
                    writer_id: entity_id_at(s, 4),
                    writer_sn: sn_at(s, 8, e),
                    fragment_base: u32_at(s, 16, e),
                    fragment_num_bits: num_bits,
                    fragment_bitmap: words_at(s, 24, n, e),
                    count: i32_at(s, 24 + 4 * n, e),
                },
            )
        }
    }
}

/// The bytes of an optional in-line QoS list: nothing where there is none.
pub open spec fn qos_bytes(q: Option<Seq<ParameterView>>, e: Endianness) -> Seq<u8> {
    match q {
        Some(ps) => parameter_list_bytes(ps, e),
        None => Seq::empty(),
    }
}

/// A payload on the wire: the identifier of its encoding and its options,
/// both in big-endian whatever the submessage's byte order, then its bytes.
pub open spec fn payload_bytes(p: Option<SerializedPayloadView>) -> Seq<u8> {
    match p {
        Some(x) => u16_bytes(x.representation_identifier, Endianness::BigEndian) + u16_bytes(
            x.representation_options,
            Endianness::BigEndian,
        ) + x.value,
        None => Seq::empty(),
    }
}

/// The body of a Data submessage on the wire.
pub open spec fn data_bytes(x: DataView, e: Endianness) -> Seq<u8> {
    u16_bytes(0, e) + u16_bytes(16, e) + entity_id_bytes(x.reader_id) + entity_id_bytes(
        x.writer_id,
    ) + sn_bytes(x.writer_sn, e) + qos_bytes(x.inline_qos, e) + payload_bytes(
        x.serialized_payload,
    )
}

/// The optional in-line QoS list at `start`, as `flags` announce it under
/// `mask`, and where what follows it begins.
pub open spec fn qos_at(flags: u8, mask: u8, s: Seq<u8>, start: int) -> Option<
    (Option<Seq<ParameterView>>, int),
> {
    let e = spec_endianness_of(flags);
    if spec_flag_set(flags, mask) {
        match parameter_list_at(s, start, e) {
            None => None,
            Some((ps, end)) => Some((Some(ps), end)),
        }
    } else {
        Some((None, start))
    }
}

/// The body of a Data submessage that `s` holds; `None` where `s` does not
/// hold such a body.
pub open spec fn data_at(flags: u8, s: Seq<u8>) -> Option<DataView> {
    let e = spec_endianness_of(flags);
    if s.len() < 20 {
        None
    } else {
        let octets = u16_at(s, 2, e);
        if octets < 16 || 4 + octets > s.len() {
            None
        } else {
            match qos_at(flags, DATA_FLAG_INLINE_QOS, s, 4 + octets) {
                None => None,
                Some((qos, end)) => {
                    if spec_flag_set(flags, DATA_FLAG_DATA) || spec_flag_set(
                        flags,
                        DATA_FLAG_KEY,
                    ) {
                        if end + 4 > s.len() {
                            None
                        } else {
                            Some(
                                DataView {
                                    reader_id: entity_id_at(s, 4),
                                    writer_id: entity_id_at(s, 8),
                                    writer_sn: sn_at(s, 12, e),
                                    inline_qos: qos,
                                    serialized_payload: Some(
                                        SerializedPayloadView {
                                            representation_identifier: u16_at(
                                                s,
                                                end,
                                                Endianness::BigEndian,
                                            ),
                                            representation_options: u16_at(
                                                s,
                                                end + 2,
                                                Endianness::BigEndian,
                                            ),
                                            value: s.subrange(end + 4, s.len() as int),
                                        },
                                    ),
                                },
                            )
                        }
                    } else {
                        Some(
                            DataView {
                                reader_id: entity_id_at(s, 4),
                                writer_id: entity_id_at(s, 8),
                                writer_sn: sn_at(s, 12, e),
                                inline_qos: qos,
                                serialized_payload: None,
                            },
                        )
                    }
                },
            }
        }
    }
}

/// The body of a DataFrag submessage on the wire.
pub open spec fn data_frag_bytes(x: DataFragView, e: Endianness) -> Seq<u8> {
    u16_bytes(0, e) + u16_bytes(28, e) + entity_id_bytes(x.reader_id) + entity_id_bytes(
        x.writer_id,
    ) + sn_bytes(x.writer_sn, e) + u32_bytes(x.fragment_starting_num, e) + u16_bytes(
        x.fragments_in_submessage,
        e,
    ) + u16_bytes(x.fragment_size, e) + u32_bytes(x.data_size, e) + qos_bytes(x.inline_qos, e)
        + x.serialized_payload
}

/// The body of a DataFrag submessage that `s` holds; `None` where `s` does not
/// hold such a body.
pub open spec fn data_frag_at(flags: u8, s: Seq<u8>) -> Option<DataFragView> {
    let e = spec_endianness_of(flags);
    if s.len() < 32 {
        None
    } else {
        let octets = u16_at(s, 2, e);
        if octets < 28 || 4 + octets > s.len() {
            None
        } else {
            match qos_at(flags, DATAFRAG_FLAG_INLINE_QOS, s, 4 + octets) {
                None => None,
                Some((qos, end)) => {
                    if end > s.len() {
                        None
                    } else {
                        Some(
                            DataFragView {
                                reader_id: entity_id_at(s, 4),
                                writer_id: entity_id_at(s, 8),
                                writer_sn: sn_at(s, 12, e),
                                fragment_starting_num: u32_at(s, 20, e),
                                fragments_in_submessage: u16_at(s, 24, e),
                                fragment_size: u16_at(s, 26, e),
                                data_size: u32_at(s, 28, e),
                                inline_qos: qos,
                                serialized_payload: s.subrange(end, s.len() as int),
                            },
                        )
                    }
                },
            }
        }
    }
}

/// What a body is on the wire, in the byte order that `flags` announce.
#[verifier::opaque]
pub open spec fn body_bytes(b: BodyView, flags: u8) -> Seq<u8> {
    let e = spec_endianness_of(flags);
    match b {
        BodyView::InfoTimestamp(x) => info_timestamp_bytes(x, e),
        BodyView::InfoSource(x) => info_source_bytes(x, e),
        BodyView::InfoReply(x) => info_reply_bytes(x, e),
        BodyView::InfoDestination(x) => info_destination_bytes(x),
        BodyView::Data(x) => data_bytes(x, e),
        BodyView::DataFrag(x) => data_frag_bytes(x, e),
        BodyView::Gap(x) => gap_bytes(x, e),
        BodyView::Heartbeat(x) => heartbeat_bytes(x, e),
        BodyView::HeartbeatFrag(x) => heartbeat_frag_bytes(x, e),
        BodyView::AckNack(x) => acknack_bytes(x, e),
        BodyView::NackFrag(x) => nack_frag_bytes(x, e),
        BodyView::SecureBody(x) => x,
        BodyView::SecurePrefix(x) => x,
        BodyView::SecurePostfix(x) => x,
        BodyView::SecureRTPSPrefix(x) => x,
        BodyView::SecureRTPSPostfix(x) => x,
    }
}

/// The body of kind `kind` that the bytes `s` hold under `flags`; nothing
/// where the kind is not known or the bytes do not hold such a body.
#[verifier::opaque]
pub open spec fn body_at(kind: u8, flags: u8, s: Seq<u8>) -> Option<BodyView> {
    if kind == SUBMESSAGE_KIND_INFO_TS {
        match info_timestamp_at(flags, s) {
            Some(x) => Some(BodyView::InfoTimestamp(x)),
            None => None,
        }
    } else if kind == SUBMESSAGE_KIND_INFO_SRC {
        match info_source_at(s) {
            Some(x) => Some(BodyView::InfoSource(x)),
            None => None,
        }
    } else if kind == SUBMESSAGE_KIND_INFO_REPLY {
        match info_reply_at(flags, s) {
            Some(x) => Some(BodyView::InfoReply(x)),
            None => None,
        }
    } else if kind == SUBMESSAGE_KIND_INFO_DST {
        match info_destination_at(s) {
            Some(x) => Some(BodyView::InfoDestination(x)),
            None => None,
        }
    } else if kind == SUBMESSAGE_KIND_DATA {
        match data_at(flags, s) {
            Some(x) => Some(BodyView::Data(x)),
            None => None,
        }
    } else if kind == SUBMESSAGE_KIND_DATA_FRAG {
        match data_frag_at(flags, s) {
            Some(x) => Some(BodyView::DataFrag(x)),
            None => None,
        }
    } else if kind == SUBMESSAGE_KIND_GAP {
        match gap_at(flags, s) {
            Some(x) => Some(BodyView::Gap(x)),
            None => None,
        }
    } else if kind == SUBMESSAGE_KIND_HEARTBEAT {
        match heartbeat_at(flags, s) {
            Some(x) => Some(BodyView::Heartbeat(x)),
            None => None,
        }
    } else if kind == SUBMESSAGE_KIND_HEARTBEAT_FRAG {
        match heartbeat_frag_at(flags, s) {
            Some(x) => Some(BodyView::HeartbeatFrag(x)),
            None => None,
        }
    } else if kind == SUBMESSAGE_KIND_ACKNACK {
        match acknack_at(flags, s) {
            Some(x) => Some(BodyView::AckNack(x)),
            None => None,
        }
    } else if kind == SUBMESSAGE_KIND_NACK_FRAG {
        match nack_frag_at(flags, s) {
            Some(x) => Some(BodyView::NackFrag(x)),
            None => None,
        }
    } else if kind == SUBMESSAGE_KIND_SEC_BODY {
        Some(BodyView::SecureBody(s))
    } else if kind == SUBMESSAGE_KIND_SEC_PREFIX {
        Some(BodyView::SecurePrefix(s))
    } else if kind == SUBMESSAGE_KIND_SEC_POSTFIX {
        Some(BodyView::SecurePostfix(s))
    } else if kind == SUBMESSAGE_KIND_SRTPS_PREFIX {
        Some(BodyView::SecureRTPSPrefix(s))
    } else if kind == SUBMESSAGE_KIND_SRTPS_POSTFIX {
        Some(BodyView::SecureRTPSPostfix(s))
    } else {
        None
    }
}

/// The lengths in `b` fit the fields that carry them on the wire.
pub open spec fn body_writable(b: BodyView) -> bool {
    match b {
        BodyView::InfoReply(x) => x.unicast_locator_list.len() <= u32::MAX && match x.multicast_locator_list {
            Some(m) => m.len() <= u32::MAX,
            None => true,
        },
        BodyView::Data(x) => match x.inline_qos {
            Some(ps) => parameters_writable(ps),
            None => true,
        },
        BodyView::DataFrag(x) => match x.inline_qos {
            Some(ps) => parameters_writable(ps),
            None => true,
        },
        _ => true,
    }
}

/// `b` and `flags` agree, and `b` is of a form that reads back as it was
/// written: the flags announce exactly the optional parts that `b` has, the
/// bitmaps have the length their bit counts call for, and the in-line
/// parameters need no padding.
pub open spec fn body_exact(b: BodyView, flags: u8) -> bool {
    match b {
        BodyView::InfoTimestamp(x) => spec_flag_set(flags, INFOTIMESTAMP_FLAG_INVALIDATE)
            == x.timestamp.is_none(),
        BodyView::InfoReply(x) => spec_flag_set(flags, INFOREPLY_FLAG_MULTICAST)
            == x.multicast_locator_list.is_some() && body_writable(b),
        BodyView::Data(x) => {
            &&& spec_flag_set(flags, DATA_FLAG_INLINE_QOS) == x.inline_qos.is_some()
            &&& (spec_flag_set(flags, DATA_FLAG_DATA) || spec_flag_set(flags, DATA_FLAG_KEY))
                == x.serialized_payload.is_some()
            &&& match x.inline_qos {
                Some(ps) => parameters_exact(ps),
                None => true,
            }
        },
        BodyView::DataFrag(x) => {
            &&& spec_flag_set(flags, DATAFRAG_FLAG_INLINE_QOS) == x.inline_qos.is_some()
            &&& match x.inline_qos {
                Some(ps) => parameters_exact(ps),
                None => true,
            }
        },
        BodyView::Gap(x) => x.gap_list.wf(),
        BodyView::AckNack(x) => x.reader_sn_state.wf(),
        BodyView::NackFrag(x) => x.fragment_bitmap.len() == spec_words_for(x.fragment_num_bits),
        _ => true,
    }
}

/// How many bytes the fixed-size elements take on the wire.
pub proof fn lemma_fixed_lengths(e: Endianness)
    ensures
        forall|x: u16| #[trigger] u16_bytes(x, e).len() == 2,
        forall|x: u32| #[trigger] u32_bytes(x, e).len() == 4,
        forall|x: i32| #[trigger] i32_bytes(x, e).len() == 4,
        forall|x: i64| #[trigger] sn_bytes(x, e).len() == 8,
        forall|x: EntityId| #[trigger] entity_id_bytes(x).len() == 4,
        forall|x: GuidPrefix| #[trigger] guid_prefix_bytes(x).len() == 12,
{
}

proof fn lemma_info_roundtrip(b: BodyView, flags: u8)
    requires
        body_exact(b, flags),
        b is InfoTimestamp || b is InfoSource || b is InfoDestination || b is InfoReply,
    ensures
        body_at(body_kind(b), flags, body_bytes(b, flags)) == Some(b),
{
    reveal(body_at);
    reveal(body_bytes);
    let e = spec_endianness_of(flags);
    let s = body_bytes(b, flags);
    lemma_fixed_lengths(e);
    match b {
        BodyView::InfoTimestamp(x) => {
            match x.timestamp {
                Some(t) => {
                    assert(s.subrange(0, 4) =~= i32_bytes(t.seconds, e));
                    lemma_i32_embedded(s, 0, t.seconds, e);
                    assert(s.subrange(4, 8) =~= u32_bytes(t.fraction, e));
                    lemma_u32_embedded(s, 4, t.fraction, e);
                },
                None => {},
            }
        },
        BodyView::InfoSource(x) => {
            assert(s.subrange(8, 20) =~= guid_prefix_bytes(x.guid_prefix));
            lemma_guid_prefix_embedded(s, 8, x.guid_prefix);
        },
        BodyView::InfoDestination(x) => {
            assert(s.subrange(0, 12) =~= guid_prefix_bytes(x.guid_prefix));
            lemma_guid_prefix_embedded(s, 0, x.guid_prefix);
        },
        BodyView::InfoReply(x) => {
            let ub = locator_list_bytes(x.unicast_locator_list, e);
            let ul = ub.len() as int;
            assert(s.subrange(0, ul) =~= ub);
            lemma_locator_list_embedded(s, 0, x.unicast_locator_list, e);
            match x.multicast_locator_list {
                Some(m) => {
                    let mb = locator_list_bytes(m, e);
                    let ml = mb.len() as int;
                    assert(s.subrange(ul, ul + ml) =~= mb);
                    lemma_locator_list_embedded(s, ul, m, e);
                },
                None => {},
            }
        },
        _ => {},
    }
}

proof fn lemma_heartbeat_roundtrip(b: BodyView, flags: u8)
    requires
        b is Heartbeat || b is HeartbeatFrag,
    ensures
        body_at(body_kind(b), flags, body_bytes(b, flags)) == Some(b),
{
    reveal(body_at);
    reveal(body_bytes);
    let e = spec_endianness_of(flags);
    let s = body_bytes(b, flags);
    lemma_fixed_lengths(e);
    match b {
        BodyView::Heartbeat(x) => {
            assert(s.subrange(0, 4) =~= entity_id_bytes(x.reader_id));
            lemma_entity_id_embedded(s, 0, x.reader_id);
            assert(s.subrange(4, 8) =~= entity_id_bytes(x.writer_id));
            lemma_entity_id_embedded(s, 4, x.writer_id);
            assert(s.subrange(8, 16) =~= sn_bytes(x.first_sn, e));
            lemma_sn_embedded(s, 8, x.first_sn, e);
            assert(s.subrange(16, 24) =~= sn_bytes(x.last_sn, e));
            lemma_sn_embedded(s, 16, x.last_sn, e);
            assert(s.subrange(24, 28) =~= i32_bytes(x.count, e));
            lemma_i32_embedded(s, 24, x.count, e);
        },
        BodyView::HeartbeatFrag(x) => {
            assert(s.subrange(0, 4) =~= entity_id_bytes(x.reader_id));
            lemma_entity_id_embedded(s, 0, x.reader_id);
            assert(s.subrange(4, 8) =~= entity_id_bytes(x.writer_id));
            lemma_entity_id_embedded(s, 4, x.writer_id);
            assert(s.subrange(8, 16) =~= sn_bytes(x.writer_sn, e));
            lemma_sn_embedded(s, 8, x.writer_sn, e);
            assert(s.subrange(16, 20) =~= u32_bytes(x.last_fragment_num, e));
            lemma_u32_embedded(s, 16, x.last_fragment_num, e);
            assert(s.subrange(20, 24) =~= i32_bytes(x.count, e));
            lemma_i32_embedded(s, 20, x.count, e);
        },
        _ => {},
    }
}

/// The middle of three parts, cut out of their concatenation.
pub proof fn lemma_part(pre: Seq<u8>, mid: Seq<u8>, post: Seq<u8>)
    ensures
        (pre + mid + post).len() == pre.len() + mid.len() + post.len(),
        (pre + mid + post).subrange(pre.len() as int, pre.len() as int + mid.len() as int) == mid,
{
    assert((pre + mid + post).subrange(pre.len() as int, pre.len() as int + mid.len() as int) =~= mid);
}

proof fn lemma_gap_roundtrip(x: GapView, flags: u8)
    requires
        x.gap_list.wf(),
    ensures
        gap_at(flags, gap_bytes(x, spec_endianness_of(flags))) == Some(x),
{
    let e = spec_endianness_of(flags);
    let s = gap_bytes(x, e);
    lemma_fixed_lengths(e);
    let a = entity_id_bytes(x.reader_id);
    let b = entity_id_bytes(x.writer_id);
    let c = sn_bytes(x.gap_start, e);
    let d = x.gap_list.bytes(e);
    let nil = Seq::<u8>::empty();
    assert(s == a + b + c + d);
    assert(s =~= nil + a + (b + c + d));
    lemma_part(nil, a, b + c + d);
    lemma_entity_id_embedded(s, 0, x.reader_id);
    assert(s =~= a + b + (c + d));
    lemma_part(a, b, c + d);
    lemma_entity_id_embedded(s, 4, x.writer_id);
    lemma_part(a + b, c, d);
    lemma_sn_embedded(s, 8, x.gap_start, e);
    assert(s =~= a + b + c + d + nil);
    lemma_part(a + b + c, d, nil);
    lemma_sn_set_embedded(s, 16, x.gap_list, e);
}

proof fn lemma_acknack_roundtrip(x: AckNackView, flags: u8)
    requires
        x.reader_sn_state.wf(),
    ensures
        acknack_at(flags, acknack_bytes(x, spec_endianness_of(flags))) == Some(x),
{
    let e = spec_endianness_of(flags);
    let s = acknack_bytes(x, e);
    lemma_fixed_lengths(e);
    let a = entity_id_bytes(x.reader_id);
    let b = entity_id_bytes(x.writer_id);
    let c = x.reader_sn_state.bytes(e);
    let d = i32_bytes(x.count, e);
    let nil = Seq::<u8>::empty();
    assert(s == a + b + c + d);
    assert(s =~= nil + a + (b + c + d));
    lemma_part(nil, a, b + c + d);
    lemma_entity_id_embedded(s, 0, x.reader_id);
    assert(s =~= a + b + (c + d));
    lemma_part(a, b, c + d);
    lemma_entity_id_embedded(s, 4, x.writer_id);
    lemma_part(a + b, c, d);
    lemma_sn_set_embedded(s, 8, x.reader_sn_state, e);
    assert(s =~= a + b + c + d + nil);
    lemma_part(a + b + c, d, nil);
    lemma_i32_embedded(s, 8 + c.len() as int, x.count, e);
}

proof fn lemma_nack_frag_roundtrip(x: NackFragView, flags: u8)
    requires
        x.fragment_bitmap.len() == spec_words_for(x.fragment_num_bits),
    ensures
        nack_frag_at(flags, nack_frag_bytes(x, spec_endianness_of(flags))) == Some(x),
{
    let e = spec_endianness_of(flags);
    let s = nack_frag_bytes(x, e);
    lemma_fixed_lengths(e);
    let a = entity_id_bytes(x.reader_id);
    let b = entity_id_bytes(x.writer_id);
    let c = sn_bytes(x.writer_sn, e);
    let d = u32_bytes(x.fragment_base, e);
    let f = u32_bytes(x.fragment_num_bits, e);
    let g = words_bytes(x.fragment_bitmap, e);
    let h = i32_bytes(x.count, e);
    let nil = Seq::<u8>::empty();
    let n = x.fragment_bitmap.len() as int;
    assert(g.len() == 4 * n);
    assert(s == a + b + c + d + f + g + h);
    assert(s =~= nil + a + (b + c + d + f + g + h));
    lemma_part(nil, a, b + c + d + f + g + h);
    lemma_entity_id_embedded(s, 0, x.reader_id);
    assert(s =~= a + b + (c + d + f + g + h));
    lemma_part(a, b, c + d + f + g + h);
    lemma_entity_id_embedded(s, 4, x.writer_id);
    assert(s =~= a + b + c + (d + f + g + h));
    lemma_part(a + b, c, d + f + g + h);
    lemma_sn_embedded(s, 8, x.writer_sn, e);
    assert(s =~= a + b + c + d + (f + g + h));
    lemma_part(a + b + c, d, f + g + h);
    lemma_u32_embedded(s, 16, x.fragment_base, e);
    assert(s =~= a + b + c + d + f + (g + h));
    lemma_part(a + b + c + d, f, g + h);
    lemma_u32_embedded(s, 20, x.fragment_num_bits, e);
    lemma_part(a + b + c + d + f, g, h);
    lemma_words_embedded(s, 24, x.fragment_bitmap, e);
    assert(s =~= a + b + c + d + f + g + h + nil);
    lemma_part(a + b + c + d + f + g, h, nil);
    lemma_i32_embedded(s, 24 + 4 * n, x.count, e);
}

proof fn lemma_qos_roundtrip(
    flags: u8,
    mask: u8,
    s: Seq<u8>,
    start: int,
    q: Option<Seq<ParameterView>>,
)
    requires
        0 <= start,
        spec_flag_set(flags, mask) == q.is_some(),
        match q {
            Some(ps) => parameters_exact(ps),
            None => true,
        },
        start + qos_bytes(q, spec_endianness_of(flags)).len() <= s.len(),
        s.subrange(start, start + qos_bytes(q, spec_endianness_of(flags)).len()) == qos_bytes(
            q,
            spec_endianness_of(flags),
        ),
    ensures
        qos_at(flags, mask, s, start) == Some(
            (q, start + qos_bytes(q, spec_endianness_of(flags)).len()),
        ),
{
    match q {
        Some(ps) => {
            lemma_parameter_list_embedded(s, start, ps, spec_endianness_of(flags));
        },
        None => {},
    }
}

proof fn lemma_data_roundtrip(x: DataView, flags: u8)
    requires
        body_exact(BodyView::Data(x), flags),
    ensures
        data_at(flags, data_bytes(x, spec_endianness_of(flags))) == Some(x),
{
    let e = spec_endianness_of(flags);
    let s = data_bytes(x, e);
    lemma_fixed_lengths(e);
    lemma_fixed_lengths(Endianness::BigEndian);
    let qb = qos_bytes(x.inline_qos, e);
    let pb = payload_bytes(x.serialized_payload);
    assert(s.len() == 20 + qb.len() + pb.len());
    assert(s.subrange(2, 4) =~= u16_bytes(16, e));
    lemma_u16_embedded(s, 2, 16, e);
    assert(s.subrange(4, 8) =~= entity_id_bytes(x.reader_id));
    lemma_entity_id_embedded(s, 4, x.reader_id);
    assert(s.subrange(8, 12) =~= entity_id_bytes(x.writer_id));
    lemma_entity_id_embedded(s, 8, x.writer_id);
    assert(s.subrange(12, 20) =~= sn_bytes(x.writer_sn, e));
    lemma_sn_embedded(s, 12, x.writer_sn, e);
    let ql = qb.len() as int;
    assert(s.subrange(20, 20 + ql) =~= qb);
    lemma_qos_roundtrip(flags, DATA_FLAG_INLINE_QOS, s, 20, x.inline_qos);
    let end = 20 + ql;
    match x.serialized_payload {
        Some(p) => {
            assert(s.subrange(end, end + 2) =~= u16_bytes(
                p.representation_identifier,
                Endianness::BigEndian,
            ));
            lemma_u16_embedded(s, end, p.representation_identifier, Endianness::BigEndian);
            assert(s.subrange(end + 2, end + 4) =~= u16_bytes(
                p.representation_options,
                Endianness::BigEndian,
            ));
            lemma_u16_embedded(s, end + 2, p.representation_options, Endianness::BigEndian);
            assert(s.subrange(end + 4, s.len() as int) =~= p.value);
        },
        None => {},
    }
}

proof fn lemma_data_frag_roundtrip(x: DataFragView, flags: u8)
    requires
        body_exact(BodyView::DataFrag(x), flags),
    ensures
        data_frag_at(flags, data_frag_bytes(x, spec_endianness_of(flags))) == Some(x),
{
    let e = spec_endianness_of(flags);
    let s = data_frag_bytes(x, e);
    lemma_fixed_lengths(e);
    let qb = qos_bytes(x.inline_qos, e);
    assert(s.len() == 32 + qb.len() + x.serialized_payload.len());
    assert(s.subrange(2, 4) =~= u16_bytes(28, e));
    lemma_u16_embedded(s, 2, 28, e);
    assert(s.subrange(4, 8) =~= entity_id_bytes(x.reader_id));
    lemma_entity_id_embedded(s, 4, x.reader_id);
    assert(s.subrange(8, 12) =~= entity_id_bytes(x.writer_id));
    lemma_entity_id_embedded(s, 8, x.writer_id);
    assert(s.subrange(12, 20) =~= sn_bytes(x.writer_sn, e));
    lemma_sn_embedded(s, 12, x.writer_sn, e);
    assert(s.subrange(20, 24) =~= u32_bytes(x.fragment_starting_num, e));
    lemma_u32_embedded(s, 20, x.fragment_starting_num, e);
    assert(s.subrange(24, 26) =~= u16_bytes(x.fragments_in_submessage, e));
    lemma_u16_embedded(s, 24, x.fragments_in_submessage, e);
    assert(s.subrange(26, 28) =~= u16_bytes(x.fragment_size, e));
    lemma_u16_embedded(s, 26, x.fragment_size, e);
    assert(s.subrange(28, 32) =~= u32_bytes(x.data_size, e));
    lemma_u32_embedded(s, 28, x.data_size, e);
    let ql = qb.len() as int;
    assert(s.subrange(32, 32 + ql) =~= qb);
    lemma_qos_roundtrip(flags, DATAFRAG_FLAG_INLINE_QOS, s, 32, x.inline_qos);
    assert(s.subrange(32 + ql, s.len() as int) =~= x.serialized_payload);
}

/// A body that agrees with its flags reads back, from the bytes it was
/// written to, as it was.
pub proof fn lemma_body_roundtrip(b: BodyView, flags: u8)
    requires
        body_exact(b, flags),
    ensures
        body_at(body_kind(b), flags, body_bytes(b, flags)) == Some(b),
        spec_known_kind(body_kind(b)),
{
    reveal(body_at);
    reveal(body_bytes);
    match b {
        BodyView::InfoTimestamp(_) => lemma_info_roundtrip(b, flags),
        BodyView::InfoSource(_) => lemma_info_roundtrip(b, flags),
        BodyView::InfoReply(_) => lemma_info_roundtrip(b, flags),
        BodyView::InfoDestination(_) => lemma_info_roundtrip(b, flags),
        BodyView::Data(x) => lemma_data_roundtrip(x, flags),
        BodyView::DataFrag(x) => lemma_data_frag_roundtrip(x, flags),
        BodyView::Gap(x) => lemma_gap_roundtrip(x, flags),
        BodyView::Heartbeat(_) => lemma_heartbeat_roundtrip(b, flags),
        BodyView::HeartbeatFrag(_) => lemma_heartbeat_roundtrip(b, flags),
        BodyView::AckNack(x) => lemma_acknack_roundtrip(x, flags),
        BodyView::NackFrag(x) => lemma_nack_frag_roundtrip(x, flags),
        _ => {},
    }
}

} // verus!
