use vstd::prelude::*;
use crate::dds::writer::Writer;
use crate::messages::body::{body_bytes, body_kind, body_writable, lemma_fixed_lengths};
use crate::messages::header::{Header, ProtocolId};
use crate::messages::parameter_list::{
    Parameter,
    ParameterList,
    ParameterView,
    PID_KEY_HASH,
    PID_STATUS_INFO,
    parameters_exact,
    parameters_writable,
};
use crate::messages::serialization::{
    body_len,
    message_exact,
    message_in,
    message_writable,
    submessage_exact,
};
use crate::messages::submessages::{
    BodyView,
    Data,
    DataView,
    Heartbeat,
    InfoDestination,
    InfoTimestamp,
    InterpreterSubmessage,
    Message,
    MessageView,
    Submessage,
    SubmessageBody,
    SubmessageHeader,
    SubmessageView,
    WriterSubmessage,
    SUBMESSAGE_KIND_DATA,
    SUBMESSAGE_KIND_HEARTBEAT,
    SUBMESSAGE_KIND_INFO_DST,
    SUBMESSAGE_KIND_INFO_TS,
};
use crate::messages::wire::{
    Endianness,
    endianness_flag,
    spec_endianness_flag,
    spec_endianness_of,
    spec_flag_set,
};
use crate::structure::cache_change::{
    CacheChange,
    CacheChangeView,
    ChangeKind,
    SerializedPayload,
    SerializedPayloadView,
    REPRESENTATION_PL_CDR_LE,
};
use crate::structure::guid::{EntityId, GuidPrefix, GUID, ENTITY_KIND_WRITER_WITH_KEY_BUILT_IN};
use crate::structure::time::Timestamp;

verus! {

/// A submessage with the given flags and body, under a header that names the
/// body's kind and length.
pub open spec fn framed(flags: u8, body: BodyView) -> SubmessageView {
    SubmessageView {
        header: SubmessageHeader {
            kind: body_kind(body),
            flags,
            content_length: body_bytes(body, flags).len() as u16,
        },
        flags,
        body,
    }
}

/// The submessage that names `guid_prefix` as the participant spoken to.
pub open spec fn spec_dst_submessage(endianness: Endianness, guid_prefix: GuidPrefix) -> SubmessageView {
    framed(
        spec_endianness_flag(endianness),
        BodyView::InfoDestination(InfoDestination { guid_prefix }),
    )
}

/// The submessage that gives `now` as the time of what follows, or that
/// takes the time back.
pub open spec fn spec_ts_submessage(
    endianness: Endianness,
    invalidate: bool,
    now: Timestamp,
) -> SubmessageView {
    if invalidate {
        framed(
            (spec_endianness_flag(endianness) + 2) as u8,
            BodyView::InfoTimestamp(InfoTimestamp { timestamp: None }),
        )
    } else {
        framed(
            spec_endianness_flag(endianness),
            BodyView::InfoTimestamp(InfoTimestamp { timestamp: Some(now) }),
        )
    }
}

/// The in-line parameters with which a change travels: none for an alive
/// change; the hash of its key and a status that says disposed and
/// unregistered for any other.
pub open spec fn spec_inline_qos(change: CacheChangeView) -> Option<Seq<ParameterView>> {
    if change.kind == ChangeKind::ALIVE {
        None
    } else {
        Some(
            seq![
                ParameterView {
                    parameter_id: PID_KEY_HASH,
                    value: vstd::bytes::spec_u128_to_le_bytes(change.key_hash),
                },
                ParameterView { parameter_id: PID_STATUS_INFO, value: seq![0u8, 0u8, 0u8, 3u8] },
            ],
        )
    }
}

impl Writer {
    /// The header of the writer's messages.
    pub open spec fn spec_message_header(&self) -> Header {
        Header {
            protocol_id: ProtocolId::PROTOCOL_RTPS,
            protocol_version: self.source_version,
            vendor_id: self.source_vendor_id,
            guid_prefix: self.guid.prefix,
        }
    }

    /// The payload with which a change travels: its own where it is alive,
    /// marked as a parameter list where this writer is a built-in writer
    /// with key; none where it is not alive.
    pub open spec fn spec_payload(&self, change: CacheChangeView) -> Option<
        SerializedPayloadView,
    > {
        if change.kind == ChangeKind::ALIVE {
            match change.data_value {
                Some(p) => Some(
                    if self.guid.entity_id.entity_kind == ENTITY_KIND_WRITER_WITH_KEY_BUILT_IN {
                        SerializedPayloadView {
                            representation_identifier: REPRESENTATION_PL_CDR_LE,
                            ..p
                        }
                    } else {
                        p
                    },
                ),
                None => None,
            }
        } else {
            None
        }
    }

    /// The body of the data submessage that carries `change` to the reader
    /// `reader_entity_id`.
    pub open spec fn spec_data(&self, change: CacheChangeView, reader_entity_id: EntityId) -> DataView {
        DataView {
            reader_id: reader_entity_id,
            writer_id: self.guid.entity_id,
            writer_sn: change.sequence_number,
            inline_qos: spec_inline_qos(change),
            serialized_payload: self.spec_payload(change),
        }
    }

    /// The flags of the data submessage of a change: the byte order, whether
    /// in-line parameters are present, whether a payload is present.
    pub open spec fn spec_data_flags(&self, change: CacheChangeView) -> u8 {
        (spec_endianness_flag(self.endianness) + (if spec_inline_qos(change).is_some() {
            2int
        } else {
            0int
        }) + (if self.spec_payload(change).is_some() {
            4int
        } else {
            0int
        })) as u8
    }

    /// The data submessage that carries `change` to the reader
    /// `reader_entity_id`, with its header.
    pub open spec fn spec_data_submessage(
        &self,
        change: CacheChangeView,
        reader_entity_id: EntityId,
    ) -> SubmessageView {
        framed(
            self.spec_data_flags(change),
            BodyView::Data(self.spec_data(change, reader_entity_id)),
        )
    }

    /// Whether the data submessage of `change` fits the 16-bit length of a
    /// submessage header.
    pub open spec fn data_fits(&self, change: CacheChangeView, reader_entity_id: EntityId) -> bool {
        body_bytes(
            BodyView::Data(self.spec_data(change, reader_entity_id)),
            self.spec_data_flags(change),
        ).len() <= 0xFFFF
    }

    /// The flags of a heartbeat: byte order, final, liveliness.
    pub open spec fn spec_heartbeat_flags(&self, set_final: bool, set_liveliness: bool) -> u8 {
        (spec_endianness_flag(self.endianness) + (if set_final {
            2int
        } else {
            0int
        }) + (if set_liveliness {
            4int
        } else {
            0int
        })) as u8
    }

    /// The heartbeat that announces the writer's range to `reader_id` under
    /// the counter `count`.
    pub open spec fn spec_heartbeat_submessage(
        &self,
        reader_id: EntityId,
        set_final: bool,
        set_liveliness: bool,
        count: i32,
    ) -> SubmessageView {
        framed(
            self.spec_heartbeat_flags(set_final, set_liveliness),
            BodyView::Heartbeat(
                Heartbeat {
                    reader_id,
                    writer_id: self.guid.entity_id,
                    first_sn: self.first_change_sequence_number,
                    last_sn: self.last_change_sequence_number,
                    count,
                },
            ),
        )
    }

    /// The message that carries `change` to the reader `reader` at time
    /// `now`: whom it is for, when it was sent, the change, and from a
    /// reliable writer a heartbeat under the counter `count`.
    pub open spec fn spec_user_msg(
        &self,
        change: CacheChangeView,
        reader: GUID,
        now: Timestamp,
        count: i32,
    ) -> MessageView {
        MessageView {
            header: self.spec_message_header(),
            submessages: seq![
                spec_dst_submessage(self.endianness, reader.prefix),
                spec_ts_submessage(self.endianness, false, now),
                self.spec_data_submessage(change, reader.entity_id),
            ] + if self.spec_is_reliable() {
                seq![self.spec_heartbeat_submessage(reader.entity_id, false, false, count)]
            } else {
                Seq::empty()
            },
        }
    }

    /// The message that only announces the writer's range to `reader`.
    pub open spec fn spec_heartbeat_msg(&self, reader: GUID, count: i32) -> MessageView {
        MessageView {
            header: self.spec_message_header(),
            submessages: seq![
                spec_dst_submessage(self.endianness, reader.prefix),
                self.spec_heartbeat_submessage(reader.entity_id, false, false, count),
            ],
        }
    }

    /// The header of the writer's messages.
    pub fn create_message_header(&self) -> (r: Header)
        ensures
            r == self.spec_message_header(),
    {
        Header {
            protocol_id: ProtocolId::default(),
            protocol_version: self.source_version,
            vendor_id: self.source_vendor_id,
            guid_prefix: self.guid.prefix,
        }
    }

    /// The submessage that gives `now` as the time of what follows it, or, with
    /// the invalidate flag, takes the time away.
    #[allow(non_snake_case)]
    pub fn get_TS_submessage(&self, invalidate_flag_set: bool, now: Timestamp) -> (r: Submessage)
        ensures
            r@ == spec_ts_submessage(self.endianness, invalidate_flag_set, now),
            submessage_exact(r@),
            body_writable(r@.body),
            spec_endianness_of(r@.header.flags) == self.endianness,
    {
        let e = endianness_flag(self.endianness);
        let (flags, timestamp): (u8, InfoTimestamp) = if invalidate_flag_set {
            (e + 2, InfoTimestamp { timestamp: None })
        } else {
            (e, InfoTimestamp { timestamp: Some(now) })
        };
        let body = SubmessageBody::Interpreter(InterpreterSubmessage::InfoTimestamp(timestamp, flags));
        proof {
            reveal(body_bytes);
            lemma_fixed_lengths(spec_endianness_of(flags));
        }
        let n = body_len(&body);
        Submessage {
            header: SubmessageHeader { kind: SUBMESSAGE_KIND_INFO_TS, flags, content_length: n as u16 },
            body,
        }
    }

    /// The submessage that names the participant `guid_prefix` as the one
    /// spoken to.
    #[allow(non_snake_case)]
    pub fn get_DST_submessage(endianness: Endianness, guid_prefix: GuidPrefix) -> (r: Submessage)
        ensures
            r@ == spec_dst_submessage(endianness, guid_prefix),
            submessage_exact(r@),
            body_writable(r@.body),
            spec_endianness_of(r@.header.flags) == endianness,
            r@.header.content_length == 12,
    {
        let flags = endianness_flag(endianness);
        let body = SubmessageBody::Interpreter(
            InterpreterSubmessage::InfoDestination(InfoDestination { guid_prefix }, flags),
        );
        proof {
            reveal(body_bytes);
            lemma_fixed_lengths(spec_endianness_of(flags));
        }
        Submessage {
            header: SubmessageHeader {
                kind: SUBMESSAGE_KIND_INFO_DST,
                flags,
                // An InfoDestination holds one GUID prefix and nothing else.
                content_length: 12u16,
            },
            body,
        }
    }

    /// The data submessage that carries `change` to the reader
    /// `reader_entity_id`; none where it would be longer than a submessage
    /// can be.
    #[allow(non_snake_case)]
    pub fn get_DATA_msg_from_cache_change(
        &self,
        change: CacheChange,
        reader_entity_id: EntityId,
    ) -> (r: Option<Submessage>)
        ensures
            r is Some <==> self.data_fits(change@, reader_entity_id),
            r matches Some(s) ==> {
                &&& s@ == self.spec_data_submessage(change@, reader_entity_id)
                &&& submessage_exact(s@)
                &&& body_writable(s@.body)
                &&& spec_endianness_of(s@.header.flags) == self.endianness
            },
    {
        let alive = matches!(change.kind, ChangeKind::ALIVE);
        let inline_qos = if alive {
            None
        } else {
            let mut param_list = ParameterList::new();
            let key_hash = Parameter {
                parameter_id: PID_KEY_HASH,
                value: vstd::bytes::u128_to_le_bytes(change.instance_handle.key_hash),
            };
            param_list.push(key_hash);
            let status_info = Parameter::create_pid_status_info_parameter(true, true, false);
            param_list.push(status_info);
            assert(param_list@ =~= spec_inline_qos(change@).unwrap());
            Some(param_list)
        };
        let serialized_payload = if alive {
            match change.data_value {
                Some(p) => {
                    if self.guid.entity_id.get_kind() == ENTITY_KIND_WRITER_WITH_KEY_BUILT_IN {
                        Some(
                            SerializedPayload {
                                representation_identifier: REPRESENTATION_PL_CDR_LE,
                                representation_options: p.representation_options,
                                value: p.value,
                            },
                        )
                    } else {
                        Some(p)
                    }
                },
                None => None,
            }
        } else {
            None
        };
        let mut flags: u8 = endianness_flag(self.endianness);
        if inline_qos.is_some() {
            flags = flags + 2;
        }
        if serialized_payload.is_some() {
            flags = flags + 4;
        }
        let data_message = Data {
            reader_id: reader_entity_id,
            writer_id: self.get_entity_id(),
            writer_sn: change.sequence_number,
            inline_qos,
            serialized_payload,
        };
        assert(data_message@ == self.spec_data(change@, reader_entity_id));
        assert(flags == self.spec_data_flags(change@));
        let body = SubmessageBody::Writer(WriterSubmessage::Data(data_message, flags));
        proof {
            match spec_inline_qos(change@) {
                Some(ps) => {
                    assert(parameters_exact(ps));
                    assert(parameters_writable(ps));
                },
                None => {},
            }
        }
        let size = body_len(&body);
        if size > 0xFFFF {
            return None;
        }
        Some(
            Submessage {
                header: SubmessageHeader {
                    kind: SUBMESSAGE_KIND_DATA,
                    flags,
                    content_length: size as u16,
                },
                body,
            },
        )
    }

    /// The heartbeat submessage that announces the range of the writer to
    /// `reader_id` under the writer's present heartbeat counter.
    pub fn get_heartbeat_msg(
        &self,
        reader_id: EntityId,
        set_final_flag: bool,
        set_liveliness_flag: bool,
    ) -> (r: Submessage)
        ensures
            r@ == self.spec_heartbeat_submessage(
                reader_id,
                set_final_flag,
                set_liveliness_flag,
                self.heartbeat_message_counter,
            ),
            submessage_exact(r@),
            body_writable(r@.body),
            spec_endianness_of(r@.header.flags) == self.endianness,
            r@.header.content_length == 28,
            spec_flag_set(r@.header.flags, crate::messages::submessages::HEARTBEAT_FLAG_FINAL)
                == set_final_flag,
            spec_flag_set(r@.header.flags, crate::messages::submessages::HEARTBEAT_FLAG_LIVELINESS)
                == set_liveliness_flag,
    {
        let first = self.first_change_sequence_number;
        let last = self.last_change_sequence_number;
        let heartbeat = Heartbeat {
            reader_id,
            writer_id: self.guid.entity_id,
            first_sn: first,
            last_sn: last,
            count: self.heartbeat_message_counter,
        };
        let mut flags: u8 = endianness_flag(self.endianness);
        if set_final_flag {
            flags = flags + 2;
        }
        if set_liveliness_flag {
            flags = flags + 4;
        }
        let body = SubmessageBody::Writer(WriterSubmessage::Heartbeat(heartbeat, flags));
        proof {
            reveal(body_bytes);
            lemma_fixed_lengths(spec_endianness_of(flags));
        }
        let size = body_len(&body);
        Submessage {
            header: SubmessageHeader {
                kind: SUBMESSAGE_KIND_HEARTBEAT,
                flags,
                content_length: size as u16,
            },
            body,
        }
    }

    /// The message that carries `change` to the reader `reader`; none where
    /// the change is too large for one submessage.
    pub fn write_user_msg(&self, change: CacheChange, reader: GUID, now: Timestamp) -> (r: Option<
        Message,
    >)
        ensures
            r is Some <==> self.data_fits(change@, reader.entity_id),
            r matches Some(m) ==> {
                &&& m@ == self.spec_user_msg(change@, reader, now, self.heartbeat_message_counter)
                &&& message_exact(m@)
                &&& message_writable(m@)
                &&& message_in(m@, self.endianness)
            },
    {
        let data = match self.get_DATA_msg_from_cache_change(change, reader.entity_id) {
            Some(d) => d,
            None => {
                return None;
            },
        };
        let mut message: Message = Message::new(self.create_message_header());
        message.add_submessage(Writer::get_DST_submessage(self.endianness, reader.prefix));
        message.add_submessage(self.get_TS_submessage(false, now));
        message.add_submessage(data);
        if self.is_reliable() {
            message.add_submessage(self.get_heartbeat_msg(reader.entity_id, false, false));
        }
        assert(message@.submessages =~= self.spec_user_msg(
            change@,
            reader,
            now,
            self.heartbeat_message_counter,
        ).submessages);
        Some(message)
    }

    /// The message that only announces the range of the writer to `reader`.
    pub fn write_heartbeat_msg(&self, reader: GUID) -> (m: Message)
        ensures
            m@ == self.spec_heartbeat_msg(reader, self.heartbeat_message_counter),
            message_exact(m@),
            message_writable(m@),
            message_in(m@, self.endianness),
    {
        let mut message: Message = Message::new(self.create_message_header());
        message.add_submessage(Writer::get_DST_submessage(self.endianness, reader.prefix));
        message.add_submessage(self.get_heartbeat_msg(reader.entity_id, false, false));
        assert(message@.submessages =~= self.spec_heartbeat_msg(
            reader,
            self.heartbeat_message_counter,
        ).submessages);
        message
    }
}

} // verus!
