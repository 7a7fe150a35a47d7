use rtps_core::messages::elements::SequenceNumberSet;
use rtps_core::messages::header::{Header, ProtocolId, ProtocolVersion, VendorId};
use rtps_core::messages::parameter_list::{Parameter, ParameterList, PID_KEY_HASH, PID_STATUS_INFO};
use rtps_core::messages::serialization::body_len;
use rtps_core::messages::submessages::{
    AckNack, Data, DataFrag, Gap, Heartbeat, HeartbeatFrag, InfoDestination, InfoReply,
    InfoSource, InfoTimestamp, InterpreterSubmessage, Message, NackFrag, ReaderSubmessage,
    SecureBody, SecurePostfix, SecurePrefix, SecureRTPSPostfix, SecureRTPSPrefix,
    SecuritySubmessage, Submessage, SubmessageBody, SubmessageHeader, WriterSubmessage,
    SUBMESSAGE_KIND_ACKNACK, SUBMESSAGE_KIND_DATA, SUBMESSAGE_KIND_DATA_FRAG, SUBMESSAGE_KIND_GAP,
    SUBMESSAGE_KIND_HEARTBEAT, SUBMESSAGE_KIND_HEARTBEAT_FRAG, SUBMESSAGE_KIND_INFO_DST,
    SUBMESSAGE_KIND_INFO_REPLY, SUBMESSAGE_KIND_INFO_SRC, SUBMESSAGE_KIND_INFO_TS,
    SUBMESSAGE_KIND_NACK_FRAG, SUBMESSAGE_KIND_SEC_BODY, SUBMESSAGE_KIND_SEC_POSTFIX,
    SUBMESSAGE_KIND_SEC_PREFIX, SUBMESSAGE_KIND_SRTPS_POSTFIX, SUBMESSAGE_KIND_SRTPS_PREFIX,
};
use rtps_core::messages::wire::{
    endianness_flag, endianness_of, flag_set, put_i32, put_sn, put_u16, put_u32, read_i32,
    read_sn, read_u16, read_u32, Endianness,
};
use rtps_core::structure::cache_change::SerializedPayload;
use rtps_core::structure::guid::{EntityId, GuidPrefix, GUID};
use rtps_core::structure::locator::Locator;
use rtps_core::structure::time::Timestamp;

const SHAPES_PACKET: [u8; 128] = [
    0x52, 0x54, 0x50, 0x53, 0x02, 0x03, 0x01, 0x0f, 0x01, 0x0f, 0x99, 0x06, 0x78, 0x34, 0x00,
    0x00, 0x01, 0x00, 0x00, 0x00, 0x0e, 0x01, 0x0c, 0x00, 0x01, 0x03, 0x00, 0x0c, 0x29, 0x2d,
    0x31, 0xa2, 0x28, 0x20, 0x02, 0x08, 0x09, 0x01, 0x08, 0x00, 0x1a, 0x15, 0xf3, 0x5e, 0x00,
    0xcc, 0xfb, 0x13, 0x15, 0x05, 0x2c, 0x00, 0x00, 0x00, 0x10, 0x00, 0x00, 0x00, 0x00, 0x07,
    0x00, 0x00, 0x01, 0x02, 0x00, 0x00, 0x00, 0x00, 0x5b, 0x00, 0x00, 0x00, 0x00, 0x01, 0x00,
    0x00, 0x04, 0x00, 0x00, 0x00, 0x52, 0x45, 0x44, 0x00, 0x69, 0x00, 0x00, 0x00, 0x17, 0x00,
    0x00, 0x00, 0x1e, 0x00, 0x00, 0x00, 0x07, 0x01, 0x1c, 0x00, 0x00, 0x00, 0x00, 0x07, 0x00,
    0x00, 0x01, 0x02, 0x00, 0x00, 0x00, 0x00, 0x5b, 0x00, 0x00, 0x00, 0x00, 0x00, 0x00, 0x00,
    0x5b, 0x00, 0x00, 0x00, 0x1f, 0x00, 0x00, 0x00,
];

const ACKNACK_PACKET: [u8; 64] = [
    0x52, 0x54, 0x50, 0x53, 0x02, 0x03, 0x01, 0x0f, 0x01, 0x0f, 0x99, 0x06, 0x78, 0x34, 0x00,
    0x00, 0x01, 0x00, 0x00, 0x00, 0x0e, 0x01, 0x0c, 0x00, 0x01, 0x03, 0x00, 0x0c, 0x29, 0x2d,
    0x31, 0xa2, 0x28, 0x20, 0x02, 0x08, 0x06, 0x03, 0x18, 0x00, 0x00, 0x00, 0x04, 0xc7, 0x00,
    0x00, 0x04, 0xc2, 0x00, 0x00, 0x00, 0x00, 0x02, 0x00, 0x00, 0x00, 0x00, 0x00, 0x00, 0x00,
    0x03, 0x00, 0x00, 0x00,
];

fn framed(kind: u8, flags: u8, body: SubmessageBody) -> Submessage {
    let n = body_len(&body);
    assert!(n <= 0xFFFF);
    Submessage { header: SubmessageHeader { kind, flags, content_length: n as u16 }, body }
}

fn qos() -> ParameterList {
    ParameterList {
        parameters: vec![
            Parameter { parameter_id: PID_KEY_HASH, value: vec![7; 16] },
            Parameter { parameter_id: PID_STATUS_INFO, value: vec![0, 0, 0, 1] },
        ],
    }
}

fn every_kind(e: Endianness) -> Message {
    let f = endianness_flag(e);
    let reader = EntityId::from_bytes(0, 0, 3, 0x07);
    let writer = EntityId::from_bytes(0, 0, 4, 0x02);
    let prefix = GuidPrefix::new(&[1, 2, 3, 4, 5, 6, 7, 8, 9, 10, 11, 12]);
    let mut set = SequenceNumberSet::with_bits(4, 70);
    set.insert(4);
    set.insert(40);
    set.insert(73);
    let mut other_set = SequenceNumberSet::with_bits(-2, 3);
    other_set.insert(0);
    let mut m = Message::new(Header::new(prefix));
    m.add_submessage(framed(
        SUBMESSAGE_KIND_INFO_DST,
        f,
        SubmessageBody::Interpreter(InterpreterSubmessage::InfoDestination(
            InfoDestination { guid_prefix: GuidPrefix::new(&[9; 12]) },
            f,
        )),
    ));
    m.add_submessage(framed(
        SUBMESSAGE_KIND_INFO_TS,
        f,
        SubmessageBody::Interpreter(InterpreterSubmessage::InfoTimestamp(
            InfoTimestamp { timestamp: Some(Timestamp { seconds: -5, fraction: 0xFFFF_0001 }) },
            f,
        )),
    ));
    m.add_submessage(framed(
        SUBMESSAGE_KIND_INFO_TS,
        f + 2,
        SubmessageBody::Interpreter(InterpreterSubmessage::InfoTimestamp(
            InfoTimestamp { timestamp: None },
            f + 2,
        )),
    ));
    m.add_submessage(framed(
        SUBMESSAGE_KIND_INFO_SRC,
        f,
        SubmessageBody::Interpreter(InterpreterSubmessage::InfoSource(
            InfoSource {
                protocol_version: ProtocolVersion { major: 2, minor: 1 },
                vendor_id: VendorId { first: 1, second: 15 },
                guid_prefix: GuidPrefix::new(&[4; 12]),
            },
            f,
        )),
    ));
    m.add_submessage(framed(
        SUBMESSAGE_KIND_INFO_REPLY,
        f + 2,
        SubmessageBody::Interpreter(InterpreterSubmessage::InfoReply(
            InfoReply {
                unicast_locator_list: vec![
                    Locator::udp_v4(10, 0, 0, 1, 7410),
                    Locator::udp_v4(10, 0, 0, 2, 7411),
                ],
                multicast_locator_list: Some(vec![Locator::udp_v4(239, 255, 0, 1, 7400)]),
            },
            f + 2,
        )),
    ));
    m.add_submessage(framed(
        SUBMESSAGE_KIND_INFO_REPLY,
        f,
        SubmessageBody::Interpreter(InterpreterSubmessage::InfoReply(
            InfoReply { unicast_locator_list: vec![], multicast_locator_list: None },
            f,
        )),
    ));
    m.add_submessage(framed(
        SUBMESSAGE_KIND_DATA,
        f + 4,
        SubmessageBody::Writer(WriterSubmessage::Data(
            Data {
                reader_id: reader,
                writer_id: writer,
                writer_sn: 0x1_0000_0005,
                inline_qos: None,
                serialized_payload: Some(SerializedPayload::from_parts(1, vec![1, 2, 3, 4, 5])),
            },
            f + 4,
        )),
    ));
    m.add_submessage(framed(
        SUBMESSAGE_KIND_DATA,
        f + 2,
        SubmessageBody::Writer(WriterSubmessage::Data(
            Data {
                reader_id: reader,
                writer_id: writer,
                writer_sn: 6,
                inline_qos: Some(qos()),
                serialized_payload: None,
            },
            f + 2,
        )),
    ));
    m.add_submessage(framed(
        SUBMESSAGE_KIND_DATA_FRAG,
        f + 2,
        SubmessageBody::Writer(WriterSubmessage::DataFrag(
            DataFrag {
                reader_id: reader,
                writer_id: writer,
                writer_sn: 7,
                fragment_starting_num: 2,
                fragments_in_submessage: 1,
                fragment_size: 8,
                data_size: 100,
                inline_qos: Some(qos()),
                serialized_payload: vec![9, 8, 7, 6, 5, 4, 3, 2],
            },
            f + 2,
        )),
    ));
    m.add_submessage(framed(
        SUBMESSAGE_KIND_HEARTBEAT,
        f + 2,
        SubmessageBody::Writer(WriterSubmessage::Heartbeat(
            Heartbeat {
                reader_id: reader,
                writer_id: writer,
                first_sn: 1,
                last_sn: i64::MAX,
                count: -1,
            },
            f + 2,
        )),
    ));
    m.add_submessage(framed(
        SUBMESSAGE_KIND_HEARTBEAT_FRAG,
        f,
        SubmessageBody::Writer(WriterSubmessage::HeartbeatFrag(
            HeartbeatFrag {
                reader_id: reader,
                writer_id: writer,
                writer_sn: i64::MIN,
                last_fragment_num: 0xFFFF_FFFF,
                count: i32::MIN,
            },
            f,
        )),
    ));
    m.add_submessage(framed(
        SUBMESSAGE_KIND_GAP,
        f,
        SubmessageBody::Writer(WriterSubmessage::Gap(
            Gap { reader_id: reader, writer_id: writer, gap_start: -1, gap_list: other_set },
            f,
        )),
    ));
    m.add_submessage(framed(
        SUBMESSAGE_KIND_ACKNACK,
        f,
        SubmessageBody::Reader(ReaderSubmessage::AckNack(
            AckNack { reader_id: reader, writer_id: writer, reader_sn_state: set, count: 77 },
            f,
        )),
    ));
    m.add_submessage(framed(
        SUBMESSAGE_KIND_NACK_FRAG,
        f,
        SubmessageBody::Reader(ReaderSubmessage::NackFrag(
            NackFrag {
                reader_id: reader,
                writer_id: writer,
                writer_sn: 8,
                fragment_base: 1,
                fragment_num_bits: 33,
                fragment_bitmap: vec![0x8000_0001, 1],
                count: 2,
            },
            f,
        )),
    ));
    m.add_submessage(framed(
        SUBMESSAGE_KIND_SEC_PREFIX,
        f,
        SubmessageBody::Security(SecuritySubmessage::SecurePrefix(
            SecurePrefix { content: vec![1, 1, 1, 1] },
            f,
        )),
    ));
    m.add_submessage(framed(
        SUBMESSAGE_KIND_SEC_BODY,
        f,
        SubmessageBody::Security(SecuritySubmessage::SecureBody(
            SecureBody { content: vec![2, 2, 2, 2, 2, 2, 2, 2] },
            f,
        )),
    ));
    m.add_submessage(framed(
        SUBMESSAGE_KIND_SEC_POSTFIX,
        f,
        SubmessageBody::Security(SecuritySubmessage::SecurePostfix(
            SecurePostfix { content: vec![] },
            f,
        )),
    ));
    m.add_submessage(framed(
        SUBMESSAGE_KIND_SRTPS_PREFIX,
        f,
        SubmessageBody::Security(SecuritySubmessage::SecureRTPSPrefix(
            SecureRTPSPrefix { content: vec![3, 3, 3, 3] },
            f,
        )),
    ));
    m.add_submessage(framed(
        SUBMESSAGE_KIND_SRTPS_POSTFIX,
        f,
        SubmessageBody::Security(SecuritySubmessage::SecureRTPSPostfix(
            SecureRTPSPostfix { content: vec![4, 4, 4, 4] },
            f,
        )),
    ));
    m
}

#[test]
fn mr_test_header() {
    let guid_new = GUID::default();
    let header = Header::new(guid_new.prefix);

    let bytes = header.write_to_vec();
    let new_header = Header::read_from_buffer(&bytes).unwrap();
    assert_eq!(header, new_header);
}

#[test]
fn header_has_twenty_bytes_and_the_magic() {
    let header = Header {
        protocol_id: ProtocolId::PROTOCOL_RTPS,
        protocol_version: ProtocolVersion { major: 2, minor: 3 },
        vendor_id: VendorId { first: 0x01, second: 0x0f },
        guid_prefix: GuidPrefix::new(&[
            0x01, 0x0f, 0x99, 0x06, 0x78, 0x34, 0x00, 0x00, 0x01, 0x00, 0x00, 0x00,
        ]),
    };
    assert_eq!(SHAPES_PACKET[0..20].to_vec(), header.write_to_vec());
    assert_eq!(Some(header), Header::read_from_buffer(&SHAPES_PACKET));
    assert!(header.same(&Header::read_from_buffer(&SHAPES_PACKET).unwrap()));
    assert_eq!(None, Header::read_from_buffer(&SHAPES_PACKET[0..19]));
    let mut bad_magic = SHAPES_PACKET.to_vec();
    bad_magic[3] = 0x54;
    assert_eq!(None, Header::read_from_buffer(&bad_magic));
}

#[test]
fn round_trip_in_little_endian() {
    let m = every_kind(Endianness::LittleEndian);
    let bytes = m.write_to_vec_with_ctx(Endianness::LittleEndian).unwrap();
    let back = Message::read_from_buffer(&bytes).unwrap();
    assert_eq!(m, back);
    assert_eq!(19, back.submessages.len());
    assert_eq!(vec![0x1_0000_0005, 6], back.get_data_sub_message_sequence_numbers());
}

#[test]
fn round_trip_in_big_endian() {
    let m = every_kind(Endianness::BigEndian);
    let bytes = m.write_to_vec_with_ctx(Endianness::BigEndian).unwrap();
    let back = Message::read_from_buffer(&bytes).unwrap();
    assert_eq!(m, back);
    // The two byte orders give different bytes for the same content.
    let little = every_kind(Endianness::LittleEndian)
        .write_to_vec_with_ctx(Endianness::LittleEndian)
        .unwrap();
    assert_eq!(little.len(), bytes.len());
    assert_ne!(little, bytes);
}

#[test]
fn a_message_is_not_written_in_a_byte_order_it_does_not_announce() {
    let m = every_kind(Endianness::LittleEndian);
    assert!(m.write_to_vec_with_ctx(Endianness::BigEndian).is_none());
    let empty = Message::new(Header::new(GuidPrefix::unknown()));
    assert_eq!(20, empty.write_to_vec_with_ctx(Endianness::BigEndian).unwrap().len());
}

#[test]
fn a_parameter_too_long_for_its_length_field_is_not_written() {
    let f = endianness_flag(Endianness::LittleEndian);
    let mut m = Message::new(Header::new(GuidPrefix::unknown()));
    m.add_submessage(Submessage {
        header: SubmessageHeader { kind: SUBMESSAGE_KIND_DATA, flags: f + 2, content_length: 0 },
        body: SubmessageBody::Writer(WriterSubmessage::Data(
            Data {
                reader_id: EntityId::unknown(),
                writer_id: EntityId::unknown(),
                writer_sn: 1,
                inline_qos: Some(ParameterList {
                    parameters: vec![Parameter { parameter_id: 0x8000, value: vec![0; 0xFFFD] }],
                }),
                serialized_payload: None,
            },
            f + 2,
        )),
    });
    assert!(m.write_to_vec_with_ctx(Endianness::LittleEndian).is_none());
}

#[test]
fn captured_data_packet_is_read() {
    let m = Message::read_from_buffer(&SHAPES_PACKET).unwrap();
    assert_eq!(4, m.submessages.len());
    assert_eq!(SUBMESSAGE_KIND_INFO_DST, m.submessages[0].header.kind);
    assert_eq!(SUBMESSAGE_KIND_INFO_TS, m.submessages[1].header.kind);
    assert_eq!(SUBMESSAGE_KIND_DATA, m.submessages[2].header.kind);
    assert_eq!(SUBMESSAGE_KIND_HEARTBEAT, m.submessages[3].header.kind);
    match &m.submessages[0].body {
        SubmessageBody::Interpreter(InterpreterSubmessage::InfoDestination(d, flags)) => {
            assert_eq!(1, *flags);
            assert_eq!(
                GuidPrefix::new(&[
                    0x01, 0x03, 0x00, 0x0c, 0x29, 0x2d, 0x31, 0xa2, 0x28, 0x20, 0x02, 0x08
                ]),
                d.guid_prefix
            );
        }
        other => panic!("{:?}", other),
    }
    match &m.submessages[1].body {
        SubmessageBody::Interpreter(InterpreterSubmessage::InfoTimestamp(t, _)) => {
            assert_eq!(
                Some(Timestamp { seconds: 0x5ef3151a, fraction: 0x13fbcc00 }),
                t.timestamp
            );
        }
        other => panic!("{:?}", other),
    }
    match &m.submessages[2].body {
        SubmessageBody::Writer(WriterSubmessage::Data(d, flags)) => {
            assert_eq!(5, *flags);
            assert_eq!(EntityId::from_bytes(0, 0, 0, 0x07), d.reader_id);
            assert_eq!(EntityId::from_bytes(0, 0, 1, 0x02), d.writer_id);
            assert_eq!(0x5b, d.writer_sn);
            assert_eq!(None, d.inline_qos);
            let p = d.serialized_payload.as_ref().unwrap();
            assert_eq!(1, p.representation_identifier);
            assert_eq!(0, p.representation_options);
            assert_eq!(SHAPES_PACKET[76..96].to_vec(), p.value);
        }
        other => panic!("{:?}", other),
    }
    match &m.submessages[3].body {
        SubmessageBody::Writer(WriterSubmessage::Heartbeat(h, flags)) => {
            assert_eq!(1, *flags);
            assert_eq!(0x5b, h.first_sn);
            assert_eq!(0x5b, h.last_sn);
            assert_eq!(0x1f, h.count);
        }
        other => panic!("{:?}", other),
    }
    // What was read is written back byte for byte.
    assert_eq!(
        SHAPES_PACKET.to_vec(),
        m.write_to_vec_with_ctx(Endianness::LittleEndian).unwrap()
    );
}

#[test]
fn captured_acknack_packet_is_read() {
    let m = Message::read_from_buffer(&ACKNACK_PACKET).unwrap();
    assert_eq!(2, m.submessages.len());
    match &m.submessages[1].body {
        SubmessageBody::Reader(ReaderSubmessage::AckNack(a, flags)) => {
            assert_eq!(3, *flags);
            assert_eq!(EntityId::from_bytes(0, 0, 4, 0xc7), a.reader_id);
            assert_eq!(EntityId::from_bytes(0, 0, 4, 0xc2), a.writer_id);
            assert_eq!(2, a.reader_sn_state.base);
            assert_eq!(0, a.reader_sn_state.num_bits);
            assert!(a.reader_sn_state.is_empty());
            assert_eq!(3, a.count);
        }
        other => panic!("{:?}", other),
    }
    assert_eq!(
        ACKNACK_PACKET.to_vec(),
        m.write_to_vec_with_ctx(Endianness::LittleEndian).unwrap()
    );
}

#[test]
fn malformed_datagrams_hold_no_message() {
    assert!(Message::read_from_buffer(&[]).is_none());
    assert!(Message::read_from_buffer(&SHAPES_PACKET[0..19]).is_none());
    // A submessage that claims to be longer than what is left.
    assert!(Message::read_from_buffer(&SHAPES_PACKET[0..127]).is_none());
    // A submessage header that is cut short.
    assert!(Message::read_from_buffer(&SHAPES_PACKET[0..22]).is_none());
    // A heartbeat whose body is too short for a heartbeat.
    let mut short_heartbeat = SHAPES_PACKET[0..20].to_vec();
    short_heartbeat.extend_from_slice(&[0x07, 0x01, 0x04, 0x00, 1, 2, 3, 4]);
    assert!(Message::read_from_buffer(&short_heartbeat).is_none());
    // The header alone is a message without submessages.
    assert_eq!(0, Message::read_from_buffer(&SHAPES_PACKET[0..20]).unwrap().submessages.len());
}

#[test]
fn a_submessage_of_unknown_kind_is_passed_over() {
    let mut bytes = SHAPES_PACKET[0..36].to_vec();
    bytes.extend_from_slice(&[0x7f, 0x01, 0x04, 0x00, 0xde, 0xad, 0xbe, 0xef]);
    bytes.extend_from_slice(&SHAPES_PACKET[36..48]);
    let m = Message::read_from_buffer(&bytes).unwrap();
    assert_eq!(2, m.submessages.len());
    assert_eq!(SUBMESSAGE_KIND_INFO_DST, m.submessages[0].header.kind);
    assert_eq!(SUBMESSAGE_KIND_INFO_TS, m.submessages[1].header.kind);
}

#[test]
fn numbers_on_the_wire() {
    let mut le = Vec::new();
    put_u16(&mut le, 0x1234, Endianness::LittleEndian);
    put_u32(&mut le, 0x89ab_cdef, Endianness::LittleEndian);
    put_i32(&mut le, -2, Endianness::LittleEndian);
    put_sn(&mut le, -1, Endianness::LittleEndian);
    put_sn(&mut le, 0x7_0000_0009, Endianness::LittleEndian);
    assert_eq!(
        vec![
            0x34, 0x12, 0xef, 0xcd, 0xab, 0x89, 0xfe, 0xff, 0xff, 0xff, 0xff, 0xff, 0xff, 0xff,
            0xff, 0xff, 0xff, 0xff, 0x07, 0x00, 0x00, 0x00, 0x09, 0x00, 0x00, 0x00
        ],
        le
    );
    assert_eq!(0x1234, read_u16(&le, 0, Endianness::LittleEndian));
    assert_eq!(0x89ab_cdef, read_u32(&le, 2, Endianness::LittleEndian));
    assert_eq!(-2, read_i32(&le, 6, Endianness::LittleEndian));
    assert_eq!(-1, read_sn(&le, 10, Endianness::LittleEndian));
    assert_eq!(0x7_0000_0009, read_sn(&le, 18, Endianness::LittleEndian));
    let mut be = Vec::new();
    put_u16(&mut be, 0x1234, Endianness::BigEndian);
    put_u32(&mut be, 0x89ab_cdef, Endianness::BigEndian);
    put_i32(&mut be, i32::MIN, Endianness::BigEndian);
    put_sn(&mut be, i64::MIN, Endianness::BigEndian);
    assert_eq!(
        vec![
            0x12, 0x34, 0x89, 0xab, 0xcd, 0xef, 0x80, 0x00, 0x00, 0x00, 0x80, 0x00, 0x00, 0x00,
            0x00, 0x00, 0x00, 0x00
        ],
        be
    );
    assert_eq!(i32::MIN, read_i32(&be, 6, Endianness::BigEndian));
    assert_eq!(i64::MIN, read_sn(&be, 10, Endianness::BigEndian));
    assert_eq!(i64::MAX, {
        let mut b = Vec::new();
        put_sn(&mut b, i64::MAX, Endianness::BigEndian);
        read_sn(&b, 0, Endianness::BigEndian)
    });
}

#[test]
fn flags_tell_the_byte_order() {
    assert_eq!(Endianness::LittleEndian, endianness_of(0x05));
    assert_eq!(Endianness::BigEndian, endianness_of(0x04));
    assert_eq!(1, endianness_flag(Endianness::LittleEndian));
    assert_eq!(0, endianness_flag(Endianness::BigEndian));
    assert!(flag_set(0x05, 0x04));
    assert!(!flag_set(0x05, 0x02));
    assert!(!flag_set(0x05, 0x00));
}

#[test]
fn a_parameter_is_padded_to_four_bytes() {
    let f = endianness_flag(Endianness::LittleEndian);
    let mut m = Message::new(Header::new(GuidPrefix::unknown()));
    let body = SubmessageBody::Writer(WriterSubmessage::Data(
        Data {
            reader_id: EntityId::unknown(),
            writer_id: EntityId::unknown(),
            writer_sn: 1,
            inline_qos: Some(ParameterList {
                parameters: vec![Parameter { parameter_id: 0x8001, value: vec![0xAB; 5] }],
            }),
            serialized_payload: None,
        },
        f + 2,
    ));
    // 20 bytes up to the list, 4 + 8 for the padded parameter, 4 for the sentinel.
    assert_eq!(36, body_len(&body));
    m.add_submessage(framed(SUBMESSAGE_KIND_DATA, f + 2, body));
    let bytes = m.write_to_vec_with_ctx(Endianness::LittleEndian).unwrap();
    assert_eq!(
        vec![0x01, 0x80, 0x08, 0x00, 0xAB, 0xAB, 0xAB, 0xAB, 0xAB, 0, 0, 0, 0x01, 0x00, 0, 0],
        bytes[44..60].to_vec()
    );
    let back = Message::read_from_buffer(&bytes).unwrap();
    match &back.submessages[0].body {
        SubmessageBody::Writer(WriterSubmessage::Data(d, _)) => {
            // The value comes back with its padding.
            assert_eq!(
                vec![0xAB, 0xAB, 0xAB, 0xAB, 0xAB, 0, 0, 0],
                d.inline_qos.as_ref().unwrap().parameters[0].value
            );
        }
        other => panic!("{:?}", other),
    }
}

#[test]
fn status_info_parameter_holds_the_flags_in_its_last_byte() {
    let p = Parameter::create_pid_status_info_parameter(true, true, false);
    assert_eq!(PID_STATUS_INFO, p.parameter_id);
    assert_eq!(vec![0, 0, 0, 3], p.value);
    assert_eq!(vec![0, 0, 0, 4], Parameter::create_pid_status_info_parameter(false, false, true).value);
}
