use rtps_core::dds::ddsdata::DDSData;
use rtps_core::dds::qos::QosPolicies;
use rtps_core::dds::writer::Writer;
use rtps_core::messages::elements::SequenceNumberSet;
use rtps_core::messages::header::{Header, ProtocolVersion, VendorId};
use rtps_core::messages::parameter_list::ParameterList;
use rtps_core::messages::serialization::body_len;
use rtps_core::messages::submessages::{AckNack, AckSubmessage, Data, DataFrag, Gap, Heartbeat, HeartbeatFrag, InfoDestination, InfoReply, InfoSource, InfoTimestamp, InterpreterSubmessage, Message, NackFrag, ReaderSubmessage, SecureBody, SecurePostfix, SecurePrefix, SecureRTPSPrefix, SecuritySubmessage, Submessage, SubmessageBody, SubmessageHeader, WriterSubmessage, SUBMESSAGE_KIND_ACKNACK, SUBMESSAGE_KIND_DATA, SUBMESSAGE_KIND_DATA_FRAG, SUBMESSAGE_KIND_GAP, SUBMESSAGE_KIND_HEARTBEAT, SUBMESSAGE_KIND_HEARTBEAT_FRAG, SUBMESSAGE_KIND_INFO_DST, SUBMESSAGE_KIND_INFO_REPLY, SUBMESSAGE_KIND_INFO_TS, SUBMESSAGE_KIND_NACK_FRAG, SUBMESSAGE_KIND_SEC_BODY, SUBMESSAGE_KIND_SEC_POSTFIX, SUBMESSAGE_KIND_SEC_PREFIX, SUBMESSAGE_KIND_SRTPS_PREFIX};
use rtps_core::messages::wire::Endianness;
use rtps_core::rtps::message_receiver::{MessageReceiver, MessageReceiverState, SecureReceiverState};
use rtps_core::rtps::message_receiver_handlers::decoded_datafrag;
use rtps_core::rtps::message_receiver_run::is_rtps_ping;
use rtps_core::rtps::reader::Reader;
use rtps_core::security::cryptographic::SecureSubmessageKind;
use rtps_core::security::security_plugins::{NoSecurity, SecurityPlugins};
use rtps_core::security::types::SecurityError;
use rtps_core::structure::cache_change::{ChangeKind, SerializedPayload};
use rtps_core::structure::guid::{EntityId, GuidPrefix, GUID};
use rtps_core::structure::locator::Locator;
use rtps_core::structure::time::{Duration, Instant, Timestamp};

const SHAPES_PACKET: [u8; 128] = [
    0x52, 0x54, 0x50, 0x53, 0x02, 0x03, 0x01, 0x0f, 0x01, 0x0f, 0x99, 0x06, 0x78, 0x34, 0x00,
    0x00, 0x01, 0x00, 0x00, 0x00, 0x0e, 0x01, 0x0c, 0x00, 0x01, 0x03, 0x00, 0x0c, 0x29, 0x2d,
    0x31, 0xa2, 0x28, 0x20, 0x02, 0x08, 0x09, 0x01, 0x08, 0x00, 0x1a, 0x15, 0xf3, 0x5e, 0x00,
    0xcc, 0xfb, 0x13, 0x15, 0x05, 0x2c, 0x00, 0x00, 0x00, 0x10, 0x00, 0x00, 0x00, 0x00, 0x07,
    0x00, 0x00, 0x01, 0x02, 0x00, 0x00, 0x00, 0x00, 0x5b, 0x00, 0x00, 0x00, 0x00, 0x01, 0x00,
    0x00, 0x04, 0x00, 0x00, 0x00, 0x52, 0x45, 0x44, 0x00, 0x69, 0x00, 0x00, 0x00, 0x17, 0x00,
    0x00, 0x00, 0x1e, 0x00, 0x00, 0x00, 0x07, 0x01, 0x1c, 0x00, 0x00, 0x00, 0x00, 0x07, 0x00,
    0x00, 0x01, 0x02, 0x00, 0x00, 0x00, 0x00, 0x5b, 0x00, 0x00, 0x00, 0x00, 0x00, 0x00, 0x00,
    0x5b, 0x00, 0x00, 0x00, 0x1f, 0x00, 0x00, 0x00,
];

type AckChannel = mio_extras::channel::Receiver<(GuidPrefix, AckSubmessage)>;
type LivenessChannel = mio_extras::channel::Receiver<GuidPrefix>;

fn own() -> GuidPrefix {
    GuidPrefix::new(&[0x01, 0x03, 0x00, 0x0c, 0x29, 0x2d, 0x31, 0xa2, 0x28, 0x20, 0x02, 0x08])
}

fn remote() -> GuidPrefix {
    GuidPrefix::new(&[0x01, 0x0f, 0x99, 0x06, 0x78, 0x34, 0x00, 0x00, 0x01, 0x00, 0x00, 0x00])
}

fn receiver_with<P: SecurityPlugins>(
    prefix: GuidPrefix,
    plugins: P,
) -> (MessageReceiver<P>, AckChannel, LivenessChannel) {
    let (acknack_sender, acknack_receiver) =
        mio_extras::channel::sync_channel::<(GuidPrefix, AckSubmessage)>(10);
    let (spdp_liveness_sender, spdp_liveness_receiver) = mio_extras::channel::sync_channel(8);
    (
        MessageReceiver::new(prefix, acknack_sender, spdp_liveness_sender, plugins),
        acknack_receiver,
        spdp_liveness_receiver,
    )
}

fn receiver(prefix: GuidPrefix) -> (MessageReceiver<NoSecurity>, AckChannel, LivenessChannel) {
    receiver_with(prefix, NoSecurity::new())
}

fn user_reader() -> Reader {
    let mut r = Reader::new(GUID::new(own(), EntityId::from_bytes(0, 0, 0, 0x07)), false);
    r.matched_writer_add(
        GUID::new(remote(), EntityId::from_bytes(0, 0, 1, 0x02)),
        EntityId::unknown(),
        vec![],
        vec![],
    );
    r
}

fn framed(kind: u8, flags: u8, body: SubmessageBody) -> Submessage {
    let n = body_len(&body);
    Submessage { header: SubmessageHeader { kind, flags, content_length: n as u16 }, body }
}

fn data(reader_id: EntityId, writer_id: EntityId, sn: i64, value: Vec<u8>) -> Submessage {
    framed(
        SUBMESSAGE_KIND_DATA,
        5,
        SubmessageBody::Writer(WriterSubmessage::Data(
            Data {
                reader_id,
                writer_id,
                writer_sn: sn,
                inline_qos: None,
                serialized_payload: Some(SerializedPayload::from_parts(1, value)),
            },
            5,
        )),
    )
}

fn heartbeat(reader_id: EntityId, writer_id: EntityId, first: i64, last: i64, flags: u8) -> Submessage {
    framed(
        SUBMESSAGE_KIND_HEARTBEAT,
        flags,
        SubmessageBody::Writer(WriterSubmessage::Heartbeat(
            Heartbeat { reader_id, writer_id, first_sn: first, last_sn: last, count: 1 },
            flags,
        )),
    )
}

fn info_ts(t: Option<Timestamp>) -> Submessage {
    let flags = if t.is_some() { 1 } else { 3 };
    framed(
        SUBMESSAGE_KIND_INFO_TS,
        flags,
        SubmessageBody::Interpreter(InterpreterSubmessage::InfoTimestamp(
            InfoTimestamp { timestamp: t },
            flags,
        )),
    )
}

fn info_dst(p: GuidPrefix) -> Submessage {
    framed(
        SUBMESSAGE_KIND_INFO_DST,
        1,
        SubmessageBody::Interpreter(InterpreterSubmessage::InfoDestination(
            InfoDestination { guid_prefix: p },
            1,
        )),
    )
}

fn secure(kind: u8, body: SecuritySubmessage) -> Submessage {
    framed(kind, 1, SubmessageBody::Security(body))
}

fn message(subs: Vec<Submessage>) -> Message {
    let mut m = Message::new(Header {
        protocol_id: Default::default(),
        protocol_version: ProtocolVersion { major: 2, minor: 2 },
        vendor_id: VendorId { first: 1, second: 2 },
        guid_prefix: remote(),
    });
    for s in subs {
        m.add_submessage(s);
    }
    m
}

fn bytes_of(m: &Message) -> bytes::Bytes {
    bytes::Bytes::from(m.write_to_vec_with_ctx(Endianness::LittleEndian).unwrap())
}

fn t0() -> Instant {
    Instant::from_nanos(1_000)
}

fn writer_id() -> EntityId {
    EntityId::from_bytes(0, 0, 1, 0x02)
}

fn reader_id() -> EntityId {
    EntityId::from_bytes(0, 0, 0, 0x07)
}

#[test]
fn test_shapes_demo_message_deserialization() {
    // The message bytes hold INFO_DST, INFO_TS, DATA and HEARTBEAT submessages.
    // The DATA submessage holds a ShapeType value. The bytes were captured
    // from the wire.
    let udp_bits1 = bytes::Bytes::from_static(&SHAPES_PACKET);

    // The message bytes name this prefix as the target of the message.
    let target_gui_prefix = own();

    // The message bytes name this GUID as the source of the message.
    let remote_writer_guid = GUID::new(remote(), EntityId::create_custom_entity_id([0, 0, 1], 0x02));

    let (mut message_receiver, _acknack_receiver, _spdp_liveness_receiver) =
        receiver(target_gui_prefix);

    let entity = EntityId::create_custom_entity_id([0, 0, 0], 0x07);
    let reader_guid = GUID::new_with_prefix_and_id(target_gui_prefix, entity);
    let mut new_reader = Reader::new(reader_guid, false);

    // The reader is told of the writer.
    new_reader.matched_writer_add(remote_writer_guid, EntityId::unknown(), vec![], vec![]);

    message_receiver.add_reader(new_reader);

    message_receiver.handle_received_packet(&udp_bits1, t0());

    // The receiver has counted the right number of submessages.
    assert_eq!(message_receiver.submessage_count, 4);

    let sequence_numbers =
        message_receiver.get_reader_history_cache_start_and_end_seq_num(reader_guid.entity_id);
    assert_eq!(vec![91, 91], sequence_numbers);

    let a = message_receiver
        .get_reader_and_history_cache_change(reader_guid.entity_id, *sequence_numbers.first().unwrap())
        .expect("No data in topic cache");

    // The ShapeType value is a string, then three numbers, in little-endian CDR.
    let value = a.data_value.unwrap().value;
    let length = u32::from_le_bytes([value[0], value[1], value[2], value[3]]) as usize;
    let color = String::from_utf8(value[4..4 + length - 1].to_vec()).unwrap();
    let x = i32::from_le_bytes([value[8], value[9], value[10], value[11]]);
    let y = i32::from_le_bytes([value[12], value[13], value[14], value[15]]);
    let size = i32::from_le_bytes([value[16], value[17], value[18], value[19]]);

    // The color in the value is the right one.
    assert_eq!(color, "RED");
    assert_eq!((0x69, 0x17, 0x1e), (x, y, size));
    assert_eq!(remote_writer_guid, a.writer_guid);
    assert_eq!(ChangeKind::ALIVE, a.kind);
}

#[test]
fn mr_test_submsg_count() {
    // A packet with INFO_DST, INFO_TS, DATA, HEARTBEAT
    let udp_bits1 = bytes::Bytes::from_static(&[
        0x52, 0x54, 0x50, 0x53, 0x02, 0x03, 0x01, 0x0f, 0x01, 0x0f, 0x99, 0x06, 0x78, 0x34, 0x00,
        0x00, 0x01, 0x00, 0x00, 0x00, 0x0e, 0x01, 0x0c, 0x00, 0x01, 0x03, 0x00, 0x0c, 0x29, 0x2d,
        0x31, 0xa2, 0x28, 0x20, 0x02, 0x08, 0x09, 0x01, 0x08, 0x00, 0x18, 0x15, 0xf3, 0x5e, 0x00,
        0x5c, 0xf0, 0x34, 0x15, 0x05, 0x2c, 0x00, 0x00, 0x00, 0x10, 0x00, 0x00, 0x00, 0x00, 0x07,
        0x00, 0x00, 0x01, 0x02, 0x00, 0x00, 0x00, 0x00, 0x43, 0x00, 0x00, 0x00, 0x00, 0x01, 0x00,
        0x00, 0x04, 0x00, 0x00, 0x00, 0x52, 0x45, 0x44, 0x00, 0x21, 0x00, 0x00, 0x00, 0x89, 0x00,
        0x00, 0x00, 0x1e, 0x00, 0x00, 0x00, 0x07, 0x01, 0x1c, 0x00, 0x00, 0x00, 0x00, 0x07, 0x00,
        0x00, 0x01, 0x02, 0x00, 0x00, 0x00, 0x00, 0x43, 0x00, 0x00, 0x00, 0x00, 0x00, 0x00, 0x00,
        0x43, 0x00, 0x00, 0x00, 0x07, 0x00, 0x00, 0x00,
    ]);
    // A packet with INFO_DST, ACKNACK
    let udp_bits2 = bytes::Bytes::from_static(&[
        0x52, 0x54, 0x50, 0x53, 0x02, 0x03, 0x01, 0x0f, 0x01, 0x0f, 0x99, 0x06, 0x78, 0x34, 0x00,
        0x00, 0x01, 0x00, 0x00, 0x00, 0x0e, 0x01, 0x0c, 0x00, 0x01, 0x03, 0x00, 0x0c, 0x29, 0x2d,
        0x31, 0xa2, 0x28, 0x20, 0x02, 0x08, 0x06, 0x03, 0x18, 0x00, 0x00, 0x00, 0x04, 0xc7, 0x00,
        0x00, 0x04, 0xc2, 0x00, 0x00, 0x00, 0x00, 0x02, 0x00, 0x00, 0x00, 0x00, 0x00, 0x00, 0x00,
        0x03, 0x00, 0x00, 0x00,
    ]);

    let guid_new = GUID::default();
    let (mut message_receiver, _acknack_receiver, _spdp_liveness_receiver) =
        receiver(guid_new.prefix);

    message_receiver.handle_received_packet(&udp_bits1, t0());
    assert_eq!(message_receiver.submessage_count, 4);

    message_receiver.handle_received_packet(&udp_bits2, t0());
    assert_eq!(message_receiver.submessage_count, 2);
}

#[test]
fn an_acknack_is_passed_on_with_the_prefix_of_its_sender() {
    let (mut r, acks, _liveness) = receiver(own());
    let m = Message::read_from_buffer(&[
        0x52, 0x54, 0x50, 0x53, 0x02, 0x03, 0x01, 0x0f, 0x01, 0x0f, 0x99, 0x06, 0x78, 0x34, 0x00,
        0x00, 0x01, 0x00, 0x00, 0x00, 0x0e, 0x01, 0x0c, 0x00, 0x01, 0x03, 0x00, 0x0c, 0x29, 0x2d,
        0x31, 0xa2, 0x28, 0x20, 0x02, 0x08, 0x06, 0x03, 0x18, 0x00, 0x00, 0x00, 0x04, 0xc7, 0x00,
        0x00, 0x04, 0xc2, 0x00, 0x00, 0x00, 0x00, 0x02, 0x00, 0x00, 0x00, 0x00, 0x00, 0x00, 0x00,
        0x03, 0x00, 0x00, 0x00,
    ])
    .unwrap();
    r.handle_parsed_message(m, t0());
    let (prefix, ack) = acks.try_recv().unwrap();
    assert_eq!(remote(), prefix);
    match ack {
        AckSubmessage::AckNack(a) => {
            assert_eq!(EntityId::from_bytes(0, 0, 4, 0xc2), a.writer_id);
            assert_eq!(2, a.reader_sn_state.base);
            assert_eq!(3, a.count);
        }
        other => panic!("{:?}", other),
    }
    assert!(acks.try_recv().is_err());
}

#[test]
fn a_full_channel_drops_the_acknack_and_does_not_block() {
    let (mut r, acks, _liveness) = receiver(own());
    let ack = || {
        framed(
            SUBMESSAGE_KIND_ACKNACK,
            1,
            SubmessageBody::Reader(ReaderSubmessage::AckNack(
                AckNack {
                    reader_id: reader_id(),
                    writer_id: writer_id(),
                    reader_sn_state: SequenceNumberSet::new(1),
                    count: 1,
                },
                1,
            )),
        )
    };
    let mut subs = Vec::new();
    for _ in 0..14 {
        subs.push(ack());
    }
    subs.push(framed(
        SUBMESSAGE_KIND_NACK_FRAG,
        1,
        SubmessageBody::Reader(ReaderSubmessage::NackFrag(
            NackFrag {
                reader_id: reader_id(),
                writer_id: writer_id(),
                writer_sn: 1,
                fragment_base: 1,
                fragment_num_bits: 0,
                fragment_bitmap: vec![],
                count: 1,
            },
            1,
        )),
    ));
    r.handle_received_packet(&bytes_of(&message(subs)), t0());
    assert_eq!(15, r.submessage_count);
    let mut got = 0;
    while acks.try_recv().is_ok() {
        got += 1;
    }
    // The channel holds ten; the rest was dropped.
    assert_eq!(10, got);
}

#[test]
fn an_acknack_for_another_participant_is_not_passed_on() {
    let (mut r, acks, _liveness) = receiver(own());
    let ack = framed(
        SUBMESSAGE_KIND_ACKNACK,
        1,
        SubmessageBody::Reader(ReaderSubmessage::AckNack(
            AckNack {
                reader_id: reader_id(),
                writer_id: writer_id(),
                reader_sn_state: SequenceNumberSet::new(1),
                count: 1,
            },
            1,
        )),
    );
    r.handle_received_packet(
        &bytes_of(&message(vec![info_dst(GuidPrefix::new(&[5; 12])), ack])),
        t0(),
    );
    assert!(acks.try_recv().is_err());
    assert_eq!(2, r.submessage_count);
}

#[test]
fn receiver_state_is_reset_between_datagrams() {
    let (mut r, _acks, _liveness) = receiver(own());
    let reply = framed(
        SUBMESSAGE_KIND_INFO_REPLY,
        3,
        SubmessageBody::Interpreter(InterpreterSubmessage::InfoReply(
            InfoReply {
                unicast_locator_list: vec![Locator::udp_v4(10, 0, 0, 1, 7410)],
                multicast_locator_list: Some(vec![Locator::udp_v4(239, 255, 0, 1, 7400)]),
            },
            3,
        )),
    );
    let first = message(vec![
        info_dst(GuidPrefix::new(&[5; 12])),
        info_ts(Some(Timestamp { seconds: 9, fraction: 9 })),
        reply,
    ]);
    r.handle_received_packet(&bytes_of(&first), t0());
    assert_eq!(GuidPrefix::new(&[5; 12]), r.dest_guid_prefix);
    assert_eq!(Some(Timestamp { seconds: 9, fraction: 9 }), r.source_timestamp);
    assert_eq!(vec![Locator::udp_v4(10, 0, 0, 1, 7410)], r.unicast_reply_locator_list);
    assert_eq!(vec![Locator::udp_v4(239, 255, 0, 1, 7400)], r.multicast_reply_locator_list);
    assert_eq!(remote(), r.source_guid_prefix);
    assert_eq!(ProtocolVersion { major: 2, minor: 2 }, r.source_version);
    assert_eq!(VendorId { first: 1, second: 2 }, r.source_vendor_id);
    // The next datagram starts afresh.
    r.handle_received_packet(&bytes_of(&message(vec![])), t0());
    assert_eq!(own(), r.dest_guid_prefix);
    assert_eq!(None, r.source_timestamp);
    assert!(r.unicast_reply_locator_list.is_empty());
    assert!(r.multicast_reply_locator_list.is_empty());
    assert_eq!(0, r.submessage_count);
    // And a datagram that holds no message is dropped, and the receiver
    // forgets what it knew.
    r.handle_received_packet(&bytes_of(&first), t0());
    assert_eq!(3, r.submessage_count);
    r.handle_received_packet(&bytes::Bytes::from_static(b"RTPS"), t0());
    assert_eq!(None, r.source_timestamp);
    assert_eq!(0, r.submessage_count);
    assert_eq!(GuidPrefix::unknown(), r.source_guid_prefix);
    assert_eq!(GuidPrefix::unknown(), r.dest_guid_prefix);
    assert!(r.unicast_reply_locator_list.is_empty());
    assert!(r.multicast_reply_locator_list.is_empty());
    // So does one whose first submessage claims more bytes than there are.
    r.handle_received_packet(&bytes_of(&first), t0());
    let mut cut = bytes_of(&first).to_vec();
    cut.truncate(30);
    r.handle_datagram(&cut, t0());
    assert_eq!(None, r.source_timestamp);
    assert_eq!(0, r.submessage_count);
    // And one that does not start with the protocol's name.
    r.handle_received_packet(&bytes_of(&first), t0());
    let mut other = bytes_of(&first).to_vec();
    other[0] = b'X';
    r.handle_datagram(&other, t0());
    assert_eq!(None, r.source_timestamp);
    assert_eq!(0, r.submessage_count);
}

#[test]
fn a_request_for_fragments_is_passed_on_too() {
    let (mut r, acks, _liveness) = receiver(own());
    let nack = || NackFrag {
        reader_id: reader_id(),
        writer_id: writer_id(),
        writer_sn: 4,
        fragment_base: 1,
        fragment_num_bits: 0,
        fragment_bitmap: vec![],
        count: 2,
    };
    let sub = framed(
        SUBMESSAGE_KIND_NACK_FRAG,
        1,
        SubmessageBody::Reader(ReaderSubmessage::NackFrag(nack(), 1)),
    );
    r.handle_received_packet(&bytes_of(&message(vec![sub])), t0());
    let (prefix, got) = acks.try_recv().unwrap();
    assert_eq!(remote(), prefix);
    assert_eq!(AckSubmessage::NackFrag(nack()), got);
    assert!(acks.try_recv().is_err());
}

#[test]
fn interpreter_submessages_are_followed() {
    let (mut r, _acks, _liveness) = receiver(own());
    r.handle_parsed_message(message(vec![]), t0());
    r.handle_interpreter_submessage(InterpreterSubmessage::InfoTimestamp(
        InfoTimestamp { timestamp: Some(Timestamp { seconds: 1, fraction: 2 }) },
        1,
    ));
    assert_eq!(Some(Timestamp { seconds: 1, fraction: 2 }), r.source_timestamp);
    r.handle_interpreter_submessage(InterpreterSubmessage::InfoReply(
        InfoReply {
            unicast_locator_list: vec![Locator::udp_v4(1, 2, 3, 4, 5)],
            multicast_locator_list: Some(vec![Locator::udp_v4(239, 0, 0, 1, 5)]),
        },
        1,
    ));
    // The flags do not announce the multicast list: it is passed over.
    assert_eq!(vec![Locator::udp_v4(1, 2, 3, 4, 5)], r.unicast_reply_locator_list);
    assert!(r.multicast_reply_locator_list.is_empty());
    r.handle_interpreter_submessage(InterpreterSubmessage::InfoReply(
        InfoReply { unicast_locator_list: vec![], multicast_locator_list: None },
        3,
    ));
    assert!(r.unicast_reply_locator_list.is_empty());
    assert!(r.multicast_reply_locator_list.is_empty());
    r.handle_interpreter_submessage(InterpreterSubmessage::InfoDestination(
        InfoDestination { guid_prefix: GuidPrefix::new(&[8; 12]) },
        1,
    ));
    assert_eq!(GuidPrefix::new(&[8; 12]), r.dest_guid_prefix);
    assert!(!r.for_us());
    r.handle_interpreter_submessage(InterpreterSubmessage::InfoDestination(
        InfoDestination { guid_prefix: GuidPrefix::unknown() },
        1,
    ));
    assert_eq!(own(), r.dest_guid_prefix);
    assert!(r.for_us());
    r.handle_interpreter_submessage(InterpreterSubmessage::InfoReply(
        InfoReply { unicast_locator_list: vec![Locator::invalid()], multicast_locator_list: None },
        1,
    ));
    r.handle_interpreter_submessage(InterpreterSubmessage::InfoSource(
        InfoSource {
            protocol_version: ProtocolVersion { major: 2, minor: 4 },
            vendor_id: VendorId { first: 9, second: 9 },
            guid_prefix: GuidPrefix::new(&[6; 12]),
        },
        1,
    ));
    assert_eq!(GuidPrefix::new(&[6; 12]), r.source_guid_prefix);
    assert_eq!(ProtocolVersion { major: 2, minor: 4 }, r.source_version);
    assert_eq!(VendorId { first: 9, second: 9 }, r.source_vendor_id);
    assert_eq!(None, r.source_timestamp);
    assert!(r.unicast_reply_locator_list.is_empty());
    r.handle_interpreter_submessage(InterpreterSubmessage::InfoTimestamp(
        InfoTimestamp { timestamp: None },
        3,
    ));
    assert_eq!(None, r.source_timestamp);
    let state: MessageReceiverState = r.clone_partial_message_receiver_state();
    assert_eq!(GuidPrefix::new(&[6; 12]), state.source_guid_prefix);
    let fresh = MessageReceiverState::default();
    assert_eq!(Some(Timestamp::invalid()), fresh.source_timestamp);
    assert_eq!(GuidPrefix::unknown(), fresh.source_guid_prefix);
}

#[test]
fn spdp_ping() {
    // A participant writer announces itself: INFO_DST, INFO_TS, DATA, HEARTBEAT.
    let (_sender, channel) = mio_extras::channel::channel::<DDSData>();
    let mut w = Writer::new(
        GUID::new(remote(), EntityId::spdp_builtin_participant_writer()),
        channel,
        "DCPSParticipant".to_string(),
        QosPolicies::qos_none(),
    );
    w.insert_to_history_cache(
        DDSData::new(
            0,
            SerializedPayload::from_parts(
                3,
                vec![
                    0x15, 0, 4, 0, 2, 3, 0, 0, 0x16, 0, 4, 0, 1, 2, 0, 0, 0x43, 0, 4, 0, 0, 0, 0, 0,
                    1, 0, 0, 0,
                ],
            ),
        ),
        Instant::from_nanos(0),
    );
    let mut announcement = w
        .write_user_msg(
            w.find_cache_change(1).unwrap(),
            GUID::new(GuidPrefix::unknown(), EntityId::unknown()),
            Timestamp { seconds: 5, fraction: 0 },
        )
        .unwrap();
    announcement.add_submessage(w.get_heartbeat_msg(EntityId::unknown(), false, false));
    let bytes = bytes_of(&announcement);
    assert_eq!(136, bytes.len());

    let (mut r, _acks, liveness) = receiver(own());
    r.add_reader(Reader::new(GUID::new(own(), EntityId::spdp_builtin_participant_reader()), true));
    r.add_reader(user_reader());
    r.handle_received_packet(&bytes, t0());

    assert_eq!(4, r.submessage_count);
    let spdp_reader = &r.available_readers[0];
    assert_eq!(1, spdp_reader.history_cache.len());
    let change = spdp_reader.history_cache.get_change(1).unwrap();
    assert_eq!(GUID::new(remote(), EntityId::spdp_builtin_participant_writer()), change.writer_guid);
    assert_eq!(1, spdp_reader.notifications);
    assert_eq!(0, r.available_readers[1].history_cache.len());
    assert_eq!(Ok(remote()), liveness.try_recv());
    assert!(liveness.try_recv().is_err());

    // The same announcement again: the sign of life goes to discovery each time.
    r.handle_received_packet(&bytes, t0());
    assert_eq!(Ok(remote()), liveness.try_recv());
}

#[test]
fn data_goes_to_the_reader_it_names_or_to_the_matched_readers() {
    let (mut r, _acks, liveness) = receiver(own());
    r.add_reader(user_reader());
    let mut other = Reader::new(GUID::new(own(), EntityId::from_bytes(0, 0, 9, 0x07)), false);
    other.matched_writer_add(GUID::new(remote(), writer_id()), EntityId::unknown(), vec![], vec![]);
    r.add_reader(other);
    r.add_reader(Reader::new(GUID::new(own(), EntityId::from_bytes(0, 0, 5, 0x04)), false));
    // A reader whose entity id is taken is not added.
    r.add_reader(user_reader());
    assert_eq!(3, r.available_readers.len());

    r.handle_received_packet(
        &bytes_of(&message(vec![data(reader_id(), writer_id(), 1, vec![1])])),
        t0(),
    );
    assert_eq!(vec![1, 0, 0], r.available_readers.iter().map(|x| x.history_cache.len()).collect::<Vec<_>>());

    r.handle_received_packet(
        &bytes_of(&message(vec![data(EntityId::unknown(), writer_id(), 2, vec![2])])),
        Instant::from_nanos(2_000),
    );
    assert_eq!(vec![2, 1, 0], r.available_readers.iter().map(|x| x.history_cache.len()).collect::<Vec<_>>());
    assert_eq!(
        Some(&Instant::from_nanos(2_000)),
        r.available_readers[1].matched_writers[0].changes.get(&2)
    );

    // The same data again is dropped by the readers.
    r.handle_received_packet(
        &bytes_of(&message(vec![data(EntityId::unknown(), writer_id(), 2, vec![2])])),
        t0(),
    );
    assert_eq!(vec![2, 1, 0], r.available_readers.iter().map(|x| x.history_cache.len()).collect::<Vec<_>>());

    // Data for another participant is dropped by the receiver.
    r.handle_received_packet(
        &bytes_of(&message(vec![
            info_dst(GuidPrefix::new(&[5; 12])),
            data(EntityId::unknown(), writer_id(), 3, vec![3]),
        ])),
        t0(),
    );
    assert_eq!(vec![2, 1, 0], r.available_readers.iter().map(|x| x.history_cache.len()).collect::<Vec<_>>());

    // Data of a writer that no reader knows, and data without a sequence number.
    r.handle_received_packet(
        &bytes_of(&message(vec![
            data(EntityId::unknown(), EntityId::from_bytes(0, 0, 8, 0x02), 3, vec![3]),
            data(reader_id(), EntityId::from_bytes(0, 0, 8, 0x02), 3, vec![3]),
            data(reader_id(), writer_id(), 0, vec![3]),
        ])),
        t0(),
    );
    assert_eq!(vec![2, 1, 0], r.available_readers.iter().map(|x| x.history_cache.len()).collect::<Vec<_>>());
    assert!(liveness.try_recv().is_err());

    let removed = r.remove_reader(GUID::new(own(), reader_id())).unwrap();
    assert_eq!(2, removed.history_cache.len());
    assert!(r.remove_reader(GUID::new(own(), reader_id())).is_none());
    assert!(r.reader_mut(reader_id()).is_none());
    r.reader_mut(EntityId::from_bytes(0, 0, 9, 0x07)).unwrap().notifications = 17;
    r.notify_data_to_readers(vec![EntityId::from_bytes(0, 0, 9, 0x07), reader_id()]);
    assert_eq!(18, r.available_readers[0].notifications);
    assert_eq!(0, r.available_readers[1].notifications);
}

#[test]
fn a_heartbeat_is_answered_with_what_is_missing() {
    let (mut r, _acks, _liveness) = receiver(own());
    r.add_reader(user_reader());
    for s in [1, 3, 5] {
        r.handle_received_packet(
            &bytes_of(&message(vec![data(reader_id(), writer_id(), s, vec![s as u8])])),
            t0(),
        );
    }
    r.handle_received_packet(
        &bytes_of(&message(vec![heartbeat(EntityId::unknown(), writer_id(), 1, 7, 1)])),
        t0(),
    );
    let reader = &mut r.available_readers[0];
    assert_eq!(7, reader.matched_writers[0].hb_last_seen());
    assert_eq!(1, reader.matched_writers[0].received_heartbeat_count);
    assert_eq!(1, reader.matched_writers[0].sent_ack_nack_count);
    let pending = reader.take_pending_acknacks();
    assert_eq!(1, pending.len());
    assert_eq!(GUID::new(remote(), writer_id()), pending[0].writer_guid);
    assert_eq!(Duration { seconds: 0, nanos: 200_000_000 }, pending[0].delay);
    assert_eq!(reader_id(), pending[0].acknack.reader_id);
    assert_eq!(writer_id(), pending[0].acknack.writer_id);
    assert_eq!(1, pending[0].acknack.count);
    assert_eq!(2, pending[0].acknack.reader_sn_state.base);
    assert_eq!(vec![2, 4, 6], pending[0].acknack.reader_sn_state.elements());
    assert!(reader.take_pending_acknacks().is_empty());

    // A final heartbeat is answered only where something is missing.
    r.handle_received_packet(
        &bytes_of(&message(vec![heartbeat(reader_id(), writer_id(), 1, 7, 3)])),
        t0(),
    );
    assert_eq!(1, r.available_readers[0].take_pending_acknacks().len());
    for s in [2, 4, 6] {
        r.handle_received_packet(
            &bytes_of(&message(vec![data(reader_id(), writer_id(), s, vec![s as u8])])),
            t0(),
        );
    }
    r.handle_received_packet(
        &bytes_of(&message(vec![heartbeat(reader_id(), writer_id(), 1, 7, 3)])),
        t0(),
    );
    assert!(r.available_readers[0].take_pending_acknacks().is_empty());
    // One that is not final is answered in any case: nothing is missing below 7.
    r.handle_received_packet(
        &bytes_of(&message(vec![heartbeat(reader_id(), writer_id(), 1, 7, 1)])),
        t0(),
    );
    let pending = r.available_readers[0].take_pending_acknacks();
    assert_eq!(8, pending[0].acknack.reader_sn_state.base);
    assert!(pending[0].acknack.reader_sn_state.is_empty());
    assert_eq!(3, pending[0].acknack.count);
    // A heartbeat of a writer that is not matched changes nothing.
    r.handle_received_packet(
        &bytes_of(&message(vec![heartbeat(reader_id(), EntityId::from_bytes(0, 0, 8, 0x02), 1, 7, 1)])),
        t0(),
    );
    assert!(r.available_readers[0].take_pending_acknacks().is_empty());
}

#[test]
fn an_acknowledgement_has_room_for_256_sequence_numbers() {
    let (mut r, _acks, _liveness) = receiver(own());
    r.add_reader(user_reader());
    r.handle_received_packet(
        &bytes_of(&message(vec![
            data(reader_id(), writer_id(), 10, vec![1]),
            heartbeat(reader_id(), writer_id(), 1, 1_000, 1),
        ])),
        t0(),
    );
    let pending = r.available_readers[0].take_pending_acknacks();
    let set = &pending[0].acknack.reader_sn_state;
    assert_eq!(11, set.base);
    assert_eq!(256, set.num_bits);
    assert_eq!((11..267).collect::<Vec<i64>>(), set.elements());
}

#[test]
fn gap_handling() {
    let (mut r, _acks, _liveness) = receiver(own());
    r.add_reader(user_reader());
    for s in [1, 3, 5] {
        r.handle_received_packet(
            &bytes_of(&message(vec![data(reader_id(), writer_id(), s, vec![s as u8])])),
            t0(),
        );
    }
    let gap = framed(
        SUBMESSAGE_KIND_GAP,
        1,
        SubmessageBody::Writer(WriterSubmessage::Gap(
            Gap {
                reader_id: reader_id(),
                writer_id: writer_id(),
                gap_start: 2,
                gap_list: SequenceNumberSet::new(5),
            },
            1,
        )),
    );
    r.handle_received_packet(&bytes_of(&message(vec![gap])), t0());
    let proxy = &r.available_readers[0].matched_writers[0];
    assert_eq!(vec![5], proxy.changes.keys().copied().collect::<Vec<i64>>());
    assert!(proxy.missing_changes(6).is_empty());
    assert_eq!(3, r.available_readers[0].history_cache.len());
}

#[test]
fn fragments_are_not_put_together() {
    let (mut r, _acks, _liveness) = receiver(own());
    r.add_reader(user_reader());
    let frag = |payload: Vec<u8>| {
        framed(
            SUBMESSAGE_KIND_DATA_FRAG,
            1,
            SubmessageBody::Writer(WriterSubmessage::DataFrag(
                DataFrag {
                    reader_id: EntityId::unknown(),
                    writer_id: writer_id(),
                    writer_sn: 1,
                    fragment_starting_num: 1,
                    fragments_in_submessage: 2,
                    fragment_size: 4,
                    data_size: 8,
                    inline_qos: None::<ParameterList>,
                    serialized_payload: payload,
                },
                1,
            )),
        )
    };
    let hbf = framed(
        SUBMESSAGE_KIND_HEARTBEAT_FRAG,
        1,
        SubmessageBody::Writer(WriterSubmessage::HeartbeatFrag(
            HeartbeatFrag {
                reader_id: reader_id(),
                writer_id: writer_id(),
                writer_sn: 1,
                last_fragment_num: 2,
                count: 1,
            },
            1,
        )),
    );
    r.handle_received_packet(&bytes_of(&message(vec![frag(vec![0; 8]), frag(vec![0; 9]), hbf])), t0());
    assert_eq!(3, r.submessage_count);
    assert_eq!(0, r.available_readers[0].history_cache.len());
    assert!(r.available_readers[0].matched_writers[0].changes.is_empty());
}

#[test]
fn preemptive_acknacks_go_to_the_writers_not_heard_of() {
    let (mut r, _acks, _liveness) = receiver(own());
    let mut reader = user_reader();
    reader.matched_writer_add(
        GUID::new(remote(), EntityId::from_bytes(0, 0, 2, 0x02)),
        EntityId::unknown(),
        vec![],
        vec![],
    );
    r.add_reader(reader);
    r.handle_received_packet(
        &bytes_of(&message(vec![data(reader_id(), writer_id(), 1, vec![1])])),
        t0(),
    );
    r.send_preemptive_acknacks();
    let pending = r.available_readers[0].take_pending_acknacks();
    assert_eq!(1, pending.len());
    assert_eq!(GUID::new(remote(), EntityId::from_bytes(0, 0, 2, 0x02)), pending[0].writer_guid);
    assert_eq!(0, pending[0].acknack.reader_sn_state.base);
    assert!(pending[0].acknack.reader_sn_state.is_empty());
    assert_eq!(1, pending[0].acknack.count);
    assert_eq!(reader_id(), pending[0].acknack.reader_id);
    assert_eq!(EntityId::from_bytes(0, 0, 2, 0x02), pending[0].acknack.writer_id);
    assert_eq!(r.available_readers[0].nack_response_delay, pending[0].delay);
    // The writer that was heard of is not asked, and nothing is counted for it.
    assert_eq!(0, r.available_readers[0].matched_writers[0].sent_ack_nack_count);
    assert_eq!(1, r.available_readers[0].matched_writers[1].sent_ack_nack_count);
    assert_eq!(1, r.available_readers[0].history_cache.len());
    // Asked again, the silent writer gets the next count.
    r.send_preemptive_acknacks();
    let pending = r.available_readers[0].take_pending_acknacks();
    assert_eq!(1, pending.len());
    assert_eq!(2, pending[0].acknack.count);
}

#[test]
fn secure_submessage_sequence_error() {
    let (mut r, _acks, _liveness) = receiver(own());
    r.add_reader(user_reader());
    let m = message(vec![
        secure(
            SUBMESSAGE_KIND_SEC_PREFIX,
            SecuritySubmessage::SecurePrefix(SecurePrefix { content: vec![1, 2, 3, 4] }, 1),
        ),
        data(reader_id(), writer_id(), 1, vec![1]),
        data(reader_id(), writer_id(), 2, vec![2]),
        secure(
            SUBMESSAGE_KIND_SEC_POSTFIX,
            SecuritySubmessage::SecurePostfix(SecurePostfix { content: vec![5, 6, 7, 8] }, 1),
        ),
    ]);
    r.handle_received_packet(&bytes_of(&m), t0());
    assert_eq!(4, r.submessage_count);
    // The second data submessage has put the receiver back; the postfix came
    // out of sequence; and no reader has got anything.
    assert_eq!(None, r.secure_receiver_state);
    assert_eq!(0, r.available_readers[0].history_cache.len());
    assert!(r.available_readers[0].matched_writers[0].changes.is_empty());
}

#[test]
fn the_secure_receiver_walks_through_its_states() {
    let (mut r, _acks, _liveness) = receiver(own());
    r.add_reader(user_reader());
    r.handle_parsed_message(message(vec![]), t0());
    r.handle_submessage(
        secure(
            SUBMESSAGE_KIND_SEC_BODY,
            SecuritySubmessage::SecureBody(SecureBody { content: vec![] }, 1),
        ),
        t0(),
    );
    assert_eq!(None, r.secure_receiver_state);
    r.handle_submessage(
        secure(
            SUBMESSAGE_KIND_SEC_PREFIX,
            SecuritySubmessage::SecurePrefix(SecurePrefix { content: vec![1] }, 1),
        ),
        t0(),
    );
    assert_eq!(
        Some(SecureReceiverState::Prefix(SecurePrefix { content: vec![1] })),
        r.secure_receiver_state
    );
    r.handle_submessage(data(reader_id(), writer_id(), 1, vec![1]), t0());
    assert_eq!(
        Some(SecureReceiverState::SecureSubmessage(
            SecurePrefix { content: vec![1] },
            data(reader_id(), writer_id(), 1, vec![1])
        )),
        r.secure_receiver_state
    );
    // Without plugins the triad cannot be decoded: it is dropped.
    r.handle_submessage(
        secure(
            SUBMESSAGE_KIND_SEC_POSTFIX,
            SecuritySubmessage::SecurePostfix(SecurePostfix { content: vec![2] }, 1),
        ),
        t0(),
    );
    assert_eq!(None, r.secure_receiver_state);
    assert_eq!(0, r.available_readers[0].history_cache.len());
    // A prefix in a message for another participant is not kept.
    r.handle_submessage(info_dst(GuidPrefix::new(&[5; 12])), t0());
    r.handle_submessage(
        secure(
            SUBMESSAGE_KIND_SEC_PREFIX,
            SecuritySubmessage::SecurePrefix(SecurePrefix { content: vec![1] }, 1),
        ),
        t0(),
    );
    assert_eq!(None, r.secure_receiver_state);
}

#[derive(Debug, Clone, Copy)]
struct Unwrapping;

impl SecurityPlugins for Unwrapping {
    fn decode_rtps_message(
        &self,
        message: Message,
        _source_guid_prefix: &GuidPrefix,
        _dest_guid_prefix: &GuidPrefix,
    ) -> Result<Message, SecurityError> {
        let mut inner = Message::new(message.header);
        for s in message.submessages.into_iter().skip(1) {
            inner.add_submessage(s);
        }
        Ok(inner)
    }

    fn preprocess_secure_submessage(
        &self,
        secure_prefix: &SecurePrefix,
        _source_guid_prefix: &GuidPrefix,
        _dest_guid_prefix: &GuidPrefix,
    ) -> Result<SecureSubmessageKind, SecurityError> {
        match secure_prefix.content.first() {
            Some(0) => Ok(SecureSubmessageKind::InfoSubmessage),
            Some(1) => Ok(SecureSubmessageKind::DatawriterSubmessage(1, 2)),
            Some(2) => Ok(SecureSubmessageKind::DatareaderSubmessage(3, 4)),
            _ => Err(SecurityError { msg: "unknown".to_string() }),
        }
    }

    fn decode_datawriter_submessage(
        &self,
        _secure_prefix: SecurePrefix,
        encoded_submessage: Submessage,
        _secure_postfix: SecurePostfix,
        _receiving: u32,
        _sending: u32,
    ) -> Result<WriterSubmessage, SecurityError> {
        match encoded_submessage.body {
            SubmessageBody::Writer(w) => Ok(w),
            _ => Err(SecurityError { msg: "not of a writer".to_string() }),
        }
    }

    fn decode_datareader_submessage(
        &self,
        _secure_prefix: SecurePrefix,
        encoded_submessage: Submessage,
        _secure_postfix: SecurePostfix,
        _receiving: u32,
        _sending: u32,
    ) -> Result<ReaderSubmessage, SecurityError> {
        match encoded_submessage.body {
            SubmessageBody::Reader(r) => Ok(r),
            _ => Err(SecurityError { msg: "not of a reader".to_string() }),
        }
    }

    fn decode_serialized_payload(
        &self,
        encoded_payload: Vec<u8>,
        _inline_qos: &Option<ParameterList>,
        _source_guid: &GUID,
        _reader_guid: &GUID,
    ) -> Result<Vec<u8>, SecurityError> {
        if encoded_payload.first() == Some(&0xFF) {
            return Err(SecurityError { msg: "refused".to_string() });
        }
        Ok(encoded_payload.iter().map(|b| b ^ 0x55).collect())
    }
}

#[test]
fn secured_submessages_are_decoded_by_the_plugins() {
    let (mut r, acks, _liveness) = receiver_with(own(), Unwrapping);
    r.add_reader(user_reader());
    let prefix = |n: u8| {
        secure(
            SUBMESSAGE_KIND_SEC_PREFIX,
            SecuritySubmessage::SecurePrefix(SecurePrefix { content: vec![n] }, 1),
        )
    };
    let postfix = || {
        secure(
            SUBMESSAGE_KIND_SEC_POSTFIX,
            SecuritySubmessage::SecurePostfix(SecurePostfix { content: vec![] }, 1),
        )
    };
    let ack = framed(
        SUBMESSAGE_KIND_ACKNACK,
        1,
        SubmessageBody::Reader(ReaderSubmessage::AckNack(
            AckNack {
                reader_id: reader_id(),
                writer_id: writer_id(),
                reader_sn_state: SequenceNumberSet::new(4),
                count: 9,
            },
            1,
        )),
    );
    let m = message(vec![
        prefix(1),
        data(reader_id(), writer_id(), 1, vec![0x54, 0x57]),
        postfix(),
        prefix(0),
        info_ts(Some(Timestamp { seconds: 3, fraction: 4 })),
        postfix(),
        prefix(2),
        ack,
        postfix(),
        prefix(7),
        data(reader_id(), writer_id(), 2, vec![0]),
        postfix(),
        prefix(1),
        data(reader_id(), writer_id(), 3, vec![0xFF]),
        postfix(),
    ]);
    r.handle_received_packet(&bytes_of(&m), t0());
    assert_eq!(15, r.submessage_count);
    assert_eq!(None, r.secure_receiver_state);
    assert_eq!(Some(Timestamp { seconds: 3, fraction: 4 }), r.source_timestamp);
    let reader = &r.available_readers[0];
    // Of the three data submessages one was decoded: the plugins did not
    // know the second prefix and refused the third payload.
    assert_eq!(1, reader.history_cache.len());
    assert_eq!(
        vec![0x01, 0x02],
        reader.history_cache.get_change(1).unwrap().data_value.as_ref().unwrap().value
    );
    let (from, got) = acks.try_recv().unwrap();
    assert_eq!(remote(), from);
    assert_eq!(
        AckSubmessage::AckNack(AckNack {
            reader_id: reader_id(),
            writer_id: writer_id(),
            reader_sn_state: SequenceNumberSet::new(4),
            count: 9,
        }),
        got
    );
}

#[test]
fn a_message_secured_as_a_whole_is_decoded_first() {
    let wrapped = |depth: usize| {
        let mut subs = Vec::new();
        for _ in 0..depth {
            subs.push(secure(
                SUBMESSAGE_KIND_SRTPS_PREFIX,
                SecuritySubmessage::SecureRTPSPrefix(SecureRTPSPrefix { content: vec![] }, 1),
            ));
        }
        subs.push(data(reader_id(), writer_id(), 1, vec![0x54]));
        message(subs)
    };
    let (mut r, _acks, _liveness) = receiver_with(own(), Unwrapping);
    r.add_reader(user_reader());
    r.handle_received_packet(&bytes_of(&wrapped(3)), t0());
    assert_eq!(1, r.submessage_count);
    assert_eq!(1, r.available_readers[0].history_cache.len());
    // Deeper than the receiver follows: dropped.
    let (mut deep, _acks, _liveness) = receiver_with(own(), Unwrapping);
    deep.add_reader(user_reader());
    deep.handle_received_packet(&bytes_of(&wrapped(9)), t0());
    assert_eq!(0, deep.available_readers[0].history_cache.len());
    // Without plugins a secured message is dropped, and one whose prefix
    // does not come first has the prefix passed over.
    let (mut plain, _acks, _liveness) = receiver(own());
    plain.add_reader(user_reader());
    plain.handle_received_packet(&bytes_of(&wrapped(1)), t0());
    assert_eq!(0, plain.submessage_count);
    assert_eq!(0, plain.available_readers[0].history_cache.len());
    let late = message(vec![
        data(reader_id(), writer_id(), 1, vec![1]),
        secure(
            SUBMESSAGE_KIND_SRTPS_PREFIX,
            SecuritySubmessage::SecureRTPSPrefix(SecureRTPSPrefix { content: vec![] }, 1),
        ),
    ]);
    plain.handle_received_packet(&bytes_of(&late), t0());
    assert_eq!(2, plain.submessage_count);
    assert_eq!(1, plain.available_readers[0].history_cache.len());
}

#[test]
fn short_datagrams_and_pings() {
    let (mut r, _acks, _liveness) = receiver(own());
    r.handle_datagram(b"RTPS\x02\x03\x01\x0f\0DDSPING", t0());
    r.handle_datagram(&[], t0());
    assert_eq!(0, r.submessage_count);
    assert!(is_rtps_ping(b"RTPS\x02\x03\x01\x0f\0DDSPING"));
    assert!(is_rtps_ping(b"RTPS\x02\x03\x01\x0f\0DDSPING\0\0\0"));
    assert!(!is_rtps_ping(b"RTPS\x02\x03\x01\x0f\0DDSPINX"));
    assert!(!is_rtps_ping(b"RTPX\x02\x03\x01\x0f\0DDSPING"));
    assert!(!is_rtps_ping(b"RTPS\x02\x03\x01\x0f\0DDSPIN"));
    assert!(!is_rtps_ping(b"RTPS\x02\x03\x01\x0f\0DDSPING\0\0\0\0"));
}

#[test]
fn a_new_receiver_knows_nobody() {
    let (r, _acks, _liveness) = receiver(own());
    assert_eq!(GuidPrefix::unknown(), r.source_guid_prefix);
    assert_eq!(GuidPrefix::unknown(), r.dest_guid_prefix);
    assert_eq!(vec![Locator::invalid()], r.unicast_reply_locator_list);
    assert_eq!(vec![Locator::invalid()], r.multicast_reply_locator_list);
    assert_eq!(None, r.source_timestamp);
    assert_eq!(0, r.submessage_count);
    assert!(r.available_readers.is_empty());
    assert!(r.get_reader_history_cache_start_and_end_seq_num(reader_id()).is_empty());
    assert!(r.get_reader_and_history_cache_change(reader_id(), 1).is_none());
    let h = Header::new(own());
    assert_eq!(own(), h.guid_prefix);
}

#[test]
fn what_goes_to_the_writer_side_carries_the_senders_prefix() {
    let (mut r, _acks, _liveness) = receiver(own());
    r.source_guid_prefix = remote();
    r.dest_guid_prefix = own();
    let ack = || AckNack {
        reader_id: reader_id(),
        writer_id: writer_id(),
        reader_sn_state: SequenceNumberSet::new(7),
        count: 2,
    };
    assert_eq!(
        Some((remote(), AckSubmessage::AckNack(ack()))),
        r.forwarded(ReaderSubmessage::AckNack(ack(), 1))
    );
    // The unknown prefix names this participant too.
    r.dest_guid_prefix = GuidPrefix::unknown();
    assert_eq!(
        Some((remote(), AckSubmessage::AckNack(ack()))),
        r.forwarded(ReaderSubmessage::AckNack(ack(), 3))
    );
    // What is meant for another participant goes nowhere.
    r.dest_guid_prefix = GuidPrefix::new(&[5; 12]);
    assert_eq!(None, r.forwarded(ReaderSubmessage::AckNack(ack(), 1)));
}

#[test]
fn only_data_of_a_participant_writer_is_a_sign_of_life() {
    let (mut r, _acks, _liveness) = receiver(own());
    r.source_guid_prefix = remote();
    r.dest_guid_prefix = own();
    let data_from = |writer: EntityId| {
        WriterSubmessage::Data(
            Data {
                reader_id: EntityId::unknown(),
                writer_id: writer,
                writer_sn: 1,
                inline_qos: None,
                serialized_payload: Some(SerializedPayload::from_parts(1, vec![1, 2, 3, 4])),
            },
            5,
        )
    };
    let participant_writer = EntityId::spdp_builtin_participant_writer();
    assert_eq!(Some(remote()), r.liveness_signal(&data_from(participant_writer)));
    assert_eq!(None, r.liveness_signal(&data_from(writer_id())));
    let hb = WriterSubmessage::Heartbeat(
        Heartbeat {
            reader_id: EntityId::unknown(),
            writer_id: participant_writer,
            first_sn: 1,
            last_sn: 1,
            count: 1,
        },
        1,
    );
    assert_eq!(None, r.liveness_signal(&hb));
    r.dest_guid_prefix = GuidPrefix::new(&[5; 12]);
    assert_eq!(None, r.liveness_signal(&data_from(participant_writer)));
}

#[test]
fn without_security_whatever_is_secured_is_refused_and_payloads_pass() {
    let plugins = NoSecurity::new();
    let refusal = SecurityError { msg: "no security plugins configured".to_string() };
    assert_eq!(
        Err(refusal.clone()),
        plugins.decode_rtps_message(message(vec![info_ts(None)]), &remote(), &own())
    );
    assert_eq!(
        Err(refusal.clone()),
        plugins.preprocess_secure_submessage(&SecurePrefix { content: vec![1] }, &remote(), &own())
    );
    assert_eq!(
        Err(refusal.clone()),
        plugins.decode_datawriter_submessage(
            SecurePrefix { content: vec![1] },
            data(reader_id(), writer_id(), 1, vec![1]),
            SecurePostfix { content: vec![] },
            0,
            0,
        )
    );
    assert_eq!(
        Err(refusal),
        plugins.decode_datareader_submessage(
            SecurePrefix { content: vec![2] },
            info_ts(None),
            SecurePostfix { content: vec![] },
            0,
            0,
        )
    );
    let writer = GUID::new(remote(), writer_id());
    let reader = GUID::new(own(), reader_id());
    assert_eq!(
        Ok(vec![7, 8, 9]),
        plugins.decode_serialized_payload(vec![7, 8, 9], &None, &writer, &reader)
    );
}

#[test]
fn readers_are_told_as_often_as_they_are_named() {
    let (mut r, _acks, _liveness) = receiver(own());
    r.add_reader(user_reader());
    r.add_reader(Reader::new(GUID::new(own(), EntityId::spdp_builtin_participant_reader()), true));
    let user = reader_id();
    let nobody = EntityId::from_bytes(9, 9, 9, 0x07);
    r.notify_data_to_readers(vec![user, nobody, user, user]);
    assert_eq!(3, r.available_readers[0].notifications);
    assert_eq!(0, r.available_readers[1].notifications);
    r.available_readers[0].notifications = u64::MAX - 1;
    r.notify_data_to_readers(vec![user, user, EntityId::spdp_builtin_participant_reader()]);
    assert_eq!(u64::MAX, r.available_readers[0].notifications);
    assert_eq!(1, r.available_readers[1].notifications);
}

#[test]
fn a_change_is_looked_up_in_the_cache_of_the_reader_named() {
    let (mut r, _acks, _liveness) = receiver(own());
    r.add_reader(user_reader());
    let m = message(vec![
        data(reader_id(), writer_id(), 4, vec![4]),
        data(reader_id(), writer_id(), 2, vec![2]),
        data(reader_id(), writer_id(), 7, vec![7]),
    ]);
    r.handle_received_packet(&bytes_of(&m), t0());
    assert_eq!(vec![2, 7], r.get_reader_history_cache_start_and_end_seq_num(reader_id()));
    let found = r.get_reader_and_history_cache_change(reader_id(), 2).unwrap();
    assert_eq!(2, found.sequence_number);
    assert_eq!(vec![2], found.data_value.unwrap().value);
    assert_eq!(GUID::new(remote(), writer_id()), found.writer_guid);
    assert!(r.get_reader_and_history_cache_change(reader_id(), 3).is_none());
    let nobody = EntityId::from_bytes(9, 9, 9, 0x07);
    assert!(r.get_reader_and_history_cache_change(nobody, 2).is_none());
    assert!(r.get_reader_history_cache_start_and_end_seq_num(nobody).is_empty());
}

#[test]
fn fragments_take_the_decoded_payload_if_it_fits() {
    let fragments = |payload: Vec<u8>| DataFrag {
        reader_id: reader_id(),
        writer_id: writer_id(),
        writer_sn: 5,
        fragment_starting_num: 1,
        fragments_in_submessage: 2,
        fragment_size: 4,
        data_size: 20,
        inline_qos: None,
        serialized_payload: payload,
    };
    // Eight bytes is all that two fragments of four bytes hold.
    assert_eq!(
        Some(fragments(vec![1, 2, 3, 4, 5, 6, 7, 8])),
        decoded_datafrag(fragments(vec![9; 8]), Ok(vec![1, 2, 3, 4, 5, 6, 7, 8]))
    );
    assert_eq!(Some(fragments(vec![])), decoded_datafrag(fragments(vec![9; 8]), Ok(vec![])));
    assert_eq!(None, decoded_datafrag(fragments(vec![9; 8]), Ok(vec![0; 9])));
    assert_eq!(
        None,
        decoded_datafrag(fragments(vec![9; 8]), Err(SecurityError { msg: "no".to_string() }))
    );
}
