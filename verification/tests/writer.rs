use rtps_core::common::timed_event_handler::{TimedEventHandler, Timeout};
use rtps_core::dds::ddsdata::DDSData;
use rtps_core::dds::qos::{History, QosPolicies, Reliability};
use rtps_core::dds::rtps_reader_proxy::RtpsReaderProxy;
use rtps_core::dds::writer::Writer;
use rtps_core::messages::elements::SequenceNumberSet;
use rtps_core::messages::header::{ProtocolVersion, VendorId};
use rtps_core::messages::parameter_list::{PID_KEY_HASH, PID_STATUS_INFO};
use rtps_core::messages::submessages::{
    AckNack, InterpreterSubmessage, Message, SubmessageBody, WriterSubmessage,
    SUBMESSAGE_KIND_DATA, SUBMESSAGE_KIND_HEARTBEAT, SUBMESSAGE_KIND_INFO_DST,
    SUBMESSAGE_KIND_INFO_TS,
};
use rtps_core::messages::wire::Endianness;
use rtps_core::network::constant::TimerMessageType;
use rtps_core::network::udp_sender::Datagram;
use rtps_core::structure::cache_change::{CacheChange, ChangeKind, InstanceHandle, SerializedPayload};
use rtps_core::structure::guid::{EntityId, GuidPrefix, GUID};
use rtps_core::structure::locator::Locator;
use rtps_core::structure::time::{Duration, Instant, Timestamp};

fn writer_prefix() -> GuidPrefix {
    GuidPrefix::new(&[0xA0, 1, 2, 3, 4, 5, 6, 7, 8, 9, 10, 11])
}

fn reader_prefix(n: u8) -> GuidPrefix {
    GuidPrefix::new(&[0xB0, n, 2, 3, 4, 5, 6, 7, 8, 9, 10, 11])
}

fn reader_entity() -> EntityId {
    EntityId::from_bytes(0, 0, 7, 0x07)
}

fn now() -> Timestamp {
    Timestamp { seconds: 1000, fraction: 5 }
}

fn writer_with(entity: EntityId, qos: QosPolicies) -> Writer {
    let (_sender, receiver) = mio_extras::channel::channel::<DDSData>();
    let mut w = Writer::new(GUID::new(writer_prefix(), entity), receiver, "Square".to_string(), qos);
    w.add_timed_event_handler(TimedEventHandler::new());
    w
}

fn writer(reliable: bool, history: Option<History>) -> Writer {
    let reliability = if reliable {
        Reliability::Reliable { max_blocking_time: Duration::from_millis(100) }
    } else {
        Reliability::BestEffort
    };
    writer_with(
        EntityId::from_bytes(0, 0, 1, 0x02),
        QosPolicies { reliability: Some(reliability), history },
    )
}

fn reader(n: u8, reliable: bool) -> RtpsReaderProxy {
    RtpsReaderProxy::new(
        GUID::new(reader_prefix(n), reader_entity()),
        EntityId::unknown(),
        vec![Locator::udp_v4(192, 168, 0, n, 7410)],
        vec![],
        reliable,
    )
}

fn sample(a: u8) -> DDSData {
    let mut value = vec![a, 0, 0, 0, 7, 0, 0, 0];
    value.extend_from_slice(b"Foobar\0\0");
    DDSData::new(a as u128, SerializedPayload::from_parts(1, value))
}

fn publish(w: &mut Writer, a: u8, nanos: u64) {
    w.insert_to_history_cache(sample(a), Instant::from_nanos(nanos));
}

fn ack(base: i64, missing: &[i64], n: u8) -> (GuidPrefix, AckNack) {
    let mut set = SequenceNumberSet::with_bits(base, 32);
    for s in missing {
        set.insert(*s);
    }
    (
        reader_prefix(n),
        AckNack {
            reader_id: reader_entity(),
            writer_id: EntityId::from_bytes(0, 0, 1, 0x02),
            reader_sn_state: set,
            count: 1,
        },
    )
}

fn kinds(m: &Message) -> Vec<u8> {
    m.submessages.iter().map(|s| s.header.kind).collect()
}

fn data_seqs(datagrams: &[Datagram]) -> Vec<i64> {
    let mut out = Vec::new();
    for d in datagrams {
        let m = Message::read_from_buffer(&d.bytes).unwrap();
        out.extend(m.get_data_sub_message_sequence_numbers());
    }
    out
}

fn heartbeat_counts(datagrams: &[Datagram]) -> Vec<i32> {
    let mut out = Vec::new();
    for d in datagrams {
        let m = Message::read_from_buffer(&d.bytes).unwrap();
        for s in &m.submessages {
            if let SubmessageBody::Writer(WriterSubmessage::Heartbeat(h, _)) = &s.body {
                out.push(h.count);
            }
        }
    }
    out
}

fn cache_seqs(w: &Writer) -> Vec<i64> {
    let mut out = Vec::new();
    for s in 0..=w.last_change_sequence_number {
        if w.history_cache.get_change(s).is_some() {
            out.push(s);
        }
    }
    out
}

#[test]
fn a_new_writer_is_set_up_as_the_protocol_asks() {
    let w = writer(true, None);
    assert_eq!(ProtocolVersion { major: 2, minor: 3 }, w.source_version);
    assert_eq!(VendorId { first: 0, second: 0 }, w.source_vendor_id);
    assert_eq!(Endianness::LittleEndian, w.endianness);
    assert_eq!(1, w.heartbeat_message_counter);
    assert!(w.push_mode);
    assert_eq!(Some(Duration { seconds: 3, nanos: 0 }), w.heartbeat_period);
    assert_eq!(Duration { seconds: 120, nanos: 0 }, w.cache_cleaning_period);
    assert_eq!(Duration { seconds: 0, nanos: 200_000_000 }, w.nack_response_delay);
    assert_eq!(Duration { seconds: 0, nanos: 0 }, w.nack_suppression_duration);
    assert_eq!(0, w.last_change_sequence_number);
    assert_eq!(0, w.first_change_sequence_number);
    assert_eq!(999999999, w.data_max_size_serialized);
    assert!(w.readers.is_empty());
    assert!(!w.writer_is_disposed);
    assert_eq!("Square", w.topic_name());
    assert!(w.is_reliable());
    let best_effort = writer(false, None);
    assert_eq!(None, best_effort.heartbeat_period);
    assert!(!best_effort.is_reliable());
    let unset = writer_with(EntityId::from_bytes(0, 0, 1, 0x02), QosPolicies::qos_none());
    assert_eq!(None, unset.heartbeat_period);
    assert_eq!(&QosPolicies { reliability: None, history: None }, unset.get_qos());
}

#[test]
fn the_first_timers_are_asked_for_with_the_handler() {
    let mut w = writer(true, None);
    let pending = w.timed_event_handler.as_mut().unwrap().take_pending();
    assert_eq!(
        vec![
            Timeout {
                duration: Duration { seconds: 120, nanos: 0 },
                kind: TimerMessageType::writer_cache_cleaning
            },
            Timeout {
                duration: Duration { seconds: 3, nanos: 0 },
                kind: TimerMessageType::writer_heartbeat
            },
        ],
        pending
    );
    let mut b = writer(false, None);
    assert_eq!(1, b.timed_event_handler.as_mut().unwrap().take_pending().len());
}

#[test]
fn publication_numbers_rise_by_one_from_one() {
    let mut w = writer(false, None);
    let mut seen = Vec::new();
    for i in 0..5 {
        publish(&mut w, i, 10 * i as u64);
        seen.push(w.last_change_sequence_number);
        assert_eq!(1, w.first_change_sequence_number);
    }
    assert_eq!(vec![1, 2, 3, 4, 5], seen);
    assert_eq!(vec![1, 2, 3, 4, 5], cache_seqs(&w));
    assert_eq!(5, w.history_cache.len());
}

#[test]
fn a_change_is_filed_under_its_instant_and_never_before_the_last() {
    let mut w = writer(false, None);
    publish(&mut w, 1, 500);
    publish(&mut w, 2, 400);
    publish(&mut w, 3, 600);
    assert_eq!(Some(&Instant::from_nanos(500)), w.sequence_number_to_instant(1));
    // The clock went back: the change is filed under the instant of the one before.
    assert_eq!(Some(&Instant::from_nanos(500)), w.sequence_number_to_instant(2));
    assert_eq!(Some(&Instant::from_nanos(600)), w.sequence_number_to_instant(3));
    assert_eq!(None, w.sequence_number_to_instant(4));
    let c = w.find_cache_change(2).unwrap();
    assert_eq!(2, c.sequence_number);
    assert_eq!(w.guid, c.writer_guid);
    assert_eq!(ChangeKind::ALIVE, c.kind);
    assert_eq!(InstanceHandle { key_hash: 2 }, c.instance_handle);
    assert!(w.find_cache_change(0).is_none());
    assert!(w.find_cache_change(4).is_none());
}

#[test]
fn single_writer_best_effort_publish() {
    let mut w = writer(false, None);
    w.matched_reader_add(reader(1, false));
    let mut datagrams = Vec::new();
    for (i, a) in [4u8, 2, 3].iter().enumerate() {
        publish(&mut w, *a, 100_000_000 * i as u64);
        assert!(w.can_send_some());
        w.send_all_unsend_messages(now());
        assert!(!w.can_send_some());
        let mut out = w.udp_sender.take_outgoing();
        assert_eq!(1, out.len());
        datagrams.append(&mut out);
    }
    assert_eq!(3, datagrams.len());
    assert_eq!(vec![1, 2, 3], data_seqs(&datagrams));
    for (i, d) in datagrams.iter().enumerate() {
        assert_eq!(Locator::udp_v4(192, 168, 0, 1, 7410), d.destination);
        assert!(!d.multicast);
        let m = Message::read_from_buffer(&d.bytes).unwrap();
        assert_eq!(writer_prefix(), m.header.guid_prefix);
        assert_eq!(
            vec![SUBMESSAGE_KIND_INFO_DST, SUBMESSAGE_KIND_INFO_TS, SUBMESSAGE_KIND_DATA],
            kinds(&m)
        );
        match &m.submessages[0].body {
            SubmessageBody::Interpreter(InterpreterSubmessage::InfoDestination(x, _)) => {
                assert_eq!(reader_prefix(1), x.guid_prefix)
            }
            other => panic!("{:?}", other),
        }
        match &m.submessages[1].body {
            SubmessageBody::Interpreter(InterpreterSubmessage::InfoTimestamp(x, _)) => {
                assert_eq!(Some(now()), x.timestamp)
            }
            other => panic!("{:?}", other),
        }
        match &m.submessages[2].body {
            SubmessageBody::Writer(WriterSubmessage::Data(x, flags)) => {
                assert_eq!(0x05, *flags);
                assert_eq!(reader_entity(), x.reader_id);
                assert_eq!(EntityId::from_bytes(0, 0, 1, 0x02), x.writer_id);
                assert_eq!(i as i64 + 1, x.writer_sn);
                assert_eq!(None, x.inline_qos);
                let p = x.serialized_payload.as_ref().unwrap();
                assert_eq!([4u8, 2, 3][i], p.value[0]);
                assert_eq!(b"Foobar\0\0".to_vec(), p.value[8..16].to_vec());
            }
            other => panic!("{:?}", other),
        }
    }
    // Best effort: no heartbeat has gone out, and the counter has not moved.
    assert_eq!(1, w.heartbeat_message_counter);
}

#[test]
fn data_goes_to_every_unicast_locator_and_to_ipv4_multicast_locators() {
    let mut w = writer(false, None);
    let mut r = reader(1, false);
    r.unicast_locator_list.push(Locator::udp_v4(192, 168, 0, 9, 7411));
    r.multicast_locator_list = vec![
        Locator { kind: 2, port: 7400, address: [0xff; 16] },
        Locator::udp_v4(239, 255, 0, 1, 7400),
    ];
    w.matched_reader_add(r);
    publish(&mut w, 1, 0);
    w.send_all_unsend_messages(now());
    let out = w.udp_sender.take_outgoing();
    assert_eq!(3, out.len());
    assert_eq!(
        vec![
            (Locator::udp_v4(192, 168, 0, 1, 7410), false),
            (Locator::udp_v4(192, 168, 0, 9, 7411), false),
            (Locator::udp_v4(239, 255, 0, 1, 7400), true),
        ],
        out.iter().map(|d| (d.destination, d.multicast)).collect::<Vec<_>>()
    );
    assert_eq!(out[0].bytes, out[1].bytes);
    assert_eq!(out[0].bytes, out[2].bytes);
}

#[test]
fn a_reliable_writer_waits_for_acknowledgement_before_pushing() {
    let mut w = writer(true, None);
    w.matched_reader_add(reader(1, true));
    publish(&mut w, 1, 0);
    assert!(!w.can_send_some());
    w.send_all_unsend_messages(now());
    assert!(w.udp_sender.take_outgoing().is_empty());
    assert_eq!(vec![1], w.readers[0].unsent_changes());
}

#[test]
fn heartbeat_tick_sends_what_is_owed_in_ascending_order_with_heartbeats() {
    let mut w = writer(true, None);
    w.matched_reader_add(reader(1, true));
    w.matched_reader_add(reader(2, true));
    for i in 0..3 {
        publish(&mut w, i, i as u64);
    }
    w.timed_event_handler.as_mut().unwrap().take_pending();
    w.handle_heartbeat_tick(now());
    let out = w.udp_sender.take_outgoing();
    assert_eq!(6, out.len());
    assert_eq!(vec![1, 2, 3, 1, 2, 3], data_seqs(&out));
    assert_eq!(vec![2, 3, 4, 5, 6, 7], heartbeat_counts(&out));
    assert_eq!(7, w.heartbeat_message_counter);
    for d in &out[0..3] {
        assert_eq!(Locator::udp_v4(192, 168, 0, 1, 7410), d.destination);
    }
    for d in &out[3..6] {
        assert_eq!(Locator::udp_v4(192, 168, 0, 2, 7410), d.destination);
    }
    let m = Message::read_from_buffer(&out[4].bytes).unwrap();
    assert_eq!(
        vec![
            SUBMESSAGE_KIND_INFO_DST,
            SUBMESSAGE_KIND_INFO_TS,
            SUBMESSAGE_KIND_DATA,
            SUBMESSAGE_KIND_HEARTBEAT
        ],
        kinds(&m)
    );
    match &m.submessages[3].body {
        SubmessageBody::Writer(WriterSubmessage::Heartbeat(h, flags)) => {
            assert_eq!(1, *flags);
            assert_eq!(reader_entity(), h.reader_id);
            assert_eq!(1, h.first_sn);
            assert_eq!(3, h.last_sn);
        }
        other => panic!("{:?}", other),
    }
    assert!(w.readers[0].unsent_changes().is_empty());
    assert!(w.readers[1].unsent_changes().is_empty());
    // The timer was asked for again.
    assert_eq!(
        vec![Timeout {
            duration: Duration { seconds: 3, nanos: 0 },
            kind: TimerMessageType::writer_heartbeat
        }],
        w.timed_event_handler.as_mut().unwrap().take_pending()
    );
}

#[test]
fn heartbeat_tick_sends_a_bare_heartbeat_when_nothing_is_owed() {
    let mut w = writer(true, None);
    w.matched_reader_add(reader(1, true));
    publish(&mut w, 1, 0);
    w.handle_heartbeat_tick(now());
    w.udp_sender.take_outgoing();
    w.handle_heartbeat_tick(now());
    let out = w.udp_sender.take_outgoing();
    assert_eq!(1, out.len());
    let m = Message::read_from_buffer(&out[0].bytes).unwrap();
    assert_eq!(vec![SUBMESSAGE_KIND_INFO_DST, SUBMESSAGE_KIND_HEARTBEAT], kinds(&m));
    assert_eq!(vec![3], heartbeat_counts(&out));
}

#[test]
fn heartbeat_tick_of_a_best_effort_writer_does_nothing() {
    let mut w = writer(false, None);
    w.matched_reader_add(reader(1, false));
    publish(&mut w, 1, 0);
    w.timed_event_handler.as_mut().unwrap().take_pending();
    w.handle_heartbeat_tick(now());
    assert!(w.udp_sender.take_outgoing().is_empty());
    assert_eq!(vec![1], w.readers[0].unsent_changes());
    assert!(w.timed_event_handler.as_mut().unwrap().take_pending().is_empty());
}

#[test]
fn reliable_resend_after_negative_acknack() {
    let mut w = writer(true, None);
    w.matched_reader_add(reader(1, true));
    for i in 1..=5 {
        publish(&mut w, i, i as u64);
    }
    w.handle_heartbeat_tick(now());
    assert_eq!(vec![1, 2, 3, 4, 5], data_seqs(&w.udp_sender.take_outgoing()));
    let (prefix, an) = ack(1, &[2, 4], 1);
    w.handle_ack_nack(prefix, an);
    assert_eq!(vec![2, 4], w.readers[0].requested_changes());
    assert_eq!(0, w.readers[0].highest_acked);
    publish(&mut w, 6, 6);
    w.handle_heartbeat_tick(now());
    // What was asked for goes out first, in ascending order, then the new sample.
    assert_eq!(vec![2, 4, 6], data_seqs(&w.udp_sender.take_outgoing()));
    assert!(w.readers[0].requested_changes().is_empty());
    assert!(w.readers[0].unsent_changes().is_empty());
}

#[test]
fn a_request_for_what_is_no_longer_held_is_not_taken_up() {
    let mut w = writer(true, Some(History::KeepLast { depth: 1 }));
    w.matched_reader_add(reader(1, true));
    for i in 1..=4 {
        publish(&mut w, i, i as u64);
    }
    let (prefix, an) = ack(5, &[], 1);
    w.handle_ack_nack(prefix, an);
    w.handle_cache_cleaning();
    assert_eq!(vec![4], cache_seqs(&w));
    let (prefix, an) = ack(1, &[1, 2, 4, 9], 1);
    w.handle_ack_nack(prefix, an);
    assert_eq!(vec![4], w.readers[0].requested_changes());
}

#[test]
fn acknack_convergence() {
    let mut w = writer(true, None);
    w.matched_reader_add(reader(1, true));
    w.matched_reader_add(reader(2, true));
    for i in 1..=7 {
        publish(&mut w, i, i as u64);
    }
    for n in [1, 2] {
        let (prefix, an) = ack(8, &[], n);
        w.handle_ack_nack(prefix, an);
    }
    for r in &w.readers {
        assert!(r.highest_acked >= w.last_change_sequence_number);
        assert_eq!(7, r.highest_acked);
        assert!(r.unsent_changes().is_empty());
    }
    assert!(w.change_with_sequence_number_is_acked_by_all(&7));
    assert!(!w.change_with_sequence_number_is_acked_by_all(&8));
    let c = w.find_cache_change(3).unwrap();
    assert!(w.is_acked_by_all(&c));
}

#[test]
fn acknacks_are_ignored_by_a_best_effort_writer_and_from_unknown_readers() {
    let mut b = writer(false, None);
    b.matched_reader_add(reader(1, true));
    publish(&mut b, 1, 0);
    let (prefix, an) = ack(2, &[], 1);
    b.handle_ack_nack(prefix, an);
    assert_eq!(0, b.readers[0].highest_acked);
    let mut w = writer(true, None);
    w.matched_reader_add(reader(1, true));
    publish(&mut w, 1, 0);
    let (prefix, an) = ack(2, &[], 9);
    w.handle_ack_nack(prefix, an);
    assert_eq!(0, w.readers[0].highest_acked);
    assert_eq!(vec![1], w.readers[0].unsent_changes());
}

#[test]
fn cache_cleaning_at_depth_2() {
    let mut w = writer(true, Some(History::KeepLast { depth: 2 }));
    w.matched_reader_add(reader(1, true));
    for i in 1..=5 {
        publish(&mut w, i, i as u64);
    }
    let (prefix, an) = ack(6, &[], 1);
    w.handle_ack_nack(prefix, an);
    w.timed_event_handler.as_mut().unwrap().take_pending();
    w.handle_cache_cleaning();
    assert_eq!(vec![4, 5], cache_seqs(&w));
    assert_eq!(2, w.history_cache.len());
    assert_eq!(None, w.sequence_number_to_instant(3));
    assert_eq!(Some(&Instant::from_nanos(4)), w.sequence_number_to_instant(4));
    assert_eq!(1, w.first_change_sequence_number);
    assert_eq!(5, w.last_change_sequence_number);
    assert_eq!(
        vec![Timeout {
            duration: Duration { seconds: 120, nanos: 0 },
            kind: TimerMessageType::writer_cache_cleaning
        }],
        w.timed_event_handler.as_mut().unwrap().take_pending()
    );
    // A second pass finds nothing more to remove.
    w.handle_cache_cleaning();
    assert_eq!(vec![4, 5], cache_seqs(&w));
}

#[test]
fn cache_cleaning_removes_acknowledged_changes_only() {
    let mut w = writer(true, Some(History::KeepLast { depth: 1 }));
    w.matched_reader_add(reader(1, true));
    w.matched_reader_add(reader(2, true));
    for i in 1..=5 {
        publish(&mut w, i, i as u64);
    }
    let (prefix, an) = ack(6, &[], 1);
    w.handle_ack_nack(prefix, an);
    let (prefix, an) = ack(4, &[], 2);
    w.handle_ack_nack(prefix, an);
    // Every reader has 1 to 3: of these, the last one stays.
    w.handle_cache_cleaning();
    assert_eq!(vec![3, 4, 5], cache_seqs(&w));
}

#[test]
fn cache_cleaning_under_the_other_policies() {
    let mut keep_all = writer(true, Some(History::KeepAll));
    let mut unset = writer(true, None);
    let mut lonely = writer(false, Some(History::KeepLast { depth: 3 }));
    let mut depth_zero = writer(true, Some(History::KeepLast { depth: 0 }));
    let mut negative = writer(true, Some(History::KeepLast { depth: -4 }));
    for w in [&mut keep_all, &mut unset, &mut depth_zero, &mut negative] {
        w.matched_reader_add(reader(1, true));
        for i in 1..=4 {
            publish(w, i, i as u64);
        }
        let (prefix, an) = ack(4, &[], 1);
        w.handle_ack_nack(prefix, an);
        w.handle_cache_cleaning();
    }
    for i in 1..=4 {
        publish(&mut lonely, i, i as u64);
    }
    lonely.handle_cache_cleaning();
    assert_eq!(vec![1, 2, 3, 4], cache_seqs(&keep_all));
    assert_eq!(vec![4], cache_seqs(&unset));
    assert_eq!(vec![4], cache_seqs(&depth_zero));
    assert_eq!(vec![4], cache_seqs(&negative));
    // A best-effort writer without readers keeps nothing, whatever the depth.
    assert!(cache_seqs(&lonely).is_empty());
    publish(&mut lonely, 5, 5);
    assert_eq!(vec![5], cache_seqs(&lonely));
    assert_eq!(5, lonely.last_change_sequence_number);
}

#[test]
fn a_change_that_is_no_longer_held_is_skipped_when_it_is_due() {
    let mut w = writer(false, Some(History::KeepLast { depth: 1 }));
    w.matched_reader_add(reader(1, false));
    for i in 1..=3 {
        publish(&mut w, i, i as u64);
    }
    w.handle_cache_cleaning();
    assert_eq!(vec![3], cache_seqs(&w));
    w.send_all_unsend_messages(now());
    assert_eq!(vec![3], data_seqs(&w.udp_sender.take_outgoing()));
    assert!(w.readers[0].unsent_changes().is_empty());
}

#[test]
fn a_sample_too_large_for_a_submessage_is_not_sent() {
    let mut w = writer(false, None);
    w.matched_reader_add(reader(1, false));
    w.insert_to_history_cache(
        DDSData::new(1, SerializedPayload::from_parts(1, vec![0; 70_000])),
        Instant::from_nanos(0),
    );
    w.send_all_unsend_messages(now());
    assert!(w.udp_sender.take_outgoing().is_empty());
    assert!(w.readers[0].unsent_changes().is_empty());
    let c = w.find_cache_change(1).unwrap();
    assert!(w.get_DATA_msg_from_cache_change(c.clone(), reader_entity()).is_none());
    assert!(w.write_user_msg(c, GUID::new(reader_prefix(1), reader_entity()), now()).is_none());
}

#[test]
fn send_next_unsend_message_serves_the_first_reader_that_is_owed_something() {
    let mut w = writer(false, None);
    w.matched_reader_add(reader(1, false));
    w.matched_reader_add(reader(2, false));
    publish(&mut w, 1, 0);
    publish(&mut w, 2, 1);
    w.readers[0].remove_unsend_change(1);
    w.send_next_unsend_message(now());
    let out = w.udp_sender.take_outgoing();
    assert_eq!(vec![2], data_seqs(&out));
    assert_eq!(Locator::udp_v4(192, 168, 0, 1, 7410), out[0].destination);
    w.send_next_unsend_message(now());
    let out = w.udp_sender.take_outgoing();
    assert_eq!(vec![1], data_seqs(&out));
    assert_eq!(Locator::udp_v4(192, 168, 0, 2, 7410), out[0].destination);
    w.send_next_unsend_message(now());
    let out = w.udp_sender.take_outgoing();
    assert_eq!(vec![2], data_seqs(&out));
    assert_eq!(Locator::udp_v4(192, 168, 0, 2, 7410), out[0].destination);
    w.send_next_unsend_message(now());
    assert!(w.udp_sender.take_outgoing().is_empty());
}

#[test]
fn a_disposed_instance_travels_with_its_key_and_without_payload() {
    let mut w = writer(false, None);
    w.matched_reader_add(reader(1, false));
    publish(&mut w, 9, 0);
    assert!(!w.writer_is_disposed);
    w.handle_not_alive_disposed_cache_change(DDSData::new_disposed(9));
    assert!(w.writer_is_disposed);
    let c = w.find_cache_change(1).unwrap();
    assert_eq!(ChangeKind::NOT_ALIVE_DISPOSED, c.kind);
    let s = w.get_DATA_msg_from_cache_change(c, reader_entity()).unwrap();
    assert_eq!(0x03, s.header.flags);
    match &s.body {
        SubmessageBody::Writer(WriterSubmessage::Data(d, flags)) => {
            assert_eq!(0x03, *flags);
            assert_eq!(None, d.serialized_payload);
            let q = d.inline_qos.as_ref().unwrap();
            assert_eq!(2, q.parameters.len());
            assert_eq!(PID_KEY_HASH, q.parameters[0].parameter_id);
            assert_eq!(9u128.to_le_bytes().to_vec(), q.parameters[0].value);
            assert_eq!(PID_STATUS_INFO, q.parameters[1].parameter_id);
            assert_eq!(vec![0, 0, 0, 3], q.parameters[1].value);
        }
        other => panic!("{:?}", other),
    }
    // 20 bytes up to the list, 20 for the key hash, 8 for the status, 4 for the sentinel.
    assert_eq!(52, s.header.content_length);
    // An instance that the writer has never written is not looked for.
    w.handle_not_alive_disposed_cache_change(DDSData::new_disposed(77));
    publish(&mut w, 9, 1);
    assert!(!w.writer_is_disposed);
    assert_eq!(ChangeKind::ALIVE, w.find_cache_change(2).unwrap().kind);
    w.insert_to_history_cache(DDSData::new_disposed(9), Instant::from_nanos(2));
    assert!(w.writer_is_disposed);
    assert_eq!(ChangeKind::NOT_ALIVE_DISPOSED, w.find_cache_change(3).unwrap().kind);
}

#[test]
fn a_built_in_writer_marks_its_payload_as_a_parameter_list() {
    let w = writer_with(EntityId::spdp_builtin_participant_writer(), QosPolicies::qos_none());
    let c = CacheChange::new(
        ChangeKind::ALIVE,
        w.guid,
        1,
        InstanceHandle { key_hash: 0 },
        Some(SerializedPayload::from_parts(1, vec![1, 2, 3, 4])),
    );
    let s = w.get_DATA_msg_from_cache_change(c, EntityId::unknown()).unwrap();
    match &s.body {
        SubmessageBody::Writer(WriterSubmessage::Data(d, _)) => {
            assert_eq!(3, d.serialized_payload.as_ref().unwrap().representation_identifier)
        }
        other => panic!("{:?}", other),
    }
}

#[test]
fn submessage_builders() {
    let mut w = writer(true, None);
    w.endianness = Endianness::BigEndian;
    let dst = Writer::get_DST_submessage(Endianness::BigEndian, reader_prefix(3));
    assert_eq!((SUBMESSAGE_KIND_INFO_DST, 0, 12), (dst.header.kind, dst.header.flags, dst.header.content_length));
    let ts = w.get_TS_submessage(false, now());
    assert_eq!((SUBMESSAGE_KIND_INFO_TS, 0, 8), (ts.header.kind, ts.header.flags, ts.header.content_length));
    let invalidate = w.get_TS_submessage(true, now());
    assert_eq!((2, 0), (invalidate.header.flags, invalidate.header.content_length));
    let hb = w.get_heartbeat_msg(reader_entity(), true, true);
    assert_eq!((SUBMESSAGE_KIND_HEARTBEAT, 6, 28), (hb.header.kind, hb.header.flags, hb.header.content_length));
    publish(&mut w, 1, 0);
    let m = w
        .write_user_msg(w.find_cache_change(1).unwrap(), GUID::new(reader_prefix(3), reader_entity()), now())
        .unwrap();
    let bytes = m.write_to_vec_with_ctx(Endianness::BigEndian).unwrap();
    assert!(m.write_to_vec_with_ctx(Endianness::LittleEndian).is_none());
    assert_eq!(m, Message::read_from_buffer(&bytes).unwrap());
    let header = w.create_message_header();
    assert_eq!(writer_prefix(), header.guid_prefix);
    assert_eq!(w.source_version, header.protocol_version);
}

#[test]
fn readers_are_matched_found_and_removed() {
    let mut w = writer(true, None);
    w.matched_reader_add(reader(1, true));
    w.matched_reader_add(reader(2, false));
    assert_eq!(2, w.readers.len());
    assert_eq!(Some(1), w.matched_reader_index(GUID::new(reader_prefix(2), reader_entity())));
    assert!(w.reader_lookup(reader_prefix(2), reader_entity()).is_some());
    assert!(w.reader_lookup(reader_prefix(3), reader_entity()).is_none());
    assert!(w.reader_lookup(reader_prefix(2), EntityId::unknown()).is_none());
    w.matched_reader_lookup(reader_prefix(1), reader_entity()).unwrap().heartbeat_count = 41;
    assert_eq!(41, w.readers[0].heartbeat_count);
    assert!(w.matched_reader_lookup(reader_prefix(7), reader_entity()).is_none());
    w.matched_reader_remove(reader(3, true));
    assert_eq!(2, w.readers.len());
    w.matched_reader_remove(reader(1, true));
    assert_eq!(1, w.readers.len());
    assert_eq!(reader_prefix(2), w.readers[0].remote_reader_guid.prefix);
}

#[test]
fn who_is_still_owed_a_change() {
    let mut w = writer(false, None);
    w.matched_reader_add(reader(1, false));
    w.matched_reader_add(reader(2, false));
    w.matched_reader_add(reader(3, false));
    publish(&mut w, 1, 0);
    assert!(!w.sequence_is_sent_to_all_readers(1));
    assert!(w.sequence_is_sent_to_all_readers(2));
    w.readers[1].remove_unsend_change(1);
    let owed: Vec<GuidPrefix> =
        w.sequence_needs_to_be_send_to(1).iter().map(|r| r.remote_reader_guid.prefix).collect();
    assert_eq!(vec![reader_prefix(1), reader_prefix(3)], owed);
    let m = w.write_user_msg(w.find_cache_change(1).unwrap(), w.readers[0].remote_reader_guid, now());
    let guid = Some(w.readers[0].remote_reader_guid);
    w.increase_heartbeat_counter_and_remove_unsend(&m, &guid);
    assert_eq!(1, w.heartbeat_message_counter);
    assert!(w.readers[0].unsent_changes().is_empty());
    w.increase_heartbeat_counter_and_remove_unsend_sequence_numbers(
        vec![1, 5, 6],
        &Some(w.readers[2].remote_reader_guid),
    );
    assert_eq!(4, w.heartbeat_message_counter);
    assert!(w.sequence_is_sent_to_all_readers(1));
    w.increase_heartbeat_counter_and_remove_unsend_sequence_numbers(vec![], &guid);
    assert_eq!(5, w.heartbeat_message_counter);
    w.increase_heartbeat_counter_and_remove_unsend_sequence_numbers(vec![1], &None);
    assert_eq!(5, w.heartbeat_message_counter);
    w.writer_set_unsent_changes();
    assert!(!w.sequence_is_sent_to_all_readers(1));
}

#[test]
fn the_entity_token_is_the_entity_id_as_a_number() {
    let w = writer(true, None);
    assert_eq!(mio::Token(0x0000_0102), w.get_entity_token());
    let spdp = writer_with(EntityId::spdp_builtin_participant_writer(), QosPolicies::qos_none());
    assert_eq!(mio::Token(0x0001_00c2), spdp.get_entity_token());
    // The token of the timers is a hash of the same number: a writer has one.
    assert_eq!(w.get_timed_event_entity_token(), w.get_timed_event_entity_token());
    assert_ne!(w.get_timed_event_entity_token(), spdp.get_timed_event_entity_token());
}

#[test]
fn the_writer_hands_out_its_channel() {
    let (sender, receiver) = mio_extras::channel::channel::<DDSData>();
    let w = Writer::new(
        GUID::new(writer_prefix(), EntityId::from_bytes(0, 0, 1, 0x02)),
        receiver,
        "Square".to_string(),
        QosPolicies::qos_none(),
    );
    sender.send(sample(4)).unwrap();
    let got = w.cache_change_receiver().try_recv().unwrap();
    assert_eq!(sample(4), got);
}

#[test]
fn publishing_takes_the_sample_and_sends_what_is_owed() {
    let mut w = writer(false, None);
    w.matched_reader_add(reader(1, false));
    w.matched_reader_add(reader(2, false));
    w.publish(sample(4), Instant::from_nanos(10), now());
    assert_eq!(1, w.last_change_sequence_number);
    assert_eq!(1, w.first_change_sequence_number);
    assert_eq!(vec![1], cache_seqs(&w));
    let sent = w.udp_sender.take_outgoing();
    assert_eq!(2, sent.len());
    assert_eq!(Locator::udp_v4(192, 168, 0, 1, 7410), sent[0].destination);
    assert_eq!(Locator::udp_v4(192, 168, 0, 2, 7410), sent[1].destination);
    assert_eq!(vec![1, 1], data_seqs(&sent));
    w.publish(sample(2), Instant::from_nanos(20), now());
    assert_eq!(2, w.last_change_sequence_number);
    assert_eq!(vec![2, 2], data_seqs(&w.udp_sender.take_outgoing()));
    assert!(w.readers.iter().all(|r| r.unsent_changes().is_empty()));
}

#[test]
fn what_a_reliable_writer_publishes_goes_out_with_the_heartbeat() {
    let mut w = writer(true, None);
    w.matched_reader_add(reader(1, true));
    w.timed_event_handler.as_mut().unwrap().take_pending();
    w.publish(sample(4), Instant::from_nanos(10), now());
    w.publish(sample(2), Instant::from_nanos(20), now());
    assert_eq!(2, w.last_change_sequence_number);
    assert!(w.udp_sender.take_outgoing().is_empty());
    assert_eq!(vec![1, 2], w.readers[0].unsent_changes());
    w.handle_heartbeat_tick(now());
    assert_eq!(vec![1, 2], data_seqs(&w.udp_sender.take_outgoing()));
}
