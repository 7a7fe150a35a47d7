use rtps_core::discovery::{DiscoveredWriterData, WriterProxy};
use rtps_core::dds::rtps_writer_proxy::RtpsWriterProxy;
use rtps_core::structure::guid::{EntityId, GuidPrefix, GUID};
use rtps_core::structure::locator::Locator;
use rtps_core::structure::time::Instant;

fn proxy() -> RtpsWriterProxy {
    RtpsWriterProxy::new(
        GUID::new(GuidPrefix::new(&[1; 12]), EntityId::from_bytes(0, 0, 1, 0x02)),
        vec![],
        vec![],
        EntityId::unknown(),
    )
}

fn proxy_with(seqs: &[i64]) -> RtpsWriterProxy {
    let mut p = proxy();
    for (i, s) in seqs.iter().enumerate() {
        p.received_changes_add(*s, Instant::from_nanos(100 + i as u64));
    }
    p
}

#[test]
fn new_proxy_has_received_nothing() {
    let p = proxy();
    assert_eq!(None, p.available_changes_min());
    assert_eq!(None, p.available_changes_max());
    assert_eq!(0, p.received_heartbeat_count);
    assert_eq!(0, p.sent_ack_nack_count);
    assert_eq!(0, p.hb_last_seen());
}

#[test]
fn missing_changes_are_the_range_without_what_was_received() {
    let p = proxy_with(&[3, 5, 8]);
    assert_eq!(vec![4, 6, 7, 9], p.missing_changes(10));
    assert_eq!(vec![4], p.missing_changes(5));
    assert!(p.missing_changes(3).is_empty());
    assert!(p.missing_changes(-7).is_empty());
}

#[test]
fn missing_changes_start_at_one_when_nothing_was_received() {
    let p = proxy();
    assert_eq!(vec![1, 2, 3], p.missing_changes(4));
    assert!(p.missing_changes(1).is_empty());
    assert!(p.changes_are_missing(2));
    assert!(!p.changes_are_missing(1));
}

#[test]
fn changes_are_missing_agrees_with_missing_changes() {
    let p = proxy_with(&[1, 2, 3]);
    assert!(!p.changes_are_missing(4));
    assert!(p.changes_are_missing(5));
    assert_eq!(None, p.first_missing_change(4));
    assert_eq!(Some(4), p.first_missing_change(9));
}

#[test]
fn received_changes_add_is_idempotent_and_ignores_no_sample() {
    let mut p = proxy();
    p.received_changes_add(4, Instant::from_nanos(1));
    p.received_changes_add(4, Instant::from_nanos(1));
    p.received_changes_add(0, Instant::from_nanos(2));
    p.received_changes_add(-3, Instant::from_nanos(3));
    assert_eq!(1, p.changes.len());
    assert_eq!(Some(&4), p.available_changes_min());
    assert_eq!(Some(4), p.available_changes_max());
    assert_eq!(4, p.hb_last_seen());
}

#[test]
fn irrelevant_changes_up_to_leaves_no_lower_key() {
    let mut p = proxy_with(&[7, 2, 9, 4]);
    let instants = p.irrelevant_changes_up_to(7);
    // The instants come in ascending order of the sequence numbers 2 and 4.
    assert_eq!(vec![Instant::from_nanos(101), Instant::from_nanos(103)], instants);
    let mut keys: Vec<i64> = p.changes.keys().copied().collect();
    keys.sort();
    assert_eq!(vec![7, 9], keys);
    assert!(p.irrelevant_changes_up_to(7).is_empty());
}

#[test]
fn set_irrelevant_change_hands_back_the_instant() {
    let mut p = proxy_with(&[1, 2]);
    assert_eq!(Instant::from_nanos(101), p.set_irrelevant_change(2));
    assert_eq!(Some(1), p.available_changes_max());
}

#[test]
fn gap_scenario_on_the_proxy() {
    // Received 1, 3 and 5; a gap from 2 with list base 5 leaves 5 alone.
    let mut p = proxy_with(&[1, 3, 5]);
    p.irrelevant_changes_up_to(2);
    p.irrelevant_changes_up_to(5);
    let keys: Vec<i64> = p.changes.keys().copied().collect();
    assert_eq!(vec![5], keys);
    assert!(p.missing_changes(6).is_empty());
}

#[test]
fn update_contents_takes_over_addresses_only() {
    let mut p = proxy_with(&[1]);
    let other = RtpsWriterProxy::new(
        GUID::unknown(),
        vec![Locator::udp_v4(127, 0, 0, 1, 7400)],
        vec![],
        EntityId::from_bytes(0, 0, 9, 0x02),
    );
    let guid = p.remote_writer_guid;
    p.update_contents(other);
    assert_eq!(guid, p.remote_writer_guid);
    assert_eq!(vec![Locator::udp_v4(127, 0, 0, 1, 7400)], p.unicast_locator_list);
    assert_eq!(EntityId::from_bytes(0, 0, 9, 0x02), p.remote_group_entity_id);
    assert_eq!(Some(1), p.available_changes_max());
}

#[test]
fn heartbeat_never_lowers_the_last_known_sequence_number() {
    let mut p = proxy();
    p.update_hb_last_seen(9);
    p.update_hb_last_seen(4);
    assert_eq!(9, p.hb_last_seen());
}

#[test]
fn from_discovered_writer_data_needs_a_guid() {
    let without = DiscoveredWriterData {
        writer_proxy: WriterProxy {
            remote_writer_guid: None,
            unicast_locator_list: vec![],
            multicast_locator_list: vec![],
        },
    };
    assert!(RtpsWriterProxy::from_discovered_writer_data(&without).is_none());
    let guid = GUID::new(GuidPrefix::new(&[7; 12]), EntityId::from_bytes(0, 0, 1, 0x03));
    let with = DiscoveredWriterData {
        writer_proxy: WriterProxy {
            remote_writer_guid: Some(guid),
            unicast_locator_list: vec![Locator::udp_v4(10, 0, 0, 1, 7410)],
            multicast_locator_list: vec![Locator::udp_v4(239, 255, 0, 1, 7400)],
        },
    };
    let p = RtpsWriterProxy::from_discovered_writer_data(&with).unwrap();
    assert_eq!(guid, p.remote_writer_guid);
    assert_eq!(EntityId::unknown(), p.remote_group_entity_id);
    assert_eq!(vec![Locator::udp_v4(10, 0, 0, 1, 7410)], p.unicast_locator_list);
    assert_eq!(vec![Locator::udp_v4(239, 255, 0, 1, 7400)], p.multicast_locator_list);
    assert!(p.changes.is_empty());
}
