use rtps_core::discovery::{DiscoveredReaderData, ReaderProxy};
use rtps_core::dds::rtps_reader_proxy::RtpsReaderProxy;
use rtps_core::structure::guid::{EntityId, GuidPrefix, GUID};

fn proxy(reliable: bool) -> RtpsReaderProxy {
    RtpsReaderProxy::new(
        GUID::new(GuidPrefix::new(&[2; 12]), EntityId::from_bytes(0, 0, 1, 0x07)),
        EntityId::unknown(),
        vec![],
        vec![],
        reliable,
    )
}

#[test]
fn unsent_changes_come_out_sorted() {
    let mut p = proxy(true);
    for s in [9, 3, 27, 1, 14] {
        p.unsend_changes_set(s);
    }
    assert_eq!(vec![1, 3, 9, 14, 27], p.unsent_changes());
    assert_eq!(Some(1), p.next_unsent_change());
    p.remove_unsend_change(1);
    assert_eq!(Some(3), p.next_unsent_change());
    assert!(p.can_send());
}

#[test]
fn requested_changes_are_limited_to_what_the_writer_holds() {
    let mut p = proxy(true);
    p.add_requested_changes(&vec![1, 2, 6, 9, 4], 2, 6);
    assert_eq!(vec![2, 4, 6], p.requested_changes());
    assert_eq!(Some(2), p.next_requested_change());
}

#[test]
fn acked_changes_set_raises_the_mark_and_clears_below_base() {
    let mut p = proxy(true);
    for s in 1..=6 {
        p.unsend_changes_set(s);
    }
    p.add_requested_changes(&vec![2, 5], 1, 6);
    p.acked_changes_set(5);
    assert_eq!(4, p.highest_acked);
    assert_eq!(vec![5, 6], p.unsent_changes());
    assert_eq!(vec![5], p.requested_changes());
    // A lower base never takes the mark down.
    p.acked_changes_set(2);
    assert_eq!(4, p.highest_acked);
    p.acked_changes_set(i64::MIN);
    assert_eq!(4, p.highest_acked);
}

#[test]
fn best_effort_reader_counts_as_having_everything() {
    let p = proxy(false);
    assert!(p.sequence_is_acked(1_000_000));
    let mut q = proxy(true);
    assert!(!q.sequence_is_acked(1));
    q.acked_changes_set(2);
    assert!(q.sequence_is_acked(1));
    assert!(!q.sequence_is_acked(2));
}

#[test]
fn can_send_needs_an_owed_or_requested_change() {
    let mut p = proxy(true);
    assert!(!p.can_send());
    p.add_requested_changes(&vec![3], 1, 5);
    assert!(p.can_send());
    p.remove_requested_change(3);
    assert!(!p.can_send());
    assert_eq!(None, p.next_requested_change());
    assert_eq!(None, p.next_unsent_change());
}

#[test]
fn heartbeat_count_stops_at_its_greatest_value() {
    let mut p = proxy(true);
    p.increase_heartbeat_count();
    assert_eq!(1, p.heartbeat_count);
    p.heartbeat_count = i32::MAX;
    p.increase_heartbeat_count();
    assert_eq!(i32::MAX, p.heartbeat_count);
}

#[test]
fn from_discovered_reader_data_needs_a_guid() {
    let mut d = DiscoveredReaderData {
        reader_proxy: ReaderProxy {
            remote_reader_guid: None,
            expects_inline_qos: true,
            unicast_locator_list: vec![],
            multicast_locator_list: vec![],
        },
        reliable: true,
    };
    assert!(RtpsReaderProxy::from_discovered_reader_data(&d).is_none());
    let guid = GUID::new(GuidPrefix::new(&[3; 12]), EntityId::from_bytes(0, 0, 2, 0x04));
    d.reader_proxy.remote_reader_guid = Some(guid);
    let p = RtpsReaderProxy::from_discovered_reader_data(&d).unwrap();
    assert_eq!(guid, p.remote_reader_guid);
    assert!(p.is_reliable);
    assert!(p.expects_in_line_qos);
    assert!(!p.can_send());
}
