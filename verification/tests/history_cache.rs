use rtps_core::structure::cache_change::{CacheChange, ChangeKind, InstanceHandle, SerializedPayload};
use rtps_core::structure::guid::{EntityId, GuidPrefix, GUID};
use rtps_core::structure::history_cache::HistoryCache;
use rtps_core::structure::sequence_number::{SequenceNumber, SEQUENCENUMBER_UNKNOWN};
use rtps_core::structure::time::Instant;

fn change(sequence_number: SequenceNumber) -> CacheChange {
    CacheChange {
        kind: ChangeKind::ALIVE,
        writer_guid: GUID::unknown(),
        instance_handle: InstanceHandle::default(),
        sequence_number,
        data_value: Some(SerializedPayload::new()),
    }
}

#[test]
fn ch_add_change_test() {
    let mut history_cache = HistoryCache::new();
    let cache_change = CacheChange {
        kind: ChangeKind::ALIVE,
        writer_guid: GUID::unknown(),
        instance_handle: InstanceHandle::default(),
        sequence_number: SEQUENCENUMBER_UNKNOWN,
        data_value: Some(SerializedPayload::new()),
    };

    assert_eq!(0, history_cache.len());

    history_cache.add_change(cache_change);
    assert_eq!(1, history_cache.len());
}

#[test]
fn ch_remove_change_test() {
    let mut history_cache = HistoryCache::new();

    assert_eq!(0, history_cache.len());

    let cache_change = change(SequenceNumber::from(10));
    history_cache.add_change(cache_change);
    assert_eq!(1, history_cache.len());

    let cache_change = change(SequenceNumber::from(7));
    history_cache.add_change(cache_change);
    assert_eq!(2, history_cache.len());

    history_cache.remove_change(SequenceNumber::from(7));
    assert_eq!(1, history_cache.len());
}

#[test]
fn ch_get_seq_num_min() {
    let mut history_cache = HistoryCache::new();

    let small_cache_change = change(SequenceNumber::from(1));
    history_cache.add_change(small_cache_change);

    let big_cache_change = change(SequenceNumber::from(7));
    history_cache.add_change(big_cache_change);

    let smalles_cache_change = history_cache.get_seq_num_min();

    assert_eq!(true, smalles_cache_change.is_some());
    assert_eq!(&SequenceNumber::from(1), smalles_cache_change.unwrap());
}

#[test]
fn ch_get_seq_num_max() {
    let mut history_cache = HistoryCache::new();

    let small_cache_change = change(SequenceNumber::from(1));
    history_cache.add_change(small_cache_change);

    let big_cache_change = CacheChange {
        kind: ChangeKind::ALIVE,
        writer_guid: GUID {
            entity_id: EntityId::unknown(),
            prefix: GuidPrefix { bytes: [0x00; 12] },
        },
        instance_handle: InstanceHandle::default(),
        sequence_number: SequenceNumber::from(7),
        data_value: Some(SerializedPayload::new()),
    };
    history_cache.add_change(big_cache_change);

    let biggest_cache_change = history_cache.get_seq_num_max();

    assert_eq!(true, biggest_cache_change.is_some());
    assert_eq!(&SequenceNumber::from(7), biggest_cache_change.unwrap());
}

#[test]
fn remove_changes_up_to_keeps_the_bound() {
    let mut history_cache = HistoryCache::new();
    for s in 1..=5 {
        history_cache.add_change(change(s));
    }
    history_cache.remove_changes_up_to(3);
    assert_eq!(3, history_cache.len());
    assert_eq!(Some(&3), history_cache.get_seq_num_min());
    assert_eq!(Some(&5), history_cache.get_seq_num_max());
    assert!(history_cache.get_change(2).is_none());
    assert_eq!(3, history_cache.get_change(3).unwrap().sequence_number);
}

#[test]
fn empty_cache_has_no_extremes() {
    let history_cache = HistoryCache::new();
    assert!(history_cache.get_seq_num_min().is_none());
    assert!(history_cache.get_seq_num_max().is_none());
    assert!(history_cache.get_change(1).is_none());
}

#[test]
fn mark_disposed_turns_alive_changes_of_the_instance() {
    let mut history_cache = HistoryCache::new();
    let mut a = change(1);
    a.instance_handle = InstanceHandle { key_hash: 42 };
    let mut b = change(2);
    b.instance_handle = InstanceHandle { key_hash: 43 };
    history_cache.add_change(a);
    history_cache.add_change(b);
    history_cache.mark_disposed(42);
    assert_eq!(ChangeKind::NOT_ALIVE_DISPOSED, history_cache.get_change(1).unwrap().kind);
    assert_eq!(ChangeKind::ALIVE, history_cache.get_change(2).unwrap().kind);
}

fn change_of(writer: u8, sequence_number: SequenceNumber) -> CacheChange {
    let mut c = change(sequence_number);
    c.writer_guid = GUID::new(GuidPrefix::new(&[writer; 12]), EntityId::unknown());
    c
}

fn guid(writer: u8) -> GUID {
    GUID::new(GuidPrefix::new(&[writer; 12]), EntityId::unknown())
}

#[test]
fn changes_are_found_by_the_instant_of_their_insertion() {
    let mut history_cache = HistoryCache::new();
    history_cache.add_change_at(change(1), Instant::from_nanos(100));
    history_cache.add_change_at(change(2), Instant::from_nanos(300));
    // The clock went back: the change is filed under the instant of the last.
    history_cache.add_change_at(change(3), Instant::from_nanos(200));
    // Without an instant a change is filed under the instant of the last, too.
    history_cache.add_change(change(4));
    assert_eq!(1, history_cache.get_by_instant(Instant::from_nanos(100)).unwrap().sequence_number);
    assert_eq!(2, history_cache.get_by_instant(Instant::from_nanos(300)).unwrap().sequence_number);
    assert!(history_cache.get_by_instant(Instant::from_nanos(200)).is_none());
    history_cache.remove_change(2);
    assert_eq!(3, history_cache.get_by_instant(Instant::from_nanos(300)).unwrap().sequence_number);
    history_cache.remove_changes_up_to(4);
    assert_eq!(4, history_cache.get_by_instant(Instant::from_nanos(300)).unwrap().sequence_number);
    assert!(history_cache.get_by_instant(Instant::from_nanos(100)).is_none());
    let mut first = HistoryCache::new();
    first.add_change(change(9));
    assert_eq!(9, first.get_by_instant(Instant::from_nanos(0)).unwrap().sequence_number);
}

#[test]
fn the_changes_of_several_writers_are_told_apart() {
    let mut history_cache = HistoryCache::new();
    for (w, s) in [(1, 5), (2, 3), (1, 2), (2, 8), (1, 9)] {
        history_cache.add_change(change_of(w, s));
    }
    assert_eq!(Some(2), history_cache.get_seq_num_min_of(guid(1)));
    assert_eq!(Some(9), history_cache.get_seq_num_max_of(guid(1)));
    assert_eq!(Some(3), history_cache.get_seq_num_min_of(guid(2)));
    assert_eq!(Some(8), history_cache.get_seq_num_max_of(guid(2)));
    assert_eq!(None, history_cache.get_seq_num_min_of(guid(3)));
    assert_eq!(None, history_cache.get_seq_num_max_of(guid(3)));
    assert_eq!(guid(2), history_cache.get_change_of(guid(2), 3).unwrap().writer_guid);
    assert!(history_cache.get_change_of(guid(2), 5).is_none());
    history_cache.remove_changes_of_up_to(guid(1), 9);
    assert_eq!(3, history_cache.len());
    assert_eq!(Some(9), history_cache.get_seq_num_min_of(guid(1)));
    assert_eq!(Some(3), history_cache.get_seq_num_min_of(guid(2)));
    let removed = history_cache.remove_change_of(guid(2), 8).unwrap();
    assert_eq!((guid(2), 8), (removed.writer_guid, removed.sequence_number));
    assert!(history_cache.remove_change_of(guid(2), 8).is_none());
    assert_eq!(2, history_cache.len());
}

#[test]
fn one_writers_changes_come_in_ascending_order() {
    let mut cache = HistoryCache::new();
    for (writer, sn) in [(1, 7), (2, 3), (1, 2), (1, 9), (2, 1), (1, 4)] {
        cache.add_change(change_of(writer, sn));
    }
    assert_eq!(vec![2, 4, 7, 9], cache.sequence_numbers_of_writer(guid(1)));
    assert_eq!(vec![1, 3], cache.sequence_numbers_of_writer(guid(2)));
    assert!(cache.sequence_numbers_of_writer(guid(3)).is_empty());
    // A change that was added twice is there twice.
    cache.add_change(change_of(2, 3));
    assert_eq!(vec![1, 3, 3], cache.sequence_numbers_of_writer(guid(2)));
}
