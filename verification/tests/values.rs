use rtps_core::common::timed_event_handler::{TimedEventHandler, Timeout, TimerToken};
use rtps_core::network::constant::TimerMessageType;
use rtps_core::structure::locator::{Locator, LOCATOR_KIND_UDPv6};
use rtps_core::structure::time::{Duration, Timestamp};

#[test]
fn timers_are_numbered_in_the_order_asked_for() {
    let mut h = TimedEventHandler::new();
    let a = h.set_timeout(&Duration { seconds: 1, nanos: 0 }, TimerMessageType::writer_heartbeat);
    let b = h.set_timeout(
        &Duration { seconds: 120, nanos: 5 },
        TimerMessageType::writer_cache_cleaning,
    );
    assert_eq!(TimerToken { number: 0 }, a);
    assert_eq!(TimerToken { number: 1 }, b);
    let taken = h.take_pending();
    assert_eq!(
        vec![
            Timeout { duration: Duration { seconds: 1, nanos: 0 }, kind: TimerMessageType::writer_heartbeat },
            Timeout {
                duration: Duration { seconds: 120, nanos: 5 },
                kind: TimerMessageType::writer_cache_cleaning,
            },
        ],
        taken
    );
    assert!(h.take_pending().is_empty());
    // Taking the requests out does not start the numbers again.
    let c = h.set_timeout(&Duration { seconds: 2, nanos: 0 }, TimerMessageType::writer_heartbeat);
    assert_eq!(TimerToken { number: 2 }, c);
}

#[test]
fn a_timestamp_counts_its_fraction_in_two_to_the_minus_32_seconds() {
    assert_eq!(Timestamp { seconds: 7, fraction: 0 }, Timestamp::from_seconds_and_nanos(7, 0));
    assert_eq!(
        Timestamp { seconds: -3, fraction: 0x8000_0000 },
        Timestamp::from_seconds_and_nanos(-3, 500_000_000)
    );
    assert_eq!(
        Timestamp { seconds: 0, fraction: 4_294_967_291 },
        Timestamp::from_seconds_and_nanos(0, 999_999_999)
    );
    assert_eq!(Timestamp { seconds: 1, fraction: 4 }, Timestamp::from_seconds_and_nanos(1, 1));
}

#[test]
fn a_udp_v4_locator_gives_its_address_and_port() {
    let l = Locator::udp_v4(239, 255, 0, 1, 7400);
    assert_eq!(Some(([239, 255, 0, 1], 7400)), l.to_udp_v4());
    assert!(l.is_udp_v4());
    // A port that is no UDP port.
    let far = Locator { port: 0x1_0000, ..l };
    assert_eq!(None, far.to_udp_v4());
    let last = Locator { port: 0xFFFF, ..l };
    assert_eq!(Some(([239, 255, 0, 1], 0xFFFF)), last.to_udp_v4());
    // Another kind of transport.
    let v6 = Locator { kind: LOCATOR_KIND_UDPv6, ..l };
    assert_eq!(None, v6.to_udp_v4());
    assert_eq!(None, Locator::invalid().to_udp_v4());
}
