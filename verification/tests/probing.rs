use pingmole::filters::{FilterByRTT, PingFilter};
use pingmole::pinger::{
    RelayPinger, RelayPingerConfig, RelayTimed, RelaysPinger, RelaysPingerError,
};
use pingmole::relays::{Protocol, Relay};

fn relay_named(city: &str) -> Relay {
    Relay {
        ip: "10.0.0.3".to_string(),
        city: city.to_string(),
        country: "Norway".to_string(),
        protocol: Protocol::WireGuard,
        is_active: true,
        is_mullvad_owned: true,
        distance: 5_000_000,
    }
}

const MS: u64 = 1_000_000;

#[test]
fn config_defaults() {
    let config = RelayPingerConfig::new();
    assert_eq!(config.count, 4);
    assert_eq!(config.timeout_ms, 750);
    assert_eq!(config.interval_ms, 1000);
    assert_eq!(RelayPingerConfig::default(), config);
}

#[test]
fn config_builders_set_each_field() {
    let config = RelayPingerConfig::new()
        .set_count(8)
        .set_timeout(250)
        .set_interval(500);
    assert_eq!(config.count, 8);
    assert_eq!(config.timeout_ms, 250);
    assert_eq!(config.interval_ms, 500);
}

#[test]
fn prober_keeps_only_successful_timings() {
    let config = RelayPingerConfig::new().set_count(3);
    let mut pinger = RelayPinger::new(relay_named("Oslo"), config);
    pinger.record_success(100 * MS);
    pinger.record_failure();
    pinger.record_success(200 * MS);
    assert!(pinger.is_done());
    let timed = pinger.finish();
    assert_eq!(timed.timings, vec![100 * MS, 200 * MS]);
}

#[test]
fn prober_timing_count_never_exceeds_configured_count() {
    let config = RelayPingerConfig::new().set_count(5);
    let mut pinger = RelayPinger::new(relay_named("Oslo"), config);
    while !pinger.is_done() {
        pinger.record_success(42);
    }
    let timed = pinger.finish();
    assert!(timed.timings.len() <= 5);
    assert_eq!(timed.timings.len(), 5);
}

#[test]
fn prober_with_no_success_yields_empty_timings() {
    let config = RelayPingerConfig::new().set_count(2);
    let mut pinger = RelayPinger::new(relay_named("Bergen"), config);
    pinger.record_failure();
    pinger.record_failure();
    let timed = pinger.finish();
    assert!(timed.timings.is_empty());
    assert_eq!(timed.relay.city, "Bergen");
}

#[test]
fn join_failure_is_fatal_and_yields_no_partial_result() {
    let pinger = RelaysPinger::new(vec![PingFilter::RTT(FilterByRTT::new(None))]);
    let ok = RelayTimed::new(relay_named("Oslo"), vec![100 * MS]);
    let outcomes = vec![Some(ok), None];
    let result = pinger.ping(outcomes);
    assert!(matches!(result, Err(RelaysPingerError::PingerAwaitFailed)));
}

#[test]
fn join_collects_in_join_order() {
    let pinger = RelaysPinger::new(vec![PingFilter::RTT(FilterByRTT::new(None))]);
    let outcomes = vec![
        Some(RelayTimed::new(relay_named("Oslo"), vec![100 * MS])),
        Some(RelayTimed::new(relay_named("Bergen"), vec![])),
        Some(RelayTimed::new(relay_named("Tromso"), vec![50 * MS])),
    ];
    let admitted = pinger.ping(outcomes).unwrap();
    let cities: Vec<&str> = admitted.iter().map(|t| t.relay.city.as_str()).collect();
    assert_eq!(cities, vec!["Oslo", "Bergen", "Tromso"]);
}

#[test]
fn join_applies_the_rtt_filter() {
    let pinger = RelaysPinger::new(vec![PingFilter::RTT(FilterByRTT::new(Some(150 * MS)))]);
    let outcomes = vec![
        Some(RelayTimed::new(relay_named("Oslo"), vec![100 * MS])),
        Some(RelayTimed::new(relay_named("Bergen"), vec![])),
        Some(RelayTimed::new(relay_named("Tromso"), vec![200 * MS])),
    ];
    let admitted = pinger.ping(outcomes).unwrap();
    let cities: Vec<&str> = admitted.iter().map(|t| t.relay.city.as_str()).collect();
    assert_eq!(cities, vec!["Oslo"]);
}

#[test]
fn join_of_no_outcomes_is_an_empty_success() {
    let pinger = RelaysPinger::new(vec![]);
    let admitted = pinger.ping(vec![]).unwrap();
    assert!(admitted.is_empty());
}

#[test]
fn join_error_message() {
    assert_eq!(
        RelaysPingerError::PingerAwaitFailed.message(),
        "Failed to await a task"
    );
}
