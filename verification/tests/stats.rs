use pingmole::pinger::RelayTimed;
use pingmole::relays::{Protocol, Relay};

fn relay() -> Relay {
    Relay {
        ip: "10.0.0.1".to_string(),
        city: "Stockholm".to_string(),
        country: "Sweden".to_string(),
        protocol: Protocol::WireGuard,
        is_active: true,
        is_mullvad_owned: true,
        distance: 1_000_000,
    }
}

const MS: u64 = 1_000_000;

#[test]
fn mean_of_empty_is_undefined() {
    let timed = RelayTimed::new(relay(), vec![]);
    assert_eq!(timed.rtt_mean(), None);
}

#[test]
fn mean_of_three_timings() {
    let timed = RelayTimed::new(relay(), vec![100 * MS, 200 * MS, 300 * MS]);
    assert_eq!(timed.rtt_mean(), Some(200 * MS));
}

#[test]
fn mean_of_single_timing() {
    let timed = RelayTimed::new(relay(), vec![750 * MS]);
    assert_eq!(timed.rtt_mean(), Some(750 * MS));
}

#[test]
fn mean_truncates_like_integer_division() {
    let timed = RelayTimed::new(relay(), vec![1, 2]);
    assert_eq!(timed.rtt_mean(), Some(1));
}

#[test]
fn median_of_empty_is_undefined() {
    let timed = RelayTimed::new(relay(), vec![]);
    assert_eq!(timed.rtt_median(), None);
}

#[test]
fn median_of_even_length_averages_the_middle() {
    let timed = RelayTimed::new(relay(), vec![100 * MS, 300 * MS]);
    assert_eq!(timed.rtt_median(), Some(200 * MS));
}

#[test]
fn median_of_odd_length_takes_the_middle() {
    let timed = RelayTimed::new(relay(), vec![100 * MS, 200 * MS, 900 * MS]);
    assert_eq!(timed.rtt_median(), Some(200 * MS));
}

#[test]
fn median_sorts_before_picking_the_middle() {
    let timed = RelayTimed::new(relay(), vec![900 * MS, 100 * MS, 200 * MS]);
    assert_eq!(timed.rtt_median(), Some(200 * MS));
}

#[test]
fn median_of_extreme_values_does_not_overflow() {
    let timed = RelayTimed::new(relay(), vec![u64::MAX, u64::MAX - 1]);
    assert_eq!(timed.rtt_median(), Some(u64::MAX - 1));
}

#[test]
fn mean_of_extreme_values_does_not_overflow() {
    let timed = RelayTimed::new(relay(), vec![u64::MAX, u64::MAX]);
    assert_eq!(timed.rtt_mean(), Some(u64::MAX));
}

#[test]
fn relay_accessor_returns_the_relay() {
    let timed = RelayTimed::new(relay(), vec![1]);
    assert_eq!(timed.relay().city, "Stockholm");
    assert_eq!(timed.relay().protocol, Protocol::WireGuard);
}
