use pingmole::pinger::RelayTimed;
use pingmole::relays::{Protocol, Relay};
use pingmole::reporter::{Reporter, SortBy};

const MS: u64 = 1_000_000;

fn entry(city: &str, country: &str, distance_km: u64, timings: Vec<u64>) -> RelayTimed {
    RelayTimed::new(
        Relay {
            ip: "10.0.0.4".to_string(),
            city: city.to_string(),
            country: country.to_string(),
            protocol: Protocol::WireGuard,
            is_active: true,
            is_mullvad_owned: true,
            distance: distance_km * 1_000_000,
        },
        timings,
    )
}

fn cities(reporter: &Reporter) -> Vec<&str> {
    reporter
        .timings
        .iter()
        .map(|t| t.relay.city.as_str())
        .collect()
}

#[test]
fn default_sort_field_is_the_median_rtt() {
    assert_eq!(SortBy::default(), SortBy::MedianRTT);
}

#[test]
fn ranking_by_distance_sorts_ascending() {
    let mut reporter = Reporter::new(
        vec![
            entry("Far", "A", 50, vec![]),
            entry("Near", "A", 10, vec![]),
            entry("Mid", "A", 30, vec![]),
        ],
        SortBy::Distance,
    );
    reporter.sort();
    assert_eq!(cities(&reporter), vec!["Near", "Mid", "Far"]);
}

#[test]
fn ranking_is_stable_for_equal_keys() {
    let mut reporter = Reporter::new(
        vec![
            entry("First", "A", 30, vec![]),
            entry("Second", "A", 10, vec![]),
            entry("Third", "A", 30, vec![]),
            entry("Fourth", "A", 30, vec![]),
        ],
        SortBy::Distance,
    );
    reporter.sort();
    assert_eq!(cities(&reporter), vec!["Second", "First", "Third", "Fourth"]);
}

#[test]
fn ranking_by_country_is_lexicographic() {
    let mut reporter = Reporter::new(
        vec![
            entry("C1", "Sweden", 1, vec![]),
            entry("C2", "Germany", 1, vec![]),
            entry("C3", "Norway", 1, vec![]),
        ],
        SortBy::Country,
    );
    reporter.sort();
    assert_eq!(cities(&reporter), vec!["C2", "C3", "C1"]);
}

#[test]
fn ranking_by_city_compares_prefixes() {
    let mut reporter = Reporter::new(
        vec![
            entry("Berlin", "A", 1, vec![]),
            entry("Bergen", "A", 1, vec![]),
            entry("Ber", "A", 1, vec![]),
        ],
        SortBy::City,
    );
    reporter.sort();
    assert_eq!(cities(&reporter), vec!["Ber", "Bergen", "Berlin"]);
}

#[test]
fn ranking_by_mean_rtt_puts_unreachable_relays_last() {
    let mut reporter = Reporter::new(
        vec![
            entry("Silent", "A", 1, vec![]),
            entry("Slow", "A", 1, vec![300 * MS]),
            entry("Fast", "A", 1, vec![100 * MS]),
        ],
        SortBy::MeanRTT,
    );
    reporter.sort();
    assert_eq!(cities(&reporter), vec!["Fast", "Slow", "Silent"]);
}

#[test]
fn ranking_by_median_rtt_uses_the_median() {
    let mut reporter = Reporter::new(
        vec![
            entry("Spiky", "A", 1, vec![100 * MS, 100 * MS, 900 * MS]),
            entry("Steady", "A", 1, vec![150 * MS, 150 * MS, 150 * MS]),
        ],
        SortBy::MedianRTT,
    );
    reporter.sort();
    // The spiky relay's median (100 ms) beats its mean; it must come
    // first under the median ordering.
    assert_eq!(cities(&reporter), vec!["Spiky", "Steady"]);
}

#[test]
fn sorting_an_empty_report_is_a_no_op() {
    let mut reporter = Reporter::new(vec![], SortBy::Country);
    reporter.sort();
    assert!(reporter.timings.is_empty());
}

#[test]
fn sorting_keeps_the_sort_field() {
    let mut reporter = Reporter::new(vec![entry("Solo", "A", 1, vec![])], SortBy::City);
    reporter.sort();
    assert_eq!(reporter.sort_by, SortBy::City);
    assert_eq!(cities(&reporter), vec!["Solo"]);
}
