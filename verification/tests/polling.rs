use bootnode_probe::backoff::{
    backoff_delay_ms, check_discovered_peers, connect_error_message, read_error_message,
    scrape_delay_ms, scrape_target_id, status_error_message, BackoffPolicy, FetchAttempt,
};
use bootnode_probe::outcome::{completed_result, startup_failure_result, TestStatus};
use bootnode_probe::parse::{scrape_payload, MetricsResult, MetricsStatus};
use bootnode_probe::poller::{run_poller, ScrapeEvent};

fn available(peers: u64) -> ScrapeEvent {
    ScrapeEvent::Scraped(MetricsResult {
        peers,
        peer_types: None,
        status: MetricsStatus::Available,
    })
}

fn no_metric() -> ScrapeEvent {
    ScrapeEvent::Scraped(MetricsResult {
        peers: 0,
        peer_types: None,
        status: MetricsStatus::NoMetricFound,
    })
}

#[test]
fn poll_succeeds_at_minimum() {
    // minimum-peers 3, scraped value 5: valid outcome with status Success.
    let events = vec![available(5)];
    let outcome = run_poller(&events, 3);
    assert_eq!(outcome.status, TestStatus::Success);
    assert_eq!(outcome.discovered_peers, 5);
    assert_eq!(outcome.error_details, None);
    let result = completed_result("op", "polkadot", "/dns/a", outcome, 1200, 3);
    assert!(result.valid);
    assert_eq!(result.discovered_peers, 5);
}

#[test]
fn poll_below_minimum_times_out() {
    // Scraped value 2 for the whole window: Timeout, no peers recorded.
    let events = vec![available(2), available(2), available(2), available(2)];
    let outcome = run_poller(&events, 3);
    assert_eq!(outcome.status, TestStatus::Timeout);
    assert_eq!(outcome.discovered_peers, 0);
    let result = completed_result("op", "polkadot", "/dns/a", outcome, 30000, 3);
    assert!(!result.valid);
}

#[test]
fn poll_three_failed_scrapes_give_metrics_unavailable() {
    let events = vec![
        ScrapeEvent::ScrapeFailed(String::from("connection refused")),
        ScrapeEvent::ScrapeFailed(String::from("connection refused")),
        ScrapeEvent::ScrapeFailed(String::from("connection refused")),
    ];
    let outcome = run_poller(&events, 3);
    assert_eq!(outcome.status, TestStatus::MetricsUnavailable);
    assert_eq!(outcome.error_details, Some(String::from("connection refused")));
    assert_eq!(outcome.discovered_peers, 0);
}

#[test]
fn poll_three_no_metric_scrapes_end_early() {
    // Terminal well before the transcript (the deadline) is exhausted.
    let events = vec![no_metric(), no_metric(), no_metric(), available(9), available(9)];
    let outcome = run_poller(&events, 3);
    assert_eq!(outcome.status, TestStatus::NoMetricFound);
    assert_eq!(outcome.discovered_peers, 0);
}

#[test]
fn poll_below_minimum_scrape_resets_failure_count() {
    let events = vec![
        ScrapeEvent::ScrapeFailed(String::from("e1")),
        ScrapeEvent::ScrapeFailed(String::from("e2")),
        available(1),
        ScrapeEvent::ScrapeFailed(String::from("e3")),
        ScrapeEvent::ScrapeFailed(String::from("e4")),
        ScrapeEvent::ScrapeFailed(String::from("e5")),
    ];
    let outcome = run_poller(&events, 3);
    assert_eq!(outcome.status, TestStatus::MetricsUnavailable);
    assert_eq!(outcome.error_details, Some(String::from("e5")));
}

#[test]
fn poll_unavailable_status_carries_reason() {
    let unavailable = || {
        ScrapeEvent::Scraped(MetricsResult {
            peers: 0,
            peer_types: None,
            status: MetricsStatus::Unavailable(String::from("bad status 503")),
        })
    };
    let events = vec![unavailable(), unavailable(), unavailable()];
    let outcome = run_poller(&events, 3);
    assert_eq!(outcome.status, TestStatus::MetricsUnavailable);
    assert_eq!(outcome.error_details, Some(String::from("bad status 503")));
}

#[test]
fn startup_failure_is_never_valid() {
    // Chain-spec file absent: NodeStartupFailed, not valid, duration near zero.
    let result = startup_failure_result(
        "op",
        "kusama",
        "/dns/a",
        0,
        String::from("chain spec file does not exist"),
    );
    assert_eq!(result.status, TestStatus::NodeStartupFailed);
    assert!(!result.valid);
    assert_eq!(result.test_duration_ms, 0);
    assert_eq!(result.discovered_peers, 0);
    assert_eq!(result.error_details, Some(String::from("chain spec file does not exist")));
}

#[test]
fn timeout_is_never_valid_even_with_zero_minimum() {
    let events: Vec<ScrapeEvent> = Vec::new();
    let outcome = run_poller(&events, 0);
    assert_eq!(outcome.status, TestStatus::Timeout);
    let result = completed_result("op", "polkadot", "/dns/a", outcome, 30000, 0);
    assert!(!result.valid);
}

#[test]
fn backoff_delay_is_base_times_power_of_two_plus_jitter() {
    let p = BackoffPolicy::scraper_default();
    assert_eq!(backoff_delay_ms(&p, 0, 0), 100);
    assert_eq!(backoff_delay_ms(&p, 1, 0), 200);
    assert_eq!(backoff_delay_ms(&p, 2, 0), 400);
    assert_eq!(backoff_delay_ms(&p, 3, 0), 800);
    assert_eq!(backoff_delay_ms(&p, 4, 0), 1600);
    assert_eq!(backoff_delay_ms(&p, 0, 150), 150);
    assert_eq!(backoff_delay_ms(&p, 2, 1099), 499);
}

#[test]
fn drawn_delay_stays_within_the_jitter_band() {
    let p = BackoffPolicy::scraper_default();
    for attempt in 0..5 {
        let floor = backoff_delay_ms(&p, attempt, 0);
        let d = scrape_delay_ms(&p, attempt);
        assert!(d >= floor);
        assert!(d < floor + 100);
    }
}

#[test]
fn scraper_uses_exactly_the_retry_bound_when_all_attempts_fail() {
    let p = BackoffPolicy::scraper_default();
    let attempts = vec![
        FetchAttempt::FetchFailed(String::from("refused 1")),
        FetchAttempt::FetchFailed(String::from("refused 2")),
        FetchAttempt::FetchFailed(String::from("refused 3")),
        FetchAttempt::FetchFailed(String::from("refused 4")),
        FetchAttempt::FetchFailed(String::from("refused 5")),
    ];
    let run = check_discovered_peers(&attempts, &p);
    assert_eq!(run.attempts_used, 5);
    assert_eq!(run.result.unwrap_err(), String::from("refused 5"));
}

#[test]
fn scraper_stops_at_the_first_served_payload() {
    let p = BackoffPolicy::scraper_default();
    let payload = b"substrate_sub_libp2p_peerset_num_discovered 5\n".to_vec();
    let attempts = vec![
        FetchAttempt::FetchFailed(String::from("refused")),
        FetchAttempt::FetchFailed(String::from("refused")),
        FetchAttempt::Fetched(payload.clone()),
        FetchAttempt::FetchFailed(String::from("never consulted")),
        FetchAttempt::FetchFailed(String::from("never consulted")),
    ];
    let run = check_discovered_peers(&attempts, &p);
    assert_eq!(run.attempts_used, 3);
    let snapshot = run.result.unwrap();
    assert_eq!(snapshot.peers, 5);
    assert!(matches!(snapshot.status, MetricsStatus::Available));
    let direct = scrape_payload(&payload);
    assert_eq!(direct.peers, snapshot.peers);
}

#[test]
fn scrape_errors_name_the_target_and_ports() {
    let id = scrape_target_id("alpha", "polkadot", "/dns/a1", 49714, 49715);
    assert_eq!(id, "alpha/polkadot (bootnode: /dns/a1, ports: prometheus=49714, p2p=49715)");
    assert_eq!(
        connect_error_message("alpha", "polkadot", "/dns/a1", 49714, 49715, "refused"),
        "Failed to connect to metrics endpoint for alpha/polkadot (bootnode: /dns/a1, \
ports: prometheus=49714, p2p=49715): refused"
    );
    assert_eq!(
        status_error_message("alpha", "polkadot", "/dns/a1", 49714, 49715, "503 Service Unavailable"),
        "Bad status 503 Service Unavailable from metrics endpoint for alpha/polkadot \
(bootnode: /dns/a1, ports: prometheus=49714, p2p=49715)"
    );
    assert_eq!(
        read_error_message("alpha", "polkadot", "/dns/a1", 49714, 49715, "reset"),
        "Failed to read metrics response for alpha/polkadot (bootnode: /dns/a1, \
ports: prometheus=49714, p2p=49715): reset"
    );
}
