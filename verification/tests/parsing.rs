use bootnode_probe::parse::{
    create_metrics_result, parse_metric_line, parse_metric_value, parse_peer_metrics,
    scrape_payload, MetricsStatus, PeerMetric,
};

#[test]
fn value_plain_integer() {
    assert_eq!(parse_metric_value(b"5"), Some(5));
    assert_eq!(parse_metric_value(b"0"), Some(0));
    assert_eq!(parse_metric_value(b"1234567890"), Some(1234567890));
}

#[test]
fn value_truncates_fraction() {
    assert_eq!(parse_metric_value(b"5.9"), Some(5));
    assert_eq!(parse_metric_value(b"5."), Some(5));
    assert_eq!(parse_metric_value(b".5"), Some(0));
}

#[test]
fn value_signs() {
    assert_eq!(parse_metric_value(b"+3"), Some(3));
    assert_eq!(parse_metric_value(b"-3"), Some(0));
    assert_eq!(parse_metric_value(b"-0.7"), Some(0));
}

#[test]
fn value_rejects_non_numbers() {
    assert_eq!(parse_metric_value(b""), None);
    assert_eq!(parse_metric_value(b"."), None);
    assert_eq!(parse_metric_value(b"+"), None);
    assert_eq!(parse_metric_value(b"abc"), None);
    assert_eq!(parse_metric_value(b"1a"), None);
    assert_eq!(parse_metric_value(b"1.2.3"), None);
}

#[test]
fn value_exponents() {
    assert_eq!(parse_metric_value(b"1e3"), Some(1000));
    assert_eq!(parse_metric_value(b"1E3"), Some(1000));
    assert_eq!(parse_metric_value(b"1.5e2"), Some(150));
    assert_eq!(parse_metric_value(b"12.34e1"), Some(123));
    assert_eq!(parse_metric_value(b".5e1"), Some(5));
    assert_eq!(parse_metric_value(b"1e+2"), Some(100));
    assert_eq!(parse_metric_value(b"1e-2"), Some(0));
    assert_eq!(parse_metric_value(b"250e-1"), Some(25));
    assert_eq!(parse_metric_value(b"-1e3"), Some(0));
    assert_eq!(parse_metric_value(b"0e999999999999999999999999"), Some(0));
    assert_eq!(parse_metric_value(b"2e999999999999999999999999"), Some(u64::MAX));
    assert_eq!(parse_metric_value(b"2e-999999999999999999999999"), Some(0));
    assert_eq!(parse_metric_value(b"1e20"), Some(u64::MAX));
    assert_eq!(parse_metric_value(b"1e19"), Some(10000000000000000000));
}

#[test]
fn value_rejects_bad_exponents() {
    assert_eq!(parse_metric_value(b"1e"), None);
    assert_eq!(parse_metric_value(b"1e+"), None);
    assert_eq!(parse_metric_value(b"e3"), None);
    assert_eq!(parse_metric_value(b"1e2.3"), None);
    assert_eq!(parse_metric_value(b"1e2e3"), None);
    assert_eq!(parse_metric_value(b"1.2.3e1"), None);
}

#[test]
fn value_saturates() {
    assert_eq!(parse_metric_value(b"18446744073709551615"), Some(u64::MAX));
    assert_eq!(parse_metric_value(b"99999999999999999999999"), Some(u64::MAX));
}

#[test]
fn line_recognizes_both_metrics() {
    assert_eq!(
        parse_metric_line(b"substrate_sub_libp2p_peerset_num_discovered 5"),
        Some((PeerMetric::Discovered, 5))
    );
    assert_eq!(
        parse_metric_line(b"substrate_sub_libp2p_peers_count 3"),
        Some((PeerMetric::Connected, 3))
    );
}

#[test]
fn line_strips_label_braces() {
    assert_eq!(
        parse_metric_line(b"substrate_sub_libp2p_peers_count{chain=\"polkadot\"} 7"),
        Some((PeerMetric::Connected, 7))
    );
}

#[test]
fn line_takes_last_token_as_value() {
    // An exposition line may carry a trailing timestamp; the last token is
    // the one read.
    assert_eq!(
        parse_metric_line(b"substrate_sub_libp2p_peers_count 7 1234"),
        Some((PeerMetric::Connected, 1234))
    );
}

#[test]
fn line_skips_comments_blanks_and_strangers() {
    assert_eq!(parse_metric_line(b"# HELP something"), None);
    assert_eq!(parse_metric_line(b""), None);
    assert_eq!(parse_metric_line(b"   \t "), None);
    assert_eq!(parse_metric_line(b"other_metric 5"), None);
    assert_eq!(parse_metric_line(b"substrate_sub_libp2p_peers_count abc"), None);
}

#[test]
fn payload_extracts_both_counts() {
    let payload = b"# HELP substrate_sub_libp2p_peerset_num_discovered peers\n\
substrate_sub_libp2p_peerset_num_discovered 5\n\
substrate_sub_libp2p_peers_count 3\n\
something_else 9\n";
    let counts = parse_peer_metrics(payload);
    assert_eq!(counts.discovered, Some(5));
    assert_eq!(counts.connected, Some(3));
}

#[test]
fn payload_later_line_wins() {
    let payload = b"substrate_sub_libp2p_peerset_num_discovered 5\n\
substrate_sub_libp2p_peerset_num_discovered 8\n";
    let counts = parse_peer_metrics(payload);
    assert_eq!(counts.discovered, Some(8));
}

#[test]
fn payload_handles_crlf_and_missing_final_newline() {
    let payload = b"substrate_sub_libp2p_peerset_num_discovered 4\r\n\
substrate_sub_libp2p_peers_count 2";
    let counts = parse_peer_metrics(payload);
    assert_eq!(counts.discovered, Some(4));
    assert_eq!(counts.connected, Some(2));
}

#[test]
fn payload_malformed_line_never_aborts_scrape() {
    let payload = b"substrate_sub_libp2p_peers_count nonsense\n\
garbage {{{ line\n\
substrate_sub_libp2p_peerset_num_discovered 6\n";
    let counts = parse_peer_metrics(payload);
    assert_eq!(counts.discovered, Some(6));
    assert_eq!(counts.connected, None);
}

#[test]
fn snapshot_available_when_discovered_present() {
    let counts = parse_peer_metrics(b"substrate_sub_libp2p_peerset_num_discovered 5\n");
    let snapshot = create_metrics_result(counts);
    assert_eq!(snapshot.peers, 5);
    assert!(matches!(snapshot.status, MetricsStatus::Available));
    assert_eq!(snapshot.peer_types, Some(counts));
}

#[test]
fn snapshot_available_when_only_connected_present() {
    // Any recognized metric makes the scrape Available; the primary count
    // stays the discovered count, zero when that metric is absent.
    let snapshot = scrape_payload(b"substrate_sub_libp2p_peers_count 3\n");
    assert_eq!(snapshot.peers, 0);
    assert!(matches!(snapshot.status, MetricsStatus::Available));
}

#[test]
fn snapshot_no_metric_found_when_neither_is_present() {
    let snapshot = scrape_payload(b"some_other_metric 3\nanother 4\n");
    assert_eq!(snapshot.peers, 0);
    assert!(matches!(snapshot.status, MetricsStatus::NoMetricFound));
}

#[test]
fn snapshot_of_empty_payload() {
    let snapshot = scrape_payload(b"");
    assert_eq!(snapshot.peers, 0);
    assert!(matches!(snapshot.status, MetricsStatus::NoMetricFound));
}
