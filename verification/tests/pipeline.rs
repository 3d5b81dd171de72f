use bootnode_probe::config::{
    cycle_delay_ms, flatten_targets, BootnodesConfig, Cli, NetworkConfig, NetworkEntry,
    OperatorBootnodes, TomlConfig,
};
use bootnode_probe::gate::AdmissionGate;
use bootnode_probe::outcome::{summarize_cycle, startup_failure_result, TestStatus};
use bootnode_probe::ports::{get_next_port, PortAllocator, MAX_PORT, MIN_PORT};
use bootnode_probe::spawn::{
    chain_spec_path, metrics_url, probe_data_dir, relay_chain_host, relay_rpc_url, spawn_plan,
    str_eq, u64_to_string,
};
use bootnode_probe::store::ResultDocument;
use bootnode_probe::telemetry::{bootnode_type_label, protocol_label, telemetry_update};

fn sample_cli() -> Cli {
    Cli {
        polkadot_binary: String::from("/usr/local/bin/polkadot"),
        parachain_binary: String::from("/usr/local/bin/polkadot-parachain"),
        encointer_binary: String::from("/usr/local/bin/encointer"),
        output_dir: String::from("/tmp/bootnode_tests"),
        data_dir: String::from("/tmp/bootnode_data"),
        chain_spec_dir: String::from("./chain-spec"),
        max_concurrent: 10,
        base_port: 49615,
        prometheus_port: 9615,
        timeout: 30,
        min_peers: 1,
        interval: 300,
        bootnodes_config: String::from("bootnodes.json"),
        config: None,
        debug: false,
    }
}

#[test]
fn ports_advance_and_wrap() {
    // floor 10, ceiling 12: three calls span the range, the fourth wraps.
    let mut alloc = PortAllocator::new(10, 12, 10);
    assert_eq!(get_next_port(&mut alloc), 10);
    assert_eq!(get_next_port(&mut alloc), 11);
    assert_eq!(get_next_port(&mut alloc), 12);
    assert_eq!(get_next_port(&mut alloc), 10);
}

#[test]
fn ports_default_range_wraps_at_ceiling() {
    let mut alloc = PortAllocator::new(MIN_PORT, MAX_PORT, MAX_PORT);
    assert_eq!(get_next_port(&mut alloc), MAX_PORT);
    assert_eq!(get_next_port(&mut alloc), MIN_PORT);
}

#[test]
fn gate_bounds_concurrent_holders() {
    // ceiling 2 with 3 requests queued: the third is refused until a
    // release.
    let mut gate = AdmissionGate::new(2);
    assert!(gate.try_acquire());
    assert!(gate.try_acquire());
    assert!(!gate.try_acquire());
    assert_eq!(gate.in_use, 2);
    gate.release();
    assert!(gate.try_acquire());
    assert!(!gate.try_acquire());
}

#[test]
fn toml_overrides_only_what_it_sets() {
    let mut cli = sample_cli();
    cli.merge_with_toml(TomlConfig {
        polkadot_binary: Some(String::from("/opt/polkadot")),
        parachain_binary: None,
        output_dir: None,
        data_dir: Some(String::from("/var/probe")),
        chain_spec_dir: None,
        max_concurrent: Some(4),
        base_port: None,
        timeout: Some(60),
        bootnodes_config: None,
    });
    assert_eq!(cli.polkadot_binary, "/opt/polkadot");
    assert_eq!(cli.parachain_binary, "/usr/local/bin/polkadot-parachain");
    assert_eq!(cli.data_dir, "/var/probe");
    assert_eq!(cli.max_concurrent, 4);
    assert_eq!(cli.base_port, 49615);
    assert_eq!(cli.timeout, 60);
    assert_eq!(cli.bootnodes_config, "bootnodes.json");
}

#[test]
fn flatten_produces_one_target_per_bootnode_in_order() {
    let cfg = BootnodesConfig {
        networks: vec![
            NetworkEntry {
                network: String::from("polkadot"),
                config: NetworkConfig {
                    command_id: String::from("relaychain"),
                    members: vec![
                        OperatorBootnodes {
                            operator: String::from("alpha"),
                            bootnodes: vec![String::from("/dns/a1"), String::from("/dns/a2")],
                        },
                        OperatorBootnodes {
                            operator: String::from("beta"),
                            bootnodes: vec![String::from("/dns/b1")],
                        },
                    ],
                },
            },
            NetworkEntry {
                network: String::from("asset-hub-polkadot"),
                config: NetworkConfig {
                    command_id: String::from("parachain"),
                    members: vec![OperatorBootnodes {
                        operator: String::from("alpha"),
                        bootnodes: vec![String::from("/dns/c1")],
                    }],
                },
            },
        ],
    };
    let targets = flatten_targets(&cfg);
    assert_eq!(targets.len(), 4);
    assert_eq!(targets[0].network, "polkadot");
    assert_eq!(targets[0].operator, "alpha");
    assert_eq!(targets[0].bootnode, "/dns/a1");
    assert_eq!(targets[1].bootnode, "/dns/a2");
    assert_eq!(targets[2].operator, "beta");
    assert_eq!(targets[3].network, "asset-hub-polkadot");
    assert_eq!(targets[3].command_id, "parachain");
}

#[test]
fn cycle_delay_keeps_the_cadence() {
    assert_eq!(cycle_delay_ms(120_000, 300_000), 180_000);
    assert_eq!(cycle_delay_ms(300_000, 300_000), 0);
    assert_eq!(cycle_delay_ms(400_000, 300_000), 0);
}

#[test]
fn summary_counts_successes_and_lists_failures() {
    let ok = |net: &str| {
        let mut r = startup_failure_result("op", net, "/dns/x", 5, String::from("e"));
        r.valid = true;
        r.status = TestStatus::Success;
        r
    };
    let bad = startup_failure_result("op2", "kusama", "/dns/y", 5, String::from("boom"));
    let results = vec![ok("polkadot"), bad, ok("westend")];
    let summary = summarize_cycle(results.len(), &results);
    assert_eq!(summary.total_tests, 3);
    assert_eq!(summary.success_count, 2);
    assert_eq!(summary.failed_tests.len(), 1);
    assert_eq!(
        summary.failed_tests[0],
        (String::from("kusama"), String::from("op2"), String::from("/dns/y"))
    );
}

#[test]
fn merge_is_idempotent() {
    let outcome = startup_failure_result("alpha", "polkadot", "/dns/a1", 7, String::from("e"));
    let mut doc = ResultDocument::new();
    doc.merge(&outcome);
    let once = format!("{:?}", doc);
    doc.merge(&outcome);
    let twice = format!("{:?}", doc);
    assert_eq!(once, twice);
}

#[test]
fn merge_keys_by_operator_then_network() {
    let a = startup_failure_result("alpha", "polkadot", "/dns/a1", 7, String::from("e1"));
    let b = startup_failure_result("alpha", "kusama", "/dns/a2", 8, String::from("e2"));
    let c = startup_failure_result("beta", "polkadot", "/dns/b1", 9, String::from("e3"));
    let mut doc = ResultDocument::new();
    doc.merge(&a);
    doc.merge(&b);
    doc.merge(&c);
    assert_eq!(doc.entries.len(), 2);
    assert_eq!(doc.entries[0].operator, "alpha");
    assert_eq!(doc.entries[0].networks.len(), 2);
    assert_eq!(doc.entries[1].operator, "beta");
    assert_eq!(doc.entries[1].networks.len(), 1);
}

#[test]
fn merge_overwrites_the_same_slot() {
    let first = startup_failure_result("alpha", "polkadot", "/dns/a1", 7, String::from("e1"));
    let mut second = startup_failure_result("alpha", "polkadot", "/dns/a1", 9, String::from("e2"));
    second.valid = true;
    second.status = TestStatus::Success;
    let mut doc = ResultDocument::new();
    doc.merge(&first);
    doc.merge(&second);
    assert_eq!(doc.entries.len(), 1);
    assert_eq!(doc.entries[0].networks.len(), 1);
    let stored = &doc.entries[0].networks[0].result;
    assert_eq!(stored.test_duration_ms, 9);
    assert_eq!(stored.status, TestStatus::Success);
    assert!(stored.valid);
}

#[test]
fn status_labels_match_the_result_file_format() {
    assert_eq!(TestStatus::Success.label(), "success");
    assert_eq!(TestStatus::MetricsUnavailable.label(), "metricsUnavailable");
    assert_eq!(TestStatus::NoMetricFound.label(), "noMetricFound");
    assert_eq!(TestStatus::Timeout.label(), "timeout");
    assert_eq!(TestStatus::NodeStartupFailed.label(), "nodeStartupFailed");
}

#[test]
fn telemetry_classifies_networks_and_protocols() {
    assert_eq!(bootnode_type_label("asset-hub-polkadot"), "parachain");
    assert_eq!(bootnode_type_label("polkadot"), "relay");
    assert_eq!(protocol_label("/dns/x/tcp/30333/wss/p2p/abc"), "websocket");
    assert_eq!(protocol_label("/dns/x/tcp/30333/p2p/abc"), "tcp");
    assert_eq!(protocol_label("/ws"), "tcp");
}

#[test]
fn telemetry_update_carries_gauge_values() {
    let mut result = startup_failure_result("alpha", "polkadot", "/dns/a1", 77, String::from("e"));
    result.discovered_peers = 4;
    let update = telemetry_update("asset-hub-polkadot", "alpha", "/a/wss/b", &result);
    assert_eq!(update.bootnode_type, "parachain");
    assert_eq!(update.protocol, "websocket");
    assert_eq!(update.discovered_peers, 4);
    assert_eq!(update.test_duration_ms, 77);
    assert_eq!(update.success_flag, 0);
    assert_eq!(update.failure_reason, Some(String::from("e")));
}

#[test]
fn decimal_rendering_is_exact() {
    assert_eq!(u64_to_string(0), "0");
    assert_eq!(u64_to_string(7), "7");
    assert_eq!(u64_to_string(9090), "9090");
    assert_eq!(u64_to_string(65535), "65535");
    assert_eq!(u64_to_string(18446744073709551615), "18446744073709551615");
}

#[test]
fn scrape_url_and_paths() {
    assert_eq!(metrics_url(9615), "http://127.0.0.1:9615/metrics");
    assert_eq!(probe_data_dir("/tmp/d", "alpha", "polkadot"), "/tmp/d/alpha_polkadot");
    assert_eq!(chain_spec_path("./chain-spec", "kusama"), "./chain-spec/kusama.json");
}

#[test]
fn relay_host_is_the_suffix_after_the_last_hyphen() {
    assert_eq!(relay_chain_host("asset-hub-polkadot"), "polkadot");
    assert_eq!(relay_chain_host("kusama"), "kusama");
    assert_eq!(relay_chain_host(""), "");
    assert_eq!(relay_rpc_url("polkadot"), "wss://polkadot.dotters.network/");
    assert!(str_eq("parachain", "parachain"));
    assert!(!str_eq("parachain", "relaychain"));
}

#[test]
fn spawn_plan_builds_the_full_argument_list() {
    let cli = sample_cli();
    let plan = spawn_plan(&cli, "alpha", "polkadot", "/dns/a1", "relaychain", 49714, 49715);
    assert_eq!(plan.binary, "/usr/local/bin/polkadot");
    assert_eq!(plan.data_dir, "/tmp/bootnode_data/alpha_polkadot");
    assert_eq!(plan.chain_spec, "./chain-spec/polkadot.json");
    let expected = vec![
        "--no-hardware-benchmarks",
        "--no-mdns",
        "--prometheus-external",
        "--prometheus-port=49714",
        "--port=49715",
        "-d",
        "/tmp/bootnode_data/alpha_polkadot",
        "--chain",
        "./chain-spec/polkadot.json",
        "--bootnodes",
        "/dns/a1",
    ];
    assert_eq!(plan.args, expected);
}

#[test]
fn spawn_plan_appends_the_relay_endpoint_for_parachains() {
    let cli = sample_cli();
    let plan = spawn_plan(&cli, "alpha", "asset-hub-polkadot", "/dns/c1", "parachain", 49716, 49717);
    assert_eq!(plan.binary, "/usr/local/bin/polkadot-parachain");
    assert_eq!(plan.args.len(), 13);
    assert_eq!(plan.args[11], "--relay-chain-rpc-urls");
    assert_eq!(plan.args[12], "wss://polkadot.dotters.network/");
}
