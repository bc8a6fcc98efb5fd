use new_p2p_crawler::address::{NetworkType, Transport};
use new_p2p_crawler::settings::{
    join_path, parse_duration, Cli, CommonArgs, ConfigError, PKG_VERSION,
};

#[test]
fn duration_parsing() {
    assert_eq!(parse_duration("172800").unwrap(), 172800);
    assert_eq!(parse_duration("2d").unwrap(), 172800);
    assert_eq!(parse_duration("48h").unwrap(), 172800);
    assert_eq!(parse_duration("0").unwrap(), 0);
    assert!(parse_duration("2x").is_err());
}

#[test]
fn durations_in_every_form() {
    assert_eq!(parse_duration(" 10m ").unwrap(), 600);
    assert_eq!(parse_duration("15s").unwrap(), 15);
    assert_eq!(parse_duration("-5").unwrap(), -5);
    assert_eq!(parse_duration("+7").unwrap(), 7);
    assert_eq!(parse_duration("-9223372036854775808").unwrap(), i64::MIN);
    assert_eq!(
        parse_duration("2x").unwrap_err().message(),
        "unknown duration unit: x"
    );
    for bad in ["", "d", "+2d", "99999999999999999999", "9223372036854775807d"] {
        assert_eq!(
            parse_duration(bad).unwrap_err().message(),
            format!("invalid duration: {bad}")
        );
    }
}

#[test]
fn default_settings() {
    let s = Cli::default().into_settings().unwrap();
    assert_eq!(s.version_info.version, PKG_VERSION);
    assert_eq!(s.freshness_threshold, 172800);
    assert_eq!(s.checkpoint_interval, 600);
    assert_eq!(s.max_nodes, None);
    assert_eq!(s.max_addresses, 1_000_000);
    assert_eq!((s.concurrency.ip, s.concurrency.tor, s.concurrency.i2p), (64, 64, 32));
    assert!(s.record_addr_responses && s.store_debug_log && !s.probe_mode);
    assert_eq!(s.node_settings.handshake_attempts, 3);
    assert_eq!(s.timeouts_for(NetworkType::Ipv6).getaddr, 70);
    assert_eq!(s.timeouts_for(NetworkType::OnionV3).connect, 100);
    assert_eq!(s.timeouts_for(NetworkType::I2p).message, 80);
    assert_eq!(s.timeouts_for(NetworkType::Cjdns).connect, 10);
    assert_eq!(s.timeouts_for(NetworkType::Unknown).connect, 3);
    for net in [
        NetworkType::Ipv4,
        NetworkType::Ipv6,
        NetworkType::Cjdns,
        NetworkType::OnionV2,
        NetworkType::OnionV3,
        NetworkType::I2p,
    ] {
        assert!(s.is_enabled(net));
    }
    assert!(!s.is_enabled(NetworkType::Unknown));
    assert_eq!(s.result_settings.reachable_nodes, "reachable_nodes.csv");
}

#[test]
fn runs_are_named_after_their_start() {
    let s = Cli::default().into_settings().unwrap();
    let stamp = &s.result_settings.timestamp;
    // Date, time and nine digits of a second.
    assert_eq!(stamp.len(), "2024-01-01T00-00-00.000000000Z".len());
    assert!(stamp.ends_with('Z') && !stamp.contains('%'));
    let form: String = stamp
        .chars()
        .map(|c| if c.is_ascii_digit() { '#' } else { c })
        .collect();
    assert_eq!(form, "####-##-##T##-##-##.#########Z");
    let mut cli = Cli::default();
    cli.common.timestamp = Some("run".to_string());
    cli.common.result_path = "out".to_string();
    let s = cli.into_settings().unwrap();
    assert_eq!(s.prefix(), "run_v0.1.0");
    assert_eq!(s.run_dir(), "out/run_v0.1.0");
    assert_eq!(s.output_path("a.csv"), "out/run_v0.1.0/a.csv");
    let at = CommonArgs::default()
        .into_settings_at(0, Some(3), true, "then".to_string())
        .unwrap();
    assert_eq!(at.result_settings.timestamp, "then");
    assert!(at.probe_mode);
    assert_eq!(at.max_nodes, Some(3));
}

#[test]
fn paths_are_joined() {
    assert_eq!(join_path("a", "b"), "a/b");
    assert_eq!(join_path("a/", "b"), "a/b");
    assert_eq!(join_path("", "b"), "b");
    assert_eq!(join_path("a", "/b"), "/b");
}

#[test]
fn worker_counts_are_checked() {
    let mut cli = Cli::default();
    cli.common.tor_concurrency = 0;
    let e = cli.into_settings().unwrap_err();
    assert!(matches!(e, ConfigError::NoWorkers(Transport::Tor)));
    assert_eq!(
        e.message(),
        "--tor-concurrency must be at least 1 while its networks are enabled"
    );
    let mut cli = Cli::default();
    cli.common.tor_concurrency = 0;
    cli.common.no_tor = true;
    assert!(cli.into_settings().is_ok());
    let mut cli = Cli::default();
    cli.common.ip_concurrency = 0;
    cli.common.no_ipv4 = true;
    cli.common.no_ipv6 = true;
    assert!(cli.into_settings().is_err());
    let mut cli = Cli::default();
    cli.common.i2p_concurrency = 4097;
    let e = cli.into_settings().unwrap_err();
    assert!(matches!(e, ConfigError::TooManyWorkers(Transport::I2p)));
    assert_eq!(e.message(), "--i2p-concurrency must not exceed 4096");
    let mut cli = Cli::default();
    cli.common.i2p_concurrency = 4096;
    assert!(cli.into_settings().is_ok());
}

#[test]
fn flags_override_each_other() {
    let mut cli = Cli::default();
    cli.no_freshness_filter = true;
    cli.freshness_threshold = "nonsense".to_string();
    cli.common.no_ipv4 = true;
    cli.common.no_ipv6 = true;
    cli.common.ipv6 = true;
    cli.common.no_record_addr_responses = true;
    cli.common.no_store_debug_log = true;
    let s = cli.into_settings().unwrap();
    assert_eq!(s.freshness_threshold, 0);
    assert!(!s.is_enabled(NetworkType::Ipv4));
    assert!(s.is_enabled(NetworkType::Ipv6));
    assert!(!s.record_addr_responses);
    assert!(!s.store_debug_log);
    let mut cli = Cli::default();
    cli.freshness_threshold = "nonsense".to_string();
    assert!(cli.into_settings().is_err());
}
