use new_p2p_crawler::address::NetworkType;
use new_p2p_crawler::crawler::{Crawler, WorkerStep};
use new_p2p_crawler::dns::{ip_to_host, seed_query, unique_ips, IpOctets, MAINNET_PORT, SEEDS};
use new_p2p_crawler::io_error::{IoError, IoErrorKind};
use new_p2p_crawler::preflight::{
    any_enabled_failed, has_cjdns_address, print_table, probe_candidates, probe_cjdns,
    probe_goes_on, probe_i2p, probe_ip, probe_timeout, probe_tor, run_preflight, ProbeResult, ProbedNetwork,
};
use new_p2p_crawler::probe::{
    describe_node, parse_node, print_report, probe_target, split_lines, Target,
};
use new_p2p_crawler::protocol::{build_version, parse_version};
use new_p2p_crawler::settings::{Cli, Settings};
use new_p2p_crawler::store::{AddrKey, FailKind, NodeStore};

fn key(host: &str, port: u16) -> AddrKey {
    AddrKey::new(host, port)
}

fn settings() -> Settings {
    Cli::default().into_settings().unwrap()
}

#[test]
fn parses_ipv4_with_and_without_port() {
    assert_eq!(parse_node("1.2.3.4:8333", 8333), Some(key("1.2.3.4", 8333)));
    assert_eq!(parse_node("1.2.3.4", 8333), Some(key("1.2.3.4", 8333)));
    assert_eq!(parse_node("1.2.3.4:1234", 8333), Some(key("1.2.3.4", 1234)));
}

#[test]
fn parses_bracketed_ipv6() {
    assert_eq!(
        parse_node("[2001:db8::1]:8333", 8333),
        Some(key("2001:db8::1", 8333))
    );
    assert_eq!(
        parse_node("[2001:db8::1]", 8333),
        Some(key("2001:db8::1", 8333))
    );
}

#[test]
fn parses_bare_ipv6_with_default_port() {
    // Unbracketed IPv6 has no port; the trailing group is not mistaken for one.
    assert_eq!(
        parse_node("2001:db8::1", 8333),
        Some(key("2001:db8::1", 8333))
    );
    assert_eq!(parse_node("fc00::1", 8333), Some(key("fc00::1", 8333)));
}

#[test]
fn parses_onion_and_i2p() {
    let onion = format!("{}.onion", "a".repeat(56));
    assert_eq!(
        parse_node(&format!("{onion}:8333"), 8333),
        Some(key(&onion, 8333))
    );
    let i2p = format!("{}.b32.i2p", "b".repeat(52));
    assert_eq!(parse_node(&i2p, 8333), Some(key(&i2p, 8333)));
}

#[test]
fn split_lines_drops_comments_and_blanks() {
    let content = "1.2.3.4\n\n# a comment\n5.6.7.8:8333  # trailing\n";
    assert_eq!(split_lines(content), vec!["1.2.3.4", "5.6.7.8:8333"]);
}

#[test]
fn odd_node_strings() {
    assert_eq!(parse_node("  ", 1), None);
    assert_eq!(parse_node("[::1", 1), None);
    assert_eq!(parse_node("[::1]x", 1), None);
    assert_eq!(parse_node("[::1]:70000", 1), None);
    assert_eq!(parse_node("[::1]:+7", 1), Some(key("::1", 7)));
    assert_eq!(parse_node("host:70000", 1), Some(key("host:70000", 1)));
    assert_eq!(parse_node("a:b:9", 1), Some(key("a:b", 9)));
    assert_eq!(split_lines("a\r\n b #c\r\n#"), vec!["a", "b"]);
}

#[test]
fn targets_are_nodes_of_known_networks() {
    assert!(matches!(probe_target("1.2.3.4", 8333), Target::Node(k) if k == key("1.2.3.4", 8333)));
    match probe_target("example.org", 8333) {
        Target::Skip(w) => assert_eq!(w, "skipping unrecognised address: example.org:8333"),
        Target::Node(_) => panic!("a name is no address"),
    }
    match probe_target("[::1", 8333) {
        Target::Skip(w) => assert_eq!(w, "skipping unparseable node: [::1"),
        Target::Node(_) => panic!("the bracket is open"),
    }
}

#[test]
fn reports_list_nodes_by_address() {
    let mut c = Crawler::new(NodeStore::new(), settings());
    let nodes = ["9.9.9.9", "10.0.0.1", "2001:db8::1"];
    for host in nodes {
        c.enqueue_seed(&key(host, 8333), 1);
    }
    let peer = key("9.9.9.9", 8333);
    assert!(matches!(c.take(&peer), WorkerStep::Process(_)));
    c.connected(&peer, 5);
    let mut v = parse_version(&build_version(1, 2)).unwrap();
    v.user_agent = "/a\"b/".to_string();
    c.handshake_completed(&peer, &v, 1, 2, String::new(), String::new());
    c.completed(&peer, 1);
    let failed = key("10.0.0.1", 8333);
    if let WorkerStep::Process(a) = c.take(&failed) {
        c.handshake_timed_out(&failed, &a);
    }
    let snapshot = c.store().snapshot();
    assert_eq!(
        describe_node(&snapshot[0].0, &snapshot[0].1),
        "REACHABLE         9.9.9.9:8333  (ipv4)  connect=5ms  ua=\"/a\\\"b/\""
    );
    assert_eq!(snapshot[1].1.failure, Some(FailKind::HandshakeTimeout));
    assert_eq!(
        print_report(&snapshot),
        vec![
            "\n=== Probe results ===",
            "HANDSHAKE_FAILED  10.0.0.1:8333  (ipv4)  reason=handshake_timeout  attempts=1",
            "REACHABLE         9.9.9.9:8333  (ipv4)  connect=5ms  ua=\"/a\\\"b/\"",
            "Queued          [2001:db8::1]:8333  (ipv6)",
            "\n=== Failure reasons ===",
            "    1  handshake_timeout",
        ]
    );
    assert_eq!(snapshot[2].1.network, NetworkType::Ipv6);
}

#[test]
fn resolved_addresses_are_unique_and_ordered() {
    let ips = vec![
        IpOctets::V6([1; 16]),
        IpOctets::V4([2, 0, 0, 1]),
        IpOctets::V4([1, 9, 9, 9]),
        IpOctets::V4([2, 0, 0, 1]),
        IpOctets::V6([0; 16]),
    ];
    let hosts: Vec<String> = unique_ips(&ips).into_iter().map(ip_to_host).collect();
    assert_eq!(
        hosts,
        vec!["1.9.9.9", "2.0.0.1", "::", "101:101:101:101:101:101:101:101"]
    );
    assert_eq!(SEEDS.len(), 7);
    assert_eq!(MAINNET_PORT, 8333);
    assert_eq!(seed_query("dnsseed.emzy.de."), "dnsseed.emzy.de:8333");
    assert_eq!(seed_query("plain"), "plain:8333");
}

#[test]
fn probes_try_a_few_nodes_of_one_family() {
    let ips: Vec<IpOctets> = (0..4)
        .flat_map(|i| [IpOctets::V4([1, 1, 1, i]), IpOctets::V6([i; 16])])
        .collect();
    assert_eq!(
        probe_candidates(&ips, false, 0),
        vec!["1.1.1.0", "1.1.1.1", "1.1.1.2", "1.1.1.3"]
    );
    assert_eq!(probe_candidates(&ips, false, 4), vec!["1.1.1.0"]);
    assert!(probe_candidates(&ips, true, 5).is_empty());
    assert!(probe_goes_on(4));
    assert!(!probe_goes_on(5));
    assert!(probe_ip(0, true).is_ok());
    assert_eq!(
        probe_ip(0, false).render(),
        "unreachable (no seed addresses resolved for this family)"
    );
    assert_eq!(
        probe_ip(2, false).render(),
        "unreachable (no resolved node accepted a connection)"
    );
}

#[test]
fn cjdns_is_found_in_the_interface_table() {
    let lo = "00000000000000000000000000000001 01 80 10 80       lo\n";
    let tun = "fc000000000000000000000000000001 02 08 00 80     tun0\n";
    assert!(!has_cjdns_address(lo));
    assert!(has_cjdns_address(&format!("{lo}{tun}")));
    assert!(!has_cjdns_address("fc00\n"));
    assert!(!has_cjdns_address("fc0000000000000000000000000000zz 02\n"));
    assert!(probe_cjdns(Some(tun)).is_ok());
    assert_eq!(probe_cjdns(None).render(), "unreachable (no cjdns interface)");
}

#[test]
fn preflight_table() {
    let mut cli = Cli::default();
    cli.common.no_i2p = true;
    let s = cli.into_settings().unwrap();
    let refused = || Err(IoError::new(IoErrorKind::ConnectionRefused, "refused"));
    let rows = run_preflight(
        &s,
        ProbeResult::Reachable,
        probe_ip(1, true),
        probe_tor(&s, refused()),
        probe_i2p(&s, refused()),
        probe_cjdns(None),
    );
    let (lines, all_ok) = print_table(&rows);
    assert!(!all_ok);
    assert_eq!(
        lines,
        vec![
            "Network  Enabled  Probe result",
            "ipv4     yes      reachable",
            "ipv6     yes      reachable",
            "tor      yes      unreachable (SOCKS5 proxy 127.0.0.1:9050: refused)",
            "i2p      no       skipped",
            "cjdns    yes      unreachable (no cjdns interface)",
        ]
    );
    assert_eq!(
        any_enabled_failed(&rows),
        vec![
            "tor: unreachable (SOCKS5 proxy 127.0.0.1:9050: refused)",
            "cjdns: unreachable (no cjdns interface)",
        ]
    );
    assert!(probe_i2p(&s, Ok(())).is_ok());
    assert_eq!(
        probe_i2p(&s, refused()).render(),
        "unreachable (SAM router 127.0.0.1:7656: refused)"
    );
    assert_eq!(probe_timeout(&s, ProbedNetwork::Ipv6), 3);
    assert_eq!(probe_timeout(&s, ProbedNetwork::Tor), 100);
    assert_eq!(probe_timeout(&s, ProbedNetwork::I2p), 30);
    let ok = run_preflight(
        &s,
        ProbeResult::Reachable,
        ProbeResult::Reachable,
        ProbeResult::Reachable,
        ProbeResult::Skipped,
        ProbeResult::Reachable,
    );
    assert!(print_table(&ok).1);
    assert!(any_enabled_failed(&ok).is_empty());
}

#[test]
fn rendered_nodes_parse_back() {
    let onion = format!("{}.onion", "a".repeat(16));
    let i2p = format!("{}.b32.i2p", "a".repeat(52));
    for host in ["1.2.3.4", "2001:db8::1", "::ffff:1.2.3.4", "fc00::1", &onion, &i2p] {
        let node = key(host, 65535);
        assert_eq!(parse_node(&node.render(), 1), Some(node));
    }
}
