use new_p2p_crawler::address::{NetworkType, Transport};
use new_p2p_crawler::crawler::{
    classify_connect_error, classify_handshake_error, epoch_seconds, format_eta,
    is_getaddr_reply_complete, next_wait, now_epoch, route, Attempt, Crawler, ProcessAction,
    ProcessEvent, Route, Verdict, WorkerStep,
};
use new_p2p_crawler::dns::{seed_crawl, IpOctets};
use new_p2p_crawler::io_error::{IoError, IoErrorKind};
use new_p2p_crawler::protocol::{
    build_version, parse_version, AdvertisedAddr, ParsedAddrMessage, MAX_ADDR_TO_SEND,
};
use new_p2p_crawler::settings::{Cli, Settings};
use new_p2p_crawler::store::{AddrKey, CollectionOutcome, FailKind, NodeEntry, NodeState, NodeStore};
use std::time::Duration;

fn error(kind: IoErrorKind, message: &str) -> IoError {
    IoError::new(kind, message)
}

fn os_error(code: i32) -> IoError {
    IoError {
        kind: IoErrorKind::Other,
        raw_os_error: Some(code),
        message: String::new(),
    }
}

fn settings(change: impl FnOnce(&mut Cli)) -> Settings {
    let mut cli = Cli::default();
    change(&mut cli);
    cli.into_settings().unwrap()
}

fn crawl(change: impl FnOnce(&mut Cli)) -> Crawler {
    Crawler::new(NodeStore::new(), settings(change))
}

fn entry<'a>(c: &'a Crawler, key: &AddrKey) -> &'a NodeEntry {
    c.store().entry(key).unwrap()
}

fn take(c: &mut Crawler, key: &AddrKey) -> Attempt {
    match c.take(key) {
        WorkerStep::Process(a) => a,
        WorkerStep::Discard => panic!("there is no node limit"),
    }
}

#[test]
fn connect_errors_classify_by_kind() {
    let refused = error(IoErrorKind::ConnectionRefused, "");
    assert_eq!(
        classify_connect_error(&refused, NetworkType::Ipv4),
        FailKind::ConnectRefused
    );
    let timeout = error(IoErrorKind::TimedOut, "tcp connect timed out");
    assert_eq!(
        classify_connect_error(&timeout, NetworkType::Ipv4),
        FailKind::ConnectTimeout
    );
}

#[test]
fn opaque_connect_errors_fall_back_to_transport() {
    // SOCKS5/SAM failures surface as Other; the transport decides.
    let other = error(IoErrorKind::Other, "socks5 connect failed: REP=0x05");
    assert_eq!(
        classify_connect_error(&other, NetworkType::OnionV3),
        FailKind::ProxyError
    );
    assert_eq!(
        classify_connect_error(&other, NetworkType::I2p),
        FailKind::SamError
    );
    assert_eq!(
        classify_connect_error(&other, NetworkType::Ipv6),
        FailKind::ConnectOther
    );
}

#[test]
fn unreachable_os_errors_are_detected() {
    // ENETUNREACH / EHOSTUNREACH on Linux.
    assert_eq!(
        classify_connect_error(&os_error(101), NetworkType::Ipv4),
        FailKind::ConnectUnreachable
    );
    assert_eq!(
        classify_connect_error(&os_error(113), NetworkType::Ipv4),
        FailKind::ConnectUnreachable
    );
}

#[test]
fn handshake_errors_classify_by_kind() {
    let desync = error(IoErrorKind::InvalidData, "network magic mismatch");
    assert_eq!(classify_handshake_error(&desync), FailKind::ProtocolDesync);
    let eof = error(IoErrorKind::UnexpectedEof, "");
    assert_eq!(classify_handshake_error(&eof), FailKind::ConnectionClosed);
    let other = error(IoErrorKind::Other, "weird");
    assert_eq!(classify_handshake_error(&other), FailKind::HandshakeOther);
}

#[test]
fn getaddr_reply_completion_ignores_self_announcements() {
    assert!(!is_getaddr_reply_complete(0));
    assert!(!is_getaddr_reply_complete(1));
    assert!(is_getaddr_reply_complete(2));
    assert!(is_getaddr_reply_complete(MAX_ADDR_TO_SEND - 1));
    assert!(is_getaddr_reply_complete(MAX_ADDR_TO_SEND));
}

#[test]
fn eta_is_formatted_for_humans() {
    assert_eq!(format_eta(Duration::from_secs(42).as_secs()), "42s");
    assert_eq!(format_eta(Duration::from_secs(192).as_secs()), "3m 12s");
    assert_eq!(format_eta(Duration::from_secs(7_445).as_secs()), "2h 4m 5s");
    assert_eq!(format_eta(Duration::from_secs(93_720).as_secs()), "1d 2h 2m");
}

#[test]
fn node_limit_counts_every_processing_iteration() {
    // crawler --max-nodes 2 --no-ipv4 --no-ipv6 --no-tor --no-i2p --no-cjdns
    let mut cli = Cli::default();
    cli.max_nodes = Some(2);
    cli.common.no_ipv4 = true;
    cli.common.no_ipv6 = true;
    cli.common.no_tor = true;
    cli.common.no_i2p = true;
    cli.common.no_cjdns = true;
    let settings = cli.into_settings().unwrap();
    let mut crawler = Crawler::new(NodeStore::new(), settings);

    assert!(crawler.reserve_node_slot());
    assert!(crawler.reserve_node_slot());
    assert!(!crawler.reserve_node_slot());
    assert_eq!(crawler.num_processed(), 2);
    assert!(crawler.terminated_early());
}

#[test]
fn remaining_connect_errors() {
    for kind in [IoErrorKind::ConnectionReset, IoErrorKind::ConnectionAborted] {
        let e = error(kind, "");
        assert_eq!(
            classify_connect_error(&e, NetworkType::I2p),
            FailKind::ConnectReset
        );
        assert_eq!(classify_handshake_error(&e), FailKind::ConnectionClosed);
    }
    assert_eq!(
        classify_handshake_error(&error(IoErrorKind::BrokenPipe, "")),
        FailKind::ConnectionClosed
    );
    assert_eq!(route(NetworkType::Cjdns).unwrap(), Route::Tcp);
    assert_eq!(route(NetworkType::OnionV3).unwrap(), Route::Socks5);
    assert_eq!(route(NetworkType::I2p).unwrap(), Route::Sam);
    assert_eq!(
        route(NetworkType::Unknown).unwrap_err().message,
        "unknown network type has no transport"
    );
}

#[test]
fn clocks_and_waits() {
    assert!(now_epoch() > 1_600_000_000);
    assert_eq!(epoch_seconds(None), 0);
    assert_eq!(epoch_seconds(Some(5)), 5);
    assert_eq!(epoch_seconds(Some(u64::MAX)), -1);
    assert_eq!(next_wait(10, 10, 3), None);
    assert_eq!(next_wait(8, 10, 3), Some(2));
    assert_eq!(next_wait(1, 10, 3), Some(3));
}

#[test]
fn a_reachable_node_from_seed_to_end() {
    let mut c = crawl(|_| {});
    let key = AddrKey::new("1.2.3.4", 8333);
    assert_eq!(c.enqueue_seed(&key, 100), Some(Transport::Ip));
    assert_eq!(c.enqueue_seed(&key, 200), None);
    assert!(c.is_queued(&key));
    assert_eq!(c.store().outstanding(), 1);
    let a = take(&mut c, &key);
    assert_eq!((a.network, a.number, a.timeouts.connect), (NetworkType::Ipv4, 1, 3));
    assert_eq!(entry(&c, &key).attempts[0].outcome, "started");
    c.connected(&key, 12);
    c.version_sent(&key, 555);
    let v = parse_version(&build_version(9, 10)).unwrap();
    let hd = c.handshake_completed(&key, &v, 555, 77, "l".to_string(), "p".to_string());
    assert_eq!(hd.requested_endpoint, "1.2.3.4:8333");
    assert_eq!(hd.version_addr_from.as_deref(), Some("0.0.0.0:0"));
    assert_eq!(hd.socket_peer, "p");
    c.collection_ended(&key, CollectionOutcome::CompleteQuiet);
    assert!(c.completed(&key, 555));
    let e = entry(&c, &key);
    assert_eq!(e.state, NodeState::Reachable);
    assert_eq!(e.freshest_ts, 200);
    assert_eq!(e.attempts.len(), 1);
    assert_eq!(e.attempts[0].outcome, "handshake_complete");
    assert_eq!(e.attempts[0].connect_duration_ms, Some(12));
    assert_eq!(e.attempts[0].version_send_timestamp, Some(555));
    assert_eq!(e.stats.collection_outcome, CollectionOutcome::CompleteQuiet);
    assert_eq!(e.stats.first_version_send_ts, Some(555));
    assert_eq!(c.store().outstanding(), 0);
    assert_eq!(c.num_processed(), 1);
    assert!(!c.terminated_early());
    assert!(c.result().is_ok());
    let s = c.status();
    assert_eq!((s.reachable, s.completed, s.remaining), (1, 1, 0));
}

#[test]
fn failed_connects_are_retried_up_to_the_limit() {
    let mut c = crawl(|_| {});
    let key = AddrKey::new("1.2.3.4", 8333);
    c.enqueue_seed(&key, 1);
    let e = error(IoErrorKind::TimedOut, "");
    for number in 1..3 {
        let a = take(&mut c, &key);
        assert_eq!(a.number, number);
        assert_eq!(
            c.connect_failed(&key, &a, &e),
            Verdict::Retry {
                on_closed: NodeState::Unreachable,
                reason: FailKind::ConnectTimeout
            }
        );
        assert!(c.is_queued(&key));
        assert_eq!(c.store().outstanding(), 1);
    }
    let a = take(&mut c, &key);
    assert_eq!(c.connect_failed(&key, &a, &e), Verdict::Ended { close: true });
    let n = entry(&c, &key);
    assert_eq!(n.state, NodeState::Unreachable);
    assert_eq!(n.failure, Some(FailKind::ConnectTimeout));
    assert_eq!(n.attempts.len(), 3);
    assert_eq!(n.attempts[2].attempt, 3);
    assert_eq!(n.attempts[2].outcome, "connect_failed");
    // Ending it again changes nothing.
    assert!(!c.retry_rejected(&key, NodeState::HandshakeFailed, FailKind::ConnectOther));
    assert_eq!(entry(&c, &key).state, NodeState::Unreachable);
}

#[test]
fn a_node_that_connected_once_is_not_unreachable() {
    let mut c = crawl(|cli| cli.common.handshake_attempts = 2);
    let key = AddrKey::new("1.2.3.4", 8333);
    c.enqueue_seed(&key, 1);
    let a = take(&mut c, &key);
    c.connected(&key, 3);
    let verdict = c.handshake_failed(&key, &a, FailKind::ConnectionClosed);
    assert_eq!(
        verdict,
        Verdict::Retry {
            on_closed: NodeState::HandshakeFailed,
            reason: FailKind::ConnectionClosed
        }
    );
    let a = take(&mut c, &key);
    let verdict = c.connect_failed(&key, &a, &error(IoErrorKind::ConnectionRefused, ""));
    assert_eq!(verdict, Verdict::Ended { close: true });
    let n = entry(&c, &key);
    assert_eq!(n.state, NodeState::HandshakeFailed);
    assert_eq!(n.failure, Some(FailKind::ConnectRefused));
}

#[test]
fn silence_is_retried_only_on_request() {
    let key = AddrKey::new("1.2.3.4", 8333);
    let mut c = crawl(|_| {});
    c.enqueue_seed(&key, 1);
    let a = take(&mut c, &key);
    assert_eq!(c.handshake_timed_out(&key, &a), Verdict::Ended { close: true });
    assert_eq!(entry(&c, &key).failure, Some(FailKind::HandshakeTimeout));
    let mut c = crawl(|cli| cli.common.retry_on_timeout = true);
    c.enqueue_seed(&key, 1);
    let a = take(&mut c, &key);
    assert!(matches!(c.handshake_timed_out(&key, &a), Verdict::Retry { .. }));
    // The queue is closed by now.
    assert!(c.retry_rejected(&key, NodeState::HandshakeFailed, FailKind::HandshakeTimeout));
    assert_eq!(entry(&c, &key).state, NodeState::HandshakeFailed);
}

#[test]
fn node_limit_discards_what_is_left() {
    let mut c = crawl(|cli| cli.max_nodes = Some(1));
    let a = AddrKey::new("1.1.1.1", 8333);
    let b = AddrKey::new("2.2.2.2", 8333);
    c.enqueue_seed(&a, 1);
    c.enqueue_seed(&b, 1);
    take(&mut c, &a);
    assert!(matches!(c.take(&b), WorkerStep::Discard));
    assert_eq!(entry(&c, &b).state, NodeState::BudgetDiscarded);
    assert_eq!(c.store().outstanding(), 1);
    assert!(c.terminated_early());
}

#[test]
fn failures_of_the_crawl_itself() {
    let mut c = crawl(|_| {});
    let key = AddrKey::new("1.2.3.4", 8333);
    c.enqueue_seed(&key, 1);
    take(&mut c, &key);
    assert!(c.worker_task_failed(&key));
    assert_eq!(entry(&c, &key).failure, Some(FailKind::WorkerFailed));
    assert!(c.shutdown_requested());
    assert_eq!(c.result(), Err("one or more worker tasks failed"));
    let mut c = crawl(|_| {});
    c.mark_output_failed();
    assert_eq!(c.result(), Err("address observation log failed"));
    c.request_shutdown();
    assert!(c.terminated_early());
    let mut c = crawl(|_| {});
    c.mark_worker_failed();
    assert!(c.shutdown_requested() && c.result().is_err());
    c.enqueue_seed(&key, 1);
    c.enqueue_rejected(&key);
    assert_eq!(entry(&c, &key).state, NodeState::BudgetDiscarded);
    assert_eq!(c.store().outstanding(), 0);
}

fn advertised(host: &str, network: NetworkType, timestamp: i64) -> AdvertisedAddr {
    AdvertisedAddr {
        host: host.to_string(),
        port: 8333,
        network,
        timestamp,
        services: 0,
        wire_network_id: 1,
    }
}

#[test]
fn advertised_addresses_feed_the_frontier() {
    let mut c = crawl(|cli| {
        cli.common.no_i2p = true;
        cli.common.max_addresses = 1000;
    });
    let peer = AddrKey::new("9.9.9.9", 8333);
    c.enqueue_seed(&peer, 1_000_000);
    take(&mut c, &peer);
    let message = ParsedAddrMessage {
        declared_count: 6,
        addrs: vec![
            advertised("1.1.1.1", NetworkType::Ipv4, 1_000_000),
            advertised("2.2.2.2", NetworkType::Ipv4, 1),
            advertised("2001:db8::1", NetworkType::Ipv6, 999_999),
            advertised("x.b32.i2p", NetworkType::I2p, 1_000_000),
            advertised("9.9.9.9", NetworkType::Ipv4, 1_000_001),
        ],
        unknown_entries: 1,
    };
    assert!(c.can_count(&peer, 6));
    c.record_advertised(&peer, &message);
    c.count_valid_message(&peer);
    let s = entry(&c, &peer).stats;
    assert_eq!(s.advertised_total, 6);
    assert_eq!((s.advertised_ipv4, s.advertised_ipv6, s.advertised_i2p), (3, 1, 1));
    assert_eq!((s.advertised_unknown, s.valid_addr_messages), (1, 1));
    let mut sent = c.feed_frontier(&message.addrs, 1_000_000);
    sent.sort_by_key(|(key, _)| key.render());
    let hosts: Vec<String> = sent.iter().map(|(key, _)| key.host.clone()).collect();
    assert_eq!(hosts, vec!["1.1.1.1", "2001:db8::1"]);
    assert!(sent.iter().all(|(_, t)| *t == Transport::Ip));
    assert_eq!(c.store().outstanding(), 3);
    assert_eq!(c.store().len(), 4);
    assert_eq!(
        entry(&c, &AddrKey::new("2.2.2.2", 8333)).state,
        NodeState::StaleDiscarded
    );
    assert_eq!(entry(&c, &peer).freshest_ts, 1_000_001);
    // A second look at the same message queues nothing.
    assert!(c.feed_frontier(&message.addrs, 1_000_000).is_empty());
    c.count_malformed_message(&peer);
    assert_eq!(entry(&c, &peer).stats.malformed_addr_messages, 1);
}

#[test]
fn frontier_order_is_random_but_complete() {
    let addrs: Vec<AdvertisedAddr> = (0..200)
        .map(|i| advertised(&format!("10.0.0.{i}"), NetworkType::Ipv4, 1000))
        .collect();
    let mut c = crawl(|_| {});
    let sent = c.feed_frontier(&addrs, 1000);
    assert_eq!(sent.len(), 200);
    let listed: Vec<String> = addrs.iter().map(|a| a.host.clone()).collect();
    let order: Vec<String> = sent.iter().map(|(k, _)| k.host.clone()).collect();
    assert_ne!(order, listed);
    let mut sorted = order.clone();
    sorted.sort();
    let mut want = listed.clone();
    want.sort();
    assert_eq!(sorted, want);
    let mut c = crawl(|_| {});
    let sent = c.feed_in_order(&addrs, &vec![5, 3, 5], 1000);
    let order: Vec<String> = sent.iter().map(|(k, _)| k.host.clone()).collect();
    assert_eq!(order, vec!["10.0.0.5", "10.0.0.3"]);
}

#[test]
fn dns_answers_seed_the_crawl() {
    let mut c = crawl(|cli| cli.common.no_ipv6 = true);
    let mut mapped = [0u8; 16];
    mapped[10] = 0xff;
    mapped[11] = 0xff;
    mapped[15] = 7;
    let ips = vec![
        IpOctets::V4([1, 2, 3, 4]),
        IpOctets::V6([0x20; 16]),
        IpOctets::V6(mapped),
        IpOctets::V4([1, 2, 3, 4]),
    ];
    let (list, sent) = seed_crawl(&mut c, &ips, 5);
    let hosts: Vec<&str> = list.iter().map(|(k, _)| k.host.as_str()).collect();
    assert_eq!(hosts, vec!["1.2.3.4", "0.0.0.7", "1.2.3.4"]);
    assert_eq!(sent.len(), 2);
    assert_eq!(c.store().outstanding(), 2);
}

fn completed_event() -> ProcessEvent {
    ProcessEvent::HandshakeCompleted {
        version: parse_version(&build_version(9, 10)).unwrap(),
        sent_ts: 3,
        duration_ms: 4,
        socket_local: "l".to_string(),
        socket_peer: "p".to_string(),
    }
}

#[test]
fn work_on_an_address_goes_step_by_step() {
    let mut c = crawl(|_| {});
    let key = AddrKey::new("1.2.3.4", 8333);
    c.enqueue_seed(&key, 1);
    let a = take(&mut c, &key);
    let action = c.process_step(&key, &a, ProcessEvent::Connected(5));
    assert!(matches!(action, ProcessAction::Handshake));
    match c.process_step(&key, &a, completed_event()) {
        ProcessAction::Collect(hd) => assert_eq!(hd.handshake_timestamp, 3),
        _ => panic!("addresses are collected next"),
    }
    let ended = ProcessEvent::CollectionEnded {
        outcome: CollectionOutcome::NoResponseTimeout,
        sent_ts: 3,
    };
    let action = c.process_step(&key, &a, ended);
    assert!(matches!(action, ProcessAction::Done { close: true }));
    assert_eq!(entry(&c, &key).state, NodeState::Reachable);
    assert_eq!(
        entry(&c, &key).stats.collection_outcome,
        CollectionOutcome::NoResponseTimeout
    );
}

#[test]
fn probe_mode_collects_nothing() {
    let settings = new_p2p_crawler::settings::CommonArgs::default()
        .into_settings(0, None, true)
        .unwrap();
    let mut c = Crawler::new(NodeStore::new(), settings);
    let key = AddrKey::new("1.2.3.4", 8333);
    c.enqueue_seed(&key, 1);
    let a = take(&mut c, &key);
    c.process_step(&key, &a, ProcessEvent::Connected(5));
    let action = c.process_step(&key, &a, completed_event());
    assert!(matches!(action, ProcessAction::Done { close: true }));
    assert_eq!(entry(&c, &key).state, NodeState::Reachable);
    assert_eq!(
        entry(&c, &key).stats.collection_outcome,
        CollectionOutcome::NotRequested
    );
}

#[test]
fn failed_steps_are_settled() {
    let mut c = crawl(|cli| cli.common.handshake_attempts = 1);
    let events = [
        (
            "1.1.1.1",
            ProcessEvent::ConnectFailed(error(IoErrorKind::ConnectionRefused, "")),
            NodeState::Unreachable,
            FailKind::ConnectRefused,
        ),
        (
            "2.2.2.2",
            ProcessEvent::HandshakeTimedOut,
            NodeState::HandshakeFailed,
            FailKind::HandshakeTimeout,
        ),
        (
            "3.3.3.3",
            ProcessEvent::HandshakeFailed(FailKind::MalformedVersion),
            NodeState::HandshakeFailed,
            FailKind::MalformedVersion,
        ),
    ];
    for (host, event, state, reason) in events {
        let key = AddrKey::new(host, 8333);
        c.enqueue_seed(&key, 1);
        let a = take(&mut c, &key);
        let action = c.process_step(&key, &a, event);
        assert!(matches!(action, ProcessAction::Settle(Verdict::Ended { close: true })));
        assert_eq!(entry(&c, &key).state, state);
        assert_eq!(entry(&c, &key).failure, Some(reason));
    }
}

#[test]
fn ending_an_address_in_any_way_happens_once() {
    let ways = [
        (NodeState::Reachable, None),
        (NodeState::Unreachable, None),
        (NodeState::HandshakeFailed, Some(FailKind::ConnectRefused)),
        (NodeState::Reachable, Some(FailKind::ConnectTimeout)),
    ];
    for (terminal, reason) in ways {
        let mut c = crawl(|_| {});
        let (a, b) = (AddrKey::new("1.1.1.1", 8333), AddrKey::new("2.2.2.2", 8333));
        c.enqueue_seed(&a, 0);
        c.enqueue_seed(&b, 0);
        assert!(!c.finish(&a, terminal, reason));
        assert_eq!(c.store().outstanding(), 1);
        assert!(!c.finish(&a, NodeState::Unreachable, Some(FailKind::ConnectionClosed)));
        assert_eq!(entry(&c, &a).state, terminal);
        assert_eq!(entry(&c, &a).failure, reason);
        assert_eq!(entry(&c, &b).state, NodeState::Queued);
        assert!(c.finish(&b, terminal, reason));
        assert_eq!(c.store().outstanding(), 0);
        assert!(!c.finish(&AddrKey::new("9.9.9.9", 1), terminal, reason));
    }
}
