use new_p2p_crawler::address::NetworkType;
use new_p2p_crawler::store::{
    AddrKey, CollectionOutcome, FailKind, FrontierOutcome, NetworkBreakdown, NodeState, NodeStats,
    NodeStore,
};

#[test]
fn unique_address_budget_is_strict_and_counted() {
    let mut store = NodeStore::with_limit(1);
    assert!(store.is_empty());
    assert!(
        store
            .observe_seed(AddrKey::new("1.2.3.4", 8333), 1)
            .newly_queued
    );
    assert!(
        !store
            .observe_seed(AddrKey::new("5.6.7.8", 8333), 1)
            .newly_queued
    );
    assert_eq!(store.len(), 1);
    assert_eq!(store.budget_rejected(), 1);
}

#[test]
fn seeds_are_known_by_host_and_port() {
    let mut store = NodeStore::new();
    assert!(store.observe_seed(AddrKey::new("1.2.3.4", 8333), 5).newly_queued);
    assert!(!store.observe_seed(AddrKey::new("1.2.3.4", 8333), 3).newly_queued);
    assert!(store.observe_seed(AddrKey::new("1.2.3.4", 8334), 5).newly_queued);
    assert_eq!(store.len(), 2);
    let key = AddrKey::new("1.2.3.4", 8333);
    assert_eq!(store.entry(&key).unwrap().freshest_ts, 5);
    assert_eq!(store.network_of(&key), Some(NetworkType::Ipv4));
    assert_eq!(store.network_of(&AddrKey::new("9.9.9.9", 1)), None);
    assert_eq!(key.render(), "1.2.3.4:8333");
    assert_eq!(key, key.clone());
}

#[test]
fn frontier_filters_stale_addresses() {
    let mut store = NodeStore::with_limit(2);
    let key = || AddrKey::new("2001:db8::1", 8333);
    let net = NetworkType::Ipv6;
    assert_eq!(
        store.frontier_upsert(key(), 10, net, 100, 1000),
        FrontierOutcome::StaleNew
    );
    assert_eq!(
        store.frontier_upsert(key(), 20, net, 100, 1000),
        FrontierOutcome::StillStale
    );
    assert_eq!(store.entry(&key()).unwrap().freshest_ts, 20);
    assert_eq!(
        store.frontier_upsert(key(), 900, net, 100, 1000),
        FrontierOutcome::Enqueue
    );
    assert_eq!(
        store.frontier_upsert(key(), 950, net, 100, 1000),
        FrontierOutcome::Known
    );
    // An older observation does not turn the time back.
    store.frontier_upsert(key(), 1, net, 100, 1000);
    assert_eq!(store.entry(&key()).unwrap().freshest_ts, 950);
    // A threshold of zero turns the filter off.
    assert_eq!(
        store.frontier_upsert(AddrKey::new("1.1.1.1", 1), 0, NetworkType::Ipv4, 0, 1000),
        FrontierOutcome::Enqueue
    );
    assert_eq!(
        store.frontier_upsert(AddrKey::new("2.2.2.2", 1), 999, NetworkType::Ipv4, 0, 1000),
        FrontierOutcome::BudgetRejected
    );
    assert_eq!(store.budget_rejected(), 1);
    assert_eq!(store.count_state(NodeState::Queued), 2);
}

#[test]
fn entries_change_in_place() {
    let mut store = NodeStore::default();
    let key = AddrKey::new("1.2.3.4", 8333);
    store.observe_seed(key.clone(), 7);
    let was = store.with_entry(&key, |e| {
        let was = e.state;
        e.state = NodeState::Processing;
        was
    });
    assert_eq!(was, Some(NodeState::Queued));
    assert_eq!(store.count_state(NodeState::Processing), 1);
    assert_eq!(store.with_entry(&AddrKey::new("8.8.8.8", 1), |_| 1), None);
    let snapshot = store.snapshot();
    assert_eq!(snapshot.len(), 1);
    assert_eq!(snapshot[0].0, key);
    assert_eq!(snapshot[0].1.freshest_ts, 7);
}

#[test]
fn outstanding_work_is_counted() {
    let mut store = NodeStore::new();
    store.incr_outstanding();
    store.incr_outstanding();
    assert_eq!(store.outstanding(), 2);
    assert_eq!(store.decr_outstanding(), 2);
    assert_eq!(store.decr_outstanding(), 1);
    assert_eq!(store.outstanding(), 0);
}

#[test]
fn breakdowns_add_up() {
    let all = [
        NetworkType::Ipv4,
        NetworkType::Ipv6,
        NetworkType::Cjdns,
        NetworkType::OnionV2,
        NetworkType::OnionV3,
        NetworkType::I2p,
        NetworkType::Unknown,
        NetworkType::I2p,
    ];
    let mut b = NetworkBreakdown::default();
    let mut s = NodeStats::default();
    for net in all {
        b.add(net);
        s.record_advertised(net);
    }
    assert_eq!(b.total, 8);
    assert_eq!((b.ipv4, b.ipv6, b.cjdns, b.onion_v2), (1, 1, 1, 1));
    assert_eq!((b.onion_v3, b.i2p, b.unknown), (1, 2, 1));
    assert_eq!(s.advertised_total, 8);
    assert_eq!(s.advertised_i2p, 2);
    assert_eq!(s.advertised_unknown, 1);
}

#[test]
fn labels_are_snake_case() {
    assert_eq!(FailKind::ConnectRefused.as_str(), "connect_refused");
    assert_eq!(FailKind::PeerVerackTimeout.as_str(), "peer_verack_timeout");
    assert_eq!(FailKind::WorkerFailed.as_str(), "worker_failed");
    assert_eq!(CollectionOutcome::default().as_str(), "not_requested");
    assert_eq!(
        CollectionOutcome::PartialIncompleteEnvelopeTimeout.as_str(),
        "partial_incomplete_envelope_timeout"
    );
}
