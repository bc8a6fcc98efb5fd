//! Laws of the frontier: which addresses are queued, set aside, left alone or turned away, in
//! which queue they go, and how a peer's messages are counted.
use vstd::prelude::*;
use crate::address::{network_of, NetworkType, Transport};
use crate::crawler::{enabled_positions, with_all_advertised, with_message, CrawlView};
use crate::protocol::AddrView;
use crate::store::{
    distinct_rows, find_row, lemma_find_row, lemma_find_row_at, CollectionOutcome, EntryView,
    FrontierOutcome, KeyView, NodeState, NodeStats, Row, StoreView,
};

verus! {

/// Whether a time is recent enough: the filter is off, or the time is no further back than
/// the threshold.
pub open spec fn is_fresh(ts: i64, threshold: i64, now: i64) -> bool {
    threshold <= 0 || ts >= now - threshold
}

/// Whether an entry has just been made: nothing is known of it but its network and time.
pub open spec fn is_newly_seen(e: EntryView, network: NetworkType, ts: i64) -> bool {
    &&& e.network == network
    &&& e.freshest_ts == ts
    &&& e.handshake is None
    &&& e.failure is None
    &&& e.attempts.len() == 0
    &&& has_no_statistics(e.stats)
}

/// Whether a node has no statistics yet.
pub open spec fn has_no_statistics(s: NodeStats) -> bool {
    &&& s.time_connect_ms is None && s.first_version_send_ts is None && s.handshake_attempts == 0
    &&& s.advertised_total == 0 && s.advertised_ipv4 == 0 && s.advertised_ipv6 == 0
    &&& s.advertised_onion_v2 == 0 && s.advertised_onion_v3 == 0 && s.advertised_i2p == 0
    &&& s.advertised_cjdns == 0 && s.advertised_unknown == 0
    &&& s.collection_outcome == CollectionOutcome::NotRequested
    &&& s.valid_addr_messages == 0 && s.malformed_addr_messages == 0
}

/// Whether the rows of two stores differ at most in row `i`, which keeps its address.
pub open spec fn only_row_differs(a: Seq<Row>, b: Seq<Row>, i: int) -> bool {
    &&& b.len() == a.len()
    &&& forall|j: int| 0 <= j < a.len() && j != i ==> #[trigger] b[j] == a[j]
    &&& b[i].0 == a[i].0
}

/// Whether the counters of two stores are the same.
pub open spec fn same_counters(a: StoreView, b: StoreView) -> bool {
    a.outstanding == b.outstanding && a.max_entries == b.max_entries && a.budget_rejected
        == b.budget_rejected
}

/// What an advertisement does, whatever the network. A new address is stored while the budget
/// has room: queued where its time is recent enough, set aside as stale where it is not.
/// Without room it is turned away and counted as such. A known address takes on the later
/// time; where it had been set aside and is recent enough now, it is queued, and otherwise it
/// stays as it is.
pub proof fn law_advertised_address(
    s: StoreView,
    key: KeyView,
    ts: i64,
    network: NetworkType,
    threshold: i64,
    now: i64,
)
    requires
        s.budget_rejected < usize::MAX,
    ensures
        ({
            let (outcome, n) = s.after_frontier(key, ts, network, threshold, now);
            match find_row(s.rows, key) {
                None => if s.rows.len() < s.max_entries {
                    let e = n.rows.last().1;
                    &&& same_counters(s, n)
                    &&& n.rows.len() == s.rows.len() + 1
                    &&& n.rows.drop_last() == s.rows
                    &&& n.rows.last().0 == key
                    &&& is_newly_seen(e, network, ts)
                    &&& if is_fresh(ts, threshold, now) {
                        outcome == FrontierOutcome::Enqueue && e.state == NodeState::Queued
                    } else {
                        outcome == FrontierOutcome::StaleNew && e.state
                            == NodeState::StaleDiscarded
                    }
                } else {
                    &&& outcome == FrontierOutcome::BudgetRejected
                    &&& n.rows == s.rows
                    &&& n.outstanding == s.outstanding
                    &&& n.max_entries == s.max_entries
                    &&& n.budget_rejected == s.budget_rejected + 1
                },
                Some(i) => {
                    let e = s.rows[i].1;
                    let f = n.rows[i].1;
                    let latest = if ts > e.freshest_ts {
                        ts
                    } else {
                        e.freshest_ts
                    };
                    &&& same_counters(s, n)
                    &&& only_row_differs(s.rows, n.rows, i)
                    &&& f == (EntryView { freshest_ts: latest, state: f.state, ..e })
                    &&& if e.state != NodeState::StaleDiscarded {
                        outcome == FrontierOutcome::Known && f.state == e.state
                    } else if is_fresh(latest, threshold, now) {
                        outcome == FrontierOutcome::Enqueue && f.state == NodeState::Queued
                    } else {
                        outcome == FrontierOutcome::StillStale && f.state == e.state
                    }
                },
            }
        }),
{
    lemma_find_row(s.rows, key);
    let n = s.after_frontier(key, ts, network, threshold, now).1;
    if find_row(s.rows, key) is None && s.rows.len() < s.max_entries {
        assert(n.rows.drop_last() =~= s.rows);
    }
}

/// What a seed does. A new address is stored as queued, seen now, while the budget has room,
/// and turned away and counted without; a known one only takes on the later time.
pub proof fn law_seeded_address(s: StoreView, key: KeyView, now: i64)
    requires
        s.budget_rejected < usize::MAX,
    ensures
        ({
            let (outcome, n) = s.after_seed(key, now);
            match find_row(s.rows, key) {
                None => if s.rows.len() < s.max_entries {
                    let e = n.rows.last().1;
                    &&& outcome.newly_queued
                    &&& same_counters(s, n)
                    &&& n.rows.len() == s.rows.len() + 1
                    &&& n.rows.drop_last() == s.rows
                    &&& n.rows.last().0 == key
                    &&& is_newly_seen(e, network_of(key.0), now)
                    &&& e.state == NodeState::Queued
                } else {
                    &&& !outcome.newly_queued
                    &&& n.rows == s.rows
                    &&& n.outstanding == s.outstanding
                    &&& n.max_entries == s.max_entries
                    &&& n.budget_rejected == s.budget_rejected + 1
                },
                Some(i) => {
                    let e = s.rows[i].1;
                    let f = n.rows[i].1;
                    &&& !outcome.newly_queued
                    &&& same_counters(s, n)
                    &&& only_row_differs(s.rows, n.rows, i)
                    &&& f == (EntryView {
                        freshest_ts: if now > e.freshest_ts {
                            now
                        } else {
                            e.freshest_ts
                        },
                        ..e
                    })
                },
            }
        }),
{
    lemma_find_row(s.rows, key);
    let n = s.after_seed(key, now).1;
    if find_row(s.rows, key) is None && s.rows.len() < s.max_entries {
        assert(n.rows.drop_last() =~= s.rows);
    }
}

/// Whether a transport carries a network: Tor the onion networks, I2P its own, and IP all
/// others.
pub open spec fn carries(t: Transport, network: NetworkType) -> bool {
    match t {
        Transport::Tor => network == NetworkType::OnionV2 || network == NetworkType::OnionV3,
        Transport::I2p => network == NetworkType::I2p,
        Transport::Ip => network == NetworkType::Ipv4 || network == NetworkType::Ipv6 || network
            == NetworkType::Cjdns || network == NetworkType::Unknown,
    }
}

/// Whether an advertised address is to be crawled: it is new and the budget has room, or it
/// had been set aside as stale; and its latest time is recent enough.
pub open spec fn is_due(c: CrawlView, a: AddrView, now: i64) -> bool {
    let threshold = c.settings.freshness_threshold;
    match c.entry_of((a.host, a.port)) {
        None => c.store.rows.len() < c.store.max_entries && is_fresh(a.timestamp, threshold, now),
        Some(e) => e.state == NodeState::StaleDiscarded && (is_fresh(a.timestamp, threshold, now)
            || is_fresh(e.freshest_ts, threshold, now)),
    }
}

/// An advertised address goes into a queue exactly where it is to be crawled, whatever its
/// network. It goes into the queue of the transport that carries its network, its entry
/// becomes queued, and it counts as outstanding work; otherwise nothing is sent or counted.
pub proof fn law_due_addresses_are_queued(c: CrawlView, a: AddrView, now: i64)
    requires
        distinct_rows(c.store.rows),
        c.store.outstanding < usize::MAX,
        c.store.budget_rejected < usize::MAX,
    ensures
        ({
            let key = (a.host, a.port);
            let (sent, n) = c.after_advert(a, now);
            &&& n.settings == c.settings
            &&& n.num_processed == c.num_processed
            &&& n.shutdown == c.shutdown
            &&& n.node_limit_reached == c.node_limit_reached
            &&& n.worker_failed == c.worker_failed
            &&& n.output_failed == c.output_failed
            &&& distinct_rows(n.store.rows)
            &&& if is_due(c, a, now) {
                &&& sent matches Some((k, t)) && k == key && carries(
                    t,
                    match c.entry_of(key) {
                        Some(e) => e.network,
                        None => a.network,
                    },
                )
                &&& n.entry_of(key) matches Some(e) && e.state == NodeState::Queued
                &&& n.store.outstanding == c.store.outstanding + 1
            } else {
                &&& sent is None
                &&& n.store.outstanding == c.store.outstanding
                &&& match c.entry_of(key) {
                    Some(e) => n.entry_of(key) matches Some(f) && f.state == e.state,
                    None => n.entry_of(key) matches Some(f) ==> f.state
                        == NodeState::StaleDiscarded,
                }
            }
        }),
{
    let key = (a.host, a.port);
    let threshold = c.settings.freshness_threshold;
    law_advertised_address(c.store, key, a.timestamp, a.network, threshold, now);
    lemma_advert_rows(c.store, key, a.timestamp, a.network, threshold, now);
}

/// An advertisement keeps one row for each address, and the rows that were there.
proof fn lemma_advert_rows(
    s: StoreView,
    key: KeyView,
    ts: i64,
    network: NetworkType,
    threshold: i64,
    now: i64,
)
    requires
        distinct_rows(s.rows),
        s.budget_rejected < usize::MAX,
    ensures
        ({
            let n = s.after_frontier(key, ts, network, threshold, now).1;
            &&& distinct_rows(n.rows)
            &&& match find_row(s.rows, key) {
                Some(i) => find_row(n.rows, key) == Some(i),
                None => if s.rows.len() < s.max_entries {
                    find_row(n.rows, key) == Some(s.rows.len() as int)
                } else {
                    find_row(n.rows, key) is None
                },
            }
        }),
{
    law_advertised_address(s, key, ts, network, threshold, now);
    let n = s.after_frontier(key, ts, network, threshold, now).1;
    lemma_find_row(s.rows, key);
    match find_row(s.rows, key) {
        Some(i) => {
            assert forall|a: int, b: int| 0 <= a < b < n.rows.len() implies (
            #[trigger] n.rows[a]).0 != (#[trigger] n.rows[b]).0 by {
                assert(n.rows[a].0 == s.rows[a].0);
                assert(n.rows[b].0 == s.rows[b].0);
            }
            lemma_find_row_at(n.rows, i);
        },
        None => {
            if s.rows.len() < s.max_entries {
                assert forall|a: int| 0 <= a < s.rows.len() implies #[trigger] n.rows[a]
                    == s.rows[a] by {
                    assert(n.rows.drop_last()[a] == s.rows[a]);
                }
                assert forall|a: int, b: int| 0 <= a < b < n.rows.len() implies (
                #[trigger] n.rows[a]).0 != (#[trigger] n.rows[b]).0 by {
                    assert(n.rows[a] == s.rows[a]);
                    if b < s.rows.len() {
                        assert(n.rows[b] == s.rows[b]);
                    }
                }
                lemma_find_row_at(n.rows, s.rows.len() as int);
            }
        },
    }
}

/// A seed goes into a queue exactly where it is new and the budget has room, and then counts
/// as outstanding work.
pub proof fn law_new_seeds_are_queued(c: CrawlView, key: KeyView, now: i64)
    requires
        c.store.outstanding < usize::MAX,
        c.store.budget_rejected < usize::MAX,
    ensures
        ({
            let (queued, n) = c.after_seed(key, now);
            &&& queued <==> c.entry_of(key) is None && c.store.rows.len() < c.store.max_entries
            &&& n.store.outstanding == c.store.outstanding + (if queued {
                1int
            } else {
                0int
            })
            &&& queued ==> (n.entry_of(key) matches Some(e) && e.state == NodeState::Queued
                && e.freshest_ts == now && e.network == network_of(key.0))
            &&& n.settings == c.settings
            &&& n.num_processed == c.num_processed
            &&& n.shutdown == c.shutdown
            &&& n.node_limit_reached == c.node_limit_reached
            &&& n.worker_failed == c.worker_failed
            &&& n.output_failed == c.output_failed
        }),
{
    law_seeded_address(c.store, key, now);
    let n = c.after_seed(key, now).1;
    if c.entry_of(key) is None && c.store.rows.len() < c.store.max_entries {
        assert(n.store.rows.last().0 == key);
    }
}

/// The addresses of a message that are to be fed into the frontier are exactly those whose
/// network is switched on, each once, in order.
pub proof fn law_enabled_addresses_are_fed(c: CrawlView, addrs: Seq<AddrView>, n: nat)
    requires
        n <= addrs.len() <= usize::MAX,
    ensures
        ({
            let at = enabled_positions(c.settings, addrs, n);
            let on = c.settings.enabled_networks;
            &&& forall|i: int|
                0 <= i < n ==> (at.contains(i as usize) <==> match (#[trigger] addrs[i]).network {
                    NetworkType::Ipv4 => on.ipv4,
                    NetworkType::Ipv6 => on.ipv6,
                    NetworkType::Cjdns => on.cjdns,
                    NetworkType::OnionV2 => on.tor,
                    NetworkType::OnionV3 => on.tor,
                    NetworkType::I2p => on.i2p,
                    NetworkType::Unknown => false,
                })
            &&& forall|k: int, l: int| 0 <= k < l < at.len() ==> at[k] < at[l]
            &&& forall|k: int| 0 <= k < at.len() ==> #[trigger] at[k] < n
        }),
    decreases n,
{
    if n > 0 {
        let m = (n - 1) as nat;
        law_enabled_addresses_are_fed(c, addrs, m);
        let before = enabled_positions(c.settings, addrs, m);
        let at = enabled_positions(c.settings, addrs, n);
        assert forall|u: usize| u < n implies (#[trigger] at.contains(u) <==> (u < m
            && before.contains(u)) || (u == m && at.len() > before.len())) by {
            if at.contains(u) {
                let k = choose|k: int| 0 <= k < at.len() && at[k] == u;
                if k < before.len() {
                    assert(before[k] == u);
                }
            }
            if u < m && before.contains(u) {
                let k = choose|k: int| 0 <= k < before.len() && before[k] == u;
                assert(at[k] == u);
            }
            if u == m && at.len() > before.len() {
                assert(at[before.len() as int] == u);
            }
        }
    }
}

/// Feeding a message puts every address into its queue that is new to the store, recent
/// enough and among those to be fed, as long as the budget has room for the whole message;
/// each address is sent at most once, and counts as outstanding work once.
pub proof fn law_feeding_queues_what_is_due(
    c: CrawlView,
    addrs: Seq<AddrView>,
    order: Seq<usize>,
    now: i64,
)
    requires
        distinct_rows(c.store.rows),
        c.store.rows.len() + order.len() <= c.store.max_entries,
        c.store.outstanding + order.len() < usize::MAX,
        c.store.budget_rejected < usize::MAX,
        forall|k: int| 0 <= k < order.len() ==> #[trigger] order[k] < addrs.len(),
    ensures
        ({
            let (sent, n) = c.after_feed(addrs, order, now);
            &&& n.settings == c.settings
            &&& sent.len() <= order.len()
            &&& n.store.outstanding == c.store.outstanding + sent.len()
            &&& n.store.max_entries == c.store.max_entries
            &&& n.store.budget_rejected == c.store.budget_rejected
            &&& distinct_rows(n.store.rows)
            &&& n.store.rows.len() <= c.store.rows.len() + order.len()
            &&& forall|k: int|
                0 <= k < order.len() ==> (c.entry_of(
                    ((#[trigger] addrs[order[k] as int]).host, addrs[order[k] as int].port),
                ) is None && is_fresh(
                    addrs[order[k] as int].timestamp,
                    c.settings.freshness_threshold,
                    now,
                ) ==> was_sent(sent, (addrs[order[k] as int].host, addrs[order[k] as int].port)))
            &&& forall|j: int|
                0 <= j < sent.len() ==> stands(n, (#[trigger] sent[j]).0, NodeState::Queued)
            &&& forall|i: int, j: int| 0 <= i < j < sent.len() ==> sent[i].0 != sent[j].0
            &&& forall|key: KeyView|
                c.entry_of(key) is None && #[trigger] stands(n, key, NodeState::Queued)
                    ==> was_sent(sent, key)
            &&& forall|key: KeyView| #[trigger]
                was_sent(sent, key) ==> c.entry_of(key) is None || stands(
                    c,
                    key,
                    NodeState::StaleDiscarded,
                )
            &&& forall|key: KeyView|
                c.entry_of(key) is None && #[trigger] n.entry_of(key) is Some ==> stands(
                    n,
                    key,
                    NodeState::Queued,
                ) || stands(n, key, NodeState::StaleDiscarded)
            &&& forall|key: KeyView, state: NodeState|
                stands(c, key, state) && state != NodeState::StaleDiscarded ==> #[trigger] stands(
                    n,
                    key,
                    state,
                )
        }),
    decreases order.len(),
{
    if order.len() > 0 {
        let shorter = order.drop_last();
        assert forall|k: int| 0 <= k < shorter.len() implies #[trigger] shorter[k] < addrs.len() by {
            assert(shorter[k] == order[k]);
        }
        law_feeding_queues_what_is_due(c, addrs, shorter, now);
        let (sent, mid) = c.after_feed(addrs, shorter, now);
        let a = addrs[order.last() as int];
        let key = (a.host, a.port);
        law_due_addresses_are_queued(mid, a, now);
        law_advertised_address(
            mid.store,
            key,
            a.timestamp,
            a.network,
            mid.settings.freshness_threshold,
            now,
        );
        lemma_advert_others(mid, a, now);
        let (one, n) = mid.after_advert(a, now);
        let all = c.after_feed(addrs, order, now).0;
        assert forall|k2: KeyView| was_sent(sent, k2) implies was_sent(all, k2) by {
            let j = choose|j: int| 0 <= j < sent.len() && (#[trigger] sent[j]).0 == k2;
            assert(all[j].0 == k2);
        }
        if one is Some {
            assert(all[sent.len() as int].0 == key);
            assert(was_sent(all, key));
        }
        assert forall|k2: KeyView| was_sent(all, k2) implies was_sent(sent, k2) || (one is Some && k2
            == key) by {
            let j = choose|j: int| 0 <= j < all.len() && (#[trigger] all[j]).0 == k2;
            if j < sent.len() {
                assert(sent[j].0 == k2);
            }
        }
        assert forall|k: int| 0 <= k < order.len() && c.entry_of(
            ((#[trigger] addrs[order[k] as int]).host, addrs[order[k] as int].port),
        ) is None && is_fresh(
            addrs[order[k] as int].timestamp,
            c.settings.freshness_threshold,
            now,
        ) implies was_sent(all, (addrs[order[k] as int].host, addrs[order[k] as int].port)) by {
            if k < shorter.len() {
                assert(shorter[k] == order[k]);
                assert(was_sent(
                    sent,
                    (addrs[shorter[k] as int].host, addrs[shorter[k] as int].port),
                ));
            } else {
                if mid.entry_of(key) is Some {
                    assert(stands(mid, key, NodeState::Queued) || stands(
                        mid,
                        key,
                        NodeState::StaleDiscarded,
                    ));
                }
            }
        }
        assert forall|j: int| 0 <= j < all.len() implies stands(
            n,
            (#[trigger] all[j]).0,
            NodeState::Queued,
        ) by {
            if j < sent.len() {
                assert(all[j] == sent[j]);
                assert(stands(mid, sent[j].0, NodeState::Queued));
            }
        }
        assert forall|i: int, j: int| 0 <= i < j < all.len() implies all[i].0 != all[j].0 by {
            assert(all[i] == sent[i]);
            assert(stands(mid, sent[i].0, NodeState::Queued));
            if j < sent.len() {
                assert(all[j] == sent[j]);
            }
        }
        assert forall|k2: KeyView| c.entry_of(k2) is None && #[trigger] stands(
            n,
            k2,
            NodeState::Queued,
        ) implies was_sent(all, k2) by {
            if k2 != key {
                assert(stands(mid, k2, NodeState::Queued));
            } else if one is None {
                assert(stands(mid, k2, NodeState::Queued));
            }
        }
        assert forall|k2: KeyView| #[trigger] was_sent(all, k2) implies c.entry_of(k2) is None
            || stands(c, k2, NodeState::StaleDiscarded) by {
            if !was_sent(sent, k2) {
                if let Some(e) = c.entry_of(k2) {
                    if e.state != NodeState::StaleDiscarded {
                        assert(stands(c, k2, e.state));
                        assert(stands(mid, k2, e.state));
                    }
                }
            }
        }
        assert forall|k2: KeyView| c.entry_of(k2) is None && #[trigger] n.entry_of(
            k2,
        ) is Some implies stands(n, k2, NodeState::Queued) || stands(
            n,
            k2,
            NodeState::StaleDiscarded,
        ) by {
            assert(k2 != key ==> mid.entry_of(k2) is Some);
            assert(mid.entry_of(k2) is Some ==> stands(mid, k2, NodeState::Queued) || stands(
                mid,
                k2,
                NodeState::StaleDiscarded,
            ));
        }
        assert forall|k2: KeyView, state: NodeState|
            stands(c, k2, state) && state != NodeState::StaleDiscarded implies #[trigger] stands(
            n,
            k2,
            state,
        ) by {
            assert(stands(mid, k2, state));
        }
    }
}

/// Whether an address is known and in a state.
pub open spec fn stands(c: CrawlView, key: KeyView, state: NodeState) -> bool {
    c.entry_of(key) matches Some(e) && e.state == state
}

/// Whether an address was put into a queue.
pub open spec fn was_sent(sent: Seq<(KeyView, Transport)>, key: KeyView) -> bool {
    exists|j: int| 0 <= j < sent.len() && (#[trigger] sent[j]).0 == key
}

/// An advertisement leaves all other addresses alone.
proof fn lemma_advert_others(c: CrawlView, a: AddrView, now: i64)
    requires
        distinct_rows(c.store.rows),
        c.store.budget_rejected < usize::MAX,
    ensures
        forall|key: KeyView|
            key != (a.host, a.port) ==> #[trigger] c.after_advert(a, now).1.entry_of(key)
                == c.entry_of(key),
{
    let k = (a.host, a.port);
    let threshold = c.settings.freshness_threshold;
    law_advertised_address(c.store, k, a.timestamp, a.network, threshold, now);
    lemma_advert_rows(c.store, k, a.timestamp, a.network, threshold, now);
    let n = c.after_advert(a, now).1;
    lemma_find_row(c.store.rows, k);
    assert forall|key: KeyView| key != k implies #[trigger] n.entry_of(key) == c.entry_of(key) by {
        lemma_find_row(c.store.rows, key);
        lemma_find_row(n.store.rows, key);
        match find_row(c.store.rows, key) {
            Some(i) => {
                if find_row(c.store.rows, k) is None && c.store.rows.len() < c.store.max_entries {
                    assert(n.store.rows.drop_last()[i] == c.store.rows[i]);
                }
                assert(n.store.rows[i] == c.store.rows[i]);
                lemma_find_row_at(n.store.rows, i);
            },
            None => {
                if let Some(j) = find_row(n.store.rows, key) {
                    if j < c.store.rows.len() {
                        assert(n.store.rows[j].0 == c.store.rows[j].0) by {
                            if find_row(c.store.rows, k) is None && c.store.rows.len()
                                < c.store.max_entries {
                                assert(n.store.rows.drop_last()[j] == c.store.rows[j]);
                            }
                        }
                    }
                }
            },
        }
    }
}

/// How many addresses of a network stand in a message.
pub open spec fn of_network(addrs: Seq<AddrView>, network: NetworkType) -> nat {
    addrs.filter(|a: AddrView| a.network == network).len()
}

proof fn lemma_counted_by_network(stats: NodeStats, addrs: Seq<AddrView>, n: nat)
    requires
        n <= addrs.len(),
        stats.advertised_total + n <= u64::MAX,
        stats.balanced(),
    ensures
        ({
            let r = with_all_advertised(stats, addrs, n);
            let seen = addrs.take(n as int);
            &&& r.balanced()
            &&& r.advertised_total == stats.advertised_total + n
            &&& r.advertised_ipv4 == stats.advertised_ipv4 + of_network(seen, NetworkType::Ipv4)
            &&& r.advertised_ipv6 == stats.advertised_ipv6 + of_network(seen, NetworkType::Ipv6)
            &&& r.advertised_onion_v2 == stats.advertised_onion_v2 + of_network(
                seen,
                NetworkType::OnionV2,
            )
            &&& r.advertised_onion_v3 == stats.advertised_onion_v3 + of_network(
                seen,
                NetworkType::OnionV3,
            )
            &&& r.advertised_i2p == stats.advertised_i2p + of_network(seen, NetworkType::I2p)
            &&& r.advertised_cjdns == stats.advertised_cjdns + of_network(
                seen,
                NetworkType::Cjdns,
            )
            &&& r.advertised_unknown == stats.advertised_unknown + of_network(
                seen,
                NetworkType::Unknown,
            )
            &&& same_but_advertised(r, stats)
        }),
    decreases n,
{
    reveal(Seq::filter);
    if n > 0 {
        let m = (n - 1) as nat;
        lemma_counted_by_network(stats, addrs, m);
        assert(addrs.take(n as int).drop_last() =~= addrs.take(m as int));
        assert(addrs.take(n as int).last() == addrs[m as int]);
    }
}

/// Whether two statistics differ at most in what was advertised.
pub open spec fn same_but_advertised(a: NodeStats, b: NodeStats) -> bool {
    &&& a.time_connect_ms == b.time_connect_ms
    &&& a.handshake_attempts == b.handshake_attempts
    &&& a.first_version_send_ts == b.first_version_send_ts
    &&& a.collection_outcome == b.collection_outcome
    &&& a.valid_addr_messages == b.valid_addr_messages
    &&& a.malformed_addr_messages == b.malformed_addr_messages
}

/// A message adds to each network's count the number of its addresses of that network, to
/// the count of unknown ones those of networks that it did not know as well, and to the total
/// all of them; nothing else changes.
pub proof fn law_messages_are_counted_by_network(
    stats: NodeStats,
    addrs: Seq<AddrView>,
    unknown: u64,
)
    requires
        stats.balanced(),
        stats.advertised_total + addrs.len() + unknown <= u64::MAX,
    ensures
        ({
            let r = with_message(stats, addrs, unknown);
            &&& r.advertised_total == stats.advertised_total + addrs.len() + unknown
            &&& r.advertised_ipv4 == stats.advertised_ipv4 + of_network(addrs, NetworkType::Ipv4)
            &&& r.advertised_ipv6 == stats.advertised_ipv6 + of_network(addrs, NetworkType::Ipv6)
            &&& r.advertised_onion_v2 == stats.advertised_onion_v2 + of_network(
                addrs,
                NetworkType::OnionV2,
            )
            &&& r.advertised_onion_v3 == stats.advertised_onion_v3 + of_network(
                addrs,
                NetworkType::OnionV3,
            )
            &&& r.advertised_i2p == stats.advertised_i2p + of_network(addrs, NetworkType::I2p)
            &&& r.advertised_cjdns == stats.advertised_cjdns + of_network(
                addrs,
                NetworkType::Cjdns,
            )
            &&& r.advertised_unknown == stats.advertised_unknown + of_network(
                addrs,
                NetworkType::Unknown,
            ) + unknown
            &&& same_but_advertised(r, stats)
        }),
{
    lemma_counted_by_network(stats, addrs, addrs.len());
    assert(addrs.take(addrs.len() as int) =~= addrs);
}

/// Feeding one address more is feeding the others and then that one, whatever room is left.
pub proof fn law_addresses_are_fed_one_by_one(
    c: CrawlView,
    addrs: Seq<AddrView>,
    order: Seq<usize>,
    at: usize,
    now: i64,
)
    ensures
        ({
            let (sent, mid) = c.after_feed(addrs, order, now);
            let (one, next) = mid.after_advert(addrs[at as int], now);
            let (all, end) = c.after_feed(addrs, order.push(at), now);
            &&& end == next
            &&& one is None ==> all == sent
            &&& one matches Some(s) ==> all == sent + seq![s]
        }),
        c.after_feed(addrs, Seq::empty(), now).0.len() == 0,
        c.after_feed(addrs, Seq::empty(), now).1 == c,
{
    assert(order.push(at).drop_last() =~= order);
    let sent = c.after_feed(addrs, order, now).0;
    if let Some(s) = c.after_feed(addrs, order, now).1.after_advert(addrs[at as int], now).0 {
        assert(sent.push(s) =~= sent + seq![s]);
    }
}

} // verus!
