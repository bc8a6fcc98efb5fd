//! Laws of a crawl: what every step keeps, and how its steps relate.
use vstd::prelude::*;
use crate::crawler::{
    active_count, attempt_cap, enabled_positions, ended, entry_sound, is_active, lemma_advertised_balanced, noted,
    with_message, CrawlView, Verdict,
};
use crate::output::reachable_have_handshakes;
use crate::protocol::AddrView;
use crate::settings::Settings;
use crate::store::{
    distinct_rows, find_row, is_stale, later, lemma_find_row, lemma_find_row_at,
    lemma_state_count_update, state_count, EntryView, FailKind, KeyView, NodeState, NodeStats, Row, StoreView,
};

verus! {

/// Between two steps, the counter of outstanding work is the number of addresses that are
/// queued or being processed, no address is stored twice, and neither the address budget
/// nor the node limit is exceeded.
pub proof fn law_books_are_in_order(c: CrawlView)
    requires
        c.sound(),
    ensures
        c.store.outstanding == state_count(c.store.rows, NodeState::Queued) + state_count(
            c.store.rows,
            NodeState::Processing,
        ),
        forall|i: int, j: int|
            0 <= i < j < c.store.rows.len() ==> c.store.rows[i].0 != c.store.rows[j].0,
        c.store.rows.len() <= c.store.max_entries,
        c.settings.max_nodes matches Some(max) ==> c.num_processed <= max,
{
}

/// A reachable node has its handshake metadata; an unreachable one never connected; each
/// failed one carries a reason; and no node is tried more often than the settings allow.
pub proof fn law_terminal_states_are_backed(c: CrawlView, key: KeyView)
    requires
        c.sound(),
    ensures
        c.entry_of(key) matches Some(e) ==> {
            &&& e.state == NodeState::Reachable ==> e.handshake is Some && e.failure is None
            &&& e.state == NodeState::Unreachable ==> e.stats.time_connect_ms is None
                && e.failure is Some
            &&& e.state == NodeState::HandshakeFailed ==> e.failure is Some
            &&& e.attempts.len() == e.stats.handshake_attempts
            &&& e.stats.handshake_attempts <= attempt_cap(c.settings)
            &&& e.stats.balanced()
        },
{
    lemma_find_row(c.store.rows, key);
}

proof fn lemma_entry_after_replace(c: CrawlView, key: KeyView, e: EntryView)
    requires
        distinct_rows(c.store.rows),
        c.entry_of(key) is Some,
    ensures
        c.with_entry(key, e).entry_of(key) == Some(e),
        c.with_entry(key, e).store.rows.len() == c.store.rows.len(),
        distinct_rows(c.with_entry(key, e).store.rows),
{
    lemma_find_row(c.store.rows, key);
    let i = find_row(c.store.rows, key)->Some_0;
    let rows = c.store.rows;
    let next = c.with_entry(key, e).store.rows;
    assert(next == rows.update(i, (rows[i].0, e)));
    assert forall|a: int, b: int| 0 <= a < b < next.len() implies (#[trigger] next[a]).0 != (
    #[trigger] next[b]).0 by {
        assert(next[a].0 == rows[a].0);
        assert(next[b].0 == rows[b].0);
    }
    lemma_find_row_at(next, i);
}

/// Ending an address, in whatever terminal state and for whatever reason. Where it still had
/// work to come, it gets that state and reason, the outstanding work is one less, and the
/// queues close exactly when that was the last of it; every other address stays as it is.
/// Where it had none, or is unknown, nothing changes and nothing closes. The counter of
/// outstanding work stays right either way.
pub proof fn law_finish(
    c: CrawlView,
    key: KeyView,
    terminal: NodeState,
    reason: Option<FailKind>,
)
    requires
        c.counted(),
        !is_active(terminal),
    ensures
        ({
            let (close, next) = c.after_finish(key, terminal, reason);
            &&& next.counted()
            &&& match c.entry_of(key) {
                Some(e) if is_active(e.state) => {
                    &&& next.entry_of(key) == Some(
                        EntryView { state: terminal, failure: reason, ..e },
                    )
                    &&& next.store.outstanding == c.store.outstanding - 1
                    &&& close <==> c.store.outstanding == 1
                    &&& close <==> active_count(next.store.rows) == 0
                    &&& next.store.rows.len() == c.store.rows.len()
                    &&& forall|i: int|
                        0 <= i < c.store.rows.len() && c.store.rows[i].0 != key
                            ==> #[trigger] next.store.rows[i] == c.store.rows[i]
                },
                _ => !close && next == c,
            }
        }),
{
    if let Some(e) = c.entry_of(key) {
        if is_active(e.state) {
            lemma_find_row(c.store.rows, key);
            let i = find_row(c.store.rows, key)->Some_0;
            let row = (c.store.rows[i].0, ended(e, terminal, reason));
            lemma_state_count_update(c.store.rows, i, row, NodeState::Queued);
            lemma_state_count_update(c.store.rows, i, row, NodeState::Processing);
            lemma_entry_after_replace(c, key, ended(e, terminal, reason));
        }
    }
}

/// An address is ended once: a second attempt to end it, in whatever way, changes nothing and
/// closes nothing.
pub proof fn law_finish_happens_once(
    c: CrawlView,
    key: KeyView,
    terminal: NodeState,
    reason: Option<FailKind>,
    terminal2: NodeState,
    reason2: Option<FailKind>,
)
    requires
        distinct_rows(c.store.rows),
        !is_active(terminal),
    ensures
        ({
            let next = c.after_finish(key, terminal, reason).1;
            next.after_finish(key, terminal2, reason2) == (false, next)
        }),
{
    if let Some(e) = c.entry_of(key) {
        if is_active(e.state) {
            lemma_entry_after_replace(c, key, ended(e, terminal, reason));
        }
    }
}

/// A retry moves an address back to its queue and leaves the count of outstanding work as it
/// is; without a retry the address is in its terminal state.
pub proof fn law_failure_retries_or_ends(
    c: CrawlView,
    key: KeyView,
    should_retry: bool,
    terminal: NodeState,
    reason: FailKind,
)
    requires
        c.sound(),
        c.entry_of(key) matches Some(e) && e.state == NodeState::Processing,
    ensures
        ({
            let (verdict, next) = c.after_failure(key, should_retry, terminal, reason);
            let e = next.entry_of(key)->Some_0;
            if should_retry {
                e.state == NodeState::Queued && next.store.outstanding == c.store.outstanding
            } else {
                e.state == terminal && e.failure == Some(reason) && verdict is Ended
            }
        }),
{
    let e = c.entry_of(key)->Some_0;
    lemma_entry_after_replace(c, key, EntryView { state: NodeState::Queued, ..e });
    lemma_entry_after_replace(c, key, ended(e, terminal, Some(reason)));
}

/// A node that connected on any attempt does not end as unreachable when a later attempt
/// cannot connect.
pub proof fn law_connected_once_is_never_unreachable(
    c: CrawlView,
    key: KeyView,
    number: u32,
    kind: FailKind,
)
    requires
        c.sound(),
        c.entry_of(key) matches Some(e) && e.state == NodeState::Processing
            && e.stats.time_connect_ms is Some,
    ensures
        ({
            let (verdict, next) = c.after_connect_failure(key, number, kind);
            &&& next.entry_of(key) matches Some(e) && e.state != NodeState::Unreachable
            &&& verdict matches Verdict::Retry { on_closed, reason } ==> on_closed
                == NodeState::HandshakeFailed
        }),
{
    let e = c.entry_of(key)->Some_0;
    let n = noted(e, "connect_failed"@, Some(kind), None, None);
    lemma_entry_after_replace(c, key, n);
    let noted_c = c.after_note(key, "connect_failed"@, Some(kind), None, None);
    lemma_entry_after_replace(noted_c, key, EntryView { state: NodeState::Queued, ..n });
    lemma_entry_after_replace(noted_c, key, ended(n, NodeState::HandshakeFailed, Some(kind)));
}

/// A row that was there stays where it is, and the time it was last seen never goes back.
pub open spec fn rows_only_grow(a: Seq<Row>, b: Seq<Row>) -> bool {
    a.len() <= b.len() && forall|i: int|
        0 <= i < a.len() ==> (#[trigger] b[i]).0 == a[i].0 && b[i].1.freshest_ts
            >= a[i].1.freshest_ts
}

/// Observing an address, as a seed or as advertised, forgets none and never turns back the
/// time that one was last seen; the observed one, if stored, has at least the observed time.
pub proof fn law_last_seen_never_goes_back(
    s: StoreView,
    key: KeyView,
    observed_ts: i64,
    network: crate::address::NetworkType,
    freshness_threshold: i64,
    now: i64,
)
    requires
        distinct_rows(s.rows),
    ensures
        ({
            let next = s.after_frontier(key, observed_ts, network, freshness_threshold, now).1;
            &&& rows_only_grow(s.rows, next.rows)
            &&& find_row(next.rows, key) matches Some(i) ==> next.rows[i].1.freshest_ts
                >= observed_ts
        }),
        ({
            let next = s.after_seed(key, now).1;
            &&& rows_only_grow(s.rows, next.rows)
            &&& find_row(next.rows, key) matches Some(i) ==> next.rows[i].1.freshest_ts >= now
        }),
{
    lemma_find_row(s.rows, key);
    let next = s.after_frontier(key, observed_ts, network, freshness_threshold, now).1;
    let seeded = s.after_seed(key, now).1;
    lemma_find_row(next.rows, key);
    lemma_find_row(seeded.rows, key);
    match find_row(s.rows, key) {
        Some(i) => {
            if let Some(j) = find_row(next.rows, key) {
                if j != i {
                    assert(next.rows[j].0 == s.rows[j].0);
                    if i < j {
                        assert(s.rows[i].0 != s.rows[j].0);
                    } else {
                        assert(s.rows[j].0 != s.rows[i].0);
                    }
                }
            }
            if let Some(j) = find_row(seeded.rows, key) {
                if j != i {
                    assert(seeded.rows[j].0 == s.rows[j].0);
                    if i < j {
                        assert(s.rows[i].0 != s.rows[j].0);
                    } else {
                        assert(s.rows[j].0 != s.rows[i].0);
                    }
                }
            }
        },
        None => {
            if let Some(j) = find_row(next.rows, key) {
                if j < s.rows.len() {
                    assert(next.rows[j].0 == s.rows[j].0);
                }
            }
            if let Some(j) = find_row(seeded.rows, key) {
                if j < s.rows.len() {
                    assert(seeded.rows[j].0 == s.rows[j].0);
                }
            }
        },
    }
}

/// An advertised address is queued only where it is new or was set aside as stale and is
/// fresh now: an address that is queued, in hand, finished or discarded for want of budget
/// is never queued again by an advertisement.
pub proof fn law_known_addresses_are_not_queued_again(c: CrawlView, a: AddrView, now: i64)
    requires
        c.sound(),
    ensures
        c.after_advert(a, now).0 is Some ==> match c.entry_of((a.host, a.port)) {
            None => c.store.rows.len() < c.store.max_entries && !is_stale(
                a.timestamp,
                c.settings.freshness_threshold,
                now,
            ),
            Some(e) => e.state == NodeState::StaleDiscarded && !is_stale(
                later(e.freshest_ts, a.timestamp),
                c.settings.freshness_threshold,
                now,
            ),
        },
{
}

/// Nothing of a disabled or unknown network is ever put into a queue by an advertisement:
/// whatever the order, each address that is sent is one of the message whose network is
/// enabled.
pub proof fn law_only_enabled_networks_are_queued(
    c: CrawlView,
    addrs: Seq<AddrView>,
    order: Seq<usize>,
    now: i64,
)
    requires
        addrs.len() <= usize::MAX,
        order.to_multiset() == enabled_positions(
            c.settings,
            addrs,
            addrs.len(),
        ).to_multiset(),
    ensures
        forall|k: int|
            0 <= k < c.after_feed(addrs, order, now).0.len() ==> exists|i: int|
                0 <= i < addrs.len() && (#[trigger] c.after_feed(addrs, order, now).0[k]).0 == (
                    #[trigger] addrs[i].host,
                    addrs[i].port,
                ) && c.settings.enables(addrs[i].network),
{
    let enabled = enabled_positions(c.settings, addrs, addrs.len());
    lemma_enabled_positions(c.settings, addrs, addrs.len());
    enabled.to_multiset_ensures();
    order.to_multiset_ensures();
    assert forall|k: int| 0 <= k < order.len() implies (#[trigger] order[k]) < addrs.len()
        && c.settings.enables(addrs[order[k] as int].network) by {
        assert(order.contains(order[k]));
        assert(order.to_multiset().count(order[k]) > 0);
        assert(enabled.contains(order[k]));
    }
    lemma_sent_come_from_order(c, addrs, order, now);
}

proof fn lemma_enabled_positions(settings: Settings, addrs: Seq<AddrView>, n: nat)
    requires
        n <= addrs.len() <= usize::MAX,
    ensures
        forall|k: int|
            0 <= k < enabled_positions(settings, addrs, n).len() ==> (
            #[trigger] enabled_positions(settings, addrs, n)[k]) < n && settings.enables(
                addrs[enabled_positions(settings, addrs, n)[k] as int].network,
            ),
    decreases n,
{
    if n > 0 {
        lemma_enabled_positions(settings, addrs, (n - 1) as nat);
    }
}

proof fn lemma_sent_come_from_order(
    c: CrawlView,
    addrs: Seq<AddrView>,
    order: Seq<usize>,
    now: i64,
)
    requires
        forall|k: int|
            0 <= k < order.len() ==> (#[trigger] order[k]) < addrs.len() && c.settings.enables(
                addrs[order[k] as int].network,
            ),
    ensures
        forall|k: int|
            0 <= k < c.after_feed(addrs, order, now).0.len() ==> exists|i: int|
                0 <= i < addrs.len() && (#[trigger] c.after_feed(addrs, order, now).0[k]).0 == (
                    #[trigger] addrs[i].host,
                    addrs[i].port,
                ) && c.settings.enables(addrs[i].network),
    decreases order.len(),
{
    if order.len() > 0 {
        let shorter = order.drop_last();
        assert forall|k: int| 0 <= k < shorter.len() implies (#[trigger] shorter[k]) < addrs.len()
            && c.settings.enables(addrs[shorter[k] as int].network) by {
            assert(shorter[k] == order[k]);
        }
        lemma_sent_come_from_order(c, addrs, shorter, now);
        let (sent, mid) = c.after_feed(addrs, shorter, now);
        let at = order[order.len() - 1] as int;
        let (one, next) = mid.after_advert(addrs[at], now);
        let all = c.after_feed(addrs, order, now).0;
        assert forall|k: int| 0 <= k < all.len() implies exists|i: int|
            0 <= i < addrs.len() && (#[trigger] all[k]).0 == (
                #[trigger] addrs[i].host,
                addrs[i].port,
            ) && c.settings.enables(addrs[i].network) by {
            if k < sent.len() {
                assert(all[k] == sent[k]);
            } else {
                assert(all[k].0 == (addrs[at].host, addrs[at].port));
            }
        }
    }
}

/// A node that stayed silent for the whole handshake deadline is given up after one attempt
/// unless the settings ask for more, whatever attempts are left.
pub proof fn law_silence_is_not_retried(c: CrawlView, key: KeyView, number: u32)
    requires
        c.sound(),
        !c.settings.retry_on_timeout,
        c.entry_of(key) matches Some(e) && e.state == NodeState::Processing,
    ensures
        ({
            let (verdict, next) = c.after_handshake_timeout(key, number);
            &&& verdict is Ended
            &&& next.entry_of(key) matches Some(e) && e.state == NodeState::HandshakeFailed
                && e.failure == Some(FailKind::HandshakeTimeout)
        }),
{
    let e = c.entry_of(key)->Some_0;
    let n = noted(e, "handshake_timeout"@, Some(FailKind::HandshakeTimeout), None, None);
    lemma_entry_after_replace(c, key, n);
    let mid = c.after_note(
        key,
        "handshake_timeout"@,
        Some(FailKind::HandshakeTimeout),
        None,
        None,
    );
    lemma_entry_after_replace(
        mid,
        key,
        ended(n, NodeState::HandshakeFailed, Some(FailKind::HandshakeTimeout)),
    );
}

/// Every stored address is in exactly one state, so the counts of the states add up to the
/// number of addresses.
pub proof fn law_states_account_for_all_addresses(rows: Seq<Row>)
    ensures
        rows.len() == state_count(rows, NodeState::Queued) + state_count(
            rows,
            NodeState::Processing,
        ) + state_count(rows, NodeState::Reachable) + state_count(rows, NodeState::HandshakeFailed)
            + state_count(rows, NodeState::Unreachable) + state_count(
            rows,
            NodeState::StaleDiscarded,
        ) + state_count(rows, NodeState::BudgetDiscarded),
    decreases rows.len(),
{
    if rows.len() > 0 {
        law_states_account_for_all_addresses(rows.drop_last());
    }
}

/// Counting a message adds exactly as many addresses as it accounts for, and the breakdown
/// by network still adds up.
pub proof fn law_messages_are_counted_in_full(
    stats: NodeStats,
    addrs: Seq<AddrView>,
    unknown: u64,
)
    requires
        stats.balanced(),
        stats.advertised_total + addrs.len() + unknown <= u64::MAX,
    ensures
        with_message(stats, addrs, unknown).balanced(),
        with_message(stats, addrs, unknown).advertised_total == stats.advertised_total
            + addrs.len() + unknown,
{
    lemma_advertised_balanced(stats, addrs, addrs.len());
}

/// The rows of a crawl can be written as tables at any time: every reachable node has the
/// handshake metadata that its record needs.
pub proof fn law_tables_can_always_be_written(c: CrawlView)
    requires
        c.sound(),
    ensures
        reachable_have_handshakes(c.store.rows),
{
    assert forall|i: int|
        0 <= i < c.store.rows.len() && (#[trigger] c.store.rows[i]).1.state
            == NodeState::Reachable implies c.store.rows[i].1.handshake is Some by {
        assert(entry_sound(c.store.rows[i].1, attempt_cap(c.settings)));
    }
}

} // verus!
