//! Laws of the work on one address: what each event leaves behind, how often a failed attempt
//! is repeated, and how an address ends.
use vstd::prelude::*;
use crate::address::{addr_text, network_of, NetworkType};
use crate::crawler::{
    active_count, begun, connect_failure, epoch_value, eta_text, handshake_failure, noted,
    with_connect_time, with_version_time, CrawlView, Verdict,
};
use crate::dialogue::{send_command, send_failure, HandshakeSend};
use crate::io_error::{IoError, IoErrorKind};
use crate::protocol::VersionView;
use crate::store::{
    distinct_rows, find_row, handshake_view, lemma_find_row, lemma_find_row_at,
    lemma_state_count_update, AttemptView, CollectionOutcome, EntryView, FailKind, HandshakeView,
    KeyView, NodeState, NodeStats,
};
use crate::text::decimal;

verus! {

/// Whether nothing but the entry of one address and the count of outstanding work differs.
pub open spec fn only_entry_differs(c: CrawlView, d: CrawlView, key: KeyView) -> bool {
    &&& d.store.rows.len() == c.store.rows.len()
    &&& forall|i: int|
        0 <= i < c.store.rows.len() ==> (#[trigger] d.store.rows[i]).0 == c.store.rows[i].0
    &&& forall|i: int|
        0 <= i < c.store.rows.len() && c.store.rows[i].0 != key ==> #[trigger] d.store.rows[i]
            == c.store.rows[i]
    &&& d.store.max_entries == c.store.max_entries
    &&& d.store.budget_rejected == c.store.budget_rejected
    &&& d.settings == c.settings
    &&& d.shutdown == c.shutdown
    &&& d.worker_failed == c.worker_failed
    &&& d.output_failed == c.output_failed
}

/// Whether only the latest of two runs of attempts differs, and that one keeps its number.
pub open spec fn only_last_attempt_differs(a: Seq<AttemptView>, b: Seq<AttemptView>) -> bool {
    &&& b.len() == a.len()
    &&& forall|k: int| 0 <= k < a.len() - 1 ==> #[trigger] b[k] == a[k]
    &&& a.len() > 0 ==> b.last().attempt == a.last().attempt
}

/// Whether an attempt failed in the given way: it says so itself, the node's other data stay,
/// and the address is queued again or ends.
pub open spec fn attempt_failed(
    c: CrawlView,
    d: CrawlView,
    key: KeyView,
    verdict: Verdict,
    again: bool,
    terminal: NodeState,
    kind: FailKind,
    outcome: Seq<char>,
) -> bool {
    let e = c.entry_of(key)->Some_0;
    let f = d.entry_of(key)->Some_0;
    &&& d.entry_of(key) is Some
    &&& only_entry_differs(c, d, key)
    &&& d.num_processed == c.num_processed
    &&& d.node_limit_reached == c.node_limit_reached
    &&& f.network == e.network
    &&& f.freshest_ts == e.freshest_ts
    &&& f.handshake == e.handshake
    &&& f.stats == e.stats
    &&& only_last_attempt_differs(e.attempts, f.attempts)
    &&& f.attempts.last().outcome == outcome
    &&& f.attempts.last().failure == Some(kind)
    &&& f.attempts.last().connect_duration_ms == e.attempts.last().connect_duration_ms
    &&& f.attempts.last().version_send_timestamp == e.attempts.last().version_send_timestamp
    &&& if again {
        &&& verdict == Verdict::Retry { on_closed: terminal, reason: kind }
        &&& f.state == NodeState::Queued
        &&& f.failure == e.failure
        &&& d.store.outstanding == c.store.outstanding
    } else {
        &&& verdict == Verdict::Ended { close: c.store.outstanding == 1 }
        &&& f.state == terminal
        &&& f.failure == Some(kind)
        &&& d.store.outstanding == c.store.outstanding - 1
    }
}

/// Replacing the entry of a known address touches nothing else.
proof fn lemma_replaced(c: CrawlView, key: KeyView, e: EntryView)
    requires
        distinct_rows(c.store.rows),
        c.entry_of(key) is Some,
    ensures
        c.with_entry(key, e).entry_of(key) == Some(e),
        only_entry_differs(c, c.with_entry(key, e), key),
        distinct_rows(c.with_entry(key, e).store.rows),
        c.with_entry(key, e).store.outstanding == c.store.outstanding,
        c.with_entry(key, e).num_processed == c.num_processed,
        c.with_entry(key, e).node_limit_reached == c.node_limit_reached,
        active_count(c.with_entry(key, e).store.rows) + (if works(
            c.entry_of(key)->Some_0.state,
        ) {
            1int
        } else {
            0int
        }) == active_count(c.store.rows) + (if works(e.state) {
            1int
        } else {
            0int
        }),
        works(c.entry_of(key)->Some_0.state) ==> active_count(c.store.rows) >= 1,
{
    lemma_find_row(c.store.rows, key);
    let i = find_row(c.store.rows, key)->Some_0;
    let rows = c.store.rows;
    let row = (rows[i].0, e);
    let next = c.with_entry(key, e).store.rows;
    assert(next == rows.update(i, row));
    lemma_state_count_update(rows, i, row, NodeState::Queued);
    lemma_state_count_update(rows, i, row, NodeState::Processing);
    assert forall|a: int, b: int| 0 <= a < b < next.len() implies (#[trigger] next[a]).0 != (
    #[trigger] next[b]).0 by {
        assert(next[a].0 == rows[a].0);
        assert(next[b].0 == rows[b].0);
    }
    lemma_find_row_at(next, i);
}

/// Whether work is to come in a state.
spec fn works(state: NodeState) -> bool {
    state == NodeState::Queued || state == NodeState::Processing
}

proof fn lemma_failed(
    c: CrawlView,
    key: KeyView,
    again: bool,
    terminal: NodeState,
    kind: FailKind,
    outcome: Seq<char>,
)
    requires
        c.counted(),
        c.entry_of(key) matches Some(e) && e.state == NodeState::Processing && e.attempts.len() > 0,
        !works(terminal),
    ensures
        ({
            let (verdict, d) = c.after_note(key, outcome, Some(kind), None, None).after_failure(
                key,
                again,
                terminal,
                kind,
            );
            &&& attempt_failed(c, d, key, verdict, again, terminal, kind, outcome)
            &&& d.counted()
        }),
{
    let e = c.entry_of(key)->Some_0;
    let mid = c.after_note(key, outcome, Some(kind), None, None);
    let n = noted(e, outcome, Some(kind), None, None);
    lemma_replaced(c, key, n);
    lemma_replaced(mid, key, EntryView { state: NodeState::Queued, ..n });
    lemma_replaced(mid, key, EntryView { state: terminal, failure: Some(kind), ..n });
}

/// A handshake that fails for a transport or protocol reason is tried again exactly as long
/// as attempts are left: the address goes back to its queue while the number of the attempt
/// is below the limit, and ends as handshake-failed with the reason at the limit.
pub proof fn law_failed_handshake_is_retried_up_to_the_limit(
    c: CrawlView,
    key: KeyView,
    number: u32,
    kind: FailKind,
)
    requires
        c.counted(),
        c.entry_of(key) matches Some(e) && e.state == NodeState::Processing && e.attempts.len() > 0,
    ensures
        ({
            let (verdict, d) = c.after_handshake_failure(key, number, kind);
            &&& attempt_failed(
                c,
                d,
                key,
                verdict,
                number < c.settings.node_settings.handshake_attempts,
                NodeState::HandshakeFailed,
                kind,
                "handshake_failed"@,
            )
            &&& d.counted()
        }),
{
    lemma_failed(
        c,
        key,
        number < c.settings.node_settings.handshake_attempts,
        NodeState::HandshakeFailed,
        kind,
        "handshake_failed"@,
    );
}

/// A connection that cannot be made is tried again exactly as long as attempts are left; at
/// the limit the address ends as unreachable, or as handshake-failed where an attempt had
/// connected.
pub proof fn law_failed_connection_is_retried_up_to_the_limit(
    c: CrawlView,
    key: KeyView,
    number: u32,
    kind: FailKind,
)
    requires
        c.counted(),
        c.entry_of(key) matches Some(e) && e.state == NodeState::Processing && e.attempts.len() > 0,
    ensures
        ({
            let (verdict, d) = c.after_connect_failure(key, number, kind);
            let connected = c.entry_of(key)->Some_0.stats.time_connect_ms is Some;
            &&& attempt_failed(
                c,
                d,
                key,
                verdict,
                number < c.settings.node_settings.handshake_attempts,
                if connected {
                    NodeState::HandshakeFailed
                } else {
                    NodeState::Unreachable
                },
                kind,
                "connect_failed"@,
            )
            &&& d.counted()
        }),
{
    let connected = c.entry_of(key)->Some_0.stats.time_connect_ms is Some;
    lemma_failed(
        c,
        key,
        number < c.settings.node_settings.handshake_attempts,
        if connected {
            NodeState::HandshakeFailed
        } else {
            NodeState::Unreachable
        },
        kind,
        "connect_failed"@,
    );
}

/// A peer that stays silent is tried again only where the settings ask for it and attempts
/// are left; otherwise the address ends as handshake-failed for the timeout.
pub proof fn law_silence_is_retried_only_on_request(c: CrawlView, key: KeyView, number: u32)
    requires
        c.counted(),
        c.entry_of(key) matches Some(e) && e.state == NodeState::Processing && e.attempts.len() > 0,
    ensures
        ({
            let (verdict, d) = c.after_handshake_timeout(key, number);
            &&& attempt_failed(
                c,
                d,
                key,
                verdict,
                c.settings.retry_on_timeout && number
                    < c.settings.node_settings.handshake_attempts,
                NodeState::HandshakeFailed,
                FailKind::HandshakeTimeout,
                "handshake_timeout"@,
            )
            &&& d.counted()
        }),
{
    lemma_failed(
        c,
        key,
        c.settings.retry_on_timeout && number < c.settings.node_settings.handshake_attempts,
        NodeState::HandshakeFailed,
        FailKind::HandshakeTimeout,
        "handshake_timeout"@,
    );
}

/// Taking up a queued address begins its next attempt, numbered one more than those before,
/// and uses one node slot. With no slot left nothing is begun: the address is discarded
/// without a reason, and the limit is noted.
pub proof fn law_taking_up_begins_the_next_attempt(c: CrawlView, key: KeyView)
    requires
        c.counted(),
        c.num_processed < usize::MAX,
        c.entry_of(key) matches Some(e) && e.state == NodeState::Queued
            && e.stats.handshake_attempts < u32::MAX,
    ensures
        ({
            let d = c.after_take(key);
            let e = c.entry_of(key)->Some_0;
            let f = d.entry_of(key)->Some_0;
            let slot = c.settings.max_nodes matches Some(max) ==> c.num_processed < max;
            &&& d.entry_of(key) is Some
            &&& d.counted()
            &&& only_entry_differs(c, d, key)
            &&& f.network == e.network
            &&& f.freshest_ts == e.freshest_ts
            &&& f.handshake == e.handshake
            &&& if slot {
                &&& d.num_processed == c.num_processed + 1
                &&& d.node_limit_reached == c.node_limit_reached
                &&& d.store.outstanding == c.store.outstanding
                &&& f.state == NodeState::Processing
                &&& f.failure == e.failure
                &&& f.stats.handshake_attempts == e.stats.handshake_attempts + 1
                &&& f.stats == (NodeStats {
                    handshake_attempts: f.stats.handshake_attempts,
                    ..e.stats
                })
                &&& f.attempts.len() == e.attempts.len() + 1
                &&& f.attempts.drop_last() == e.attempts
                &&& f.attempts.last().attempt == e.stats.handshake_attempts + 1
                &&& f.attempts.last().outcome == "started"@
                &&& f.attempts.last().failure is None
                &&& f.attempts.last().connect_duration_ms is None
                &&& f.attempts.last().version_send_timestamp is None
            } else {
                &&& d.num_processed == c.num_processed
                &&& d.node_limit_reached
                &&& d.store.outstanding == c.store.outstanding - 1
                &&& f.state == NodeState::BudgetDiscarded
                &&& f.failure is None
                &&& f.stats == e.stats
                &&& f.attempts == e.attempts
            }
        }),
{
    let e = c.entry_of(key)->Some_0;
    let mid = c.after_slot();
    let b = begun(e);
    lemma_replaced(mid, key, b);
    assert(b.attempts.drop_last() =~= e.attempts);
    lemma_replaced(mid, key, EntryView { state: NodeState::BudgetDiscarded, failure: None, ..e });
}

/// A connection is recorded with its time, in the node's statistics and in the attempt, and
/// nothing else changes.
pub proof fn law_connection_is_recorded(c: CrawlView, key: KeyView, ms: u64)
    requires
        c.counted(),
        c.entry_of(key) matches Some(e) && e.attempts.len() > 0,
    ensures
        ({
            let d = c.after_connect(key, ms);
            let e = c.entry_of(key)->Some_0;
            let f = d.entry_of(key)->Some_0;
            &&& d.entry_of(key) is Some
            &&& d.counted()
            &&& only_entry_differs(c, d, key)
            &&& d.num_processed == c.num_processed
            &&& d.node_limit_reached == c.node_limit_reached
            &&& d.store.outstanding == c.store.outstanding
            &&& f.stats == (NodeStats { time_connect_ms: Some(ms), ..e.stats })
            &&& f == (EntryView { stats: f.stats, attempts: f.attempts, ..e })
            &&& only_last_attempt_differs(e.attempts, f.attempts)
            &&& f.attempts.last() == (AttemptView {
                connect_duration_ms: Some(ms),
                outcome: "connected"@,
                ..e.attempts.last()
            })
        }),
{
    let e = c.entry_of(key)->Some_0;
    let w = with_connect_time(e, ms);
    lemma_replaced(c, key, w);
    let mid = c.with_entry(key, w);
    lemma_replaced(mid, key, noted(w, "connected"@, None, Some(ms), None));
}

/// The time of a `version` message is recorded in the attempt; in the node's statistics only
/// the first such time is kept.
pub proof fn law_first_version_time_is_kept(c: CrawlView, key: KeyView, ts: i64)
    requires
        c.counted(),
        c.entry_of(key) matches Some(e) && e.attempts.len() > 0,
    ensures
        ({
            let d = c.after_version_sent(key, ts);
            let e = c.entry_of(key)->Some_0;
            let f = d.entry_of(key)->Some_0;
            &&& d.entry_of(key) is Some
            &&& d.counted()
            &&& only_entry_differs(c, d, key)
            &&& d.num_processed == c.num_processed
            &&& d.node_limit_reached == c.node_limit_reached
            &&& d.store.outstanding == c.store.outstanding
            &&& match e.stats.first_version_send_ts {
                Some(first) => f.stats == e.stats,
                None => f.stats == (NodeStats {
                    first_version_send_ts: Some(ts),
                    ..e.stats
                }),
            }
            &&& f == (EntryView { stats: f.stats, attempts: f.attempts, ..e })
            &&& only_last_attempt_differs(e.attempts, f.attempts)
            &&& f.attempts.last() == (AttemptView {
                version_send_timestamp: Some(ts),
                outcome: "version_sent"@,
                ..e.attempts.last()
            })
        }),
{
    let e = c.entry_of(key)->Some_0;
    let w = with_version_time(e, ts);
    lemma_replaced(c, key, w);
    let mid = c.with_entry(key, w);
    lemma_replaced(mid, key, noted(w, "version_sent"@, None, None, Some(ts)));
}

/// What a peer said in its handshake, and how the collection from it ended, are kept in its
/// entry and nowhere else.
pub proof fn law_handshake_and_collection_are_kept(
    c: CrawlView,
    key: KeyView,
    h: HandshakeView,
    outcome: CollectionOutcome,
)
    requires
        c.counted(),
        c.entry_of(key) is Some,
    ensures
        ({
            let d = c.after_handshake(key, h);
            let e = c.entry_of(key)->Some_0;
            &&& d.counted()
            &&& only_entry_differs(c, d, key)
            &&& d.num_processed == c.num_processed
            &&& d.node_limit_reached == c.node_limit_reached
            &&& d.store.outstanding == c.store.outstanding
            &&& d.entry_of(key) == Some(EntryView { handshake: Some(h), ..e })
        }),
        ({
            let d = c.after_collection(key, outcome);
            let e = c.entry_of(key)->Some_0;
            &&& d.counted()
            &&& only_entry_differs(c, d, key)
            &&& d.num_processed == c.num_processed
            &&& d.node_limit_reached == c.node_limit_reached
            &&& d.store.outstanding == c.store.outstanding
            &&& d.entry_of(key) matches Some(f) && f.stats.collection_outcome == outcome && f
                == (EntryView {
                stats: NodeStats {
                    collection_outcome: f.stats.collection_outcome,
                    ..e.stats
                },
                ..e
            })
        }),
{
    let e = c.entry_of(key)->Some_0;
    lemma_replaced(c, key, EntryView { handshake: Some(h), ..e });
    lemma_replaced(
        c,
        key,
        EntryView {
            stats: NodeStats { collection_outcome: outcome, ..e.stats },
            ..e
        },
    );
}

/// Completing the work on an address in hand ends it as reachable, without a reason, and
/// takes it off the outstanding work; the attempt says that the handshake was complete and
/// when its `version` message was sent.
pub proof fn law_completed_address_is_reachable(c: CrawlView, key: KeyView, ts: i64)
    requires
        c.counted(),
        c.entry_of(key) matches Some(e) && e.state == NodeState::Processing && e.attempts.len() > 0,
    ensures
        ({
            let (close, d) = c.after_completion(key, ts);
            let e = c.entry_of(key)->Some_0;
            let f = d.entry_of(key)->Some_0;
            &&& close <==> c.store.outstanding == 1
            &&& d.entry_of(key) is Some
            &&& d.counted()
            &&& only_entry_differs(c, d, key)
            &&& d.num_processed == c.num_processed
            &&& d.node_limit_reached == c.node_limit_reached
            &&& d.store.outstanding == c.store.outstanding - 1
            &&& f.state == NodeState::Reachable
            &&& f.failure is None
            &&& f == (EntryView {
                state: f.state,
                failure: f.failure,
                attempts: f.attempts,
                ..e
            })
            &&& only_last_attempt_differs(e.attempts, f.attempts)
            &&& f.attempts.last() == (AttemptView {
                version_send_timestamp: Some(ts),
                outcome: "handshake_complete"@,
                ..e.attempts.last()
            })
        }),
{
    let e = c.entry_of(key)->Some_0;
    let n = noted(e, "handshake_complete"@, None, None, Some(ts));
    let mid = c.after_note(key, "handshake_complete"@, None, None, Some(ts));
    lemma_replaced(c, key, n);
    lemma_replaced(mid, key, EntryView { state: NodeState::Reachable, failure: None, ..n });
}

/// One failed attempt: after it connected in so many milliseconds, or without a connection.
pub struct FailedAttempt {
    pub connected: Option<u64>,
    pub kind: FailKind,
}

/// The crawl after an address has been taken up and has failed so many times.
pub open spec fn after_failed_attempts(
    c: CrawlView,
    key: KeyView,
    failed: Seq<FailedAttempt>,
    k: nat,
) -> CrawlView
    decreases k,
{
    if k == 0 {
        c
    } else {
        let taken = after_failed_attempts(c, key, failed, (k - 1) as nat).after_take(key);
        match failed[k - 1].connected {
            Some(ms) => taken.after_connect(key, ms).after_handshake_failure(
                key,
                k as u32,
                failed[k - 1].kind,
            ).1,
            None => taken.after_connect_failure(key, k as u32, failed[k - 1].kind).1,
        }
    }
}

/// An address that keeps failing gets exactly as many attempts as the settings allow, and at
/// least one: it is back in its queue after each of them but the last, which ends it with the
/// last reason, as unreachable where none of its attempts connected and as handshake-failed
/// where one did.
pub proof fn law_address_that_keeps_failing_uses_all_attempts(
    c: CrawlView,
    key: KeyView,
    failed: Seq<FailedAttempt>,
    k: nat,
)
    requires
        c.counted(),
        c.entry_of(key) matches Some(e) && e.state == NodeState::Queued && e.attempts.len() == 0
            && e.stats.handshake_attempts == 0 && e.stats.time_connect_ms is None,
        k <= failed.len(),
        k <= 1 || k <= c.settings.node_settings.handshake_attempts,
        c.num_processed + k < usize::MAX,
        c.settings.max_nodes matches Some(max) ==> c.num_processed + k <= max,
    ensures
        ({
            let d = after_failed_attempts(c, key, failed, k);
            let f = d.entry_of(key)->Some_0;
            let connected = exists|j: int|
                0 <= j < k && (#[trigger] failed[j]).connected is Some;
            &&& d.entry_of(key) is Some
            &&& d.counted()
            &&& d.settings == c.settings
            &&& d.num_processed == c.num_processed + k
            &&& f.attempts.len() == k
            &&& f.stats.handshake_attempts == k
            &&& f.stats.time_connect_ms is Some <==> connected
            &&& forall|j: int|
                0 <= j < k ==> (#[trigger] f.attempts[j]).attempt == j + 1 && f.attempts[j].failure
                    == Some(failed[j].kind)
            &&& if k == 0 || k < c.settings.node_settings.handshake_attempts {
                f.state == NodeState::Queued && d.store.outstanding == c.store.outstanding
            } else {
                &&& f.state == if connected {
                    NodeState::HandshakeFailed
                } else {
                    NodeState::Unreachable
                }
                &&& f.failure == Some(failed[k - 1].kind)
                &&& d.store.outstanding == c.store.outstanding - 1
            }
        }),
    decreases k,
{
    if k > 0 {
        let m = (k - 1) as nat;
        law_address_that_keeps_failing_uses_all_attempts(c, key, failed, m);
        let b = after_failed_attempts(c, key, failed, m);
        law_taking_up_begins_the_next_attempt(b, key);
        let t = b.after_take(key);
        let e = b.entry_of(key)->Some_0;
        let g = t.entry_of(key)->Some_0;
        let kind = failed[k - 1].kind;
        assert forall|j: int| 0 <= j < m implies #[trigger] g.attempts[j] == e.attempts[j] by {
            assert(g.attempts.drop_last()[j] == e.attempts[j]);
        }
        match failed[k - 1].connected {
            Some(ms) => {
                law_connection_is_recorded(t, key, ms);
                law_failed_handshake_is_retried_up_to_the_limit(
                    t.after_connect(key, ms),
                    key,
                    k as u32,
                    kind,
                );
                let h = t.after_connect(key, ms).entry_of(key)->Some_0;
                assert forall|j: int| 0 <= j < m implies #[trigger] h.attempts[j] == g.attempts[j]
                    by {
                }
                assert(failed[m as int].connected is Some);
            },
            None => {
                law_failed_connection_is_retried_up_to_the_limit(t, key, k as u32, kind);
                if exists|j: int| 0 <= j < k && (#[trigger] failed[j]).connected is Some {
                    let j = choose|j: int| 0 <= j < k && (#[trigger] failed[j]).connected is Some;
                    assert(j < m);
                }
            },
        }
        if exists|j: int| 0 <= j < m && (#[trigger] failed[j]).connected is Some {
            let j = choose|j: int| 0 <= j < m && (#[trigger] failed[j]).connected is Some;
            assert(j < k && failed[j].connected is Some);
        }
        let f = after_failed_attempts(c, key, failed, k).entry_of(key)->Some_0;
        assert forall|j: int| 0 <= j < k implies (#[trigger] f.attempts[j]).attempt == j + 1
            && f.attempts[j].failure == Some(failed[j].kind) by {
            if j < m {
                assert(e.attempts[j].attempt == j + 1);
                assert(g.attempts[j] == e.attempts[j]);
            }
        }
    }
}

/// A connection fails for the first of these reasons that holds, whatever the network: time ran
/// out, it was refused, it was reset or aborted, or the network or host cannot be reached.
/// Otherwise the transport is named: the proxy for the onion networks, the router for I2P, and
/// no other in particular.
pub proof fn law_connect_errors_name_their_cause(e: IoError, network: NetworkType)
    ensures
        ({
            let r = connect_failure(e, network);
            let timed_out = e.kind == IoErrorKind::TimedOut;
            let refused = e.kind == IoErrorKind::ConnectionRefused;
            let reset = e.kind == IoErrorKind::ConnectionReset || e.kind
                == IoErrorKind::ConnectionAborted;
            let beyond = !timed_out && !refused && !reset && (e.raw_os_error == Some(101i32)
                || e.raw_os_error == Some(113i32));
            let other = !timed_out && !refused && !reset && !beyond;
            let onion = network == NetworkType::OnionV2 || network == NetworkType::OnionV3;
            &&& r == FailKind::ConnectTimeout <==> timed_out
            &&& r == FailKind::ConnectRefused <==> refused
            &&& r == FailKind::ConnectReset <==> reset
            &&& r == FailKind::ConnectUnreachable <==> beyond
            &&& r == FailKind::ProxyError <==> other && onion
            &&& r == FailKind::SamError <==> other && network == NetworkType::I2p
            &&& r == FailKind::ConnectOther <==> other && !onion && network != NetworkType::I2p
        }),
{
}

/// A handshake fails as out of step for bytes that cannot be right, as closed where the peer or
/// the network ended the connection, and for no particular reason otherwise. What could not be
/// sent names itself, but for a pong, which fails as receiving does.
pub proof fn law_handshake_errors_name_their_cause(e: IoError)
    ensures
        ({
            let r = handshake_failure(e);
            let closed = e.kind == IoErrorKind::UnexpectedEof || e.kind
                == IoErrorKind::ConnectionReset || e.kind == IoErrorKind::ConnectionAborted
                || e.kind == IoErrorKind::BrokenPipe;
            &&& r == FailKind::ProtocolDesync <==> e.kind == IoErrorKind::InvalidData
            &&& r == FailKind::ConnectionClosed <==> closed
            &&& r == FailKind::HandshakeOther <==> !closed && e.kind != IoErrorKind::InvalidData
            &&& send_failure(HandshakeSend::Version, e) == FailKind::VersionSendFailed
            &&& send_failure(HandshakeSend::SendAddrV2, e) == FailKind::NegotiationSendFailed
            &&& send_failure(HandshakeSend::Verack, e) == FailKind::VerackSendFailed
            &&& send_failure(HandshakeSend::Pong, e) == r
            &&& send_command(HandshakeSend::Version) == "version"@
            &&& send_command(HandshakeSend::SendAddrV2) == "sendaddrv2"@
            &&& send_command(HandshakeSend::Verack) == "verack"@
            &&& send_command(HandshakeSend::Pong) == "pong"@
        }),
{
}

/// A completed handshake is recorded as the peer's `version` message and the connection say.
pub proof fn law_handshake_is_recorded_as_said(
    v: VersionView,
    sent_ts: i64,
    duration_ms: u64,
    endpoint: Seq<char>,
    destination: Seq<char>,
    local: Seq<char>,
    peer: Seq<char>,
)
    ensures
        ({
            let h = handshake_view(v, sent_ts, duration_ms, endpoint, destination, local, peer);
            &&& h.version == v.version && h.services == v.services && h.user_agent == v.user_agent
            &&& h.latest_block == v.latest_block && h.relay == v.relay
            &&& h.version_reply_timestamp_remote == v.timestamp
            &&& h.handshake_timestamp == sent_ts && h.handshake_duration_ms == duration_ms
            &&& h.requested_endpoint == endpoint && h.transport_destination == destination
            &&& h.socket_local == local && h.socket_peer == peer
            &&& h.version_addr_recv == addr_text(v.addr_recv.host, v.addr_recv.port)
            &&& h.version_addr_recv_services == v.addr_recv.services
            &&& h.version_nonce == v.nonce
            &&& v.addr_from is None ==> h.version_addr_from is None
                && h.version_addr_from_services is None
            &&& v.addr_from matches Some(a) ==> h.version_addr_from == Some(
                addr_text(a.host, a.port),
            ) && h.version_addr_from_services == Some(a.services)
        }),
{
}

/// A length of time is shown by its days, hours and minutes, or, without days, by its hours,
/// minutes and seconds, from the first that is not zero on.
pub proof fn law_remaining_time_is_shown_in_units(days: nat, hours: nat, minutes: nat, seconds: nat)
    requires
        hours < 24 && minutes < 60 && seconds < 60,
        days * 86_400 + hours * 3_600 + minutes * 60 + seconds <= u64::MAX,
    ensures
        ({
            let shown = eta_text(
                (days * 86_400 + hours * 3_600 + minutes * 60 + seconds) as u64,
            );
            let h = decimal(hours) + "h "@;
            let m = decimal(minutes) + "m "@;
            let s = decimal(seconds) + "s"@;
            &&& days > 0 ==> shown == decimal(days) + "d "@ + h + decimal(minutes) + "m"@
            &&& days == 0 && hours > 0 ==> shown == h + m + s
            &&& days == 0 && hours == 0 && minutes > 0 ==> shown == m + s
            &&& days == 0 && hours == 0 && minutes == 0 ==> shown == s
        }),
{
    let total = days * 86_400 + hours * 3_600 + minutes * 60 + seconds;
    assert(total / 86_400 == days);
    assert(total % 86_400 == hours * 3_600 + minutes * 60 + seconds);
    assert((total % 86_400) / 3_600 == hours);
    assert(total % 3_600 == minutes * 60 + seconds);
    assert((total % 3_600) / 60 == minutes);
    assert(total % 60 == seconds);
    let shown = eta_text(total as u64);
    let h = decimal(hours) + "h "@;
    let m = decimal(minutes) + "m "@;
    let s = decimal(seconds) + "s"@;
    if days > 0 {
        assert(shown =~= decimal(days) + "d "@ + h + decimal(minutes) + "m"@);
    } else if hours > 0 {
        assert(shown =~= h + m + s);
    } else if minutes > 0 {
        assert(shown =~= m + s);
    }
}

/// The time of day is the seconds since the epoch, and zero before it.
pub proof fn law_time_counts_from_the_epoch(secs: u64)
    ensures
        secs <= i64::MAX ==> epoch_value(Some(secs)) == secs,
        epoch_value(None) == 0,
{
}

/// An address is of the network that is stored with it, and an unknown one of that which its
/// host spells.
pub proof fn law_network_of_an_address(c: CrawlView, key: KeyView)
    ensures
        c.entry_of(key) matches Some(e) ==> c.network(key) == e.network,
        c.entry_of(key) is None ==> c.network(key) == network_of(key.0),
{
}

/// A node slot is given while fewer nodes have been taken up than the limit, and always
/// without one; each counts, and the first that is refused is noted.
pub proof fn law_slots_are_given_up_to_the_limit(c: CrawlView)
    requires
        c.num_processed < usize::MAX,
    ensures
        ({
            let d = c.after_slot();
            let free = match c.settings.max_nodes {
                Some(max) => c.num_processed < max,
                None => true,
            };
            &&& c.has_node_slot() == free
            &&& d.num_processed == c.num_processed + if free {
                1int
            } else {
                0int
            }
            &&& d.node_limit_reached == (c.node_limit_reached || !free)
            &&& d.store == c.store && d.settings == c.settings && d.shutdown == c.shutdown
            &&& d.worker_failed == c.worker_failed && d.output_failed == c.output_failed
        }),
{
}

} // verus!
