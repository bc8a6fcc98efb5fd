//! The results of a crawl: the three node tables and the statistics.
use vstd::prelude::*;
use crate::address::{addr_text, network_label, NetworkType};
use crate::csv_text::{
    bool_string, bool_text, csv_line, csv_record, empty_string, opt_decimal, opt_decimal_string,
    opt_signed, opt_signed_string, string_views,
};
use crate::encoding::{sha256, sha256_digest};
use crate::lexical::{code_points, lemma_text_before, lex_less};
use crate::listing::{before, distinct_positions, in_order, sort_marks, Mark};
use crate::protocol::{hex, hex_text};
use crate::store::{
    fail_label, outcome_label, rows_of, state_count, AddrKey, AttemptData, AttemptView, EntryView,
    FailKind, HandshakeView, KeyView, NetworkBreakdown, NodeEntry, NodeState, Row,
};
use crate::text::{
    decimal, decimal_string, digit_char, join, push_decimal, push_signed, signed_decimal,
    signed_string,
};

verus! {

/// Per-seed resolution result.
pub struct SeedResult {
    pub seed: String,
    pub addrs: Vec<(AddrKey, NetworkType)>,
}

/// What a snapshot says of itself.
#[derive(Debug, Clone, Copy)]
pub struct SnapshotMeta {
    pub runtime_seconds: i64,
    pub num_processed: usize,
    pub durable_addr_event_id: Option<u64>,
    pub consistent: bool,
    pub run_complete: bool,
}

/// How a snapshot relates to the crawl: taken while it ran, or after all workers ended.
pub fn snapshot_consistency(consistent: bool) -> (r: &'static str)
    ensures
        r@ == if consistent {
            "final_consistent"@
        } else {
            "checkpoint_fuzzy"@
        },
{
    if consistent {
        "final_consistent"
    } else {
        "checkpoint_fuzzy"
    }
}

/// Whether the run is complete: the crawl succeeded, the address log is on stable storage,
/// and the frontier was exhausted.
pub fn run_complete(crawl_ok: bool, log_ok: bool, terminated_early: bool) -> (r: bool)
    ensures
        r == (crawl_ok && log_ok && !terminated_early),
{
    crawl_ok && log_ok && !terminated_early
}

/// The SHA-256 digest of a file's contents in hexadecimal.
pub fn sha256_hex(bytes: &[u8]) -> (r: String)
    ensures
        r@ == hex_text(sha256_digest(bytes@)),
{
    hex(&sha256(bytes))
}

// ---------------------------------------------------------------------------
// Attempt history
// ---------------------------------------------------------------------------

/// A character inside a JSON string.
pub open spec fn json_char(c: char) -> Seq<char> {
    let n = c as int;
    if c == '"' {
        seq!['\\', '"']
    } else if c == '\\' {
        seq!['\\', '\\']
    } else if n == 8 {
        seq!['\\', 'b']
    } else if n == 9 {
        seq!['\\', 't']
    } else if n == 10 {
        seq!['\\', 'n']
    } else if n == 12 {
        seq!['\\', 'f']
    } else if n == 13 {
        seq!['\\', 'r']
    } else if n < 32 {
        seq!['\\', 'u', '0', '0', digit_char(n / 16), digit_char(n % 16)]
    } else {
        seq![c]
    }
}

/// The characters of a JSON string between its quotes.
pub open spec fn json_chars(s: Seq<char>) -> Seq<char>
    decreases s.len(),
{
    if s.len() == 0 {
        Seq::empty()
    } else {
        json_chars(s.drop_last()) + json_char(s.last())
    }
}

/// A string as JSON.
pub open spec fn json_string(s: Seq<char>) -> Seq<char> {
    seq!['"'] + json_chars(s) + seq!['"']
}

/// `serde_json::to_string` of a string: quotes round it, with quotes, backslashes and
/// control characters escaped. It does not fail on a string.
#[verifier::external_body]
fn json_quote(s: &str) -> (r: String)
    ensures
        r@ == json_string(s@),
{
    serde_json::to_string(s).unwrap_or_default()
}

/// A number as JSON, or `null`.
pub open spec fn json_opt_decimal(n: Option<u64>) -> Seq<char> {
    match n {
        Some(n) => decimal(n as nat),
        None => "null"@,
    }
}

/// A signed number as JSON, or `null`.
pub open spec fn json_opt_signed(n: Option<i64>) -> Seq<char> {
    match n {
        Some(n) => signed_decimal(n as int),
        None => "null"@,
    }
}

/// A failure reason as JSON, or `null`.
pub open spec fn json_opt_failure(f: Option<FailKind>) -> Seq<char> {
    match f {
        Some(f) => json_string(fail_label(f)),
        None => "null"@,
    }
}

/// The numbers of an attempt, as the front of a JSON object.
pub open spec fn attempt_numbers_json(a: AttemptView) -> Seq<char> {
    "{\"attempt\":"@ + decimal(a.attempt as nat) + ",\"connect_duration_ms\":"@ + json_opt_decimal(
        a.connect_duration_ms,
    ) + ",\"version_send_timestamp\":"@ + json_opt_signed(a.version_send_timestamp)
}

/// How an attempt went, as the rest of a JSON object.
pub open spec fn attempt_outcome_json(a: AttemptView) -> Seq<char> {
    ",\"outcome\":"@ + json_string(a.outcome) + ",\"failure\":"@ + json_opt_failure(a.failure)
        + "}"@
}

/// One attempt as a JSON object.
pub open spec fn attempt_json(a: AttemptView) -> Seq<char> {
    attempt_numbers_json(a) + attempt_outcome_json(a)
}

/// The attempts as JSON objects.
pub open spec fn attempts_json(attempts: Seq<AttemptView>) -> Seq<Seq<char>> {
    Seq::new(attempts.len(), |i: int| attempt_json(attempts[i]))
}

/// All attempts of an entry as a JSON array.
pub open spec fn history_json(attempts: Seq<AttemptView>) -> Seq<char> {
    seq!['['] + join(attempts_json(attempts), ',') + seq![']']
}

fn push_attempt_numbers(out: &mut String, a: &AttemptData)
    ensures
        final(out)@ == old(out)@ + attempt_numbers_json(a@),
{
    out.push_str("{\"attempt\":");
    push_decimal(out, a.attempt as u64);
    out.push_str(",\"connect_duration_ms\":");
    match a.connect_duration_ms {
        Some(n) => push_decimal(out, n),
        None => out.push_str("null"),
    }
    out.push_str(",\"version_send_timestamp\":");
    match a.version_send_timestamp {
        Some(n) => push_signed(out, n),
        None => out.push_str("null"),
    }
    proof {
        assert(out@ =~= old(out)@ + attempt_numbers_json(a@));
    }
}

fn push_attempt_outcome(out: &mut String, a: &AttemptData)
    ensures
        final(out)@ == old(out)@ + attempt_outcome_json(a@),
{
    let outcome = json_quote(&a.outcome);
    let failure = match a.failure {
        Some(f) => json_quote(f.as_str()),
        None => "null".to_owned(),
    };
    out.push_str(",\"outcome\":");
    out.push_str(&outcome);
    out.push_str(",\"failure\":");
    out.push_str(&failure);
    out.push_str("}");
    proof {
        assert(out@ =~= old(out)@ + attempt_outcome_json(a@));
    }
}

fn push_attempt_json(out: &mut String, a: &AttemptData)
    ensures
        final(out)@ == old(out)@ + attempt_json(a@),
{
    push_attempt_numbers(out, a);
    push_attempt_outcome(out, a);
    proof {
        assert(out@ =~= old(out)@ + attempt_json(a@));
    }
}

/// All attempts of an entry as a JSON array.
pub fn attempt_history_json(entry: &NodeEntry) -> (r: String)
    ensures
        r@ == history_json(entry@.attempts),
{
    let mut out: String = String::new();
    out.push('[');
    let ghost start = out@;
    let ghost texts = attempts_json(entry@.attempts);
    let mut i: usize = 0;
    proof {
        assert(texts.take(0) =~= Seq::<Seq<char>>::empty());
        assert(out@ =~= start + join(texts.take(0), ','));
    }
    while i < entry.attempts.len()
        invariant
            i <= entry.attempts@.len(),
            texts == attempts_json(entry@.attempts),
            out@ == start + join(texts.take(i as int), ','),
        decreases entry.attempts@.len() - i,
    {
        proof {
            let next = texts.take(i + 1);
            assert(next.drop_last() =~= texts.take(i as int));
            assert(next.last() == attempt_json(entry.attempts@[i as int]@));
        }
        if i > 0 {
            out.push(',');
        }
        push_attempt_json(&mut out, &entry.attempts[i]);
        i = i + 1;
        proof {
            assert(out@ =~= start + join(texts.take(i as int), ','));
        }
    }
    out.push(']');
    proof {
        assert(texts.take(i as int) =~= texts);
        assert(out@ =~= history_json(entry@.attempts));
    }
    out
}

// ---------------------------------------------------------------------------
// Tables
// ---------------------------------------------------------------------------

/// The three tables.
#[derive(Debug, Clone, Copy, PartialEq, Eq, Structural)]
pub enum Table {
    Reachable,
    HandshakeFailed,
    Unreachable,
}

/// The state of the nodes in a table.
pub open spec fn table_state(table: Table) -> NodeState {
    match table {
        Table::Reachable => NodeState::Reachable,
        Table::HandshakeFailed => NodeState::HandshakeFailed,
        Table::Unreachable => NodeState::Unreachable,
    }
}

/// The time by which a table is ordered: that of the handshake, that of the first `version`
/// message, or the time last seen.
pub open spec fn table_time(table: Table, e: EntryView) -> i64 {
    match table {
        Table::Reachable => match e.handshake {
            Some(h) => h.handshake_timestamp,
            None => 0,
        },
        Table::HandshakeFailed => match e.stats.first_version_send_ts {
            Some(ts) => ts,
            None => 0,
        },
        Table::Unreachable => e.freshest_ts,
    }
}

/// Whether `order` lists exactly the nodes of a table, by time, those of one time in the
/// order in which they are stored.
pub open spec fn lists_table(rows: Seq<Row>, table: Table, order: Seq<Mark>) -> bool {
    in_order(order) && forall|m: Mark| #[trigger]
        order.contains(m) <==> m.1 < rows.len() && rows[m.1 as int].1.state == table_state(table)
            && m.0 == table_time(table, rows[m.1 as int].1)
}

/// The column names of a table.
pub open spec fn table_header(table: Table) -> Seq<Seq<char>> {
    match table {
        Table::Reachable => seq![
            "host"@,
            "port"@,
            "network"@,
            "handshake_timestamp"@,
            "time_connect"@,
            "handshake_attempts"@,
            "handshake_duration"@,
            "version"@,
            "services"@,
            "user_agent"@,
            "latest_block"@,
            "relay"@,
            "version_reply_timestamp_remote"@,
            "advertised_addrs_total"@,
            "advertised_addrs_ipv4"@,
            "advertised_addrs_ipv6"@,
            "advertised_addrs_onion_v2"@,
            "advertised_addrs_onion_v3"@,
            "advertised_addrs_i2p"@,
            "advertised_addrs_cjdns"@,
            "freshest_timestamp"@,
            "collection_outcome"@,
            "valid_addr_messages"@,
            "malformed_addr_messages"@,
            "requested_endpoint"@,
            "transport_destination"@,
            "socket_local"@,
            "socket_peer"@,
            "version_addr_recv"@,
            "version_addr_recv_services"@,
            "version_addr_from"@,
            "version_addr_from_services"@,
            "version_nonce"@,
            "attempt_history_json"@,
        ],
        Table::HandshakeFailed => seq![
            "host"@,
            "port"@,
            "network"@,
            "failure_reason"@,
            "handshake_timestamp"@,
            "time_connect"@,
            "handshake_attempts"@,
            "freshest_timestamp"@,
            "attempt_history_json"@,
        ],
        Table::Unreachable => seq![
            "host"@,
            "port"@,
            "network"@,
            "failure_reason"@,
            "handshake_attempts"@,
            "freshest_timestamp"@,
            "attempt_history_json"@,
        ],
    }
}

/// The text of an optional string, or nothing.
pub open spec fn opt_text(s: Option<Seq<char>>) -> Seq<char> {
    match s {
        Some(s) => s,
        None => Seq::empty(),
    }
}

/// A failure reason, or nothing.
pub open spec fn failure_text(f: Option<FailKind>) -> Seq<char> {
    match f {
        Some(f) => fail_label(f),
        None => Seq::empty(),
    }
}

/// The record of a reachable node.
pub open spec fn reachable_fields(key: KeyView, e: EntryView, h: HandshakeView) -> Seq<Seq<char>> {
    let s = e.stats;
    seq![
        key.0,
        decimal(key.1 as nat),
        network_label(e.network),
        signed_decimal(h.handshake_timestamp as int),
        opt_decimal(s.time_connect_ms),
        decimal(s.handshake_attempts as nat),
        decimal(h.handshake_duration_ms as nat),
        signed_decimal(h.version as int),
        decimal(h.services as nat),
        h.user_agent,
        signed_decimal(h.latest_block as int),
        bool_text(h.relay),
        signed_decimal(h.version_reply_timestamp_remote as int),
        decimal(s.advertised_total as nat),
        decimal(s.advertised_ipv4 as nat),
        decimal(s.advertised_ipv6 as nat),
        decimal(s.advertised_onion_v2 as nat),
        decimal(s.advertised_onion_v3 as nat),
        decimal(s.advertised_i2p as nat),
        decimal(s.advertised_cjdns as nat),
        signed_decimal(e.freshest_ts as int),
        outcome_label(s.collection_outcome),
        decimal(s.valid_addr_messages as nat),
        decimal(s.malformed_addr_messages as nat),
        h.requested_endpoint,
        h.transport_destination,
        h.socket_local,
        h.socket_peer,
        h.version_addr_recv,
        decimal(h.version_addr_recv_services as nat),
        opt_text(h.version_addr_from),
        opt_decimal(h.version_addr_from_services),
        opt_decimal(h.version_nonce),
        history_json(e.attempts),
    ]
}

/// The record of a node in a table.
pub open spec fn table_fields(table: Table, row: Row) -> Seq<Seq<char>> {
    let (key, e) = row;
    match table {
        Table::Reachable => reachable_fields(key, e, e.handshake->Some_0),
        Table::HandshakeFailed => seq![
            key.0,
            decimal(key.1 as nat),
            network_label(e.network),
            failure_text(e.failure),
            opt_signed(e.stats.first_version_send_ts),
            opt_decimal(e.stats.time_connect_ms),
            decimal(e.stats.handshake_attempts as nat),
            signed_decimal(e.freshest_ts as int),
            history_json(e.attempts),
        ],
        Table::Unreachable => seq![
            key.0,
            decimal(key.1 as nat),
            network_label(e.network),
            failure_text(e.failure),
            decimal(e.stats.handshake_attempts as nat),
            signed_decimal(e.freshest_ts as int),
            history_json(e.attempts),
        ],
    }
}

/// The records of the first `n` nodes in listing order.
pub open spec fn table_lines(table: Table, rows: Seq<Row>, order: Seq<Mark>, n: nat) -> Seq<char>
    decreases n,
{
    if n == 0 {
        Seq::empty()
    } else {
        table_lines(table, rows, order, (n - 1) as nat) + csv_line(
            table_fields(table, rows[order[n - 1].1 as int]),
        )
    }
}

/// A whole table: its header, and the records in listing order. A table without nodes is its
/// header alone.
pub open spec fn table_text(table: Table, rows: Seq<Row>, order: Seq<Mark>) -> Seq<char> {
    csv_line(table_header(table)) + table_lines(table, rows, order, order.len())
}

/// Whether every reachable node has its handshake metadata.
pub open spec fn reachable_have_handshakes(rows: Seq<Row>) -> bool {
    forall|i: int|
        0 <= i < rows.len() && (#[trigger] rows[i]).1.state == NodeState::Reachable
            ==> rows[i].1.handshake is Some
}

fn entry_time(table: Table, e: &NodeEntry) -> (r: i64)
    ensures
        r == table_time(table, e@),
{
    match table {
        Table::Reachable => match &e.handshake {
            Some(h) => h.handshake_timestamp,
            None => 0,
        },
        Table::HandshakeFailed => match e.stats.first_version_send_ts {
            Some(ts) => ts,
            None => 0,
        },
        Table::Unreachable => e.freshest_ts,
    }
}

fn state_of(table: Table) -> (r: NodeState)
    ensures
        r == table_state(table),
{
    match table {
        Table::Reachable => NodeState::Reachable,
        Table::HandshakeFailed => NodeState::HandshakeFailed,
        Table::Unreachable => NodeState::Unreachable,
    }
}

/// The nodes of a table in listing order.
pub fn table_order(snapshot: &Vec<(AddrKey, NodeEntry)>, table: Table) -> (r: Vec<Mark>)
    ensures
        lists_table(rows_of(snapshot@), table, r@),
{
    let ghost rows = rows_of(snapshot@);
    let state = state_of(table);
    let mut marks: Vec<Mark> = Vec::new();
    let mut i: usize = 0;
    while i < snapshot.len()
        invariant
            i <= snapshot@.len(),
            rows == rows_of(snapshot@),
            state == table_state(table),
            forall|k: int| 0 <= k < marks@.len() ==> (#[trigger] marks@[k]).1 < i,
            distinct_positions(marks@),
            forall|m: Mark| #[trigger]
                marks@.contains(m) <==> m.1 < i && rows[m.1 as int].1.state == table_state(table)
                    && m.0 == table_time(table, rows[m.1 as int].1),
        decreases snapshot@.len() - i,
    {
        let e = &snapshot[i].1;
        let ghost old_marks = marks@;
        proof {
            assert(rows[i as int].1 == e@);
        }
        if e.state == state {
            let mark: Mark = (entry_time(table, e), i);
            marks.push(mark);
            proof {
                assert forall|m: Mark| #[trigger] marks@.contains(m) <==> m.1 < i + 1
                    && rows[m.1 as int].1.state == table_state(table) && m.0 == table_time(
                    table,
                    rows[m.1 as int].1,
                ) by {
                    if marks@.contains(m) {
                        let k = choose|k: int| 0 <= k < marks@.len() && marks@[k] == m;
                        if k < old_marks.len() {
                            assert(old_marks[k] == m);
                            assert(old_marks.contains(m));
                        }
                    }
                    if m.1 < i + 1 && rows[m.1 as int].1.state == table_state(table) && m.0
                        == table_time(table, rows[m.1 as int].1) {
                        if m.1 < i {
                            assert(old_marks.contains(m));
                            let k = choose|k: int| 0 <= k < old_marks.len() && old_marks[k] == m;
                            assert(marks@[k] == m);
                        } else {
                            assert(m == mark);
                            assert(marks@[marks@.len() - 1] == m);
                        }
                    }
                }
            }
        }
        i = i + 1;
    }
    let r = sort_marks(&marks);
    proof {
        assert forall|m: Mark| #[trigger] r@.contains(m) <==> m.1 < rows.len()
            && rows[m.1 as int].1.state == table_state(table) && m.0 == table_time(
            table,
            rows[m.1 as int].1,
        ) by {
            assert(r@.contains(m) <==> marks@.contains(m));
        }
    }
    r
}

fn header_of(table: Table) -> (r: Vec<String>)
    ensures
        string_views(r@) == table_header(table),
        r@.len() >= 2,
{
    let mut h: Vec<String> = Vec::new();
    h.push("host".to_owned());
    h.push("port".to_owned());
    h.push("network".to_owned());
    match table {
        Table::Reachable => {
            h.push("handshake_timestamp".to_owned());
            h.push("time_connect".to_owned());
            h.push("handshake_attempts".to_owned());
            h.push("handshake_duration".to_owned());
            h.push("version".to_owned());
            h.push("services".to_owned());
            h.push("user_agent".to_owned());
            h.push("latest_block".to_owned());
            h.push("relay".to_owned());
            h.push("version_reply_timestamp_remote".to_owned());
            h.push("advertised_addrs_total".to_owned());
            h.push("advertised_addrs_ipv4".to_owned());
            h.push("advertised_addrs_ipv6".to_owned());
            h.push("advertised_addrs_onion_v2".to_owned());
            h.push("advertised_addrs_onion_v3".to_owned());
            h.push("advertised_addrs_i2p".to_owned());
            h.push("advertised_addrs_cjdns".to_owned());
            h.push("freshest_timestamp".to_owned());
            h.push("collection_outcome".to_owned());
            h.push("valid_addr_messages".to_owned());
            h.push("malformed_addr_messages".to_owned());
            h.push("requested_endpoint".to_owned());
            h.push("transport_destination".to_owned());
            h.push("socket_local".to_owned());
            h.push("socket_peer".to_owned());
            h.push("version_addr_recv".to_owned());
            h.push("version_addr_recv_services".to_owned());
            h.push("version_addr_from".to_owned());
            h.push("version_addr_from_services".to_owned());
            h.push("version_nonce".to_owned());
        },
        Table::HandshakeFailed => {
            h.push("failure_reason".to_owned());
            h.push("handshake_timestamp".to_owned());
            h.push("time_connect".to_owned());
            h.push("handshake_attempts".to_owned());
            h.push("freshest_timestamp".to_owned());
        },
        Table::Unreachable => {
            h.push("failure_reason".to_owned());
            h.push("handshake_attempts".to_owned());
            h.push("freshest_timestamp".to_owned());
        },
    }
    h.push("attempt_history_json".to_owned());
    proof {
        assert(string_views(h@) =~= table_header(table));
    }
    h
}

fn failure_string(f: Option<FailKind>) -> (r: String)
    ensures
        r@ == failure_text(f),
{
    match f {
        Some(f) => f.as_str().to_owned(),
        None => empty_string(),
    }
}

fn reachable_record(key: &AddrKey, e: &NodeEntry, history: String) -> (r: Vec<String>)
    requires
        e@.handshake is Some,
        history@ == history_json(e@.attempts),
    ensures
        string_views(r@) == reachable_fields(key@, e@, e@.handshake->Some_0),
        r@.len() >= 2,
{
    let mut f: Vec<String> = Vec::new();
    let s = &e.stats;
    match &e.handshake {
        Some(h) => {
            f.push(key.host.clone());
            f.push(decimal_string(key.port as u64));
            f.push(e.network.as_str().to_owned());
            f.push(signed_string(h.handshake_timestamp));
            f.push(opt_decimal_string(s.time_connect_ms));
            f.push(decimal_string(s.handshake_attempts as u64));
            f.push(decimal_string(h.handshake_duration_ms));
            f.push(signed_string(h.version as i64));
            f.push(decimal_string(h.services));
            f.push(h.user_agent.clone());
            f.push(signed_string(h.latest_block as i64));
            f.push(bool_string(h.relay));
            f.push(signed_string(h.version_reply_timestamp_remote));
            f.push(decimal_string(s.advertised_total));
            f.push(decimal_string(s.advertised_ipv4));
            f.push(decimal_string(s.advertised_ipv6));
            f.push(decimal_string(s.advertised_onion_v2));
            f.push(decimal_string(s.advertised_onion_v3));
            f.push(decimal_string(s.advertised_i2p));
            f.push(decimal_string(s.advertised_cjdns));
            f.push(signed_string(e.freshest_ts));
            f.push(s.collection_outcome.as_str().to_owned());
            f.push(decimal_string(s.valid_addr_messages));
            f.push(decimal_string(s.malformed_addr_messages));
            f.push(h.requested_endpoint.clone());
            f.push(h.transport_destination.clone());
            f.push(h.socket_local.clone());
            f.push(h.socket_peer.clone());
            f.push(h.version_addr_recv.clone());
            f.push(decimal_string(h.version_addr_recv_services));
            match &h.version_addr_from {
                Some(a) => f.push(a.clone()),
                None => f.push(empty_string()),
            }
            f.push(opt_decimal_string(h.version_addr_from_services));
            f.push(opt_decimal_string(h.version_nonce));
        },
        None => {},
    }
    f.push(history);
    proof {
        assert(string_views(f@) =~= reachable_fields(key@, e@, e@.handshake->Some_0));
    }
    f
}

/// The record of a node in a table.
fn table_record(table: Table, key: &AddrKey, e: &NodeEntry) -> (r: Vec<String>)
    requires
        table == Table::Reachable ==> e@.handshake is Some,
    ensures
        string_views(r@) == table_fields(table, (key@, e@)),
        r@.len() >= 2,
{
    let history = attempt_history_json(e);
    if table == Table::Reachable {
        return reachable_record(key, e, history);
    }
    let mut f: Vec<String> = Vec::new();
    f.push(key.host.clone());
    f.push(decimal_string(key.port as u64));
    f.push(e.network.as_str().to_owned());
    f.push(failure_string(e.failure));
    if table == Table::HandshakeFailed {
        f.push(opt_signed_string(e.stats.first_version_send_ts));
        f.push(opt_decimal_string(e.stats.time_connect_ms));
    }
    f.push(decimal_string(e.stats.handshake_attempts as u64));
    f.push(signed_string(e.freshest_ts));
    f.push(history);
    proof {
        assert(string_views(f@) =~= table_fields(table, (key@, e@)));
    }
    f
}

/// Writes a table.
#[verifier::rlimit(40)]
fn write_table(snapshot: &Vec<(AddrKey, NodeEntry)>, table: Table) -> (r: String)
    requires
        table == Table::Reachable ==> reachable_have_handshakes(rows_of(snapshot@)),
    ensures
        exists|order: Seq<Mark>|
            lists_table(rows_of(snapshot@), table, order) && r@ == #[trigger] table_text(
                table,
                rows_of(snapshot@),
                order,
            ),
{
    let ghost rows = rows_of(snapshot@);
    let order = table_order(snapshot, table);
    let mut out: String = csv_record(&header_of(table));
    let ghost head = out@;
    let mut i: usize = 0;
    proof {
        assert(out@ =~= head + table_lines(table, rows, order@, 0));
    }
    while i < order.len()
        invariant
            i <= order@.len(),
            rows == rows_of(snapshot@),
            lists_table(rows, table, order@),
            table == Table::Reachable ==> reachable_have_handshakes(rows),
            out@ == head + table_lines(table, rows, order@, i as nat),
        decreases order@.len() - i,
    {
        let at = order[i].1;
        proof {
            assert(order@.contains(order@[i as int]));
            assert(rows[at as int] == (snapshot@[at as int].0@, snapshot@[at as int].1@));
        }
        let record = table_record(table, &snapshot[at].0, &snapshot[at].1);
        let line = csv_record(&record);
        out.push_str(&line);
        i = i + 1;
        proof {
            assert(out@ =~= head + table_lines(table, rows, order@, i as nat));
        }
    }
    proof {
        assert(out@ == table_text(table, rows, order@));
    }
    out
}

/// Writes the table of reachable nodes, ordered by the time of the handshake.
pub fn write_reachable(snapshot: &Vec<(AddrKey, NodeEntry)>) -> (r: String)
    requires
        reachable_have_handshakes(rows_of(snapshot@)),
    ensures
        exists|order: Seq<Mark>|
            lists_table(rows_of(snapshot@), Table::Reachable, order) && r@
                == #[trigger] table_text(Table::Reachable, rows_of(snapshot@), order),
{
    write_table(snapshot, Table::Reachable)
}

/// Writes the table of nodes that connected but failed the handshake, ordered by the time of
/// the first `version` message.
pub fn write_handshake_failed(snapshot: &Vec<(AddrKey, NodeEntry)>) -> (r: String)
    ensures
        exists|order: Seq<Mark>|
            lists_table(rows_of(snapshot@), Table::HandshakeFailed, order) && r@
                == #[trigger] table_text(Table::HandshakeFailed, rows_of(snapshot@), order),
{
    write_table(snapshot, Table::HandshakeFailed)
}

/// Writes the table of nodes that never connected, ordered by the time they were last seen.
pub fn write_unreachable(snapshot: &Vec<(AddrKey, NodeEntry)>) -> (r: String)
    ensures
        exists|order: Seq<Mark>|
            lists_table(rows_of(snapshot@), Table::Unreachable, order) && r@
                == #[trigger] table_text(Table::Unreachable, rows_of(snapshot@), order),
{
    write_table(snapshot, Table::Unreachable)
}

/// A table has one listing order, so its text is determined by the rows.
pub proof fn law_table_text_is_unique(
    rows: Seq<Row>,
    table: Table,
    a: Seq<Mark>,
    b: Seq<Mark>,
)
    requires
        lists_table(rows, table, a),
        lists_table(rows, table, b),
    ensures
        a == b,
        table_text(table, rows, a) == table_text(table, rows, b),
{
    assert forall|m: Mark| #[trigger] a.contains(m) <==> #[trigger] b.contains(m) by {
    }
    crate::listing::law_listing_is_unique(a, b);
}

/// A table without nodes is its header alone.
pub proof fn law_empty_table_is_its_header(rows: Seq<Row>, table: Table, order: Seq<Mark>)
    requires
        lists_table(rows, table, order),
        forall|i: int|
            0 <= i < rows.len() ==> (#[trigger] rows[i]).1.state != table_state(table),
    ensures
        table_text(table, rows, order) == csv_line(table_header(table)),
{
    if order.len() > 0 {
        assert(order.contains(order[0]));
    }
    assert(table_text(table, rows, order) =~= csv_line(table_header(table)));
}

// ---------------------------------------------------------------------------
// Statistics
// ---------------------------------------------------------------------------

/// How many rows of a network are in a state.
pub open spec fn network_count(rows: Seq<Row>, state: NodeState, net: NetworkType) -> nat
    decreases rows.len(),
{
    if rows.len() == 0 {
        0
    } else {
        network_count(rows.drop_last(), state, net) + if rows.last().1.state == state
            && rows.last().1.network == net {
            1nat
        } else {
            0nat
        }
    }
}

/// Whether a breakdown counts exactly the rows in a state.
pub open spec fn breaks_down(b: NetworkBreakdown, rows: Seq<Row>, state: NodeState) -> bool {
    &&& b.total == state_count(rows, state)
    &&& forall|net: NetworkType| #[trigger] b.count(net) == network_count(rows, state, net)
    &&& b.balanced()
}

/// The rendered addresses of the rows in a state, in order.
pub open spec fn rendered(rows: Seq<Row>, state: NodeState) -> Seq<Seq<char>>
    decreases rows.len(),
{
    if rows.len() == 0 {
        Seq::empty()
    } else {
        let before = rendered(rows.drop_last(), state);
        let (key, e) = rows.last();
        if e.state == state {
            before.push(addr_text(key.0, key.1))
        } else {
            before
        }
    }
}

/// The failure reasons by their labels in alphabetical order; `None` is labelled
/// `unknown`.
pub open spec fn reasons() -> Seq<Option<FailKind>> {
    seq![
        Some(FailKind::ConnectOther),
        Some(FailKind::ConnectRefused),
        Some(FailKind::ConnectReset),
        Some(FailKind::ConnectTimeout),
        Some(FailKind::ConnectUnreachable),
        Some(FailKind::ConnectionClosed),
        Some(FailKind::HandshakeOther),
        Some(FailKind::HandshakeTimeout),
        Some(FailKind::MalformedVersion),
        Some(FailKind::NegotiationSendFailed),
        Some(FailKind::PeerVerackTimeout),
        Some(FailKind::ProtocolDesync),
        Some(FailKind::ProxyError),
        Some(FailKind::SamError),
        None,
        Some(FailKind::VerackSendFailed),
        Some(FailKind::VersionSendFailed),
        Some(FailKind::WorkerFailed),
    ]
}

/// The label of a failure reason.
pub open spec fn reason_label(reason: Option<FailKind>) -> Seq<char> {
    match reason {
        Some(f) => fail_label(f),
        None => "unknown"@,
    }
}

/// How many rows in a state carry a failure reason.
pub open spec fn reason_count(rows: Seq<Row>, state: NodeState, reason: Option<FailKind>) -> nat
    decreases rows.len(),
{
    if rows.len() == 0 {
        0
    } else {
        reason_count(rows.drop_last(), state, reason) + if rows.last().1.state == state
            && rows.last().1.failure == reason {
            1nat
        } else {
            0nat
        }
    }
}

/// The reasons that occur among the first `n`, with how often each occurs.
pub open spec fn histogram(rows: Seq<Row>, state: NodeState, n: nat) -> Seq<(Seq<char>, u64)>
    decreases n,
{
    if n == 0 {
        Seq::empty()
    } else {
        let before = histogram(rows, state, (n - 1) as nat);
        let reason = reasons()[n - 1];
        if reason_count(rows, state, reason) > 0 {
            before.push((reason_label(reason), reason_count(rows, state, reason) as u64))
        } else {
            before
        }
    }
}

/// The contents of a list of labelled counts.
pub open spec fn labelled(v: Seq<(&'static str, u64)>) -> Seq<(Seq<char>, u64)> {
    Seq::new(v.len(), |i: int| (v[i].0@, v[i].1))
}

/// The rows with a given state, broken down.
pub struct StateSummary {
    pub breakdown: NetworkBreakdown,
    pub list: Vec<String>,
}

impl StateSummary {
    /// Whether this is the summary of the rows in a state.
    pub open spec fn summarizes(self, rows: Seq<Row>, state: NodeState) -> bool {
        &&& breaks_down(self.breakdown, rows, state)
        &&& string_views(self.list@) == rendered(rows, state)
    }
}

/// What a DNS seed contributed.
pub struct SeedSummary {
    pub seed: String,
    pub breakdown: NetworkBreakdown,
    pub list: Vec<String>,
}

/// How many addresses of a network a seed gave.
pub open spec fn seed_network_count(addrs: Seq<(AddrKey, NetworkType)>, net: NetworkType) -> nat
    decreases addrs.len(),
{
    if addrs.len() == 0 {
        0
    } else {
        seed_network_count(addrs.drop_last(), net) + if addrs.last().1 == net {
            1nat
        } else {
            0nat
        }
    }
}

/// The rendered addresses of a seed.
pub open spec fn seed_rendered(addrs: Seq<(AddrKey, NetworkType)>) -> Seq<Seq<char>> {
    Seq::new(addrs.len(), |i: int| addr_text(addrs[i].0@.0, addrs[i].0@.1))
}

impl SeedSummary {
    /// Whether this is the summary of a seed's addresses.
    pub open spec fn summarizes(self, s: SeedResult) -> bool {
        &&& self.seed@ == s.seed@
        &&& self.breakdown.total == s.addrs@.len()
        &&& forall|net: NetworkType| #[trigger]
            self.breakdown.count(net) == seed_network_count(s.addrs@, net)
        &&& self.breakdown.balanced()
        &&& string_views(self.list@) == seed_rendered(s.addrs@)
    }
}

/// The statistics of a snapshot.
pub struct CrawlStats {
    pub runtime_seconds: i64,
    pub num_processed_nodes: usize,
    pub reachable: StateSummary,
    pub handshake_failed: StateSummary,
    pub unreachable: StateSummary,
    pub handshake_failed_reasons: Vec<(&'static str, u64)>,
    pub unreachable_reasons: Vec<(&'static str, u64)>,
    pub num_advertised: usize,
    pub num_budget_rejected_observations: usize,
    pub snapshot_consistency: &'static str,
    pub run_complete: bool,
    pub seeds: Vec<SeedSummary>,
}

pub fn reason_at(i: usize) -> (r: Option<FailKind>)
    requires
        i < 18,
    ensures
        r == reasons()[i as int],
{
    match i {
        0 => Some(FailKind::ConnectOther),
        1 => Some(FailKind::ConnectRefused),
        2 => Some(FailKind::ConnectReset),
        3 => Some(FailKind::ConnectTimeout),
        4 => Some(FailKind::ConnectUnreachable),
        5 => Some(FailKind::ConnectionClosed),
        6 => Some(FailKind::HandshakeOther),
        7 => Some(FailKind::HandshakeTimeout),
        8 => Some(FailKind::MalformedVersion),
        9 => Some(FailKind::NegotiationSendFailed),
        10 => Some(FailKind::PeerVerackTimeout),
        11 => Some(FailKind::ProtocolDesync),
        12 => Some(FailKind::ProxyError),
        13 => Some(FailKind::SamError),
        14 => None,
        15 => Some(FailKind::VerackSendFailed),
        16 => Some(FailKind::VersionSendFailed),
        _ => Some(FailKind::WorkerFailed),
    }
}

fn label_of(reason: Option<FailKind>) -> (r: &'static str)
    ensures
        r@ == reason_label(reason),
{
    match reason {
        Some(f) => f.as_str(),
        None => "unknown",
    }
}

fn count_reason(snapshot: &Vec<(AddrKey, NodeEntry)>, state: NodeState, reason: Option<FailKind>)
    -> (r: u64)
    ensures
        r == reason_count(rows_of(snapshot@), state, reason),
{
    let ghost rows = rows_of(snapshot@);
    let mut n: u64 = 0;
    let mut i: usize = 0;
    proof {
        assert(rows.take(0) =~= Seq::<Row>::empty());
    }
    while i < snapshot.len()
        invariant
            i <= snapshot@.len(),
            rows == rows_of(snapshot@),
            n <= i,
            n == reason_count(rows.take(i as int), state, reason),
        decreases snapshot@.len() - i,
    {
        let e = &snapshot[i].1;
        proof {
            let next = rows.take(i + 1);
            assert(next.drop_last() =~= rows.take(i as int));
            assert(next.last() == rows[i as int]);
            assert(rows[i as int].1 == e@);
        }
        if e.state == state && e.failure == reason {
            n = n + 1;
        }
        i = i + 1;
    }
    proof {
        assert(rows.take(i as int) =~= rows);
    }
    n
}

/// Summarizes the nodes in a state.
pub fn summarize_state(snapshot: &Vec<(AddrKey, NodeEntry)>, state: NodeState) -> (r: StateSummary)
    ensures
        r.summarizes(rows_of(snapshot@), state),
{
    let ghost rows = rows_of(snapshot@);
    let mut breakdown = NetworkBreakdown::default();
    let mut list: Vec<String> = Vec::new();
    let mut i: usize = 0;
    proof {
        assert(rows.take(0) =~= Seq::<Row>::empty());
        assert(string_views(list@) =~= rendered(rows.take(0), state));
    }
    while i < snapshot.len()
        invariant
            i <= snapshot@.len(),
            rows == rows_of(snapshot@),
            breakdown.total <= i,
            breaks_down(breakdown, rows.take(i as int), state),
            string_views(list@) == rendered(rows.take(i as int), state),
        decreases snapshot@.len() - i,
    {
        let e = &snapshot[i].1;
        let key = &snapshot[i].0;
        let ghost before = string_views(list@);
        let ghost b = breakdown;
        let ghost next = rows.take(i + 1);
        proof {
            assert(next.drop_last() =~= rows.take(i as int));
            assert(next.last() == rows[i as int]);
            assert(rows[i as int] == (key@, e@));
            assert(b.count(e.network) <= b.total);
        }
        if e.state == state {
            breakdown.add(e.network);
            let text = key.render();
            list.push(text);
            proof {
                assert(string_views(list@) =~= before.push(text@));
            }
        }
        i = i + 1;
    }
    proof {
        assert(rows.take(i as int) =~= rows);
    }
    StateSummary { breakdown, list }
}

/// Counts why nodes are in a state, by reason in alphabetical order.
pub fn summarize_reasons(snapshot: &Vec<(AddrKey, NodeEntry)>, state: NodeState) -> (r: Vec<
    (&'static str, u64),
>)
    ensures
        labelled(r@) == histogram(rows_of(snapshot@), state, reasons().len()),
{
    let ghost rows = rows_of(snapshot@);
    let mut out: Vec<(&'static str, u64)> = Vec::new();
    let mut i: usize = 0;
    proof {
        assert(labelled(out@) =~= histogram(rows, state, 0));
    }
    while i < 18
        invariant
            i <= 18,
            rows == rows_of(snapshot@),
            labelled(out@) == histogram(rows, state, i as nat),
        decreases 18 - i,
    {
        let ghost before = labelled(out@);
        let reason = reason_at(i);
        let n = count_reason(snapshot, state, reason);
        if n > 0 {
            let label = label_of(reason);
            out.push((label, n));
            proof {
                assert(labelled(out@) =~= before.push((label@, n)));
            }
        }
        i = i + 1;
    }
    out
}

/// Summarizes what a seed contributed.
pub fn summarize_seed(s: &SeedResult) -> (r: SeedSummary)
    ensures
        r.summarizes(*s),
{
    let mut breakdown = NetworkBreakdown::default();
    let mut list: Vec<String> = Vec::new();
    let mut i: usize = 0;
    proof {
        assert(s.addrs@.take(0) =~= Seq::<(AddrKey, NetworkType)>::empty());
        assert(string_views(list@) =~= seed_rendered(s.addrs@).take(0));
    }
    while i < s.addrs.len()
        invariant
            i <= s.addrs@.len(),
            breakdown.total == i,
            breakdown.balanced(),
            forall|net: NetworkType| #[trigger]
                breakdown.count(net) == seed_network_count(s.addrs@.take(i as int), net),
            string_views(list@) == seed_rendered(s.addrs@).take(i as int),
        decreases s.addrs@.len() - i,
    {
        let key = &s.addrs[i].0;
        let net = s.addrs[i].1;
        proof {
            let next = s.addrs@.take(i + 1);
            assert(next.drop_last() =~= s.addrs@.take(i as int));
            assert(next.last() == s.addrs@[i as int]);
            assert(breakdown.count(net) <= breakdown.total);
        }
        breakdown.add(net);
        let ghost before = string_views(list@);
        let text = key.render();
        list.push(text);
        i = i + 1;
        proof {
            assert(string_views(list@) =~= before.push(text@));
            assert(seed_rendered(s.addrs@)[i - 1] == text@);
            assert(string_views(list@) =~= seed_rendered(s.addrs@).take(i as int));
        }
    }
    proof {
        assert(s.addrs@.take(i as int) =~= s.addrs@);
        assert(seed_rendered(s.addrs@).take(i as int) =~= seed_rendered(s.addrs@));
    }
    SeedSummary { seed: s.seed.clone(), breakdown, list }
}

/// Computes the statistics of a snapshot: all counts and lists come from it alone.
pub fn crawl_stats(
    snapshot: &Vec<(AddrKey, NodeEntry)>,
    seeds: &Vec<SeedResult>,
    budget_rejected: usize,
    meta: SnapshotMeta,
) -> (r: CrawlStats)
    ensures
        r.runtime_seconds == meta.runtime_seconds,
        r.num_processed_nodes == meta.num_processed,
        r.reachable.summarizes(rows_of(snapshot@), NodeState::Reachable),
        r.handshake_failed.summarizes(rows_of(snapshot@), NodeState::HandshakeFailed),
        r.unreachable.summarizes(rows_of(snapshot@), NodeState::Unreachable),
        labelled(r.handshake_failed_reasons@) == histogram(
            rows_of(snapshot@),
            NodeState::HandshakeFailed,
            reasons().len(),
        ),
        labelled(r.unreachable_reasons@) == histogram(
            rows_of(snapshot@),
            NodeState::Unreachable,
            reasons().len(),
        ),
        r.num_advertised == snapshot@.len(),
        r.num_budget_rejected_observations == budget_rejected,
        r.snapshot_consistency@ == (if meta.consistent {
            "final_consistent"@
        } else {
            "checkpoint_fuzzy"@
        }),
        r.run_complete == meta.run_complete,
        r.seeds@.len() == seeds@.len(),
        forall|i: int|
            0 <= i < seeds@.len() ==> (#[trigger] r.seeds@[i]).summarizes(seeds@[i]),
{
    let mut summaries: Vec<SeedSummary> = Vec::new();
    let mut i: usize = 0;
    while i < seeds.len()
        invariant
            i <= seeds@.len(),
            summaries@.len() == i,
            forall|k: int| 0 <= k < i ==> (#[trigger] summaries@[k]).summarizes(seeds@[k]),
        decreases seeds@.len() - i,
    {
        summaries.push(summarize_seed(&seeds[i]));
        i = i + 1;
    }
    CrawlStats {
        runtime_seconds: meta.runtime_seconds,
        num_processed_nodes: meta.num_processed,
        reachable: summarize_state(snapshot, NodeState::Reachable),
        handshake_failed: summarize_state(snapshot, NodeState::HandshakeFailed),
        unreachable: summarize_state(snapshot, NodeState::Unreachable),
        handshake_failed_reasons: summarize_reasons(snapshot, NodeState::HandshakeFailed),
        unreachable_reasons: summarize_reasons(snapshot, NodeState::Unreachable),
        num_advertised: snapshot.len(),
        num_budget_rejected_observations: budget_rejected,
        snapshot_consistency: snapshot_consistency(meta.consistent),
        run_complete: meta.run_complete,
        seeds: summaries,
    }
}

/// The failure reasons stand in alphabetical order of their labels, so every histogram does.
pub proof fn law_reasons_are_in_alphabetical_order(i: int)
    requires
        0 <= i < reasons().len() - 1,
    ensures
        lex_less(
            code_points(reason_label(reasons()[i])),
            code_points(reason_label(reasons()[i + 1])),
        ),
{
    if i == 0 {
        reveal_strlit("connect_other");
        reveal_strlit("connect_refused");
        lemma_text_before("connect_other"@, "connect_refused"@, 8);
    } else if i == 1 {
        reveal_strlit("connect_refused");
        reveal_strlit("connect_reset");
        lemma_text_before("connect_refused"@, "connect_reset"@, 10);
    } else if i == 2 {
        reveal_strlit("connect_reset");
        reveal_strlit("connect_timeout");
        lemma_text_before("connect_reset"@, "connect_timeout"@, 8);
    } else if i == 3 {
        reveal_strlit("connect_timeout");
        reveal_strlit("connect_unreachable");
        lemma_text_before("connect_timeout"@, "connect_unreachable"@, 8);
    } else if i == 4 {
        reveal_strlit("connect_unreachable");
        reveal_strlit("connection_closed");
        lemma_text_before("connect_unreachable"@, "connection_closed"@, 7);
    } else if i == 5 {
        reveal_strlit("connection_closed");
        reveal_strlit("handshake_other");
        lemma_text_before("connection_closed"@, "handshake_other"@, 0);
    } else if i == 6 {
        reveal_strlit("handshake_other");
        reveal_strlit("handshake_timeout");
        lemma_text_before("handshake_other"@, "handshake_timeout"@, 10);
    } else if i == 7 {
        reveal_strlit("handshake_timeout");
        reveal_strlit("malformed_version");
        lemma_text_before("handshake_timeout"@, "malformed_version"@, 0);
    } else if i == 8 {
        reveal_strlit("malformed_version");
        reveal_strlit("negotiation_send_failed");
        lemma_text_before("malformed_version"@, "negotiation_send_failed"@, 0);
    } else if i == 9 {
        reveal_strlit("negotiation_send_failed");
        reveal_strlit("peer_verack_timeout");
        lemma_text_before("negotiation_send_failed"@, "peer_verack_timeout"@, 0);
    } else if i == 10 {
        reveal_strlit("peer_verack_timeout");
        reveal_strlit("protocol_desync");
        lemma_text_before("peer_verack_timeout"@, "protocol_desync"@, 1);
    } else if i == 11 {
        reveal_strlit("protocol_desync");
        reveal_strlit("proxy_error");
        lemma_text_before("protocol_desync"@, "proxy_error"@, 3);
    } else if i == 12 {
        reveal_strlit("proxy_error");
        reveal_strlit("sam_error");
        lemma_text_before("proxy_error"@, "sam_error"@, 0);
    } else if i == 13 {
        reveal_strlit("sam_error");
        reveal_strlit("unknown");
        lemma_text_before("sam_error"@, "unknown"@, 0);
    } else if i == 14 {
        reveal_strlit("unknown");
        reveal_strlit("verack_send_failed");
        lemma_text_before("unknown"@, "verack_send_failed"@, 0);
    } else if i == 15 {
        reveal_strlit("verack_send_failed");
        reveal_strlit("version_send_failed");
        lemma_text_before("verack_send_failed"@, "version_send_failed"@, 3);
    } else if i == 16 {
        reveal_strlit("version_send_failed");
        reveal_strlit("worker_failed");
        lemma_text_before("version_send_failed"@, "worker_failed"@, 0);
    }
}

/// How many rows in a state carry one of the first `n` reasons.
pub open spec fn reason_total(rows: Seq<Row>, state: NodeState, n: nat) -> nat
    decreases n,
{
    if n == 0 {
        0
    } else {
        reason_total(rows, state, (n - 1) as nat) + reason_count(rows, state, reasons()[n - 1])
    }
}

/// Where a failure reason stands among all of them.
spec fn reason_position(reason: Option<FailKind>) -> int {
    match reason {
        Some(FailKind::ConnectOther) => 0,
        Some(FailKind::ConnectRefused) => 1,
        Some(FailKind::ConnectReset) => 2,
        Some(FailKind::ConnectTimeout) => 3,
        Some(FailKind::ConnectUnreachable) => 4,
        Some(FailKind::ConnectionClosed) => 5,
        Some(FailKind::HandshakeOther) => 6,
        Some(FailKind::HandshakeTimeout) => 7,
        Some(FailKind::MalformedVersion) => 8,
        Some(FailKind::NegotiationSendFailed) => 9,
        Some(FailKind::PeerVerackTimeout) => 10,
        Some(FailKind::ProtocolDesync) => 11,
        Some(FailKind::ProxyError) => 12,
        Some(FailKind::SamError) => 13,
        None => 14,
        Some(FailKind::VerackSendFailed) => 15,
        Some(FailKind::VersionSendFailed) => 16,
        Some(FailKind::WorkerFailed) => 17,
    }
}

proof fn lemma_reason_position(reason: Option<FailKind>, i: int)
    requires
        0 <= i < 18,
    ensures
        reasons()[i] == reason <==> i == reason_position(reason),
{
    assert(reason_position(reasons()[i]) == i);
    assert(reasons()[reason_position(reason)] == reason);
}

proof fn lemma_reason_total_step(rows: Seq<Row>, state: NodeState, n: nat)
    requires
        rows.len() > 0,
        n <= 18,
    ensures
        reason_total(rows, state, n) == reason_total(rows.drop_last(), state, n) + (
        if rows.last().1.state == state && reason_position(rows.last().1.failure) < n {
            1nat
        } else {
            0nat
        }),
    decreases n,
{
    if n > 0 {
        lemma_reason_total_step(rows, state, (n - 1) as nat);
        lemma_reason_position(rows.last().1.failure, n - 1);
    }
}

/// The failure histogram of a state accounts for every node in it, once.
pub proof fn law_histogram_accounts_for_all(rows: Seq<Row>, state: NodeState)
    ensures
        reason_total(rows, state, reasons().len()) == state_count(rows, state),
    decreases rows.len(),
{
    if rows.len() > 0 {
        law_histogram_accounts_for_all(rows.drop_last(), state);
        lemma_reason_total_step(rows, state, 18);
    } else {
        lemma_no_reasons(rows, state, 18);
    }
}

proof fn lemma_no_reasons(rows: Seq<Row>, state: NodeState, n: nat)
    requires
        rows.len() == 0,
    ensures
        reason_total(rows, state, n) == 0,
    decreases n,
{
    if n > 0 {
        lemma_no_reasons(rows, state, (n - 1) as nat);
    }
}

} // verus!
