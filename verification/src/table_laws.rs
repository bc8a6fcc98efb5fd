//! Laws of the result tables: which node stands in which table and where, what each column
//! holds, and how a table grows by a node.
use vstd::prelude::*;
use crate::address::NetworkType;
use crate::csv_text::{csv_joined, csv_values, law_csv_record_reads_back};
use crate::listing::Mark;
use crate::output::{
    attempt_json, attempts_json, history_json, json_string, lists_table, table_fields,
    table_header, table_lines, table_text, Table,
};
use crate::store::{AttemptView, CollectionOutcome, FailKind, NodeState, Row};
use crate::text::{decimal, join, signed_decimal};

verus! {

/// Whether the column at a position has a name, and a node's record a value in it.
pub open spec fn column_holds(
    table: Table,
    row: Row,
    position: int,
    name: Seq<char>,
    value: Seq<char>,
) -> bool {
    table_header(table)[position] == name && table_fields(table, row)[position] == value
}

/// The name of a network in the result files.
pub open spec fn network_name(network: NetworkType) -> Seq<char> {
    match network {
        NetworkType::Ipv4 => "ipv4"@,
        NetworkType::Ipv6 => "ipv6"@,
        NetworkType::OnionV2 => "onion_v2"@,
        NetworkType::OnionV3 => "onion_v3"@,
        NetworkType::I2p => "i2p"@,
        NetworkType::Cjdns => "cjdns"@,
        NetworkType::Unknown => "unknown"@,
    }
}

/// The name of a failure reason in the result files.
pub open spec fn reason_name(kind: FailKind) -> Seq<char> {
    match kind {
        FailKind::ConnectOther => "connect_other"@,
        FailKind::ConnectRefused => "connect_refused"@,
        FailKind::ConnectReset => "connect_reset"@,
        FailKind::ConnectTimeout => "connect_timeout"@,
        FailKind::ConnectUnreachable => "connect_unreachable"@,
        FailKind::ConnectionClosed => "connection_closed"@,
        FailKind::HandshakeOther => "handshake_other"@,
        FailKind::HandshakeTimeout => "handshake_timeout"@,
        FailKind::MalformedVersion => "malformed_version"@,
        FailKind::NegotiationSendFailed => "negotiation_send_failed"@,
        FailKind::PeerVerackTimeout => "peer_verack_timeout"@,
        FailKind::ProtocolDesync => "protocol_desync"@,
        FailKind::ProxyError => "proxy_error"@,
        FailKind::SamError => "sam_error"@,
        FailKind::VerackSendFailed => "verack_send_failed"@,
        FailKind::VersionSendFailed => "version_send_failed"@,
        FailKind::WorkerFailed => "worker_failed"@,
    }
}

/// The name of the way in which a collection ended.
pub open spec fn outcome_name(outcome: CollectionOutcome) -> Seq<char> {
    match outcome {
        CollectionOutcome::NotRequested => "not_requested"@,
        CollectionOutcome::CompleteQuiet => "complete_quiet"@,
        CollectionOutcome::NoResponseTimeout => "no_response_timeout"@,
        CollectionOutcome::HardTimeout => "hard_timeout"@,
        CollectionOutcome::PartialHardTimeout => "partial_hard_timeout"@,
        CollectionOutcome::SendFailed => "send_failed"@,
        CollectionOutcome::MalformedResponse => "malformed_response"@,
        CollectionOutcome::PartialMalformedResponse => "partial_malformed_response"@,
        CollectionOutcome::RemoteDisconnect => "remote_disconnect"@,
        CollectionOutcome::PartialRemoteDisconnect => "partial_remote_disconnect"@,
        CollectionOutcome::IncompleteEnvelopeTimeout => "incomplete_envelope_timeout"@,
        CollectionOutcome::PartialIncompleteEnvelopeTimeout =>
            "partial_incomplete_envelope_timeout"@,
        CollectionOutcome::LogFailed => "log_failed"@,
    }
}

/// A number where it is known, and nothing otherwise.
pub open spec fn if_known(n: Option<u64>) -> Seq<char> {
    if n is Some {
        decimal(n->Some_0 as nat)
    } else {
        Seq::empty()
    }
}

/// A time where it is known, and nothing otherwise.
pub open spec fn time_if_known(n: Option<i64>) -> Seq<char> {
    if n is Some {
        signed_decimal(n->Some_0 as int)
    } else {
        Seq::empty()
    }
}

/// A text where it is known, and nothing otherwise.
pub open spec fn text_if_known(s: Option<Seq<char>>) -> Seq<char> {
    if s is Some {
        s->Some_0
    } else {
        Seq::empty()
    }
}

/// A failure reason where there is one, and nothing otherwise.
pub open spec fn reason_if_known(f: Option<FailKind>) -> Seq<char> {
    if f is Some {
        reason_name(f->Some_0)
    } else {
        Seq::empty()
    }
}

/// A truth value in the result files.
pub open spec fn truth(b: bool) -> Seq<char> {
    if b {
        "true"@
    } else {
        "false"@
    }
}

/// Each column of the table of reachable nodes holds what its name says.
pub proof fn law_reachable_columns(row: Row)
    requires
        row.1.handshake is Some,
    ensures
        ({
            let e = row.1;
            let s = e.stats;
            let h = e.handshake->Some_0;
            let t = Table::Reachable;
            &&& table_header(t).len() == 34
            &&& table_fields(t, row).len() == 34
            &&& column_holds(t, row, 0, "host"@, row.0.0)
            &&& column_holds(t, row, 1, "port"@, decimal(row.0.1 as nat))
            &&& column_holds(t, row, 2, "network"@, network_name(e.network))
            &&& column_holds(
                t,
                row,
                3,
                "handshake_timestamp"@,
                signed_decimal(h.handshake_timestamp as int),
            )
            &&& column_holds(t, row, 4, "time_connect"@, if_known(s.time_connect_ms))
            &&& column_holds(t, row, 5, "handshake_attempts"@, decimal(s.handshake_attempts as nat))
            &&& column_holds(
                t,
                row,
                6,
                "handshake_duration"@,
                decimal(h.handshake_duration_ms as nat),
            )
            &&& column_holds(t, row, 7, "version"@, signed_decimal(h.version as int))
            &&& column_holds(t, row, 8, "services"@, decimal(h.services as nat))
            &&& column_holds(t, row, 9, "user_agent"@, h.user_agent)
            &&& column_holds(t, row, 10, "latest_block"@, signed_decimal(h.latest_block as int))
            &&& column_holds(t, row, 11, "relay"@, truth(h.relay))
            &&& column_holds(
                t,
                row,
                12,
                "version_reply_timestamp_remote"@,
                signed_decimal(h.version_reply_timestamp_remote as int),
            )
            &&& column_holds(
                t,
                row,
                13,
                "advertised_addrs_total"@,
                decimal(s.advertised_total as nat),
            )
            &&& column_holds(
                t,
                row,
                14,
                "advertised_addrs_ipv4"@,
                decimal(s.advertised_ipv4 as nat),
            )
            &&& column_holds(
                t,
                row,
                15,
                "advertised_addrs_ipv6"@,
                decimal(s.advertised_ipv6 as nat),
            )
            &&& column_holds(
                t,
                row,
                16,
                "advertised_addrs_onion_v2"@,
                decimal(s.advertised_onion_v2 as nat),
            )
            &&& column_holds(
                t,
                row,
                17,
                "advertised_addrs_onion_v3"@,
                decimal(s.advertised_onion_v3 as nat),
            )
            &&& column_holds(t, row, 18, "advertised_addrs_i2p"@, decimal(s.advertised_i2p as nat))
            &&& column_holds(
                t,
                row,
                19,
                "advertised_addrs_cjdns"@,
                decimal(s.advertised_cjdns as nat),
            )
            &&& column_holds(
                t,
                row,
                20,
                "freshest_timestamp"@,
                signed_decimal(e.freshest_ts as int),
            )
            &&& column_holds(t, row, 21, "collection_outcome"@, outcome_name(s.collection_outcome))
            &&& column_holds(
                t,
                row,
                22,
                "valid_addr_messages"@,
                decimal(s.valid_addr_messages as nat),
            )
            &&& column_holds(
                t,
                row,
                23,
                "malformed_addr_messages"@,
                decimal(s.malformed_addr_messages as nat),
            )
            &&& column_holds(t, row, 24, "requested_endpoint"@, h.requested_endpoint)
            &&& column_holds(t, row, 25, "transport_destination"@, h.transport_destination)
            &&& column_holds(t, row, 26, "socket_local"@, h.socket_local)
            &&& column_holds(t, row, 27, "socket_peer"@, h.socket_peer)
            &&& column_holds(t, row, 28, "version_addr_recv"@, h.version_addr_recv)
            &&& column_holds(
                t,
                row,
                29,
                "version_addr_recv_services"@,
                decimal(h.version_addr_recv_services as nat),
            )
            &&& column_holds(t, row, 30, "version_addr_from"@, text_if_known(h.version_addr_from))
            &&& column_holds(
                t,
                row,
                31,
                "version_addr_from_services"@,
                if_known(h.version_addr_from_services),
            )
            &&& column_holds(t, row, 32, "version_nonce"@, if_known(h.version_nonce))
            &&& column_holds(t, row, 33, "attempt_history_json"@, history_json(e.attempts))
        }),
{
}

/// Each column of the table of nodes that failed the handshake holds what its name says.
pub proof fn law_handshake_failed_columns(row: Row)
    ensures
        ({
            let e = row.1;
            let s = e.stats;
            let t = Table::HandshakeFailed;
            &&& table_header(t).len() == 9
            &&& table_fields(t, row).len() == 9
            &&& column_holds(t, row, 0, "host"@, row.0.0)
            &&& column_holds(t, row, 1, "port"@, decimal(row.0.1 as nat))
            &&& column_holds(t, row, 2, "network"@, network_name(e.network))
            &&& column_holds(t, row, 3, "failure_reason"@, reason_if_known(e.failure))
            &&& column_holds(
                t,
                row,
                4,
                "handshake_timestamp"@,
                time_if_known(s.first_version_send_ts),
            )
            &&& column_holds(t, row, 5, "time_connect"@, if_known(s.time_connect_ms))
            &&& column_holds(t, row, 6, "handshake_attempts"@, decimal(s.handshake_attempts as nat))
            &&& column_holds(t, row, 7, "freshest_timestamp"@, signed_decimal(e.freshest_ts as int))
            &&& column_holds(t, row, 8, "attempt_history_json"@, history_json(e.attempts))
        }),
{
}

/// Each column of the table of unreachable nodes holds what its name says.
pub proof fn law_unreachable_columns(row: Row)
    ensures
        ({
            let e = row.1;
            let s = e.stats;
            let t = Table::Unreachable;
            &&& table_header(t).len() == 7
            &&& table_fields(t, row).len() == 7
            &&& column_holds(t, row, 0, "host"@, row.0.0)
            &&& column_holds(t, row, 1, "port"@, decimal(row.0.1 as nat))
            &&& column_holds(t, row, 2, "network"@, network_name(e.network))
            &&& column_holds(t, row, 3, "failure_reason"@, reason_if_known(e.failure))
            &&& column_holds(t, row, 4, "handshake_attempts"@, decimal(s.handshake_attempts as nat))
            &&& column_holds(t, row, 5, "freshest_timestamp"@, signed_decimal(e.freshest_ts as int))
            &&& column_holds(t, row, 6, "attempt_history_json"@, history_json(e.attempts))
        }),
{
}

/// A table lists every node in its state exactly once and no other, by time: reachable nodes
/// by that of their handshake, failed ones by that of their first `version` message, and
/// unreachable ones by when they were last seen; nodes of one time stay in stored order.
pub proof fn law_tables_list_every_node_once(rows: Seq<Row>, table: Table, order: Seq<Mark>)
    requires
        lists_table(rows, table, order),
        rows.len() <= usize::MAX,
    ensures
        forall|k: int|
            0 <= k < order.len() ==> (#[trigger] order[k]).1 < rows.len() && match table {
                Table::Reachable => rows[order[k].1 as int].1.state == NodeState::Reachable && (
                rows[order[k].1 as int].1.handshake matches Some(h) ==> order[k].0
                    == h.handshake_timestamp),
                Table::HandshakeFailed => {
                    let e = rows[order[k].1 as int].1;
                    &&& e.state == NodeState::HandshakeFailed
                    &&& order[k].0 == match e.stats.first_version_send_ts {
                        Some(ts) => ts,
                        None => 0,
                    }
                },
                Table::Unreachable => rows[order[k].1 as int].1.state == NodeState::Unreachable
                    && order[k].0 == rows[order[k].1 as int].1.freshest_ts,
            },
        forall|k: int, l: int|
            0 <= k < l < order.len() ==> (#[trigger] order[k]).0 < (#[trigger] order[l]).0 || (
            order[k].0 == order[l].0 && order[k].1 < order[l].1),
        forall|i: int|
            0 <= i < rows.len() && (#[trigger] rows[i]).1.state == match table {
                Table::Reachable => NodeState::Reachable,
                Table::HandshakeFailed => NodeState::HandshakeFailed,
                Table::Unreachable => NodeState::Unreachable,
            } ==> exists|k: int| 0 <= k < order.len() && (#[trigger] order[k]).1 == i,
{
    assert forall|k: int| 0 <= k < order.len() implies order.contains(#[trigger] order[k]) by {
    }
    assert forall|i: int|
        0 <= i < rows.len() && (#[trigger] rows[i]).1.state == match table {
            Table::Reachable => NodeState::Reachable,
            Table::HandshakeFailed => NodeState::HandshakeFailed,
            Table::Unreachable => NodeState::Unreachable,
        } implies exists|k: int| 0 <= k < order.len() && (#[trigger] order[k]).1 == i by {
        let m: Mark = (crate::output::table_time(table, rows[i].1), i as usize);
        assert(order.contains(m));
        let k = choose|k: int| 0 <= k < order.len() && order[k] == m;
        assert(order[k].1 == i);
    }
}

/// A table begins with the record of its column names, and every listed node adds its own
/// record, which reads back as the node's values, at the end.
pub proof fn law_tables_grow_by_one_record_for_each_node(
    table: Table,
    rows: Seq<Row>,
    order: Seq<Mark>,
    m: Mark,
)
    requires
        table == Table::Reachable ==> rows[m.1 as int].1.handshake is Some,
    ensures
        ({
            let header = csv_joined(table_header(table));
            let record = csv_joined(table_fields(table, rows[m.1 as int]));
            &&& table_text(table, rows, Seq::empty()) == header.push('\n')
            &&& table_text(table, rows, order.push(m)) == table_text(table, rows, order) + record
                + seq!['\n']
            &&& csv_values(header) == table_header(table)
            &&& csv_values(record) == table_fields(table, rows[m.1 as int])
        }),
{
    let row = rows[m.1 as int];
    let longer = order.push(m);
    lemma_lines_of_front(table, rows, order, m, order.len());
    let record = csv_joined(table_fields(table, row));
    assert(table_text(table, rows, longer) =~= table_text(table, rows, order) + record
        + seq!['\n']);
    assert(table_text(table, rows, Seq::empty()) =~= csv_joined(table_header(table)).push('\n'));
    law_csv_record_reads_back(table_header(table));
    law_csv_record_reads_back(table_fields(table, row));
}

proof fn lemma_lines_of_front(table: Table, rows: Seq<Row>, order: Seq<Mark>, m: Mark, n: nat)
    requires
        n <= order.len(),
    ensures
        table_lines(table, rows, order.push(m), n) == table_lines(table, rows, order, n),
    decreases n,
{
    if n > 0 {
        lemma_lines_of_front(table, rows, order, m, (n - 1) as nat);
        assert(order.push(m)[n - 1] == order[n - 1]);
    }
}

/// A JSON value where it is known, and `null` otherwise.
pub open spec fn or_null(known: bool, value: Seq<char>) -> Seq<char> {
    if known {
        value
    } else {
        "null"@
    }
}

/// An attempt is recorded with its number, its times, its outcome and its failure, each under
/// its name; what is not known is `null`.
pub proof fn law_attempts_are_recorded_by_name(a: AttemptView)
    ensures
        attempt_json(a) == "{\"attempt\":"@ + decimal(a.attempt as nat)
            + ",\"connect_duration_ms\":"@ + or_null(
            a.connect_duration_ms is Some,
            decimal(a.connect_duration_ms->Some_0 as nat),
        ) + ",\"version_send_timestamp\":"@ + or_null(
            a.version_send_timestamp is Some,
            signed_decimal(a.version_send_timestamp->Some_0 as int),
        ) + ",\"outcome\":"@ + json_string(a.outcome) + ",\"failure\":"@ + or_null(
            a.failure is Some,
            json_string(reason_name(a.failure->Some_0)),
        ) + "}"@,
{
    assert(attempt_json(a) =~= "{\"attempt\":"@ + decimal(a.attempt as nat)
        + ",\"connect_duration_ms\":"@ + or_null(
        a.connect_duration_ms is Some,
        decimal(a.connect_duration_ms->Some_0 as nat),
    ) + ",\"version_send_timestamp\":"@ + or_null(
        a.version_send_timestamp is Some,
        signed_decimal(a.version_send_timestamp->Some_0 as int),
    ) + ",\"outcome\":"@ + json_string(a.outcome) + ",\"failure\":"@ + or_null(
        a.failure is Some,
        json_string(reason_name(a.failure->Some_0)),
    ) + "}"@);
}

/// The history of a node is the list of all its attempts, in order.
pub proof fn law_history_grows_by_each_attempt(attempts: Seq<AttemptView>, a: AttemptView)
    ensures
        history_json(Seq::empty()) == seq!['[', ']'],
        history_json(seq![a]) == seq!['['] + attempt_json(a) + seq![']'],
        attempts.len() > 0 ==> history_json(attempts.push(a)) == history_json(attempts).drop_last()
            + seq![','] + attempt_json(a) + seq![']'],
{
    assert(history_json(Seq::empty()) =~= seq!['[', ']']);
    let one = attempts_json(seq![a]);
    assert(one.len() == 1 && one[0] == attempt_json(a));
    assert(one.drop_last() =~= Seq::empty());
    assert(join(one, ',') =~= attempt_json(a));
    assert(history_json(seq![a]) =~= seq!['['] + attempt_json(a) + seq![']']);
    if attempts.len() > 0 {
        let all = attempts_json(attempts.push(a));
        assert(all.drop_last() =~= attempts_json(attempts));
        assert(all.last() == attempt_json(a));
        assert(history_json(attempts.push(a)) =~= history_json(attempts).drop_last() + seq![',']
            + attempt_json(a) + seq![']']);
    }
}

} // verus!
