//! Laws of the files that a run leaves behind: the observation log, the statistics and the
//! manifest hold each value under its name.
use vstd::prelude::*;
use vstd::utf8::encode_utf8;
use crate::addrlog::{
    address_fields, address_lines, block_text, malformed_text, outcome_text, responder_fields,
    Responder,
};
use crate::csv_text::{csv_field, csv_joined, csv_values, doubled, law_csv_record_reads_back};
use crate::document::DocumentView;
use crate::encoding::sha256_digest;
use crate::lexical::lex_less;
use crate::output::{labelled, CrawlStats, SnapshotMeta};
use crate::protocol::{addr_error_text, hex_text, AddrParseError, AddrView, ParsedAddrMessage};
use crate::report::{
    breakdown_held, digests_held, files_held, histogram_held, manifest_held, seed_counts_held,
    seed_lists_held, settings_held, stats_held, text_digest, timeouts_held, NamedText,
};
use crate::settings::{ResultSettings, Settings, Timeouts};
use crate::store::{CollectionOutcome, NetworkBreakdown};
use crate::table_laws::{network_name, outcome_name, truth};
use crate::text::{decimal, signed_decimal};

verus! {

// ---------------------------------------------------------------------------
// The observation log
// ---------------------------------------------------------------------------

/// The first record of a block says who answered, when, with what, and what is known of the
/// peer; it reads back as these values.
pub proof fn law_block_says_who_answered(
    event_id: u64,
    r: Responder,
    declared_count: u64,
    decoded: nat,
    unknown_entries: u64,
)
    ensures
        ({
            let f = responder_fields(event_id, r, declared_count, decoded, unknown_entries);
            let hd = r.handshake@;
            &&& csv_values(csv_joined(f)) == f
            &&& f.len() == 15
            &&& f[0] == decimal(event_id as nat)
            &&& f[1] == r.host@
            &&& f[2] == decimal(r.port as nat)
            &&& f[3] == r.network@
            &&& f[4] == signed_decimal(r.received_at as int)
            &&& f[5] == r.message_type@
            &&& f[6] == "complete"@
            &&& f[7] == decimal(declared_count as nat)
            &&& f[8] == decimal(decoded)
            &&& f[9] == decimal(unknown_entries as nat)
            &&& f[10] == signed_decimal(hd.version as int)
            &&& f[11] == decimal(hd.services as nat)
            &&& f[12] == hd.user_agent
            &&& f[13] == signed_decimal(hd.latest_block as int)
            &&& f[14] == truth(hd.relay)
        }),
{
    law_csv_record_reads_back(
        responder_fields(event_id, r, declared_count, decoded, unknown_entries),
    );
}

/// The record of an address says what was advertised of it, under the number of its block; it
/// reads back as these values.
pub proof fn law_block_says_what_was_advertised(event_id: u64, a: AddrView)
    ensures
        ({
            let f = address_fields(event_id, a);
            &&& csv_values(csv_joined(f)) == f
            &&& f.len() == 7
            &&& f[0] == decimal(event_id as nat)
            &&& f[1] == a.host
            &&& f[2] == decimal(a.port as nat)
            &&& f[3] == network_name(a.network)
            &&& f[4] == signed_decimal(a.timestamp as int)
            &&& f[5] == decimal(a.services as nat)
            &&& f[6] == decimal(a.wire_network_id as nat)
        }),
{
    law_csv_record_reads_back(address_fields(event_id, a));
}

/// The addresses of a block follow one another in the order of the message, one line each, and
/// none is left out.
pub proof fn law_block_lists_every_address(event_id: u64, addrs: Seq<AddrView>, n: nat)
    requires
        n < addrs.len(),
    ensures
        address_lines(event_id, addrs, 0).len() == 0,
        address_lines(event_id, addrs, n + 1) == address_lines(event_id, addrs, n) + csv_joined(
            address_fields(event_id, addrs[n as int]),
        ) + seq!['\n'],
{
    assert(address_lines(event_id, addrs, n + 1) =~= address_lines(event_id, addrs, n) + csv_joined(
        address_fields(event_id, addrs[n as int]),
    ) + seq!['\n']);
}

/// A block is the line on the peer, with the counts that the message declared and held, and
/// then the lines on all its addresses.
pub proof fn law_block_holds_the_whole_message(
    event_id: u64,
    r: Responder,
    parsed: ParsedAddrMessage,
)
    ensures
        block_text(event_id, r, parsed) == "===NEW NODE===,"@ + csv_joined(
            responder_fields(
                event_id,
                r,
                parsed@.declared_count,
                parsed@.addrs.len(),
                parsed@.unknown_entries,
            ),
        ) + seq!['\n'] + address_lines(event_id, parsed@.addrs, parsed@.addrs.len()),
{
    assert(block_text(event_id, r, parsed) =~= "===NEW NODE===,"@ + csv_joined(
        responder_fields(
            event_id,
            r,
            parsed@.declared_count,
            parsed@.addrs.len(),
            parsed@.unknown_entries,
        ),
    ) + seq!['\n'] + address_lines(event_id, parsed@.addrs, parsed@.addrs.len()));
}

/// How a collection ended, and a response that was refused, are each one record that names the
/// peer; that of a refused one gives the reason and the digest of the payload.
pub proof fn law_outcomes_and_refusals_name_the_peer(
    event_id: u64,
    host: Seq<char>,
    port: u16,
    outcome: CollectionOutcome,
    message_type: Seq<char>,
    error: AddrParseError,
    payload: Seq<u8>,
)
    ensures
        outcome_text(event_id, host, port, outcome) == "===REQUEST OUTCOME===,"@ + csv_joined(
            seq![decimal(event_id as nat), host, decimal(port as nat), outcome_name(outcome)],
        ) + seq!['\n'],
        malformed_text(event_id, host, port, message_type, error, payload)
            == "===MALFORMED RESPONSE===,"@ + csv_joined(
            seq![
                decimal(event_id as nat),
                host,
                decimal(port as nat),
                message_type,
                "malformed"@,
                refusal(error),
                hex_text(sha256_digest(payload)),
            ],
        ) + seq!['\n'],
{
    assert(outcome_text(event_id, host, port, outcome) =~= "===REQUEST OUTCOME===,"@ + csv_joined(
        seq![decimal(event_id as nat), host, decimal(port as nat), outcome_name(outcome)],
    ) + seq!['\n']);
    assert(addr_error_text(error) =~= refusal(error));
    assert(malformed_text(event_id, host, port, message_type, error, payload)
        =~= "===MALFORMED RESPONSE===,"@ + csv_joined(
        seq![
            decimal(event_id as nat),
            host,
            decimal(port as nat),
            message_type,
            "malformed"@,
            refusal(error),
            hex_text(sha256_digest(payload)),
        ],
    ) + seq!['\n']);
}

/// Why a message was refused, in words.
pub open spec fn refusal(e: AddrParseError) -> Seq<char> {
    match e {
        AddrParseError::NonCanonicalOrTruncated => "non-canonical or truncated address message"@,
        AddrParseError::TooMany(n) => "declared address count "@ + decimal(n as nat)
            + " exceeds "@ + decimal(1000),
        AddrParseError::WrongLength { network_id, length } => "wrong length "@ + decimal(
            length as nat,
        ) + " for BIP155 network "@ + decimal(network_id as nat),
        AddrParseError::InvalidNetworkEncoding(id) => "invalid encoding for BIP155 network "@
            + decimal(id as nat),
        AddrParseError::TrailingBytes(n) => decimal(n as nat)
            + " trailing bytes after address vector"@,
    }
}

/// A hexadecimal text has two digits for each byte, the one that weighs more first.
pub proof fn law_hex_text_has_two_digits_for_each_byte(b: Seq<u8>, i: int)
    requires
        0 <= i < b.len(),
    ensures
        hex_text(b).len() == 2 * b.len(),
        crate::text::digit_value(hex_text(b)[2 * i]) == Some(b[i] as int / 16),
        crate::text::digit_value(hex_text(b)[2 * i + 1]) == Some(b[i] as int % 16),
        !('A' <= hex_text(b)[2 * i] <= 'F'),
        !('A' <= hex_text(b)[2 * i + 1] <= 'F'),
{
}

// ---------------------------------------------------------------------------
// Documents
// ---------------------------------------------------------------------------

/// Whether the field at a position of an object has a name and a value.
pub open spec fn field_holds(
    d: DocumentView,
    position: int,
    name: Seq<char>,
    value: DocumentView,
) -> bool {
    d matches DocumentView::Object(fields) && 0 <= position < fields.len() && fields[position] == (
        name,
        value,
    )
}

/// How many fields an object has.
pub open spec fn size(d: DocumentView) -> int {
    (d->Object_0).len() as int
}

/// A breakdown holds each network's count under its name.
pub proof fn law_breakdown_fields(b: NetworkBreakdown)
    ensures
        ({
            let d = breakdown_held(b);
            &&& size(d) == 8
            &&& field_holds(d, 0, "total"@, DocumentView::Number(b.total as int))
            &&& field_holds(d, 1, "unknown"@, DocumentView::Number(b.unknown as int))
            &&& field_holds(d, 2, "ipv4"@, DocumentView::Number(b.ipv4 as int))
            &&& field_holds(d, 3, "ipv6"@, DocumentView::Number(b.ipv6 as int))
            &&& field_holds(d, 4, "onion_v2"@, DocumentView::Number(b.onion_v2 as int))
            &&& field_holds(d, 5, "onion_v3"@, DocumentView::Number(b.onion_v3 as int))
            &&& field_holds(d, 6, "i2p"@, DocumentView::Number(b.i2p as int))
            &&& field_holds(d, 7, "cjdns"@, DocumentView::Number(b.cjdns as int))
        }),
{
}

/// Timeouts stand under their names.
pub proof fn law_timeouts_fields(t: Timeouts)
    ensures
        ({
            let d = timeouts_held(t);
            &&& size(d) == 4
            &&& field_holds(d, 0, "connect"@, DocumentView::Number(t.connect as int))
            &&& field_holds(d, 1, "message"@, DocumentView::Number(t.message as int))
            &&& field_holds(d, 2, "getaddr"@, DocumentView::Number(t.getaddr as int))
            &&& field_holds(d, 3, "getaddr_idle"@, DocumentView::Number(t.getaddr_idle as int))
        }),
{
}

/// A list of texts holds exactly those texts, in order.
pub open spec fn is_list_of(d: DocumentView, texts: Seq<String>) -> bool {
    d matches DocumentView::List(items) && items.len() == texts.len() && forall|i: int|
        0 <= i < texts.len() ==> #[trigger] items[i] == DocumentView::Text(texts[i]@)
}

/// The statistics hold each count, histogram and list under its name.
pub proof fn law_statistics_fields(settings: Settings, s: CrawlStats)
    ensures
        ({
            let d = stats_held(settings, s);
            &&& size(d) == 19
            &&& field_holds(d, 0, "crawler_settings"@, settings_held(settings))
            &&& field_holds(
                d,
                1,
                "time_started"@,
                DocumentView::Text(settings.result_settings.timestamp@),
            )
            &&& field_holds(
                d,
                2,
                "runtime_seconds"@,
                DocumentView::Number(s.runtime_seconds as int),
            )
            &&& field_holds(
                d,
                3,
                "num_processed_nodes"@,
                DocumentView::Number(s.num_processed_nodes as int),
            )
            &&& field_holds(d, 4, "num_reachable"@, breakdown_held(s.reachable.breakdown))
            &&& field_holds(
                d,
                5,
                "num_handshake_failed"@,
                breakdown_held(s.handshake_failed.breakdown),
            )
            &&& field_holds(d, 6, "num_unreachable"@, breakdown_held(s.unreachable.breakdown))
            &&& field_holds(
                d,
                7,
                "handshake_failed_reasons"@,
                histogram_held(labelled(s.handshake_failed_reasons@)),
            )
            &&& field_holds(
                d,
                8,
                "unreachable_reasons"@,
                histogram_held(labelled(s.unreachable_reasons@)),
            )
            &&& field_holds(d, 9, "num_advertised"@, DocumentView::Number(s.num_advertised as int))
            &&& field_holds(
                d,
                10,
                "num_budget_rejected_observations"@,
                DocumentView::Number(s.num_budget_rejected_observations as int),
            )
            &&& field_holds(
                d,
                11,
                "snapshot_consistency"@,
                DocumentView::Text(s.snapshot_consistency@),
            )
            &&& field_holds(d, 12, "run_complete"@, DocumentView::Bool(s.run_complete))
            &&& field_holds(d, 14, "num_nodes_from_seed"@, seed_counts_held(s.seeds@))
            &&& (d->Object_0)[15].0 == "list_reachable"@ && is_list_of(
                (d->Object_0)[15].1,
                s.reachable.list@,
            )
            &&& (d->Object_0)[16].0 == "list_handshake_failed"@ && is_list_of(
                (d->Object_0)[16].1,
                s.handshake_failed.list@,
            )
            &&& (d->Object_0)[17].0 == "list_unreachable"@ && is_list_of(
                (d->Object_0)[17].1,
                s.unreachable.list@,
            )
            &&& field_holds(d, 18, "list_nodes_from_seed"@, seed_lists_held(s.seeds@))
        }),
{
}

/// The statistics hold, for each seed, its breakdown and its list under its name; and each
/// reason of a histogram under its label.
pub proof fn law_seed_and_reason_fields(s: CrawlStats, counts: Seq<(Seq<char>, u64)>, i: int)
    ensures
        size(seed_counts_held(s.seeds@)) == s.seeds@.len(),
        size(seed_lists_held(s.seeds@)) == s.seeds@.len(),
        size(histogram_held(counts)) == counts.len(),
        0 <= i < s.seeds@.len() ==> field_holds(
            seed_counts_held(s.seeds@),
            i,
            s.seeds@[i].seed@,
            breakdown_held(s.seeds@[i].breakdown),
        ),
        0 <= i < s.seeds@.len() ==> (seed_lists_held(s.seeds@)->Object_0)[i].0 == s.seeds@[i].seed@
            && is_list_of((seed_lists_held(s.seeds@)->Object_0)[i].1, s.seeds@[i].list@),
        0 <= i < counts.len() ==> field_holds(
            histogram_held(counts),
            i,
            counts[i].0,
            DocumentView::Number(counts[i].1 as int),
        ),
{
}

/// The manifest says where the snapshot is, how far it can be relied on and how many entries it
/// has, and holds the digest of each file under its name.
pub proof fn law_manifest_fields(
    generation: Seq<char>,
    meta: SnapshotMeta,
    entries: usize,
    files: Seq<NamedText>,
    i: int,
)
    ensures
        ({
            let d = manifest_held(generation, meta, entries, files);
            &&& size(d) == 9
            &&& field_holds(d, 0, "schema_version"@, DocumentView::Number(1))
            &&& field_holds(d, 1, "generation"@, DocumentView::Text(generation))
            &&& field_holds(
                d,
                2,
                "snapshot_directory"@,
                DocumentView::Text("snapshots/"@ + generation),
            )
            &&& field_holds(
                d,
                3,
                "snapshot_consistency"@,
                DocumentView::Text(
                    if meta.consistent {
                        "final_consistent"@
                    } else {
                        "checkpoint_fuzzy"@
                    },
                ),
            )
            &&& field_holds(d, 4, "run_complete"@, DocumentView::Bool(meta.run_complete))
            &&& field_holds(
                d,
                5,
                "durable_addr_event_id"@,
                if meta.durable_addr_event_id is Some {
                    DocumentView::Number(meta.durable_addr_event_id->Some_0 as int)
                } else {
                    DocumentView::Null
                },
            )
            &&& field_holds(d, 6, "num_snapshot_entries"@, DocumentView::Number(entries as int))
            &&& field_holds(d, 7, "files_sha256"@, digests_held(files))
            &&& size(digests_held(files)) == files.len()
            &&& 0 <= i < files.len() ==> field_holds(
                digests_held(files),
                i,
                files[i].0,
                DocumentView::Text(files[i].1),
            )
        }),
{
}

/// The settings are recorded under their names.
pub proof fn law_settings_fields(s: Settings)
    ensures
        ({
            let d = settings_held(s);
            let en = s.enabled_networks;
            let to = s.node_settings.timeouts;
            let ns = s.node_settings.network_settings;
            let rs = s.result_settings;
            let networks = (d->Object_0)[4].1;
            let workers = (d->Object_0)[8].1;
            let node = (d->Object_0)[9].1;
            let times = (node->Object_0)[0].1;
            let services = (node->Object_0)[2].1;
            let files = (d->Object_0)[10].1;
            &&& size(d) == 11
            &&& (d->Object_0)[0].0 == "version_info"@
            &&& field_holds(
                (d->Object_0)[0].1,
                1,
                "extra"@,
                if s.version_info.extra is Some {
                    DocumentView::Text((s.version_info.extra->Some_0)@)
                } else {
                    DocumentView::Null
                },
            )
            &&& (d->Object_0)[10].0 == "result_settings"@
            &&& field_holds(files, 0, "path"@, DocumentView::Text(rs.path@))
            &&& field_holds(files, 1, "timestamp"@, DocumentView::Text(rs.timestamp@))
            &&& field_holds(files, 2, "reachable_nodes"@, DocumentView::Text(rs.reachable_nodes@))
            &&& field_holds(
                files,
                3,
                "handshake_failed_nodes"@,
                DocumentView::Text(rs.handshake_failed_nodes@),
            )
            &&& field_holds(
                files,
                4,
                "unreachable_nodes"@,
                DocumentView::Text(rs.unreachable_nodes@),
            )
            &&& field_holds(files, 5, "crawler_stats"@, DocumentView::Text(rs.crawler_stats@))
            &&& field_holds(files, 6, "addr_responses"@, DocumentView::Text(rs.addr_responses@))
            &&& field_holds(
                (d->Object_0)[0].1,
                0,
                "version"@,
                DocumentView::Text(s.version_info.version@),
            )
            &&& field_holds(d, 1, "delay_start"@, DocumentView::Number(s.delay_start as int))
            &&& field_holds(
                d,
                2,
                "max_nodes"@,
                if s.max_nodes is Some {
                    DocumentView::Number(s.max_nodes->Some_0 as int)
                } else {
                    DocumentView::Null
                },
            )
            &&& field_holds(d, 3, "max_addresses"@, DocumentView::Number(s.max_addresses as int))
            &&& (d->Object_0)[4].0 == "enabled_networks"@
            &&& field_holds(networks, 0, "ipv4"@, DocumentView::Bool(en.ipv4))
            &&& field_holds(networks, 1, "ipv6"@, DocumentView::Bool(en.ipv6))
            &&& field_holds(networks, 2, "tor"@, DocumentView::Bool(en.tor))
            &&& field_holds(networks, 3, "i2p"@, DocumentView::Bool(en.i2p))
            &&& field_holds(networks, 4, "cjdns"@, DocumentView::Bool(en.cjdns))
            &&& field_holds(d, 5, "strict_networks"@, DocumentView::Bool(s.strict_networks))
            &&& field_holds(
                d,
                6,
                "freshness_threshold"@,
                DocumentView::Number(s.freshness_threshold as int),
            )
            &&& field_holds(
                d,
                7,
                "record_addr_responses"@,
                DocumentView::Bool(s.record_addr_responses),
            )
            &&& (d->Object_0)[8].0 == "concurrency"@
            &&& field_holds(workers, 0, "ip"@, DocumentView::Number(s.concurrency.ip as int))
            &&& field_holds(workers, 1, "tor"@, DocumentView::Number(s.concurrency.tor as int))
            &&& field_holds(workers, 2, "i2p"@, DocumentView::Number(s.concurrency.i2p as int))
            &&& (d->Object_0)[9].0 == "node_settings"@
            &&& (node->Object_0)[0].0 == "timeouts"@
            &&& field_holds(times, 0, "ip"@, timeouts_held(to.ip))
            &&& field_holds(times, 1, "tor"@, timeouts_held(to.tor))
            &&& field_holds(times, 2, "i2p"@, timeouts_held(to.i2p))
            &&& field_holds(times, 3, "cjdns"@, timeouts_held(to.cjdns))
            &&& field_holds(
                node,
                1,
                "handshake_attempts"@,
                DocumentView::Number(s.node_settings.handshake_attempts as int),
            )
            &&& (node->Object_0)[2].0 == "network_settings"@
            &&& field_holds(services, 0, "tor_proxy_host"@, DocumentView::Text(ns.tor_proxy_host@))
            &&& field_holds(
                services,
                1,
                "tor_proxy_port"@,
                DocumentView::Number(ns.tor_proxy_port as int),
            )
            &&& field_holds(services, 2, "i2p_sam_host"@, DocumentView::Text(ns.i2p_sam_host@))
            &&& field_holds(
                services,
                3,
                "i2p_sam_port"@,
                DocumentView::Number(ns.i2p_sam_port as int),
            )
        }),
{
}

/// The files of a snapshot are the three tables and the statistics, each under the name that
/// the settings give it; a digest is that of the bytes of a file's text, in hexadecimal.
pub proof fn law_files_have_their_names(
    rs: ResultSettings,
    reachable: Seq<char>,
    handshake_failed: Seq<char>,
    unreachable: Seq<char>,
    stats: Seq<char>,
)
    ensures
        ({
            let f = files_held(rs, reachable, handshake_failed, unreachable, stats);
            &&& f.len() == 4
            &&& f[0] == (rs.reachable_nodes@, reachable)
            &&& f[1] == (rs.handshake_failed_nodes@, handshake_failed)
            &&& f[2] == (rs.unreachable_nodes@, unreachable)
            &&& f[3] == (rs.crawler_stats@, stats)
        }),
        text_digest(stats) == hex_text(sha256_digest(encode_utf8(stats))),
{
}

/// A field stands in a record as it is, unless it holds a comma, a quote or the end of a line:
/// then it stands in quotes, with each quote of its own doubled.
pub proof fn law_fields_are_quoted_only_where_they_must_be(s: Seq<char>, c: char)
    ensures
        csv_field(s) == if s.contains(',') || s.contains('"') || s.contains('\r') || s.contains(
            '\n',
        ) {
            seq!['"'] + doubled(s) + seq!['"']
        } else {
            s
        },
        doubled(Seq::empty()).len() == 0,
        doubled(s.push('"')) == doubled(s) + seq!['"', '"'],
        c != '"' ==> doubled(s.push(c)) == doubled(s) + seq![c],
{
    assert(s.push('"').drop_last() =~= s);
    assert(s.push(c).drop_last() =~= s);
    if c != '"' {
        assert(doubled(s.push(c)) =~= doubled(s) + seq![c]);
    }
}

/// A text comes before another where it is a proper beginning of it, or has the smaller
/// character at the first place where they differ.
pub proof fn law_order_is_by_the_first_difference(a: Seq<int>, b: Seq<int>, k: int)
    requires
        0 <= k <= a.len(),
        k <= b.len(),
        a.take(k) == b.take(k),
    ensures
        k == a.len() && k < b.len() ==> lex_less(a, b) && !lex_less(b, a),
        k < a.len() && k < b.len() && a[k] < b[k] ==> lex_less(a, b) && !lex_less(b, a),
        k == a.len() && k == b.len() ==> !lex_less(a, b),
    decreases k,
{
    if k > 0 {
        assert(a.take(k)[0] == a[0]);
        assert(b.take(k)[0] == b[0]);
        assert(a.skip(1).take(k - 1) =~= a.take(k).skip(1));
        assert(b.skip(1).take(k - 1) =~= b.take(k).skip(1));
        law_order_is_by_the_first_difference(a.skip(1), b.skip(1), k - 1);
    }
}

} // verus!
