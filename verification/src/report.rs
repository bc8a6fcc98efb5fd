//! The statistics file and the snapshot manifest as documents.
use vstd::prelude::*;
use vstd::utf8::encode_utf8;
use crate::csv_text::string_views;
use crate::document::{list_of, opt_number, text_list, Document, DocumentView, Fields};
use crate::encoding::sha256_digest;
use crate::lexical::{code_points, lemma_lex_total, lemma_lex_transitive, lex_less, text_less};
use crate::output::{
    labelled, sha256_hex, snapshot_consistency, CrawlStats, SeedSummary, SnapshotMeta,
};
use crate::protocol::hex_text;
use crate::settings::{ResultSettings, Settings, Timeouts};
use crate::store::NetworkBreakdown;
use crate::text::{chars_eq, chars_of};

verus! {

/// A number.
pub open spec fn number(n: int) -> DocumentView {
    DocumentView::Number(n)
}

/// A text.
pub open spec fn text(s: Seq<char>) -> DocumentView {
    DocumentView::Text(s)
}

/// An object.
pub open spec fn object(fields: Seq<(Seq<char>, DocumentView)>) -> DocumentView {
    DocumentView::Object(fields)
}

// ---------------------------------------------------------------------------
// Settings
// ---------------------------------------------------------------------------

/// The timeouts of a network.
pub open spec fn timeouts_held(t: Timeouts) -> DocumentView {
    object(
        seq![
            ("connect"@, number(t.connect as int)),
            ("message"@, number(t.message as int)),
            ("getaddr"@, number(t.getaddr as int)),
            ("getaddr_idle"@, number(t.getaddr_idle as int)),
        ],
    )
}

/// The settings that a statistics file records.
pub open spec fn settings_held(s: Settings) -> DocumentView {
    let en = s.enabled_networks;
    let to = s.node_settings.timeouts;
    let ns = s.node_settings.network_settings;
    let rs = s.result_settings;
    object(
        seq![
            (
                "version_info"@,
                object(
                    seq![
                        ("version"@, text(s.version_info.version@)),
                        (
                            "extra"@,
                            match s.version_info.extra {
                                Some(x) => text(x@),
                                None => DocumentView::Null,
                            },
                        ),
                    ],
                ),
            ),
            ("delay_start"@, number(s.delay_start as int)),
            (
                "max_nodes"@,
                match s.max_nodes {
                    Some(n) => number(n as int),
                    None => DocumentView::Null,
                },
            ),
            ("max_addresses"@, number(s.max_addresses as int)),
            (
                "enabled_networks"@,
                object(
                    seq![
                        ("ipv4"@, DocumentView::Bool(en.ipv4)),
                        ("ipv6"@, DocumentView::Bool(en.ipv6)),
                        ("tor"@, DocumentView::Bool(en.tor)),
                        ("i2p"@, DocumentView::Bool(en.i2p)),
                        ("cjdns"@, DocumentView::Bool(en.cjdns)),
                    ],
                ),
            ),
            ("strict_networks"@, DocumentView::Bool(s.strict_networks)),
            ("freshness_threshold"@, number(s.freshness_threshold as int)),
            ("record_addr_responses"@, DocumentView::Bool(s.record_addr_responses)),
            (
                "concurrency"@,
                object(
                    seq![
                        ("ip"@, number(s.concurrency.ip as int)),
                        ("tor"@, number(s.concurrency.tor as int)),
                        ("i2p"@, number(s.concurrency.i2p as int)),
                    ],
                ),
            ),
            (
                "node_settings"@,
                object(
                    seq![
                        (
                            "timeouts"@,
                            object(
                                seq![
                                    ("ip"@, timeouts_held(to.ip)),
                                    ("tor"@, timeouts_held(to.tor)),
                                    ("i2p"@, timeouts_held(to.i2p)),
                                    ("cjdns"@, timeouts_held(to.cjdns)),
                                ],
                            ),
                        ),
                        ("handshake_attempts"@, number(s.node_settings.handshake_attempts as int)),
                        (
                            "network_settings"@,
                            object(
                                seq![
                                    ("tor_proxy_host"@, text(ns.tor_proxy_host@)),
                                    ("tor_proxy_port"@, number(ns.tor_proxy_port as int)),
                                    ("i2p_sam_host"@, text(ns.i2p_sam_host@)),
                                    ("i2p_sam_port"@, number(ns.i2p_sam_port as int)),
                                ],
                            ),
                        ),
                    ],
                ),
            ),
            (
                "result_settings"@,
                object(
                    seq![
                        ("path"@, text(rs.path@)),
                        ("timestamp"@, text(rs.timestamp@)),
                        ("reachable_nodes"@, text(rs.reachable_nodes@)),
                        ("handshake_failed_nodes"@, text(rs.handshake_failed_nodes@)),
                        ("unreachable_nodes"@, text(rs.unreachable_nodes@)),
                        ("crawler_stats"@, text(rs.crawler_stats@)),
                        ("addr_responses"@, text(rs.addr_responses@)),
                    ],
                ),
            ),
        ],
    )
}

fn timeouts_document(t: &Timeouts) -> (r: Document)
    ensures
        r.holds() == timeouts_held(*t),
{
    let mut f = Fields::new();
    f.put_number("connect", t.connect);
    f.put_number("message", t.message);
    f.put_number("getaddr", t.getaddr);
    f.put_number("getaddr_idle", t.getaddr_idle);
    proof {
        assert(f@ =~= timeouts_held(*t)->Object_0);
    }
    f.object()
}

fn version_document(s: &Settings) -> (r: Document)
    ensures
        r.holds() == settings_held(*s)->Object_0[0].1,
{
    let mut f = Fields::new();
    f.put_text("version", &s.version_info.version);
    match &s.version_info.extra {
        Some(x) => f.put_text("extra", x),
        None => f.put("extra", Document::Null),
    }
    proof {
        assert(f@ =~= settings_held(*s)->Object_0[0].1->Object_0);
    }
    f.object()
}

fn networks_document(s: &Settings) -> (r: Document)
    ensures
        r.holds() == settings_held(*s)->Object_0[4].1,
{
    let mut f = Fields::new();
    f.put_bool("ipv4", s.enabled_networks.ipv4);
    f.put_bool("ipv6", s.enabled_networks.ipv6);
    f.put_bool("tor", s.enabled_networks.tor);
    f.put_bool("i2p", s.enabled_networks.i2p);
    f.put_bool("cjdns", s.enabled_networks.cjdns);
    proof {
        assert(f@ =~= settings_held(*s)->Object_0[4].1->Object_0);
    }
    f.object()
}

fn concurrency_document(s: &Settings) -> (r: Document)
    ensures
        r.holds() == settings_held(*s)->Object_0[8].1,
{
    let mut f = Fields::new();
    f.put_number("ip", s.concurrency.ip as u64);
    f.put_number("tor", s.concurrency.tor as u64);
    f.put_number("i2p", s.concurrency.i2p as u64);
    proof {
        assert(f@ =~= settings_held(*s)->Object_0[8].1->Object_0);
    }
    f.object()
}

fn node_document(s: &Settings) -> (r: Document)
    ensures
        r.holds() == settings_held(*s)->Object_0[9].1,
{
    let to = &s.node_settings.timeouts;
    let ns = &s.node_settings.network_settings;
    let ghost want = settings_held(*s)->Object_0[9].1->Object_0;
    let mut timeouts = Fields::new();
    timeouts.put("ip", timeouts_document(&to.ip));
    timeouts.put("tor", timeouts_document(&to.tor));
    timeouts.put("i2p", timeouts_document(&to.i2p));
    timeouts.put("cjdns", timeouts_document(&to.cjdns));
    proof {
        assert(timeouts@ =~= want[0].1->Object_0);
    }
    let mut endpoints = Fields::new();
    endpoints.put_text("tor_proxy_host", &ns.tor_proxy_host);
    endpoints.put_number("tor_proxy_port", ns.tor_proxy_port as u64);
    endpoints.put_text("i2p_sam_host", &ns.i2p_sam_host);
    endpoints.put_number("i2p_sam_port", ns.i2p_sam_port as u64);
    proof {
        assert(endpoints@ =~= want[2].1->Object_0);
    }
    let mut f = Fields::new();
    f.put("timeouts", timeouts.object());
    f.put_number("handshake_attempts", s.node_settings.handshake_attempts as u64);
    f.put("network_settings", endpoints.object());
    proof {
        assert(f@ =~= want);
    }
    f.object()
}

fn result_document(s: &Settings) -> (r: Document)
    ensures
        r.holds() == settings_held(*s)->Object_0[10].1,
{
    let rs = &s.result_settings;
    let mut f = Fields::new();
    f.put_text("path", &rs.path);
    f.put_text("timestamp", &rs.timestamp);
    f.put_text("reachable_nodes", &rs.reachable_nodes);
    f.put_text("handshake_failed_nodes", &rs.handshake_failed_nodes);
    f.put_text("unreachable_nodes", &rs.unreachable_nodes);
    f.put_text("crawler_stats", &rs.crawler_stats);
    f.put_text("addr_responses", &rs.addr_responses);
    proof {
        assert(f@ =~= settings_held(*s)->Object_0[10].1->Object_0);
    }
    f.object()
}

/// The settings that a statistics file records.
pub fn settings_document(s: &Settings) -> (r: Document)
    ensures
        r.holds() == settings_held(*s),
{
    let mut f = Fields::new();
    f.put("version_info", version_document(s));
    f.put_number("delay_start", s.delay_start);
    match s.max_nodes {
        Some(n) => f.put_number("max_nodes", n as u64),
        None => f.put("max_nodes", Document::Null),
    }
    f.put_number("max_addresses", s.max_addresses as u64);
    f.put("enabled_networks", networks_document(s));
    f.put_bool("strict_networks", s.strict_networks);
    f.put("freshness_threshold", Document::Signed(s.freshness_threshold));
    f.put_bool("record_addr_responses", s.record_addr_responses);
    f.put("concurrency", concurrency_document(s));
    f.put("node_settings", node_document(s));
    f.put("result_settings", result_document(s));
    proof {
        assert(f@ =~= settings_held(*s)->Object_0);
    }
    f.object()
}

// ---------------------------------------------------------------------------
// Statistics
// ---------------------------------------------------------------------------

/// A per-network breakdown.
pub open spec fn breakdown_held(b: NetworkBreakdown) -> DocumentView {
    object(
        seq![
            ("total"@, number(b.total as int)),
            ("unknown"@, number(b.unknown as int)),
            ("ipv4"@, number(b.ipv4 as int)),
            ("ipv6"@, number(b.ipv6 as int)),
            ("onion_v2"@, number(b.onion_v2 as int)),
            ("onion_v3"@, number(b.onion_v3 as int)),
            ("i2p"@, number(b.i2p as int)),
            ("cjdns"@, number(b.cjdns as int)),
        ],
    )
}

/// A histogram.
pub open spec fn histogram_held(counts: Seq<(Seq<char>, u64)>) -> DocumentView {
    object(Seq::new(counts.len(), |i: int| (counts[i].0, number(counts[i].1 as int))))
}

/// How many addresses each seed gave, by network.
pub open spec fn seed_counts_held(seeds: Seq<SeedSummary>) -> DocumentView {
    object(Seq::new(seeds.len(), |i: int| (seeds[i].seed@, breakdown_held(seeds[i].breakdown))))
}

/// Which addresses each seed gave.
pub open spec fn seed_lists_held(seeds: Seq<SeedSummary>) -> DocumentView {
    object(
        Seq::new(
            seeds.len(),
            |i: int| (seeds[i].seed@, text_list(string_views(seeds[i].list@))),
        ),
    )
}

/// The statistics file.
pub open spec fn stats_held(settings: Settings, s: CrawlStats) -> DocumentView {
    object(
        seq![
            ("crawler_settings"@, settings_held(settings)),
            ("time_started"@, text(settings.result_settings.timestamp@)),
            ("runtime_seconds"@, number(s.runtime_seconds as int)),
            ("num_processed_nodes"@, number(s.num_processed_nodes as int)),
            ("num_reachable"@, breakdown_held(s.reachable.breakdown)),
            ("num_handshake_failed"@, breakdown_held(s.handshake_failed.breakdown)),
            ("num_unreachable"@, breakdown_held(s.unreachable.breakdown)),
            (
                "handshake_failed_reasons"@,
                histogram_held(labelled(s.handshake_failed_reasons@)),
            ),
            ("unreachable_reasons"@, histogram_held(labelled(s.unreachable_reasons@))),
            ("num_advertised"@, number(s.num_advertised as int)),
            (
                "num_budget_rejected_observations"@,
                number(s.num_budget_rejected_observations as int),
            ),
            ("snapshot_consistency"@, text(s.snapshot_consistency@)),
            ("run_complete"@, DocumentView::Bool(s.run_complete)),
            (
                "getaddr_sample_semantics"@,
                text(
                    "capped partial sample which may be cached for roughly 21-27 hours; not a complete live addrman view"@,
                ),
            ),
            ("num_nodes_from_seed"@, seed_counts_held(s.seeds@)),
            ("list_reachable"@, text_list(string_views(s.reachable.list@))),
            ("list_handshake_failed"@, text_list(string_views(s.handshake_failed.list@))),
            ("list_unreachable"@, text_list(string_views(s.unreachable.list@))),
            ("list_nodes_from_seed"@, seed_lists_held(s.seeds@)),
        ],
    )
}

fn breakdown_document(b: &NetworkBreakdown) -> (r: Document)
    ensures
        r.holds() == breakdown_held(*b),
{
    let mut f = Fields::new();
    f.put_number("total", b.total);
    f.put_number("unknown", b.unknown);
    f.put_number("ipv4", b.ipv4);
    f.put_number("ipv6", b.ipv6);
    f.put_number("onion_v2", b.onion_v2);
    f.put_number("onion_v3", b.onion_v3);
    f.put_number("i2p", b.i2p);
    f.put_number("cjdns", b.cjdns);
    proof {
        assert(f@ =~= breakdown_held(*b)->Object_0);
    }
    f.object()
}

fn histogram_document(counts: &Vec<(&'static str, u64)>) -> (r: Document)
    ensures
        r.holds() == histogram_held(labelled(counts@)),
{
    let ghost want = histogram_held(labelled(counts@))->Object_0;
    let mut f = Fields::new();
    let mut i: usize = 0;
    proof {
        assert(f@ =~= want.take(0));
    }
    while i < counts.len()
        invariant
            i <= counts@.len(),
            want == histogram_held(labelled(counts@))->Object_0,
            f@ == want.take(i as int),
        decreases counts@.len() - i,
    {
        f.put_number(counts[i].0, counts[i].1);
        i = i + 1;
        proof {
            assert(f@ =~= want.take(i as int));
        }
    }
    proof {
        assert(want.take(i as int) =~= want);
    }
    f.object()
}

fn seed_counts_document(seeds: &Vec<SeedSummary>) -> (r: Document)
    ensures
        r.holds() == seed_counts_held(seeds@),
{
    let ghost want = seed_counts_held(seeds@)->Object_0;
    let mut f = Fields::new();
    let mut i: usize = 0;
    proof {
        assert(f@ =~= want.take(0));
    }
    while i < seeds.len()
        invariant
            i <= seeds@.len(),
            want == seed_counts_held(seeds@)->Object_0,
            f@ == want.take(i as int),
        decreases seeds@.len() - i,
    {
        f.put(&seeds[i].seed, breakdown_document(&seeds[i].breakdown));
        i = i + 1;
        proof {
            assert(f@ =~= want.take(i as int));
        }
    }
    proof {
        assert(want.take(i as int) =~= want);
    }
    f.object()
}

fn seed_lists_document(seeds: &Vec<SeedSummary>) -> (r: Document)
    ensures
        r.holds() == seed_lists_held(seeds@),
{
    let ghost want = seed_lists_held(seeds@)->Object_0;
    let mut f = Fields::new();
    let mut i: usize = 0;
    proof {
        assert(f@ =~= want.take(0));
    }
    while i < seeds.len()
        invariant
            i <= seeds@.len(),
            want == seed_lists_held(seeds@)->Object_0,
            f@ == want.take(i as int),
        decreases seeds@.len() - i,
    {
        f.put(&seeds[i].seed, list_of(&seeds[i].list));
        i = i + 1;
        proof {
            assert(f@ =~= want.take(i as int));
        }
    }
    proof {
        assert(want.take(i as int) =~= want);
    }
    f.object()
}

/// The statistics file.
pub fn stats_document(settings: &Settings, s: &CrawlStats) -> (r: Document)
    ensures
        r.holds() == stats_held(*settings, *s),
{
    let mut f = Fields::new();
    f.put("crawler_settings", settings_document(settings));
    f.put_text("time_started", &settings.result_settings.timestamp);
    f.put("runtime_seconds", Document::Signed(s.runtime_seconds));
    f.put_number("num_processed_nodes", s.num_processed_nodes as u64);
    f.put("num_reachable", breakdown_document(&s.reachable.breakdown));
    f.put("num_handshake_failed", breakdown_document(&s.handshake_failed.breakdown));
    f.put("num_unreachable", breakdown_document(&s.unreachable.breakdown));
    f.put("handshake_failed_reasons", histogram_document(&s.handshake_failed_reasons));
    f.put("unreachable_reasons", histogram_document(&s.unreachable_reasons));
    f.put_number("num_advertised", s.num_advertised as u64);
    f.put_number("num_budget_rejected_observations", s.num_budget_rejected_observations as u64);
    f.put_text("snapshot_consistency", s.snapshot_consistency);
    f.put_bool("run_complete", s.run_complete);
    f.put_text(
        "getaddr_sample_semantics",
        "capped partial sample which may be cached for roughly 21-27 hours; not a complete live addrman view",
    );
    f.put("num_nodes_from_seed", seed_counts_document(&s.seeds));
    f.put("list_reachable", list_of(&s.reachable.list));
    f.put("list_handshake_failed", list_of(&s.handshake_failed.list));
    f.put("list_unreachable", list_of(&s.unreachable.list));
    f.put("list_nodes_from_seed", seed_lists_document(&s.seeds));
    proof {
        assert(f@ =~= stats_held(*settings, *s)->Object_0);
    }
    f.object()
}

// ---------------------------------------------------------------------------
// Manifest
// ---------------------------------------------------------------------------

/// A file's name and text, or its name and digest.
pub type NamedText = (Seq<char>, Seq<char>);

/// The contents of a list of named texts.
pub open spec fn named_texts(v: Seq<(String, String)>) -> Seq<NamedText> {
    Seq::new(v.len(), |i: int| (v[i].0@, v[i].1@))
}

/// The files of a snapshot: the three tables and the statistics, under the names that the
/// settings give them.
pub open spec fn files_held(
    rs: ResultSettings,
    reachable: Seq<char>,
    handshake_failed: Seq<char>,
    unreachable: Seq<char>,
    stats: Seq<char>,
) -> Seq<NamedText> {
    seq![
        (rs.reachable_nodes@, reachable),
        (rs.handshake_failed_nodes@, handshake_failed),
        (rs.unreachable_nodes@, unreachable),
        (rs.crawler_stats@, stats),
    ]
}

/// The files of a snapshot, in the order in which they are written.
pub fn result_files(
    rs: &ResultSettings,
    reachable: String,
    handshake_failed: String,
    unreachable: String,
    stats: String,
) -> (r: Vec<(String, String)>)
    ensures
        named_texts(r@) == files_held(
            *rs,
            reachable@,
            handshake_failed@,
            unreachable@,
            stats@,
        ),
{
    let ghost want = files_held(*rs, reachable@, handshake_failed@, unreachable@, stats@);
    let mut out: Vec<(String, String)> = Vec::new();
    out.push((rs.reachable_nodes.clone(), reachable));
    out.push((rs.handshake_failed_nodes.clone(), handshake_failed));
    out.push((rs.unreachable_nodes.clone(), unreachable));
    out.push((rs.crawler_stats.clone(), stats));
    proof {
        assert(named_texts(out@) =~= want);
    }
    out
}

/// The SHA-256 digest of a text's bytes in hexadecimal.
pub open spec fn text_digest(s: Seq<char>) -> Seq<char> {
    hex_text(sha256_digest(encode_utf8(s)))
}

/// A list ordered by name with one more entry in its place; an entry of the same name gives
/// way.
pub open spec fn with_named(s: Seq<NamedText>, name: Seq<char>, value: Seq<char>) -> Seq<NamedText>
    decreases s.len(),
{
    if s.len() == 0 {
        seq![(name, value)]
    } else if s[0].0 == name {
        s.update(0, (name, value))
    } else if lex_less(code_points(name), code_points(s[0].0)) {
        seq![(name, value)] + s
    } else {
        seq![s[0]] + with_named(s.skip(1), name, value)
    }
}

/// The digests of the first `n` files, ordered by name.
pub open spec fn digests_of(files: Seq<NamedText>, n: nat) -> Seq<NamedText>
    decreases n,
{
    if n == 0 {
        Seq::empty()
    } else {
        with_named(
            digests_of(files, (n - 1) as nat),
            files[n - 1].0,
            text_digest(files[n - 1].1),
        )
    }
}

/// Whether names stand in order, without repetition.
pub open spec fn names_in_order(s: Seq<NamedText>) -> bool {
    forall|i: int, j: int|
        0 <= i < j < s.len() ==> lex_less(
            code_points((#[trigger] s[i]).0),
            code_points((#[trigger] s[j]).0),
        )
}

fn put_named(list: &mut Vec<(String, String)>, name: &str, value: String)
    ensures
        named_texts(final(list)@) == with_named(named_texts(old(list)@), name@, value@),
{
    let ghost s = named_texts(list@);
    let wanted = chars_of(name);
    let n = list.len();
    let mut at: usize = 0;
    proof {
        assert(s.skip(0) =~= s);
        assert(s.take(0) + with_named(s.skip(0), name@, value@) =~= with_named(s, name@, value@));
    }
    while at < n
        invariant
            list@ == old(list)@,
            n == list@.len(),
            at <= n,
            s == named_texts(list@),
            wanted@ == name@,
            with_named(s, name@, value@) == s.take(at as int) + with_named(
                s.skip(at as int),
                name@,
                value@,
            ),
        decreases n - at,
    {
        let here = chars_of(&list[at].0);
        proof {
            assert(s.skip(at as int)[0] == s[at as int]);
        }
        if chars_eq(&here, &wanted) {
            list[at] = (name.to_owned(), value);
            proof {
                assert(named_texts(list@) =~= s.take(at as int) + s.skip(at as int).update(
                    0,
                    (name@, value@),
                ));
            }
            return ;
        }
        if text_less(&wanted, &here) {
            list.insert(at, (name.to_owned(), value));
            proof {
                assert(named_texts(list@) =~= s.take(at as int) + (seq![(name@, value@)] + s.skip(
                    at as int,
                )));
            }
            return ;
        }
        proof {
            let rest = with_named(s.skip(at + 1), name@, value@);
            assert(s.skip(at as int).skip(1) =~= s.skip(at + 1));
            assert(s.take(at as int) + (seq![s[at as int]] + rest) =~= s.take(at + 1) + rest);
        }
        at = at + 1;
    }
    list.push((name.to_owned(), value));
    proof {
        assert(named_texts(list@) =~= s.take(at as int) + seq![(name@, value@)]);
    }
}

/// The digests of files, ordered by name.
fn file_digests(files: &Vec<(String, String)>) -> (r: Vec<(String, String)>)
    ensures
        named_texts(r@) == digests_of(named_texts(files@), files@.len()),
{
    let ghost want = named_texts(files@);
    let mut out: Vec<(String, String)> = Vec::new();
    let mut i: usize = 0;
    proof {
        assert(named_texts(out@) =~= Seq::<NamedText>::empty());
    }
    while i < files.len()
        invariant
            i <= files@.len(),
            want == named_texts(files@),
            named_texts(out@) == digests_of(want, i as nat),
        decreases files@.len() - i,
    {
        proof {
            assert(want[i as int] == (files@[i as int].0@, files@[i as int].1@));
        }
        let digest = sha256_hex(files[i].1.as_str().as_bytes());
        put_named(&mut out, &files[i].0, digest);
        i = i + 1;
    }
    out
}

/// The digests that a manifest records: those of exactly the snapshot's files, ordered by
/// name.
pub fn result_digests(
    rs: &ResultSettings,
    reachable: &str,
    handshake_failed: &str,
    unreachable: &str,
    stats: &str,
) -> (r: Vec<(String, String)>)
    ensures
        named_texts(r@) == digests_of(
            files_held(*rs, reachable@, handshake_failed@, unreachable@, stats@),
            4,
        ),
{
    let files = result_files(
        rs,
        reachable.to_owned(),
        handshake_failed.to_owned(),
        unreachable.to_owned(),
        stats.to_owned(),
    );
    proof {
        assert(named_texts(files@).len() == 4);
    }
    file_digests(&files)
}

proof fn lemma_with_named(s: Seq<NamedText>, name: Seq<char>, value: Seq<char>)
    requires
        names_in_order(s),
    ensures
        names_in_order(with_named(s, name, value)),
        with_named(s, name, value).contains((name, value)),
        forall|p: NamedText|
            p.0 != name ==> (#[trigger] with_named(s, name, value).contains(p) <==> s.contains(p)),
        (forall|k: int| 0 <= k < s.len() ==> (#[trigger] s[k]).0 != name) ==> with_named(
            s,
            name,
            value,
        ).len() == s.len() + 1,
    decreases s.len(),
{
    let w = with_named(s, name, value);
    let new = (name, value);
    if s.len() == 0 {
        assert(w[0] == new);
        assert forall|p: NamedText| p.0 != name implies (#[trigger] w.contains(p) <==> s.contains(
            p,
        )) by {
        }
    } else if s[0].0 == name {
        assert(w[0] == new);
        assert forall|p: NamedText| p.0 != name implies (#[trigger] w.contains(p) <==> s.contains(
            p,
        )) by {
            if w.contains(p) {
                let k = choose|k: int| 0 <= k < w.len() && w[k] == p;
                assert(s[k] == p);
            }
            if s.contains(p) {
                let k = choose|k: int| 0 <= k < s.len() && s[k] == p;
                assert(w[k] == p);
            }
        }
        assert forall|i: int, j: int| 0 <= i < j < w.len() implies lex_less(
            code_points((#[trigger] w[i]).0),
            code_points((#[trigger] w[j]).0),
        ) by {
            assert(w[i].0 == s[i].0);
            assert(w[j].0 == s[j].0);
        }
    } else if lex_less(code_points(name), code_points(s[0].0)) {
        assert(w[0] == new);
        assert forall|p: NamedText| p.0 != name implies (#[trigger] w.contains(p) <==> s.contains(
            p,
        )) by {
            if w.contains(p) {
                let k = choose|k: int| 0 <= k < w.len() && w[k] == p;
                assert(s[k - 1] == p);
            }
            if s.contains(p) {
                let k = choose|k: int| 0 <= k < s.len() && s[k] == p;
                assert(w[k + 1] == p);
            }
        }
        assert forall|i: int, j: int| 0 <= i < j < w.len() implies lex_less(
            code_points((#[trigger] w[i]).0),
            code_points((#[trigger] w[j]).0),
        ) by {
            assert(w[j] == s[j - 1]);
            if i > 0 {
                assert(w[i] == s[i - 1]);
            } else if j > 1 {
                lemma_lex_transitive(
                    code_points(name),
                    code_points(s[0].0),
                    code_points(s[j - 1].0),
                );
            }
        }
    } else {
        let rest = s.skip(1);
        let v = with_named(rest, name, value);
        assert forall|i: int, j: int| 0 <= i < j < rest.len() implies lex_less(
            code_points((#[trigger] rest[i]).0),
            code_points((#[trigger] rest[j]).0),
        ) by {
            assert(rest[i] == s[i + 1]);
            assert(rest[j] == s[j + 1]);
        }
        lemma_with_named(rest, name, value);
        let at = choose|at: int| 0 <= at < v.len() && v[at] == new;
        assert(w[at + 1] == new);
        assert forall|p: NamedText| p.0 != name implies (#[trigger] w.contains(p) <==> s.contains(
            p,
        )) by {
            assert(v.contains(p) <==> rest.contains(p));
            if w.contains(p) {
                let k = choose|k: int| 0 <= k < w.len() && w[k] == p;
                if k == 0 {
                    assert(s[0] == p);
                } else {
                    assert(v[k - 1] == p);
                    assert(v.contains(p));
                    let l = choose|l: int| 0 <= l < rest.len() && rest[l] == p;
                    assert(s[l + 1] == p);
                }
            }
            if s.contains(p) {
                let k = choose|k: int| 0 <= k < s.len() && s[k] == p;
                if k == 0 {
                    assert(w[0] == p);
                } else {
                    assert(rest[k - 1] == p);
                    assert(rest.contains(p));
                    let l = choose|l: int| 0 <= l < v.len() && v[l] == p;
                    assert(w[l + 1] == p);
                }
            }
        }
        lemma_code_points_injective(name, s[0].0);
        lemma_lex_total(code_points(name), code_points(s[0].0));
        assert forall|i: int, j: int| 0 <= i < j < w.len() implies lex_less(
            code_points((#[trigger] w[i]).0),
            code_points((#[trigger] w[j]).0),
        ) by {
            assert(w[j] == v[j - 1]);
            if i > 0 {
                assert(w[i] == v[i - 1]);
            } else if v[j - 1].0 != name {
                assert(v.contains(v[j - 1]));
                assert(rest.contains(v[j - 1]));
                let l = choose|l: int| 0 <= l < rest.len() && rest[l] == v[j - 1];
                assert(s[l + 1] == v[j - 1]);
            }
        }
        if forall|k: int| 0 <= k < s.len() ==> (#[trigger] s[k]).0 != name {
            assert forall|k: int| 0 <= k < rest.len() implies (#[trigger] rest[k]).0 != name by {
                assert(rest[k] == s[k + 1]);
            }
        }
    }
}

proof fn lemma_code_points_injective(a: Seq<char>, b: Seq<char>)
    requires
        a != b,
    ensures
        code_points(a) != code_points(b),
{
    if code_points(a) == code_points(b) {
        assert(a.len() == code_points(a).len());
        assert(b.len() == code_points(b).len());
        assert forall|i: int| 0 <= i < a.len() implies a[i] == b[i] by {
            assert(code_points(a)[i] == code_points(b)[i]);
        }
        assert(a =~= b);
    }
}

/// The digests of files with different names are one for each file, ordered by name, and
/// each is that of its file's text.
pub proof fn law_digests_cover_the_files(files: Seq<NamedText>, n: nat)
    requires
        n <= files.len(),
        forall|i: int, j: int|
            0 <= i < j < n ==> (#[trigger] files[i]).0 != (#[trigger] files[j]).0,
    ensures
        names_in_order(digests_of(files, n)),
        digests_of(files, n).len() == n,
        forall|i: int|
            0 <= i < n ==> digests_of(files, n).contains(
                (#[trigger] files[i].0, text_digest(files[i].1)),
            ),
        forall|p: NamedText| #[trigger]
            digests_of(files, n).contains(p) ==> exists|i: int|
                0 <= i < n && p.0 == #[trigger] files[i].0,
    decreases n,
{
    if n > 0 {
        let m = (n - 1) as nat;
        law_digests_cover_the_files(files, m);
        let before = digests_of(files, m);
        let name = files[n - 1].0;
        let digest = text_digest(files[n - 1].1);
        lemma_with_named(before, name, digest);
        let after = digests_of(files, n);
        assert forall|k: int| 0 <= k < before.len() implies (#[trigger] before[k]).0 != name by {
            assert(before.contains(before[k]));
            let i = choose|i: int| 0 <= i < m && before[k].0 == #[trigger] files[i].0;
            assert(files[i].0 != files[n - 1].0);
        }
        assert forall|i: int| 0 <= i < n implies after.contains(
            (#[trigger] files[i].0, text_digest(files[i].1)),
        ) by {
            if i < m {
                assert(files[i].0 != files[n - 1].0);
                assert(before.contains((files[i].0, text_digest(files[i].1))));
            }
        }
        assert forall|p: NamedText| #[trigger] after.contains(p) implies exists|i: int|
            0 <= i < n && p.0 == #[trigger] files[i].0 by {
            if p.0 != name {
                assert(before.contains(p));
            } else {
                assert(p.0 == files[n - 1].0);
            }
        }
    }
}

/// Digests by file name.
pub open spec fn digests_held(digests: Seq<NamedText>) -> DocumentView {
    object(Seq::new(digests.len(), |i: int| (digests[i].0, text(digests[i].1))))
}

/// The manifest of a snapshot: where it is, how far it can be relied on, and the digests of
/// its files.
pub open spec fn manifest_held(
    generation: Seq<char>,
    meta: SnapshotMeta,
    entries: usize,
    files: Seq<NamedText>,
) -> DocumentView {
    object(
        seq![
            ("schema_version"@, number(1)),
            ("generation"@, text(generation)),
            ("snapshot_directory"@, text("snapshots/"@ + generation)),
            (
                "snapshot_consistency"@,
                text(
                    if meta.consistent {
                        "final_consistent"@
                    } else {
                        "checkpoint_fuzzy"@
                    },
                ),
            ),
            ("run_complete"@, DocumentView::Bool(meta.run_complete)),
            ("durable_addr_event_id"@, opt_number(meta.durable_addr_event_id)),
            ("num_snapshot_entries"@, number(entries as int)),
            ("files_sha256"@, digests_held(files)),
            (
                "address_sample_semantics"@,
                text(
                    "A getaddr response is a capped, partial, potentially 21-27-hour cached sample; it is not a complete live addrman view."@,
                ),
            ),
        ],
    )
}

fn digests_document(files: &Vec<(String, String)>) -> (r: Document)
    ensures
        r.holds() == digests_held(named_texts(files@)),
{
    let ghost want = digests_held(named_texts(files@))->Object_0;
    let mut f = Fields::new();
    let mut i: usize = 0;
    proof {
        assert(f@ =~= want.take(0));
    }
    while i < files.len()
        invariant
            i <= files@.len(),
            want == digests_held(named_texts(files@))->Object_0,
            f@ == want.take(i as int),
        decreases files@.len() - i,
    {
        f.put_text(&files[i].0, &files[i].1);
        i = i + 1;
        proof {
            assert(f@ =~= want.take(i as int));
        }
    }
    proof {
        assert(want.take(i as int) =~= want);
    }
    f.object()
}

/// The manifest of a snapshot. The digests are given by file name.
pub fn manifest_document(
    generation: &str,
    meta: SnapshotMeta,
    entries: usize,
    files: &Vec<(String, String)>,
) -> (r: Document)
    ensures
        r.holds() == manifest_held(generation@, meta, entries, named_texts(files@)),
{
    let mut directory: String = "snapshots/".to_owned();
    directory.push_str(generation);
    let mut f = Fields::new();
    f.put_number("schema_version", 1);
    f.put_text("generation", generation);
    f.put_text("snapshot_directory", &directory);
    f.put_text("snapshot_consistency", snapshot_consistency(meta.consistent));
    f.put_bool("run_complete", meta.run_complete);
    match meta.durable_addr_event_id {
        Some(id) => f.put_number("durable_addr_event_id", id),
        None => f.put("durable_addr_event_id", Document::Null),
    }
    f.put_number("num_snapshot_entries", entries as u64);
    f.put("files_sha256", digests_document(files));
    f.put_text(
        "address_sample_semantics",
        "A getaddr response is a capped, partial, potentially 21-27-hour cached sample; it is not a complete live addrman view.",
    );
    proof {
        assert(f@ =~= manifest_held(generation@, meta, entries, named_texts(files@))->Object_0);
    }
    f.object()
}

} // verus!
