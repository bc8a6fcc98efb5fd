use new_p2p_crawler::address::NetworkType;
use new_p2p_crawler::addrlog::{AddrLog, Responder};
use new_p2p_crawler::crawler::{Attempt, Crawler, WorkerStep};
use new_p2p_crawler::document::{list_of, Document};
use new_p2p_crawler::csv_text::{push_csv_field, push_csv_fields};
use new_p2p_crawler::listing::sort_marks;
use new_p2p_crawler::output::{
    attempt_history_json, crawl_stats, run_complete, sha256_hex, snapshot_consistency,
    summarize_seed, table_order, write_handshake_failed, write_reachable, write_unreachable,
    SeedResult, SnapshotMeta, Table,
};
use new_p2p_crawler::protocol::{
    build_version, parse_version, AddrParseError, AdvertisedAddr, ParsedAddrMessage,
};
use new_p2p_crawler::report::{
    manifest_document, result_digests, result_files, settings_document, stats_document,
};
use new_p2p_crawler::settings::Cli;
use new_p2p_crawler::store::{AddrKey, CollectionOutcome, FailKind, HandshakeData, NodeStore};

fn handshake(user_agent: &str, sent: i64) -> HandshakeData {
    let mut v = parse_version(&build_version(11, 12)).unwrap();
    v.user_agent = user_agent.to_string();
    HandshakeData::from_version(
        &v,
        sent,
        34,
        "e".to_string(),
        "d".to_string(),
        "l".to_string(),
        "p".to_string(),
    )
}

fn work(c: &mut Crawler, host: &str, freshest: i64) -> (AddrKey, Attempt) {
    let key = AddrKey::new(host, 8333);
    c.enqueue_seed(&key, freshest);
    match c.take(&key) {
        WorkerStep::Process(a) => (key, a),
        WorkerStep::Discard => panic!("there is no node limit"),
    }
}

fn sample() -> Crawler {
    let mut cli = Cli::default();
    cli.common.handshake_attempts = 1;
    let mut c = Crawler::new(NodeStore::new(), cli.into_settings().unwrap());
    for (host, sent) in [("1.1.1.1", 50), ("2.2.2.2", 40), ("3.3.3.3", 40)] {
        let (key, _) = work(&mut c, host, 5);
        c.connected(&key, 7);
        c.version_sent(&key, sent);
        let mut v = parse_version(&build_version(11, 12)).unwrap();
        v.user_agent = "a, \"b\"".to_string();
        c.handshake_completed(&key, &v, sent, 34, "l".to_string(), "p".to_string());
        c.completed(&key, sent);
    }
    let (key, a) = work(&mut c, "2001:db8::1", 6);
    c.connected(&key, 8);
    c.version_sent(&key, 41);
    c.handshake_failed(&key, &a, FailKind::ConnectionClosed);
    for (host, seen) in [("4.4.4.4", 9), ("5.5.5.5", 3)] {
        let (key, a) = work(&mut c, host, seen);
        let e = new_p2p_crawler::io_error::IoError::new(
            new_p2p_crawler::io_error::IoErrorKind::TimedOut,
            "",
        );
        c.connect_failed(&key, &a, &e);
    }
    c
}

#[test]
fn tables_without_nodes_are_their_headers() {
    let snapshot = NodeStore::new().snapshot();
    let reachable = write_reachable(&snapshot);
    assert!(reachable.starts_with("host,port,network,handshake_timestamp,time_connect,"));
    assert!(reachable.ends_with(",version_nonce,attempt_history_json\n"));
    assert_eq!(reachable.matches('\n').count(), 1);
    assert_eq!(reachable.matches(',').count(), 33);
    assert_eq!(
        write_handshake_failed(&snapshot),
        "host,port,network,failure_reason,handshake_timestamp,time_connect,handshake_attempts,freshest_timestamp,attempt_history_json\n"
    );
    assert_eq!(
        write_unreachable(&snapshot),
        "host,port,network,failure_reason,handshake_attempts,freshest_timestamp,attempt_history_json\n"
    );
}

#[test]
fn tables_list_nodes_by_time() {
    let c = sample();
    let snapshot = c.store().snapshot();
    let order = table_order(&snapshot, Table::Reachable);
    assert_eq!(order, vec![(40, 1), (40, 2), (50, 0)]);
    let text = write_reachable(&snapshot);
    let lines: Vec<&str> = text.lines().collect();
    assert_eq!(lines.len(), 4);
    assert!(lines[1].starts_with("2.2.2.2,8333,ipv4,40,7,1,34,70016,0,\"a, \"\"b\"\"\",0,false,11,0,"));
    assert!(lines[1].contains(",5,not_requested,0,0,2.2.2.2:8333,2.2.2.2:8333,l,p,0.0.0.0:0,0,0.0.0.0:0,0,12,"));
    assert!(lines[3].starts_with("1.1.1.1,"));
    let failed = write_handshake_failed(&snapshot);
    assert!(failed.lines().nth(1).unwrap().starts_with(
        "2001:db8::1,8333,ipv6,connection_closed,41,8,1,6,"
    ));
    let unreachable = write_unreachable(&snapshot);
    let lines: Vec<&str> = unreachable.lines().collect();
    assert!(lines[1].starts_with("5.5.5.5,8333,ipv4,connect_timeout,1,3,"));
    assert!(lines[2].starts_with("4.4.4.4,8333,ipv4,connect_timeout,1,9,"));
}

#[test]
fn attempt_history_is_json() {
    let c = sample();
    let key = AddrKey::new("4.4.4.4", 8333);
    assert_eq!(
        attempt_history_json(c.store().entry(&key).unwrap()),
        "[{\"attempt\":1,\"connect_duration_ms\":null,\"version_send_timestamp\":null,\"outcome\":\"connect_failed\",\"failure\":\"connect_timeout\"}]"
    );
    let key = AddrKey::new("1.1.1.1", 8333);
    let mut e = c.store().entry(&key).unwrap().clone();
    e.attempts[0].outcome = "q\"\\\n\u{1}\u{1f}é".to_string();
    assert_eq!(
        attempt_history_json(&e),
        "[{\"attempt\":1,\"connect_duration_ms\":7,\"version_send_timestamp\":50,\"outcome\":\"q\\\"\\\\\\n\\u0001\\u001fé\",\"failure\":null}]"
    );
    e.attempts.clear();
    assert_eq!(attempt_history_json(&e), "[]");
}

#[test]
fn statistics_come_from_the_snapshot() {
    let c = sample();
    let meta = SnapshotMeta {
        runtime_seconds: 17,
        num_processed: 6,
        durable_addr_event_id: None,
        consistent: true,
        run_complete: true,
    };
    let seeds = vec![SeedResult {
        seed: "seed.example.".to_string(),
        addrs: vec![
            (AddrKey::new("1.1.1.1", 8333), NetworkType::Ipv4),
            (AddrKey::new("2001:db8::1", 8333), NetworkType::Ipv6),
        ],
    }];
    let s = crawl_stats(&c.store().snapshot(), &seeds, 4, meta);
    assert_eq!(s.runtime_seconds, 17);
    assert_eq!(s.num_processed_nodes, 6);
    assert_eq!(s.num_advertised, 6);
    assert_eq!(s.num_budget_rejected_observations, 4);
    assert_eq!(s.snapshot_consistency, "final_consistent");
    assert!(s.run_complete);
    assert_eq!((s.reachable.breakdown.total, s.reachable.breakdown.ipv4), (3, 3));
    assert_eq!(s.reachable.list[0], "1.1.1.1:8333");
    assert_eq!(s.handshake_failed.list, vec!["[2001:db8::1]:8333"]);
    assert_eq!(s.handshake_failed.breakdown.ipv6, 1);
    assert_eq!(s.handshake_failed_reasons, vec![("connection_closed", 1)]);
    assert_eq!(s.unreachable_reasons, vec![("connect_timeout", 2)]);
    assert_eq!(s.seeds[0].list, vec!["1.1.1.1:8333", "[2001:db8::1]:8333"]);
    assert_eq!(s.seeds[0].breakdown.total, 2);
    assert_eq!(summarize_seed(&seeds[0]).seed, "seed.example.");
}

#[test]
fn snapshot_labels_and_digests() {
    assert_eq!(snapshot_consistency(true), "final_consistent");
    assert_eq!(snapshot_consistency(false), "checkpoint_fuzzy");
    assert!(run_complete(true, true, false));
    assert!(!run_complete(true, true, true));
    assert!(!run_complete(false, true, false));
    assert_eq!(
        sha256_hex(b"abc"),
        "ba7816bf8f01cfea414140de5dae2223b00361a396177a9cb410ff61f20015ad"
    );
}

#[test]
fn marks_are_sorted_stably() {
    let marks = vec![(3, 0), (1, 1), (3, 2), (-5, 3), (1, 4)];
    assert_eq!(
        sort_marks(&marks),
        vec![(-5, 3), (1, 1), (1, 4), (3, 0), (3, 2)]
    );
    assert!(sort_marks(&vec![]).is_empty());
}

#[test]
fn fields_are_quoted_where_necessary() {
    let mut out = String::new();
    push_csv_field(&mut out, "plain");
    push_csv_field(&mut out, "a\"b");
    push_csv_field(&mut out, "x\ry");
    assert_eq!(out, "plain\"a\"\"b\"\"x\ry\"");
    let mut out = String::new();
    push_csv_fields(
        &mut out,
        &vec!["a".to_string(), String::new(), "c,d".to_string()],
    );
    assert_eq!(out, "a,,\"c,d\"");
}

#[test]
fn log_records_are_numbered() {
    let mut log = AddrLog::create();
    let hd = handshake("/peer, v1/", 5);
    let r = Responder {
        host: "1.2.3.4",
        port: 8333,
        network: "ipv4",
        received_at: 99,
        message_type: "addrv2",
        handshake: &hd,
    };
    let parsed = ParsedAddrMessage {
        declared_count: 2,
        addrs: vec![AdvertisedAddr {
            host: "5.6.7.8".to_string(),
            port: 1,
            network: NetworkType::Ipv4,
            timestamp: -3,
            services: 9,
            wire_network_id: 1,
        }],
        unknown_entries: 1,
    };
    let (id, block) = log.write_block(&r, &parsed);
    assert_eq!(id, 1);
    assert_eq!(
        block,
        "===NEW NODE===,1,1.2.3.4,8333,ipv4,99,addrv2,complete,2,1,1,70016,0,\"/peer, v1/\",0,false\n1,5.6.7.8,1,ipv4,-3,9,1\n"
    );
    let (id, line) = log.write_outcome("1.2.3.4", 8333, CollectionOutcome::CompleteQuiet);
    assert_eq!(id, 2);
    assert_eq!(line, "===REQUEST OUTCOME===,2,1.2.3.4,8333,complete_quiet\n");
    let (id, line) = log.write_malformed(
        "1.2.3.4",
        8333,
        "addr",
        &AddrParseError::TrailingBytes(2),
        b"abc",
    );
    assert_eq!(id, 3);
    assert_eq!(
        line,
        "===MALFORMED RESPONSE===,3,1.2.3.4,8333,addr,malformed,2 trailing bytes after address vector,ba7816bf8f01cfea414140de5dae2223b00361a396177a9cb410ff61f20015ad\n"
    );
    assert_eq!(log.next_event_id(), 4);
}

fn render(d: &Document) -> String {
    match d {
        Document::Null => "null".to_string(),
        Document::Bool(b) => b.to_string(),
        Document::Unsigned(n) => n.to_string(),
        Document::Signed(n) => n.to_string(),
        Document::Text(s) => format!("'{s}'"),
        Document::List(items) => {
            let items: Vec<String> = items.iter().map(render).collect();
            format!("[{}]", items.join(","))
        }
        Document::Object(fields) => {
            let fields: Vec<String> = fields
                .iter()
                .map(|(k, v)| format!("{k}:{}", render(v)))
                .collect();
            format!("{{{}}}", fields.join(","))
        }
    }
}

fn field<'a>(d: &'a Document, key: &str) -> &'a Document {
    match d {
        Document::Object(fields) => &fields.iter().find(|(k, _)| k == key).unwrap().1,
        _ => panic!("not an object"),
    }
}

#[test]
fn settings_are_recorded() {
    let mut cli = Cli::default();
    cli.common.timestamp = Some("t".to_string());
    let s = cli.into_settings().unwrap();
    assert_eq!(
        render(&settings_document(&s)),
        "{version_info:{version:'0.1.0',extra:null},delay_start:0,max_nodes:null,max_addresses:1000000,\
enabled_networks:{ipv4:true,ipv6:true,tor:true,i2p:true,cjdns:true},strict_networks:false,\
freshness_threshold:172800,record_addr_responses:true,concurrency:{ip:64,tor:64,i2p:32},\
node_settings:{timeouts:{ip:{connect:3,message:30,getaddr:70,getaddr_idle:3},\
tor:{connect:100,message:40,getaddr:90,getaddr_idle:5},\
i2p:{connect:30,message:80,getaddr:170,getaddr_idle:8},\
cjdns:{connect:10,message:30,getaddr:70,getaddr_idle:3}},handshake_attempts:3,\
network_settings:{tor_proxy_host:'127.0.0.1',tor_proxy_port:9050,\
i2p_sam_host:'127.0.0.1',i2p_sam_port:7656}},\
result_settings:{path:'results',timestamp:'t',reachable_nodes:'reachable_nodes.csv',\
handshake_failed_nodes:'handshake_failed_nodes.csv',unreachable_nodes:'unreachable_nodes.csv',\
crawler_stats:'crawler_stats.json',addr_responses:'addr_responses.csv'}}"
    );
}

#[test]
fn statistics_are_documented_in_order() {
    let c = sample();
    let meta = SnapshotMeta {
        runtime_seconds: -1,
        num_processed: 6,
        durable_addr_event_id: None,
        consistent: false,
        run_complete: false,
    };
    let seeds = vec![SeedResult {
        seed: "seed.".to_string(),
        addrs: vec![(AddrKey::new("1.1.1.1", 8333), NetworkType::Ipv4)],
    }];
    let stats = crawl_stats(&c.store().snapshot(), &seeds, 0, meta);
    let d = stats_document(c.settings(), &stats);
    let keys: Vec<&str> = match &d {
        Document::Object(fields) => fields.iter().map(|(k, _)| k.as_str()).collect(),
        _ => panic!("the statistics are an object"),
    };
    assert_eq!(
        keys,
        vec![
            "crawler_settings",
            "time_started",
            "runtime_seconds",
            "num_processed_nodes",
            "num_reachable",
            "num_handshake_failed",
            "num_unreachable",
            "handshake_failed_reasons",
            "unreachable_reasons",
            "num_advertised",
            "num_budget_rejected_observations",
            "snapshot_consistency",
            "run_complete",
            "getaddr_sample_semantics",
            "num_nodes_from_seed",
            "list_reachable",
            "list_handshake_failed",
            "list_unreachable",
            "list_nodes_from_seed",
        ]
    );
    assert_eq!(render(field(&d, "runtime_seconds")), "-1");
    assert_eq!(
        render(field(&d, "num_reachable")),
        "{total:3,unknown:0,ipv4:3,ipv6:0,onion_v2:0,onion_v3:0,i2p:0,cjdns:0}"
    );
    assert_eq!(render(field(&d, "unreachable_reasons")), "{connect_timeout:2}");
    assert_eq!(render(field(&d, "snapshot_consistency")), "'checkpoint_fuzzy'");
    assert_eq!(render(field(&d, "list_nodes_from_seed")), "{seed.:['1.1.1.1:8333']}");
    assert_eq!(render(&list_of(&vec![])), "[]");
}

#[test]
fn manifests_name_their_snapshot() {
    let meta = SnapshotMeta {
        runtime_seconds: 0,
        num_processed: 0,
        durable_addr_event_id: Some(7),
        consistent: true,
        run_complete: true,
    };
    let files = vec![("a.csv".to_string(), "00ff".to_string())];
    assert_eq!(
        render(&manifest_document("g1", meta, 5, &files)),
        "{schema_version:1,generation:'g1',snapshot_directory:'snapshots/g1',\
snapshot_consistency:'final_consistent',run_complete:true,durable_addr_event_id:7,\
num_snapshot_entries:5,files_sha256:{a.csv:'00ff'},\
address_sample_semantics:'A getaddr response is a capped, partial, potentially 21-27-hour cached sample; it is not a complete live addrman view.'}"
    );
}

fn pairs(list: &[(&str, &str)]) -> Vec<(String, String)> {
    list.iter()
        .map(|(a, b)| (a.to_string(), b.to_string()))
        .collect()
}

const ABC: &str = "ba7816bf8f01cfea414140de5dae2223b00361a396177a9cb410ff61f20015ad";
const EMPTY: &str = "e3b0c44298fc1c149afbf4c8996fb92427ae41e4649b934ca495991b7852b855";

#[test]
fn digests_are_listed_by_name() {
    let mut results = Cli::default().into_settings().unwrap().result_settings;
    results.reachable_nodes = "r.csv".to_string();
    results.handshake_failed_nodes = "h.csv".to_string();
    results.unreachable_nodes = "u.csv".to_string();
    results.crawler_stats = "s.json".to_string();
    let files = result_files(
        &results,
        "abc".to_string(),
        String::new(),
        "abc".to_string(),
        "x".to_string(),
    );
    assert_eq!(
        files,
        pairs(&[("r.csv", "abc"), ("h.csv", ""), ("u.csv", "abc"), ("s.json", "x")])
    );
    let x = sha256_hex(b"x");
    assert_eq!(
        result_digests(&results, "abc", "", "abc", "x"),
        pairs(&[("h.csv", EMPTY), ("r.csv", ABC), ("s.json", &x), ("u.csv", ABC)])
    );
}

#[test]
fn last_file_of_a_name_gives_the_digest() {
    let mut results = Cli::default().into_settings().unwrap().result_settings;
    results.reachable_nodes = "b".to_string();
    results.handshake_failed_nodes = "a".to_string();
    results.unreachable_nodes = "b".to_string();
    results.crawler_stats = "c".to_string();
    assert_eq!(
        result_digests(&results, "x", "abc", "", "abc"),
        pairs(&[("a", ABC), ("b", EMPTY), ("c", ABC)])
    );
}
