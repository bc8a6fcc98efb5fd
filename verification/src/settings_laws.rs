//! Laws of the settings: what the command line asks for is what the crawl gets.
use vstd::prelude::*;
use crate::address::{NetworkType, Transport};
use crate::settings::{
    args_fault, config_fault_text, describes, duration_of, enabled_by, freshness_of,
    is_default_args, leading_digits, path_join, signed_value, Cli, CommonArgs, ConfigFault,
    Settings,
};
use crate::text::{
    decimal, is_digit, is_numeral, is_space, lemma_numeral_reads_back, trim, trim_end, trim_start,
};

verus! {

/// Accepted settings say what was asked for, each value in its place.
pub proof fn law_settings_are_as_asked(
    a: CommonArgs,
    freshness_threshold: i64,
    max_nodes: Option<usize>,
    probe_mode: bool,
    timestamp: Seq<char>,
    s: Settings,
)
    requires
        describes(a, freshness_threshold, max_nodes, probe_mode, timestamp, s),
    ensures
        s.max_nodes == max_nodes && s.probe_mode == probe_mode,
        s.freshness_threshold == freshness_threshold,
        s.result_settings.timestamp@ == timestamp,
        s.delay_start == a.delay_start && s.max_addresses == a.max_addresses,
        s.strict_networks == a.strict_networks && s.dry_run == a.dry_run,
        s.retry_on_timeout == a.retry_on_timeout,
        s.log_level@ == a.log_level@ && s.store_debug_log == !a.no_store_debug_log,
        s.record_addr_responses <==> a.record_addr_responses && !a.no_record_addr_responses,
        s.node_settings.handshake_attempts == a.handshake_attempts,
        s.concurrency.ip == a.ip_concurrency,
        s.concurrency.tor == a.tor_concurrency,
        s.concurrency.i2p == a.i2p_concurrency,
        s.enabled_networks.ipv4 <==> (a.no_ipv4 ==> a.ipv4),
        s.enabled_networks.ipv6 <==> (a.no_ipv6 ==> a.ipv6),
        s.enabled_networks.tor <==> (a.no_tor ==> a.tor),
        s.enabled_networks.i2p <==> (a.no_i2p ==> a.i2p),
        s.enabled_networks.cjdns <==> (a.no_cjdns ==> a.cjdns),
        s.node_settings.network_settings.tor_proxy_host@ == a.tor_proxy_host@,
        s.node_settings.network_settings.tor_proxy_port == a.tor_proxy_port,
        s.node_settings.network_settings.i2p_sam_host@ == a.i2p_sam_host@,
        s.node_settings.network_settings.i2p_sam_port == a.i2p_sam_port,
        s.result_settings.path@ == a.result_path@,
        s.result_settings.reachable_nodes@ == "reachable_nodes.csv"@,
        s.result_settings.handshake_failed_nodes@ == "handshake_failed_nodes.csv"@,
        s.result_settings.unreachable_nodes@ == "unreachable_nodes.csv"@,
        s.result_settings.crawler_stats@ == "crawler_stats.json"@,
        s.result_settings.addr_responses@ == "addr_responses.csv"@,
        duration_of(a.checkpoint_interval@) == Ok::<i64, ConfigFault>(s.checkpoint_interval),
{
}

/// Every network gets the timeouts that were asked for it: the onion networks those of Tor,
/// I2P and CJDNS their own, and all others those of IP.
pub proof fn law_timeouts_go_to_their_networks(
    a: CommonArgs,
    freshness_threshold: i64,
    max_nodes: Option<usize>,
    probe_mode: bool,
    timestamp: Seq<char>,
    s: Settings,
    network: NetworkType,
)
    requires
        describes(a, freshness_threshold, max_nodes, probe_mode, timestamp, s),
    ensures
        ({
            let t = s.network_timeouts(network);
            match network {
                NetworkType::OnionV2 | NetworkType::OnionV3 => {
                    &&& t.connect == a.tor_connect_timeout && t.message == a.tor_message_timeout
                    &&& t.getaddr == a.tor_getaddr_timeout
                    &&& t.getaddr_idle == a.tor_getaddr_idle_timeout
                },
                NetworkType::I2p => {
                    &&& t.connect == a.i2p_connect_timeout && t.message == a.i2p_message_timeout
                    &&& t.getaddr == a.i2p_getaddr_timeout
                    &&& t.getaddr_idle == a.i2p_getaddr_idle_timeout
                },
                NetworkType::Cjdns => {
                    &&& t.connect == a.cjdns_connect_timeout && t.message == a.cjdns_message_timeout
                    &&& t.getaddr == a.cjdns_getaddr_timeout
                    &&& t.getaddr_idle == a.cjdns_getaddr_idle_timeout
                },
                NetworkType::Ipv4 | NetworkType::Ipv6 | NetworkType::Unknown => {
                    &&& t.connect == a.ip_connect_timeout && t.message == a.ip_message_timeout
                    &&& t.getaddr == a.ip_getaddr_timeout
                    &&& t.getaddr_idle == a.ip_getaddr_idle_timeout
                },
            }
        }),
{
}

/// A network type is crawled exactly where its switch is on; both onion networks hang on that
/// of Tor, and nothing of an unknown network is crawled.
pub proof fn law_networks_follow_their_switches(s: Settings)
    ensures
        s.enables(NetworkType::Ipv4) == s.enabled_networks.ipv4,
        s.enables(NetworkType::Ipv6) == s.enabled_networks.ipv6,
        s.enables(NetworkType::OnionV2) == s.enabled_networks.tor,
        s.enables(NetworkType::OnionV3) == s.enabled_networks.tor,
        s.enables(NetworkType::I2p) == s.enabled_networks.i2p,
        s.enables(NetworkType::Cjdns) == s.enabled_networks.cjdns,
        !s.enables(NetworkType::Unknown),
{
}

/// Arguments are refused for their workers exactly where a transport with an enabled network
/// has none, or any has more than 4096; the first such transport is named. They are refused
/// for the checkpoint interval before that.
pub proof fn law_workers_are_refused(a: CommonArgs)
    ensures
        ({
            let ip = enabled_by(a).ipv4 || enabled_by(a).ipv6 || enabled_by(a).cjdns;
            let bad_ip = (ip && a.ip_concurrency == 0) || a.ip_concurrency
                > 4096;
            let bad_tor = (enabled_by(a).tor && a.tor_concurrency == 0) || a.tor_concurrency
                > 4096;
            let bad_i2p = (enabled_by(a).i2p && a.i2p_concurrency == 0) || a.i2p_concurrency
                > 4096;
            match duration_of(a.checkpoint_interval@) {
                Err(fault) => args_fault(a) == Some(fault),
                Ok(_) => {
                    &&& args_fault(a) is None <==> !bad_ip && !bad_tor && !bad_i2p
                    &&& bad_ip ==> args_fault(a) == Some(
                        refused_workers(Transport::Ip, a.ip_concurrency),
                    )
                    &&& !bad_ip && bad_tor ==> args_fault(a) == Some(
                        refused_workers(Transport::Tor, a.tor_concurrency),
                    )
                    &&& !bad_ip && !bad_tor && bad_i2p ==> args_fault(a) == Some(
                        refused_workers(Transport::I2p, a.i2p_concurrency),
                    )
                },
            }
        }),
{
}

/// What is wrong with a number of workers that is refused.
pub open spec fn refused_workers(t: Transport, workers: usize) -> ConfigFault {
    if workers == 0 {
        ConfigFault::NoWorkers(t)
    } else {
        ConfigFault::TooManyWorkers(t)
    }
}

/// A run's directory lies below the result path, is named after the run's timestamp and the
/// version, and holds the run's files.
pub proof fn law_runs_have_their_own_directory(s: Settings, file: Seq<char>)
    requires
        s.result_settings.path@.len() > 0,
        s.result_settings.path@.last() != '/',
        s.result_settings.timestamp@.len() > 0,
        s.result_settings.timestamp@[0] != '/',
        s.version_info.version@.len() > 0,
        s.version_info.version@.last() != '/',
        file.len() > 0,
        file[0] != '/',
    ensures
        ({
            let dir = s.result_settings.path@ + seq!['/'] + s.result_settings.timestamp@ + "_v"@
                + s.version_info.version@;
            &&& path_join(s.result_settings.path@, s.run_name()) == dir
            &&& path_join(dir, file) == dir + seq!['/'] + file
        }),
{
    let dir = s.result_settings.path@ + seq!['/'] + s.result_settings.timestamp@ + "_v"@
        + s.version_info.version@;
    assert(s.run_name()[0] == s.result_settings.timestamp@[0]);
    assert(path_join(s.result_settings.path@, s.run_name()) =~= dir);
    assert(dir.last() == s.version_info.version@.last());
}

/// The freshness filter is off where the command line says so, and otherwise is set by the
/// duration that it gives.
pub proof fn law_freshness_is_as_asked(cli: Cli)
    ensures
        cli.no_freshness_filter ==> freshness_of(cli) == Ok::<i64, ConfigFault>(0),
        !cli.no_freshness_filter ==> freshness_of(cli) == duration_of(cli.freshness_threshold@),
{
}

/// A command line that gives nothing has a budget of a million addresses, three attempts and
/// none after silence, every network on, and the timeouts and workers of each transport.
pub proof fn law_defaults(a: CommonArgs)
    requires
        is_default_args(a),
    ensures
        a.max_addresses == 1_000_000 && a.handshake_attempts == 3 && !a.retry_on_timeout,
        a.ip_concurrency == 64 && a.tor_concurrency == 64 && a.i2p_concurrency == 32,
        a.ip_connect_timeout == 3 && a.ip_message_timeout == 30,
        a.ip_getaddr_timeout == 70 && a.ip_getaddr_idle_timeout == 3,
        a.tor_connect_timeout == 100 && a.tor_message_timeout == 40,
        a.tor_getaddr_timeout == 90 && a.tor_getaddr_idle_timeout == 5,
        a.i2p_connect_timeout == 30 && a.i2p_message_timeout == 80,
        a.i2p_getaddr_timeout == 170 && a.i2p_getaddr_idle_timeout == 8,
        a.cjdns_connect_timeout == 10 && a.cjdns_message_timeout == 30,
        a.cjdns_getaddr_timeout == 70 && a.cjdns_getaddr_idle_timeout == 3,
        a.tor_proxy_host@ == "127.0.0.1"@ && a.tor_proxy_port == 9050,
        a.i2p_sam_host@ == "127.0.0.1"@ && a.i2p_sam_port == 7656,
        a.result_path@ == "results"@ && a.checkpoint_interval@ == "10m"@,
        a.timestamp is None && a.extra_version_info is None && a.log_level@ == "INFO"@,
        a.record_addr_responses && !a.no_record_addr_responses && !a.strict_networks,
        !a.dry_run && a.delay_start == 0 && !a.no_store_debug_log,
        enabled_by(a).ipv4 && enabled_by(a).ipv6 && enabled_by(a).tor && enabled_by(a).i2p
            && enabled_by(a).cjdns,
{
}

// ---------------------------------------------------------------------------
// Durations
// ---------------------------------------------------------------------------

proof fn lemma_trimmed(s: Seq<char>)
    requires
        s.len() > 0,
        !is_space(s[0]),
        !is_space(s.last()),
    ensures
        trim(s) == s,
{
    assert(trim_start(s) == s);
    assert(trim_end(s) == s);
}

/// Blanks round a duration do not matter.
pub proof fn law_blanks_round_a_duration_do_not_matter(
    before: Seq<char>,
    s: Seq<char>,
    after: Seq<char>,
)
    requires
        s.len() > 0,
        !is_space(s[0]),
        !is_space(s.last()),
        forall|i: int| 0 <= i < before.len() ==> is_space(#[trigger] before[i]),
        forall|i: int| 0 <= i < after.len() ==> is_space(#[trigger] after[i]),
    ensures
        duration_of(before + s + after) == duration_of(s),
{
    lemma_blanks_before(before, s + after);
    assert(before + s + after =~= before + (s + after));
    lemma_blanks_after(s, after);
    lemma_trimmed(s);
}

proof fn lemma_blanks_before(before: Seq<char>, s: Seq<char>)
    requires
        s.len() > 0,
        !is_space(s[0]),
        forall|i: int| 0 <= i < before.len() ==> is_space(#[trigger] before[i]),
    ensures
        trim_start(before + s) == s,
    decreases before.len(),
{
    if before.len() > 0 {
        let tail = before.skip(1);
        assert forall|i: int| 0 <= i < tail.len() implies is_space(#[trigger] tail[i]) by {
            assert(tail[i] == before[i + 1]);
        }
        lemma_blanks_before(tail, s);
        assert((before + s)[0] == before[0]);
        assert((before + s).skip(1) =~= tail + s);
    } else {
        assert(before + s =~= s);
    }
}

proof fn lemma_blanks_after(s: Seq<char>, after: Seq<char>)
    requires
        s.len() > 0,
        !is_space(s.last()),
        forall|i: int| 0 <= i < after.len() ==> is_space(#[trigger] after[i]),
    ensures
        trim_end(s + after) == s,
    decreases after.len(),
{
    if after.len() > 0 {
        let head = after.drop_last();
        assert forall|i: int| 0 <= i < head.len() implies is_space(#[trigger] head[i]) by {
            assert(head[i] == after[i]);
        }
        lemma_blanks_after(s, head);
        assert((s + after).last() == after[after.len() - 1]);
        assert((s + after).drop_last() =~= s + head);
    } else {
        assert(s + after =~= s);
    }
}

proof fn lemma_leading_digits(digits: Seq<char>, rest: Seq<char>)
    requires
        forall|i: int| 0 <= i < digits.len() ==> is_digit(#[trigger] digits[i], 10),
        rest.len() > 0 ==> !is_digit(rest[0], 10),
    ensures
        leading_digits(digits + rest) == digits.len(),
    decreases digits.len(),
{
    let s = digits + rest;
    if digits.len() > 0 {
        assert(s[0] == digits[0]);
        let tail = digits.skip(1);
        assert forall|i: int| 0 <= i < tail.len() implies is_digit(#[trigger] tail[i], 10) by {
            assert(tail[i] == digits[i + 1]);
        }
        lemma_leading_digits(tail, rest);
        assert(s.skip(1) =~= tail + rest);
    } else {
        assert(s =~= rest);
    }
}

/// A plain number stands for as many seconds, whatever number it is.
pub proof fn law_plain_numbers_are_seconds(n: nat)
    requires
        n <= i64::MAX,
    ensures
        duration_of(decimal(n)) == Ok::<i64, ConfigFault>(n as i64),
{
    let s = decimal(n);
    lemma_numeral_reads_back(n, 10);
    assert(is_digit(s[0], 10));
    assert(is_digit(s[s.len() - 1], 10));
    lemma_trimmed(s);
    assert(signed_value(s) == Some(n as i64));
}

/// Digits and a unit stand for that many seconds, minutes, hours or days; what does not fit in
/// 64 bits is no duration.
pub proof fn law_durations_scale_by_their_unit(n: nat, unit: char, seconds: int)
    requires
        (unit == 's' && seconds == 1) || (unit == 'm' && seconds == 60) || (unit == 'h' && seconds
            == 3600) || (unit == 'd' && seconds == 86400),
    ensures
        ({
            let s = decimal(n) + seq![unit];
            if n * seconds <= i64::MAX {
                duration_of(s) == Ok::<i64, ConfigFault>((n * seconds) as i64)
            } else {
                duration_of(s) == Err::<i64, ConfigFault>(ConfigFault::InvalidDuration(s))
            }
        }),
{
    let s = decimal(n) + seq![unit];
    lemma_numeral_reads_back(n, 10);
    lemma_united(decimal(n), seq![unit]);
    assert(s.skip(decimal(n).len() as int) =~= seq![unit]);
    assert(s.take(decimal(n).len() as int) =~= decimal(n));
    assert(n * seconds >= n) by (nonlinear_arith)
        requires
            seconds >= 1,
            n >= 0,
    ;
}

/// Digits and something after them are no plain number, and come apart where the digits end.
proof fn lemma_united(digits: Seq<char>, unit: Seq<char>)
    requires
        is_numeral(digits, 10),
        unit.len() > 0,
        !is_digit(unit[0], 10),
        !is_space(unit.last()),
    ensures
        ({
            let s = digits + unit;
            &&& trim(s) == s
            &&& leading_digits(s) == digits.len()
            &&& signed_value(s) is None
        }),
{
    let s = digits + unit;
    assert(is_digit(digits[0], 10));
    assert(s[0] == digits[0]);
    assert(s.last() == unit.last());
    lemma_trimmed(s);
    lemma_leading_digits(digits, unit);
    assert(s[digits.len() as int] == unit[0]);
    if is_numeral(s, 10) {
        assert(is_digit(s[digits.len() as int], 10));
    }
}

/// Any other unit is refused and named.
pub proof fn law_other_units_are_refused(n: nat, unit: Seq<char>)
    requires
        n <= i64::MAX,
        unit.len() > 0,
        !is_digit(unit[0], 10),
        !is_space(unit.last()),
        unit != seq!['s'] && unit != seq!['m'] && unit != seq!['h'] && unit != seq!['d'],
    ensures
        duration_of(decimal(n) + unit) == Err::<i64, ConfigFault>(
            ConfigFault::UnknownDurationUnit(unit),
        ),
{
    let s = decimal(n) + unit;
    lemma_numeral_reads_back(n, 10);
    lemma_united(decimal(n), unit);
    assert(s.skip(decimal(n).len() as int) =~= unit);
    assert(s.take(decimal(n).len() as int) =~= decimal(n));
}

/// A refusal says in words what was refused.
pub proof fn law_refusals_name_their_cause(s: Seq<char>)
    ensures
        config_fault_text(ConfigFault::InvalidDuration(s)) == "invalid duration: "@ + s,
        config_fault_text(ConfigFault::UnknownDurationUnit(s)) == "unknown duration unit: "@ + s,
        config_fault_text(ConfigFault::NoWorkers(Transport::Ip))
            == "--ip-concurrency"@ + " must be at least 1 while its networks are enabled"@,
        config_fault_text(ConfigFault::NoWorkers(Transport::Tor))
            == "--tor-concurrency"@ + " must be at least 1 while its networks are enabled"@,
        config_fault_text(ConfigFault::NoWorkers(Transport::I2p))
            == "--i2p-concurrency"@ + " must be at least 1 while its networks are enabled"@,
        config_fault_text(ConfigFault::TooManyWorkers(Transport::Ip)) == "--ip-concurrency"@
            + " must not exceed "@ + decimal(4096),
        config_fault_text(ConfigFault::TooManyWorkers(Transport::Tor)) == "--tor-concurrency"@
            + " must not exceed "@ + decimal(4096),
        config_fault_text(ConfigFault::TooManyWorkers(Transport::I2p)) == "--i2p-concurrency"@
            + " must not exceed "@ + decimal(4096),
{
}

/// A sign before a number is read with it, and a text that begins with neither a digit nor a
/// sign is no duration.
pub proof fn law_signs_are_read_and_words_refused(n: nat, word: Seq<char>)
    requires
        n <= i64::MAX,
        word.len() > 0,
        !is_space(word[0]),
        !is_space(word.last()),
        !is_digit(word[0], 10),
        word[0] != '-' && word[0] != '+',
    ensures
        duration_of(seq!['-'] + decimal(n)) == Ok::<i64, ConfigFault>((-n) as i64),
        duration_of(seq!['+'] + decimal(n)) == Ok::<i64, ConfigFault>(n as i64),
        duration_of(word) == Err::<i64, ConfigFault>(ConfigFault::InvalidDuration(word)),
{
    lemma_numeral_reads_back(n, 10);
    let d = decimal(n);
    assert(is_digit(d[d.len() - 1], 10));
    let (a, b) = (seq!['-'] + d, seq!['+'] + d);
    assert(a[0] == '-' && a.last() == d.last());
    assert(b[0] == '+' && b.last() == d.last());
    lemma_trimmed(a);
    lemma_trimmed(b);
    assert(a.skip(1) =~= d);
    assert(b.skip(1) =~= d);
    lemma_trimmed(word);
    if is_numeral(word, 10) {
        assert(is_digit(word[0], 10));
    }
}

} // verus!
