//! Network preflight: what the probes of the enabled networks mean.
use vstd::prelude::*;
use crate::csv_text::string_views;
use crate::dns::{ip_host, ip_to_host, IpOctets};
use crate::io_error::IoError;
use crate::settings::Settings;
use crate::text::{
    chars_of, decimal, digit_value, is_digit, is_space, push_decimal, read_digit, split,
    split_chars, views,
};

verus! {

/// The result of one network's preflight probe.
#[derive(Debug)]
pub enum ProbeResult {
    Reachable,
    Unreachable(String),
    Skipped,
}

/// What a [`ProbeResult`] says.
pub open spec fn probe_text(r: ProbeResult) -> Seq<char> {
    match r {
        ProbeResult::Reachable => "reachable"@,
        ProbeResult::Unreachable(why) => "unreachable ("@ + why@ + ")"@,
        ProbeResult::Skipped => "skipped"@,
    }
}

impl ProbeResult {
    pub fn is_ok(&self) -> (r: bool)
        ensures
            r == (self is Reachable),
    {
        match self {
            ProbeResult::Reachable => true,
            _ => false,
        }
    }

    pub fn render(&self) -> (r: String)
        ensures
            r@ == probe_text(*self),
    {
        match self {
            ProbeResult::Reachable => "reachable".to_owned(),
            ProbeResult::Unreachable(why) => {
                let mut out: String = "unreachable (".to_owned();
                out.push_str(why);
                out.push_str(")");
                out
            },
            ProbeResult::Skipped => "skipped".to_owned(),
        }
    }
}

/// One row of the preflight table.
#[derive(Debug)]
pub struct PreflightRow {
    pub network: &'static str,
    pub enabled: bool,
    pub result: ProbeResult,
}

/// The networks that are probed, in the order of the table.
#[derive(Debug, Clone, Copy, PartialEq, Eq, Structural)]
pub enum ProbedNetwork {
    Ipv4,
    Ipv6,
    Tor,
    I2p,
    Cjdns,
}

/// The name of a probed network.
pub open spec fn probed_label(n: ProbedNetwork) -> Seq<char> {
    match n {
        ProbedNetwork::Ipv4 => "ipv4"@,
        ProbedNetwork::Ipv6 => "ipv6"@,
        ProbedNetwork::Tor => "tor"@,
        ProbedNetwork::I2p => "i2p"@,
        ProbedNetwork::Cjdns => "cjdns"@,
    }
}

/// Whether a network is to be probed.
pub open spec fn probe_enabled(s: Settings, n: ProbedNetwork) -> bool {
    match n {
        ProbedNetwork::Ipv4 => s.enabled_networks.ipv4,
        ProbedNetwork::Ipv6 => s.enabled_networks.ipv6,
        ProbedNetwork::Tor => s.enabled_networks.tor,
        ProbedNetwork::I2p => s.enabled_networks.i2p,
        ProbedNetwork::Cjdns => s.enabled_networks.cjdns,
    }
}

/// Whether a network is to be probed.
pub fn is_probe_enabled(s: &Settings, n: ProbedNetwork) -> (r: bool)
    ensures
        r == probe_enabled(*s, n),
{
    match n {
        ProbedNetwork::Ipv4 => s.enabled_networks.ipv4,
        ProbedNetwork::Ipv6 => s.enabled_networks.ipv6,
        ProbedNetwork::Tor => s.enabled_networks.tor,
        ProbedNetwork::I2p => s.enabled_networks.i2p,
        ProbedNetwork::Cjdns => s.enabled_networks.cjdns,
    }
}

/// How long the probe of a network may take to connect, in seconds; that of CJDNS connects
/// nowhere.
pub fn probe_timeout(s: &Settings, n: ProbedNetwork) -> (r: u64)
    ensures
        r == match n {
            ProbedNetwork::Ipv4 | ProbedNetwork::Ipv6 => s.node_settings.timeouts.ip.connect,
            ProbedNetwork::Tor => s.node_settings.timeouts.tor.connect,
            ProbedNetwork::I2p => s.node_settings.timeouts.i2p.connect,
            ProbedNetwork::Cjdns => 0,
        },
{
    match n {
        ProbedNetwork::Ipv4 | ProbedNetwork::Ipv6 => s.node_settings.timeouts.ip.connect,
        ProbedNetwork::Tor => s.node_settings.timeouts.tor.connect,
        ProbedNetwork::I2p => s.node_settings.timeouts.i2p.connect,
        ProbedNetwork::Cjdns => 0,
    }
}

/// The row of a network: what its probe found, or that it was skipped for being disabled.
pub open spec fn is_row(row: PreflightRow, s: Settings, n: ProbedNetwork, found: ProbeResult)
    -> bool {
    &&& row.network@ == probed_label(n)
    &&& row.enabled == probe_enabled(s, n)
    &&& row.result == if probe_enabled(s, n) {
        found
    } else {
        ProbeResult::Skipped
    }
}

fn preflight_row(s: &Settings, n: ProbedNetwork, found: ProbeResult) -> (r: PreflightRow)
    ensures
        is_row(r, *s, n, found),
{
    let network = match n {
        ProbedNetwork::Ipv4 => "ipv4",
        ProbedNetwork::Ipv6 => "ipv6",
        ProbedNetwork::Tor => "tor",
        ProbedNetwork::I2p => "i2p",
        ProbedNetwork::Cjdns => "cjdns",
    };
    let enabled = is_probe_enabled(s, n);
    let result = if enabled {
        found
    } else {
        ProbeResult::Skipped
    };
    PreflightRow { network, enabled, result }
}

/// The preflight table from what the probes found. What is given for a disabled network is
/// ignored.
pub fn run_preflight(
    s: &Settings,
    ipv4: ProbeResult,
    ipv6: ProbeResult,
    tor: ProbeResult,
    i2p: ProbeResult,
    cjdns: ProbeResult,
) -> (r: Vec<PreflightRow>)
    ensures
        r@.len() == 5,
        is_row(r@[0], *s, ProbedNetwork::Ipv4, ipv4),
        is_row(r@[1], *s, ProbedNetwork::Ipv6, ipv6),
        is_row(r@[2], *s, ProbedNetwork::Tor, tor),
        is_row(r@[3], *s, ProbedNetwork::I2p, i2p),
        is_row(r@[4], *s, ProbedNetwork::Cjdns, cjdns),
{
    let mut rows: Vec<PreflightRow> = Vec::new();
    rows.push(preflight_row(s, ProbedNetwork::Ipv4, ipv4));
    rows.push(preflight_row(s, ProbedNetwork::Ipv6, ipv6));
    rows.push(preflight_row(s, ProbedNetwork::Tor, tor));
    rows.push(preflight_row(s, ProbedNetwork::I2p, i2p));
    rows.push(preflight_row(s, ProbedNetwork::Cjdns, cjdns));
    rows
}

/// A side service at `host:port` that failed.
pub open spec fn service_failure(
    what: Seq<char>,
    host: Seq<char>,
    port: u16,
    e: IoError,
) -> Seq<char> {
    what + " "@ + host + ":"@ + decimal(port as nat) + ": "@ + e.message@
}

fn service_result(what: &str, host: &str, port: u16, outcome: Result<(), IoError>) -> (r:
    ProbeResult)
    ensures
        match outcome {
            Ok(()) => r is Reachable,
            Err(e) => r matches ProbeResult::Unreachable(why) && why@ == service_failure(
                what@,
                host@,
                port,
                e,
            ),
        },
{
    match outcome {
        Ok(()) => ProbeResult::Reachable,
        Err(e) => {
            let mut out: String = what.to_owned();
            out.push_str(" ");
            out.push_str(host);
            out.push_str(":");
            push_decimal(&mut out, port as u64);
            out.push_str(": ");
            out.push_str(&e.message);
            proof {
                assert(out@ =~= service_failure(what@, host@, port, e));
            }
            ProbeResult::Unreachable(out)
        },
    }
}

/// What greeting the SOCKS5 proxy says of Tor.
pub fn probe_tor(s: &Settings, outcome: Result<(), IoError>) -> (r: ProbeResult)
    ensures
        match outcome {
            Ok(()) => r is Reachable,
            Err(e) => r matches ProbeResult::Unreachable(why) && why@ == service_failure(
                "SOCKS5 proxy"@,
                s.node_settings.network_settings.tor_proxy_host@,
                s.node_settings.network_settings.tor_proxy_port,
                e,
            ),
        },
{
    let ns = &s.node_settings.network_settings;
    service_result("SOCKS5 proxy", &ns.tor_proxy_host, ns.tor_proxy_port, outcome)
}

/// What greeting the SAM router says of I2P.
pub fn probe_i2p(s: &Settings, outcome: Result<(), IoError>) -> (r: ProbeResult)
    ensures
        match outcome {
            Ok(()) => r is Reachable,
            Err(e) => r matches ProbeResult::Unreachable(why) && why@ == service_failure(
                "SAM router"@,
                s.node_settings.network_settings.i2p_sam_host@,
                s.node_settings.network_settings.i2p_sam_port,
                e,
            ),
        },
{
    let ns = &s.node_settings.network_settings;
    service_result("SAM router", &ns.i2p_sam_host, ns.i2p_sam_port, outcome)
}

// ---------------------------------------------------------------------------
// IPv4 and IPv6
// ---------------------------------------------------------------------------

/// How many nodes a probe of IPv4 or IPv6 tries at most.
pub const MAX_PROBED_NODES: usize = 5;

/// Whether a probe that has tried `tried` nodes resolves another seed.
pub fn probe_goes_on(tried: usize) -> (r: bool)
    ensures
        r == (tried < MAX_PROBED_NODES),
{
    tried < MAX_PROBED_NODES
}

/// The hosts of the wanted family among the first `n` addresses, up to `room` of them.
pub open spec fn candidates(ips: Seq<IpOctets>, want_ipv6: bool, room: nat, n: nat) -> Seq<
    Seq<char>,
>
    decreases n,
{
    if n == 0 {
        Seq::empty()
    } else {
        let before = candidates(ips, want_ipv6, room, (n - 1) as nat);
        if before.len() < room && (ips[n - 1] is V6) == want_ipv6 {
            before.push(ip_host(ips[n - 1]))
        } else {
            before
        }
    }
}

/// The nodes of one resolved seed that a probe tries, after `tried` others.
pub fn probe_candidates(ips: &Vec<IpOctets>, want_ipv6: bool, tried: usize) -> (r: Vec<String>)
    ensures
        string_views(r@) == candidates(
            ips@,
            want_ipv6,
            if tried < MAX_PROBED_NODES {
                (MAX_PROBED_NODES - tried) as nat
            } else {
                0
            },
            ips@.len(),
        ),
{
    let room: usize = if tried < MAX_PROBED_NODES {
        MAX_PROBED_NODES - tried
    } else {
        0
    };
    let mut out: Vec<String> = Vec::new();
    let mut i: usize = 0;
    proof {
        assert(string_views(out@) =~= Seq::<Seq<char>>::empty());
    }
    while i < ips.len()
        invariant
            i <= ips@.len(),
            string_views(out@) == candidates(ips@, want_ipv6, room as nat, i as nat),
        decreases ips@.len() - i,
    {
        let is_v6 = match ips[i] {
            IpOctets::V4(_) => false,
            IpOctets::V6(_) => true,
        };
        let ghost before = string_views(out@);
        if out.len() < room && is_v6 == want_ipv6 {
            let host = ip_to_host(ips[i]);
            out.push(host);
            proof {
                assert(string_views(out@) =~= before.push(host@));
            }
        }
        i = i + 1;
    }
    out
}

/// What trying `tried` nodes says of IPv4 or IPv6.
pub fn probe_ip(tried: usize, connected: bool) -> (r: ProbeResult)
    ensures
        if connected {
            r is Reachable
        } else if tried == 0 {
            r matches ProbeResult::Unreachable(why) && why@
                == "no seed addresses resolved for this family"@
        } else {
            r matches ProbeResult::Unreachable(why) && why@
                == "no resolved node accepted a connection"@
        },
{
    if connected {
        ProbeResult::Reachable
    } else if tried == 0 {
        ProbeResult::Unreachable("no seed addresses resolved for this family".to_owned())
    } else {
        ProbeResult::Unreachable("no resolved node accepted a connection".to_owned())
    }
}

// ---------------------------------------------------------------------------
// CJDNS
// ---------------------------------------------------------------------------

/// The octet that two characters stand for: two hexadecimal digits, or a plus sign and one.
pub open spec fn octet_pair(a: char, b: char) -> Option<int> {
    if !is_digit(b, 16) {
        None
    } else if a == '+' {
        digit_value(b)
    } else if is_digit(a, 16) {
        Some(16 * digit_value(a)->Some_0 + digit_value(b)->Some_0)
    } else {
        None
    }
}

/// Thirty-two characters that stand for sixteen octets.
pub open spec fn is_hex16(s: Seq<char>) -> bool {
    s.len() == 32 && forall|i: int| 0 <= i < 16 ==> #[trigger] octet_pair_at(s, i) is Some
}

/// The `i`-th octet of a hexadecimal text.
pub open spec fn octet_pair_at(s: Seq<char>, i: int) -> Option<int> {
    octet_pair(s[2 * i], s[2 * i + 1])
}

fn read_octet_pair(a: char, b: char) -> (r: Option<u8>)
    ensures
        match r {
            Some(v) => octet_pair(a, b) == Some(v as int),
            None => octet_pair(a, b) is None,
        },
{
    let low = match read_digit(b, 16) {
        Some(d) => d,
        None => {
            return None;
        },
    };
    if a == '+' {
        return Some(low as u8);
    }
    match read_digit(a, 16) {
        Some(high) => Some((16 * high + low) as u8),
        None => None,
    }
}

/// Reads sixteen octets in hexadecimal.
pub fn decode_hex16(s: &Vec<char>) -> (r: Option<Vec<u8>>)
    ensures
        r is Some <==> is_hex16(s@),
        r matches Some(o) ==> o@.len() == 16 && forall|i: int|
            0 <= i < 16 ==> octet_pair_at(s@, i) == Some(#[trigger] o@[i] as int),
{
    if s.len() != 32 {
        return None;
    }
    let mut out: Vec<u8> = Vec::new();
    let mut i: usize = 0;
    while i < 16
        invariant
            i <= 16,
            s@.len() == 32,
            out@.len() == i,
            forall|k: int| 0 <= k < i ==> octet_pair_at(s@, k) == Some(#[trigger] out@[k] as int),
        decreases 16 - i,
    {
        match read_octet_pair(s[2 * i], s[2 * i + 1]) {
            Some(v) => out.push(v),
            None => {
                assert(octet_pair_at(s@, i as int) is None);
                return None;
            },
        }
        i = i + 1;
    }
    proof {
        assert forall|k: int| 0 <= k < 16 implies #[trigger] octet_pair_at(s@, k) is Some by {
            assert(octet_pair_at(s@, k) == Some(out@[k] as int));
        }
    }
    Some(out)
}

/// `s` up to its first white space.
pub open spec fn up_to_space(s: Seq<char>) -> Seq<char>
    decreases s.len(),
{
    if s.len() == 0 || is_space(s[0]) {
        Seq::empty()
    } else {
        seq![s[0]] + up_to_space(s.skip(1))
    }
}

/// The first word of a line.
pub open spec fn first_word(line: Seq<char>) -> Seq<char> {
    up_to_space(crate::text::trim_start(line))
}

/// Whether a line of the interface table names an address in `fc00::/8`.
pub open spec fn names_cjdns(line: Seq<char>) -> bool {
    is_hex16(first_word(line)) && octet_pair_at(first_word(line), 0) == Some(0xfcint)
}

fn word_of(line: &Vec<char>) -> (r: Vec<char>)
    ensures
        r@ == first_word(line@),
{
    let n = line.len();
    let mut from: usize = 0;
    proof {
        assert(line@.skip(0) =~= line@);
    }
    while from < n && crate::text::is_blank(line[from])
        invariant
            from <= n == line@.len(),
            crate::text::trim_start(line@.skip(from as int)) == crate::text::trim_start(line@),
        decreases n - from,
    {
        proof {
            assert(line@.skip(from as int).skip(1) =~= line@.skip(from + 1));
        }
        from = from + 1;
    }
    let ghost s = crate::text::trim_start(line@);
    proof {
        assert(s == line@.skip(from as int));
    }
    let mut out: Vec<char> = Vec::new();
    let mut to: usize = from;
    proof {
        assert(out@ + up_to_space(line@.skip(to as int)) =~= up_to_space(s));
    }
    while to < n && !crate::text::is_blank(line[to])
        invariant
            from <= to <= n == line@.len(),
            out@ + up_to_space(line@.skip(to as int)) == up_to_space(s),
        decreases n - to,
    {
        let ghost before = out@;
        let ghost rest = up_to_space(line@.skip(to + 1));
        proof {
            assert(line@.skip(to as int).skip(1) =~= line@.skip(to + 1));
            assert(line@.skip(to as int)[0] == line@[to as int]);
        }
        out.push(line[to]);
        proof {
            assert(before + (seq![line@[to as int]] + rest) =~= out@ + rest);
        }
        to = to + 1;
    }
    proof {
        assert(up_to_space(line@.skip(to as int)) =~= Seq::<char>::empty());
        assert(out@ + Seq::<char>::empty() =~= out@);
    }
    out
}

/// Whether the interface table, one address per line, holds one in `fc00::/8`.
pub fn has_cjdns_address(table: &str) -> (r: bool)
    ensures
        r == exists|i: int|
            0 <= i < split(table@, '\n').len() && names_cjdns(#[trigger] split(table@, '\n')[i]),
{
    let chars = chars_of(table);
    let lines = split_chars(&chars, '\n');
    let ghost texts = split(table@, '\n');
    let mut i: usize = 0;
    while i < lines.len()
        invariant
            i <= lines@.len(),
            views(lines@) == texts,
            texts == split(table@, '\n'),
            forall|k: int| 0 <= k < i ==> !names_cjdns(#[trigger] texts[k]),
        decreases lines@.len() - i,
    {
        assert(texts[i as int] == lines@[i as int]@);
        let word = word_of(&lines[i]);
        if let Some(o) = decode_hex16(&word) {
            assert(octet_pair_at(word@, 0) == Some(o@[0] as int));
            if o[0] == 0xfc {
                assert(names_cjdns(texts[i as int]));
                return true;
            }
        }
        i = i + 1;
    }
    false
}

/// What the interface table says of CJDNS; `None` where it could not be read.
pub fn probe_cjdns(table: Option<&str>) -> (r: ProbeResult)
    ensures
        match table {
            Some(t) if exists|i: int|
                0 <= i < split(t@, '\n').len() && names_cjdns(#[trigger] split(t@, '\n')[i]) =>
            r is Reachable,
            _ => r matches ProbeResult::Unreachable(why) && why@ == "no cjdns interface"@,
        },
{
    match table {
        Some(t) => if has_cjdns_address(t) {
            ProbeResult::Reachable
        } else {
            ProbeResult::Unreachable("no cjdns interface".to_owned())
        },
        None => ProbeResult::Unreachable("no cjdns interface".to_owned()),
    }
}

// ---------------------------------------------------------------------------
// The table
// ---------------------------------------------------------------------------

/// `s` filled up with spaces to `width`.
pub open spec fn padded(s: Seq<char>, width: nat) -> Seq<char> {
    if s.len() >= width {
        s
    } else {
        s + Seq::new((width - s.len()) as nat, |i: int| ' ')
    }
}

/// Appends a text filled up with spaces to `width`.
pub fn push_padded(out: &mut String, s: &str, width: usize)
    ensures
        final(out)@ == old(out)@ + padded(s@, width as nat),
{
    let n = chars_of(s).len();
    out.push_str(s);
    let ghost start = out@;
    let mut i: usize = n;
    proof {
        assert(out@ =~= start + Seq::new(0, |k: int| ' '));
    }
    while i < width
        invariant
            n <= i,
            n <= width ==> i <= width,
            n > width ==> i == n,
            out@ == start + Seq::new((i - n) as nat, |k: int| ' '),
        decreases width - i,
    {
        out.push(' ');
        i = i + 1;
        proof {
            assert(out@ =~= start + Seq::new((i - n) as nat, |k: int| ' '));
        }
    }
    proof {
        assert(out@ =~= old(out)@ + padded(s@, width as nat));
    }
}

/// One line of the table.
pub open spec fn row_text(row: PreflightRow) -> Seq<char> {
    padded(row.network@, 8) + " "@ + padded(
        if row.enabled {
            "yes"@
        } else {
            "no"@
        },
        8,
    ) + " "@ + probe_text(row.result)
}

/// Whether an enabled network failed its probe.
pub open spec fn row_failed(row: PreflightRow) -> bool {
    row.enabled && !(row.result is Reachable)
}

/// The lines of the table.
pub open spec fn table_lines(rows: Seq<PreflightRow>) -> Seq<Seq<char>> {
    seq!["Network  Enabled  Probe result"@] + Seq::new(rows.len(), |i: int| row_text(rows[i]))
}

fn row_line(row: &PreflightRow) -> (r: String)
    ensures
        r@ == row_text(*row),
{
    let mut out: String = String::new();
    push_padded(&mut out, row.network, 8);
    out.push_str(" ");
    if row.enabled {
        push_padded(&mut out, "yes", 8);
    } else {
        push_padded(&mut out, "no", 8);
    }
    out.push_str(" ");
    out.push_str(&row.result.render());
    proof {
        assert(out@ =~= row_text(*row));
    }
    out
}

/// The lines of the preflight table, and whether every enabled network is reachable.
pub fn print_table(rows: &Vec<PreflightRow>) -> (r: (Vec<String>, bool))
    ensures
        string_views(r.0@) == table_lines(rows@),
        r.1 == forall|i: int| 0 <= i < rows@.len() ==> !row_failed(#[trigger] rows@[i]),
{
    let mut lines: Vec<String> = Vec::new();
    lines.push("Network  Enabled  Probe result".to_owned());
    let mut all_ok = true;
    let mut i: usize = 0;
    proof {
        assert(string_views(lines@) =~= table_lines(rows@).take(1));
    }
    while i < rows.len()
        invariant
            i <= rows@.len(),
            string_views(lines@) == table_lines(rows@).take(i + 1),
            all_ok == forall|k: int| 0 <= k < i ==> !row_failed(#[trigger] rows@[k]),
        decreases rows@.len() - i,
    {
        let row = &rows[i];
        let ghost before = string_views(lines@);
        let line = row_line(row);
        lines.push(line);
        if row.enabled && !row.result.is_ok() {
            assert(row_failed(rows@[i as int]));
            all_ok = false;
        }
        i = i + 1;
        proof {
            assert(string_views(lines@) =~= before.push(line@));
            assert(table_lines(rows@)[i as int] == row_text(rows@[i - 1]));
            assert(string_views(lines@) =~= table_lines(rows@).take(i + 1));
        }
    }
    proof {
        assert(table_lines(rows@).take(i + 1) =~= table_lines(rows@));
    }
    (lines, all_ok)
}

/// The failed rows among the first `n`, in words.
pub open spec fn failures(rows: Seq<PreflightRow>, n: nat) -> Seq<Seq<char>>
    decreases n,
{
    if n == 0 {
        Seq::empty()
    } else {
        let before = failures(rows, (n - 1) as nat);
        if row_failed(rows[n - 1]) {
            before.push(rows[n - 1].network@ + ": "@ + probe_text(rows[n - 1].result))
        } else {
            before
        }
    }
}

/// The enabled networks that failed their probe, in words.
pub fn any_enabled_failed(rows: &Vec<PreflightRow>) -> (r: Vec<String>)
    ensures
        string_views(r@) == failures(rows@, rows@.len()),
{
    let mut out: Vec<String> = Vec::new();
    let mut i: usize = 0;
    proof {
        assert(string_views(out@) =~= Seq::<Seq<char>>::empty());
    }
    while i < rows.len()
        invariant
            i <= rows@.len(),
            string_views(out@) == failures(rows@, i as nat),
        decreases rows@.len() - i,
    {
        let row = &rows[i];
        let ghost before = string_views(out@);
        if row.enabled && !row.result.is_ok() {
            let mut line: String = row.network.to_owned();
            line.push_str(": ");
            line.push_str(&row.result.render());
            out.push(line);
            proof {
                assert(string_views(out@) =~= before.push(line@));
            }
        }
        i = i + 1;
    }
    out
}

/// No failure is reported exactly when every enabled network is reachable.
pub proof fn law_no_failures_means_all_reachable(rows: Seq<PreflightRow>, n: nat)
    requires
        n <= rows.len(),
    ensures
        failures(rows, n).len() == 0 <==> forall|i: int|
            0 <= i < n ==> !row_failed(#[trigger] rows[i]),
    decreases n,
{
    if n > 0 {
        law_no_failures_means_all_reachable(rows, (n - 1) as nat);
        if row_failed(rows[n - 1]) {
            assert(failures(rows, n).len() > 0);
        }
    }
}

} // verus!
