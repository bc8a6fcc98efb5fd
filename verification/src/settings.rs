//! The settings of a run, built from the command line.
use vstd::prelude::*;
use crate::address::{NetworkType, Transport};
use crate::text::{
    chars_of, decimal, is_digit, is_numeral, lemma_numeral_value_nonneg, numeral_value,
    push_decimal, read_digit, read_numeral, string_of, sub_chars, trim, trim_chars,
};

verus! {

/// The version of this crate.
pub const PKG_VERSION: &'static str = "0.1.0";

/// The most workers that a transport may have.
pub const MAX_CONCURRENCY: usize = 4096;

/// Per-network timeout set (seconds).
#[derive(Debug, Clone, Copy, PartialEq, Eq, Structural)]
pub struct Timeouts {
    pub connect: u64,
    pub message: u64,
    pub getaddr: u64,
    pub getaddr_idle: u64,
}

/// Fully-resolved, immutable settings.
#[derive(Debug, Clone)]
pub struct Settings {
    pub version_info: VersionInfo,
    pub delay_start: u64,
    pub max_nodes: Option<usize>,
    /// The most distinct addresses that are kept, which also bounds the queues.
    pub max_addresses: usize,
    pub enabled_networks: EnabledNetworks,
    pub strict_networks: bool,
    pub freshness_threshold: i64,
    pub record_addr_responses: bool,
    pub concurrency: Concurrency,
    pub node_settings: NodeSettings,
    pub result_settings: ResultSettings,
    pub dry_run: bool,
    pub log_level: String,
    pub store_debug_log: bool,
    pub retry_on_timeout: bool,
    /// Re-write the snapshot result files this often (seconds); 0 disables.
    pub checkpoint_interval: i64,
    /// Direct-probe mode: process exactly the seeded nodes and skip peer discovery
    /// (getaddr), so no new addresses are ever enqueued.
    pub probe_mode: bool,
}

#[derive(Debug, Clone)]
pub struct VersionInfo {
    pub version: String,
    pub extra: Option<String>,
}

#[derive(Debug, Clone, Copy, PartialEq, Eq, Structural)]
pub struct EnabledNetworks {
    pub ipv4: bool,
    pub ipv6: bool,
    pub tor: bool,
    pub i2p: bool,
    pub cjdns: bool,
}

#[derive(Debug, Clone, Copy, PartialEq, Eq, Structural)]
pub struct Concurrency {
    pub ip: usize,
    pub tor: usize,
    pub i2p: usize,
}

#[derive(Debug, Clone)]
pub struct NodeSettings {
    pub timeouts: TimeoutSettings,
    pub handshake_attempts: u32,
    pub network_settings: NetworkEndpoints,
}

#[derive(Debug, Clone, Copy, PartialEq, Eq, Structural)]
pub struct TimeoutSettings {
    pub ip: Timeouts,
    pub tor: Timeouts,
    pub i2p: Timeouts,
    pub cjdns: Timeouts,
}

#[derive(Debug, Clone)]
pub struct NetworkEndpoints {
    pub tor_proxy_host: String,
    pub tor_proxy_port: u16,
    pub i2p_sam_host: String,
    pub i2p_sam_port: u16,
}

#[derive(Debug, Clone)]
pub struct ResultSettings {
    pub path: String,
    pub timestamp: String,
    pub reachable_nodes: String,
    pub handshake_failed_nodes: String,
    pub unreachable_nodes: String,
    pub crawler_stats: String,
    pub addr_responses: String,
}

impl Settings {
    /// The timeouts of a network type.
    pub open spec fn network_timeouts(self, net: NetworkType) -> Timeouts {
        match net {
            NetworkType::Cjdns => self.node_settings.timeouts.cjdns,
            NetworkType::OnionV2 | NetworkType::OnionV3 => self.node_settings.timeouts.tor,
            NetworkType::I2p => self.node_settings.timeouts.i2p,
            _ => self.node_settings.timeouts.ip,
        }
    }

    /// Whether a network type is enabled.
    pub open spec fn enables(self, net: NetworkType) -> bool {
        match net {
            NetworkType::Ipv4 => self.enabled_networks.ipv4,
            NetworkType::Ipv6 => self.enabled_networks.ipv6,
            NetworkType::Cjdns => self.enabled_networks.cjdns,
            NetworkType::OnionV2 | NetworkType::OnionV3 => self.enabled_networks.tor,
            NetworkType::I2p => self.enabled_networks.i2p,
            NetworkType::Unknown => false,
        }
    }

    /// The timeouts for a given network type.
    pub fn timeouts_for(&self, net: NetworkType) -> (r: Timeouts)
        ensures
            r == self.network_timeouts(net),
    {
        match net {
            NetworkType::Ipv4 | NetworkType::Ipv6 => self.node_settings.timeouts.ip,
            NetworkType::Cjdns => self.node_settings.timeouts.cjdns,
            NetworkType::OnionV2 | NetworkType::OnionV3 => self.node_settings.timeouts.tor,
            NetworkType::I2p => self.node_settings.timeouts.i2p,
            NetworkType::Unknown => self.node_settings.timeouts.ip,
        }
    }

    /// Whether a network type is enabled for this run.
    pub fn is_enabled(&self, net: NetworkType) -> (r: bool)
        ensures
            r == self.enables(net),
    {
        match net {
            NetworkType::Ipv4 => self.enabled_networks.ipv4,
            NetworkType::Ipv6 => self.enabled_networks.ipv6,
            NetworkType::Cjdns => self.enabled_networks.cjdns,
            NetworkType::OnionV2 | NetworkType::OnionV3 => self.enabled_networks.tor,
            NetworkType::I2p => self.enabled_networks.i2p,
            NetworkType::Unknown => false,
        }
    }

    /// The name of the run: its timestamp and the crate's version.
    pub open spec fn run_name(self) -> Seq<char> {
        self.result_settings.timestamp@ + "_v"@ + self.version_info.version@
    }

    /// Per-run output directory: `<path>/<prefix>`. Each crawl gets its own directory named
    /// after the timestamp it started at, so runs are not mixed together.
    pub fn run_dir(&self) -> (r: String)
        ensures
            r@ == path_join(self.result_settings.path@, self.run_name()),
    {
        join_path(&self.result_settings.path, &self.prefix())
    }

    /// Full path of an output file under this run's output directory.
    pub fn output_path(&self, file: &str) -> (r: String)
        ensures
            r@ == path_join(path_join(self.result_settings.path@, self.run_name()), file@),
    {
        join_path(&self.run_dir(), file)
    }

    pub fn prefix(&self) -> (r: String)
        ensures
            r@ == self.run_name(),
    {
        let mut out: String = self.result_settings.timestamp.clone();
        out.push_str("_v");
        out.push_str(&self.version_info.version);
        out
    }
}

/// A path below a directory: an absolute name stands for itself, and one slash separates the
/// two parts.
pub open spec fn path_join(base: Seq<char>, name: Seq<char>) -> Seq<char> {
    if name.len() > 0 && name[0] == '/' {
        name
    } else if base.len() > 0 && base.last() != '/' {
        base + seq!['/'] + name
    } else {
        base + name
    }
}

/// Joins a directory and a name.
pub fn join_path(base: &str, name: &str) -> (r: String)
    ensures
        r@ == path_join(base@, name@),
{
    let b = chars_of(base);
    let n = chars_of(name);
    if n.len() > 0 && n[0] == '/' {
        return name.to_owned();
    }
    let mut out: String = base.to_owned();
    if b.len() > 0 && b[b.len() - 1] != '/' {
        out.push('/');
    }
    out.push_str(name);
    proof {
        assert(out@ =~= path_join(base@, name@));
    }
    out
}

// ---------------------------------------------------------------------------
// Durations
// ---------------------------------------------------------------------------

/// Why a configuration was refused.
#[derive(Debug)]
pub enum ConfigError {
    /// Not a duration, or one that does not fit in 64 bits.
    InvalidDuration(String),
    UnknownDurationUnit(String),
    /// An enabled transport without workers.
    NoWorkers(Transport),
    /// A transport with more workers than allowed.
    TooManyWorkers(Transport),
}

/// What a [`ConfigError`] holds.
pub enum ConfigFault {
    InvalidDuration(Seq<char>),
    UnknownDurationUnit(Seq<char>),
    NoWorkers(Transport),
    TooManyWorkers(Transport),
}

impl View for ConfigError {
    type V = ConfigFault;

    open spec fn view(&self) -> ConfigFault {
        match self {
            ConfigError::InvalidDuration(s) => ConfigFault::InvalidDuration(s@),
            ConfigError::UnknownDurationUnit(s) => ConfigFault::UnknownDurationUnit(s@),
            ConfigError::NoWorkers(t) => ConfigFault::NoWorkers(*t),
            ConfigError::TooManyWorkers(t) => ConfigFault::TooManyWorkers(*t),
        }
    }
}

/// The option that sets the workers of a transport.
pub open spec fn concurrency_option(t: Transport) -> Seq<char> {
    match t {
        Transport::Ip => "--ip-concurrency"@,
        Transport::Tor => "--tor-concurrency"@,
        Transport::I2p => "--i2p-concurrency"@,
    }
}

/// The message of a refusal.
pub open spec fn config_fault_text(fault: ConfigFault) -> Seq<char> {
    match fault {
        ConfigFault::InvalidDuration(s) => "invalid duration: "@ + s,
        ConfigFault::UnknownDurationUnit(s) => "unknown duration unit: "@ + s,
        ConfigFault::NoWorkers(t) => concurrency_option(t)
            + " must be at least 1 while its networks are enabled"@,
        ConfigFault::TooManyWorkers(t) => concurrency_option(t) + " must not exceed "@ + decimal(
            MAX_CONCURRENCY as nat,
        ),
    }
}

fn option_name(t: Transport) -> (r: &'static str)
    ensures
        r@ == concurrency_option(t),
{
    match t {
        Transport::Ip => "--ip-concurrency",
        Transport::Tor => "--tor-concurrency",
        Transport::I2p => "--i2p-concurrency",
    }
}

impl ConfigError {
    /// The refusal in words.
    pub fn message(&self) -> (r: String)
        ensures
            r@ == config_fault_text(self@),
    {
        let mut out: String = String::new();
        match self {
            ConfigError::InvalidDuration(s) => {
                out.push_str("invalid duration: ");
                out.push_str(s);
            },
            ConfigError::UnknownDurationUnit(s) => {
                out.push_str("unknown duration unit: ");
                out.push_str(s);
            },
            ConfigError::NoWorkers(t) => {
                out.push_str(option_name(*t));
                out.push_str(" must be at least 1 while its networks are enabled");
            },
            ConfigError::TooManyWorkers(t) => {
                out.push_str(option_name(*t));
                out.push_str(" must not exceed ");
                push_decimal(&mut out, MAX_CONCURRENCY as u64);
            },
        }
        proof {
            assert(out@ =~= config_fault_text(self@));
        }
        out
    }
}

/// The 64-bit number that a numeral with an optional sign stands for.
pub open spec fn signed_value(s: Seq<char>) -> Option<i64> {
    let negative = s.len() > 0 && s[0] == '-';
    let digits = if s.len() > 0 && (s[0] == '-' || s[0] == '+') {
        s.skip(1)
    } else {
        s
    };
    let magnitude = numeral_value(digits, 10);
    if !is_numeral(digits, 10) {
        None
    } else if negative && magnitude <= 0x8000_0000_0000_0000 {
        Some((-magnitude) as i64)
    } else if !negative && magnitude <= i64::MAX {
        Some(magnitude as i64)
    } else {
        None
    }
}

/// How many decimal digits `s` starts with.
pub open spec fn leading_digits(s: Seq<char>) -> nat
    decreases s.len(),
{
    if s.len() > 0 && is_digit(s[0], 10) {
        1 + leading_digits(s.skip(1))
    } else {
        0
    }
}

/// The seconds of a duration unit.
pub open spec fn unit_seconds(unit: Seq<char>) -> Option<int> {
    if unit == seq!['s'] {
        Some(1)
    } else if unit == seq!['m'] {
        Some(60)
    } else if unit == seq!['h'] {
        Some(3600)
    } else if unit == seq!['d'] {
        Some(86400)
    } else {
        None
    }
}

/// The seconds of a duration: a plain number, or digits and a unit. White space round it is
/// ignored.
pub open spec fn duration_of(text: Seq<char>) -> Result<i64, ConfigFault> {
    let s = trim(text);
    let k = leading_digits(s) as int;
    let n = numeral_value(s.take(k), 10);
    match signed_value(s) {
        Some(n) => Ok(n),
        None => if k == s.len() || k == 0 || n > i64::MAX {
            Err(ConfigFault::InvalidDuration(s))
        } else {
            match unit_seconds(s.skip(k)) {
                None => Err(ConfigFault::UnknownDurationUnit(s.skip(k))),
                Some(m) => if n * m > i64::MAX {
                    Err(ConfigFault::InvalidDuration(s))
                } else {
                    Ok((n * m) as i64)
                },
            }
        },
    }
}

fn parse_signed(s: &Vec<char>) -> (r: Option<i64>)
    ensures
        r == signed_value(s@),
{
    let n = s.len();
    let signed = n > 0 && (s[0] == '-' || s[0] == '+');
    let negative = n > 0 && s[0] == '-';
    let digits = if signed {
        sub_chars(s, 1, n)
    } else {
        sub_chars(s, 0, n)
    };
    proof {
        assert(s@.subrange(0, n as int) =~= s@);
        assert(signed ==> digits@ =~= s@.skip(1));
        if is_numeral(digits@, 10) {
            lemma_numeral_value_nonneg(digits@, 10);
        }
    }
    if negative {
        match read_numeral(&digits, 10, 0x8000_0000_0000_0000) {
            Some(v) => if v == 0 {
                Some(0)
            } else {
                Some(-((v - 1) as i64) - 1)
            },
            None => None,
        }
    } else {
        match read_numeral(&digits, 10, 0x7FFF_FFFF_FFFF_FFFF) {
            Some(v) => Some(v as i64),
            None => None,
        }
    }
}

fn count_digits(s: &Vec<char>) -> (k: usize)
    ensures
        k == leading_digits(s@),
        k <= s@.len(),
        forall|i: int| 0 <= i < k ==> is_digit(#[trigger] s@[i], 10),
{
    let mut k: usize = 0;
    proof {
        assert(s@.skip(0) =~= s@);
    }
    while k < s.len() && read_digit(s[k], 10).is_some()
        invariant
            k <= s@.len(),
            k + leading_digits(s@.skip(k as int)) == leading_digits(s@),
            forall|i: int| 0 <= i < k ==> is_digit(#[trigger] s@[i], 10),
        decreases s@.len() - k,
    {
        proof {
            assert(s@.skip(k as int).skip(1) =~= s@.skip(k + 1));
        }
        k = k + 1;
    }
    k
}

fn unit_length(unit: &Vec<char>) -> (r: Option<u64>)
    ensures
        match r {
            Some(m) => unit_seconds(unit@) == Some(m as int) && 1 <= m <= 86400,
            None => unit_seconds(unit@) is None,
        },
{
    if unit.len() != 1 {
        return None;
    }
    let c = unit[0];
    proof {
        assert(unit@ =~= seq![c]);
        assert(seq![c][0] == c);
        assert(seq!['s'][0] == 's' && seq!['m'][0] == 'm' && seq!['h'][0] == 'h' && seq!['d'][0]
            == 'd');
    }
    if c == 's' {
        Some(1)
    } else if c == 'm' {
        Some(60)
    } else if c == 'h' {
        Some(3600)
    } else if c == 'd' {
        Some(86400)
    } else {
        None
    }
}

/// Parses a duration in seconds or human form (`2d`, `48h`, `30m`, `10s`).
pub fn parse_duration(text: &str) -> (r: Result<i64, ConfigError>)
    ensures
        match r {
            Ok(n) => duration_of(text@) == Ok::<i64, ConfigFault>(n),
            Err(e) => duration_of(text@) == Err::<i64, ConfigFault>(e@),
        },
{
    let chars = chars_of(text);
    let s = trim_chars(&chars);
    if let Some(n) = parse_signed(&s) {
        return Ok(n);
    }
    let k = count_digits(&s);
    if k == s.len() || k == 0 {
        return Err(ConfigError::InvalidDuration(string_of(&s)));
    }
    let digits = sub_chars(&s, 0, k);
    let unit = sub_chars(&s, k, s.len());
    proof {
        assert(digits@ =~= s@.take(k as int));
        assert(unit@ =~= s@.skip(k as int));
        assert forall|i: int| 0 <= i < digits@.len() implies is_digit(#[trigger] digits@[i], 10) by {
            assert(digits@[i] == s@[i]);
        }
        lemma_numeral_value_nonneg(digits@, 10);
    }
    let n = match read_numeral(&digits, 10, 0x7FFF_FFFF_FFFF_FFFF) {
        Some(n) => n,
        None => {
            return Err(ConfigError::InvalidDuration(string_of(&s)));
        },
    };
    let mult = match unit_length(&unit) {
        Some(m) => m,
        None => {
            return Err(ConfigError::UnknownDurationUnit(string_of(&unit)));
        },
    };
    proof {
        assert(n <= (0x7FFF_FFFF_FFFF_FFFFint / mult as int) <==> n * mult <= 0x7FFF_FFFF_FFFF_FFFF)
            by (nonlinear_arith)
            requires
                n >= 0,
                mult >= 1,
        ;
    }
    if n > 0x7FFF_FFFF_FFFF_FFFF / mult {
        return Err(ConfigError::InvalidDuration(string_of(&s)));
    }
    Ok((n * mult) as i64)
}

// ---------------------------------------------------------------------------
// Command line
// ---------------------------------------------------------------------------

/// The crawler's command line.
#[derive(Debug)]
pub struct Cli {
    pub common: CommonArgs,
    /// Stop after processing at most N nodes (testing cap; default unlimited)
    pub max_nodes: Option<usize>,
    /// Skip addresses last-seen older than this; seconds or 2d/48h; 0 disables
    pub freshness_threshold: String,
    /// Disable the freshness filter (shorthand for --freshness-threshold 0)
    pub no_freshness_filter: bool,
}

/// Args shared by the crawler and the `probe` binary (timeouts, concurrency, per-node
/// behaviour, networks, endpoints, output).
#[derive(Debug)]
pub struct CommonArgs {
    pub ip_connect_timeout: u64,
    pub ip_message_timeout: u64,
    pub ip_getaddr_timeout: u64,
    pub ip_getaddr_idle_timeout: u64,
    pub tor_connect_timeout: u64,
    pub tor_message_timeout: u64,
    pub tor_getaddr_timeout: u64,
    pub tor_getaddr_idle_timeout: u64,
    pub i2p_connect_timeout: u64,
    pub i2p_message_timeout: u64,
    pub i2p_getaddr_timeout: u64,
    pub i2p_getaddr_idle_timeout: u64,
    pub cjdns_connect_timeout: u64,
    pub cjdns_message_timeout: u64,
    pub cjdns_getaddr_timeout: u64,
    pub cjdns_getaddr_idle_timeout: u64,
    pub ip_concurrency: usize,
    pub tor_concurrency: usize,
    pub i2p_concurrency: usize,
    /// Run network preflight probes, print the table, and exit without crawling
    pub dry_run: bool,
    /// Total version-handshake attempts per node before giving up
    pub handshake_attempts: u32,
    /// Cap on distinct addresses that are kept
    pub max_addresses: usize,
    /// Seconds to sleep before crawling (for Tor/I2P side-service warm-up)
    pub delay_start: u64,
    pub record_addr_responses: bool,
    pub no_record_addr_responses: bool,
    /// Also retry a node that stayed silent for the whole handshake deadline
    pub retry_on_timeout: bool,
    pub ipv4: bool,
    pub no_ipv4: bool,
    pub ipv6: bool,
    pub no_ipv6: bool,
    pub tor: bool,
    pub no_tor: bool,
    pub i2p: bool,
    pub no_i2p: bool,
    pub cjdns: bool,
    pub no_cjdns: bool,
    /// Abort at startup if any enabled network fails its preflight probe
    pub strict_networks: bool,
    pub tor_proxy_host: String,
    pub tor_proxy_port: u16,
    pub i2p_sam_host: String,
    pub i2p_sam_port: u16,
    /// Directory for result files (created if missing)
    pub result_path: String,
    /// Output filename prefix timestamp (default: crawl start, UTC)
    pub timestamp: Option<String>,
    /// Extra version string recorded in the stats JSON
    pub extra_version_info: Option<String>,
    pub log_level: String,
    pub no_store_debug_log: bool,
    /// Re-write result files this often as a checkpoint; seconds or 5m/1h; 0 disables
    pub checkpoint_interval: String,
}

/// The arguments of a command line that gives none.
pub open spec fn is_default_args(a: CommonArgs) -> bool {
    &&& a.ip_connect_timeout == 3 && a.ip_message_timeout == 30 && a.ip_getaddr_timeout == 70
        && a.ip_getaddr_idle_timeout == 3
    &&& a.tor_connect_timeout == 100 && a.tor_message_timeout == 40 && a.tor_getaddr_timeout == 90
        && a.tor_getaddr_idle_timeout == 5
    &&& a.i2p_connect_timeout == 30 && a.i2p_message_timeout == 80 && a.i2p_getaddr_timeout == 170
        && a.i2p_getaddr_idle_timeout == 8
    &&& a.cjdns_connect_timeout == 10 && a.cjdns_message_timeout == 30 && a.cjdns_getaddr_timeout
        == 70 && a.cjdns_getaddr_idle_timeout == 3
    &&& a.ip_concurrency == 64 && a.tor_concurrency == 64 && a.i2p_concurrency == 32
    &&& !a.dry_run && a.handshake_attempts == 3 && a.max_addresses == 1_000_000 && a.delay_start
        == 0
    &&& a.record_addr_responses && !a.no_record_addr_responses && !a.retry_on_timeout
    &&& !a.ipv4 && !a.no_ipv4 && !a.ipv6 && !a.no_ipv6 && !a.tor && !a.no_tor && !a.i2p
        && !a.no_i2p && !a.cjdns && !a.no_cjdns && !a.strict_networks
    &&& a.tor_proxy_host@ == "127.0.0.1"@ && a.tor_proxy_port == 9050
    &&& a.i2p_sam_host@ == "127.0.0.1"@ && a.i2p_sam_port == 7656
    &&& a.result_path@ == "results"@ && a.timestamp is None && a.extra_version_info is None
    &&& a.log_level@ == "INFO"@ && !a.no_store_debug_log && a.checkpoint_interval@ == "10m"@
}

impl Default for CommonArgs {
    fn default() -> (r: CommonArgs)
        ensures
            is_default_args(r),
    {
        CommonArgs {
            ip_connect_timeout: 3,
            ip_message_timeout: 30,
            ip_getaddr_timeout: 70,
            ip_getaddr_idle_timeout: 3,
            tor_connect_timeout: 100,
            tor_message_timeout: 40,
            tor_getaddr_timeout: 90,
            tor_getaddr_idle_timeout: 5,
            i2p_connect_timeout: 30,
            i2p_message_timeout: 80,
            i2p_getaddr_timeout: 170,
            i2p_getaddr_idle_timeout: 8,
            cjdns_connect_timeout: 10,
            cjdns_message_timeout: 30,
            cjdns_getaddr_timeout: 70,
            cjdns_getaddr_idle_timeout: 3,
            ip_concurrency: 64,
            tor_concurrency: 64,
            i2p_concurrency: 32,
            dry_run: false,
            handshake_attempts: 3,
            max_addresses: 1_000_000,
            delay_start: 0,
            record_addr_responses: true,
            no_record_addr_responses: false,
            retry_on_timeout: false,
            ipv4: false,
            no_ipv4: false,
            ipv6: false,
            no_ipv6: false,
            tor: false,
            no_tor: false,
            i2p: false,
            no_i2p: false,
            cjdns: false,
            no_cjdns: false,
            strict_networks: false,
            tor_proxy_host: "127.0.0.1".to_owned(),
            tor_proxy_port: 9050,
            i2p_sam_host: "127.0.0.1".to_owned(),
            i2p_sam_port: 7656,
            result_path: "results".to_owned(),
            timestamp: None,
            extra_version_info: None,
            log_level: "INFO".to_owned(),
            no_store_debug_log: false,
            checkpoint_interval: "10m".to_owned(),
        }
    }
}

impl Default for Cli {
    fn default() -> (r: Cli)
        ensures
            is_default_args(r.common),
            r.max_nodes is None,
            r.freshness_threshold@ == "2d"@,
            !r.no_freshness_filter,
    {
        Cli {
            common: CommonArgs::default(),
            max_nodes: None,
            freshness_threshold: "2d".to_owned(),
            no_freshness_filter: false,
        }
    }
}

/// The networks that the arguments enable: each is on unless it is switched off and not
/// switched on again.
pub open spec fn enabled_by(a: CommonArgs) -> EnabledNetworks {
    EnabledNetworks {
        ipv4: a.ipv4 || !a.no_ipv4,
        ipv6: a.ipv6 || !a.no_ipv6,
        tor: a.tor || !a.no_tor,
        i2p: a.i2p || !a.no_i2p,
        cjdns: a.cjdns || !a.no_cjdns,
    }
}

/// Whether any network of a transport is enabled.
pub open spec fn transport_enabled(en: EnabledNetworks, t: Transport) -> bool {
    match t {
        Transport::Ip => en.ipv4 || en.ipv6 || en.cjdns,
        Transport::Tor => en.tor,
        Transport::I2p => en.i2p,
    }
}

/// What is wrong with the number of workers of a transport.
pub open spec fn workers_fault(en: EnabledNetworks, t: Transport, workers: usize) -> Option<
    ConfigFault,
> {
    if workers == 0 && transport_enabled(en, t) {
        Some(ConfigFault::NoWorkers(t))
    } else if workers > MAX_CONCURRENCY {
        Some(ConfigFault::TooManyWorkers(t))
    } else {
        None
    }
}

/// What is wrong with the numbers of workers, the first transport first.
pub open spec fn concurrency_fault(en: EnabledNetworks, c: Concurrency) -> Option<ConfigFault> {
    if workers_fault(en, Transport::Ip, c.ip) is Some {
        workers_fault(en, Transport::Ip, c.ip)
    } else if workers_fault(en, Transport::Tor, c.tor) is Some {
        workers_fault(en, Transport::Tor, c.tor)
    } else {
        workers_fault(en, Transport::I2p, c.i2p)
    }
}

/// The workers that the arguments ask for.
pub open spec fn concurrency_by(a: CommonArgs) -> Concurrency {
    Concurrency { ip: a.ip_concurrency, tor: a.tor_concurrency, i2p: a.i2p_concurrency }
}

/// The timeouts that the arguments ask for.
pub open spec fn timeouts_by(a: CommonArgs) -> TimeoutSettings {
    TimeoutSettings {
        ip: Timeouts {
            connect: a.ip_connect_timeout,
            message: a.ip_message_timeout,
            getaddr: a.ip_getaddr_timeout,
            getaddr_idle: a.ip_getaddr_idle_timeout,
        },
        tor: Timeouts {
            connect: a.tor_connect_timeout,
            message: a.tor_message_timeout,
            getaddr: a.tor_getaddr_timeout,
            getaddr_idle: a.tor_getaddr_idle_timeout,
        },
        i2p: Timeouts {
            connect: a.i2p_connect_timeout,
            message: a.i2p_message_timeout,
            getaddr: a.i2p_getaddr_timeout,
            getaddr_idle: a.i2p_getaddr_idle_timeout,
        },
        cjdns: Timeouts {
            connect: a.cjdns_connect_timeout,
            message: a.cjdns_message_timeout,
            getaddr: a.cjdns_getaddr_timeout,
            getaddr_idle: a.cjdns_getaddr_idle_timeout,
        },
    }
}

/// What is wrong with the arguments: the checkpoint interval first, then the workers.
pub open spec fn args_fault(a: CommonArgs) -> Option<ConfigFault> {
    match duration_of(a.checkpoint_interval@) {
        Err(fault) => Some(fault),
        Ok(_) => concurrency_fault(enabled_by(a), concurrency_by(a)),
    }
}

/// Whether `s` is what the arguments and the caller's own choices describe.
pub open spec fn describes(
    a: CommonArgs,
    freshness_threshold: i64,
    max_nodes: Option<usize>,
    probe_mode: bool,
    timestamp: Seq<char>,
    s: Settings,
) -> bool {
    &&& s.version_info.version@ == PKG_VERSION@
    &&& s.version_info.extra == a.extra_version_info
    &&& s.delay_start == a.delay_start
    &&& s.max_nodes == max_nodes
    &&& s.max_addresses == a.max_addresses
    &&& s.enabled_networks == enabled_by(a)
    &&& s.strict_networks == a.strict_networks
    &&& s.freshness_threshold == freshness_threshold
    &&& s.record_addr_responses == (a.record_addr_responses && !a.no_record_addr_responses)
    &&& s.concurrency == concurrency_by(a)
    &&& s.node_settings.timeouts == timeouts_by(a)
    &&& s.node_settings.handshake_attempts == a.handshake_attempts
    &&& s.node_settings.network_settings.tor_proxy_host == a.tor_proxy_host
    &&& s.node_settings.network_settings.tor_proxy_port == a.tor_proxy_port
    &&& s.node_settings.network_settings.i2p_sam_host == a.i2p_sam_host
    &&& s.node_settings.network_settings.i2p_sam_port == a.i2p_sam_port
    &&& s.result_settings.path == a.result_path
    &&& s.result_settings.timestamp@ == timestamp
    &&& s.result_settings.reachable_nodes@ == "reachable_nodes.csv"@
    &&& s.result_settings.handshake_failed_nodes@ == "handshake_failed_nodes.csv"@
    &&& s.result_settings.unreachable_nodes@ == "unreachable_nodes.csv"@
    &&& s.result_settings.crawler_stats@ == "crawler_stats.json"@
    &&& s.result_settings.addr_responses@ == "addr_responses.csv"@
    &&& s.dry_run == a.dry_run
    &&& s.log_level == a.log_level
    &&& s.store_debug_log == !a.no_store_debug_log
    &&& s.retry_on_timeout == a.retry_on_timeout
    &&& duration_of(a.checkpoint_interval@) == Ok::<i64, ConfigFault>(s.checkpoint_interval)
    &&& s.probe_mode == probe_mode
}

fn check_workers(en: EnabledNetworks, t: Transport, workers: usize) -> (r: Result<(), ConfigError>)
    ensures
        match r {
            Ok(()) => workers_fault(en, t, workers) is None,
            Err(e) => workers_fault(en, t, workers) == Some(e@),
        },
{
    let enabled = match t {
        Transport::Ip => en.ipv4 || en.ipv6 || en.cjdns,
        Transport::Tor => en.tor,
        Transport::I2p => en.i2p,
    };
    if workers == 0 && enabled {
        Err(ConfigError::NoWorkers(t))
    } else if workers > MAX_CONCURRENCY {
        Err(ConfigError::TooManyWorkers(t))
    } else {
        Ok(())
    }
}

/// Whether a text has the form of a time to the nanosecond: a year of four digits or more,
/// signed or not, then month, day, hour, minute and second of two digits each and a fraction
/// of nine. `#` stands for a digit.
pub open spec fn is_time_name(s: Seq<char>) -> bool {
    let form = "-##-##T##-##-##.#########Z"@;
    let year = s.len() - form.len();
    &&& year >= 4
    &&& is_digit(s[0], 10) || s[0] == '+' || s[0] == '-'
    &&& forall|i: int| 1 <= i < year ==> is_digit(#[trigger] s[i], 10)
    &&& forall|i: int|
        0 <= i < form.len() ==> if form[i] == '#' {
            is_digit(s[year + i], 10)
        } else {
            s[year + i] == #[trigger] form[i]
        }
}

/// `chrono::Utc::now` rendered by `format`: the present time in the form of the pattern.
/// Which time it is, nothing says beforehand. The outside call panics on a malformed
/// pattern, so there is one pattern.
#[verifier::external_body]
fn utc_now_text(pattern: &str) -> (r: String)
    requires
        pattern@ == "%Y-%m-%dT%H-%M-%S%.9fZ"@,
    ensures
        is_time_name(r@),
{
    chrono::Utc::now().format(pattern).to_string()
}

impl CommonArgs {
    /// Builds the settings from the shared args and the caller's own choices. A run without
    /// a given timestamp is named after the present time, to the nanosecond.
    pub fn into_settings(
        self,
        freshness_threshold: i64,
        max_nodes: Option<usize>,
        probe_mode: bool,
    ) -> (r: Result<Settings, ConfigError>)
        ensures
            match r {
                Ok(s) => args_fault(self) is None && describes(
                    self,
                    freshness_threshold,
                    max_nodes,
                    probe_mode,
                    s.result_settings.timestamp@,
                    s,
                ) && match self.timestamp {
                    Some(t) => s.result_settings.timestamp@ == t@,
                    None => is_time_name(s.result_settings.timestamp@),
                },
                Err(e) => args_fault(self) == Some(e@),
            },
    {
        let now = utc_now_text("%Y-%m-%dT%H-%M-%S%.9fZ");
        self.into_settings_at(freshness_threshold, max_nodes, probe_mode, now)
    }

    /// Builds the settings of a run that is named `default_timestamp` unless a timestamp is
    /// given.
    pub fn into_settings_at(
        self,
        freshness_threshold: i64,
        max_nodes: Option<usize>,
        probe_mode: bool,
        default_timestamp: String,
    ) -> (r: Result<Settings, ConfigError>)
        ensures
            match r {
                Ok(s) => args_fault(self) is None && describes(
                    self,
                    freshness_threshold,
                    max_nodes,
                    probe_mode,
                    match self.timestamp {
                        Some(t) => t@,
                        None => default_timestamp@,
                    },
                    s,
                ),
                Err(e) => args_fault(self) == Some(e@),
            },
    {
        let timestamp = match self.timestamp {
            Some(t) => t,
            None => default_timestamp,
        };
        let record_addr_responses = self.record_addr_responses && !self.no_record_addr_responses;
        let checkpoint_interval = match parse_duration(&self.checkpoint_interval) {
            Ok(n) => n,
            Err(e) => {
                return Err(e);
            },
        };
        let enabled_networks = EnabledNetworks {
            ipv4: self.ipv4 || !self.no_ipv4,
            ipv6: self.ipv6 || !self.no_ipv6,
            tor: self.tor || !self.no_tor,
            i2p: self.i2p || !self.no_i2p,
            cjdns: self.cjdns || !self.no_cjdns,
        };
        match check_workers(enabled_networks, Transport::Ip, self.ip_concurrency) {
            Ok(()) => {},
            Err(e) => {
                return Err(e);
            },
        }
        match check_workers(enabled_networks, Transport::Tor, self.tor_concurrency) {
            Ok(()) => {},
            Err(e) => {
                return Err(e);
            },
        }
        match check_workers(enabled_networks, Transport::I2p, self.i2p_concurrency) {
            Ok(()) => {},
            Err(e) => {
                return Err(e);
            },
        }
        Ok(
            Settings {
                version_info: VersionInfo {
                    version: PKG_VERSION.to_owned(),
                    extra: self.extra_version_info,
                },
                delay_start: self.delay_start,
                max_nodes,
                max_addresses: self.max_addresses,
                enabled_networks,
                strict_networks: self.strict_networks,
                freshness_threshold,
                record_addr_responses,
                concurrency: Concurrency {
                    ip: self.ip_concurrency,
                    tor: self.tor_concurrency,
                    i2p: self.i2p_concurrency,
                },
                node_settings: NodeSettings {
                    timeouts: TimeoutSettings {
                        ip: Timeouts {
                            connect: self.ip_connect_timeout,
                            message: self.ip_message_timeout,
                            getaddr: self.ip_getaddr_timeout,
                            getaddr_idle: self.ip_getaddr_idle_timeout,
                        },
                        tor: Timeouts {
                            connect: self.tor_connect_timeout,
                            message: self.tor_message_timeout,
                            getaddr: self.tor_getaddr_timeout,
                            getaddr_idle: self.tor_getaddr_idle_timeout,
                        },
                        i2p: Timeouts {
                            connect: self.i2p_connect_timeout,
                            message: self.i2p_message_timeout,
                            getaddr: self.i2p_getaddr_timeout,
                            getaddr_idle: self.i2p_getaddr_idle_timeout,
                        },
                        cjdns: Timeouts {
                            connect: self.cjdns_connect_timeout,
                            message: self.cjdns_message_timeout,
                            getaddr: self.cjdns_getaddr_timeout,
                            getaddr_idle: self.cjdns_getaddr_idle_timeout,
                        },
                    },
                    handshake_attempts: self.handshake_attempts,
                    network_settings: NetworkEndpoints {
                        tor_proxy_host: self.tor_proxy_host,
                        tor_proxy_port: self.tor_proxy_port,
                        i2p_sam_host: self.i2p_sam_host,
                        i2p_sam_port: self.i2p_sam_port,
                    },
                },
                result_settings: ResultSettings {
                    path: self.result_path,
                    timestamp,
                    reachable_nodes: "reachable_nodes.csv".to_owned(),
                    handshake_failed_nodes: "handshake_failed_nodes.csv".to_owned(),
                    unreachable_nodes: "unreachable_nodes.csv".to_owned(),
                    crawler_stats: "crawler_stats.json".to_owned(),
                    addr_responses: "addr_responses.csv".to_owned(),
                },
                dry_run: self.dry_run,
                log_level: self.log_level,
                store_debug_log: !self.no_store_debug_log,
                retry_on_timeout: self.retry_on_timeout,
                checkpoint_interval,
                probe_mode,
            },
        )
    }
}

/// The freshness threshold of a command line.
pub open spec fn freshness_of(cli: Cli) -> Result<i64, ConfigFault> {
    if cli.no_freshness_filter {
        Ok(0)
    } else {
        duration_of(cli.freshness_threshold@)
    }
}

impl Cli {
    /// Builds the settings of a crawl.
    pub fn into_settings(self) -> (r: Result<Settings, ConfigError>)
        ensures
            match freshness_of(self) {
                Err(fault) => r matches Err(e) && e@ == fault,
                Ok(freshness) => match r {
                    Ok(s) => args_fault(self.common) is None && describes(
                        self.common,
                        freshness,
                        self.max_nodes,
                        false,
                        s.result_settings.timestamp@,
                        s,
                    ) && match self.common.timestamp {
                        Some(t) => s.result_settings.timestamp@ == t@,
                        None => is_time_name(s.result_settings.timestamp@),
                    },
                    Err(e) => args_fault(self.common) == Some(e@),
                },
            },
    {
        let freshness_threshold = if self.no_freshness_filter {
            0
        } else {
            match parse_duration(&self.freshness_threshold) {
                Ok(n) => n,
                Err(e) => {
                    return Err(e);
                },
            }
        };
        self.common.into_settings(freshness_threshold, self.max_nodes, false)
    }
}

/// The workers of a transport.
pub open spec fn workers_of(c: Concurrency, t: Transport) -> usize {
    match t {
        Transport::Ip => c.ip,
        Transport::Tor => c.tor,
        Transport::I2p => c.i2p,
    }
}

/// In accepted settings every transport with an enabled network has at least one worker, and
/// none has more than allowed.
pub proof fn law_workers_are_bounded(a: CommonArgs, t: Transport)
    requires
        args_fault(a) is None,
    ensures
        workers_of(concurrency_by(a), t) <= MAX_CONCURRENCY,
        transport_enabled(enabled_by(a), t) ==> workers_of(concurrency_by(a), t) >= 1,
{
}

/// Settings without any network arguments have every known network enabled, and never the
/// unknown one.
pub proof fn law_networks_are_on_by_default(a: CommonArgs, s: Settings, net: NetworkType)
    requires
        s.enabled_networks == enabled_by(a),
        !a.no_ipv4 && !a.no_ipv6 && !a.no_tor && !a.no_i2p && !a.no_cjdns,
    ensures
        s.enables(net) <==> net != NetworkType::Unknown,
{
}

} // verus!
