//! The node store: every distinct address of a crawl with its state, and the counters.
use vstd::prelude::*;
use dashmap::DashMap;
use crate::address::{addr_text, classify, network_of, render_addr, NetworkType};
use crate::protocol::{VersionData, VersionView};

verus! {

// ---------------------------------------------------------------------------
// Keys, states and reasons
// ---------------------------------------------------------------------------

/// What an [`AddrKey`] holds.
pub type KeyView = (Seq<char>, u16);

/// Key identifying a distinct address; network type is derived from host.
#[derive(Debug, PartialEq, Eq, Hash)]
pub struct AddrKey {
    pub host: String,
    pub port: u16,
}

impl View for AddrKey {
    type V = KeyView;

    open spec fn view(&self) -> KeyView {
        (self.host@, self.port)
    }
}

impl Clone for AddrKey {
    fn clone(&self) -> (r: AddrKey)
        ensures
            r@ == self@,
    {
        AddrKey { host: self.host.clone(), port: self.port }
    }
}

impl AddrKey {
    pub fn new(host: &str, port: u16) -> (r: AddrKey)
        ensures
            r@ == (host@, port),
    {
        AddrKey { host: host.to_owned(), port }
    }

    /// The address as text, with brackets round a host that holds a colon.
    pub fn render(&self) -> (r: String)
        ensures
            r@ == addr_text(self.host@, self.port),
    {
        render_addr(&self.host, self.port)
    }
}

/// Node lifecycle state.
#[derive(Debug, Clone, Copy, PartialEq, Eq, Structural)]
pub enum NodeState {
    Queued,
    Processing,
    Reachable,
    HandshakeFailed,
    Unreachable,
    StaleDiscarded,
    BudgetDiscarded,
}

/// Why a node ended up in a failure state: the reason recorded alongside a terminal
/// `Unreachable` or `HandshakeFailed`.
#[derive(Debug, Clone, Copy, PartialEq, Eq, Structural)]
pub enum FailKind {
    /// TCP/proxy actively refused the connection (nothing listening).
    ConnectRefused,
    /// The connect (with SOCKS5/SAM setup) exceeded its timeout.
    ConnectTimeout,
    /// Network/host unreachable (no route).
    ConnectUnreachable,
    /// Connection reset during connect.
    ConnectReset,
    /// The Tor SOCKS5 proxy negotiation failed (e.g. proxy down, REP != 0).
    ProxyError,
    /// The I2P SAM session/stream setup failed.
    SamError,
    /// Any other connect-phase error.
    ConnectOther,
    /// Failed to write our `version` message.
    VersionSendFailed,
    /// Failed to write our `sendaddrv2` message.
    NegotiationSendFailed,
    /// Failed to write our `verack` message.
    VerackSendFailed,
    /// Peer sent its `version` but no `verack` before the handshake deadline.
    PeerVerackTimeout,
    /// Peer stayed silent for the whole handshake deadline.
    HandshakeTimeout,
    /// Peer closed / reset the connection mid-handshake (EOF).
    ConnectionClosed,
    /// Peer sent a `version` we could not parse.
    MalformedVersion,
    /// Stream desynchronised: bad network magic, checksum, or oversize payload.
    ProtocolDesync,
    /// Any other handshake-phase error.
    HandshakeOther,
    /// The worker itself failed.
    WorkerFailed,
}

/// The identifier of a failure reason.
pub open spec fn fail_label(kind: FailKind) -> Seq<char> {
    match kind {
        FailKind::ConnectRefused => "connect_refused"@,
        FailKind::ConnectTimeout => "connect_timeout"@,
        FailKind::ConnectUnreachable => "connect_unreachable"@,
        FailKind::ConnectReset => "connect_reset"@,
        FailKind::ProxyError => "proxy_error"@,
        FailKind::SamError => "sam_error"@,
        FailKind::ConnectOther => "connect_other"@,
        FailKind::VersionSendFailed => "version_send_failed"@,
        FailKind::NegotiationSendFailed => "negotiation_send_failed"@,
        FailKind::VerackSendFailed => "verack_send_failed"@,
        FailKind::PeerVerackTimeout => "peer_verack_timeout"@,
        FailKind::HandshakeTimeout => "handshake_timeout"@,
        FailKind::ConnectionClosed => "connection_closed"@,
        FailKind::MalformedVersion => "malformed_version"@,
        FailKind::ProtocolDesync => "protocol_desync"@,
        FailKind::HandshakeOther => "handshake_other"@,
        FailKind::WorkerFailed => "worker_failed"@,
    }
}

impl FailKind {
    /// The snake_case identifier used in output CSVs and the stats histogram.
    pub fn as_str(self) -> (r: &'static str)
        ensures
            r@ == fail_label(self),
    {
        match self {
            FailKind::ConnectRefused => "connect_refused",
            FailKind::ConnectTimeout => "connect_timeout",
            FailKind::ConnectUnreachable => "connect_unreachable",
            FailKind::ConnectReset => "connect_reset",
            FailKind::ProxyError => "proxy_error",
            FailKind::SamError => "sam_error",
            FailKind::ConnectOther => "connect_other",
            FailKind::VersionSendFailed => "version_send_failed",
            FailKind::NegotiationSendFailed => "negotiation_send_failed",
            FailKind::VerackSendFailed => "verack_send_failed",
            FailKind::PeerVerackTimeout => "peer_verack_timeout",
            FailKind::HandshakeTimeout => "handshake_timeout",
            FailKind::ConnectionClosed => "connection_closed",
            FailKind::MalformedVersion => "malformed_version",
            FailKind::ProtocolDesync => "protocol_desync",
            FailKind::HandshakeOther => "handshake_other",
            FailKind::WorkerFailed => "worker_failed",
        }
    }
}

/// How the collection of a peer's addresses ended.
#[derive(Debug, Clone, Copy, PartialEq, Eq, Structural)]
pub enum CollectionOutcome {
    NotRequested,
    CompleteQuiet,
    NoResponseTimeout,
    PartialHardTimeout,
    HardTimeout,
    SendFailed,
    MalformedResponse,
    PartialMalformedResponse,
    RemoteDisconnect,
    PartialRemoteDisconnect,
    IncompleteEnvelopeTimeout,
    PartialIncompleteEnvelopeTimeout,
    LogFailed,
}

/// The identifier of a collection outcome.
pub open spec fn outcome_label(outcome: CollectionOutcome) -> Seq<char> {
    match outcome {
        CollectionOutcome::NotRequested => "not_requested"@,
        CollectionOutcome::CompleteQuiet => "complete_quiet"@,
        CollectionOutcome::NoResponseTimeout => "no_response_timeout"@,
        CollectionOutcome::PartialHardTimeout => "partial_hard_timeout"@,
        CollectionOutcome::HardTimeout => "hard_timeout"@,
        CollectionOutcome::SendFailed => "send_failed"@,
        CollectionOutcome::MalformedResponse => "malformed_response"@,
        CollectionOutcome::PartialMalformedResponse => "partial_malformed_response"@,
        CollectionOutcome::RemoteDisconnect => "remote_disconnect"@,
        CollectionOutcome::PartialRemoteDisconnect => "partial_remote_disconnect"@,
        CollectionOutcome::IncompleteEnvelopeTimeout => "incomplete_envelope_timeout"@,
        CollectionOutcome::PartialIncompleteEnvelopeTimeout =>
            "partial_incomplete_envelope_timeout"@,
        CollectionOutcome::LogFailed => "log_failed"@,
    }
}

impl CollectionOutcome {
    /// The identifier used in outputs.
    pub fn as_str(self) -> (r: &'static str)
        ensures
            r@ == outcome_label(self),
    {
        match self {
            CollectionOutcome::NotRequested => "not_requested",
            CollectionOutcome::CompleteQuiet => "complete_quiet",
            CollectionOutcome::NoResponseTimeout => "no_response_timeout",
            CollectionOutcome::PartialHardTimeout => "partial_hard_timeout",
            CollectionOutcome::HardTimeout => "hard_timeout",
            CollectionOutcome::SendFailed => "send_failed",
            CollectionOutcome::MalformedResponse => "malformed_response",
            CollectionOutcome::PartialMalformedResponse => "partial_malformed_response",
            CollectionOutcome::RemoteDisconnect => "remote_disconnect",
            CollectionOutcome::PartialRemoteDisconnect => "partial_remote_disconnect",
            CollectionOutcome::IncompleteEnvelopeTimeout => "incomplete_envelope_timeout",
            CollectionOutcome::PartialIncompleteEnvelopeTimeout =>
                "partial_incomplete_envelope_timeout",
            CollectionOutcome::LogFailed => "log_failed",
        }
    }
}

impl Default for CollectionOutcome {
    fn default() -> (r: CollectionOutcome)
        ensures
            r == CollectionOutcome::NotRequested,
    {
        CollectionOutcome::NotRequested
    }
}

// ---------------------------------------------------------------------------
// Handshake metadata
// ---------------------------------------------------------------------------

/// Peer metadata retained from a successful handshake.
#[derive(Debug)]
pub struct HandshakeData {
    pub version: i32,
    pub services: u64,
    pub user_agent: String,
    pub latest_block: i32,
    pub relay: bool,
    pub version_reply_timestamp_remote: i64,
    /// Epoch seconds when `version` was sent.
    pub handshake_timestamp: i64,
    /// Handshake duration in milliseconds.
    pub handshake_duration_ms: u64,
    pub requested_endpoint: String,
    pub transport_destination: String,
    pub socket_local: String,
    pub socket_peer: String,
    pub version_addr_recv: String,
    pub version_addr_recv_services: u64,
    pub version_addr_from: Option<String>,
    pub version_addr_from_services: Option<u64>,
    pub version_nonce: Option<u64>,
}

/// What a [`HandshakeData`] holds.
pub struct HandshakeView {
    pub version: i32,
    pub services: u64,
    pub user_agent: Seq<char>,
    pub latest_block: i32,
    pub relay: bool,
    pub version_reply_timestamp_remote: i64,
    pub handshake_timestamp: i64,
    pub handshake_duration_ms: u64,
    pub requested_endpoint: Seq<char>,
    pub transport_destination: Seq<char>,
    pub socket_local: Seq<char>,
    pub socket_peer: Seq<char>,
    pub version_addr_recv: Seq<char>,
    pub version_addr_recv_services: u64,
    pub version_addr_from: Option<Seq<char>>,
    pub version_addr_from_services: Option<u64>,
    pub version_nonce: Option<u64>,
}

/// The characters of an optional string.
pub open spec fn opt_chars(s: Option<String>) -> Option<Seq<char>> {
    match s {
        Some(s) => Some(s@),
        None => None,
    }
}

impl View for HandshakeData {
    type V = HandshakeView;

    open spec fn view(&self) -> HandshakeView {
        HandshakeView {
            version: self.version,
            services: self.services,
            user_agent: self.user_agent@,
            latest_block: self.latest_block,
            relay: self.relay,
            version_reply_timestamp_remote: self.version_reply_timestamp_remote,
            handshake_timestamp: self.handshake_timestamp,
            handshake_duration_ms: self.handshake_duration_ms,
            requested_endpoint: self.requested_endpoint@,
            transport_destination: self.transport_destination@,
            socket_local: self.socket_local@,
            socket_peer: self.socket_peer@,
            version_addr_recv: self.version_addr_recv@,
            version_addr_recv_services: self.version_addr_recv_services,
            version_addr_from: opt_chars(self.version_addr_from),
            version_addr_from_services: self.version_addr_from_services,
            version_nonce: self.version_nonce,
        }
    }
}

impl Clone for HandshakeData {
    fn clone(&self) -> (r: HandshakeData)
        ensures
            r@ == self@,
    {
        let version_addr_from = match &self.version_addr_from {
            Some(s) => Some(s.clone()),
            None => None,
        };
        HandshakeData {
            version: self.version,
            services: self.services,
            user_agent: self.user_agent.clone(),
            latest_block: self.latest_block,
            relay: self.relay,
            version_reply_timestamp_remote: self.version_reply_timestamp_remote,
            handshake_timestamp: self.handshake_timestamp,
            handshake_duration_ms: self.handshake_duration_ms,
            requested_endpoint: self.requested_endpoint.clone(),
            transport_destination: self.transport_destination.clone(),
            socket_local: self.socket_local.clone(),
            socket_peer: self.socket_peer.clone(),
            version_addr_recv: self.version_addr_recv.clone(),
            version_addr_recv_services: self.version_addr_recv_services,
            version_addr_from,
            version_addr_from_services: self.version_addr_from_services,
            version_nonce: self.version_nonce,
        }
    }
}

/// The metadata that a peer's `version` message and the connection give.
pub open spec fn handshake_view(
    v: VersionView,
    handshake_timestamp: i64,
    duration_ms: u64,
    requested_endpoint: Seq<char>,
    transport_destination: Seq<char>,
    socket_local: Seq<char>,
    socket_peer: Seq<char>,
) -> HandshakeView {
    HandshakeView {
        version: v.version,
        services: v.services,
        user_agent: v.user_agent,
        latest_block: v.latest_block,
        relay: v.relay,
        version_reply_timestamp_remote: v.timestamp,
        handshake_timestamp,
        handshake_duration_ms: duration_ms,
        requested_endpoint,
        transport_destination,
        socket_local,
        socket_peer,
        version_addr_recv: addr_text(v.addr_recv.host, v.addr_recv.port),
        version_addr_recv_services: v.addr_recv.services,
        version_addr_from: match v.addr_from {
            Some(a) => Some(addr_text(a.host, a.port)),
            None => None,
        },
        version_addr_from_services: match v.addr_from {
            Some(a) => Some(a.services),
            None => None,
        },
        version_nonce: v.nonce,
    }
}

impl HandshakeData {
    pub fn from_version(
        v: &VersionData,
        handshake_timestamp: i64,
        duration_ms: u64,
        requested_endpoint: String,
        transport_destination: String,
        socket_local: String,
        socket_peer: String,
    ) -> (r: Self)
        ensures
            r@ == handshake_view(
                v@,
                handshake_timestamp,
                duration_ms,
                requested_endpoint@,
                transport_destination@,
                socket_local@,
                socket_peer@,
            ),
    {
        let version_addr_from = match &v.addr_from {
            Some(a) => Some(render_addr(&a.host, a.port)),
            None => None,
        };
        let version_addr_from_services = match &v.addr_from {
            Some(a) => Some(a.services),
            None => None,
        };
        HandshakeData {
            version: v.version,
            services: v.services,
            user_agent: v.user_agent.clone(),
            latest_block: v.latest_block,
            relay: v.relay,
            version_reply_timestamp_remote: v.timestamp,
            handshake_timestamp,
            handshake_duration_ms: duration_ms,
            requested_endpoint,
            transport_destination,
            socket_local,
            socket_peer,
            version_addr_recv: render_addr(&v.addr_recv.host, v.addr_recv.port),
            version_addr_recv_services: v.addr_recv.services,
            version_addr_from,
            version_addr_from_services,
            version_nonce: v.nonce,
        }
    }
}

// ---------------------------------------------------------------------------
// Entries
// ---------------------------------------------------------------------------

/// One processing iteration of a node.
#[derive(Debug)]
pub struct AttemptData {
    pub attempt: u32,
    pub connect_duration_ms: Option<u64>,
    pub version_send_timestamp: Option<i64>,
    pub outcome: String,
    pub failure: Option<FailKind>,
}

/// What an [`AttemptData`] holds.
pub struct AttemptView {
    pub attempt: u32,
    pub connect_duration_ms: Option<u64>,
    pub version_send_timestamp: Option<i64>,
    pub outcome: Seq<char>,
    pub failure: Option<FailKind>,
}

impl View for AttemptData {
    type V = AttemptView;

    open spec fn view(&self) -> AttemptView {
        AttemptView {
            attempt: self.attempt,
            connect_duration_ms: self.connect_duration_ms,
            version_send_timestamp: self.version_send_timestamp,
            outcome: self.outcome@,
            failure: self.failure,
        }
    }
}

impl Clone for AttemptData {
    fn clone(&self) -> (r: AttemptData)
        ensures
            r@ == self@,
    {
        AttemptData {
            attempt: self.attempt,
            connect_duration_ms: self.connect_duration_ms,
            version_send_timestamp: self.version_send_timestamp,
            outcome: self.outcome.clone(),
            failure: self.failure,
        }
    }
}

/// Per-node timing, counters and advertised-address breakdown.
#[derive(Debug, Clone, Copy)]
pub struct NodeStats {
    /// TCP/SOCKS5/SAM connect time in ms (set once connected).
    pub time_connect_ms: Option<u64>,
    /// Number of processing iterations (connect / version-send attempts).
    pub handshake_attempts: u32,
    /// Epoch seconds of the first `version` send.
    pub first_version_send_ts: Option<i64>,
    pub advertised_total: u64,
    pub advertised_ipv4: u64,
    pub advertised_ipv6: u64,
    pub advertised_onion_v2: u64,
    pub advertised_onion_v3: u64,
    pub advertised_i2p: u64,
    pub advertised_cjdns: u64,
    pub advertised_unknown: u64,
    pub collection_outcome: CollectionOutcome,
    pub valid_addr_messages: u64,
    pub malformed_addr_messages: u64,
}

/// The statistics of a node that nothing is known of.
pub open spec fn no_stats() -> NodeStats {
    NodeStats {
        time_connect_ms: None,
        handshake_attempts: 0,
        first_version_send_ts: None,
        advertised_total: 0,
        advertised_ipv4: 0,
        advertised_ipv6: 0,
        advertised_onion_v2: 0,
        advertised_onion_v3: 0,
        advertised_i2p: 0,
        advertised_cjdns: 0,
        advertised_unknown: 0,
        collection_outcome: CollectionOutcome::NotRequested,
        valid_addr_messages: 0,
        malformed_addr_messages: 0,
    }
}

impl Default for NodeStats {
    fn default() -> (r: NodeStats)
        ensures
            r == no_stats(),
    {
        NodeStats {
            time_connect_ms: None,
            handshake_attempts: 0,
            first_version_send_ts: None,
            advertised_total: 0,
            advertised_ipv4: 0,
            advertised_ipv6: 0,
            advertised_onion_v2: 0,
            advertised_onion_v3: 0,
            advertised_i2p: 0,
            advertised_cjdns: 0,
            advertised_unknown: 0,
            collection_outcome: CollectionOutcome::NotRequested,
            valid_addr_messages: 0,
            malformed_addr_messages: 0,
        }
    }
}

impl NodeStats {
    /// Whether the advertised total is the sum over the networks.
    pub open spec fn balanced(self) -> bool {
        self.advertised_total == self.advertised_ipv4 + self.advertised_ipv6
            + self.advertised_onion_v2 + self.advertised_onion_v3 + self.advertised_i2p
            + self.advertised_cjdns + self.advertised_unknown
    }

    /// The statistics with one more address of a network advertised.
    pub open spec fn with_advertised(self, net: NetworkType) -> NodeStats {
        let s = NodeStats { advertised_total: (self.advertised_total + 1) as u64, ..self };
        match net {
            NetworkType::Ipv4 => NodeStats {
                advertised_ipv4: (self.advertised_ipv4 + 1) as u64,
                ..s
            },
            NetworkType::Ipv6 => NodeStats {
                advertised_ipv6: (self.advertised_ipv6 + 1) as u64,
                ..s
            },
            NetworkType::OnionV2 => NodeStats {
                advertised_onion_v2: (self.advertised_onion_v2 + 1) as u64,
                ..s
            },
            NetworkType::OnionV3 => NodeStats {
                advertised_onion_v3: (self.advertised_onion_v3 + 1) as u64,
                ..s
            },
            NetworkType::I2p => NodeStats { advertised_i2p: (self.advertised_i2p + 1) as u64, ..s },
            NetworkType::Cjdns => NodeStats {
                advertised_cjdns: (self.advertised_cjdns + 1) as u64,
                ..s
            },
            NetworkType::Unknown => NodeStats {
                advertised_unknown: (self.advertised_unknown + 1) as u64,
                ..s
            },
        }
    }

    /// How many addresses of a network have been advertised.
    pub open spec fn advertised(self, net: NetworkType) -> u64 {
        match net {
            NetworkType::Ipv4 => self.advertised_ipv4,
            NetworkType::Ipv6 => self.advertised_ipv6,
            NetworkType::OnionV2 => self.advertised_onion_v2,
            NetworkType::OnionV3 => self.advertised_onion_v3,
            NetworkType::I2p => self.advertised_i2p,
            NetworkType::Cjdns => self.advertised_cjdns,
            NetworkType::Unknown => self.advertised_unknown,
        }
    }

    /// Counts one advertised address of a network.
    pub fn record_advertised(&mut self, net: NetworkType)
        requires
            old(self).advertised_total < u64::MAX,
            old(self).advertised(net) < u64::MAX,
        ensures
            *final(self) == old(self).with_advertised(net),
            old(self).balanced() ==> final(self).balanced(),
    {
        self.advertised_total = self.advertised_total + 1;
        match net {
            NetworkType::Ipv4 => {
                self.advertised_ipv4 = self.advertised_ipv4 + 1;
            },
            NetworkType::Ipv6 => {
                self.advertised_ipv6 = self.advertised_ipv6 + 1;
            },
            NetworkType::OnionV2 => {
                self.advertised_onion_v2 = self.advertised_onion_v2 + 1;
            },
            NetworkType::OnionV3 => {
                self.advertised_onion_v3 = self.advertised_onion_v3 + 1;
            },
            NetworkType::I2p => {
                self.advertised_i2p = self.advertised_i2p + 1;
            },
            NetworkType::Cjdns => {
                self.advertised_cjdns = self.advertised_cjdns + 1;
            },
            NetworkType::Unknown => {
                self.advertised_unknown = self.advertised_unknown + 1;
            },
        }
    }
}

/// A stored node entry.
#[derive(Debug)]
pub struct NodeEntry {
    pub network: NetworkType,
    pub freshest_ts: i64,
    pub state: NodeState,
    pub handshake: Option<HandshakeData>,
    pub stats: NodeStats,
    /// Why this node failed, when in a terminal failure state.
    pub failure: Option<FailKind>,
    pub attempts: Vec<AttemptData>,
}

/// What a [`NodeEntry`] holds.
pub struct EntryView {
    pub network: NetworkType,
    pub freshest_ts: i64,
    pub state: NodeState,
    pub handshake: Option<HandshakeView>,
    pub stats: NodeStats,
    pub failure: Option<FailKind>,
    pub attempts: Seq<AttemptView>,
}

/// The contents of an optional handshake.
pub open spec fn opt_handshake(h: Option<HandshakeData>) -> Option<HandshakeView> {
    match h {
        Some(h) => Some(h@),
        None => None,
    }
}

/// The contents of a run of attempts.
pub open spec fn attempt_views(attempts: Seq<AttemptData>) -> Seq<AttemptView> {
    Seq::new(attempts.len(), |i: int| attempts[i]@)
}

impl View for NodeEntry {
    type V = EntryView;

    open spec fn view(&self) -> EntryView {
        EntryView {
            network: self.network,
            freshest_ts: self.freshest_ts,
            state: self.state,
            handshake: opt_handshake(self.handshake),
            stats: self.stats,
            failure: self.failure,
            attempts: attempt_views(self.attempts@),
        }
    }
}

/// A fresh entry.
pub open spec fn new_entry(network: NetworkType, freshest_ts: i64, state: NodeState) -> EntryView {
    EntryView {
        network,
        freshest_ts,
        state,
        handshake: None,
        stats: no_stats(),
        failure: None,
        attempts: Seq::empty(),
    }
}

impl Clone for NodeEntry {
    fn clone(&self) -> (r: NodeEntry)
        ensures
            r@ == self@,
    {
        let mut attempts: Vec<AttemptData> = Vec::new();
        let mut i: usize = 0;
        while i < self.attempts.len()
            invariant
                i <= self.attempts@.len(),
                attempt_views(attempts@) == attempt_views(self.attempts@).take(i as int),
            decreases self.attempts@.len() - i,
        {
            let ghost before = attempt_views(attempts@);
            let a = self.attempts[i].clone();
            attempts.push(a);
            i = i + 1;
            proof {
                assert(attempt_views(attempts@) =~= before.push(a@));
                assert(attempt_views(attempts@) =~= attempt_views(self.attempts@).take(i as int));
            }
        }
        proof {
            assert(attempt_views(self.attempts@).take(i as int) =~= attempt_views(self.attempts@));
        }
        let handshake = match &self.handshake {
            Some(h) => Some(h.clone()),
            None => None,
        };
        NodeEntry {
            network: self.network,
            freshest_ts: self.freshest_ts,
            state: self.state,
            handshake,
            stats: self.stats,
            failure: self.failure,
            attempts,
        }
    }
}

impl NodeEntry {
    fn new(network: NetworkType, freshest_ts: i64, state: NodeState) -> (r: NodeEntry)
        ensures
            r@ == new_entry(network, freshest_ts, state),
    {
        let r = NodeEntry {
            network,
            freshest_ts,
            state,
            handshake: None,
            stats: NodeStats::default(),
            failure: None,
            attempts: Vec::new(),
        };
        proof {
            assert(r@.attempts =~= Seq::<AttemptView>::empty());
        }
        r
    }
}

// ---------------------------------------------------------------------------
// The store as a value
// ---------------------------------------------------------------------------

/// One address and what is known of it.
pub type Row = (KeyView, EntryView);

/// What a [`NodeStore`] holds: its rows in the order in which they were created, and its
/// counters.
pub struct StoreView {
    pub rows: Seq<Row>,
    pub outstanding: usize,
    pub max_entries: usize,
    pub budget_rejected: usize,
}

/// The position of the row with the given key.
pub open spec fn find_row(rows: Seq<Row>, key: KeyView) -> Option<int>
    decreases rows.len(),
{
    if rows.len() == 0 {
        None
    } else if rows.last().0 == key {
        Some(rows.len() - 1)
    } else {
        find_row(rows.drop_last(), key)
    }
}

/// Whether no key has two rows.
pub open spec fn distinct_rows(rows: Seq<Row>) -> bool {
    forall|i: int, j: int|
        0 <= i < j < rows.len() ==> (#[trigger] rows[i]).0 != (#[trigger] rows[j]).0
}

/// How many rows are in a state.
pub open spec fn state_count(rows: Seq<Row>, state: NodeState) -> nat
    decreases rows.len(),
{
    if rows.len() == 0 {
        0
    } else {
        state_count(rows.drop_last(), state) + if rows.last().1.state == state {
            1nat
        } else {
            0nat
        }
    }
}

/// The next value of a counter that wraps round at the machine's limit.
pub open spec fn counter_plus(n: usize) -> usize {
    if n == usize::MAX {
        0
    } else {
        (n + 1) as usize
    }
}

/// The previous value of a counter that wraps round below zero.
pub open spec fn counter_minus(n: usize) -> usize {
    if n == 0 {
        usize::MAX
    } else {
        (n - 1) as usize
    }
}

pub proof fn lemma_find_row(rows: Seq<Row>, key: KeyView)
    ensures
        match find_row(rows, key) {
            Some(i) => 0 <= i < rows.len() && rows[i].0 == key,
            None => forall|i: int| 0 <= i < rows.len() ==> (#[trigger] rows[i]).0 != key,
        },
    decreases rows.len(),
{
    if rows.len() > 0 && rows.last().0 != key {
        lemma_find_row(rows.drop_last(), key);
        assert forall|i: int| 0 <= i < rows.len() && find_row(rows, key) is None implies (
        #[trigger] rows[i]).0 != key by {
            if i < rows.len() - 1 {
                assert(rows.drop_last()[i] == rows[i]);
            }
        }
    }
}

pub proof fn lemma_find_row_at(rows: Seq<Row>, i: int)
    requires
        distinct_rows(rows),
        0 <= i < rows.len(),
    ensures
        find_row(rows, rows[i].0) == Some(i),
{
    lemma_find_row(rows, rows[i].0);
    match find_row(rows, rows[i].0) {
        Some(j) => {
            if j < i {
                assert(rows[j].0 != rows[i].0);
            }
            if i < j {
                assert(rows[i].0 != rows[j].0);
            }
        },
        None => {},
    }
}

/// Counting after one row has changed.
pub proof fn lemma_state_count_update(rows: Seq<Row>, i: int, row: Row, state: NodeState)
    requires
        0 <= i < rows.len(),
    ensures
        state_count(rows.update(i, row), state) == state_count(rows, state) - (
        if rows[i].1.state == state {
            1int
        } else {
            0int
        }) + (if row.1.state == state {
            1int
        } else {
            0int
        }),
        rows[i].1.state == state ==> state_count(rows, state) >= 1,
    decreases rows.len(),
{
    let up = rows.update(i, row);
    if i == rows.len() - 1 {
        assert(up.drop_last() =~= rows.drop_last());
    } else {
        lemma_state_count_update(rows.drop_last(), i, row, state);
        assert(up.drop_last() =~= rows.drop_last().update(i, row));
        assert(up.last() == rows.last());
    }
}

/// Counting after one row has been added.
pub proof fn lemma_state_count_push(rows: Seq<Row>, row: Row, state: NodeState)
    ensures
        state_count(rows.push(row), state) == state_count(rows, state) + if row.1.state == state {
            1nat
        } else {
            0nat
        },
{
    assert(rows.push(row).drop_last() =~= rows);
}

pub proof fn lemma_state_count_bound(rows: Seq<Row>, a: NodeState, b: NodeState)
    ensures
        state_count(rows, a) <= rows.len(),
        a != b ==> state_count(rows, a) + state_count(rows, b) <= rows.len(),
    decreases rows.len(),
{
    if rows.len() > 0 {
        lemma_state_count_bound(rows.drop_last(), a, b);
    }
}

// ---------------------------------------------------------------------------
// What the operations do
// ---------------------------------------------------------------------------

/// The decision from a frontier upsert.
#[derive(Debug, Clone, Copy, PartialEq, Eq, Structural)]
pub enum FrontierOutcome {
    /// Freshly queued (new or lifted from stale); caller must enqueue.
    Enqueue,
    /// Already known in a live state; do nothing.
    Known,
    /// New address that failed the freshness filter (StaleDiscarded).
    StaleNew,
    /// Was StaleDiscarded and still stale; do nothing.
    StillStale,
    /// Crawl-wide unique-address budget exhausted; claim was not inserted.
    BudgetRejected,
}

/// What came of observing a seed.
#[derive(Debug, Clone, Copy, PartialEq, Eq, Structural)]
pub struct SeedOutcome {
    pub newly_queued: bool,
}

/// The later of two times.
pub open spec fn later(a: i64, b: i64) -> i64 {
    if a < b {
        b
    } else {
        a
    }
}

/// Whether a last-seen time fails the freshness filter; a threshold of zero or less turns
/// the filter off.
pub open spec fn is_stale(ts: i64, freshness_threshold: i64, now: i64) -> bool {
    freshness_threshold > 0 && ts < now - freshness_threshold
}

impl StoreView {
    /// The store with the entry of row `i` replaced.
    pub open spec fn with_row(self, i: int, entry: EntryView) -> StoreView {
        StoreView { rows: self.rows.update(i, (self.rows[i].0, entry)), ..self }
    }

    /// The store with a row added.
    pub open spec fn with_new_row(self, key: KeyView, entry: EntryView) -> StoreView {
        StoreView { rows: self.rows.push((key, entry)), ..self }
    }

    /// The store with one more rejected claim.
    pub open spec fn with_rejection(self) -> StoreView {
        StoreView { budget_rejected: counter_plus(self.budget_rejected), ..self }
    }

    /// Observing a seed: a known address only has its time refreshed; a new one is queued,
    /// unless the budget is used up.
    pub open spec fn after_seed(self, key: KeyView, now: i64) -> (SeedOutcome, StoreView) {
        match find_row(self.rows, key) {
            Some(i) => {
                let e = self.rows[i].1;
                (
                    SeedOutcome { newly_queued: false },
                    self.with_row(i, EntryView { freshest_ts: later(e.freshest_ts, now), ..e }),
                )
            },
            None => if self.rows.len() >= self.max_entries {
                (SeedOutcome { newly_queued: false }, self.with_rejection())
            } else {
                (
                    SeedOutcome { newly_queued: true },
                    self.with_new_row(key, new_entry(network_of(key.0), now, NodeState::Queued)),
                )
            },
        }
    }

    /// Observing an advertised address: its time becomes the latest seen. A new address is
    /// queued, or filed as stale, unless the budget is used up; a stale one that is fresh
    /// by now is queued; any other is left alone.
    pub open spec fn after_frontier(
        self,
        key: KeyView,
        observed_ts: i64,
        network: NetworkType,
        freshness_threshold: i64,
        now: i64,
    ) -> (FrontierOutcome, StoreView) {
        match find_row(self.rows, key) {
            Some(i) => {
                let e = self.rows[i].1;
                let seen = EntryView { freshest_ts: later(e.freshest_ts, observed_ts), ..e };
                if e.state != NodeState::StaleDiscarded {
                    (FrontierOutcome::Known, self.with_row(i, seen))
                } else if is_stale(seen.freshest_ts, freshness_threshold, now) {
                    (FrontierOutcome::StillStale, self.with_row(i, seen))
                } else {
                    (
                        FrontierOutcome::Enqueue,
                        self.with_row(i, EntryView { state: NodeState::Queued, ..seen }),
                    )
                }
            },
            None => if self.rows.len() >= self.max_entries {
                (FrontierOutcome::BudgetRejected, self.with_rejection())
            } else if is_stale(observed_ts, freshness_threshold, now) {
                (
                    FrontierOutcome::StaleNew,
                    self.with_new_row(
                        key,
                        new_entry(network, observed_ts, NodeState::StaleDiscarded),
                    ),
                )
            } else {
                (
                    FrontierOutcome::Enqueue,
                    self.with_new_row(key, new_entry(network, observed_ts, NodeState::Queued)),
                )
            },
        }
    }
}

// ---------------------------------------------------------------------------
// The index
// ---------------------------------------------------------------------------

/// The concurrent hash map of the `dashmap` crate.
#[verifier::external_type_specification]
#[verifier::external_body]
#[verifier::reject_recursive_types(K)]
#[verifier::reject_recursive_types(V)]
#[verifier::reject_recursive_types(S)]
pub struct ExDashMap<K, V, S>(dashmap::DashMap<K, V, S>);

/// What an index from addresses to positions holds.
pub uninterp spec fn index_entries(map: DashMap<(String, u16), usize>) -> Map<KeyView, usize>;

/// `dashmap::DashMap::new`: a map that holds nothing.
#[verifier::external_body]
fn index_new() -> (r: DashMap<(String, u16), usize>)
    ensures
        forall|k: KeyView| !(#[trigger] index_entries(r).contains_key(k)),
{
    DashMap::new()
}

/// `dashmap::DashMap::get`: the value stored under the key, copied out.
#[verifier::external_body]
fn index_get(map: &DashMap<(String, u16), usize>, key: &(String, u16)) -> (r: Option<usize>)
    ensures
        r == (if index_entries(*map).contains_key((key.0@, key.1)) {
            Some(index_entries(*map)[(key.0@, key.1)])
        } else {
            None
        }),
{
    map.get(key).map(|entry| *entry.value())
}

/// `dashmap::DashMap::insert`: the value is stored under the key; nothing else changes.
#[verifier::external_body]
fn index_insert(map: &mut DashMap<(String, u16), usize>, key: (String, u16), value: usize)
    ensures
        index_entries(*final(map)) == index_entries(*old(map)).insert((key.0@, key.1), value),
{
    map.insert(key, value);
}

// ---------------------------------------------------------------------------
// The store
// ---------------------------------------------------------------------------

/// The central node store: the entries, an index over their addresses, and the counter of
/// work that is queued or being processed.
pub struct NodeStore {
    index: DashMap<(String, u16), usize>,
    keys: Vec<AddrKey>,
    entries: Vec<NodeEntry>,
    outstanding: usize,
    max_entries: usize,
    budget_rejected: usize,
}

/// The rows of parallel runs of keys and entries.
spec fn zip_rows(keys: Seq<AddrKey>, entries: Seq<NodeEntry>) -> Seq<Row> {
    Seq::new(keys.len(), |i: int| (keys[i]@, entries[i]@))
}

impl View for NodeStore {
    type V = StoreView;

    closed spec fn view(&self) -> StoreView {
        StoreView {
            rows: zip_rows(self.keys@, self.entries@),
            outstanding: self.outstanding,
            max_entries: self.max_entries,
            budget_rejected: self.budget_rejected,
        }
    }
}

/// The rows of a list of keys with their entries.
pub open spec fn rows_of(list: Seq<(AddrKey, NodeEntry)>) -> Seq<Row> {
    Seq::new(list.len(), |i: int| (list[i].0@, list[i].1@))
}

impl NodeStore {
    /// Whether the index finds every entry under its key and nothing else, and the budget is
    /// kept.
    pub closed spec fn wf(&self) -> bool {
        &&& self.keys@.len() == self.entries@.len()
        &&& self.entries@.len() <= self.max_entries
        &&& forall|i: int|
            0 <= i < self.keys@.len() ==> index_entries(self.index).contains_key(
                (#[trigger] self.keys@[i])@,
            ) && index_entries(self.index)[self.keys@[i]@] == i
        &&& forall|k: KeyView| #[trigger]
            index_entries(self.index).contains_key(k) ==> 0 <= index_entries(self.index)[k]
                < self.keys@.len() && self.keys@[index_entries(self.index)[k] as int]@ == k
    }

    /// A well-formed store has one row per key, and no more rows than its budget.
    pub proof fn lemma_wf(&self)
        requires
            self.wf(),
        ensures
            distinct_rows(self@.rows),
            self@.rows.len() <= self@.max_entries,
    {
        let rows = self@.rows;
        assert forall|i: int, j: int| 0 <= i < j < rows.len() implies (#[trigger] rows[i]).0 != (
        #[trigger] rows[j]).0 by {
            assert(rows[i].0 == self.keys@[i]@);
            assert(rows[j].0 == self.keys@[j]@);
        }
    }

    /// Where the entry of a key stands.
    fn position(&self, key: &AddrKey) -> (r: Option<usize>)
        requires
            self.wf(),
        ensures
            match r {
                Some(i) => i < self.entries@.len() && find_row(self@.rows, key@) == Some(i as int)
                    && self.keys@[i as int]@ == key@,
                None => find_row(self@.rows, key@) is None && !index_entries(
                    self.index,
                ).contains_key(key@),
            },
    {
        let k: (String, u16) = (key.host.clone(), key.port);
        let r = index_get(&self.index, &k);
        proof {
            self.lemma_wf();
            lemma_find_row(self@.rows, key@);
            match r {
                Some(i) => {
                    assert(self@.rows[i as int].0 == self.keys@[i as int]@);
                    lemma_find_row_at(self@.rows, i as int);
                },
                None => {
                    if let Some(i) = find_row(self@.rows, key@) {
                        assert(self@.rows[i].0 == self.keys@[i]@);
                    }
                },
            }
        }
        r
    }

    pub fn new() -> (r: Self)
        ensures
            r.wf(),
            r@ == (StoreView {
                rows: Seq::empty(),
                outstanding: 0,
                max_entries: 1_000_000,
                budget_rejected: 0,
            }),
    {
        Self::with_limit(1_000_000)
    }

    /// An empty store that takes at most `max_entries` distinct addresses.
    pub fn with_limit(max_entries: usize) -> (r: Self)
        ensures
            r.wf(),
            r@ == (StoreView {
                rows: Seq::empty(),
                outstanding: 0,
                max_entries,
                budget_rejected: 0,
            }),
    {
        let r = NodeStore {
            index: index_new(),
            keys: Vec::new(),
            entries: Vec::new(),
            outstanding: 0,
            max_entries,
            budget_rejected: 0,
        };
        proof {
            assert(r@.rows =~= Seq::<Row>::empty());
        }
        r
    }

    /// How many distinct addresses are stored.
    pub fn len(&self) -> (r: usize)
        requires
            self.wf(),
        ensures
            r == self@.rows.len(),
    {
        self.entries.len()
    }

    pub fn is_empty(&self) -> (r: bool)
        requires
            self.wf(),
        ensures
            r == (self@.rows.len() == 0),
    {
        self.len() == 0
    }

    /// How many claims the budget has turned away.
    pub fn budget_rejected(&self) -> (r: usize)
        ensures
            r == self@.budget_rejected,
    {
        self.budget_rejected
    }

    pub fn outstanding(&self) -> (r: usize)
        ensures
            r == self@.outstanding,
    {
        self.outstanding
    }

    /// Counts an address that is about to become visible in a queue.
    pub fn incr_outstanding(&mut self)
        ensures
            final(self)@ == (StoreView {
                outstanding: counter_plus(old(self)@.outstanding),
                ..old(self)@
            }),
            old(self).wf() ==> final(self).wf(),
    {
        if self.outstanding == usize::MAX {
            self.outstanding = 0;
        } else {
            self.outstanding = self.outstanding + 1;
        }
    }

    /// Counts an address that has reached a terminal state. Returns the prior value (`== 1`
    /// means it just went to 0).
    pub fn decr_outstanding(&mut self) -> (r: usize)
        ensures
            r == old(self)@.outstanding,
            final(self)@ == (StoreView {
                outstanding: counter_minus(old(self)@.outstanding),
                ..old(self)@
            }),
            old(self).wf() ==> final(self).wf(),
    {
        let before = self.outstanding;
        if before == 0 {
            self.outstanding = usize::MAX;
        } else {
            self.outstanding = before - 1;
        }
        before
    }

    /// The entry of a key, for changing it in place.
    pub fn entry_mut(&mut self, key: &AddrKey) -> (r: Option<&mut NodeEntry>)
        requires
            old(self).wf(),
        ensures
            final(self).wf(),
            match r {
                Some(e) => find_row(old(self)@.rows, key@) matches Some(i) && e@ == old(
                    self,
                )@.rows[i].1 && final(self)@ == old(self)@.with_row(i, (*final(e))@),
                None => find_row(old(self)@.rows, key@) is None && final(self)@ == old(self)@,
            },
    {
        match self.position(key) {
            Some(i) => {
                proof {
                    assert forall|x: NodeEntry|
                        zip_rows(self.keys@, #[trigger] self.entries@.update(i as int, x))
                            == zip_rows(self.keys@, self.entries@).update(
                            i as int,
                            (self.keys@[i as int]@, x@),
                        ) by {
                        assert(zip_rows(self.keys@, self.entries@.update(i as int, x)) =~= zip_rows(
                            self.keys@,
                            self.entries@,
                        ).update(i as int, (self.keys@[i as int]@, x@)));
                    }
                }
                Some(&mut self.entries[i])
            },
            None => None,
        }
    }

    /// The entry of a key.
    pub fn entry(&self, key: &AddrKey) -> (r: Option<&NodeEntry>)
        requires
            self.wf(),
        ensures
            match r {
                Some(e) => find_row(self@.rows, key@) matches Some(i) && e@ == self@.rows[i].1,
                None => find_row(self@.rows, key@) is None,
            },
    {
        match self.position(key) {
            Some(i) => Some(&self.entries[i]),
            None => None,
        }
    }

    /// The network type that an address was stored with.
    pub fn network_of(&self, key: &AddrKey) -> (r: Option<NetworkType>)
        requires
            self.wf(),
        ensures
            match find_row(self@.rows, key@) {
                Some(i) => r == Some(self@.rows[i].1.network),
                None => r is None,
            },
    {
        match self.entry(key) {
            Some(e) => Some(e.network),
            None => None,
        }
    }

    /// Access an entry mutably.
    pub fn with_entry<R, F: FnOnce(&mut NodeEntry) -> R>(&mut self, key: &AddrKey, f: F) -> (r:
        Option<R>)
        requires
            old(self).wf(),
            forall|e: &mut NodeEntry| f.requires((e,)),
        ensures
            final(self).wf(),
            r is Some <==> find_row(old(self)@.rows, key@) is Some,
            r is None ==> final(self)@ == old(self)@,
            r is Some ==> exists|e: &mut NodeEntry| #[trigger]
                f.ensures((e,), r->Some_0) && (*e)@ == old(self)@.rows[find_row(
                    old(self)@.rows,
                    key@,
                )->Some_0].1 && final(self)@ == old(self)@.with_row(
                    find_row(old(self)@.rows, key@)->Some_0,
                    (*final(e))@,
                ),
    {
        match self.entry_mut(key) {
            Some(e) => {
                let ghost was = *e;
                let ghost last = *final(e);
                let out = f(e);
                proof {
                    assert(exists|x: &mut NodeEntry| #[trigger]
                        f.ensures((x,), out) && *x == was && *final(x) == last);
                }
                let r = Some(out);
                proof {
                    assert(r->Some_0 == out);
                    assert(exists|x: &mut NodeEntry| #[trigger]
                        f.ensures((x,), r->Some_0) && *x == was && *final(x) == last);
                }
                r
            },
            None => None,
        }
    }

    /// Every entry with its key, in the order in which they were created.
    pub fn snapshot(&self) -> (r: Vec<(AddrKey, NodeEntry)>)
        requires
            self.wf(),
        ensures
            rows_of(r@) == self@.rows,
    {
        let mut out: Vec<(AddrKey, NodeEntry)> = Vec::new();
        let mut i: usize = 0;
        while i < self.entries.len()
            invariant
                self.wf(),
                i <= self.entries@.len(),
                rows_of(out@) == self@.rows.take(i as int),
            decreases self.entries@.len() - i,
        {
            let ghost before = rows_of(out@);
            let k = self.keys[i].clone();
            let e = self.entries[i].clone();
            let ghost row = (k@, e@);
            out.push((k, e));
            i = i + 1;
            proof {
                assert(rows_of(out@) =~= before.push(row));
                assert(rows_of(out@) =~= self@.rows.take(i as int));
            }
        }
        proof {
            assert(self@.rows.take(i as int) =~= self@.rows);
        }
        out
    }

    /// Counts entries in a given state.
    pub fn count_state(&self, state: NodeState) -> (r: usize)
        requires
            self.wf(),
        ensures
            r == state_count(self@.rows, state),
    {
        let mut n: usize = 0;
        let mut i: usize = 0;
        while i < self.entries.len()
            invariant
                self.wf(),
                i <= self.entries@.len(),
                n <= i,
                n == state_count(self@.rows.take(i as int), state),
            decreases self.entries@.len() - i,
        {
            proof {
                let next = self@.rows.take(i + 1);
                assert(next.drop_last() =~= self@.rows.take(i as int));
                assert(next.last() == self@.rows[i as int]);
            }
            if self.entries[i].state == state {
                n = n + 1;
            }
            i = i + 1;
        }
        proof {
            assert(self@.rows.take(i as int) =~= self@.rows);
        }
        n
    }

    /// Takes a new address into the store, unless the budget is used up.
    fn reserve_entry(&mut self, key: AddrKey, entry: NodeEntry) -> (r: bool)
        requires
            old(self).wf(),
            find_row(old(self)@.rows, key@) is None,
            !index_entries(old(self).index).contains_key(key@),
        ensures
            final(self).wf(),
            r == (old(self)@.rows.len() < old(self)@.max_entries),
            final(self)@ == if r {
                old(self)@.with_new_row(key@, entry@)
            } else {
                old(self)@.with_rejection()
            },
    {
        if self.entries.len() >= self.max_entries {
            if self.budget_rejected == usize::MAX {
                self.budget_rejected = 0;
            } else {
                self.budget_rejected = self.budget_rejected + 1;
            }
            return false;
        }
        let at = self.entries.len();
        let ghost row = (key@, entry@);
        index_insert(&mut self.index, (key.host.clone(), key.port), at);
        self.keys.push(key);
        self.entries.push(entry);
        proof {
            assert(self@.rows =~= old(self)@.rows.push(row));
        }
        true
    }

    /// Observes a seed: a known address only has its time refreshed; a new one is queued,
    /// unless the budget is used up.
    pub fn observe_seed(&mut self, key: AddrKey, now: i64) -> (r: SeedOutcome)
        requires
            old(self).wf(),
        ensures
            final(self).wf(),
            (r, final(self)@) == old(self)@.after_seed(key@, now),
    {
        match self.position(&key) {
            Some(_) => {
                if let Some(e) = self.entry_mut(&key) {
                    if e.freshest_ts < now {
                        e.freshest_ts = now;
                    }
                }
                SeedOutcome { newly_queued: false }
            },
            None => {
                let network = classify(&key.host);
                let entry = NodeEntry::new(network, now, NodeState::Queued);
                let newly_queued = self.reserve_entry(key, entry);
                SeedOutcome { newly_queued }
            },
        }
    }

    /// Observes an advertised address and decides what becomes of it.
    pub fn frontier_upsert(
        &mut self,
        key: AddrKey,
        observed_ts: i64,
        network: NetworkType,
        freshness_threshold: i64,
        now: i64,
    ) -> (r: FrontierOutcome)
        requires
            old(self).wf(),
            freshness_threshold > 0 ==> now - freshness_threshold >= i64::MIN,
        ensures
            final(self).wf(),
            (r, final(self)@) == old(self)@.after_frontier(
                key@,
                observed_ts,
                network,
                freshness_threshold,
                now,
            ),
    {
        match self.position(&key) {
            Some(_) => {
                let mut outcome = FrontierOutcome::Known;
                if let Some(e) = self.entry_mut(&key) {
                    if e.freshest_ts < observed_ts {
                        e.freshest_ts = observed_ts;
                    }
                    if e.state == NodeState::StaleDiscarded {
                        if freshness_threshold > 0 && e.freshest_ts < now - freshness_threshold {
                            outcome = FrontierOutcome::StillStale;
                        } else {
                            e.state = NodeState::Queued;
                            outcome = FrontierOutcome::Enqueue;
                        }
                    }
                }
                outcome
            },
            None => {
                let stale = freshness_threshold > 0 && observed_ts < now - freshness_threshold;
                let state = if stale {
                    NodeState::StaleDiscarded
                } else {
                    NodeState::Queued
                };
                let entry = NodeEntry::new(network, observed_ts, state);
                if !self.reserve_entry(key, entry) {
                    FrontierOutcome::BudgetRejected
                } else if stale {
                    FrontierOutcome::StaleNew
                } else {
                    FrontierOutcome::Enqueue
                }
            },
        }
    }
}

impl Default for NodeStore {
    fn default() -> (r: NodeStore)
        ensures
            r.wf(),
            r@ == (StoreView {
                rows: Seq::empty(),
                outstanding: 0,
                max_entries: 1_000_000,
                budget_rejected: 0,
            }),
    {
        NodeStore::new()
    }
}

// ---------------------------------------------------------------------------
// Breakdowns
// ---------------------------------------------------------------------------

/// Per-network-type count breakdown.
#[derive(Debug, Clone, Copy, PartialEq, Eq, Structural)]
pub struct NetworkBreakdown {
    pub total: u64,
    pub unknown: u64,
    pub ipv4: u64,
    pub ipv6: u64,
    pub onion_v2: u64,
    pub onion_v3: u64,
    pub i2p: u64,
    pub cjdns: u64,
}

impl Default for NetworkBreakdown {
    fn default() -> (r: NetworkBreakdown)
        ensures
            r == no_breakdown(),
    {
        NetworkBreakdown {
            total: 0,
            unknown: 0,
            ipv4: 0,
            ipv6: 0,
            onion_v2: 0,
            onion_v3: 0,
            i2p: 0,
            cjdns: 0,
        }
    }
}

/// The breakdown of nothing.
pub open spec fn no_breakdown() -> NetworkBreakdown {
    NetworkBreakdown {
        total: 0,
        unknown: 0,
        ipv4: 0,
        ipv6: 0,
        onion_v2: 0,
        onion_v3: 0,
        i2p: 0,
        cjdns: 0,
    }
}

impl NetworkBreakdown {
    /// The count of one network.
    pub open spec fn count(self, net: NetworkType) -> u64 {
        match net {
            NetworkType::Ipv4 => self.ipv4,
            NetworkType::Ipv6 => self.ipv6,
            NetworkType::OnionV2 => self.onion_v2,
            NetworkType::OnionV3 => self.onion_v3,
            NetworkType::I2p => self.i2p,
            NetworkType::Cjdns => self.cjdns,
            NetworkType::Unknown => self.unknown,
        }
    }

    /// Whether the total is the sum over the networks.
    pub open spec fn balanced(self) -> bool {
        self.total == self.unknown + self.ipv4 + self.ipv6 + self.onion_v2 + self.onion_v3
            + self.i2p + self.cjdns
    }

    /// Counts one address of a network.
    pub fn add(&mut self, net: NetworkType)
        requires
            old(self).total < u64::MAX,
            old(self).count(net) < u64::MAX,
        ensures
            final(self).total == old(self).total + 1,
            forall|n: NetworkType| #[trigger]
                final(self).count(n) == old(self).count(n) + if n == net {
                    1int
                } else {
                    0int
                },
            old(self).balanced() ==> final(self).balanced(),
    {
        self.total = self.total + 1;
        match net {
            NetworkType::Ipv4 => {
                self.ipv4 = self.ipv4 + 1;
            },
            NetworkType::Ipv6 => {
                self.ipv6 = self.ipv6 + 1;
            },
            NetworkType::OnionV2 => {
                self.onion_v2 = self.onion_v2 + 1;
            },
            NetworkType::OnionV3 => {
                self.onion_v3 = self.onion_v3 + 1;
            },
            NetworkType::I2p => {
                self.i2p = self.i2p + 1;
            },
            NetworkType::Cjdns => {
                self.cjdns = self.cjdns + 1;
            },
            NetworkType::Unknown => {
                self.unknown = self.unknown + 1;
            },
        }
    }
}

} // verus!
