//! Bitcoin wire protocol: envelopes and the messages that the crawler reads and writes.
use vstd::prelude::*;
use vstd::utf8::{decode_utf8, encode_utf8, valid_utf8};
use crate::address::{onion_v3_bytes, onion_v3_digest, NetworkType};
use crate::encoding::{base32_lower, encode_base32_lower, sha256, sha256_digest};
use crate::io_error::{is_io_error, IoError, IoErrorKind};
use crate::ip::{dotted, format_ipv4, format_ipv6, ipv6_text, octet_groups};
use crate::text::{chars_of, decimal, digit_char, push_decimal};
use crate::wire::{
    be16_at, be16_bytes, compact_bytes, compact_canonical, le_at, le_bytes, pattern64, push_le,
    signed32, signed64, to_pattern64,
};
pub use crate::wire::{write_compact_size, Cursor};

verus! {

/// Mainnet network magic.
pub const MAGIC: [u8; 4] = [0xF9, 0xBE, 0xB4, 0xD9];

/// Bitcoin Core's exact maximum protocol payload size.
pub const MAX_PROTOCOL_MESSAGE_LENGTH: u32 = 4_000_000;

/// Bitcoin Core's `MAX_ADDR_TO_SEND`.
pub const MAX_ADDR_TO_SEND: usize = 1000;

/// Protocol version advertised by the crawler.
pub const PROTOCOL_VERSION: i32 = 70016;

/// User agent advertised by the crawler.
pub const USER_AGENT: &'static str = "/new-p2p-crawler:0.1.0/";

/// Bitcoin Core's maximum accepted subversion/user-agent string length.
pub const MAX_SUBVERSION_LENGTH: usize = 256;

// ---------------------------------------------------------------------------
// Envelope
// ---------------------------------------------------------------------------

/// The envelope checksum: the first four bytes of the double SHA-256.
pub open spec fn checksum_of(payload: Seq<u8>) -> Seq<u8> {
    let second = sha256_digest(sha256_digest(payload));
    seq![second[0], second[1], second[2], second[3]]
}

/// Double-SHA256, returning the first 4 bytes (the envelope checksum).
pub fn checksum(payload: &[u8]) -> (r: [u8; 4])
    ensures
        r@ == checksum_of(payload@),
{
    let first = sha256(payload);
    let second = sha256(&first);
    let r = [second[0], second[1], second[2], second[3]];
    proof {
        assert(r@ =~= checksum_of(payload@));
    }
    r
}

/// A command that can be sent: one to twelve printable ASCII characters.
pub open spec fn is_command(command: Seq<char>) -> bool {
    1 <= command.len() <= 12 && forall|i: int|
        0 <= i < command.len() ==> ' ' <= #[trigger] command[i] <= '~'
}

/// The twelve-byte command field: the characters, then NUL padding.
pub open spec fn command_field(command: Seq<char>) -> Seq<u8> {
    Seq::new(
        12,
        |i: int|
            if i < command.len() {
                command[i] as u8
            } else {
                0u8
            },
    )
}

/// A whole message: magic, command field, payload length, checksum, payload.
pub open spec fn frame_bytes(command: Seq<char>, payload: Seq<u8>) -> Seq<u8> {
    MAGIC@ + command_field(command) + le_bytes(payload.len(), 4) + checksum_of(payload) + payload
}

/// Serializes a full message envelope (header and payload) for `command`.
pub fn frame(command: &str, payload: &[u8]) -> (r: Result<Vec<u8>, IoError>)
    ensures
        match r {
            Ok(out) => is_command(command@) && payload@.len() <= MAX_PROTOCOL_MESSAGE_LENGTH
                && out@ == frame_bytes(command@, payload@),
            Err(e) => if !is_command(command@) {
                is_io_error(
                    e,
                    IoErrorKind::InvalidInput,
                    "command must be 1..=12 printable ASCII bytes"@,
                )
            } else if payload@.len() > u32::MAX {
                is_io_error(e, IoErrorKind::InvalidInput, "payload too large"@)
            } else {
                payload@.len() > MAX_PROTOCOL_MESSAGE_LENGTH && is_io_error(
                    e,
                    IoErrorKind::InvalidInput,
                    "payload exceeds protocol limit"@,
                )
            },
        },
{
    match validate_command(command) {
        Ok(()) => {},
        Err(e) => {
            return Err(e);
        },
    }
    if payload.len() as u64 > 0xFFFF_FFFF {
        return Err(IoError::new(IoErrorKind::InvalidInput, "payload too large"));
    }
    if payload.len() as u64 > MAX_PROTOCOL_MESSAGE_LENGTH as u64 {
        return Err(IoError::new(IoErrorKind::InvalidInput, "payload exceeds protocol limit"));
    }
    let mut out: Vec<u8> = Vec::new();
    out.extend_from_slice(&MAGIC);
    push_command_field(&mut out, command);
    push_le(&mut out, payload.len() as u64, 4);
    out.extend_from_slice(&checksum(payload));
    out.extend_from_slice(payload);
    proof {
        assert(out@ =~= frame_bytes(command@, payload@));
    }
    Ok(out)
}

/// Appends the NUL-padded command field.
fn push_command_field(out: &mut Vec<u8>, command: &str)
    requires
        is_command(command@),
    ensures
        final(out)@ == old(out)@ + command_field(command@),
{
    let chars = chars_of(command);
    let mut i: usize = 0;
    let ghost start = out@;
    while i < 12
        invariant
            i <= 12,
            chars@ == command@,
            is_command(command@),
            out@ == start + command_field(command@).take(i as int),
        decreases 12 - i,
    {
        if i < chars.len() {
            assert(' ' <= command@[i as int] <= '~');
            out.push(chars[i] as u8);
        } else {
            out.push(0);
        }
        i = i + 1;
        proof {
            assert(out@ =~= start + command_field(command@).take(i as int));
        }
    }
    proof {
        assert(command_field(command@).take(12) =~= command_field(command@));
    }
}

fn validate_command(command: &str) -> (r: Result<(), IoError>)
    ensures
        r is Ok <==> is_command(command@),
        r matches Err(e) ==> is_io_error(
            e,
            IoErrorKind::InvalidInput,
            "command must be 1..=12 printable ASCII bytes"@,
        ),
{
    let chars = chars_of(command);
    let mut ok = chars.len() >= 1 && chars.len() <= 12;
    let mut i: usize = 0;
    while i < chars.len()
        invariant
            i <= chars@.len(),
            chars@ == command@,
            ok <==> 1 <= command@.len() <= 12 && forall|j: int|
                0 <= j < i ==> ' ' <= #[trigger] command@[j] <= '~',
        decreases chars@.len() - i,
    {
        let c = chars[i];
        assert(c == command@[i as int]);
        if c < ' ' || c > '~' {
            ok = false;
        }
        i = i + 1;
    }
    if ok {
        Ok(())
    } else {
        Err(
            IoError::new(
                IoErrorKind::InvalidInput,
                "command must be 1..=12 printable ASCII bytes",
            ),
        )
    }
}

// ---------------------------------------------------------------------------
// version message
// ---------------------------------------------------------------------------

/// Fields retained from a peer's `version` message.
#[derive(Debug, Clone)]
pub struct VersionData {
    pub version: i32,
    pub services: u64,
    pub timestamp: i64,
    pub user_agent: String,
    pub latest_block: i32,
    pub relay: bool,
    pub addr_recv: VersionNetAddr,
    pub addr_from: Option<VersionNetAddr>,
    pub nonce: Option<u64>,
}

/// A legacy network address claimed inside a peer's `version` message.
#[derive(Debug, Clone)]
pub struct VersionNetAddr {
    pub services: u64,
    pub host: String,
    pub port: u16,
}

/// What a [`VersionNetAddr`] holds.
pub struct VersionNetAddrView {
    pub services: u64,
    pub host: Seq<char>,
    pub port: u16,
}

/// What a [`VersionData`] holds.
pub struct VersionView {
    pub version: i32,
    pub services: u64,
    pub timestamp: i64,
    pub user_agent: Seq<char>,
    pub latest_block: i32,
    pub relay: bool,
    pub addr_recv: VersionNetAddrView,
    pub addr_from: Option<VersionNetAddrView>,
    pub nonce: Option<u64>,
}

impl View for VersionNetAddr {
    type V = VersionNetAddrView;

    open spec fn view(&self) -> VersionNetAddrView {
        VersionNetAddrView { services: self.services, host: self.host@, port: self.port }
    }
}

impl View for VersionData {
    type V = VersionView;

    open spec fn view(&self) -> VersionView {
        VersionView {
            version: self.version,
            services: self.services,
            timestamp: self.timestamp,
            user_agent: self.user_agent@,
            latest_block: self.latest_block,
            relay: self.relay,
            addr_recv: self.addr_recv@,
            addr_from: match self.addr_from {
                Some(a) => Some(a@),
                None => None,
            },
            nonce: self.nonce,
        }
    }
}

/// The unspecified address `::ffff:0.0.0.0` without services and port.
pub open spec fn zero_netaddr_bytes() -> Seq<u8> {
    le_bytes(0, 8) + seq![0, 0, 0, 0, 0, 0, 0, 0, 0, 0, 0xFFu8, 0xFFu8, 0, 0, 0, 0] + be16_bytes(0)
}

/// The fixed-width fields at the front of the crawler's own `version` payload.
pub open spec fn version_head(timestamp: i64, nonce: u64) -> Seq<u8> {
    le_bytes(PROTOCOL_VERSION as nat, 4) + le_bytes(0, 8) + le_bytes(pattern64(timestamp), 8)
        + zero_netaddr_bytes() + zero_netaddr_bytes() + le_bytes(nonce as nat, 8)
}

/// The user agent, start height and relay flag of the crawler's own `version` payload.
pub open spec fn version_tail() -> Seq<u8> {
    compact_bytes(encode_utf8(USER_AGENT@).len() as u64) + (encode_utf8(USER_AGENT@) + le_bytes(
        0,
        4,
    ) + seq![0u8])
}

/// The crawler's own `version` payload.
pub open spec fn version_bytes(timestamp: i64, nonce: u64) -> Seq<u8> {
    version_head(timestamp, nonce) + version_tail()
}

/// Serializes the crawler's own `version` payload.
pub fn build_version(timestamp: i64, nonce: u64) -> (r: Vec<u8>)
    ensures
        r@ == version_bytes(timestamp, nonce),
{
    let mut out: Vec<u8> = Vec::new();
    push_le(&mut out, PROTOCOL_VERSION as u64, 4);
    push_le(&mut out, 0, 8);
    push_le(&mut out, to_pattern64(timestamp), 8);
    write_zero_netaddr(&mut out);
    write_zero_netaddr(&mut out);
    push_le(&mut out, nonce, 8);
    let agent = USER_AGENT.as_bytes();
    write_compact_size(&mut out, agent.len() as u64);
    out.extend_from_slice(agent);
    push_le(&mut out, 0, 4);
    out.push(0x00);
    proof {
        assert(out@ =~= version_bytes(timestamp, nonce));
    }
    out
}

fn write_zero_netaddr(out: &mut Vec<u8>)
    ensures
        final(out)@ == old(out)@ + zero_netaddr_bytes(),
{
    push_le(out, 0, 8);
    let ip: [u8; 16] = [0, 0, 0, 0, 0, 0, 0, 0, 0, 0, 0xFF, 0xFF, 0, 0, 0, 0];
    out.extend_from_slice(&ip);
    out.push(0);
    out.push(0);
    proof {
        assert(out@ =~= old(out)@ + zero_netaddr_bytes());
    }
}

/// Whether sixteen octets are an IPv4 address mapped into IPv6.
pub open spec fn is_mapped_octets(o: Seq<u8>) -> bool {
    (forall|i: int| 0 <= i < 10 ==> #[trigger] o[i] == 0) && o[10] == 0xff && o[11] == 0xff
}

/// The host and network of a sixteen-octet legacy address field.
pub open spec fn legacy_host(o: Seq<u8>) -> (Seq<char>, NetworkType) {
    if is_mapped_octets(o) {
        (dotted(o.skip(12)), NetworkType::Ipv4)
    } else {
        (ipv6_text(octet_groups(o)), NetworkType::Ipv6)
    }
}

/// The address field at `at` of a `version` payload.
pub open spec fn netaddr_at(p: Seq<u8>, at: int) -> VersionNetAddrView {
    VersionNetAddrView {
        services: le_at(p, at, 8) as u64,
        host: legacy_host(p.subrange(at + 8, at + 24)).0,
        port: be16_at(p, at + 24),
    }
}

/// Two lowercase hexadecimal digits for each byte.
pub open spec fn hex_text(b: Seq<u8>) -> Seq<char> {
    Seq::new(
        2 * b.len(),
        |i: int|
            digit_char(
                if i % 2 == 0 {
                    b[i / 2] as int / 16
                } else {
                    b[i / 2] as int % 16
                },
            ),
    )
}

/// A user agent as text: UTF-8 where it is that, hexadecimal otherwise.
pub open spec fn agent_text(b: Seq<u8>) -> Seq<char> {
    if valid_utf8(b) {
        decode_utf8(b)
    } else {
        hex_text(b)
    }
}

/// What a `version` payload says, or `None` where it is cut short or its user agent is too
/// long or its length not in minimal form. Before version 106 the message ends after the
/// first address; a missing relay byte counts as set.
pub open spec fn version_of(p: Seq<u8>) -> Option<VersionView> {
    let version = signed32(le_at(p, 0, 4));
    let base = VersionView {
        version,
        services: le_at(p, 4, 8) as u64,
        timestamp: signed64(le_at(p, 12, 8)),
        user_agent: Seq::empty(),
        latest_block: 0,
        relay: true,
        addr_recv: netaddr_at(p, 20),
        addr_from: None,
        nonce: None,
    };
    if p.len() < 46 {
        None
    } else if version < 106 {
        Some(base)
    } else if p.len() < 80 {
        None
    } else {
        match compact_canonical(p.skip(80)) {
            Some((n, rest)) => if n > MAX_SUBVERSION_LENGTH || rest.len() < n + 4 {
                None
            } else {
                Some(
                    VersionView {
                        addr_from: Some(netaddr_at(p, 46)),
                        nonce: Some(le_at(p, 72, 8) as u64),
                        user_agent: agent_text(rest.take(n as int)),
                        latest_block: signed32(le_at(rest, n as int, 4)),
                        relay: !(version >= 70001 && rest.len() > n + 4 && rest[n + 4] == 0),
                        ..base
                    },
                )
            },
            None => None,
        }
    }
}

/// `std::str::from_utf8`: the text that the bytes encode, where they are valid UTF-8.
#[verifier::external_body]
fn utf8_text(bytes: &[u8]) -> (r: Option<String>)
    ensures
        r is Some <==> valid_utf8(bytes@),
        r matches Some(s) ==> s@ == decode_utf8(bytes@),
{
    std::str::from_utf8(bytes).ok().map(str::to_owned)
}

/// Parses a peer's `version` payload.
#[verifier::rlimit(40)]
pub fn parse_version(payload: &[u8]) -> (r: Option<VersionData>)
    ensures
        match r {
            Some(v) => version_of(payload@) == Some(v@),
            None => version_of(payload@) is None,
        },
{
    let mut c = Cursor::new(payload);
    let ghost p = payload@;
    let version = match c.i32_le() {
        Some(v) => v,
        None => {
            return None;
        },
    };
    let services = match c.u64_le() {
        Some(v) => v,
        None => {
            return None;
        },
    };
    proof {
        assert(p.skip(4).subrange(0, 8) =~= p.subrange(4, 12));
        assert(p.skip(4).skip(8) =~= p.skip(12));
    }
    let timestamp = match c.i64_le() {
        Some(v) => v,
        None => {
            return None;
        },
    };
    proof {
        assert(p.skip(12).subrange(0, 8) =~= p.subrange(12, 20));
        assert(p.skip(12).skip(8) =~= p.skip(20));
    }
    let addr_recv = match parse_version_netaddr(&mut c) {
        Some(a) => a,
        None => {
            return None;
        },
    };
    proof {
        lemma_netaddr_shift(p, 20);
    }
    if version < 106 {
        let user_agent: String = String::new();
        proof {
            assert(user_agent@ =~= Seq::<char>::empty());
        }
        return Some(
            VersionData {
                version,
                services,
                timestamp,
                user_agent,
                latest_block: 0,
                relay: true,
                addr_recv,
                addr_from: None,
                nonce: None,
            },
        );
    }
    let addr_from = match parse_version_netaddr(&mut c) {
        Some(a) => a,
        None => {
            return None;
        },
    };
    proof {
        lemma_netaddr_shift(p, 46);
    }
    let nonce = match c.u64_le() {
        Some(v) => v,
        None => {
            return None;
        },
    };
    proof {
        assert(p.skip(72).subrange(0, 8) =~= p.subrange(72, 80));
        assert(p.skip(72).skip(8) =~= p.skip(80));
    }
    let ua_len = match c.compact_size_canonical() {
        Some(n) => n,
        None => {
            return None;
        },
    };
    if ua_len > MAX_SUBVERSION_LENGTH as u64 {
        return None;
    }
    let ghost rest = c@;
    let ua_bytes = match c.take(ua_len as usize) {
        Some(b) => b,
        None => {
            return None;
        },
    };
    let user_agent = match utf8_text(ua_bytes) {
        Some(s) => s,
        None => hex(ua_bytes),
    };
    let latest_block = match c.i32_le() {
        Some(v) => v,
        None => {
            return None;
        },
    };
    proof {
        let n = ua_len as int;
        assert(rest.skip(n).subrange(0, 4) =~= rest.subrange(n, n + 4));
        assert(rest.skip(n).skip(4) =~= rest.skip(n + 4));
    }
    let mut relay = true;
    if version >= 70001 {
        if let Some(byte) = c.u8() {
            relay = byte != 0;
        }
    }
    Some(
        VersionData {
            version,
            services,
            timestamp,
            user_agent,
            latest_block,
            relay,
            addr_recv,
            addr_from: Some(addr_from),
            nonce: Some(nonce),
        },
    )
}

proof fn lemma_netaddr_shift(p: Seq<u8>, at: int)
    requires
        0 <= at,
        at + 26 <= p.len(),
    ensures
        netaddr_at(p.skip(at), 0) == netaddr_at(p, at),
        p.skip(at).skip(26) == p.skip(at + 26),
{
    let q = p.skip(at);
    assert(q.subrange(0, 8) =~= p.subrange(at, at + 8));
    assert(q.subrange(8, 24) =~= p.subrange(at + 8, at + 24));
    assert(q.skip(26) =~= p.skip(at + 26));
}

fn parse_version_netaddr(c: &mut Cursor<'_>) -> (r: Option<VersionNetAddr>)
    ensures
        r is Some <==> old(c)@.len() >= 26,
        r matches Some(a) ==> a@ == netaddr_at(old(c)@, 0) && final(c)@ == old(c)@.skip(26),
{
    let ghost p = c@;
    let services = match c.u64_le() {
        Some(v) => v,
        None => {
            return None;
        },
    };
    let ip = match c.take(16) {
        Some(b) => b,
        None => {
            return None;
        },
    };
    proof {
        assert(ip@ =~= p.subrange(8, 24));
        assert(p.skip(8).skip(16) =~= p.skip(24));
    }
    let port = match c.u16_be() {
        Some(v) => v,
        None => {
            return None;
        },
    };
    proof {
        assert(p.skip(24).skip(2) =~= p.skip(26));
    }
    let (host, _network) = decode_legacy_ip(ip);
    Some(VersionNetAddr { services, host, port })
}

/// Bytes in lowercase hexadecimal.
pub fn hex(bytes: &[u8]) -> (r: String)
    ensures
        r@ == hex_text(bytes@),
{
    let mut out: String = String::new();
    let mut i: usize = 0;
    while i < bytes.len()
        invariant
            i <= bytes@.len(),
            out@ == hex_text(bytes@).take(2 * i),
        decreases bytes@.len() - i,
    {
        let b = bytes[i];
        out.push(hex_digit(b / 16));
        out.push(hex_digit(b % 16));
        i = i + 1;
        proof {
            let t = hex_text(bytes@);
            assert((2 * (i - 1)) / 2 == i - 1 && (2 * (i - 1)) % 2 == 0);
            assert((2 * (i - 1) + 1) / 2 == i - 1 && (2 * (i - 1) + 1) % 2 == 1);
            assert(out@ =~= t.take(2 * i));
        }
    }
    proof {
        assert(hex_text(bytes@).take(2 * i) =~= hex_text(bytes@));
    }
    out
}

fn hex_digit(d: u8) -> (c: char)
    requires
        d < 16,
    ensures
        c == digit_char(d as int),
{
    if d < 10 {
        (48 + d) as char
    } else {
        (87 + d) as char
    }
}

// ---------------------------------------------------------------------------
// addr / addrv2
// ---------------------------------------------------------------------------

/// A single advertised address from an `addr`/`addrv2` response.
#[derive(Debug, Clone)]
pub struct AdvertisedAddr {
    pub host: String,
    pub port: u16,
    pub network: NetworkType,
    /// Literal last-seen timestamp from the response, zero-extended.
    pub timestamp: i64,
    pub services: u64,
    pub wire_network_id: u8,
}

/// A whole `addr`/`addrv2` response.
#[derive(Debug, Clone)]
pub struct ParsedAddrMessage {
    pub declared_count: u64,
    pub addrs: Vec<AdvertisedAddr>,
    pub unknown_entries: u64,
}

/// Why an `addr`/`addrv2` payload was refused.
#[derive(Debug, Clone, Copy, PartialEq, Eq, Structural)]
pub enum AddrParseError {
    NonCanonicalOrTruncated,
    TooMany(u64),
    WrongLength { network_id: u8, length: usize },
    InvalidNetworkEncoding(u8),
    TrailingBytes(usize),
}

/// What an [`AdvertisedAddr`] holds.
pub struct AddrView {
    pub host: Seq<char>,
    pub port: u16,
    pub network: NetworkType,
    pub timestamp: i64,
    pub services: u64,
    pub wire_network_id: u8,
}

/// What a [`ParsedAddrMessage`] holds.
pub struct AddrMessageView {
    pub declared_count: u64,
    pub addrs: Seq<AddrView>,
    pub unknown_entries: u64,
}

impl View for AdvertisedAddr {
    type V = AddrView;

    open spec fn view(&self) -> AddrView {
        AddrView {
            host: self.host@,
            port: self.port,
            network: self.network,
            timestamp: self.timestamp,
            services: self.services,
            wire_network_id: self.wire_network_id,
        }
    }
}

/// The contents of a run of addresses.
pub open spec fn addr_views(addrs: Seq<AdvertisedAddr>) -> Seq<AddrView> {
    Seq::new(addrs.len(), |i: int| addrs[i]@)
}

impl View for ParsedAddrMessage {
    type V = AddrMessageView;

    open spec fn view(&self) -> AddrMessageView {
        AddrMessageView {
            declared_count: self.declared_count,
            addrs: addr_views(self.addrs@),
            unknown_entries: self.unknown_entries,
        }
    }
}

/// The message of a refusal.
pub open spec fn addr_error_text(e: AddrParseError) -> Seq<char> {
    match e {
        AddrParseError::NonCanonicalOrTruncated => "non-canonical or truncated address message"@,
        AddrParseError::TooMany(n) => "declared address count "@ + decimal(n as nat)
            + " exceeds "@ + decimal(MAX_ADDR_TO_SEND as nat),
        AddrParseError::WrongLength { network_id, length } => "wrong length "@ + decimal(
            length as nat,
        ) + " for BIP155 network "@ + decimal(network_id as nat),
        AddrParseError::InvalidNetworkEncoding(id) => "invalid encoding for BIP155 network "@
            + decimal(id as nat),
        AddrParseError::TrailingBytes(n) => decimal(n as nat)
            + " trailing bytes after address vector"@,
    }
}

impl AddrParseError {
    /// The refusal in words.
    pub fn message(&self) -> (r: String)
        ensures
            r@ == addr_error_text(*self),
    {
        let mut out: String = String::new();
        match self {
            AddrParseError::NonCanonicalOrTruncated => {
                out.push_str("non-canonical or truncated address message");
            },
            AddrParseError::TooMany(n) => {
                out.push_str("declared address count ");
                push_decimal(&mut out, *n);
                out.push_str(" exceeds ");
                push_decimal(&mut out, MAX_ADDR_TO_SEND as u64);
            },
            AddrParseError::WrongLength { network_id, length } => {
                out.push_str("wrong length ");
                push_decimal(&mut out, *length as u64);
                out.push_str(" for BIP155 network ");
                push_decimal(&mut out, *network_id as u64);
            },
            AddrParseError::InvalidNetworkEncoding(id) => {
                out.push_str("invalid encoding for BIP155 network ");
                push_decimal(&mut out, *id as u64);
            },
            AddrParseError::TrailingBytes(n) => {
                push_decimal(&mut out, *n as u64);
                out.push_str(" trailing bytes after address vector");
            },
        }
        proof {
            assert(out@ =~= addr_error_text(*self));
        }
        out
    }
}

/// The thirty-byte legacy address record at `at`.
pub open spec fn legacy_entry(s: Seq<u8>, at: int) -> AddrView {
    let (host, network) = legacy_host(s.subrange(at + 12, at + 28));
    AddrView {
        host,
        port: be16_at(s, at + 28),
        network,
        timestamp: le_at(s, at, 4) as i64,
        services: le_at(s, at + 4, 8) as u64,
        wire_network_id: 2,
    }
}

/// What a legacy `addr` payload holds: a count in minimal form of at most a thousand, that
/// many thirty-byte records, and nothing more.
pub open spec fn addr_message_of(p: Seq<u8>) -> Result<AddrMessageView, AddrParseError> {
    match compact_canonical(p) {
        None => Err(AddrParseError::NonCanonicalOrTruncated),
        Some((n, rest)) => if n > MAX_ADDR_TO_SEND {
            Err(AddrParseError::TooMany(n))
        } else if rest.len() < 30 * n {
            Err(AddrParseError::NonCanonicalOrTruncated)
        } else if rest.len() > 30 * n {
            Err(AddrParseError::TrailingBytes((rest.len() - 30 * n) as usize))
        } else {
            Ok(
                AddrMessageView {
                    declared_count: n,
                    addrs: Seq::new(n as nat, |i: int| legacy_entry(rest, 30 * i)),
                    unknown_entries: 0,
                },
            )
        },
    }
}

/// Parses a legacy `addr` payload atomically. No prefix is returned on error.
pub fn parse_addr(payload: &[u8]) -> (r: Result<ParsedAddrMessage, AddrParseError>)
    ensures
        match r {
            Ok(m) => addr_message_of(payload@) == Ok::<AddrMessageView, AddrParseError>(m@),
            Err(e) => addr_message_of(payload@) == Err::<AddrMessageView, AddrParseError>(e),
        },
{
    let mut c = Cursor::new(payload);
    let count = match c.compact_size_canonical() {
        Some(n) => n,
        None => {
            return Err(AddrParseError::NonCanonicalOrTruncated);
        },
    };
    match check_addr_count(count) {
        Ok(()) => {},
        Err(e) => {
            return Err(e);
        },
    }
    let ghost rest = c@;
    let mut out: Vec<AdvertisedAddr> = Vec::new();
    let mut i: u64 = 0;
    proof {
        assert(rest.skip(0) =~= rest);
    }
    while i < count
        invariant
            i <= count <= 1000,
            rest.len() >= 30 * i,
            c@ == rest.skip(30 * i),
            compact_canonical(payload@) == Some((count, rest)),
            addr_views(out@) == Seq::new(i as nat, |k: int| legacy_entry(rest, 30 * k)),
        decreases count - i,
    {
        match parse_legacy_entry(&mut c) {
            Some(a) => {
                let ghost before = addr_views(out@);
                proof {
                    lemma_legacy_entry_shift(rest, 30 * i);
                }
                out.push(a);
                proof {
                    assert(addr_views(out@) =~= before.push(a@));
                    assert(addr_views(out@) =~= Seq::new(
                        (i + 1) as nat,
                        |k: int| legacy_entry(rest, 30 * k),
                    ));
                }
            },
            None => {
                return Err(AddrParseError::NonCanonicalOrTruncated);
            },
        }
        i = i + 1;
    }
    finish_addr_parse(c, count, out, 0)
}

proof fn lemma_legacy_entry_shift(s: Seq<u8>, at: int)
    requires
        0 <= at,
        at + 30 <= s.len(),
    ensures
        legacy_entry(s.skip(at), 0) == legacy_entry(s, at),
        s.skip(at).skip(30) == s.skip(at + 30),
{
    let q = s.skip(at);
    assert(q.subrange(0, 4) =~= s.subrange(at, at + 4));
    assert(q.subrange(4, 12) =~= s.subrange(at + 4, at + 12));
    assert(q.subrange(12, 28) =~= s.subrange(at + 12, at + 28));
    assert(q.skip(30) =~= s.skip(at + 30));
}

/// Reads one thirty-byte legacy record.
fn parse_legacy_entry(c: &mut Cursor<'_>) -> (r: Option<AdvertisedAddr>)
    ensures
        r is Some <==> old(c)@.len() >= 30,
        r matches Some(a) ==> a@ == legacy_entry(old(c)@, 0) && final(c)@ == old(c)@.skip(30),
{
    let ghost s = c@;
    let ts = match c.u32_le() {
        Some(v) => v,
        None => {
            return None;
        },
    };
    let services = match c.u64_le() {
        Some(v) => v,
        None => {
            return None;
        },
    };
    proof {
        assert(s.skip(4).subrange(0, 8) =~= s.subrange(4, 12));
        assert(s.skip(4).skip(8) =~= s.skip(12));
    }
    let ip = match c.take(16) {
        Some(b) => b,
        None => {
            return None;
        },
    };
    proof {
        assert(ip@ =~= s.subrange(12, 28));
        assert(s.skip(12).skip(16) =~= s.skip(28));
    }
    let port = match c.u16_be() {
        Some(v) => v,
        None => {
            return None;
        },
    };
    proof {
        assert(s.skip(28).skip(2) =~= s.skip(30));
    }
    let (host, network) = decode_legacy_ip(ip);
    Some(
        AdvertisedAddr { host, port, network, timestamp: ts as i64, services, wire_network_id: 2 },
    )
}

fn check_addr_count(count: u64) -> (r: Result<(), AddrParseError>)
    ensures
        r == if count > MAX_ADDR_TO_SEND {
            Err::<(), AddrParseError>(AddrParseError::TooMany(count))
        } else {
            Ok(())
        },
{
    if count > MAX_ADDR_TO_SEND as u64 {
        Err(AddrParseError::TooMany(count))
    } else {
        Ok(())
    }
}

/// Accepts the entries that were read where nothing is left behind them.
fn finish_addr_parse(
    c: Cursor<'_>,
    count: u64,
    addrs: Vec<AdvertisedAddr>,
    unknown_entries: u64,
) -> (r: Result<ParsedAddrMessage, AddrParseError>)
    ensures
        match r {
            Ok(m) => c@.len() == 0 && m == (ParsedAddrMessage {
                declared_count: count,
                addrs,
                unknown_entries,
            }),
            Err(e) => c@.len() != 0 && e == AddrParseError::TrailingBytes(c@.len() as usize),
        },
{
    let left = c.remaining();
    if left != 0 {
        return Err(AddrParseError::TrailingBytes(left));
    }
    Ok(ParsedAddrMessage { declared_count: count, addrs, unknown_entries })
}

/// Decodes a 16-byte IPv6 field, collapsing IPv4-mapped to dotted quad.
pub fn decode_legacy_ip(arr: &[u8]) -> (r: (String, NetworkType))
    requires
        arr@.len() == 16,
    ensures
        (r.0@, r.1) == legacy_host(arr@),
{
    if ipv4_mapped(arr) {
        let quad = &arr[12..16];
        proof {
            assert(quad@ =~= arr@.skip(12));
        }
        (format_ipv4(quad), NetworkType::Ipv4)
    } else {
        (format_ipv6(arr), NetworkType::Ipv6)
    }
}

/// Whether sixteen octets are an IPv4 address mapped into IPv6.
fn ipv4_mapped(o: &[u8]) -> (r: bool)
    requires
        o@.len() == 16,
    ensures
        r == is_mapped_octets(o@),
{
    let mut i: usize = 0;
    while i < 10
        invariant
            i <= 10,
            o@.len() == 16,
            forall|j: int| 0 <= j < i ==> #[trigger] o@[j] == 0,
        decreases 10 - i,
    {
        if o[i] != 0 {
            return false;
        }
        i = i + 1;
    }
    o[10] == 0xff && o[11] == 0xff
}

// ---------------------------------------------------------------------------
// addrv2
// ---------------------------------------------------------------------------

/// The address length of each network of BIP155, or `None` for an unknown network.
pub open spec fn bip155_length(network_id: u8) -> Option<nat> {
    if network_id == 1 {
        Some(4)
    } else if network_id == 2 || network_id == 6 {
        Some(16)
    } else if network_id == 3 {
        Some(10)
    } else if network_id == 4 || network_id == 5 {
        Some(32)
    } else {
        None
    }
}

/// The host and network of a BIP155 address, `None` for a network that is not known. An
/// IPv6 address may be neither mapped IPv4 nor CJDNS, and a CJDNS address starts with `fc`.
pub open spec fn bip155_host(network_id: u8, b: Seq<u8>) -> Result<
    Option<(Seq<char>, NetworkType)>,
    AddrParseError,
> {
    if network_id == 1 {
        Ok(Some((dotted(b.take(4)), NetworkType::Ipv4)))
    } else if network_id == 2 {
        if is_mapped_octets(b) || b[0] == 0xfc {
            Err(AddrParseError::InvalidNetworkEncoding(network_id))
        } else {
            Ok(Some((ipv6_text(octet_groups(b)), NetworkType::Ipv6)))
        }
    } else if network_id == 3 {
        Ok(Some((base32_lower(b) + ".onion"@, NetworkType::OnionV2)))
    } else if network_id == 4 {
        if b.len() == 32 {
            Ok(Some((base32_lower(onion_v3_bytes(b)) + ".onion"@, NetworkType::OnionV3)))
        } else {
            Err(AddrParseError::InvalidNetworkEncoding(network_id))
        }
    } else if network_id == 5 {
        Ok(Some((base32_lower(b) + ".b32.i2p"@, NetworkType::I2p)))
    } else if network_id == 6 {
        if b[0] != 0xfc {
            Err(AddrParseError::InvalidNetworkEncoding(network_id))
        } else {
            Ok(Some((ipv6_text(octet_groups(b)), NetworkType::Cjdns)))
        }
    } else {
        Ok(None)
    }
}

/// Decodes a BIP155 address of the given network.
pub fn decode_addrv2(net_id: u8, bytes: &[u8]) -> (r: Result<
    Option<(String, NetworkType)>,
    AddrParseError,
>)
    requires
        net_id == 1 ==> bytes@.len() >= 4,
        net_id == 2 || net_id == 6 ==> bytes@.len() == 16,
        net_id == 3 || net_id == 5 ==> bytes@.len() <= usize::MAX / 512,
    ensures
        match r {
            Ok(Some((host, network))) => bip155_host(net_id, bytes@) == Ok::<
                Option<(Seq<char>, NetworkType)>,
                AddrParseError,
            >(Some((host@, network))),
            Ok(None) => bip155_host(net_id, bytes@) == Ok::<
                Option<(Seq<char>, NetworkType)>,
                AddrParseError,
            >(None),
            Err(e) => bip155_host(net_id, bytes@) == Err::<
                Option<(Seq<char>, NetworkType)>,
                AddrParseError,
            >(e),
        },
{
    if net_id == 1 {
        let quad = &bytes[0..4];
        proof {
            assert(quad@ =~= bytes@.take(4));
        }
        Ok(Some((format_ipv4(quad), NetworkType::Ipv4)))
    } else if net_id == 2 {
        if ipv4_mapped(bytes) || bytes[0] == 0xfc {
            return Err(AddrParseError::InvalidNetworkEncoding(net_id));
        }
        Ok(Some((format_ipv6(bytes), NetworkType::Ipv6)))
    } else if net_id == 3 {
        let mut host = encode_base32_lower(bytes);
        host.push_str(".onion");
        Ok(Some((host, NetworkType::OnionV2)))
    } else if net_id == 4 {
        match encode_onion_v3(bytes) {
            Some(host) => Ok(Some((host, NetworkType::OnionV3))),
            None => Err(AddrParseError::InvalidNetworkEncoding(net_id)),
        }
    } else if net_id == 5 {
        let mut host = encode_base32_lower(bytes);
        host.push_str(".b32.i2p");
        Ok(Some((host, NetworkType::I2p)))
    } else if net_id == 6 {
        if bytes[0] != 0xfc {
            return Err(AddrParseError::InvalidNetworkEncoding(net_id));
        }
        Ok(Some((format_ipv6(bytes), NetworkType::Cjdns)))
    } else {
        Ok(None)
    }
}

/// Encodes a torv3 ed25519 public key into its `.onion` address.
pub fn encode_onion_v3(pubkey: &[u8]) -> (r: Option<String>)
    ensures
        r is Some <==> pubkey@.len() == 32,
        r matches Some(host) ==> host@ == base32_lower(onion_v3_bytes(pubkey@)) + ".onion"@,
{
    if pubkey.len() != 32 {
        return None;
    }
    let digest = onion_v3_digest(pubkey);
    let mut data: Vec<u8> = Vec::new();
    data.extend_from_slice(pubkey);
    data.push(digest[0]);
    data.push(digest[1]);
    data.push(0x03);
    proof {
        assert(data@ =~= onion_v3_bytes(pubkey@));
    }
    let mut host = encode_base32_lower(&data);
    host.push_str(".onion");
    Some(host)
}

/// The `addrv2` record at the front of `s`, `None` for one of an unknown network, and what
/// follows it.
pub open spec fn addrv2_entry(s: Seq<u8>) -> Result<(Option<AddrView>, Seq<u8>), AddrParseError> {
    if s.len() < 4 {
        truncated_entry()
    } else {
        match compact_canonical(s.skip(4)) {
            None => truncated_entry(),
            Some((services, r1)) => if r1.len() == 0 {
                truncated_entry()
            } else {
                match compact_canonical(r1.skip(1)) {
                    None => truncated_entry(),
                    Some((length, r2)) => addrv2_body(
                        le_at(s, 0, 4) as i64,
                        services,
                        r1[0],
                        length,
                        r2,
                    ),
                }
            },
        }
    }
}

/// The refusal of a record that is cut short.
pub open spec fn truncated_entry() -> Result<(Option<AddrView>, Seq<u8>), AddrParseError> {
    Err(AddrParseError::NonCanonicalOrTruncated)
}

/// The record whose address and port stand at the front of `s`.
pub open spec fn addrv2_body(
    timestamp: i64,
    services: u64,
    network_id: u8,
    length: u64,
    s: Seq<u8>,
) -> Result<(Option<AddrView>, Seq<u8>), AddrParseError> {
    if length > usize::MAX {
        truncated_entry()
    } else if length > 512 || (bip155_length(network_id) matches Some(n) && n != length) {
        Err(AddrParseError::WrongLength { network_id, length: length as usize })
    } else if s.len() < length + 2 {
        truncated_entry()
    } else {
        match bip155_host(network_id, s.take(length as int)) {
            Err(e) => Err(e),
            Ok(None) => Ok((None, s.skip(length + 2))),
            Ok(Some((host, network))) => Ok(
                (
                    Some(
                        AddrView {
                            host,
                            port: be16_at(s, length as int),
                            network,
                            timestamp,
                            services,
                            wire_network_id: network_id,
                        },
                    ),
                    s.skip(length + 2),
                ),
            ),
        }
    }
}

/// The first `k` records of `s`: the known ones, how many were unknown, and what follows.
pub open spec fn addrv2_entries(s: Seq<u8>, k: nat) -> Result<
    (Seq<AddrView>, nat, Seq<u8>),
    AddrParseError,
>
    decreases k,
{
    if k == 0 {
        Ok((Seq::empty(), 0, s))
    } else {
        match addrv2_entries(s, (k - 1) as nat) {
            Err(e) => Err(e),
            Ok((addrs, unknown, rest)) => match addrv2_entry(rest) {
                Err(e) => Err(e),
                Ok((Some(a), next)) => Ok((addrs.push(a), unknown, next)),
                Ok((None, next)) => Ok((addrs, unknown + 1, next)),
            },
        }
    }
}

/// What an `addrv2` payload holds: a count in minimal form of at most a thousand, that many
/// records, and nothing more. Records of unknown networks are read over and counted.
pub open spec fn addrv2_message_of(p: Seq<u8>) -> Result<AddrMessageView, AddrParseError> {
    match compact_canonical(p) {
        None => Err(AddrParseError::NonCanonicalOrTruncated),
        Some((n, rest)) => if n > MAX_ADDR_TO_SEND {
            Err(AddrParseError::TooMany(n))
        } else {
            match addrv2_entries(rest, n as nat) {
                Err(e) => Err(e),
                Ok((addrs, unknown, left)) => if left.len() > 0 {
                    Err(AddrParseError::TrailingBytes(left.len() as usize))
                } else {
                    Ok(
                        AddrMessageView {
                            declared_count: n,
                            addrs,
                            unknown_entries: unknown as u64,
                        },
                    )
                },
            }
        },
    }
}

proof fn lemma_entries_error_stays(s: Seq<u8>, j: nat, k: nat)
    requires
        j <= k,
        addrv2_entries(s, j) is Err,
    ensures
        addrv2_entries(s, k) == addrv2_entries(s, j),
    decreases k - j,
{
    if j < k {
        lemma_entries_error_stays(s, j, (k - 1) as nat);
    }
}

/// Parses BIP155 atomically. Unknown future ids are consumed and skipped.
pub fn parse_addrv2(payload: &[u8]) -> (r: Result<ParsedAddrMessage, AddrParseError>)
    ensures
        match r {
            Ok(m) => addrv2_message_of(payload@) == Ok::<AddrMessageView, AddrParseError>(m@),
            Err(e) => addrv2_message_of(payload@) == Err::<AddrMessageView, AddrParseError>(e),
        },
{
    let mut c = Cursor::new(payload);
    let count = match c.compact_size_canonical() {
        Some(n) => n,
        None => {
            return Err(AddrParseError::NonCanonicalOrTruncated);
        },
    };
    match check_addr_count(count) {
        Ok(()) => {},
        Err(e) => {
            return Err(e);
        },
    }
    let ghost rest = c@;
    let mut out: Vec<AdvertisedAddr> = Vec::new();
    let mut unknown_entries: u64 = 0;
    let mut i: u64 = 0;
    proof {
        assert(addr_views(out@) =~= Seq::<AddrView>::empty());
    }
    while i < count
        invariant
            i <= count <= 1000,
            compact_canonical(payload@) == Some((count, rest)),
            addrv2_entries(rest, i as nat) == Ok::<(Seq<AddrView>, nat, Seq<u8>), AddrParseError>(
                (addr_views(out@), unknown_entries as nat, c@),
            ),
            unknown_entries <= i,
        decreases count - i,
    {
        let ghost before = addr_views(out@);
        match parse_addrv2_entry(&mut c) {
            Ok(Some(a)) => {
                out.push(a);
                proof {
                    assert(addr_views(out@) =~= before.push(a@));
                }
            },
            Ok(None) => {
                unknown_entries = unknown_entries + 1;
            },
            Err(e) => {
                proof {
                    lemma_entries_error_stays(rest, (i + 1) as nat, count as nat);
                }
                return Err(e);
            },
        }
        i = i + 1;
    }
    finish_addr_parse(c, count, out, unknown_entries)
}

/// Reads one `addrv2` record.
fn parse_addrv2_entry(c: &mut Cursor<'_>) -> (r: Result<Option<AdvertisedAddr>, AddrParseError>)
    ensures
        match r {
            Ok(Some(a)) => addrv2_entry(old(c)@) == Ok::<
                (Option<AddrView>, Seq<u8>),
                AddrParseError,
            >((Some(a@), final(c)@)),
            Ok(None) => addrv2_entry(old(c)@) == Ok::<
                (Option<AddrView>, Seq<u8>),
                AddrParseError,
            >((None, final(c)@)),
            Err(e) => addrv2_entry(old(c)@) == Err::<
                (Option<AddrView>, Seq<u8>),
                AddrParseError,
            >(e),
        },
{
    let ts = match c.u32_le() {
        Some(v) => v,
        None => {
            return Err(AddrParseError::NonCanonicalOrTruncated);
        },
    };
    let services = match c.compact_size_canonical() {
        Some(v) => v,
        None => {
            return Err(AddrParseError::NonCanonicalOrTruncated);
        },
    };
    let net_id = match c.u8() {
        Some(v) => v,
        None => {
            return Err(AddrParseError::NonCanonicalOrTruncated);
        },
    };
    let addr_len_u64 = match c.compact_size_canonical() {
        Some(v) => v,
        None => {
            return Err(AddrParseError::NonCanonicalOrTruncated);
        },
    };
    if addr_len_u64 > usize::MAX as u64 {
        return Err(AddrParseError::NonCanonicalOrTruncated);
    }
    let addr_len = addr_len_u64 as usize;
    if addr_len > 512 {
        return Err(AddrParseError::WrongLength { network_id: net_id, length: addr_len });
    }
    let expected: usize = match net_id {
        1 => 4,
        2 => 16,
        3 => 10,
        4 => 32,
        5 => 32,
        6 => 16,
        _ => addr_len,
    };
    if addr_len != expected {
        return Err(AddrParseError::WrongLength { network_id: net_id, length: addr_len });
    }
    let ghost body = c@;
    let addr_bytes = match c.take(addr_len) {
        Some(b) => b,
        None => {
            return Err(AddrParseError::NonCanonicalOrTruncated);
        },
    };
    let port = match c.u16_be() {
        Some(v) => v,
        None => {
            return Err(AddrParseError::NonCanonicalOrTruncated);
        },
    };
    proof {
        assert(body.skip(addr_len as int).skip(2) =~= body.skip(addr_len + 2));
    }
    match decode_addrv2(net_id, addr_bytes) {
        Ok(Some((host, network))) => Ok(
            Some(
                AdvertisedAddr {
                    host,
                    port,
                    network,
                    timestamp: ts as i64,
                    services,
                    wire_network_id: net_id,
                },
            ),
        ),
        Ok(None) => Ok(None),
        Err(e) => Err(e),
    }
}

} // verus!
