//! Laws of the messages a peer sends: what is written field by field is read back field by
//! field.
use vstd::prelude::*;
use vstd::utf8::{decode_utf8, valid_utf8};
use crate::address::NetworkType;
use crate::encoding::{base32_lower, sha3_256_digest};
use crate::ip::{dotted, ipv6_text, octet_groups};
use crate::protocol::{
    addr_message_of, addrv2_body, addrv2_entries, addrv2_entry, addrv2_message_of, bip155_host,
    hex_text, legacy_entry, version_of, AddrMessageView, AddrParseError, AddrView,
};
use crate::text::decimal;
use crate::wire::{
    be16_at, compact_bytes, compact_canonical, law_compact_size_round_trip, law_le_round_trip,
    le_at, le_bytes, lemma_le_bytes_len, lemma_powers_of_256,
};

verus! {

// ---------------------------------------------------------------------------
// Addresses
// ---------------------------------------------------------------------------

/// A port, most significant byte first.
pub open spec fn port_bytes(port: u16) -> Seq<u8> {
    seq![(port / 256) as u8, (port % 256) as u8]
}

/// Whether sixteen octets hold an IPv4 address behind ten zeros and two full octets.
pub open spec fn holds_ipv4(o: Seq<u8>) -> bool {
    o.take(12) == seq![0u8, 0, 0, 0, 0, 0, 0, 0, 0, 0, 0xff, 0xff]
}

/// A dotted quad shows its four octets in order, in decimal, between dots.
pub proof fn law_dotted_quad_shows_its_octets(o: Seq<u8>)
    requires
        o.len() == 4,
    ensures
        dotted(o) == decimal(o[0] as nat) + seq!['.'] + decimal(o[1] as nat) + seq!['.'] + decimal(
            o[2] as nat,
        ) + seq!['.'] + decimal(o[3] as nat),
{
    let f = crate::ip::octet_fields(o);
    assert(f.len() == 4);
    assert(f.drop_last().len() == 3 && f.drop_last().drop_last().len() == 2);
    assert(f.drop_last().drop_last().drop_last().len() == 1);
    assert(f.drop_last().drop_last().drop_last()[0] == decimal(o[0] as nat));
    reveal_with_fuel(crate::text::join, 5);
    assert(dotted(o) =~= decimal(o[0] as nat) + seq!['.'] + decimal(o[1] as nat) + seq!['.']
        + decimal(o[2] as nat) + seq!['.'] + decimal(o[3] as nat));
}

/// The groups of an IPv6 address are its octets in pairs, the first of a pair weighing more.
pub proof fn law_groups_pair_the_octets(o: Seq<u8>, i: int)
    requires
        o.len() == 16,
        0 <= i < 8,
    ensures
        octet_groups(o).len() == 8,
        octet_groups(o)[i] == o[2 * i] * 256 + o[2 * i + 1],
{
}

// ---------------------------------------------------------------------------
// addr
// ---------------------------------------------------------------------------

/// What a peer says of an address in an `addr` message.
pub struct LegacyRecord {
    pub timestamp: u32,
    pub services: u64,
    pub octets: Seq<u8>,
    pub port: u16,
}

impl LegacyRecord {
    /// The record as it is sent: time, services, address and port.
    pub open spec fn bytes(self) -> Seq<u8> {
        le_bytes(self.timestamp as nat, 4) + le_bytes(self.services as nat, 8) + self.octets
            + port_bytes(self.port)
    }

    /// Whether an address that was read is the one that was sent.
    pub open spec fn is_read_as(self, a: AddrView) -> bool {
        &&& a.timestamp == self.timestamp
        &&& a.services == self.services
        &&& a.port == self.port
        &&& a.wire_network_id == 2
        &&& if holds_ipv4(self.octets) {
            a.network == NetworkType::Ipv4 && a.host == dotted(self.octets.skip(12))
        } else {
            a.network == NetworkType::Ipv6 && a.host == ipv6_text(octet_groups(self.octets))
        }
    }
}

/// Records one after the other.
pub open spec fn legacy_bytes(records: Seq<LegacyRecord>) -> Seq<u8>
    decreases records.len(),
{
    if records.len() == 0 {
        Seq::empty()
    } else {
        legacy_bytes(records.drop_last()) + records.last().bytes()
    }
}

proof fn lemma_legacy_record(r: LegacyRecord, s: Seq<u8>, at: int)
    requires
        r.octets.len() == 16,
        0 <= at,
        at + 30 <= s.len(),
        s.subrange(at, at + 30) == r.bytes(),
    ensures
        r.is_read_as(legacy_entry(s, at)),
{
    let b = r.bytes();
    lemma_powers_of_256();
    law_le_round_trip(r.timestamp as nat, 4);
    law_le_round_trip(r.services as nat, 8);
    assert(b.len() == 30);
    assert(b.subrange(0, 4) =~= le_bytes(r.timestamp as nat, 4));
    assert(b.subrange(4, 12) =~= le_bytes(r.services as nat, 8));
    assert(b.subrange(12, 28) =~= r.octets);
    assert(s.subrange(at, at + 4) =~= b.subrange(0, 4));
    assert(s.subrange(at + 4, at + 12) =~= b.subrange(4, 12));
    assert(s.subrange(at + 12, at + 28) =~= b.subrange(12, 28));
    assert(s[at + 28] == b[28]);
    assert(s[at + 29] == b[29]);
    lemma_holds_ipv4(r.octets);
}

proof fn lemma_legacy_bytes(records: Seq<LegacyRecord>, i: int)
    requires
        forall|k: int| 0 <= k < records.len() ==> (#[trigger] records[k]).octets.len() == 16,
    ensures
        legacy_bytes(records).len() == 30 * records.len(),
        0 <= i < records.len() ==> legacy_bytes(records).subrange(30 * i, 30 * i + 30)
            == records[i].bytes(),
    decreases records.len(),
{
    if records.len() > 0 {
        let front = records.drop_last();
        assert forall|k: int| 0 <= k < front.len() implies (#[trigger] front[k]).octets.len()
            == 16 by {
            assert(front[k] == records[k]);
        }
        lemma_legacy_bytes(front, i);
        let last = records.last();
        lemma_le_bytes_len(last.timestamp as nat, 4);
        lemma_le_bytes_len(last.services as nat, 8);
        assert(last == records[records.len() - 1]);
        assert(last.bytes().len() == 30);
        if 0 <= i < front.len() {
            assert(legacy_bytes(records).subrange(30 * i, 30 * i + 30) =~= legacy_bytes(
                front,
            ).subrange(30 * i, 30 * i + 30));
            assert(front[i] == records[i]);
        } else if i == front.len() {
            assert(legacy_bytes(records).subrange(30 * i, 30 * i + 30) =~= last.bytes());
        }
    }
}

/// Whatever records a peer sends in an `addr` message, up to a thousand, are read as they were
/// sent, all of them and in order.
pub proof fn law_addr_records_are_read_as_sent(records: Seq<LegacyRecord>)
    requires
        records.len() <= 1000,
        forall|k: int| 0 <= k < records.len() ==> (#[trigger] records[k]).octets.len() == 16,
    ensures
        addr_message_of(compact_bytes(records.len() as u64) + legacy_bytes(records)) matches Ok(m)
            && m.declared_count == records.len() && m.unknown_entries == 0 && m.addrs.len()
            == records.len() && forall|k: int|
            0 <= k < records.len() ==> records[k].is_read_as(#[trigger] m.addrs[k]),
{
    let s = legacy_bytes(records);
    law_compact_size_round_trip(records.len() as u64, s);
    lemma_legacy_bytes(records, 0);
    let m = addr_message_of(compact_bytes(records.len() as u64) + s)->Ok_0;
    assert forall|k: int| 0 <= k < records.len() implies records[k].is_read_as(
        #[trigger] m.addrs[k],
    ) by {
        lemma_legacy_bytes(records, k);
        lemma_legacy_record(records[k], s, 30 * k);
        assert(m.addrs[k] == legacy_entry(s, 30 * k));
    }
}

// ---------------------------------------------------------------------------
// addrv2
// ---------------------------------------------------------------------------

/// What a peer says of an address in an `addrv2` message.
pub struct Record {
    pub timestamp: u32,
    pub services: u64,
    pub network_id: u8,
    pub address: Seq<u8>,
    pub port: u16,
}

/// The bytes of a version 3 onion address: the key, two bytes of the digest that checks it, and
/// the version.
pub open spec fn onion_v3_of(key: Seq<u8>) -> Seq<u8> {
    let checked = seq![
        0x2eu8, 0x6f, 0x6e, 0x69, 0x6f, 0x6e, 0x20, 0x63, 0x68, 0x65, 0x63, 0x6b, 0x73, 0x75, 0x6d,
    ] + key + seq![3u8];
    let digest = sha3_256_digest(checked);
    key + seq![digest[0], digest[1], 3u8]
}

impl Record {
    /// Everything of the record that stands before its address.
    pub open spec fn head(self) -> Seq<u8> {
        le_bytes(self.timestamp as nat, 4) + compact_bytes(self.services) + seq![self.network_id]
            + compact_bytes(self.address.len() as u64)
    }

    /// The record as it is sent.
    pub open spec fn bytes(self) -> Seq<u8> {
        self.head() + self.address + port_bytes(self.port)
    }

    /// Whether the network is one of the six that have a number.
    pub open spec fn is_known(self) -> bool {
        1 <= self.network_id <= 6
    }

    /// How long an address of the network is.
    pub open spec fn proper_length(self) -> int {
        if self.network_id == 1 {
            4
        } else if self.network_id == 3 {
            10
        } else if self.network_id == 2 || self.network_id == 6 {
            16
        } else {
            32
        }
    }

    /// Whether the address can be one of its network: IPv6 may hold neither IPv4 nor CJDNS,
    /// CJDNS begins with `fc`, and one of an unknown network has at most 512 bytes.
    pub open spec fn is_proper(self) -> bool {
        if self.is_known() {
            &&& self.address.len() == self.proper_length()
            &&& self.network_id == 2 ==> !holds_ipv4(self.address) && self.address[0] != 0xfc
            &&& self.network_id == 6 ==> self.address[0] == 0xfc
        } else {
            self.address.len() <= 512
        }
    }

    /// Whether an address that was read is the one that was sent.
    pub open spec fn is_read_as(self, a: AddrView) -> bool {
        &&& a.timestamp == self.timestamp
        &&& a.services == self.services
        &&& a.port == self.port
        &&& a.wire_network_id == self.network_id
        &&& self.is_named(a.host, a.network)
    }

    /// Whether a host and network are those of the address.
    pub open spec fn is_named(self, host: Seq<char>, network: NetworkType) -> bool {
        let b = self.address;
        &&& self.network_id == 1 ==> network == NetworkType::Ipv4 && host == dotted(b)
        &&& self.network_id == 2 ==> network == NetworkType::Ipv6 && host == ipv6_text(
            octet_groups(b),
        )
        &&& self.network_id == 3 ==> network == NetworkType::OnionV2 && host == base32_lower(b)
            + ".onion"@
        &&& self.network_id == 4 ==> network == NetworkType::OnionV3 && host == base32_lower(
            onion_v3_of(b),
        ) + ".onion"@
        &&& self.network_id == 5 ==> network == NetworkType::I2p && host == base32_lower(b)
            + ".b32.i2p"@
        &&& self.network_id == 6 ==> network == NetworkType::Cjdns && host == ipv6_text(
            octet_groups(b),
        )
    }
}

/// The first fields of a record, before anything of the address is looked at.
proof fn lemma_record_head(r: Record, rest: Seq<u8>)
    requires
        r.address.len() <= u64::MAX,
    ensures
        ({
            let s = r.head() + rest;
            &&& s.len() >= 4
            &&& le_at(s, 0, 4) == r.timestamp
            &&& compact_canonical(s.skip(4)) matches Some((services, r1)) && services == r.services
                && r1.len() > 0 && r1[0] == r.network_id && compact_canonical(r1.skip(1)) == Some(
                (r.address.len() as u64, rest),
            )
        }),
{
    let s = r.head() + rest;
    lemma_powers_of_256();
    law_le_round_trip(r.timestamp as nat, 4);
    let length = compact_bytes(r.address.len() as u64);
    let r1 = seq![r.network_id] + length + rest;
    law_compact_size_round_trip(r.services, r1);
    law_compact_size_round_trip(r.address.len() as u64, rest);
    assert(s.subrange(0, 4) =~= le_bytes(r.timestamp as nat, 4));
    assert(s.skip(4) =~= compact_bytes(r.services) + r1);
    assert(r1.skip(1) =~= length + rest);
}

/// How the address of a record is decoded.
proof fn lemma_host(r: Record)
    requires
        r.is_known() ==> r.address.len() == r.proper_length(),
    ensures
        crate::protocol::bip155_length(r.network_id) == (if r.is_known() {
            Some(r.proper_length() as nat)
        } else {
            None
        }),
        match bip155_host(r.network_id, r.address) {
            Ok(Some((host, network))) => r.is_known() && r.is_proper() && r.is_named(host, network),
            Ok(None) => !r.is_known(),
            Err(e) => r.is_known() && !r.is_proper() && e == AddrParseError::InvalidNetworkEncoding(
                r.network_id,
            ),
        },
{
    let o = r.address;
    if r.network_id == 1 {
        assert(o.take(4) =~= o);
    } else if r.network_id == 2 {
        lemma_holds_ipv4(o);
    } else if r.network_id == 4 {
        lemma_onion_v3(o);
    }
}

pub proof fn lemma_holds_ipv4(o: Seq<u8>)
    requires
        o.len() == 16,
    ensures
        crate::protocol::is_mapped_octets(o) <==> holds_ipv4(o),
{
    let mapped = seq![0u8, 0, 0, 0, 0, 0, 0, 0, 0, 0, 0xff, 0xff];
    if holds_ipv4(o) {
        assert forall|i: int| 0 <= i < 12 implies o[i] == mapped[i] by {
            assert(o.take(12)[i] == o[i]);
        }
        assert(crate::protocol::is_mapped_octets(o));
    } else if crate::protocol::is_mapped_octets(o) {
        assert(o.take(12) =~= mapped);
    }
}

/// A record is judged by its fields.
proof fn lemma_record_body(r: Record, rest: Seq<u8>)
    requires
        r.address.len() <= u64::MAX,
    ensures
        addrv2_entry(r.bytes() + rest) == addrv2_body(
            r.timestamp as i64,
            r.services,
            r.network_id,
            r.address.len() as u64,
            r.address + port_bytes(r.port) + rest,
        ),
{
    let tail = r.address + port_bytes(r.port) + rest;
    assert(r.bytes() + rest =~= r.head() + tail);
    lemma_record_head(r, tail);
}

proof fn lemma_proper_record(r: Record, rest: Seq<u8>)
    requires
        r.is_proper(),
    ensures
        addrv2_entry(r.bytes() + rest) matches Ok((a, left)) && left == rest && (a is Some
            <==> r.is_known()) && (r.is_known() ==> r.is_read_as(a->Some_0)),
{
    let tail = r.address + port_bytes(r.port) + rest;
    lemma_record_body(r, rest);
    lemma_host(r);
    let n = r.address.len() as int;
    assert(tail.take(n) =~= r.address);
    assert(tail.skip(n + 2) =~= rest);
    assert(tail[n] == port_bytes(r.port)[0]);
    assert(tail[n + 1] == port_bytes(r.port)[1]);
    assert(be16_at(tail, n) == r.port);
}

/// A record that cannot be one of its network is refused, whatever follows.
proof fn lemma_improper_record(r: Record, rest: Seq<u8>)
    requires
        !r.is_proper(),
        r.address.len() <= usize::MAX,
        r.address.len() <= u64::MAX,
    ensures
        addrv2_entry(r.bytes() + rest) == Err::<(Option<AddrView>, Seq<u8>), AddrParseError>(
            if r.address.len() > 512 || (r.is_known() && r.address.len() != r.proper_length()) {
                AddrParseError::WrongLength {
                    network_id: r.network_id,
                    length: r.address.len() as usize,
                }
            } else {
                AddrParseError::InvalidNetworkEncoding(r.network_id)
            },
        ),
{
    let tail = r.address + port_bytes(r.port) + rest;
    lemma_record_body(r, rest);
    assert(tail.take(r.address.len() as int) =~= r.address);
    if r.is_known() && r.address.len() == r.proper_length() {
        lemma_host(r);
    }
}

pub proof fn lemma_onion_v3(key: Seq<u8>)
    ensures
        crate::address::onion_v3_bytes(key) == onion_v3_of(key),
{
    let checked = seq![
        0x2eu8, 0x6f, 0x6e, 0x69, 0x6f, 0x6e, 0x20, 0x63, 0x68, 0x65, 0x63, 0x6b, 0x73, 0x75, 0x6d,
    ] + key + seq![3u8];
    assert(crate::address::onion_v3_message(key) =~= checked);
    assert(crate::address::onion_v3_bytes(key) =~= onion_v3_of(key));
}

/// Records one after the other.
pub open spec fn record_bytes(records: Seq<Record>) -> Seq<u8>
    decreases records.len(),
{
    if records.len() == 0 {
        Seq::empty()
    } else {
        record_bytes(records.drop_last()) + records.last().bytes()
    }
}

/// The records of known networks, in order.
pub open spec fn known_records(records: Seq<Record>) -> Seq<Record> {
    records.filter(|r: Record| r.is_known())
}

/// Whether addresses that were read are the known ones of the records that were sent.
pub open spec fn are_read_as(records: Seq<Record>, addrs: Seq<AddrView>) -> bool {
    &&& addrs.len() == known_records(records).len()
    &&& forall|k: int|
        0 <= k < addrs.len() ==> known_records(records)[k].is_read_as(#[trigger] addrs[k])
}

proof fn lemma_proper_records(records: Seq<Record>, rest: Seq<u8>)
    requires
        forall|k: int| 0 <= k < records.len() ==> (#[trigger] records[k]).is_proper(),
    ensures
        addrv2_entries(record_bytes(records) + rest, records.len()) matches Ok(
            (addrs, unknown, left),
        ) && left == rest && are_read_as(records, addrs) && unknown == records.len()
            - addrs.len(),
    decreases records.len(),
{
    reveal(Seq::filter);
    if records.len() == 0 {
        assert(record_bytes(records) + rest =~= rest);
    } else {
        let front = records.drop_last();
        let last = records.last();
        assert forall|k: int| 0 <= k < front.len() implies (#[trigger] front[k]).is_proper() by {
            assert(front[k] == records[k]);
        }
        assert(records[records.len() - 1].is_proper());
        lemma_proper_records(front, last.bytes() + rest);
        assert(record_bytes(records) + rest =~= record_bytes(front) + (last.bytes() + rest));
        lemma_proper_record(last, rest);
    }
}

/// Whatever records a peer sends in an `addrv2` message, up to a thousand, those of known
/// networks are read as they were sent, in order, and the others are counted.
pub proof fn law_addrv2_records_are_read_as_sent(records: Seq<Record>)
    requires
        records.len() <= 1000,
        forall|k: int| 0 <= k < records.len() ==> (#[trigger] records[k]).is_proper(),
    ensures
        addrv2_message_of(compact_bytes(records.len() as u64) + record_bytes(records)) matches Ok(m)
            && m.declared_count == records.len() && are_read_as(records, m.addrs)
            && m.unknown_entries == records.len() - m.addrs.len(),
{
    let s = record_bytes(records);
    law_compact_size_round_trip(records.len() as u64, s);
    lemma_proper_records(records, Seq::empty());
    assert(s + Seq::<u8>::empty() =~= s);
}

/// A message with a record that cannot be one of its network is refused whole: for its length
/// where that is wrong, and for its encoding otherwise, whatever came before it and whatever
/// comes after.
pub proof fn law_improper_record_spoils_the_message(
    records: Seq<Record>,
    bad: Record,
    more: nat,
    rest: Seq<u8>,
)
    requires
        records.len() + 1 + more <= 1000,
        forall|k: int| 0 <= k < records.len() ==> (#[trigger] records[k]).is_proper(),
        !bad.is_proper(),
        bad.address.len() <= usize::MAX,
        bad.address.len() <= u64::MAX,
    ensures
        addrv2_message_of(
            compact_bytes((records.len() + 1 + more) as u64) + (record_bytes(records) + (bad.bytes()
                + rest)),
        ) == Err::<AddrMessageView, AddrParseError>(
            if bad.address.len() > 512 || (bad.is_known() && bad.address.len()
                != bad.proper_length()) {
                AddrParseError::WrongLength {
                    network_id: bad.network_id,
                    length: bad.address.len() as usize,
                }
            } else {
                AddrParseError::InvalidNetworkEncoding(bad.network_id)
            },
        ),
{
    let n = (records.len() + 1 + more) as nat;
    let behind = bad.bytes() + rest;
    let s = record_bytes(records) + behind;
    law_compact_size_round_trip(n as u64, s);
    lemma_proper_records(records, behind);
    lemma_improper_record(bad, rest);
    lemma_error_stays(s, records.len() + 1, n);
}

proof fn lemma_error_stays(s: Seq<u8>, j: nat, k: nat)
    requires
        j <= k,
        addrv2_entries(s, j) is Err,
    ensures
        addrv2_entries(s, k) == addrv2_entries(s, j),
    decreases k - j,
{
    if j < k {
        lemma_error_stays(s, j, (k - 1) as nat);
    }
}

/// A message that declares more than a thousand addresses is refused for it, whatever follows.
pub proof fn law_too_many_addresses_are_refused(n: u64, rest: Seq<u8>)
    requires
        n > 1000,
    ensures
        addr_message_of(compact_bytes(n) + rest) == Err::<AddrMessageView, AddrParseError>(
            AddrParseError::TooMany(n),
        ),
        addrv2_message_of(compact_bytes(n) + rest) == Err::<AddrMessageView, AddrParseError>(
            AddrParseError::TooMany(n),
        ),
{
    law_compact_size_round_trip(n, rest);
}

// ---------------------------------------------------------------------------
// version
// ---------------------------------------------------------------------------

/// An address in a `version` message.
pub struct NetAddr {
    pub services: u64,
    pub octets: Seq<u8>,
    pub port: u16,
}

impl NetAddr {
    pub open spec fn bytes(self) -> Seq<u8> {
        le_bytes(self.services as nat, 8) + self.octets + port_bytes(self.port)
    }

    /// Whether an address that was read is the one that was sent.
    pub open spec fn is_read_as(self, a: crate::protocol::VersionNetAddrView) -> bool {
        &&& a.services == self.services
        &&& a.port == self.port
        &&& a.host == if holds_ipv4(self.octets) {
            dotted(self.octets.skip(12))
        } else {
            ipv6_text(octet_groups(self.octets))
        }
    }
}

/// What a peer says of itself in a `version` message.
pub struct VersionSent {
    pub version: i32,
    pub services: u64,
    pub timestamp: i64,
    pub recv: NetAddr,
    pub from: NetAddr,
    pub nonce: u64,
    pub agent: Seq<u8>,
    pub height: i32,
}

/// The two's complement pattern of a number of so many values.
pub open spec fn pattern(v: int, values: int) -> nat {
    if v < 0 {
        (v + values) as nat
    } else {
        v as nat
    }
}

impl VersionSent {
    /// The fields that every version sends.
    pub open spec fn first(self) -> Seq<u8> {
        le_bytes(pattern(self.version as int, 0x1_0000_0000), 4) + le_bytes(
            self.services as nat,
            8,
        ) + le_bytes(pattern(self.timestamp as int, 0x1_0000_0000_0000_0000), 8)
            + self.recv.bytes()
    }

    /// The fields that follow from version 106 on.
    pub open spec fn second(self) -> Seq<u8> {
        self.from.bytes() + le_bytes(self.nonce as nat, 8)
    }

    /// The user agent and the height.
    pub open spec fn third(self) -> Seq<u8> {
        self.agent + le_bytes(pattern(self.height as int, 0x1_0000_0000), 4)
    }
}

proof fn lemma_net_addr(a: NetAddr, p: Seq<u8>, at: int)
    requires
        a.octets.len() == 16,
        0 <= at,
        at + 26 <= p.len(),
        p.subrange(at, at + 26) == a.bytes(),
    ensures
        a.is_read_as(crate::protocol::netaddr_at(p, at)),
{
    let b = a.bytes();
    lemma_powers_of_256();
    law_le_round_trip(a.services as nat, 8);
    assert(b.len() == 26);
    assert(p.subrange(at, at + 8) =~= le_bytes(a.services as nat, 8)) by {
        assert(b.subrange(0, 8) =~= le_bytes(a.services as nat, 8));
        assert(p.subrange(at, at + 8) =~= b.subrange(0, 8));
    }
    assert(p.subrange(at + 8, at + 24) =~= a.octets) by {
        assert(b.subrange(8, 24) =~= a.octets);
        assert(p.subrange(at + 8, at + 24) =~= b.subrange(8, 24));
    }
    assert(p[at + 24] == b[24]);
    assert(p[at + 25] == b[25]);
    lemma_holds_ipv4(a.octets);
}

/// Where the fields that every version sends are read.
proof fn lemma_version_first(v: VersionSent, rest: Seq<u8>)
    requires
        v.recv.octets.len() == 16,
    ensures
        ({
            let p = v.first() + rest;
            &&& v.first().len() == 46
            &&& crate::wire::signed32(le_at(p, 0, 4)) == v.version
            &&& le_at(p, 4, 8) == v.services
            &&& crate::wire::signed64(le_at(p, 12, 8)) == v.timestamp
            &&& v.recv.is_read_as(crate::protocol::netaddr_at(p, 20))
        }),
{
    let p = v.first() + rest;
    let a = pattern(v.version as int, 0x1_0000_0000);
    let b = pattern(v.timestamp as int, 0x1_0000_0000_0000_0000);
    lemma_powers_of_256();
    law_le_round_trip(a, 4);
    law_le_round_trip(v.services as nat, 8);
    law_le_round_trip(b, 8);
    lemma_le_bytes_len(v.recv.services as nat, 8);
    assert(v.recv.bytes().len() == 26);
    assert(p.subrange(0, 4) =~= le_bytes(a, 4));
    assert(p.subrange(4, 12) =~= le_bytes(v.services as nat, 8));
    assert(p.subrange(12, 20) =~= le_bytes(b, 8));
    assert(p.subrange(20, 46) =~= v.recv.bytes());
    lemma_net_addr(v.recv, p, 20);
}

/// Where the fields that follow are read.
proof fn lemma_version_second(v: VersionSent, rest: Seq<u8>)
    requires
        v.recv.octets.len() == 16,
        v.from.octets.len() == 16,
    ensures
        ({
            let p = v.first() + v.second() + rest;
            &&& (v.first() + v.second()).len() == 80
            &&& le_at(p, 72, 8) == v.nonce
            &&& v.from.is_read_as(crate::protocol::netaddr_at(p, 46))
            &&& p.skip(80) == rest
        }),
{
    let p = v.first() + v.second() + rest;
    lemma_version_first(v, rest);
    lemma_powers_of_256();
    law_le_round_trip(v.nonce as nat, 8);
    lemma_le_bytes_len(v.from.services as nat, 8);
    assert(v.from.bytes().len() == 26);
    assert(p.subrange(46, 72) =~= v.from.bytes());
    assert(p.subrange(72, 80) =~= le_bytes(v.nonce as nat, 8));
    lemma_net_addr(v.from, p, 46);
    assert(p.skip(80) =~= rest);
}

/// The tail of a `version` message: user agent, height, and whatever follows.
proof fn lemma_version_third(v: VersionSent, rest: Seq<u8>)
    requires
        v.agent.len() <= 256,
    ensures
        ({
            let t = v.third() + rest;
            let n = v.agent.len() as int;
            &&& t.take(n) == v.agent
            &&& crate::wire::signed32(le_at(t, n, 4)) == v.height
            &&& t.len() == n + 4 + rest.len()
            &&& rest.len() > 0 ==> t[n + 4] == rest[0]
        }),
{
    let t = v.third() + rest;
    let n = v.agent.len() as int;
    let h = pattern(v.height as int, 0x1_0000_0000);
    lemma_powers_of_256();
    law_le_round_trip(h, 4);
    assert(t.take(n) =~= v.agent);
    assert(t.subrange(n, n + 4) =~= le_bytes(h, 4));
}

/// Whatever a peer says of itself in a `version` message from version 106 on is read as it was
/// sent. The user agent is its text where it is UTF-8, and hexadecimal otherwise. Behind the
/// height a zero byte asks not to relay, from version 70001 on; anything else, or nothing,
/// leaves relaying on.
pub proof fn law_version_is_read_as_sent(v: VersionSent, rest: Seq<u8>)
    requires
        v.version >= 106,
        v.recv.octets.len() == 16,
        v.from.octets.len() == 16,
        v.agent.len() <= 256,
    ensures
        version_of(
            v.first() + v.second() + (compact_bytes(v.agent.len() as u64) + (v.third() + rest)),
        ) matches Some(r) && r.version == v.version && r.services == v.services && r.timestamp
            == v.timestamp && v.recv.is_read_as(r.addr_recv) && (r.addr_from matches Some(a)
            && v.from.is_read_as(a)) && r.nonce == Some(v.nonce) && r.user_agent == (
        if valid_utf8(v.agent) {
            decode_utf8(v.agent)
        } else {
            hex_text(v.agent)
        }) && r.latest_block == v.height && r.relay == !(v.version >= 70001 && rest.len() > 0
            && rest[0] == 0),
{
    let t = v.third() + rest;
    let behind = compact_bytes(v.agent.len() as u64) + t;
    let p = v.first() + v.second() + behind;
    assert(p =~= v.first() + (v.second() + behind));
    lemma_version_first(v, v.second() + behind);
    lemma_version_second(v, behind);
    lemma_version_third(v, rest);
    law_compact_size_round_trip(v.agent.len() as u64, t);
}

/// Before version 106 a `version` message ends with the first address: whatever follows is not
/// looked at, and relaying is on.
pub proof fn law_old_version_is_read_as_sent(v: VersionSent, rest: Seq<u8>)
    requires
        v.version < 106,
        v.recv.octets.len() == 16,
    ensures
        version_of(v.first() + rest) matches Some(r) && r.version == v.version && r.services
            == v.services && r.timestamp == v.timestamp && v.recv.is_read_as(r.addr_recv)
            && r.addr_from is None && r.nonce is None && r.user_agent.len() == 0 && r.latest_block
            == 0 && r.relay,
{
    lemma_version_first(v, rest);
}

/// A user agent of more than 256 bytes is not accepted.
pub proof fn law_long_user_agent_is_refused(v: VersionSent, rest: Seq<u8>)
    requires
        v.version >= 106,
        v.recv.octets.len() == 16,
        v.from.octets.len() == 16,
        256 < v.agent.len() <= u64::MAX,
    ensures
        version_of(
            v.first() + v.second() + (compact_bytes(v.agent.len() as u64) + (v.third() + rest)),
        ) is None,
{
    let behind = compact_bytes(v.agent.len() as u64) + (v.third() + rest);
    let p = v.first() + v.second() + behind;
    assert(p =~= v.first() + (v.second() + behind));
    lemma_version_first(v, v.second() + behind);
    lemma_version_second(v, behind);
    law_compact_size_round_trip(v.agent.len() as u64, v.third() + rest);
}

} // verus!
