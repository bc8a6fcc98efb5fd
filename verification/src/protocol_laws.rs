//! Laws that relate what the protocol module writes to what it reads.
use vstd::prelude::*;
use vstd::utf8::{
    encode_utf8, encode_utf8_decode_utf8, encode_utf8_valid_utf8, is_ascii_chars,
    is_ascii_chars_encode_utf8,
};
use crate::address::{
    is_base32_of, is_dotted_quad, is_onion_v3_label, network_of, onion_v3_bytes, NetworkType,
};
use crate::encoding::{
    base32_lower, is_base32_lower_char, lemma_base32_lower,
};
use crate::ip::{
    dotted, ipv4_value, ipv6_text, law_ipv4_text_reads_back, law_ipv6_text_reads_back,
    lemma_dotted_shape, octet_groups,
};
use crate::protocol::{
    addr_message_of, addrv2_entries, addrv2_entry, addrv2_message_of, agent_text, bip155_host,
    bip155_length, is_mapped_octets, legacy_host, netaddr_at, truncated_entry, version_bytes,
    version_head, version_of, version_tail, zero_netaddr_bytes, AddrMessageView, AddrParseError,
    AddrView, VersionNetAddrView, VersionView, MAX_ADDR_TO_SEND, PROTOCOL_VERSION,
    USER_AGENT,
};
use crate::text::{ends_with, split};
use crate::wire::{
    be16_at, compact_canonical, law_compact_size_reads_its_bytes_alone, law_compact_size_round_trip, law_le_round_trip, le_at, le_bytes,
    lemma_le_bytes_len, lemma_pattern64, lemma_powers_of_256, pattern64,
};

verus! {

/// What the crawler's own `version` message says.
pub open spec fn own_version(timestamp: i64, nonce: u64) -> VersionView {
    let nowhere = VersionNetAddrView {
        services: 0,
        host: dotted(seq![0u8, 0u8, 0u8, 0u8]),
        port: 0,
    };
    VersionView {
        version: PROTOCOL_VERSION,
        services: 0,
        timestamp,
        user_agent: USER_AGENT@,
        latest_block: 0,
        relay: false,
        addr_recv: nowhere,
        addr_from: Some(nowhere),
        nonce: Some(nonce),
    }
}

proof fn lemma_user_agent_bytes()
    ensures
        encode_utf8(USER_AGENT@).len() == 23,
        agent_text(encode_utf8(USER_AGENT@)) == USER_AGENT@,
{
    reveal_strlit("/new-p2p-crawler:0.1.0/");
    assert(is_ascii_chars(USER_AGENT@));
    is_ascii_chars_encode_utf8(USER_AGENT@);
    encode_utf8_valid_utf8(USER_AGENT@);
    encode_utf8_decode_utf8(USER_AGENT@);
}

proof fn lemma_zero_netaddr(p: Seq<u8>, at: int)
    requires
        0 <= at,
        at + 26 <= p.len(),
        p.subrange(at, at + 26) == zero_netaddr_bytes(),
    ensures
        netaddr_at(p, at) == (VersionNetAddrView {
            services: 0,
            host: dotted(seq![0u8, 0u8, 0u8, 0u8]),
            port: 0,
        }),
{
    let z = zero_netaddr_bytes();
    lemma_powers_of_256();
    law_le_round_trip(0, 8);
    assert(z.len() == 26);
    assert(p.subrange(at, at + 8) =~= z.subrange(0, 8));
    assert(z.subrange(0, 8) =~= le_bytes(0, 8));
    let ip = p.subrange(at + 8, at + 24);
    assert(ip =~= z.subrange(8, 24));
    assert(ip =~= seq![0, 0, 0, 0, 0, 0, 0, 0, 0, 0, 0xFFu8, 0xFFu8, 0, 0, 0, 0]);
    assert(is_mapped_octets(ip));
    assert(ip.skip(12) =~= seq![0u8, 0u8, 0u8, 0u8]);
    assert(p[at + 24] == z[24]);
    assert(p[at + 25] == z[25]);
}

/// Where the fixed-width fields of the crawler's `version` message stand.
proof fn lemma_version_head(timestamp: i64, nonce: u64)
    ensures
        ({
            let h = version_head(timestamp, nonce);
            &&& h.len() == 80
            &&& h.subrange(0, 4) == le_bytes(PROTOCOL_VERSION as nat, 4)
            &&& h.subrange(4, 12) == le_bytes(0, 8)
            &&& h.subrange(12, 20) == le_bytes(pattern64(timestamp), 8)
            &&& h.subrange(20, 46) == zero_netaddr_bytes()
            &&& h.subrange(46, 72) == zero_netaddr_bytes()
            &&& h.subrange(72, 80) == le_bytes(nonce as nat, 8)
        }),
{
    let h = version_head(timestamp, nonce);
    lemma_le_bytes_len(PROTOCOL_VERSION as nat, 4);
    lemma_le_bytes_len(0, 8);
    lemma_le_bytes_len(pattern64(timestamp), 8);
    lemma_le_bytes_len(nonce as nat, 8);
    assert(zero_netaddr_bytes().len() == 26);
    assert(h.subrange(0, 4) =~= le_bytes(PROTOCOL_VERSION as nat, 4));
    assert(h.subrange(4, 12) =~= le_bytes(0, 8));
    assert(h.subrange(12, 20) =~= le_bytes(pattern64(timestamp), 8));
    assert(h.subrange(20, 46) =~= zero_netaddr_bytes());
    assert(h.subrange(46, 72) =~= zero_netaddr_bytes());
    assert(h.subrange(72, 80) =~= le_bytes(nonce as nat, 8));
}

/// What stands in the front of two parts stands there in both together.
proof fn lemma_front_keeps(a: Seq<u8>, b: Seq<u8>, i: int, j: int)
    requires
        0 <= i <= j <= a.len(),
    ensures
        (a + b).subrange(i, j) == a.subrange(i, j),
{
    assert((a + b).subrange(i, j) =~= a.subrange(i, j));
}

/// What the tail of the crawler's `version` message says.
proof fn lemma_version_tail()
    ensures
        ({
            let rest = encode_utf8(USER_AGENT@) + le_bytes(0, 4) + seq![0u8];
            &&& compact_canonical(version_tail()) == Some((23u64, rest))
            &&& rest.len() == 28
            &&& agent_text(rest.take(23)) == USER_AGENT@
            &&& le_at(rest, 23, 4) == 0
            &&& rest[27] == 0
        }),
{
    let rest = encode_utf8(USER_AGENT@) + le_bytes(0, 4) + seq![0u8];
    lemma_user_agent_bytes();
    lemma_powers_of_256();
    law_le_round_trip(0, 4);
    law_compact_size_round_trip(23, rest);
    assert(rest.take(23) =~= encode_utf8(USER_AGENT@));
    assert(rest.subrange(23, 27) =~= le_bytes(0, 4));
}

/// The crawler's `version` message reads back as what it was built from.
pub proof fn law_version_round_trip(timestamp: i64, nonce: u64)
    ensures
        version_of(version_bytes(timestamp, nonce)) == Some(own_version(timestamp, nonce)),
{
    let h = version_head(timestamp, nonce);
    let t = version_tail();
    let p = version_bytes(timestamp, nonce);
    lemma_version_head(timestamp, nonce);
    lemma_version_tail();
    lemma_front_keeps(h, t, 0, 4);
    lemma_front_keeps(h, t, 4, 12);
    lemma_front_keeps(h, t, 12, 20);
    lemma_front_keeps(h, t, 20, 46);
    lemma_front_keeps(h, t, 46, 72);
    lemma_front_keeps(h, t, 72, 80);
    lemma_powers_of_256();
    lemma_pattern64(timestamp);
    law_le_round_trip(PROTOCOL_VERSION as nat, 4);
    law_le_round_trip(0, 8);
    law_le_round_trip(pattern64(timestamp), 8);
    law_le_round_trip(nonce as nat, 8);
    lemma_zero_netaddr(p, 20);
    lemma_zero_netaddr(p, 46);
    assert(p.skip(80) =~= t);
}

/// An accepted `addr` or `addrv2` message accounts for every record that it declares, and
/// declares no more than a thousand.
pub proof fn law_addr_message_count(p: Seq<u8>)
    ensures
        addr_message_of(p) matches Ok(m) ==> m.addrs.len() + m.unknown_entries == m.declared_count
            && m.declared_count <= MAX_ADDR_TO_SEND,
        addrv2_message_of(p) matches Ok(m) ==> m.addrs.len() + m.unknown_entries
            == m.declared_count && m.declared_count <= MAX_ADDR_TO_SEND,
{
    if let Some((n, rest)) = compact_canonical(p) {
        lemma_entries_count(rest, n as nat);
    }
}

/// Two records with the same bytes have the same fields.
proof fn lemma_entry_fields(s: Seq<u8>, u: Seq<u8>, h1: int, h2: int, length: int)
    requires
        0 <= h1,
        0 <= h2,
        0 <= length,
        4 + h1 + 1 + h2 + length + 2 <= s.len(),
        4 + h1 + 1 + h2 + length + 2 <= u.len(),
        forall|i: int| 0 <= i < 4 + h1 + 1 + h2 + length + 2 ==> u[i] == s[i],
    ensures
        le_at(u, 0, 4) == le_at(s, 0, 4),
        u.skip(4).take(h1) == s.skip(4).take(h1),
        u.skip(4).skip(h1) == u.skip(4 + h1),
        u.skip(4 + h1)[0] == s.skip(4 + h1)[0],
        u.skip(4 + h1).skip(1) == u.skip(4 + h1 + 1),
        u.skip(4 + h1 + 1).take(h2) == s.skip(4 + h1 + 1).take(h2),
        u.skip(4 + h1 + 1).skip(h2) == u.skip(4 + h1 + 1 + h2),
        u.skip(4 + h1 + 1 + h2).take(length) == s.skip(4 + h1 + 1 + h2).take(length),
        be16_at(u.skip(4 + h1 + 1 + h2), length) == be16_at(s.skip(4 + h1 + 1 + h2), length),
{
    let at = 4 + h1 + 1 + h2;
    assert(u.subrange(0, 4) =~= s.subrange(0, 4));
    assert(u.skip(4).take(h1) =~= s.skip(4).take(h1));
    assert(u.skip(4).skip(h1) =~= u.skip(4 + h1));
    assert(u.skip(4 + h1).skip(1) =~= u.skip(4 + h1 + 1));
    assert(u.skip(4 + h1 + 1).take(h2) =~= s.skip(4 + h1 + 1).take(h2));
    assert(u.skip(4 + h1 + 1).skip(h2) =~= u.skip(at));
    assert(u.skip(at).take(length) =~= s.skip(at).take(length));
    assert(u.skip(at)[length] == s.skip(at)[length]);
    assert(u.skip(at)[length + 1] == s.skip(at)[length + 1]);
}

/// How many bytes one record takes.
spec fn entry_size(s: Seq<u8>) -> int {
    s.len() - (addrv2_entry(s)->Ok_0).1.len()
}

/// How many bytes the first `n` records take.
spec fn entries_size(s: Seq<u8>, n: nat) -> int {
    s.len() - (addrv2_entries(s, n)->Ok_0).2.len()
}

/// The widths of the two lengths in a record, and how long the address in it is.
spec fn entry_layout(s: Seq<u8>) -> (int, int, int) {
    let r1 = (compact_canonical(s.skip(4))->Some_0).1;
    let s2 = r1.skip(1);
    let (length, r2) = compact_canonical(s2)->Some_0;
    (s.len() - 4 - r1.len(), s2.len() - r2.len(), length as int)
}

/// A record takes the bytes of its fields.
proof fn lemma_entry_layout(s: Seq<u8>)
    requires
        addrv2_entry(s) is Ok,
    ensures
        ({
            let (h1, h2, length) = entry_layout(s);
            &&& h1 > 0 && h2 > 0 && length >= 0
            &&& entry_size(s) == 4 + h1 + 1 + h2 + length + 2
            &&& compact_canonical(s.skip(4))->Some_0.1 == s.skip(4 + h1)
            &&& compact_canonical(s.skip(4 + h1 + 1)) is Some
            &&& compact_canonical(s.skip(4 + h1 + 1))->Some_0.0 == length
            &&& compact_canonical(s.skip(4 + h1 + 1))->Some_0.1 == s.skip(4 + h1 + 1 + h2)
        }),
        entry_size(s) <= s.len(),
        (addrv2_entry(s)->Ok_0).1 == s.skip(entry_size(s)),
{
    let s1 = s.skip(4);
    law_compact_size_reads_its_bytes_alone(s1, s1);
    let r1 = (compact_canonical(s1)->Some_0).1;
    let s2 = r1.skip(1);
    law_compact_size_reads_its_bytes_alone(s2, s2);
    let r2 = (compact_canonical(s2)->Some_0).1;
    let (h1, h2, length) = entry_layout(s);
    assert(r1 =~= s.skip(4 + h1));
    assert(s2 =~= s.skip(4 + h1 + 1));
    assert(r2 =~= s.skip(4 + h1 + 1 + h2));
    assert(r2.skip(length + 2) =~= s.skip(4 + h1 + 1 + h2 + length + 2));
}

proof fn lemma_entry_size(s: Seq<u8>)
    requires
        addrv2_entry(s) is Ok,
    ensures
        0 <= entry_size(s) <= s.len(),
        (addrv2_entry(s)->Ok_0).1 == s.skip(entry_size(s)),
{
    lemma_entry_layout(s);
}

/// A record is read alike whatever follows it.
#[verifier::rlimit(40)]
proof fn lemma_entry_in_front(s: Seq<u8>, u: Seq<u8>)
    requires
        addrv2_entry(s) is Ok,
        entry_size(s) <= u.len(),
        u.take(entry_size(s)) == s.take(entry_size(s)),
    ensures
        addrv2_entry(u) == Ok::<(Option<AddrView>, Seq<u8>), AddrParseError>(
            ((addrv2_entry(s)->Ok_0).0, u.skip(entry_size(s))),
        ),
{
    lemma_entry_layout(s);
    let (h1, h2, length) = entry_layout(s);
    let h = entry_size(s);
    assert forall|i: int| 0 <= i < h implies u[i] == s[i] by {
        assert(u.take(h)[i] == u[i]);
        assert(s.take(h)[i] == s[i]);
    }
    lemma_entry_fields(s, u, h1, h2, length);
    law_compact_size_reads_its_bytes_alone(s.skip(4), u.skip(4));
    law_compact_size_reads_its_bytes_alone(s.skip(4 + h1 + 1), u.skip(4 + h1 + 1));
    assert(u.skip(4 + h1 + 1 + h2).skip(length + 2) =~= u.skip(h));
    assert(s.skip(4 + h1).skip(1) =~= s.skip(4 + h1 + 1));
}

/// A record that is cut short is refused as truncated.
proof fn lemma_entry_cut_short(s: Seq<u8>, k: int)
    requires
        addrv2_entry(s) is Ok,
        0 <= k < entry_size(s),
    ensures
        addrv2_entry(s.take(k)) == truncated_entry(),
{
    lemma_entry_layout(s);
    let h1 = entry_layout(s).0;
    let u = s.take(k);
    if k >= 4 {
        let (s1, u1) = (s.skip(4), u.skip(4));
        assert(u1 =~= s1.take(k - 4));
        law_compact_size_reads_its_bytes_alone(s1, u1);
        if k >= 4 + h1 {
            assert(u1.take(h1) =~= s1.take(h1));
            assert(u1.skip(h1) =~= u.skip(4 + h1));
            if k > 4 + h1 {
                lemma_entry_cut_in_address(s, k);
            }
        }
    }
}

/// What is left of a record that is cut after its network: no length, or an address and port
/// that are too short for it.
proof fn lemma_entry_cut_in_address(s: Seq<u8>, k: int)
    requires
        addrv2_entry(s) is Ok,
        4 + entry_layout(s).0 + 1 <= k < entry_size(s),
    ensures
        ({
            let (h1, h2, length) = entry_layout(s);
            let u = s.take(k).skip(4 + h1);
            &&& u[0] == s.skip(4 + h1)[0]
            &&& compact_canonical(u.skip(1)) matches Some((n, rest)) ==> n == length && rest.len()
                < n + 2
        }),
{
    lemma_entry_layout(s);
    let (h1, h2, length) = entry_layout(s);
    let at = 4 + h1 + 1;
    let u = s.take(k).skip(4 + h1);
    let (s2, u2) = (s.skip(at), u.skip(1));
    assert(u2 =~= s2.take(k - at));
    law_compact_size_reads_its_bytes_alone(s2, u2);
    if k >= at + h2 {
        assert(u2.take(h2) =~= s2.take(h2));
    }
}

/// The bytes of records come before what follows them.
#[verifier::rlimit(40)]
proof fn lemma_entries_size(s: Seq<u8>, n: nat)
    requires
        addrv2_entries(s, n) is Ok,
    ensures
        0 <= entries_size(s, n) <= s.len(),
        (addrv2_entries(s, n)->Ok_0).2 == s.skip(entries_size(s, n)),
    decreases n,
{
    if n == 0 {
        assert(s.skip(0) =~= s);
    } else {
        let m = (n - 1) as nat;
        lemma_entries_size(s, m);
        let mid = (addrv2_entries(s, m)->Ok_0).2;
        lemma_entry_size(mid);
        let rest = (addrv2_entries(s, n)->Ok_0).2;
        assert(rest =~= s.skip(entries_size(s, m) + entry_size(mid)));
    }
}

/// Records are read alike whatever follows them.
proof fn lemma_entries_in_front(s: Seq<u8>, n: nat, u: Seq<u8>)
    requires
        addrv2_entries(s, n) is Ok,
        0 <= entries_size(s, n) <= u.len(),
        u.take(entries_size(s, n)) == s.take(entries_size(s, n)),
    ensures
        addrv2_entries(u, n) == Ok::<(Seq<AddrView>, nat, Seq<u8>), AddrParseError>(
            (
                (addrv2_entries(s, n)->Ok_0).0,
                (addrv2_entries(s, n)->Ok_0).1,
                u.skip(entries_size(s, n)),
            ),
        ),
    decreases n,
{
    if n == 0 {
        assert(u.skip(0) =~= u);
    } else {
        let m = (n - 1) as nat;
        let mid = (addrv2_entries(s, m)->Ok_0).2;
        let h1 = entries_size(s, m);
        let h2 = entry_size(mid);
        lemma_entries_size(s, m);
        lemma_entry_size(mid);
        assert(entries_size(s, n) == h1 + h2);
        lemma_same_front(s, u, h1, h2);
        lemma_entries_in_front(s, m, u);
        lemma_entry_in_front(mid, u.skip(h1));
    }
}

/// Records that are cut short are refused as truncated.
#[verifier::rlimit(40)]
proof fn lemma_entries_cut_short(s: Seq<u8>, n: nat, k: int)
    requires
        addrv2_entries(s, n) is Ok,
        0 <= k < entries_size(s, n),
    ensures
        addrv2_entries(s.take(k), n) == Err::<(Seq<AddrView>, nat, Seq<u8>), AddrParseError>(
            AddrParseError::NonCanonicalOrTruncated,
        ),
    decreases n,
{
    if n > 0 {
        let m = (n - 1) as nat;
        let mid = (addrv2_entries(s, m)->Ok_0).2;
        let h1 = entries_size(s, m);
        lemma_entries_size(s, m);
        if k < h1 {
            lemma_entries_cut_short(s, m, k);
        } else {
            let u = s.take(k);
            assert(u.take(h1) =~= s.take(h1));
            lemma_entries_in_front(s, m, u);
            assert(u.skip(h1) =~= mid.take(k - h1));
            lemma_entry_cut_short(mid, k - h1);
        }
    }
}

/// Two texts that begin alike begin alike piece by piece.
proof fn lemma_same_front(s: Seq<u8>, u: Seq<u8>, h1: int, h2: int)
    requires
        0 <= h1,
        0 <= h2,
        h1 + h2 <= s.len(),
        h1 + h2 <= u.len(),
        u.take(h1 + h2) == s.take(h1 + h2),
    ensures
        u.take(h1) == s.take(h1),
        u.skip(h1).take(h2) == s.skip(h1).take(h2),
        u.skip(h1).skip(h2) == u.skip(h1 + h2),
{
    let h = h1 + h2;
    assert forall|i: int| 0 <= i < h implies u[i] == s[i] by {
        assert(u.take(h)[i] == u[i]);
        assert(s.take(h)[i] == s[i]);
    }
    assert(u.take(h1) =~= s.take(h1));
    assert(u.skip(h1).take(h2) =~= s.skip(h1).take(h2));
    assert(u.skip(h1).skip(h2) =~= u.skip(h1 + h2));
}

/// An `addrv2` message is taken whole or not at all: cut short anywhere, an accepted payload
/// is refused as truncated, and with anything behind it, for the trailing bytes.
pub proof fn law_damaged_addrv2(p: Seq<u8>, k: int, x: Seq<u8>)
    requires
        addrv2_message_of(p) is Ok,
        0 <= k < p.len(),
        0 < x.len() <= usize::MAX,
    ensures
        addrv2_message_of(p.take(k)) == Err::<AddrMessageView, AddrParseError>(
            AddrParseError::NonCanonicalOrTruncated,
        ),
        addrv2_message_of(p + x) == Err::<AddrMessageView, AddrParseError>(
            AddrParseError::TrailingBytes(x.len() as usize),
        ),
{
    let (n, rest) = compact_canonical(p)->Some_0;
    let cut = p.take(k);
    let more = p + x;
    law_compact_size_reads_its_bytes_alone(p, cut);
    law_compact_size_reads_its_bytes_alone(p, more);
    let h = p.len() - rest.len();
    assert(more.take(h) =~= p.take(h));
    assert(more.skip(h) =~= rest + x);
    assert((rest + x).take(rest.len() as int) =~= rest.take(rest.len() as int));
    lemma_entries_in_front(rest, n as nat, rest + x);
    assert((rest + x).skip(rest.len() as int) =~= x);
    if h <= k {
        assert(cut.take(h) =~= p.take(h));
        assert(cut.skip(h) =~= rest.take(k - h));
        lemma_entries_cut_short(rest, n as nat, k - h);
    }
}

/// A legacy `addr` message is taken whole or not at all: cut short anywhere, an accepted
/// payload is refused as truncated, and with anything behind it, for the trailing bytes.
pub proof fn law_damaged_addr(p: Seq<u8>, k: int, x: Seq<u8>)
    requires
        addr_message_of(p) is Ok,
        0 <= k < p.len(),
        0 < x.len() <= usize::MAX,
    ensures
        addr_message_of(p.take(k)) == Err::<AddrMessageView, AddrParseError>(
            AddrParseError::NonCanonicalOrTruncated,
        ),
        addr_message_of(p + x) == Err::<AddrMessageView, AddrParseError>(
            AddrParseError::TrailingBytes(x.len() as usize),
        ),
{
    let (n, rest) = compact_canonical(p)->Some_0;
    let cut = p.take(k);
    let more = p + x;
    law_compact_size_reads_its_bytes_alone(p, cut);
    law_compact_size_reads_its_bytes_alone(p, more);
    let h = p.len() - rest.len();
    assert(more.take(h) =~= p.take(h));
    if h <= k {
        assert(cut.take(h) =~= p.take(h));
    }
}

proof fn lemma_entries_count(s: Seq<u8>, k: nat)
    ensures
        addrv2_entries(s, k) matches Ok((addrs, unknown, rest)) ==> addrs.len() + unknown == k,
    decreases k,
{
    if k > 0 {
        lemma_entries_count(s, (k - 1) as nat);
    }
}

/// A dotted quad is classified as IPv4.
pub proof fn lemma_dotted_classifies(o: Seq<u8>)
    requires
        o.len() == 4,
    ensures
        network_of(dotted(o)) == NetworkType::Ipv4,
{
    let s = dotted(o);
    lemma_dotted_shape(o);
    law_ipv4_text_reads_back(o);
    assert(ipv4_value(s) is Some);
    let fields = split(s, '.');
    assert(is_dotted_quad(s));
    assert(!ends_with(s, ".onion"@)) by {
        reveal_strlit(".onion");
        if ends_with(s, ".onion"@) {
            let at = s.len() - 6;
            assert(s.subrange(at, at + 6)[5] == 'n');
            assert(s[at + 5] == 'n');
        }
    }
    assert(!ends_with(s, ".b32.i2p"@)) by {
        reveal_strlit(".b32.i2p");
        if ends_with(s, ".b32.i2p"@) {
            let at = s.len() - 8;
            assert(s.subrange(at, at + 8)[7] == 'p');
            assert(s[at + 7] == 'p');
        }
    }
}

/// IPv6 text is classified by its first octet.
pub proof fn lemma_ipv6_classifies(b: Seq<u8>)
    requires
        b.len() == 16,
    ensures
        network_of(ipv6_text(octet_groups(b))) == if b[0] == 0xfc {
            NetworkType::Cjdns
        } else {
            NetworkType::Ipv6
        },
{
    let g = octet_groups(b);
    law_ipv6_text_reads_back(g);
    assert(g[0] == b[0] * 256 + b[1]);
}

proof fn lemma_suffix_host(label: Seq<char>, suffix: Seq<char>)
    requires
        forall|i: int| 0 <= i < label.len() ==> is_base32_lower_char(#[trigger] label[i]),
        !suffix.contains(':'),
    ensures
        !(label + suffix).contains(':'),
        ends_with(label + suffix, suffix),
        (label + suffix).take((label + suffix).len() - suffix.len()) == label,
{
    let s = label + suffix;
    if s.contains(':') {
        let k = choose|k: int| 0 <= k < s.len() && s[k] == ':';
        if k < label.len() {
            assert(is_base32_lower_char(label[k]));
        } else {
            assert(suffix[k - label.len()] == ':');
            assert(suffix.contains(':'));
        }
    }
    let at = s.len() - suffix.len();
    assert(s.subrange(at, at + suffix.len()) =~= suffix);
    assert(s.take(at) =~= label);
}

pub proof fn lemma_onion_v2_classifies(b: Seq<u8>)
    requires
        b.len() == 10,
    ensures
        network_of(base32_lower(b) + ".onion"@) == NetworkType::OnionV2,
{
    lemma_base32_lower(b);
    reveal_strlit(".onion");
    lemma_suffix_host(base32_lower(b), ".onion"@);
    assert(is_base32_of(base32_lower(b), 10));
}

pub proof fn lemma_onion_v3_classifies(pubkey: Seq<u8>)
    requires
        pubkey.len() == 32,
    ensures
        network_of(base32_lower(onion_v3_bytes(pubkey)) + ".onion"@) == NetworkType::OnionV3,
{
    let b = onion_v3_bytes(pubkey);
    lemma_base32_lower(b);
    reveal_strlit(".onion");
    lemma_suffix_host(base32_lower(b), ".onion"@);
    assert(is_onion_v3_label(base32_lower(b)));
    if is_base32_of(base32_lower(b), 10) {
        let c = choose|c: Seq<u8>| c.len() == 10 && #[trigger] base32_lower(c) == base32_lower(b);
        lemma_base32_lower(c);
    }
}

pub proof fn lemma_i2p_classifies(b: Seq<u8>)
    requires
        b.len() == 32,
    ensures
        network_of(base32_lower(b) + ".b32.i2p"@) == NetworkType::I2p,
{
    lemma_base32_lower(b);
    reveal_strlit(".b32.i2p");
    let s = base32_lower(b) + ".b32.i2p"@;
    lemma_suffix_host(base32_lower(b), ".b32.i2p"@);
    assert(is_base32_of(base32_lower(b), 32));
    assert(!ends_with(s, ".onion"@)) by {
        reveal_strlit(".onion");
        if ends_with(s, ".onion"@) {
            let at = s.len() - 6;
            assert(s.subrange(at, at + 6)[5] == 'n');
            assert(s[at + 5] == 'n');
            assert(s[s.len() - 1] == 'p');
        }
    }
}

/// Every host that a BIP155 record decodes to is classified into the network that the
/// record names.
pub proof fn law_bip155_host_classifies(network_id: u8, b: Seq<u8>)
    requires
        bip155_length(network_id) == Some(b.len()),
    ensures
        bip155_host(network_id, b) matches Ok(Some((host, network))) ==> network_of(host)
            == network,
        bip155_host(network_id, b) != Ok::<
            Option<(Seq<char>, NetworkType)>,
            AddrParseError,
        >(None),
{
    if network_id == 1 {
        assert(b.take(4) =~= b);
        lemma_dotted_classifies(b);
    } else if network_id == 2 || network_id == 6 {
        lemma_ipv6_classifies(b);
    } else if network_id == 3 {
        lemma_onion_v2_classifies(b);
    } else if network_id == 4 {
        lemma_onion_v3_classifies(b);
    } else {
        lemma_i2p_classifies(b);
    }
}

/// A legacy address is IPv4 where it is mapped and IPv6 otherwise, never CJDNS; away from
/// the CJDNS prefix its host is classified into the same network.
pub proof fn law_legacy_address_is_ip(o: Seq<u8>)
    requires
        o.len() == 16,
    ensures
        legacy_host(o).1 == NetworkType::Ipv4 || legacy_host(o).1 == NetworkType::Ipv6,
        legacy_host(o).1 == NetworkType::Ipv4 <==> is_mapped_octets(o),
        o[0] != 0xfc ==> network_of(legacy_host(o).0) == legacy_host(o).1,
{
    if is_mapped_octets(o) {
        lemma_dotted_classifies(o.skip(12));
    } else {
        lemma_ipv6_classifies(o);
    }
}

proof fn lemma_entry_classifies(s: Seq<u8>)
    ensures
        addrv2_entry(s) matches Ok((Some(a), rest)) ==> network_of(a.host) == a.network,
{
    if s.len() >= 4 {
        if let Some((services, r1)) = compact_canonical(s.skip(4)) {
            if r1.len() > 0 {
                if let Some((length, r2)) = compact_canonical(r1.skip(1)) {
                    if r2.len() >= length + 2 && bip155_length(r1[0]) == Some(length as nat) {
                        law_bip155_host_classifies(r1[0], r2.take(length as int));
                    }
                }
            }
        }
    }
}

proof fn lemma_entries_classify(s: Seq<u8>, k: nat)
    ensures
        addrv2_entries(s, k) matches Ok((addrs, unknown, rest)) ==> forall|i: int|
            0 <= i < addrs.len() ==> network_of((#[trigger] addrs[i]).host) == addrs[i].network,
    decreases k,
{
    if k > 0 {
        lemma_entries_classify(s, (k - 1) as nat);
        if let Ok((addrs, unknown, rest)) = addrv2_entries(s, (k - 1) as nat) {
            lemma_entry_classifies(rest);
        }
    }
}

/// Every address of an accepted `addrv2` message is classified, by its host alone, into the
/// network that it is listed under.
pub proof fn law_addrv2_message_classifies(p: Seq<u8>, i: int)
    ensures
        addrv2_message_of(p) matches Ok(m) ==> 0 <= i < m.addrs.len() ==> network_of(
            m.addrs[i].host,
        ) == m.addrs[i].network,
{
    if let Some((n, rest)) = compact_canonical(p) {
        lemma_entries_classify(rest, n as nat);
    }
}

/// No address of an accepted legacy `addr` message is listed under anything but IPv4 or
/// IPv6.
pub proof fn law_addr_message_is_ip(p: Seq<u8>, i: int)
    ensures
        addr_message_of(p) matches Ok(m) ==> 0 <= i < m.addrs.len() ==> m.addrs[i].network
            == NetworkType::Ipv4 || m.addrs[i].network == NetworkType::Ipv6,
{
}

} // verus!
