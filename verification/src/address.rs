//! Network types and the classification of host names into them.
use vstd::prelude::*;
use crate::encoding::{
    base32_decode, base32_lower, base32_text, is_base32_lower_char, lemma_base32_lower,
    lemma_base32_lower_injective, lower, sha3_256, sha3_256_digest, upper,
};
use crate::ip::{ipv6_value, parse_ipv6};
use crate::text::{
    chars_of, contains_char, decimal, ends_with, is_at, is_numeral, numeral_value, push_decimal,
    read_numeral, split, split_chars, sub_chars, views,
};

verus! {

/// The network type an address is classified into.
#[derive(Debug, Clone, Copy, PartialEq, Eq, Hash, Structural)]
pub enum NetworkType {
    Ipv4,
    Ipv6,
    Cjdns,
    OnionV2,
    OnionV3,
    I2p,
    Unknown,
}

/// A transport family with its own work queue and worker pool.
#[derive(Debug, Clone, Copy, PartialEq, Eq, Hash, Structural)]
pub enum Transport {
    Ip,
    Tor,
    I2p,
}

/// The lowercase identifier of a network type.
pub open spec fn network_label(network: NetworkType) -> Seq<char> {
    match network {
        NetworkType::Ipv4 => "ipv4"@,
        NetworkType::Ipv6 => "ipv6"@,
        NetworkType::Cjdns => "cjdns"@,
        NetworkType::OnionV2 => "onion_v2"@,
        NetworkType::OnionV3 => "onion_v3"@,
        NetworkType::I2p => "i2p"@,
        NetworkType::Unknown => "unknown"@,
    }
}

/// The transport that carries a network type. Nothing of an unknown network is ever
/// connected to; it is filed under IP.
pub open spec fn network_transport(network: NetworkType) -> Transport {
    match network {
        NetworkType::OnionV2 | NetworkType::OnionV3 => Transport::Tor,
        NetworkType::I2p => Transport::I2p,
        _ => Transport::Ip,
    }
}

impl NetworkType {
    /// The lowercase identifier used in outputs.
    pub fn as_str(self) -> (r: &'static str)
        ensures
            r@ == network_label(self),
    {
        match self {
            NetworkType::Ipv4 => "ipv4",
            NetworkType::Ipv6 => "ipv6",
            NetworkType::Cjdns => "cjdns",
            NetworkType::OnionV2 => "onion_v2",
            NetworkType::OnionV3 => "onion_v3",
            NetworkType::I2p => "i2p",
            NetworkType::Unknown => "unknown",
        }
    }

    /// The transport family that carries this network type.
    pub fn transport(self) -> (r: Transport)
        ensures
            r == network_transport(self),
    {
        match self {
            NetworkType::Ipv4 | NetworkType::Ipv6 | NetworkType::Cjdns => Transport::Ip,
            NetworkType::OnionV2 | NetworkType::OnionV3 => Transport::Tor,
            NetworkType::I2p => Transport::I2p,
            NetworkType::Unknown => Transport::Ip,
        }
    }
}

/// No two network types share an identifier.
pub proof fn law_network_labels_distinct(a: NetworkType, b: NetworkType)
    requires
        network_label(a) == network_label(b),
    ensures
        a == b,
{
    reveal_strlit("ipv4");
    reveal_strlit("ipv6");
    reveal_strlit("cjdns");
    reveal_strlit("onion_v2");
    reveal_strlit("onion_v3");
    reveal_strlit("i2p");
    reveal_strlit("unknown");
    assert("ipv4"@[3] == '4' && "ipv6"@[3] == '6');
    assert("onion_v2"@[7] == '2' && "onion_v3"@[7] == '3');
    assert("ipv4"@.len() == 4 && "ipv6"@.len() == 4 && "cjdns"@.len() == 5);
    assert("onion_v2"@.len() == 8 && "onion_v3"@.len() == 8);
    assert("i2p"@.len() == 3 && "unknown"@.len() == 7);
    assert(network_label(a).len() == network_label(b).len());
    match a {
        NetworkType::Ipv4 => assert(b is Ipv4),
        NetworkType::Ipv6 => assert(b is Ipv6),
        NetworkType::Cjdns => assert(b is Cjdns),
        NetworkType::OnionV2 => assert(b is OnionV2),
        NetworkType::OnionV3 => assert(b is OnionV3),
        NetworkType::I2p => assert(b is I2p),
        NetworkType::Unknown => assert(b is Unknown),
    }
}

// ---------------------------------------------------------------------------
// Classification
// ---------------------------------------------------------------------------

/// Whether `label` is the lowercase base32 text of `n` bytes.
pub open spec fn is_base32_of(label: Seq<char>, n: nat) -> bool {
    exists|b: Seq<u8>| b.len() == n && #[trigger] base32_lower(b) == label
}

/// The message whose SHA3-256 digest checks a version 3 onion key.
pub open spec fn onion_v3_message(pubkey: Seq<u8>) -> Seq<u8> {
    seq![
        46u8, 111u8, 110u8, 105u8, 111u8, 110u8, 32u8, 99u8, 104u8, 101u8, 99u8, 107u8, 115u8,
        117u8, 109u8,
    ] + pubkey + seq![3u8]
}

/// The bytes behind a version 3 onion label: the public key, the first two bytes of the
/// digest over it, and the version byte.
pub open spec fn onion_v3_bytes(pubkey: Seq<u8>) -> Seq<u8> {
    let digest = sha3_256_digest(onion_v3_message(pubkey));
    pubkey + seq![digest[0], digest[1], 3u8]
}

/// Whether `label` names a version 3 onion service.
pub open spec fn is_onion_v3_label(label: Seq<char>) -> bool {
    exists|pubkey: Seq<u8>|
        pubkey.len() == 32 && label == base32_lower(#[trigger] onion_v3_bytes(pubkey))
}

/// Four decimal fields between dots, each standing for a number below 256.
pub open spec fn is_dotted_quad(host: Seq<char>) -> bool {
    let fields = split(host, '.');
    fields.len() == 4 && forall|i: int|
        0 <= i < 4 ==> is_numeral(#[trigger] fields[i], 10) && numeral_value(fields[i], 10) < 256
}

/// The network type of a host name.
pub open spec fn network_of(host: Seq<char>) -> NetworkType {
    if host.contains(':') {
        match ipv6_value(host) {
            Some(g) => if g[0] / 256 == 0xfc {
                NetworkType::Cjdns
            } else {
                NetworkType::Ipv6
            },
            None => NetworkType::Unknown,
        }
    } else if ends_with(host, ".onion"@) {
        let label = host.take(host.len() - 6);
        if is_base32_of(label, 10) {
            NetworkType::OnionV2
        } else if is_onion_v3_label(label) {
            NetworkType::OnionV3
        } else {
            NetworkType::Unknown
        }
    } else if ends_with(host, ".b32.i2p"@) {
        if is_base32_of(host.take(host.len() - 8), 32) {
            NetworkType::I2p
        } else {
            NetworkType::Unknown
        }
    } else if is_dotted_quad(host) {
        NetworkType::Ipv4
    } else {
        NetworkType::Unknown
    }
}

/// Classifies a host name.
pub fn classify(host: &str) -> (r: NetworkType)
    ensures
        r == network_of(host@),
{
    let chars = chars_of(host);
    let n = chars.len();
    if contains_char(&chars, ':') {
        return match parse_ipv6(&chars) {
            Some(g) => if g[0] / 256 == 0xfc {
                NetworkType::Cjdns
            } else {
                NetworkType::Ipv6
            },
            None => NetworkType::Unknown,
        };
    }
    let onion = chars_of(".onion");
    proof {
        reveal_strlit(".onion");
        reveal_strlit(".b32.i2p");
    }
    if n >= 6 && is_at(&chars, &onion, n - 6) {
        let label = sub_chars(&chars, 0, n - 6);
        proof {
            assert(label@ =~= host@.take(host@.len() - 6));
        }
        if label.len() == 16 && decode_base32(&label, 10).is_some() {
            return NetworkType::OnionV2;
        }
        proof {
            if is_base32_of(label@, 10) {
                let b = choose|b: Seq<u8>| b.len() == 10 && #[trigger] base32_lower(b) == label@;
                lemma_base32_lower(b);
            }
        }
        if label.len() == 56 && valid_onion_v3(&label) {
            return NetworkType::OnionV3;
        }
        proof {
            if is_onion_v3_label(label@) {
                let k = choose|k: Seq<u8>|
                    k.len() == 32 && label@ == base32_lower(#[trigger] onion_v3_bytes(k));
                lemma_base32_lower(onion_v3_bytes(k));
            }
        }
        return NetworkType::Unknown;
    }
    let i2p = chars_of(".b32.i2p");
    if n >= 8 && is_at(&chars, &i2p, n - 8) {
        let label = sub_chars(&chars, 0, n - 8);
        proof {
            assert(label@ =~= host@.take(host@.len() - 8));
            if is_base32_of(label@, 32) {
                let b = choose|b: Seq<u8>| b.len() == 32 && #[trigger] base32_lower(b) == label@;
                lemma_base32_lower(b);
            }
        }
        return if label.len() == 52 && decode_base32(&label, 32).is_some() {
            NetworkType::I2p
        } else {
            NetworkType::Unknown
        };
    }
    if is_ipv4_dotted(&chars) {
        return NetworkType::Ipv4;
    }
    NetworkType::Unknown
}

/// The bytes of a lowercase base32 label, where there are exactly `expected_len` of them.
fn decode_base32(label: &Vec<char>, expected_len: usize) -> (r: Option<Vec<u8>>)
    requires
        label@.len() <= usize::MAX / 32,
    ensures
        r matches Some(b) ==> base32_lower(b@) == label@ && b@.len() == expected_len,
        r is Some <==> is_base32_of(label@, expected_len as nat),
{
    let mut upper_text: String = String::new();
    let mut i: usize = 0;
    while i < label.len()
        invariant
            i <= label@.len(),
            upper_text@ == upper(label@).take(i as int),
            forall|j: int| 0 <= j < i ==> is_base32_lower_char(#[trigger] label@[j]),
        decreases label@.len() - i,
    {
        let c = label[i];
        if 'a' <= c && c <= 'z' {
            upper_text.push(((c as u8) - 32) as char);
        } else if '2' <= c && c <= '7' {
            upper_text.push(c);
        } else {
            proof {
                assert forall|b: Seq<u8>| #[trigger] base32_lower(b) != label@ by {
                    lemma_base32_lower(b);
                    if base32_lower(b) == label@ {
                        assert(is_base32_lower_char(base32_lower(b)[i as int]));
                    }
                }
            }
            return None;
        }
        i = i + 1;
        proof {
            assert(upper_text@ =~= upper(label@).take(i as int));
        }
    }
    proof {
        assert(upper(label@).take(i as int) =~= upper(label@));
        assert(lower(upper(label@)) =~= label@) by {
            assert forall|j: int| 0 <= j < label@.len() implies #[trigger] lower(upper(label@))[j]
                == label@[j] by {
                assert(is_base32_lower_char(label@[j]));
            }
        }
    }
    let decoded = base32_decode(&upper_text);
    proof {
        assert forall|b: Seq<u8>| #[trigger] base32_lower(b) == label@ implies base32_text(b)
            == upper_text@ by {
            lemma_base32_lower(b);
        }
    }
    match decoded {
        Some(bytes) => {
            proof {
                assert forall|b: Seq<u8>| #[trigger] base32_lower(b) == label@ implies b
                    == bytes@ by {
                    lemma_base32_lower_injective(b, bytes@);
                }
            }
            if bytes.len() == expected_len {
                Some(bytes)
            } else {
                None
            }
        },
        None => None,
    }
}

/// Whether a label of base32 text names a version 3 onion service.
fn valid_onion_v3(label: &Vec<char>) -> (r: bool)
    requires
        label@.len() <= usize::MAX / 32,
    ensures
        r == is_onion_v3_label(label@),
{
    let decoded = match decode_base32(label, 35) {
        Some(decoded) => decoded,
        None => {
            proof {
                if is_onion_v3_label(label@) {
                    let k = choose|k: Seq<u8>|
                        k.len() == 32 && label@ == base32_lower(#[trigger] onion_v3_bytes(k));
                    assert(base32_lower(onion_v3_bytes(k)) == label@);
                }
            }
            return false;
        },
    };
    let pubkey = &decoded[0..32];
    let digest = onion_v3_digest(pubkey);
    let ok = decoded[34] == 3 && decoded[32] == digest[0] && decoded[33] == digest[1];
    proof {
        if ok {
            assert(decoded@ =~= onion_v3_bytes(pubkey@));
        }
        if is_onion_v3_label(label@) {
            let k = choose|k: Seq<u8>|
                k.len() == 32 && label@ == base32_lower(#[trigger] onion_v3_bytes(k));
            lemma_base32_lower_injective(onion_v3_bytes(k), decoded@);
            assert(k =~= pubkey@);
        }
    }
    ok
}

/// The digest that checks a version 3 onion key.
pub fn onion_v3_digest(pubkey: &[u8]) -> (r: [u8; 32])
    ensures
        r@ == sha3_256_digest(onion_v3_message(pubkey@)),
{
    let prefix: [u8; 15] = [46, 111, 110, 105, 111, 110, 32, 99, 104, 101, 99, 107, 115, 117, 109];
    let mut message: Vec<u8> = Vec::new();
    message.extend_from_slice(&prefix);
    message.extend_from_slice(pubkey);
    message.push(3);
    proof {
        assert(message@ =~= onion_v3_message(pubkey@));
    }
    sha3_256(&message)
}

/// Whether a host is four decimal fields between dots, each below 256.
fn is_ipv4_dotted(host: &Vec<char>) -> (r: bool)
    ensures
        r == is_dotted_quad(host@),
{
    let parts = split_chars(host, '.');
    let ghost f = split(host@, '.');
    if parts.len() != 4 {
        return false;
    }
    let mut i: usize = 0;
    while i < 4
        invariant
            i <= 4,
            parts@.len() == 4,
            views(parts@) == f,
            f == split(host@, '.'),
            forall|j: int|
                0 <= j < i ==> is_numeral(#[trigger] f[j], 10) && numeral_value(f[j], 10) < 256,
        decreases 4 - i,
    {
        assert(f[i as int] == parts@[i as int]@);
        if read_numeral(&parts[i], 10, 255).is_none() {
            return false;
        }
        i = i + 1;
    }
    true
}

/// A host and port as text, with brackets round a host that holds a colon.
pub open spec fn addr_text(host: Seq<char>, port: u16) -> Seq<char> {
    if host.contains(':') {
        seq!['['] + host + seq![']', ':'] + decimal(port as nat)
    } else {
        host + seq![':'] + decimal(port as nat)
    }
}

/// Renders a host and port, bracketing IPv6 and CJDNS hosts.
pub fn render_addr(host: &str, port: u16) -> (r: String)
    ensures
        r@ == addr_text(host@, port),
{
    let chars = chars_of(host);
    let mut out: String = String::new();
    if contains_char(&chars, ':') {
        out.push('[');
        out.push_str(host);
        out.push(']');
    } else {
        out.push_str(host);
    }
    out.push(':');
    push_decimal(&mut out, port as u64);
    proof {
        assert(out@ =~= addr_text(host@, port));
    }
    out
}

} // verus!
