//! Laws of addresses: which host belongs to which network, and how addresses are spelled.
use vstd::prelude::*;
use crate::address::{addr_text, network_label, network_of, network_transport, NetworkType};
use crate::encoding::base32_lower;
use crate::frontier_laws::carries;
use crate::ip::{
    colon_hex, dotted, ipv4_value, ipv6_text, ipv6_value, is_octet_text, lemma_longest_run_range,
    lemma_zero_run, longest_run, octet_fields, octet_groups, zero_run,
};
use crate::message_laws::onion_v3_of;
use crate::protocol_laws::{
    lemma_dotted_classifies, lemma_i2p_classifies, lemma_ipv6_classifies,
    lemma_onion_v2_classifies, lemma_onion_v3_classifies,
};
use crate::table_laws::network_name;
use crate::text::{
    decimal, digit_char, digit_value, is_digit, is_numeral, join, numeral, numeral_value, split,
};

verus! {

/// A host is of the network whose address it spells: four octets are IPv4, sixteen are CJDNS
/// where they begin with `fc` and IPv6 otherwise, ten bytes before `.onion` are an onion
/// service of version 2, a checked key before `.onion` one of version 3, and a digest before
/// `.b32.i2p` is I2P.
pub proof fn law_hosts_are_of_the_network_they_spell(b: Seq<u8>)
    ensures
        b.len() == 4 ==> network_of(dotted(b)) == NetworkType::Ipv4,
        b.len() == 16 ==> network_of(ipv6_text(octet_groups(b))) == if b[0] == 0xfc {
            NetworkType::Cjdns
        } else {
            NetworkType::Ipv6
        },
        b.len() == 10 ==> network_of(base32_lower(b) + ".onion"@) == NetworkType::OnionV2,
        b.len() == 32 ==> network_of(base32_lower(onion_v3_of(b)) + ".onion"@)
            == NetworkType::OnionV3,
        b.len() == 32 ==> network_of(base32_lower(b) + ".b32.i2p"@) == NetworkType::I2p,
{
    if b.len() == 4 {
        lemma_dotted_classifies(b);
    } else if b.len() == 16 {
        lemma_ipv6_classifies(b);
    } else if b.len() == 10 {
        lemma_onion_v2_classifies(b);
    } else if b.len() == 32 {
        lemma_onion_v3_classifies(b);
        lemma_i2p_classifies(b);
        crate::message_laws::lemma_onion_v3(b);
    }
}

/// Nothing else is of a network: a host of an onion network or I2P spells an address of it, a
/// host of IPv6 or CJDNS is an IPv6 text that begins accordingly, and one of IPv4 is four
/// decimal fields below 256.
pub proof fn law_only_spelled_addresses_are_of_a_network(host: Seq<char>)
    ensures
        network_of(host) == NetworkType::OnionV2 ==> exists|b: Seq<u8>|
            b.len() == 10 && host == #[trigger] base32_lower(b) + ".onion"@,
        network_of(host) == NetworkType::OnionV3 ==> exists|b: Seq<u8>|
            b.len() == 32 && host == base32_lower(#[trigger] onion_v3_of(b)) + ".onion"@,
        network_of(host) == NetworkType::I2p ==> exists|b: Seq<u8>|
            b.len() == 32 && host == #[trigger] base32_lower(b) + ".b32.i2p"@,
        network_of(host) == NetworkType::Ipv6 ==> (ipv6_value(host) matches Some(g) && g[0] / 256
            != 0xfc),
        network_of(host) == NetworkType::Cjdns ==> (ipv6_value(host) matches Some(g) && g[0] / 256
            == 0xfc),
        network_of(host) == NetworkType::Ipv4 ==> split(host, '.').len() == 4 && forall|i: int|
            0 <= i < 4 ==> is_numeral(#[trigger] split(host, '.')[i], 10) && numeral_value(
                split(host, '.')[i],
                10,
            ) < 256,
{
    reveal_strlit(".onion");
    reveal_strlit(".b32.i2p");
    match network_of(host) {
        NetworkType::OnionV2 => {
            let label = host.take(host.len() - 6);
            let b = choose|b: Seq<u8>| b.len() == 10 && #[trigger] base32_lower(b) == label;
            lemma_label_and_ending(host, label, ".onion"@);
            assert(host == base32_lower(b) + ".onion"@);
        },
        NetworkType::OnionV3 => {
            let label = host.take(host.len() - 6);
            let b = choose|b: Seq<u8>|
                b.len() == 32 && label == base32_lower(
                    #[trigger] crate::address::onion_v3_bytes(b),
                );
            lemma_label_and_ending(host, label, ".onion"@);
            crate::message_laws::lemma_onion_v3(b);
            assert(host == base32_lower(onion_v3_of(b)) + ".onion"@);
        },
        NetworkType::I2p => {
            let label = host.take(host.len() - 8);
            let b = choose|b: Seq<u8>| b.len() == 32 && #[trigger] base32_lower(b) == label;
            lemma_label_and_ending(host, label, ".b32.i2p"@);
            assert(host == base32_lower(b) + ".b32.i2p"@);
        },
        _ => {},
    }
}

proof fn lemma_label_and_ending(host: Seq<char>, label: Seq<char>, ending: Seq<char>)
    requires
        crate::text::ends_with(host, ending),
        label == host.take(host.len() - ending.len()),
    ensures
        host == label + ending,
{
    let at = host.len() - ending.len();
    assert(host.subrange(at, at + ending.len()) =~= ending);
    assert forall|i: int| 0 <= i < ending.len() implies host[at + i] == ending[i] by {
        assert(host.subrange(at, at + ending.len())[i] == ending[i]);
    }
    assert(host =~= label + ending);
}

/// Every network has its name, and the queue of the transport that carries it.
pub proof fn law_networks_have_their_name_and_queue(network: NetworkType)
    ensures
        network_label(network) == network_name(network),
        carries(network_transport(network), network),
{
}

/// An address is written as host, colon and port, with brackets round a host that holds a
/// colon itself.
pub proof fn law_addresses_show_host_and_port(host: Seq<char>, port: u16)
    ensures
        !host.contains(':') ==> addr_text(host, port) == host + seq![':'] + decimal(port as nat),
        host.contains(':') ==> addr_text(host, port) == seq!['['] + host + seq![']'] + seq![':']
            + decimal(port as nat),
{
    if host.contains(':') {
        assert(addr_text(host, port) =~= seq!['['] + host + seq![']'] + seq![':'] + decimal(
            port as nat,
        ));
    }
}

// ---------------------------------------------------------------------------
// IPv4
// ---------------------------------------------------------------------------

/// A run of decimal digits without a superfluous zero is the numeral of its value.
proof fn lemma_numeral_is_unique(s: Seq<char>)
    requires
        is_numeral(s, 10),
        s.len() > 1 ==> s[0] != '0',
    ensures
        numeral_value(s, 10) >= 0,
        numeral(numeral_value(s, 10) as nat, 10) == s,
        s[0] != '0' ==> numeral_value(s, 10) > 0,
    decreases s.len(),
{
    let last = s.last();
    let d = digit_value(last)->Some_0;
    assert(is_digit(s[s.len() - 1], 10));
    assert(digit_char(d) == last);
    let head = s.drop_last();
    if s.len() == 1 {
        assert(numeral_value(head, 10) == 0);
        assert(numeral(d as nat, 10) =~= s);
        if s[0] != '0' {
            assert(d > 0);
        }
    } else {
        assert forall|i: int| 0 <= i < head.len() implies is_digit(#[trigger] head[i], 10) by {
            assert(head[i] == s[i]);
        }
        assert(head[0] == s[0]);
        lemma_numeral_is_unique(head);
        let n = numeral_value(head, 10);
        let v = n * 10 + d;
        assert(v / 10 == n && v % 10 == d);
        assert(numeral(v as nat, 10) =~= s);
    }
}

/// Joining the pieces of a text gives back the text.
proof fn lemma_join_split(s: Seq<char>, sep: char)
    ensures
        split(s, sep).len() > 0,
        join(split(s, sep), sep) == s,
    decreases s.len(),
{
    if s.len() > 0 {
        let front = s.drop_last();
        lemma_join_split(front, sep);
        let p = split(front, sep);
        let q = split(s, sep);
        if s.last() == sep {
            assert(q.drop_last() =~= p);
            assert(join(q, sep) =~= s);
        } else {
            assert(q.drop_last() =~= p.drop_last());
            assert(q.last() == p.last().push(s.last()));
            assert(front.push(s.last()) =~= s);
            if p.len() == 1 {
                assert(q.len() == 1);
                assert(q[0] == p[0].push(s.last()));
                assert(join(p, sep) == p[0]);
            } else {
                let before = join(p.drop_last(), sep).push(sep);
                assert(join(p, sep) == before + p.last());
                assert(join(q, sep) == before + q.last());
                assert(before + p.last().push(s.last()) =~= (before + p.last()).push(s.last()));
            }
        }
    } else {
        assert(join(split(s, sep), sep) =~= s);
    }
}

/// Only the canonical dotted quad of an IPv4 address stands for it.
pub proof fn law_dotted_quads_are_canonical(s: Seq<char>)
    ensures
        ipv4_value(s) matches Some(o) ==> o.len() == 4 && dotted(o) == s,
{
    if let Some(o) = ipv4_value(s) {
        let fields = split(s, '.');
        assert forall|i: int| 0 <= i < 4 implies #[trigger] octet_fields(o)[i] == fields[i] by {
            assert(is_octet_text(fields[i]));
            lemma_numeral_is_unique(fields[i]);
        }
        assert(octet_fields(o) =~= fields);
        lemma_join_split(s, '.');
    }
}

// ---------------------------------------------------------------------------
// IPv6
// ---------------------------------------------------------------------------

/// Whether the groups from `start` on, `n` of them, are zero.
pub open spec fn zeros(g: Seq<u16>, start: int, n: int) -> bool {
    0 <= start && 0 <= n && start + n <= g.len() && forall|i: int|
        start <= i < start + n ==> #[trigger] g[i] == 0
}

proof fn lemma_run_is_longest_from(g: Seq<u16>, i: int, n: int)
    requires
        zeros(g, i, n),
    ensures
        zero_run(g, i) >= n,
    decreases n,
{
    if n > 0 {
        assert(g[i] == 0);
        assert(zeros(g, i + 1, n - 1));
        lemma_run_is_longest_from(g, i + 1, n - 1);
    }
}

proof fn lemma_longest_run_is_first(g: Seq<u16>, k: int, i: int)
    requires
        0 <= i <= k,
    ensures
        zero_run(g, i) <= zero_run(g, longest_run(g, k)),
        zero_run(g, i) == zero_run(g, longest_run(g, k)) ==> longest_run(g, k) <= i,
        0 <= longest_run(g, k) <= k,
    decreases k,
{
    if k > 0 {
        if i < k {
            lemma_longest_run_is_first(g, k - 1, i);
        } else {
            lemma_longest_run_is_first(g, k - 1, k - 1);
        }
    }
}

/// Canonical IPv6 text leaves out the longest run of zero groups, and the first of the longest;
/// the groups before and after it stand in hexadecimal between colons. Where no two zero
/// groups adjoin, all eight stand; and an IPv4 address behind five zero groups and `ffff` is a
/// dotted quad.
pub proof fn law_ipv6_text_leaves_out_the_first_longest_run(g: Seq<u16>, start: int, n: int)
    requires
        g.len() == 8,
    ensures
        ({
            let holds_quad = zeros(g, 0, 5) && g[5] == 0xffff;
            &&& !holds_quad && n >= 2 && zeros(g, start, n) && (forall|i: int, m: int| #[trigger]
                zeros(g, i, m) ==> m < n || (m == n && start <= i)) ==> ipv6_text(g) == colon_hex(
                g.take(start),
            ) + "::"@ + colon_hex(g.skip(start + n))
            &&& !holds_quad && (forall|i: int| !#[trigger] zeros(g, i, 2)) ==> ipv6_text(g)
                == colon_hex(g)
            &&& holds_quad ==> ipv6_text(g) == "::ffff:"@ + dotted(
                seq![
                    (g[6] / 256) as u8,
                    (g[6] % 256) as u8,
                    (g[7] / 256) as u8,
                    (g[7] % 256) as u8,
                ],
            )
        }),
{
    let holds_quad = zeros(g, 0, 5) && g[5] == 0xffff;
    let at = longest_run(g, 7);
    let len = zero_run(g, at) as int;
    lemma_longest_run_range(g, 7);
    lemma_zero_run(g, at);
    assert(zeros(g, at, len));
    if holds_quad {
        assert(g[0] == 0 && g[1] == 0 && g[2] == 0 && g[3] == 0 && g[4] == 0);
        assert(crate::ip::pair_octets(g.skip(6)) =~= seq![
            (g[6] / 256) as u8,
            (g[6] % 256) as u8,
            (g[7] / 256) as u8,
            (g[7] % 256) as u8,
        ]);
    } else {
        if crate::ip::is_mapped_groups(g) {
            assert(zeros(g, 0, 5));
        }
        if n >= 2 && zeros(g, start, n) && (forall|i: int, m: int| #[trigger]
            zeros(g, i, m) ==> m < n || (m == n && start <= i)) {
            lemma_run_is_longest_from(g, start, n);
            lemma_longest_run_is_first(g, 7, start);
            assert(len == n && start <= at);
            assert(at == start);
        }
        if forall|i: int| !#[trigger] zeros(g, i, 2) {
            if len >= 2 {
                assert(zeros(g, at, 2));
            }
        }
    }
}

/// Groups in hexadecimal: a single group is its numeral, and each further one follows a colon.
pub proof fn law_groups_stand_between_colons(g: Seq<u16>, x: u16)
    ensures
        colon_hex(Seq::<u16>::empty()).len() == 0,
        g.len() == 0 ==> colon_hex(g.push(x)) == numeral(x as nat, 16),
        g.len() > 0 ==> colon_hex(g.push(x)) == colon_hex(g) + seq![':'] + numeral(x as nat, 16),
{
    let f = crate::ip::group_fields(g.push(x));
    assert(f.drop_last() =~= crate::ip::group_fields(g));
    assert(f.last() == numeral(x as nat, 16));
    if g.len() > 0 {
        assert(colon_hex(g.push(x)) =~= colon_hex(g) + seq![':'] + numeral(x as nat, 16));
    } else {
        assert(f.len() == 1);
    }
}

/// Four decimal fields between dots, each below 256, are IPv4, also with zeros before them.
pub proof fn law_decimal_quads_are_ipv4(host: Seq<char>)
    requires
        split(host, '.').len() == 4,
        forall|i: int|
            0 <= i < 4 ==> is_numeral(#[trigger] split(host, '.')[i], 10) && numeral_value(
                split(host, '.')[i],
                10,
            ) < 256,
    ensures
        network_of(host) == NetworkType::Ipv4,
{
    let fields = split(host, '.');
    assert forall|i: int| 0 <= i < host.len() implies (#[trigger] host[i]) == '.' || is_digit(
        host[i],
        10,
    ) by {
        crate::probe_laws::lemma_split_covers(host, '.', i);
        if host[i] != '.' {
            let k = choose|k: int| 0 <= k < fields.len() && (#[trigger] fields[k]).contains(host[i]);
            let j = choose|j: int| 0 <= j < fields[k].len() && fields[k][j] == host[i];
            assert(is_digit(fields[k][j], 10));
        }
    }
    assert(!host.contains(':')) by {
        if host.contains(':') {
            let i = choose|i: int| 0 <= i < host.len() && host[i] == ':';
            assert(host[i] == '.' || is_digit(host[i], 10));
        }
    }
    reveal_strlit(".onion");
    reveal_strlit(".b32.i2p");
    if crate::text::ends_with(host, ".onion"@) {
        let at = host.len() - 6;
        assert(host.subrange(at, at + 6)[5] == 'n');
        assert(host[at + 5] == 'n');
        assert(is_digit('n', 10));
    }
    if crate::text::ends_with(host, ".b32.i2p"@) {
        let at = host.len() - 8;
        assert(host.subrange(at, at + 8)[7] == 'p');
        assert(host[at + 7] == 'p');
        assert(is_digit('p', 10));
    }
}

} // verus!
