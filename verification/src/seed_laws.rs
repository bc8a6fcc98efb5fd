//! Laws of seeding and of the preflight probes.
use vstd::prelude::*;
use crate::address::network_of;
use crate::crawler::CrawlView;
use crate::dns::{
    has_ip, ip_before, ip_host, ips_in_order, same_ip, seeded, without_final_dots, IpOctets,
};
use crate::frontier_laws::{carries, law_new_seeds_are_queued, law_seeded_address, stands, was_sent};
use crate::ip::{dotted, ipv6_text, octet_groups};
use crate::lexical::{lex_less, octet_values};
use crate::message_laws::{holds_ipv4, lemma_holds_ipv4};
use crate::preflight::{
    candidates, failures, first_word, is_row, names_cjdns, octet_pair_at, padded, row_failed,
    row_text, up_to_space, PreflightRow, ProbeResult, ProbedNetwork,
};
use crate::protocol::hex_text;
use crate::settings::Settings;
use crate::store::{distinct_rows, find_row, lemma_find_row, lemma_find_row_at, KeyView, NodeState};
use crate::text::is_space;

verus! {

// ---------------------------------------------------------------------------
// Seeding
// ---------------------------------------------------------------------------

/// A resolved address is written as its family asks for; IPv4 inside IPv6 is a dotted quad.
pub proof fn law_resolved_addresses_are_spelled_out(ip: IpOctets)
    ensures
        match ip {
            IpOctets::V4(o) => ip_host(ip) == dotted(o@),
            IpOctets::V6(o) => ip_host(ip) == if holds_ipv4(o@) {
                dotted(o@.skip(12))
            } else {
                ipv6_text(octet_groups(o@))
            },
        },
{
    if let IpOctets::V6(o) = ip {
        lemma_holds_ipv4(o@);
    }
}

/// The dots at the end of a name are left out, and nothing else.
pub proof fn law_final_dots_are_left_out(name: Seq<char>, dots: Seq<char>)
    requires
        name.len() > 0 ==> name.last() != '.',
        forall|i: int| 0 <= i < dots.len() ==> #[trigger] dots[i] == '.',
    ensures
        without_final_dots(name + dots) == name,
    decreases dots.len(),
{
    let s = name + dots;
    if dots.len() > 0 {
        let fewer = dots.drop_last();
        assert forall|i: int| 0 <= i < fewer.len() implies #[trigger] fewer[i] == '.' by {
            assert(fewer[i] == dots[i]);
        }
        law_final_dots_are_left_out(name, fewer);
        assert(s.last() == dots[dots.len() - 1]);
        assert(s.drop_last() =~= name + fewer);
    } else {
        assert(s =~= name);
    }
}

/// The addresses of a seed whose network is switched on, in order.
pub open spec fn wanted(c: CrawlView, ips: Seq<IpOctets>) -> Seq<IpOctets> {
    ips.filter(|ip: IpOctets| c.settings.enables(network_of(ip_host(ip))))
}

/// Seeding lists exactly the addresses whose network is switched on, in order, on the port of
/// the main network. Each of them that is new to the crawl, while the budget has room for all,
/// is queued once, for the transport that carries its network, and counts as outstanding work;
/// what was known keeps its state.
pub proof fn law_seeding_queues_what_is_new(c: CrawlView, ips: Seq<IpOctets>, n: nat, now: i64)
    requires
        n <= ips.len(),
        distinct_rows(c.store.rows),
        c.store.rows.len() + n <= c.store.max_entries,
        c.store.outstanding + n < usize::MAX,
        c.store.budget_rejected < usize::MAX,
    ensures
        ({
            let (list, sent, d) = seeded(c, ips, n, now);
            let kept = wanted(c, ips.take(n as int));
            &&& list.len() == kept.len()
            &&& forall|k: int|
                0 <= k < list.len() ==> #[trigger] list[k] == (
                    (ip_host(kept[k]), 8333u16),
                    network_of(ip_host(kept[k])),
                )
            &&& d.settings == c.settings
            &&& distinct_rows(d.store.rows)
            &&& d.store.rows.len() <= c.store.rows.len() + n
            &&& d.store.max_entries == c.store.max_entries
            &&& d.store.budget_rejected == c.store.budget_rejected
            &&& sent.len() <= n
            &&& d.store.outstanding == c.store.outstanding + sent.len()
            &&& forall|k: int|
                0 <= k < list.len() ==> d.entry_of((#[trigger] list[k]).0) is Some && (c.entry_of(
                    list[k].0,
                ) is None ==> was_sent(sent, list[k].0))
            &&& forall|j: int|
                0 <= j < sent.len() ==> c.entry_of((#[trigger] sent[j]).0) is None && stands(
                    d,
                    sent[j].0,
                    NodeState::Queued,
                ) && carries(sent[j].1, network_of(sent[j].0.0))
            &&& forall|i: int, j: int| 0 <= i < j < sent.len() ==> sent[i].0 != sent[j].0
            &&& forall|key: KeyView|
                c.entry_of(key) is None && #[trigger] d.entry_of(key) is Some ==> was_sent(
                    sent,
                    key,
                )
            &&& forall|key: KeyView, state: NodeState|
                stands(c, key, state) ==> #[trigger] stands(d, key, state)
        }),
    decreases n,
{
    reveal(Seq::filter);
    if n > 0 {
        let m = (n - 1) as nat;
        law_seeding_queues_what_is_new(c, ips, m, now);
        let (list, sent, mid) = seeded(c, ips, m, now);
        let host = ip_host(ips[m as int]);
        let key = (host, 8333u16);
        assert(ips.take(n as int).drop_last() =~= ips.take(m as int));
        assert(ips.take(n as int).last() == ips[m as int]);
        if c.settings.enables(network_of(host)) {
            law_new_seeds_are_queued(mid, key, now);
            law_seeded_address(mid.store, key, now);
            lemma_seed_others(mid, key, now);
            let (fresh, d) = mid.after_seed(key, now);
            let (all, out, _) = seeded(c, ips, n, now);
            assert forall|k2: KeyView| was_sent(sent, k2) implies was_sent(out, k2) by {
                let j = choose|j: int| 0 <= j < sent.len() && (#[trigger] sent[j]).0 == k2;
                assert(out[j].0 == k2);
            }
            if fresh {
                assert(out[sent.len() as int].0 == key);
                assert(was_sent(out, key));
            }
            assert forall|k: int| 0 <= k < all.len() implies d.entry_of(
                (#[trigger] all[k]).0,
            ) is Some && (c.entry_of(all[k].0) is None ==> was_sent(out, all[k].0)) by {
                if k < list.len() {
                    assert(all[k] == list[k]);
                    assert(mid.entry_of(list[k].0) is Some);
                }
            }
            assert forall|j: int| 0 <= j < out.len() implies c.entry_of(
                (#[trigger] out[j]).0,
            ) is None && stands(d, out[j].0, NodeState::Queued) && carries(
                out[j].1,
                network_of(out[j].0.0),
            ) by {
                if j < sent.len() {
                    assert(out[j] == sent[j]);
                    assert(stands(mid, sent[j].0, NodeState::Queued));
                } else if let Some(e) = c.entry_of(key) {
                    assert(stands(c, key, e.state));
                    assert(stands(mid, key, e.state));
                }
            }
            assert forall|i: int, j: int| 0 <= i < j < out.len() implies out[i].0 != out[j].0 by {
                assert(out[i] == sent[i]);
                assert(stands(mid, sent[i].0, NodeState::Queued));
                if j < sent.len() {
                    assert(out[j] == sent[j]);
                }
            }
            assert forall|k2: KeyView| c.entry_of(k2) is None && #[trigger] d.entry_of(
                k2,
            ) is Some implies was_sent(out, k2) by {
                if k2 != key || !fresh {
                    assert(mid.entry_of(k2) is Some);
                }
            }
            assert forall|k2: KeyView, state: NodeState| stands(c, k2, state) implies #[trigger] stands(
                d,
                k2,
                state,
            ) by {
                assert(stands(mid, k2, state));
            }
        }
    }
}

/// A seed leaves all other addresses alone, and one that is known in its state.
proof fn lemma_seed_others(c: CrawlView, key: KeyView, now: i64)
    requires
        distinct_rows(c.store.rows),
        c.store.budget_rejected < usize::MAX,
    ensures
        ({
            let d = c.after_seed(key, now).1;
            &&& distinct_rows(d.store.rows)
            &&& forall|k: KeyView| k != key ==> #[trigger] d.entry_of(k) == c.entry_of(k)
            &&& c.entry_of(key) matches Some(e) ==> stands(d, key, e.state)
            &&& c.entry_of(key) is None && c.store.rows.len() >= c.store.max_entries
                ==> d.entry_of(key) is None
        }),
{
    law_seeded_address(c.store, key, now);
    let d = c.after_seed(key, now).1;
    let (a, b) = (c.store.rows, d.store.rows);
    lemma_find_row(a, key);
    if find_row(a, key) is None && a.len() < c.store.max_entries {
        assert forall|i: int| 0 <= i < a.len() implies #[trigger] b[i] == a[i] by {
            assert(b.drop_last()[i] == a[i]);
        }
    }
    assert forall|i: int, j: int| 0 <= i < j < b.len() implies (#[trigger] b[i]).0 != (
    #[trigger] b[j]).0 by {
        assert(b[i].0 == a[i].0);
        if j < a.len() {
            assert(b[j].0 == a[j].0);
        }
    }
    if let Some(i) = find_row(a, key) {
        lemma_find_row_at(b, i);
    }
    assert forall|k: KeyView| k != key implies #[trigger] d.entry_of(k) == c.entry_of(k) by {
        lemma_find_row(a, k);
        lemma_find_row(b, k);
        match find_row(a, k) {
            Some(i) => {
                assert(b[i] == a[i]);
                lemma_find_row_at(b, i);
            },
            None => {
                if let Some(j) = find_row(b, k) {
                    if j < a.len() {
                        assert(b[j].0 == a[j].0);
                    }
                }
            },
        }
    }
}

// ---------------------------------------------------------------------------
// Preflight
// ---------------------------------------------------------------------------

/// A network's row has its name, says whether its switch is on, and shows what its probe found
/// where it is; a network that is switched off is skipped.
pub proof fn law_rows_show_their_network(
    row: PreflightRow,
    s: Settings,
    n: ProbedNetwork,
    found: ProbeResult,
)
    requires
        is_row(row, s, n, found),
    ensures
        match n {
            ProbedNetwork::Ipv4 => row.network@ == "ipv4"@ && row.enabled
                == s.enabled_networks.ipv4,
            ProbedNetwork::Ipv6 => row.network@ == "ipv6"@ && row.enabled
                == s.enabled_networks.ipv6,
            ProbedNetwork::Tor => row.network@ == "tor"@ && row.enabled == s.enabled_networks.tor,
            ProbedNetwork::I2p => row.network@ == "i2p"@ && row.enabled == s.enabled_networks.i2p,
            ProbedNetwork::Cjdns => row.network@ == "cjdns"@ && row.enabled
                == s.enabled_networks.cjdns,
        },
        row.enabled ==> row.result == found,
        !row.enabled ==> row.result is Skipped,
{
}

/// A probe tries the addresses of the wanted family in order, and no more than there is room
/// for.
pub proof fn law_probes_try_the_first_of_a_family(
    ips: Seq<IpOctets>,
    want_ipv6: bool,
    room: nat,
    n: nat,
)
    requires
        n <= ips.len(),
    ensures
        ({
            let family = ips.take(n as int).filter(|ip: IpOctets| (ip is V6) == want_ipv6);
            let r = candidates(ips, want_ipv6, room, n);
            &&& r.len() == if family.len() < room {
                family.len()
            } else {
                room
            }
            &&& forall|k: int| 0 <= k < r.len() ==> #[trigger] r[k] == ip_host(family[k])
        }),
    decreases n,
{
    reveal(Seq::filter);
    if n > 0 {
        law_probes_try_the_first_of_a_family(ips, want_ipv6, room, (n - 1) as nat);
        assert(ips.take(n as int).drop_last() =~= ips.take(n - 1));
        assert(ips.take(n as int).last() == ips[n - 1]);
    }
}

/// The failures are the networks that are switched on and were not reachable, in order, each by
/// its name and what was found.
pub proof fn law_failures_name_each_failed_network(rows: Seq<PreflightRow>, n: nat)
    requires
        n <= rows.len(),
    ensures
        ({
            let failed = rows.take(n as int).filter(
                |r: PreflightRow| r.enabled && !(r.result is Reachable),
            );
            let f = failures(rows, n);
            &&& f.len() == failed.len()
            &&& forall|k: int|
                0 <= k < f.len() ==> #[trigger] f[k] == failed[k].network@ + ": "@ + match failed[k].result {
                    ProbeResult::Reachable => "reachable"@,
                    ProbeResult::Unreachable(why) => "unreachable ("@ + why@ + ")"@,
                    ProbeResult::Skipped => "skipped"@,
                }
        }),
    decreases n,
{
    reveal(Seq::filter);
    if n > 0 {
        law_failures_name_each_failed_network(rows, (n - 1) as nat);
        assert(rows.take(n as int).drop_last() =~= rows.take(n - 1));
        assert(rows.take(n as int).last() == rows[n - 1]);
    }
}

/// A network has failed exactly where it is switched on and was not reachable.
pub proof fn law_only_enabled_networks_fail(row: PreflightRow)
    ensures
        row_failed(row) <==> row.enabled && !(row.result is Reachable),
{
}

/// A row of the table shows network, switch and result in columns of eight.
pub proof fn law_rows_are_set_in_columns(row: PreflightRow)
    requires
        row.network@.len() <= 8,
    ensures
        ({
            let t = row_text(row);
            let n = row.network@.len() as int;
            &&& t.take(n) == row.network@
            &&& forall|i: int| n <= i < 9 ==> #[trigger] t[i] == ' '
            &&& row.enabled ==> t.subrange(9, 18) == seq!['y', 'e', 's', ' ', ' ', ' ', ' ', ' ', ' ']
            &&& !row.enabled ==> t.subrange(9, 18) == seq![
                'n',
                'o',
                ' ',
                ' ',
                ' ',
                ' ',
                ' ',
                ' ',
                ' ',
            ]
            &&& t.skip(18) == match row.result {
                ProbeResult::Reachable => "reachable"@,
                ProbeResult::Unreachable(why) => "unreachable ("@ + why@ + ")"@,
                ProbeResult::Skipped => "skipped"@,
            }
        }),
{
    reveal_strlit("yes");
    reveal_strlit("no");
    reveal_strlit(" ");
    let t = row_text(row);
    let n = row.network@.len() as int;
    let on = if row.enabled {
        "yes"@
    } else {
        "no"@
    };
    assert(padded(row.network@, 8).len() == 8);
    assert(padded(on, 8).len() == 8);
    assert(t.take(n) =~= row.network@);
    assert forall|i: int| n <= i < 9 implies #[trigger] t[i] == ' ' by {
        if i < 8 {
            assert(t[i] == padded(row.network@, 8)[i]);
        }
    }
    if row.enabled {
        assert(t.subrange(9, 18) =~= seq!['y', 'e', 's', ' ', ' ', ' ', ' ', ' ', ' ']);
    } else {
        assert(t.subrange(9, 18) =~= seq!['n', 'o', ' ', ' ', ' ', ' ', ' ', ' ', ' ']);
    }
    assert(t.skip(18) =~= crate::preflight::probe_text(row.result));
}

proof fn lemma_word_ends_at_blank(word: Seq<char>, rest: Seq<char>)
    requires
        forall|i: int| 0 <= i < word.len() ==> !is_space(#[trigger] word[i]),
        rest.len() > 0 ==> is_space(rest[0]),
    ensures
        up_to_space(word + rest) == word,
    decreases word.len(),
{
    let s = word + rest;
    if word.len() > 0 {
        let tail = word.skip(1);
        assert forall|i: int| 0 <= i < tail.len() implies !is_space(#[trigger] tail[i]) by {
            assert(tail[i] == word[i + 1]);
        }
        lemma_word_ends_at_blank(tail, rest);
        assert(s[0] == word[0]);
        assert(s.skip(1) =~= tail + rest);
        assert(seq![word[0]] + tail =~= word);
    } else {
        assert(s =~= rest);
    }
}

/// A line of the interface table that begins with an address in hexadecimal names a CJDNS
/// interface exactly where the address begins with `fc`.
pub proof fn law_cjdns_interfaces_begin_with_fc(o: Seq<u8>, rest: Seq<char>)
    requires
        o.len() == 16,
        rest.len() > 0 ==> is_space(rest[0]),
    ensures
        names_cjdns(hex_text(o) + rest) <==> o[0] == 0xfc,
{
    let word = hex_text(o);
    let line = word + rest;
    assert forall|i: int| 0 <= i < word.len() implies !is_space(#[trigger] word[i]) by {
        let half = i / 2;
        assert(0 <= half < 16);
    }
    assert(line[0] == word[0]);
    assert(crate::text::trim_start(line) == line);
    lemma_word_ends_at_blank(word, rest);
    assert(first_word(line) == word);
    assert forall|i: int| 0 <= i < 16 implies #[trigger] octet_pair_at(word, i) == Some(
        o[i] as int,
    ) by {
        assert(word[2 * i] == crate::text::digit_char(o[i] as int / 16));
        assert(word[2 * i + 1] == crate::text::digit_char(o[i] as int % 16));
        crate::text::lemma_digit(o[i] as int / 16, 16);
        crate::text::lemma_digit(o[i] as int % 16, 16);
    }
    assert(octet_pair_at(word, 0) == Some(o[0] as int));
}

/// Addresses in order have IPv4 before IPv6, are ordered by their octets within a family, and
/// hold none twice.
pub proof fn law_addresses_stand_in_order_once(s: Seq<IpOctets>, i: int, j: int)
    requires
        ips_in_order(s),
        0 <= i < j < s.len(),
    ensures
        s[i] is V6 ==> s[j] is V6,
        s[i] is V4 == s[j] is V4 ==> lex_less(octet_values(s[i]@), octet_values(s[j]@)),
        !(s[i] is V4 == s[j] is V4 && s[i]@ == s[j]@),
{
    assert(ip_before(s[i], s[j]));
    if s[i] is V4 == s[j] is V4 && s[i]@ == s[j]@ {
        let a = octet_values(s[i]@);
        crate::log_laws::law_order_is_by_the_first_difference(a, a, a.len() as int);
    }
}

/// Seeding one address more is seeding the others and then, where its network is switched on,
/// that one, whatever room is left.
pub proof fn law_addresses_are_seeded_one_by_one(c: CrawlView, ips: Seq<IpOctets>, n: nat, now: i64)
    requires
        n < ips.len(),
    ensures
        ({
            let (list, sent, mid) = seeded(c, ips, n, now);
            let (all, out, end) = seeded(c, ips, n + 1, now);
            let host = ip_host(ips[n as int]);
            let key = (host, 8333u16);
            let (fresh, next) = mid.after_seed(key, now);
            if c.settings.enables(network_of(host)) {
                &&& end == next
                &&& all == list + seq![(key, network_of(host))]
                &&& !fresh ==> out == sent
                &&& fresh ==> out.len() == sent.len() + 1 && out.drop_last() == sent
                    && out.last().0 == key && carries(out.last().1, network_of(host))
            } else {
                all == list && out == sent && end == mid
            }
        }),
        seeded(c, ips, 0, now).0.len() == 0,
        seeded(c, ips, 0, now).1.len() == 0,
        seeded(c, ips, 0, now).2 == c,
{
    let (list, sent, mid) = seeded(c, ips, n, now);
    let (all, out, end) = seeded(c, ips, n + 1, now);
    let host = ip_host(ips[n as int]);
    if c.settings.enables(network_of(host)) {
        assert(all =~= list + seq![((host, 8333u16), network_of(host))]);
        if out.len() > sent.len() {
            assert(out.drop_last() =~= sent);
        }
    }
}

/// Two addresses are the same where family and octets agree, and one is among others where one
/// of them is the same.
pub proof fn law_same_addresses_agree(a: IpOctets, b: IpOctets, s: Seq<IpOctets>)
    ensures
        same_ip(a, b) <==> match (a, b) {
            (IpOctets::V4(x), IpOctets::V4(y)) => x@ == y@,
            (IpOctets::V6(x), IpOctets::V6(y)) => x@ == y@,
            _ => false,
        },
        has_ip(s, a) <==> exists|i: int|
            0 <= i < s.len() && ((#[trigger] s[i]) is V4 == a is V4 && s[i]@ == a@),
{
    if has_ip(s, a) {
        let i = choose|i: int| 0 <= i < s.len() && same_ip(#[trigger] s[i], a);
        assert(s[i] is V4 == a is V4 && s[i]@ == a@);
    }
    if exists|i: int| 0 <= i < s.len() && ((#[trigger] s[i]) is V4 == a is V4 && s[i]@ == a@) {
        let i = choose|i: int|
            0 <= i < s.len() && ((#[trigger] s[i]) is V4 == a is V4 && s[i]@ == a@);
        assert(same_ip(s[i], a));
    }
}

} // verus!
