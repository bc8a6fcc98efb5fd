//! DNS seeds: the hostnames that a crawl starts from, and what their addresses become.
use vstd::prelude::*;
use crate::address::{classify, network_of, NetworkType, Transport};
use crate::crawler::{sent_views, CrawlView, Crawler, Sent};
use crate::ip::{dotted, format_ipv4};
use crate::lexical::{lemma_lex_total, lemma_lex_transitive, lex_less, octet_values, octets_less};
use crate::protocol::{decode_legacy_ip, legacy_host};
use crate::store::{AddrKey, KeyView};
use crate::text::{chars_of, decimal, push_chars, push_decimal, sub_chars};

verus! {

/// The hardcoded mainnet DNS seeds, trailing-dot FQDN form.
pub const SEEDS: [&'static str; 7] = [
    "dnsseed.bluematt.me.",
    "seed.bitcoin.jonasschnelli.ch.",
    "seed.btc.petertodd.net.",
    "seed.bitcoin.sprovoost.nl.",
    "dnsseed.emzy.de.",
    "seed.bitcoin.wiz.biz.",
    "seed.mainnet.achownodes.xyz.",
];

/// The default mainnet P2P port.
pub const MAINNET_PORT: u16 = 8333;

/// An IP address as its octets.
#[derive(Debug, Clone, Copy)]
pub enum IpOctets {
    V4([u8; 4]),
    V6([u8; 16]),
}

impl View for IpOctets {
    type V = Seq<u8>;

    open spec fn view(&self) -> Seq<u8> {
        match self {
            IpOctets::V4(o) => o@,
            IpOctets::V6(o) => o@,
        }
    }
}

/// The host text of an address: a mapped IPv4 address is written as a dotted quad.
pub open spec fn ip_host(ip: IpOctets) -> Seq<char> {
    match ip {
        IpOctets::V4(o) => dotted(o@),
        IpOctets::V6(o) => legacy_host(o@).0,
    }
}

/// Renders a resolved IP into the crawler's host-string form.
pub fn ip_to_host(ip: IpOctets) -> (r: String)
    ensures
        r@ == ip_host(ip),
{
    match ip {
        IpOctets::V4(o) => format_ipv4(&o),
        IpOctets::V6(o) => {
            let (host, _network) = decode_legacy_ip(&o);
            host
        },
    }
}

/// `s` without dots at its end.
pub open spec fn without_final_dots(s: Seq<char>) -> Seq<char>
    decreases s.len(),
{
    if s.len() > 0 && s.last() == '.' {
        without_final_dots(s.drop_last())
    } else {
        s
    }
}

/// What the resolver is asked for a seed: its name without the final dot, and the port.
pub fn seed_query(seed: &str) -> (r: String)
    ensures
        r@ == without_final_dots(seed@) + seq![':'] + decimal(MAINNET_PORT as nat),
{
    let chars = chars_of(seed);
    let mut n: usize = chars.len();
    proof {
        assert(chars@.take(n as int) =~= chars@);
    }
    while n > 0 && chars[n - 1] == '.'
        invariant
            n <= chars@.len(),
            without_final_dots(chars@.take(n as int)) == without_final_dots(chars@),
        decreases n,
    {
        proof {
            assert(chars@.take(n as int).drop_last() =~= chars@.take(n - 1));
        }
        n = n - 1;
    }
    let host = sub_chars(&chars, 0, n);
    proof {
        assert(host@ =~= chars@.take(n as int));
    }
    let mut out: String = String::new();
    push_chars(&mut out, &host);
    out.push(':');
    push_decimal(&mut out, MAINNET_PORT as u64);
    proof {
        assert(out@ =~= without_final_dots(seed@) + seq![':'] + decimal(MAINNET_PORT as nat));
    }
    out
}

// ---------------------------------------------------------------------------
// Unique addresses
// ---------------------------------------------------------------------------

/// Whether address `a` comes before address `b`: IPv4 before IPv6, then by octets.
pub open spec fn ip_before(a: IpOctets, b: IpOctets) -> bool {
    match (a, b) {
        (IpOctets::V4(x), IpOctets::V4(y)) => lex_less(octet_values(x@), octet_values(y@)),
        (IpOctets::V6(x), IpOctets::V6(y)) => lex_less(octet_values(x@), octet_values(y@)),
        (IpOctets::V4(_), IpOctets::V6(_)) => true,
        (IpOctets::V6(_), IpOctets::V4(_)) => false,
    }
}

/// Whether two addresses are the same.
pub open spec fn same_ip(a: IpOctets, b: IpOctets) -> bool {
    a is V4 == b is V4 && a@ == b@
}

/// Whether the addresses stand in order, without repetition.
pub open spec fn ips_in_order(s: Seq<IpOctets>) -> bool {
    forall|i: int, j: int| 0 <= i < j < s.len() ==> ip_before(#[trigger] s[i], #[trigger] s[j])
}

/// Whether an address is among others.
pub open spec fn has_ip(s: Seq<IpOctets>, ip: IpOctets) -> bool {
    exists|i: int| 0 <= i < s.len() && same_ip(#[trigger] s[i], ip)
}

proof fn lemma_ip_total(a: IpOctets, b: IpOctets)
    ensures
        ip_before(a, b) || ip_before(b, a) || same_ip(a, b),
{
    lemma_lex_total(octet_values(a@), octet_values(b@));
    if octet_values(a@) == octet_values(b@) {
        assert(a@.len() == octet_values(a@).len());
        assert(b@.len() == octet_values(b@).len());
        assert forall|i: int| 0 <= i < a@.len() implies a@[i] == b@[i] by {
            assert(octet_values(a@)[i] == octet_values(b@)[i]);
        }
        assert(a@ =~= b@);
    }
}

proof fn lemma_ip_transitive(a: IpOctets, b: IpOctets, c: IpOctets)
    requires
        ip_before(a, b),
        ip_before(b, c),
    ensures
        ip_before(a, c),
{
    if a is V4 == c is V4 {
        lemma_lex_transitive(octet_values(a@), octet_values(b@), octet_values(c@));
    }
}

fn ip_less(a: IpOctets, b: IpOctets) -> (r: bool)
    ensures
        r == ip_before(a, b),
{
    match (a, b) {
        (IpOctets::V4(x), IpOctets::V4(y)) => octets_less(&x, &y),
        (IpOctets::V6(x), IpOctets::V6(y)) => octets_less(&x, &y),
        (IpOctets::V4(_), IpOctets::V6(_)) => true,
        (IpOctets::V6(_), IpOctets::V4(_)) => false,
    }
}

/// Puts an address in its place, unless it is already there.
fn insert_ip(sorted: &mut Vec<IpOctets>, ip: IpOctets)
    requires
        ips_in_order(old(sorted)@),
    ensures
        ips_in_order(final(sorted)@),
        forall|x: IpOctets| #[trigger]
            has_ip(final(sorted)@, x) <==> has_ip(old(sorted)@, x) || same_ip(ip, x),
{
    let ghost start = sorted@;
    let mut at: usize = 0;
    while at < sorted.len() && ip_less(sorted[at], ip)
        invariant
            sorted@ == start,
            ips_in_order(start),
            at <= start.len(),
            forall|k: int| 0 <= k < at ==> ip_before(#[trigger] start[k], ip),
        decreases start.len() - at,
    {
        at = at + 1;
    }
    if at < sorted.len() && !ip_less(ip, sorted[at]) {
        proof {
            lemma_ip_total(start[at as int], ip);
            assert(same_ip(start[at as int], ip));
            assert forall|x: IpOctets| same_ip(ip, x) implies #[trigger] has_ip(start, x) by {
                assert(same_ip(start[at as int], x));
            }
        }
        return ;
    }
    sorted.insert(at, ip);
    proof {
        let now = sorted@;
        assert(now == start.insert(at as int, ip));
        assert forall|k: int| at <= k < start.len() implies ip_before(ip, #[trigger] start[k]) by {
            if k > at {
                assert(ip_before(start[at as int], start[k]));
                lemma_ip_transitive(ip, start[at as int], start[k]);
            }
        }
        assert forall|i: int, j: int| 0 <= i < j < now.len() implies ip_before(
            #[trigger] now[i],
            #[trigger] now[j],
        ) by {
            let p = if i < at {
                i
            } else {
                i - 1
            };
            let q = if j < at {
                j
            } else {
                j - 1
            };
            if i != at && j != at {
                assert(now[i] == start[p]);
                assert(now[j] == start[q]);
            } else if i == at {
                assert(now[j] == start[j - 1]);
            } else {
                assert(now[i] == start[i]);
            }
        }
        assert forall|x: IpOctets| #[trigger] has_ip(now, x) <==> has_ip(start, x) || same_ip(
            ip,
            x,
        ) by {
            if has_ip(now, x) {
                let i = choose|i: int| 0 <= i < now.len() && same_ip(#[trigger] now[i], x);
                if i < at {
                    assert(same_ip(start[i], x));
                } else if i > at {
                    assert(same_ip(start[i - 1], x));
                }
            }
            if has_ip(start, x) {
                let i = choose|i: int| 0 <= i < start.len() && same_ip(#[trigger] start[i], x);
                if i < at {
                    assert(same_ip(now[i], x));
                } else {
                    assert(same_ip(now[i + 1], x));
                }
            }
            if same_ip(ip, x) {
                assert(same_ip(now[at as int], x));
            }
        }
    }
}

/// The resolved addresses in order, each once: a resolver may give an address once per
/// socket type.
pub fn unique_ips(ips: &Vec<IpOctets>) -> (r: Vec<IpOctets>)
    ensures
        ips_in_order(r@),
        forall|x: IpOctets| #[trigger] has_ip(r@, x) <==> has_ip(ips@, x),
{
    let mut out: Vec<IpOctets> = Vec::new();
    let mut i: usize = 0;
    while i < ips.len()
        invariant
            i <= ips@.len(),
            ips_in_order(out@),
            forall|x: IpOctets| #[trigger]
                has_ip(out@, x) <==> has_ip(ips@.take(i as int), x),
        decreases ips@.len() - i,
    {
        let ghost before = ips@.take(i as int);
        let ghost after = ips@.take(i + 1);
        let ghost old_out = out@;
        insert_ip(&mut out, ips[i]);
        proof {
            assert forall|x: IpOctets| #[trigger] has_ip(out@, x) <==> has_ip(after, x) by {
                assert(has_ip(out@, x) <==> has_ip(old_out, x) || same_ip(ips@[i as int], x));
                if has_ip(before, x) {
                    let k = choose|k: int| 0 <= k < before.len() && same_ip(#[trigger] before[k], x);
                    assert(same_ip(after[k], x));
                }
                if same_ip(ips@[i as int], x) {
                    assert(same_ip(after[i as int], x));
                }
                if has_ip(after, x) {
                    let k = choose|k: int| 0 <= k < after.len() && same_ip(#[trigger] after[k], x);
                    if k < i {
                        assert(same_ip(before[k], x));
                    }
                }
            }
        }
        i = i + 1;
    }
    proof {
        assert(ips@.take(i as int) =~= ips@);
    }
    out
}

// ---------------------------------------------------------------------------
// Seeding
// ---------------------------------------------------------------------------

/// A seeded address and its network.
pub type Seeded = (KeyView, NetworkType);

/// What seeding a crawl with the first `n` addresses of a seed lists, sends and leaves: each
/// address of an enabled network is listed, and sent where it is new.
pub open spec fn seeded(c: CrawlView, ips: Seq<IpOctets>, n: nat, now: i64) -> (
    Seq<Seeded>,
    Seq<Sent>,
    CrawlView,
)
    decreases n,
{
    if n == 0 {
        (Seq::empty(), Seq::empty(), c)
    } else {
        let (list, sent, mid) = seeded(c, ips, (n - 1) as nat, now);
        let host = ip_host(ips[n - 1]);
        let net = network_of(host);
        let key = (host, MAINNET_PORT);
        if !c.settings.enables(net) {
            (list, sent, mid)
        } else {
            let (fresh, next) = mid.after_seed(key, now);
            (
                list.push((key, net)),
                if fresh {
                    sent.push((key, crate::address::network_transport(net)))
                } else {
                    sent
                },
                next,
            )
        }
    }
}

/// The contents of a list of seeded addresses.
pub open spec fn seeded_views(list: Seq<(AddrKey, NetworkType)>) -> Seq<Seeded> {
    Seq::new(list.len(), |i: int| (list[i].0@, list[i].1))
}

/// Seeds a crawl with the addresses of one seed. Returns those of enabled networks, and which
/// of them go into which queue because they are new.
pub fn seed_crawl(crawler: &mut Crawler, ips: &Vec<IpOctets>, now: i64) -> (r: (
    Vec<(AddrKey, NetworkType)>,
    Vec<(AddrKey, Transport)>,
))
    requires
        old(crawler).wf(),
    ensures
        final(crawler).wf(),
        (seeded_views(r.0@), sent_views(r.1@), final(crawler)@) == seeded(
            old(crawler)@,
            ips@,
            ips@.len(),
            now,
        ),
{
    let mut list: Vec<(AddrKey, NetworkType)> = Vec::new();
    let mut sent: Vec<(AddrKey, Transport)> = Vec::new();
    let ghost start = crawler@;
    let mut i: usize = 0;
    proof {
        assert(seeded_views(list@) =~= Seq::<Seeded>::empty());
        assert(sent_views(sent@) =~= Seq::<Sent>::empty());
    }
    while i < ips.len()
        invariant
            i <= ips@.len(),
            crawler.wf(),
            crawler@.settings == start.settings,
            (seeded_views(list@), sent_views(sent@), crawler@) == seeded(
                start,
                ips@,
                i as nat,
                now,
            ),
        decreases ips@.len() - i,
    {
        let ghost list0 = seeded_views(list@);
        let ghost sent0 = sent_views(sent@);
        let host = ip_to_host(ips[i]);
        let net = classify(&host);
        if crawler.settings().is_enabled(net) {
            let key = AddrKey::new(&host, MAINNET_PORT);
            if let Some(transport) = crawler.enqueue_seed(&key, now) {
                let copy = key.clone();
                let ghost one = (copy@, transport);
                sent.push((copy, transport));
                proof {
                    assert(sent_views(sent@) =~= sent0.push(one));
                }
            }
            let ghost one = (key@, net);
            list.push((key, net));
            proof {
                assert(seeded_views(list@) =~= list0.push(one));
            }
        }
        i = i + 1;
    }
    (list, sent)
}

} // verus!
