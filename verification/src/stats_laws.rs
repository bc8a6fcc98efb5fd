//! Laws of the statistics: what the counts, lists and histograms of a snapshot say.
use vstd::prelude::*;
use crate::address::{addr_text, NetworkType};
use crate::lexical::{code_points, lemma_lex_transitive, lex_less};
use crate::output::{
    breaks_down, histogram, law_reasons_are_in_alphabetical_order, network_count, reason_count,
    reason_label, reasons, rendered, seed_network_count, SeedResult, SeedSummary,
};
use crate::csv_text::string_views;
use crate::store::{state_count, AddrKey, FailKind, NetworkBreakdown, NodeState, Row};
use crate::table_laws::reason_name;

verus! {

/// The nodes in a state, in stored order.
pub open spec fn in_state(rows: Seq<Row>, state: NodeState) -> Seq<Row> {
    rows.filter(|r: Row| r.1.state == state)
}

/// The nodes of a network in a state, in stored order.
pub open spec fn of_network_in_state(rows: Seq<Row>, state: NodeState, network: NetworkType) -> Seq<
    Row,
> {
    rows.filter(|r: Row| r.1.state == state && r.1.network == network)
}

/// The nodes in a state that carry a failure reason, or none, in stored order.
pub open spec fn for_reason_in_state(
    rows: Seq<Row>,
    state: NodeState,
    reason: Option<FailKind>,
) -> Seq<Row> {
    rows.filter(|r: Row| r.1.state == state && r.1.failure == reason)
}

/// Nodes are counted by state, by network and by reason as they stand in the snapshot.
pub proof fn law_counts_are_of_the_nodes(
    rows: Seq<Row>,
    state: NodeState,
    network: NetworkType,
    reason: Option<FailKind>,
)
    ensures
        state_count(rows, state) == in_state(rows, state).len(),
        network_count(rows, state, network) == of_network_in_state(rows, state, network).len(),
        reason_count(rows, state, reason) == for_reason_in_state(rows, state, reason).len(),
        in_state(rows, state).len() <= rows.len(),
        of_network_in_state(rows, state, network).len() <= rows.len(),
        for_reason_in_state(rows, state, reason).len() <= in_state(rows, state).len(),
    decreases rows.len(),
{
    reveal(Seq::filter);
    if rows.len() > 0 {
        law_counts_are_of_the_nodes(rows.drop_last(), state, network, reason);
    }
}

/// A breakdown says of each network, under its own name, how many of its nodes are in the
/// state, and in total how many nodes are.
pub proof fn law_breakdown_counts_each_network(
    b: NetworkBreakdown,
    rows: Seq<Row>,
    state: NodeState,
)
    requires
        breaks_down(b, rows, state),
    ensures
        b.total == in_state(rows, state).len(),
        b.ipv4 == of_network_in_state(rows, state, NetworkType::Ipv4).len(),
        b.ipv6 == of_network_in_state(rows, state, NetworkType::Ipv6).len(),
        b.onion_v2 == of_network_in_state(rows, state, NetworkType::OnionV2).len(),
        b.onion_v3 == of_network_in_state(rows, state, NetworkType::OnionV3).len(),
        b.i2p == of_network_in_state(rows, state, NetworkType::I2p).len(),
        b.cjdns == of_network_in_state(rows, state, NetworkType::Cjdns).len(),
        b.unknown == of_network_in_state(rows, state, NetworkType::Unknown).len(),
        b.total == b.ipv4 + b.ipv6 + b.onion_v2 + b.onion_v3 + b.i2p + b.cjdns + b.unknown,
{
    law_counts_are_of_the_nodes(rows, state, NetworkType::Ipv4, None);
    law_counts_are_of_the_nodes(rows, state, NetworkType::Ipv6, None);
    law_counts_are_of_the_nodes(rows, state, NetworkType::OnionV2, None);
    law_counts_are_of_the_nodes(rows, state, NetworkType::OnionV3, None);
    law_counts_are_of_the_nodes(rows, state, NetworkType::I2p, None);
    law_counts_are_of_the_nodes(rows, state, NetworkType::Cjdns, None);
    law_counts_are_of_the_nodes(rows, state, NetworkType::Unknown, None);
    assert(b.count(NetworkType::Ipv4) == network_count(rows, state, NetworkType::Ipv4));
    assert(b.count(NetworkType::Ipv6) == network_count(rows, state, NetworkType::Ipv6));
    assert(b.count(NetworkType::OnionV2) == network_count(rows, state, NetworkType::OnionV2));
    assert(b.count(NetworkType::OnionV3) == network_count(rows, state, NetworkType::OnionV3));
    assert(b.count(NetworkType::I2p) == network_count(rows, state, NetworkType::I2p));
    assert(b.count(NetworkType::Cjdns) == network_count(rows, state, NetworkType::Cjdns));
    assert(b.count(NetworkType::Unknown) == network_count(rows, state, NetworkType::Unknown));
}

/// The list of a state names every node in it, in stored order, by host and port.
pub proof fn law_lists_name_each_node(rows: Seq<Row>, state: NodeState)
    ensures
        rendered(rows, state).len() == in_state(rows, state).len(),
        forall|k: int|
            0 <= k < rendered(rows, state).len() ==> #[trigger] rendered(rows, state)[k]
                == addr_text(in_state(rows, state)[k].0.0, in_state(rows, state)[k].0.1),
    decreases rows.len(),
{
    reveal(Seq::filter);
    if rows.len() > 0 {
        law_lists_name_each_node(rows.drop_last(), state);
    }
}

/// The name under which a reason is counted.
pub open spec fn counted_name(reason: Option<FailKind>) -> Seq<char> {
    if reason is Some {
        reason_name(reason->Some_0)
    } else {
        "unknown"@
    }
}

/// The sum of the counts in a histogram.
pub open spec fn counted_in_all(h: Seq<(Seq<char>, u64)>) -> int
    decreases h.len(),
{
    if h.len() == 0 {
        0
    } else {
        counted_in_all(h.drop_last()) + h.last().1
    }
}

/// The histogram of a state lists each failure reason of its nodes once, in alphabetical
/// order, with the number of nodes in that state whose failure it is; reasons that do not
/// occur are left out, and the counts add up to the number of nodes in the state.
pub proof fn law_histogram_counts_each_reason(rows: Seq<Row>, state: NodeState)
    requires
        rows.len() <= u64::MAX,
    ensures
        ({
            let h = histogram(rows, state, reasons().len());
            &&& counted_in_all(h) == in_state(rows, state).len()
            &&& forall|reason: Option<FailKind>|
                (#[trigger] for_reason_in_state(rows, state, reason)).len() > 0 ==> h.contains(
                    (
                        counted_name(reason),
                        for_reason_in_state(rows, state, reason).len() as u64,
                    ),
                )
            &&& forall|j: int|
                0 <= j < h.len() ==> exists|reason: Option<FailKind>|
                    (#[trigger] h[j]).0 == #[trigger] counted_name(reason) && h[j].1
                        == for_reason_in_state(rows, state, reason).len() && h[j].1 > 0
            &&& forall|i: int, j: int|
                0 <= i < j < h.len() ==> lex_less(
                    code_points((#[trigger] h[i]).0),
                    code_points((#[trigger] h[j]).0),
                )
        }),
{
    lemma_histogram(rows, state, 18);
    lemma_reason_sum(rows, state);
    let h = histogram(rows, state, reasons().len());
    assert forall|reason: Option<FailKind>|
        (#[trigger] for_reason_in_state(rows, state, reason)).len() > 0 implies h.contains(
        (counted_name(reason), for_reason_in_state(rows, state, reason).len() as u64),
    ) by {
        lemma_every_reason_is_listed(reason);
        let i = choose|i: int| 0 <= i < 18 && #[trigger] reasons()[i] == reason;
        law_counts_are_of_the_nodes(rows, state, NetworkType::Ipv4, reason);
        assert(h.contains((counted_name(reasons()[i]), reason_count(rows, state, reasons()[i]) as u64)));
    }
    assert forall|j: int| 0 <= j < h.len() implies exists|reason: Option<FailKind>|
        (#[trigger] h[j]).0 == #[trigger] counted_name(reason) && h[j].1 == for_reason_in_state(
            rows,
            state,
            reason,
        ).len() && h[j].1 > 0 by {
        let i = choose|i: int|
            0 <= i < 18 && h[j].0 == counted_name(#[trigger] reasons()[i]) && h[j].1
                == reason_count(rows, state, reasons()[i]) && h[j].1 > 0;
        law_counts_are_of_the_nodes(rows, state, NetworkType::Ipv4, reasons()[i]);
        assert(h[j].0 == counted_name(reasons()[i]));
    }
}

proof fn lemma_every_reason_is_listed(reason: Option<FailKind>)
    ensures
        exists|i: int| 0 <= i < 18 && #[trigger] reasons()[i] == reason,
{
    let r = reasons();
    match reason {
        Some(FailKind::ConnectOther) => assert(r[0] == reason),
        Some(FailKind::ConnectRefused) => assert(r[1] == reason),
        Some(FailKind::ConnectReset) => assert(r[2] == reason),
        Some(FailKind::ConnectTimeout) => assert(r[3] == reason),
        Some(FailKind::ConnectUnreachable) => assert(r[4] == reason),
        Some(FailKind::ConnectionClosed) => assert(r[5] == reason),
        Some(FailKind::HandshakeOther) => assert(r[6] == reason),
        Some(FailKind::HandshakeTimeout) => assert(r[7] == reason),
        Some(FailKind::MalformedVersion) => assert(r[8] == reason),
        Some(FailKind::NegotiationSendFailed) => assert(r[9] == reason),
        Some(FailKind::PeerVerackTimeout) => assert(r[10] == reason),
        Some(FailKind::ProtocolDesync) => assert(r[11] == reason),
        Some(FailKind::ProxyError) => assert(r[12] == reason),
        Some(FailKind::SamError) => assert(r[13] == reason),
        None => assert(r[14] == reason),
        Some(FailKind::VerackSendFailed) => assert(r[15] == reason),
        Some(FailKind::VersionSendFailed) => assert(r[16] == reason),
        Some(FailKind::WorkerFailed) => assert(r[17] == reason),
    }
}

/// A later reason has a later label.
proof fn lemma_labels_ascend(i: int, j: int)
    requires
        0 <= i < j < 18,
    ensures
        lex_less(code_points(reason_label(reasons()[i])), code_points(reason_label(reasons()[j]))),
    decreases j - i,
{
    law_reasons_are_in_alphabetical_order(j - 1);
    if i < j - 1 {
        lemma_labels_ascend(i, j - 1);
        lemma_lex_transitive(
            code_points(reason_label(reasons()[i])),
            code_points(reason_label(reasons()[j - 1])),
            code_points(reason_label(reasons()[j])),
        );
    }
}

/// What the histogram over the first `n` reasons lists.
proof fn lemma_histogram(rows: Seq<Row>, state: NodeState, n: nat)
    requires
        n <= 18,
        rows.len() <= u64::MAX,
    ensures
        ({
            let h = histogram(rows, state, n);
            &&& forall|i: int|
                0 <= i < n && reason_count(rows, state, #[trigger] reasons()[i]) > 0 ==> h.contains(
                    (counted_name(reasons()[i]), reason_count(rows, state, reasons()[i]) as u64),
                )
            &&& forall|j: int|
                0 <= j < h.len() ==> exists|i: int|
                    0 <= i < n && (#[trigger] h[j]).0 == counted_name(#[trigger] reasons()[i])
                        && h[j].1 == reason_count(rows, state, reasons()[i]) && h[j].1 > 0
            &&& forall|i: int, j: int|
                0 <= i < j < h.len() ==> lex_less(
                    code_points((#[trigger] h[i]).0),
                    code_points((#[trigger] h[j]).0),
                )
            &&& counted_in_all(h) == reasons_counted(rows, state, n)
        }),
    decreases n,
{
    if n > 0 {
        let m = (n - 1) as nat;
        lemma_histogram(rows, state, m);
        let before = histogram(rows, state, m);
        let h = histogram(rows, state, n);
        let reason = reasons()[m as int];
        law_counts_are_of_the_nodes(rows, state, NetworkType::Ipv4, reason);
        if reason_count(rows, state, reason) > 0 {
            let new = (counted_name(reason), reason_count(rows, state, reason) as u64);
            assert(h.last() == new);
            assert(h.drop_last() =~= before);
            assert forall|i: int|
                0 <= i < n && reason_count(
                    rows,
                    state,
                    #[trigger] reasons()[i],
                ) > 0 implies h.contains(
                (counted_name(reasons()[i]), reason_count(rows, state, reasons()[i]) as u64),
            ) by {
                if i < m {
                    let p = (
                        counted_name(reasons()[i]),
                        reason_count(rows, state, reasons()[i]) as u64,
                    );
                    assert(before.contains(p));
                    let j = choose|j: int| 0 <= j < before.len() && before[j] == p;
                    assert(h[j] == p);
                } else {
                    assert(h[h.len() - 1] == new);
                }
            }
            assert forall|j: int| 0 <= j < h.len() implies exists|i: int|
                0 <= i < n && (#[trigger] h[j]).0 == counted_name(#[trigger] reasons()[i])
                    && h[j].1 == reason_count(rows, state, reasons()[i]) && h[j].1 > 0 by {
                if j < before.len() {
                    assert(h[j] == before[j]);
                } else {
                    assert(reasons()[m as int] == reason);
                }
            }
            assert forall|i: int, j: int| 0 <= i < j < h.len() implies lex_less(
                code_points((#[trigger] h[i]).0),
                code_points((#[trigger] h[j]).0),
            ) by {
                assert(h[i] == before[i]);
                if j < before.len() {
                    assert(h[j] == before[j]);
                } else {
                    let at = choose|at: int|
                        0 <= at < m && before[i].0 == counted_name(#[trigger] reasons()[at])
                            && before[i].1 == reason_count(rows, state, reasons()[at])
                            && before[i].1 > 0;
                    lemma_labels_ascend(at, m as int);
                    lemma_counted_name(reasons()[at]);
                    lemma_counted_name(reason);
                }
            }
        } else {
            assert forall|j: int| 0 <= j < h.len() implies exists|i: int|
                0 <= i < n && (#[trigger] h[j]).0 == counted_name(#[trigger] reasons()[i])
                    && h[j].1 == reason_count(rows, state, reasons()[i]) && h[j].1 > 0 by {
                assert(h[j] == before[j]);
            }
        }
    }
}

proof fn lemma_counted_name(reason: Option<FailKind>)
    ensures
        counted_name(reason) == reason_label(reason),
{
}

/// How many nodes in a state carry one of the first `n` reasons.
spec fn reasons_counted(rows: Seq<Row>, state: NodeState, n: nat) -> int
    decreases n,
{
    if n == 0 {
        0
    } else {
        reasons_counted(rows, state, (n - 1) as nat) + reason_count(
            rows,
            state,
            reasons()[n - 1],
        )
    }
}

proof fn lemma_reason_sum(rows: Seq<Row>, state: NodeState)
    ensures
        reasons_counted(rows, state, 18) == in_state(rows, state).len(),
{
    crate::output::law_histogram_accounts_for_all(rows, state);
    law_counts_are_of_the_nodes(rows, state, NetworkType::Ipv4, None);
    lemma_same_sum(rows, state, 18);
}

proof fn lemma_same_sum(rows: Seq<Row>, state: NodeState, n: nat)
    ensures
        reasons_counted(rows, state, n) == crate::output::reason_total(rows, state, n),
    decreases n,
{
    if n > 0 {
        lemma_same_sum(rows, state, (n - 1) as nat);
    }
}

/// The addresses of a network that a seed gave.
pub open spec fn of_network_from_seed(
    addrs: Seq<(AddrKey, NetworkType)>,
    network: NetworkType,
) -> Seq<(AddrKey, NetworkType)> {
    addrs.filter(|a: (AddrKey, NetworkType)| a.1 == network)
}

proof fn lemma_seed_count(addrs: Seq<(AddrKey, NetworkType)>, network: NetworkType)
    ensures
        seed_network_count(addrs, network) == of_network_from_seed(addrs, network).len(),
    decreases addrs.len(),
{
    reveal(Seq::filter);
    if addrs.len() > 0 {
        lemma_seed_count(addrs.drop_last(), network);
    }
}

/// The summary of a seed counts its addresses under the name of their network, and names
/// each of them in order.
pub proof fn law_seed_summary_counts_each_network(s: SeedSummary, seed: SeedResult)
    requires
        s.summarizes(seed),
    ensures
        s.seed@ == seed.seed@,
        s.breakdown.total == seed.addrs@.len(),
        s.breakdown.ipv4 == of_network_from_seed(seed.addrs@, NetworkType::Ipv4).len(),
        s.breakdown.ipv6 == of_network_from_seed(seed.addrs@, NetworkType::Ipv6).len(),
        s.breakdown.onion_v2 == of_network_from_seed(seed.addrs@, NetworkType::OnionV2).len(),
        s.breakdown.onion_v3 == of_network_from_seed(seed.addrs@, NetworkType::OnionV3).len(),
        s.breakdown.i2p == of_network_from_seed(seed.addrs@, NetworkType::I2p).len(),
        s.breakdown.cjdns == of_network_from_seed(seed.addrs@, NetworkType::Cjdns).len(),
        s.breakdown.unknown == of_network_from_seed(seed.addrs@, NetworkType::Unknown).len(),
        s.list@.len() == seed.addrs@.len(),
        forall|k: int|
            0 <= k < s.list@.len() ==> (#[trigger] s.list@[k])@ == addr_text(
                seed.addrs@[k].0.host@,
                seed.addrs@[k].0.port,
            ),
{
    lemma_seed_count(seed.addrs@, NetworkType::Ipv4);
    lemma_seed_count(seed.addrs@, NetworkType::Ipv6);
    lemma_seed_count(seed.addrs@, NetworkType::OnionV2);
    lemma_seed_count(seed.addrs@, NetworkType::OnionV3);
    lemma_seed_count(seed.addrs@, NetworkType::I2p);
    lemma_seed_count(seed.addrs@, NetworkType::Cjdns);
    lemma_seed_count(seed.addrs@, NetworkType::Unknown);
    let b = s.breakdown;
    let a = seed.addrs@;
    assert(b.count(NetworkType::Ipv4) == seed_network_count(a, NetworkType::Ipv4));
    assert(b.count(NetworkType::Ipv6) == seed_network_count(a, NetworkType::Ipv6));
    assert(b.count(NetworkType::OnionV2) == seed_network_count(a, NetworkType::OnionV2));
    assert(b.count(NetworkType::OnionV3) == seed_network_count(a, NetworkType::OnionV3));
    assert(b.count(NetworkType::I2p) == seed_network_count(a, NetworkType::I2p));
    assert(b.count(NetworkType::Cjdns) == seed_network_count(a, NetworkType::Cjdns));
    assert(b.count(NetworkType::Unknown) == seed_network_count(a, NetworkType::Unknown));
    assert(string_views(s.list@).len() == s.list@.len());
    assert forall|k: int| 0 <= k < s.list@.len() implies (#[trigger] s.list@[k])@ == addr_text(
        seed.addrs@[k].0.host@,
        seed.addrs@[k].0.port,
    ) by {
        assert(string_views(s.list@)[k] == s.list@[k]@);
    }
}

} // verus!
