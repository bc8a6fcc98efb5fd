//! Direct probing: which nodes are asked for, and the report on them.
use vstd::prelude::*;
use crate::address::{addr_text, classify, network_label, network_of, NetworkType};
use crate::csv_text::string_views;
use crate::ip::{ipv6_value, parse_ipv6};
use crate::lexical::{
    code_points, lemma_lex_irreflexive, lemma_lex_total, lemma_lex_transitive, lex_less, text_less,
};
use crate::output::{reason_label, reasons};
use crate::store::{rows_of, AddrKey, EntryView, FailKind, KeyView, NodeEntry, NodeState, Row};
use crate::text::{
    chars_of, decimal, decimal_string, is_numeral, numeral_value, push_decimal, read_numeral,
    split, split_chars, string_of, sub_chars, trim, trim_chars, views,
};

verus! {

// ---------------------------------------------------------------------------
// Node lists
// ---------------------------------------------------------------------------

/// What a line of a node list asks for: the text before a comment, without blanks.
pub open spec fn node_token(line: Seq<char>) -> Seq<char> {
    trim(split(line, '#')[0])
}

/// The tokens of the first `n` lines that hold one.
pub open spec fn node_tokens(lines: Seq<Seq<char>>, n: nat) -> Seq<Seq<char>>
    decreases n,
{
    if n == 0 {
        Seq::empty()
    } else {
        let before = node_tokens(lines, (n - 1) as nat);
        let token = node_token(lines[n - 1]);
        if token.len() == 0 {
            before
        } else {
            before.push(token)
        }
    }
}

/// Splits file or stdin content into node tokens, dropping blanks and `#` comments.
pub fn split_lines(content: &str) -> (r: Vec<String>)
    ensures
        string_views(r@) == node_tokens(split(content@, '\n'), split(content@, '\n').len()),
{
    let chars = chars_of(content);
    let lines = split_chars(&chars, '\n');
    let ghost texts = split(content@, '\n');
    let mut out: Vec<String> = Vec::new();
    let mut i: usize = 0;
    proof {
        assert(string_views(out@) =~= Seq::<Seq<char>>::empty());
    }
    while i < lines.len()
        invariant
            i <= lines@.len(),
            views(lines@) == texts,
            string_views(out@) == node_tokens(texts, i as nat),
        decreases lines@.len() - i,
    {
        let ghost before = string_views(out@);
        let parts = split_chars(&lines[i], '#');
        proof {
            assert(texts[i as int] == lines@[i as int]@);
            assert(split(lines@[i as int]@, '#')[0] == parts@[0]@);
        }
        let token = trim_chars(&parts[0]);
        if token.len() > 0 {
            let s = string_of(&token);
            out.push(s);
            proof {
                assert(string_views(out@) =~= before.push(s@));
            }
        }
        i = i + 1;
    }
    out
}

/// Where `c` first stands in `s`.
pub open spec fn first_of(s: Seq<char>, c: char) -> Option<int>
    decreases s.len(),
{
    if s.len() == 0 {
        None
    } else if s[0] == c {
        Some(0)
    } else {
        match first_of(s.skip(1), c) {
            Some(i) => Some(i + 1),
            None => None,
        }
    }
}

/// Where `c` last stands in `s`.
pub open spec fn last_of(s: Seq<char>, c: char) -> Option<int>
    decreases s.len(),
{
    if s.len() == 0 {
        None
    } else if s.last() == c {
        Some(s.len() - 1)
    } else {
        last_of(s.drop_last(), c)
    }
}

/// The port that a numeral with an optional plus sign stands for.
pub open spec fn port_value(s: Seq<char>) -> Option<u16> {
    let digits = if s.len() > 0 && s[0] == '+' {
        s.skip(1)
    } else {
        s
    };
    if is_numeral(digits, 10) && numeral_value(digits, 10) <= 65535 {
        Some(numeral_value(digits, 10) as u16)
    } else {
        None
    }
}

/// The node that a token stands for: `[host]` or `[host]:port`, a bare IPv6 address,
/// `host:port`, or a host alone, which gets the default port.
pub open spec fn node_of(text: Seq<char>, default_port: u16) -> Option<KeyView> {
    let s = trim(text);
    if s.len() == 0 {
        None
    } else if s[0] == '[' {
        let rest = s.skip(1);
        match first_of(rest, ']') {
            None => None,
            Some(p) => {
                let after = rest.skip(p + 1);
                if after.len() == 0 {
                    Some((rest.take(p), default_port))
                } else if after[0] == ':' {
                    match port_value(after.skip(1)) {
                        Some(port) => Some((rest.take(p), port)),
                        None => None,
                    }
                } else {
                    None
                }
            },
        }
    } else if ipv6_value(s) is Some {
        Some((s, default_port))
    } else {
        match last_of(s, ':') {
            None => Some((s, default_port)),
            Some(p) => match port_value(s.skip(p + 1)) {
                Some(port) => Some((s.take(p), port)),
                None => Some((s, default_port)),
            },
        }
    }
}

fn find_first(s: &Vec<char>, c: char) -> (r: Option<usize>)
    ensures
        match r {
            Some(i) => first_of(s@, c) == Some(i as int) && i < s@.len(),
            None => first_of(s@, c) is None,
        },
{
    let mut i: usize = 0;
    proof {
        assert(s@.skip(0) =~= s@);
    }
    while i < s.len()
        invariant
            i <= s@.len(),
            first_of(s@, c) == match first_of(s@.skip(i as int), c) {
                Some(k) => Some(k + i),
                None => None,
            },
        decreases s@.len() - i,
    {
        proof {
            assert(s@.skip(i as int)[0] == s@[i as int]);
            assert(s@.skip(i as int).skip(1) =~= s@.skip(i + 1));
        }
        if s[i] == c {
            return Some(i);
        }
        i = i + 1;
    }
    None
}

fn find_last(s: &Vec<char>, c: char) -> (r: Option<usize>)
    ensures
        match r {
            Some(i) => last_of(s@, c) == Some(i as int) && i < s@.len(),
            None => last_of(s@, c) is None,
        },
{
    let mut n: usize = s.len();
    proof {
        assert(s@.take(n as int) =~= s@);
    }
    while n > 0
        invariant
            n <= s@.len(),
            last_of(s@, c) == last_of(s@.take(n as int), c),
        decreases n,
    {
        proof {
            assert(s@.take(n as int).last() == s@[n - 1]);
            assert(s@.take(n as int).drop_last() =~= s@.take(n - 1));
        }
        if s[n - 1] == c {
            return Some(n - 1);
        }
        n = n - 1;
    }
    None
}

fn parse_port(s: &Vec<char>) -> (r: Option<u16>)
    ensures
        r == port_value(s@),
{
    let n = s.len();
    let digits = if n > 0 && s[0] == '+' {
        sub_chars(s, 1, n)
    } else {
        sub_chars(s, 0, n)
    };
    proof {
        assert(s@.subrange(0, n as int) =~= s@);
        assert(s@.len() > 0 ==> s@.subrange(1, n as int) =~= s@.skip(1));
        if is_numeral(digits@, 10) {
            crate::text::lemma_numeral_value_nonneg(digits@, 10);
        }
    }
    match read_numeral(&digits, 10, 65535) {
        Some(v) => Some(v as u16),
        None => None,
    }
}

fn key_of(host: &Vec<char>, port: u16) -> (r: AddrKey)
    ensures
        r@ == (host@, port),
{
    AddrKey { host: string_of(host), port }
}

/// Parses one node string into an [`AddrKey`], applying `default_port` when the address
/// carries none. IPv6 addresses need brackets to have a port.
pub fn parse_node(text: &str, default_port: u16) -> (r: Option<AddrKey>)
    ensures
        match r {
            Some(k) => node_of(text@, default_port) == Some(k@),
            None => node_of(text@, default_port) is None,
        },
{
    let chars = chars_of(text);
    let s = trim_chars(&chars);
    let n = s.len();
    if n == 0 {
        return None;
    }
    if s[0] == '[' {
        let rest = sub_chars(&s, 1, n);
        proof {
            assert(rest@ =~= s@.skip(1));
        }
        let at = match find_first(&rest, ']') {
            Some(at) => at,
            None => {
                return None;
            },
        };
        let host = sub_chars(&rest, 0, at);
        let after = sub_chars(&rest, at + 1, rest.len());
        proof {
            assert(host@ =~= rest@.take(at as int));
            assert(after@ =~= rest@.skip(at + 1));
        }
        if after.len() == 0 {
            return Some(key_of(&host, default_port));
        }
        if after[0] != ':' {
            return None;
        }
        let port_text = sub_chars(&after, 1, after.len());
        proof {
            assert(port_text@ =~= after@.skip(1));
        }
        return match parse_port(&port_text) {
            Some(port) => Some(key_of(&host, port)),
            None => None,
        };
    }
    if parse_ipv6(&s).is_some() {
        return Some(key_of(&s, default_port));
    }
    if let Some(at) = find_last(&s, ':') {
        let host = sub_chars(&s, 0, at);
        let port_text = sub_chars(&s, at + 1, n);
        proof {
            assert(host@ =~= s@.take(at as int));
            assert(port_text@ =~= s@.skip(at + 1));
        }
        if let Some(port) = parse_port(&port_text) {
            return Some(key_of(&host, port));
        }
    }
    Some(key_of(&s, default_port))
}

/// What a token gives: a target of a known network, or a warning.
pub enum Target {
    Node(AddrKey),
    Skip(String),
}

/// Decides whether a token names a node that can be probed.
pub fn probe_target(token: &str, default_port: u16) -> (r: Target)
    ensures
        match node_of(token@, default_port) {
            None => r matches Target::Skip(w) && w@ == "skipping unparseable node: "@ + token@,
            Some(k) => if network_of(k.0) == NetworkType::Unknown {
                r matches Target::Skip(w) && w@ == "skipping unrecognised address: "@ + addr_text(
                    k.0,
                    k.1,
                )
            } else {
                r matches Target::Node(key) && key@ == k
            },
        },
{
    match parse_node(token, default_port) {
        None => {
            let mut w: String = "skipping unparseable node: ".to_owned();
            w.push_str(token);
            Target::Skip(w)
        },
        Some(key) => {
            if classify(&key.host) == NetworkType::Unknown {
                let mut w: String = "skipping unrecognised address: ".to_owned();
                w.push_str(&key.render());
                Target::Skip(w)
            } else {
                Target::Node(key)
            }
        },
    }
}

// ---------------------------------------------------------------------------
// Report
// ---------------------------------------------------------------------------

/// A string in the form that `{:?}` gives it.
pub uninterp spec fn debug_text(s: Seq<char>) -> Seq<char>;

/// Formatting a string with `{:?}`: a quoted form that depends on the string alone.
#[verifier::external_body]
fn debug_string(s: &str) -> (r: String)
    ensures
        r@ == debug_text(s@),
{
    format!("{:?}", s)
}

/// The name of a state.
pub open spec fn state_name(state: NodeState) -> Seq<char> {
    match state {
        NodeState::Queued => "Queued"@,
        NodeState::Processing => "Processing"@,
        NodeState::Reachable => "Reachable"@,
        NodeState::HandshakeFailed => "HandshakeFailed"@,
        NodeState::Unreachable => "Unreachable"@,
        NodeState::StaleDiscarded => "StaleDiscarded"@,
        NodeState::BudgetDiscarded => "BudgetDiscarded"@,
    }
}

fn name_of(state: NodeState) -> (r: &'static str)
    ensures
        r@ == state_name(state),
{
    match state {
        NodeState::Queued => "Queued",
        NodeState::Processing => "Processing",
        NodeState::Reachable => "Reachable",
        NodeState::HandshakeFailed => "HandshakeFailed",
        NodeState::Unreachable => "Unreachable",
        NodeState::StaleDiscarded => "StaleDiscarded",
        NodeState::BudgetDiscarded => "BudgetDiscarded",
    }
}

/// The user agent of a node in the form that `{:?}` gives it; that of nothing where there is
/// no handshake.
pub open spec fn quoted_agent(e: EntryView) -> Seq<char> {
    match e.handshake {
        Some(h) => debug_text(h.user_agent),
        None => debug_text(Seq::empty()),
    }
}

/// The end of a report line on a failed node.
pub open spec fn failure_tail(e: EntryView) -> Seq<char> {
    "  reason="@ + reason_label(e.failure) + "  attempts="@ + decimal(
        e.stats.handshake_attempts as nat,
    )
}

/// The address of a node and its network.
pub open spec fn node_text(key: KeyView, e: EntryView) -> Seq<char> {
    addr_text(key.0, key.1) + "  ("@ + network_label(e.network) + ")"@
}

/// The end of a report line on a reachable node.
pub open spec fn success_tail(e: EntryView, agent: Seq<char>) -> Seq<char> {
    "  connect="@ + (match e.stats.time_connect_ms {
        Some(ms) => decimal(ms as nat) + "ms"@,
        None => Seq::empty(),
    }) + "  ua="@ + agent
}

/// One report line for a node: result, address, network, and the salient detail. `agent` is
/// the user agent in quoted form.
pub open spec fn node_line(key: KeyView, e: EntryView, agent: Seq<char>) -> Seq<char> {
    match e.state {
        NodeState::Reachable => "REACHABLE         "@ + node_text(key, e) + success_tail(e, agent),
        NodeState::HandshakeFailed => "HANDSHAKE_FAILED  "@ + node_text(key, e) + failure_tail(e),
        NodeState::Unreachable => "UNREACHABLE       "@ + node_text(key, e) + failure_tail(e),
        other => state_name(other) + "          "@ + node_text(key, e),
    }
}

/// One report line for a node.
pub fn describe_node(key: &AddrKey, e: &NodeEntry) -> (r: String)
    ensures
        r@ == node_line(key@, e@, quoted_agent(e@)),
{
    let agent = match &e.handshake {
        Some(h) => debug_string(&h.user_agent),
        None => {
            let none: String = String::new();
            proof {
                assert(none@ =~= Seq::<char>::empty());
            }
            debug_string(&none)
        },
    };
    describe_with_agent(key, e, &agent)
}

fn push_node_text(out: &mut String, key: &AddrKey, e: &NodeEntry)
    ensures
        final(out)@ == old(out)@ + node_text(key@, e@),
{
    out.push_str(&key.render());
    out.push_str("  (");
    out.push_str(e.network.as_str());
    out.push_str(")");
    proof {
        assert(out@ =~= old(out)@ + node_text(key@, e@));
    }
}

fn push_success_tail(out: &mut String, e: &NodeEntry, agent: &str)
    ensures
        final(out)@ == old(out)@ + success_tail(e@, agent@),
{
    out.push_str("  connect=");
    match e.stats.time_connect_ms {
        Some(ms) => {
            push_decimal(out, ms);
            out.push_str("ms");
        },
        None => {},
    }
    out.push_str("  ua=");
    out.push_str(agent);
    proof {
        assert(out@ =~= old(out)@ + success_tail(e@, agent@));
    }
}

fn push_failure_tail(out: &mut String, e: &NodeEntry)
    ensures
        final(out)@ == old(out)@ + failure_tail(e@),
{
    out.push_str("  reason=");
    match e.failure {
        Some(f) => out.push_str(f.as_str()),
        None => out.push_str("unknown"),
    }
    out.push_str("  attempts=");
    push_decimal(out, e.stats.handshake_attempts as u64);
    proof {
        assert(out@ =~= old(out)@ + failure_tail(e@));
    }
}

/// One report line for a node whose user agent is given in quoted form.
pub fn describe_with_agent(key: &AddrKey, e: &NodeEntry, agent: &str) -> (r: String)
    ensures
        r@ == node_line(key@, e@, agent@),
{
    match e.state {
        NodeState::Reachable => {
            let mut out: String = "REACHABLE         ".to_owned();
            push_node_text(&mut out, key, e);
            push_success_tail(&mut out, e, agent);
            out
        },
        NodeState::HandshakeFailed => {
            let mut out: String = "HANDSHAKE_FAILED  ".to_owned();
            push_node_text(&mut out, key, e);
            push_failure_tail(&mut out, e);
            out
        },
        NodeState::Unreachable => {
            let mut out: String = "UNREACHABLE       ".to_owned();
            push_node_text(&mut out, key, e);
            push_failure_tail(&mut out, e);
            out
        },
        other => {
            let mut out: String = name_of(other).to_owned();
            out.push_str("          ");
            push_node_text(&mut out, key, e);
            out
        },
    }
}

/// The rendered address of a row.
pub open spec fn row_addr(row: Row) -> Seq<char> {
    addr_text(row.0.0, row.0.1)
}

/// Whether row `i` is reported before row `j`: by rendered address, then by place.
pub open spec fn reported_before(rows: Seq<Row>, i: int, j: int) -> bool {
    let a = code_points(row_addr(rows[i]));
    let b = code_points(row_addr(rows[j]));
    lex_less(a, b) || (a == b && i < j)
}

/// Whether `order` holds every position below `n` exactly once, in the order of the report.
pub open spec fn is_report_order(rows: Seq<Row>, order: Seq<usize>, n: int) -> bool {
    &&& forall|k: int| 0 <= k < order.len() ==> (#[trigger] order[k]) < n
    &&& forall|i: int| 0 <= i < n ==> #[trigger] order.contains(i as usize)
    &&& forall|k: int, l: int|
        0 <= k < l < order.len() ==> reported_before(
            rows,
            #[trigger] order[k] as int,
            #[trigger] order[l] as int,
        )
}

proof fn lemma_reported_transitive(rows: Seq<Row>, i: int, j: int, k: int)
    requires
        reported_before(rows, i, j),
        reported_before(rows, j, k),
    ensures
        reported_before(rows, i, k),
{
    let a = code_points(row_addr(rows[i]));
    let b = code_points(row_addr(rows[j]));
    let c = code_points(row_addr(rows[k]));
    if lex_less(a, b) && lex_less(b, c) {
        lemma_lex_transitive(a, b, c);
    }
}

/// The positions of the rows in the order of the report.
pub fn report_order(snapshot: &Vec<(AddrKey, NodeEntry)>) -> (r: Vec<usize>)
    ensures
        is_report_order(rows_of(snapshot@), r@, snapshot@.len() as int),
{
    let ghost rows = rows_of(snapshot@);
    let mut texts: Vec<Vec<char>> = Vec::new();
    let mut order: Vec<usize> = Vec::new();
    let mut i: usize = 0;
    while i < snapshot.len()
        invariant
            i <= snapshot@.len(),
            rows == rows_of(snapshot@),
            texts@.len() == i,
            forall|k: int| 0 <= k < i ==> (#[trigger] texts@[k])@ == row_addr(rows[k]),
            is_report_order(rows, order@, i as int),
        decreases snapshot@.len() - i,
    {
        let rendered = snapshot[i].0.render();
        let text = chars_of(&rendered);
        proof {
            assert(text@ == row_addr(rows[i as int]));
        }
        let ghost start = order@;
        let mut at: usize = order.len();
        while at > 0 && text_less(&text, &texts[order[at - 1]])
            invariant
                order@ == start,
                at <= start.len(),
                i < snapshot@.len(),
                rows == rows_of(snapshot@),
                texts@.len() == i,
                text@ == row_addr(rows[i as int]),
                forall|k: int| 0 <= k < i ==> (#[trigger] texts@[k])@ == row_addr(rows[k]),
                is_report_order(rows, start, i as int),
                forall|k: int|
                    at <= k < start.len() ==> reported_before(
                        rows,
                        i as int,
                        #[trigger] start[k] as int,
                    ),
            decreases at,
        {
            at = at - 1;
        }
        proof {
            if at > 0 {
                let p = start[at - 1] as int;
                lemma_lex_total(code_points(text@), code_points(row_addr(rows[p])));
                assert(reported_before(rows, p, i as int));
                assert forall|k: int| 0 <= k < at implies reported_before(
                    rows,
                    #[trigger] start[k] as int,
                    i as int,
                ) by {
                    if k < at - 1 {
                        assert(reported_before(rows, start[k] as int, start[at - 1] as int));
                        lemma_reported_transitive(rows, start[k] as int, p, i as int);
                    }
                }
            }
        }
        order.insert(at, i);
        proof {
            lemma_inserted(rows, start, at as int, i);
            assert(order@ =~= start.insert(at as int, i));
        }
        texts.push(text);
        i = i + 1;
    }
    order
}

proof fn lemma_inserted(rows: Seq<Row>, start: Seq<usize>, at: int, i: usize)
    requires
        is_report_order(rows, start, i as int),
        i < usize::MAX,
        0 <= at <= start.len(),
        forall|k: int|
            0 <= k < at ==> reported_before(rows, #[trigger] start[k] as int, i as int),
        forall|k: int|
            at <= k < start.len() ==> reported_before(rows, i as int, #[trigger] start[k] as int),
    ensures
        is_report_order(rows, start.insert(at, i), i + 1),
{
    let now = start.insert(at, i);
    assert forall|k: int, l: int| 0 <= k < l < now.len() implies reported_before(
        rows,
        #[trigger] now[k] as int,
        #[trigger] now[l] as int,
    ) by {
        let p = if k < at {
            k
        } else {
            k - 1
        };
        let q = if l < at {
            l
        } else {
            l - 1
        };
        if k != at && l != at {
            assert(now[k] == start[p]);
            assert(now[l] == start[q]);
        } else if k == at {
            assert(now[l] == start[l - 1]);
        } else {
            assert(now[k] == start[k]);
        }
    }
    assert forall|j: int| 0 <= j < i + 1 implies #[trigger] now.contains(j as usize) by {
        if j < i {
            assert(start.contains(j as usize));
            let k = choose|k: int| 0 <= k < start.len() && start[k] == j as usize;
            if k < at {
                assert(now[k] == j as usize);
            } else {
                assert(now[k + 1] == j as usize);
            }
        } else {
            assert(now[at] == i);
        }
    }
    assert forall|k: int| 0 <= k < now.len() implies (#[trigger] now[k]) < i + 1 by {
        if k < at {
            assert(now[k] == start[k]);
        } else if k > at {
            assert(now[k] == start[k - 1]);
        }
    }
}

/// How many rows carry a failure reason.
pub open spec fn failure_count(rows: Seq<Row>, kind: Option<FailKind>) -> nat
    decreases rows.len(),
{
    if rows.len() == 0 {
        0
    } else {
        failure_count(rows.drop_last(), kind) + if rows.last().1.failure == kind {
            1nat
        } else {
            0nat
        }
    }
}

/// A number in at least five columns, blanks first.
pub open spec fn column(n: nat) -> Seq<char> {
    let s = decimal(n);
    if s.len() >= 5 {
        s
    } else {
        Seq::new((5 - s.len()) as nat, |i: int| ' ') + s
    }
}

/// The histogram lines of the first `n` reasons that occur.
pub open spec fn reason_lines(rows: Seq<Row>, n: nat) -> Seq<Seq<char>>
    decreases n,
{
    if n == 0 {
        Seq::empty()
    } else {
        let before = reason_lines(rows, (n - 1) as nat);
        let reason = reasons()[n - 1];
        if reason is Some && failure_count(rows, reason) > 0 {
            before.push(column(failure_count(rows, reason)) + "  "@ + reason_label(reason))
        } else {
            before
        }
    }
}

/// The node lines in the given order.
pub open spec fn node_lines(rows: Seq<Row>, order: Seq<usize>) -> Seq<Seq<char>> {
    Seq::new(
        order.len(),
        |k: int|
            node_line(
                rows[order[k] as int].0,
                rows[order[k] as int].1,
                quoted_agent(rows[order[k] as int].1),
            ),
    )
}

/// The whole report: every node, then how often each failure reason occurs, if any does.
pub open spec fn report_lines(rows: Seq<Row>, order: Seq<usize>) -> Seq<Seq<char>> {
    let nodes = seq!["\n=== Probe results ==="@] + node_lines(rows, order);
    let tail = reason_lines(rows, reasons().len());
    if tail.len() == 0 {
        nodes
    } else {
        nodes + seq!["\n=== Failure reasons ==="@] + tail
    }
}

fn count_failure(snapshot: &Vec<(AddrKey, NodeEntry)>, kind: Option<FailKind>) -> (r: u64)
    ensures
        r == failure_count(rows_of(snapshot@), kind),
{
    let ghost rows = rows_of(snapshot@);
    let mut n: u64 = 0;
    let mut i: usize = 0;
    proof {
        assert(rows.take(0) =~= Seq::<Row>::empty());
    }
    while i < snapshot.len()
        invariant
            i <= snapshot@.len(),
            rows == rows_of(snapshot@),
            n <= i,
            n == failure_count(rows.take(i as int), kind),
        decreases snapshot@.len() - i,
    {
        let e = &snapshot[i].1;
        proof {
            let next = rows.take(i + 1);
            assert(next.drop_last() =~= rows.take(i as int));
            assert(next.last() == rows[i as int]);
            assert(rows[i as int].1 == e@);
        }
        if e.failure == kind {
            n = n + 1;
        }
        i = i + 1;
    }
    proof {
        assert(rows.take(i as int) =~= rows);
    }
    n
}

fn column_string(n: u64) -> (r: String)
    ensures
        r@ == column(n as nat),
{
    let digits = decimal_string(n);
    let width = chars_of(&digits).len();
    let mut out: String = String::new();
    let mut i: usize = width;
    proof {
        assert(out@ =~= Seq::new(0, |k: int| ' '));
    }
    while i < 5
        invariant
            width <= i,
            width <= 5 ==> i <= 5,
            width > 5 ==> i == width,
            out@ == Seq::new((i - width) as nat, |k: int| ' '),
        decreases 5 - i,
    {
        out.push(' ');
        i = i + 1;
        proof {
            assert(out@ =~= Seq::new((i - width) as nat, |k: int| ' '));
        }
    }
    out.push_str(&digits);
    proof {
        assert(out@ =~= column(n as nat));
    }
    out
}

/// The lines of the report on a snapshot, the nodes by rendered address.
pub fn print_report(snapshot: &Vec<(AddrKey, NodeEntry)>) -> (r: Vec<String>)
    ensures
        exists|order: Seq<usize>|
            is_report_order(rows_of(snapshot@), order, snapshot@.len() as int) && string_views(r@)
                == #[trigger] report_lines(rows_of(snapshot@), order),
{
    let ghost rows = rows_of(snapshot@);
    let order = report_order(snapshot);
    let mut out: Vec<String> = Vec::new();
    out.push("\n=== Probe results ===".to_owned());
    let ghost nodes = seq!["\n=== Probe results ==="@] + node_lines(rows, order@);
    let mut k: usize = 0;
    proof {
        assert(string_views(out@) =~= nodes.take(1));
    }
    while k < order.len()
        invariant
            k <= order@.len(),
            rows == rows_of(snapshot@),
            is_report_order(rows, order@, snapshot@.len() as int),
            nodes == seq!["\n=== Probe results ==="@] + node_lines(rows, order@),
            string_views(out@) == nodes.take(k + 1),
        decreases order@.len() - k,
    {
        let at = order[k];
        proof {
            assert(rows[at as int] == (snapshot@[at as int].0@, snapshot@[at as int].1@));
        }
        let ghost before = string_views(out@);
        let line = describe_node(&snapshot[at].0, &snapshot[at].1);
        out.push(line);
        k = k + 1;
        proof {
            assert(string_views(out@) =~= before.push(line@));
            assert(nodes[k as int] == node_lines(rows, order@)[k - 1]);
            assert(string_views(out@) =~= nodes.take(k + 1));
        }
    }
    proof {
        assert(nodes.take(k + 1) =~= nodes);
    }
    let tail = reason_report(snapshot);
    if tail.len() > 0 {
        out.push("\n=== Failure reasons ===".to_owned());
        let ghost head = string_views(out@);
        proof {
            assert(head =~= nodes + seq!["\n=== Failure reasons ==="@]);
        }
        let mut i: usize = 0;
        proof {
            assert(head + string_views(tail@).take(0) =~= head);
        }
        while i < tail.len()
            invariant
                i <= tail@.len(),
                string_views(out@) == head + string_views(tail@).take(i as int),
            decreases tail@.len() - i,
        {
            let ghost before = string_views(out@);
            let line = tail[i].clone();
            out.push(line);
            i = i + 1;
            proof {
                assert(string_views(out@) =~= before.push(line@));
                assert(string_views(out@) =~= head + string_views(tail@).take(i as int));
            }
        }
        proof {
            assert(string_views(tail@).take(i as int) =~= string_views(tail@));
        }
    }
    proof {
        assert(string_views(tail@).len() == tail@.len());
        assert(string_views(out@) =~= report_lines(rows, order@));
    }
    out
}

fn reason_report(snapshot: &Vec<(AddrKey, NodeEntry)>) -> (r: Vec<String>)
    ensures
        string_views(r@) == reason_lines(rows_of(snapshot@), reasons().len()),
{
    let ghost rows = rows_of(snapshot@);
    let mut out: Vec<String> = Vec::new();
    let mut i: usize = 0;
    proof {
        assert(string_views(out@) =~= Seq::<Seq<char>>::empty());
    }
    while i < 18
        invariant
            i <= 18,
            rows == rows_of(snapshot@),
            string_views(out@) == reason_lines(rows, i as nat),
        decreases 18 - i,
    {
        let reason = crate::output::reason_at(i);
        let ghost before = string_views(out@);
        if let Some(kind) = reason {
            let n = count_failure(snapshot, reason);
            if n > 0 {
                let mut line = column_string(n);
                line.push_str("  ");
                line.push_str(kind.as_str());
                out.push(line);
                proof {
                    assert(string_views(out@) =~= before.push(line@));
                }
            }
        }
        i = i + 1;
    }
    out
}

proof fn lemma_reported_antisymmetric(rows: Seq<Row>, i: int, j: int)
    requires
        reported_before(rows, i, j),
    ensures
        !reported_before(rows, j, i),
        i != j,
{
    let a = code_points(row_addr(rows[i]));
    let b = code_points(row_addr(rows[j]));
    lemma_lex_irreflexive(a);
    if lex_less(a, b) && lex_less(b, a) {
        lemma_lex_transitive(a, b, a);
    }
}

/// There is one order of the report, so its lines are determined by the rows.
pub proof fn law_report_order_is_unique(rows: Seq<Row>, a: Seq<usize>, b: Seq<usize>)
    requires
        rows.len() <= usize::MAX,
        is_report_order(rows, a, rows.len() as int),
        is_report_order(rows, b, rows.len() as int),
    ensures
        a == b,
{
    assert forall|x: usize| #[trigger] a.contains(x) <==> #[trigger] b.contains(x) by {
        if a.contains(x) {
            let k = choose|k: int| 0 <= k < a.len() && a[k] == x;
            assert(a[k] < rows.len());
            assert(b.contains((x as int) as usize));
        }
        if b.contains(x) {
            let k = choose|k: int| 0 <= k < b.len() && b[k] == x;
            assert(b[k] < rows.len());
            assert(a.contains((x as int) as usize));
        }
    }
    lemma_same_order(rows, a, b);
}

proof fn lemma_same_order(rows: Seq<Row>, a: Seq<usize>, b: Seq<usize>)
    requires
        forall|k: int, l: int|
            0 <= k < l < a.len() ==> reported_before(
                rows,
                #[trigger] a[k] as int,
                #[trigger] a[l] as int,
            ),
        forall|k: int, l: int|
            0 <= k < l < b.len() ==> reported_before(
                rows,
                #[trigger] b[k] as int,
                #[trigger] b[l] as int,
            ),
        forall|x: usize| #[trigger] a.contains(x) <==> #[trigger] b.contains(x),
    ensures
        a == b,
    decreases a.len(),
{
    if a.len() == 0 {
        if b.len() > 0 {
            assert(b.contains(b[0]));
            assert(a.contains(b[0]));
        }
        assert(a =~= b);
    } else {
        assert(a.contains(a[a.len() - 1]));
        assert(b.contains(a.last()));
        assert(b.contains(b[b.len() - 1]));
        assert(a.contains(b.last()));
        let i = choose|i: int| 0 <= i < a.len() && a[i] == b.last();
        let j = choose|j: int| 0 <= j < b.len() && b[j] == a.last();
        if a.last() != b.last() {
            assert(reported_before(rows, a[i] as int, a[a.len() - 1] as int));
            assert(reported_before(rows, b[j] as int, b[b.len() - 1] as int));
            lemma_reported_antisymmetric(rows, a[i] as int, a[a.len() - 1] as int);
            assert(false);
        }
        let x = a.drop_last();
        let y = b.drop_last();
        assert forall|m: usize| #[trigger] x.contains(m) <==> #[trigger] y.contains(m) by {
            if x.contains(m) {
                let k = choose|k: int| 0 <= k < x.len() && x[k] == m;
                assert(a[k] == m);
                assert(a.contains(m));
                assert(b.contains(m));
                let l = choose|l: int| 0 <= l < b.len() && b[l] == m;
                lemma_reported_antisymmetric(rows, a[k] as int, a[a.len() - 1] as int);
                assert(y[l] == m);
            }
            if y.contains(m) {
                let k = choose|k: int| 0 <= k < y.len() && y[k] == m;
                assert(b[k] == m);
                assert(b.contains(m));
                assert(a.contains(m));
                let l = choose|l: int| 0 <= l < a.len() && a[l] == m;
                lemma_reported_antisymmetric(rows, b[k] as int, b[b.len() - 1] as int);
                assert(x[l] == m);
            }
        }
        lemma_same_order(rows, x, y);
        assert(a =~= x.push(a.last()));
        assert(b =~= y.push(b.last()));
    }
}

} // verus!
