//! Laws that relate rendered addresses to the node lists they may be copied into.
use vstd::prelude::*;
use crate::address::{addr_text, is_base32_of, network_of, onion_v3_bytes, NetworkType};
use crate::encoding::{base32_lower, is_base32_lower_char, lemma_base32_lower};
use crate::ip::{
    all_group_texts, field_groups, first_double_colon, ipv4_value, ipv6_value, is_group_text,
    is_octet_text, side_groups,
};
use crate::lexical::{code_points, lex_less};
use crate::output::reasons;
use crate::probe::{
    column, debug_text, failure_count, first_of, is_report_order, last_of, node_line, node_of,
    node_text, node_token, node_tokens, port_value, reason_lines, report_lines, reported_before,
};
use crate::stats_laws::counted_name;
use crate::store::{EntryView, FailKind, KeyView, NodeState, Row};
use crate::table_laws::network_name;
use crate::text::{
    decimal, ends_with, is_digit, is_numeral, is_space, lemma_numeral_reads_back,
    lemma_split_append, lemma_split_pieces, lemma_split_single, matches_at, occurs, split, trim,
    trim_end, trim_start,
};

verus! {

/// A character that a host of a known network may hold.
pub open spec fn is_host_char(c: char) -> bool {
    is_digit(c, 16) || 'a' <= c <= 'z' || c == ':' || c == '.'
}

/// Whether a text holds nothing but such characters.
pub open spec fn is_host_text(s: Seq<char>) -> bool {
    forall|i: int| 0 <= i < s.len() ==> is_host_char(#[trigger] s[i])
}

/// Every character is a separator or stands in one of the pieces.
pub proof fn lemma_split_covers(s: Seq<char>, sep: char, i: int)
    requires
        0 <= i < s.len(),
    ensures
        s[i] == sep || exists|k: int|
            0 <= k < split(s, sep).len() && (#[trigger] split(s, sep)[k]).contains(s[i]),
    decreases s.len(),
{
    let init = s.drop_last();
    let rest = split(init, sep);
    let all = split(s, sep);
    lemma_split_pieces(init, sep);
    if i < init.len() {
        lemma_split_covers(init, sep, i);
        assert(init[i] == s[i]);
        if s[i] != sep {
            let k = choose|k: int| 0 <= k < rest.len() && (#[trigger] rest[k]).contains(s[i]);
            if s.last() == sep || k < rest.len() - 1 {
                assert(all[k] == rest[k]);
                assert(all[k].contains(s[i]));
            } else {
                let p = choose|p: int| 0 <= p < rest[k].len() && rest[k][p] == s[i];
                assert(all[k] == rest[k].push(s.last()));
                assert(all[k][p] == s[i]);
                assert(all[k].contains(s[i]));
            }
        }
    } else if s[i] != sep {
        let k = all.len() - 1;
        assert(all[k] == rest.last().push(s.last()));
        assert(all[k][all[k].len() - 1] == s[i]);
        assert(all[k].contains(s[i]));
    }
}

/// A text is a host text where its pieces are.
proof fn lemma_pieces_are_host_text(s: Seq<char>, sep: char)
    requires
        is_host_char(sep),
        forall|k: int| 0 <= k < split(s, sep).len() ==> is_host_text(#[trigger] split(s, sep)[k]),
    ensures
        is_host_text(s),
{
    assert forall|i: int| 0 <= i < s.len() implies is_host_char(#[trigger] s[i]) by {
        lemma_split_covers(s, sep, i);
        if s[i] != sep {
            let k = choose|k: int|
                0 <= k < split(s, sep).len() && (#[trigger] split(s, sep)[k]).contains(s[i]);
            let piece = split(s, sep)[k];
            assert(is_host_text(piece));
            let p = choose|p: int| 0 <= p < piece.len() && piece[p] == s[i];
            assert(is_host_char(piece[p]));
        }
    }
}

proof fn lemma_numeral_is_host_text(s: Seq<char>, base: int)
    requires
        is_numeral(s, base),
        base <= 16,
    ensures
        is_host_text(s),
{
    assert forall|i: int| 0 <= i < s.len() implies is_host_char(#[trigger] s[i]) by {
        assert(is_digit(s[i], base));
    }
}

proof fn lemma_ipv4_is_host_text(s: Seq<char>)
    requires
        ipv4_value(s) is Some,
    ensures
        is_host_text(s),
{
    let f = split(s, '.');
    assert forall|k: int| 0 <= k < f.len() implies is_host_text(#[trigger] f[k]) by {
        assert(is_octet_text(f[k]));
        lemma_numeral_is_host_text(f[k], 10);
    }
    lemma_pieces_are_host_text(s, '.');
}

proof fn lemma_fields_are_host_text(s: Seq<char>, quad: bool)
    requires
        field_groups(split(s, ':'), quad) is Some,
    ensures
        is_host_text(s),
{
    let f = split(s, ':');
    assert forall|k: int| 0 <= k < f.len() implies is_host_text(#[trigger] f[k]) by {
        if all_group_texts(f) {
            assert(is_group_text(f[k]));
            lemma_numeral_is_host_text(f[k], 16);
        } else if k < f.len() - 1 {
            assert(f.drop_last()[k] == f[k]);
            assert(is_group_text(f.drop_last()[k]));
            lemma_numeral_is_host_text(f[k], 16);
        } else {
            lemma_ipv4_is_host_text(f[k]);
        }
    }
    lemma_pieces_are_host_text(s, ':');
}

proof fn lemma_ipv6_is_host_text(s: Seq<char>)
    requires
        ipv6_value(s) is Some,
    ensures
        is_host_text(s),
{
    if occurs(s, "::"@) {
        reveal_strlit("::");
        let at = choose|at: int| matches_at(s, "::"@, at);
        lemma_some_first(s, at);
        let at = choose|at: int| first_double_colon(s, at);
        let left = s.take(at);
        let right = s.skip(at + 2);
        assert(side_groups(left, false) is Some);
        assert(side_groups(right, true) is Some);
        if left.len() > 0 {
            lemma_fields_are_host_text(left, false);
        }
        if right.len() > 0 {
            lemma_fields_are_host_text(right, true);
        }
        assert forall|i: int| 0 <= i < s.len() implies is_host_char(#[trigger] s[i]) by {
            if i < at {
                assert(left[i] == s[i]);
            } else if i < at + 2 {
                assert(s.subrange(at, at + 2)[i - at] == ':');
            } else {
                assert(right[i - at - 2] == s[i]);
            }
        }
    } else {
        lemma_fields_are_host_text(s, true);
    }
}

/// Where a double colon occurs, one is the first.
proof fn lemma_some_first(s: Seq<char>, at: int)
    requires
        matches_at(s, "::"@, at),
    ensures
        exists|a: int| first_double_colon(s, a),
    decreases at,
{
    if !first_double_colon(s, at) {
        let j = choose|j: int| 0 <= j < at && matches_at(s, "::"@, j);
        lemma_some_first(s, j);
    }
}

proof fn lemma_label_is_host_text(b: Seq<u8>, host: Seq<char>, suffix: Seq<char>)
    requires
        suffix.len() <= host.len(),
        host.take(host.len() - suffix.len()) == base32_lower(b),
        matches_at(host, suffix, host.len() - suffix.len()),
        is_host_text(suffix),
    ensures
        is_host_text(host),
{
    lemma_base32_lower(b);
    let n = host.len() - suffix.len();
    assert forall|i: int| 0 <= i < host.len() implies is_host_char(#[trigger] host[i]) by {
        if i < n {
            assert(host.take(n)[i] == host[i]);
            assert(is_base32_lower_char(base32_lower(b)[i]));
        } else {
            assert(host.subrange(n, n + suffix.len())[i - n] == host[i]);
            assert(is_host_char(suffix[i - n]));
        }
    }
}

/// A host of a known network is not empty and holds nothing but digits, letters, colons and
/// dots.
pub proof fn law_known_hosts_are_plain_text(host: Seq<char>)
    requires
        network_of(host) != NetworkType::Unknown,
    ensures
        is_host_text(host),
        host.len() > 0,
{
    reveal_strlit(".onion");
    reveal_strlit(".b32.i2p");
    if host.contains(':') {
        lemma_ipv6_is_host_text(host);
    } else if ends_with(host, ".onion"@) {
        let label = host.take(host.len() - 6);
        assert(is_host_text(".onion"@));
        if is_base32_of(label, 10) {
            let b = choose|b: Seq<u8>| b.len() == 10 && #[trigger] base32_lower(b) == label;
            lemma_label_is_host_text(b, host, ".onion"@);
        } else {
            let k = choose|k: Seq<u8>|
                k.len() == 32 && label == base32_lower(#[trigger] onion_v3_bytes(k));
            lemma_label_is_host_text(onion_v3_bytes(k), host, ".onion"@);
        }
    } else if ends_with(host, ".b32.i2p"@) {
        let label = host.take(host.len() - 8);
        assert(is_host_text(".b32.i2p"@));
        let b = choose|b: Seq<u8>| b.len() == 32 && #[trigger] base32_lower(b) == label;
        lemma_label_is_host_text(b, host, ".b32.i2p"@);
    } else {
        let f = split(host, '.');
        assert forall|k: int| 0 <= k < f.len() implies is_host_text(#[trigger] f[k]) by {
            lemma_numeral_is_host_text(f[k], 10);
        }
        lemma_pieces_are_host_text(host, '.');
        if host.len() == 0 {
            assert(f.len() == 1);
        }
    }
}

proof fn lemma_trim_keeps(s: Seq<char>)
    requires
        s.len() > 0,
        !is_space(s[0]),
        !is_space(s.last()),
    ensures
        trim(s) == s,
{
    assert(trim_start(s) == s);
    assert(trim_end(s) == s);
}

proof fn lemma_port_text(port: u16)
    ensures
        port_value(decimal(port as nat)) == Some(port),
        decimal(port as nat).len() > 0,
        forall|i: int|
            0 <= i < decimal(port as nat).len() ==> is_digit(#[trigger] decimal(port as nat)[i], 10),
{
    lemma_numeral_reads_back(port as nat, 10);
    let d = decimal(port as nat);
    assert(is_digit(d[0], 10));
    assert(d[0] != '+');
}

proof fn lemma_first_of(s: Seq<char>, c: char, n: int)
    requires
        0 <= n < s.len(),
        s[n] == c,
        forall|i: int| 0 <= i < n ==> #[trigger] s[i] != c,
    ensures
        first_of(s, c) == Some(n),
    decreases n,
{
    if n > 0 {
        assert(s[0] != c);
        let rest = s.skip(1);
        assert forall|i: int| 0 <= i < n - 1 implies #[trigger] rest[i] != c by {
            assert(rest[i] == s[i + 1]);
        }
        lemma_first_of(rest, c, n - 1);
    }
}

proof fn lemma_last_of(s: Seq<char>, c: char, n: int)
    requires
        0 <= n < s.len(),
        s[n] == c,
        forall|i: int| n < i < s.len() ==> #[trigger] s[i] != c,
    ensures
        last_of(s, c) == Some(n),
    decreases s.len(),
{
    if n < s.len() - 1 {
        assert(s[s.len() - 1] != c);
        let init = s.drop_last();
        assert forall|i: int| n < i < init.len() implies #[trigger] init[i] != c by {
            assert(init[i] == s[i]);
        }
        lemma_last_of(init, c, n);
    }
}

/// A host without colons and a port, with one colon between them, are no IPv6 address.
proof fn lemma_host_port_is_not_ipv6(host: Seq<char>, digits: Seq<char>)
    requires
        !host.contains(':'),
        !digits.contains(':'),
        digits.len() > 0,
    ensures
        ipv6_value(host + seq![':'] + digits) is None,
{
    let s = host + seq![':'] + digits;
    assert(s =~= host.push(':') + digits);
    lemma_split_append(host, digits, ':');
    lemma_split_single(host, ':');
    let f = split(s, ':');
    assert(f =~= seq![host, digits]);
    assert forall|at: int| !matches_at(s, "::"@, at) by {
        reveal_strlit("::");
        if matches_at(s, "::"@, at) {
            assert(s.subrange(at, at + 2)[0] == ':');
            assert(s.subrange(at, at + 2)[1] == ':');
            assert(s[at] == ':' && s[at + 1] == ':');
            if at < host.len() {
                assert(host[at] == ':');
            } else if at == host.len() {
                assert(digits[0] == ':');
            } else {
                assert(digits[at - host.len() - 1] == ':');
            }
        }
    }
    if let Some(g) = field_groups(f, true) {
        assert(g.len() <= 3);
    }
}

proof fn lemma_host_text_lacks(s: Seq<char>, c: char)
    requires
        is_host_text(s),
        !is_host_char(c),
    ensures
        !s.contains(c),
{
    if s.contains(c) {
        let k = choose|k: int| 0 <= k < s.len() && s[k] == c;
        assert(is_host_char(s[k]));
    }
}

/// A rendered address of a known network, given to the prober, names the same host and port,
/// whatever the default port is.
#[verifier::rlimit(40)]
pub proof fn law_rendered_nodes_parse_back(host: Seq<char>, port: u16, default_port: u16)
    requires
        network_of(host) != NetworkType::Unknown,
    ensures
        node_of(addr_text(host, port), default_port) == Some((host, port)),
{
    law_known_hosts_are_plain_text(host);
    lemma_port_text(port);
    let d = decimal(port as nat);
    let s = addr_text(host, port);
    assert(is_digit(d[d.len() - 1], 10));
    assert(is_host_char(host[0]));
    if host.contains(':') {
        assert(s[0] == '[');
        assert(s.last() == d.last());
        lemma_trim_keeps(s);
        let rest = s.skip(1);
        assert(rest =~= host + seq![']', ':'] + d);
        lemma_host_text_lacks(host, ']');
        assert forall|i: int| 0 <= i < host.len() implies #[trigger] rest[i] != ']' by {
            assert(rest[i] == host[i]);
            assert(host.contains(host[i]));
        }
        lemma_first_of(rest, ']', host.len() as int);
        let after = rest.skip(host.len() as int + 1);
        assert(after =~= seq![':'] + d);
        assert(after.skip(1) =~= d);
        assert(rest.take(host.len() as int) =~= host);
    } else {
        assert(s[0] == host[0]);
        assert(s.last() == d.last());
        lemma_trim_keeps(s);
        assert(!d.contains(':')) by {
            if d.contains(':') {
                let k = choose|k: int| 0 <= k < d.len() && d[k] == ':';
                assert(is_digit(d[k], 10));
            }
        }
        lemma_host_port_is_not_ipv6(host, d);
        assert forall|i: int| host.len() < i < s.len() implies #[trigger] s[i] != ':' by {
            assert(s[i] == d[i - host.len() - 1]);
            assert(d.contains(s[i]));
        }
        lemma_last_of(s, ':', host.len() as int);
        assert(s.skip(host.len() as int + 1) =~= d);
        assert(s.take(host.len() as int) =~= host);
    }
}

/// Whether a text can be given as a host as it stands: it has no blanks round it, no bracket
/// before it and no colon in it.
pub open spec fn is_bare_host(host: Seq<char>) -> bool {
    &&& host.len() > 0
    &&& host[0] != '['
    &&& !is_space(host[0])
    &&& !is_space(host.last())
    &&& !host.contains(':')
}

proof fn lemma_no_colon_is_not_ipv6(s: Seq<char>)
    requires
        !s.contains(':'),
    ensures
        ipv6_value(s) is None,
        last_of(s, ':') is None,
{
    lemma_split_single(s, ':');
    assert forall|at: int| !matches_at(s, "::"@, at) by {
        reveal_strlit("::");
        if matches_at(s, "::"@, at) {
            assert(s.subrange(at, at + 2)[0] == ':');
            assert(s[at] == ':');
        }
    }
    if let Some(g) = field_groups(split(s, ':'), true) {
        assert(g.len() <= 2);
    }
    lemma_absent_has_no_place(s, ':');
}

proof fn lemma_absent_has_no_place(s: Seq<char>, c: char)
    requires
        !s.contains(c),
    ensures
        last_of(s, c) is None,
        first_of(s, c) is None,
    decreases s.len(),
{
    if s.len() > 0 {
        assert(s.contains(s[0]));
        assert(s.contains(s[s.len() - 1]));
        let (a, b) = (s.drop_last(), s.skip(1));
        assert(!a.contains(c)) by {
            if a.contains(c) {
                let k = choose|k: int| 0 <= k < a.len() && a[k] == c;
                assert(s[k] == c);
            }
        }
        assert(!b.contains(c)) by {
            if b.contains(c) {
                let k = choose|k: int| 0 <= k < b.len() && b[k] == c;
                assert(s[k + 1] == c);
            }
        }
        lemma_absent_has_no_place(a, c);
        lemma_absent_has_no_place(b, c);
    }
}

/// A host alone is probed on the default port, and a host with a port on that one; an IPv6
/// address needs no brackets where it stands alone.
pub proof fn law_nodes_without_brackets(host: Seq<char>, port: u16, default_port: u16)
    ensures
        is_bare_host(host) ==> node_of(host, default_port) == Some((host, default_port)),
        is_bare_host(host) ==> node_of(host + seq![':'] + decimal(port as nat), default_port)
            == Some((host, port)),
        ipv6_value(host) is Some && host.len() > 0 && host[0] != '[' && !is_space(host[0])
            && !is_space(host.last()) ==> node_of(host, default_port) == Some(
            (host, default_port),
        ),
{
    if host.len() > 0 && !is_space(host[0]) && !is_space(host.last()) {
        lemma_trim_keeps(host);
    }
    if is_bare_host(host) {
        lemma_no_colon_is_not_ipv6(host);
        lemma_port_text(port);
        let d = decimal(port as nat);
        let s = host + seq![':'] + d;
        assert(is_digit(d[d.len() - 1], 10));
        assert(s[0] == host[0]);
        assert(s.last() == d.last());
        lemma_trim_keeps(s);
        assert(!d.contains(':')) by {
            if d.contains(':') {
                let k = choose|k: int| 0 <= k < d.len() && d[k] == ':';
                assert(is_digit(d[k], 10));
            }
        }
        lemma_host_port_is_not_ipv6(host, d);
        assert forall|i: int| host.len() < i < s.len() implies #[trigger] s[i] != ':' by {
            assert(s[i] == d[i - host.len() - 1]);
            assert(d.contains(s[i]));
        }
        lemma_last_of(s, ':', host.len() as int);
        assert(s.skip(host.len() as int + 1) =~= d);
        assert(s.take(host.len() as int) =~= host);
    }
}

/// A host in brackets is probed on the port behind them, or on the default port where there is
/// none; brackets that do not close name no node, and neither does nothing.
pub proof fn law_nodes_in_brackets(host: Seq<char>, port: u16, default_port: u16)
    requires
        !host.contains(']'),
    ensures
        node_of(seq!['['] + host + seq![']'], default_port) == Some((host, default_port)),
        node_of(seq!['['] + host + seq![']', ':'] + decimal(port as nat), default_port) == Some(
            (host, port),
        ),
        host.len() > 0 && !is_space(host.last()) ==> node_of(seq!['['] + host, default_port)
            is None,
        node_of(Seq::empty(), default_port) is None,
{
    let n = host.len() as int;
    let a = seq!['['] + host + seq![']'];
    assert(a[0] == '[' && a.last() == ']');
    lemma_trim_keeps(a);
    let rest = a.skip(1);
    assert(rest =~= host + seq![']']);
    assert forall|i: int| 0 <= i < n implies #[trigger] rest[i] != ']' by {
        assert(host.contains(host[i]));
    }
    lemma_first_of(rest, ']', n);
    assert(rest.take(n) =~= host);
    lemma_port_text(port);
    let d = decimal(port as nat);
    let b = seq!['['] + host + seq![']', ':'] + d;
    assert(is_digit(d[d.len() - 1], 10));
    assert(b[0] == '[' && b.last() == d.last());
    lemma_trim_keeps(b);
    let more = b.skip(1);
    assert(more =~= host + seq![']', ':'] + d);
    assert forall|i: int| 0 <= i < n implies #[trigger] more[i] != ']' by {
        assert(host.contains(host[i]));
    }
    lemma_first_of(more, ']', n);
    assert(more.take(n) =~= host);
    assert(more.skip(n + 1) =~= seq![':'] + d);
    assert((seq![':'] + d).skip(1) =~= d);
    if n > 0 && !is_space(host.last()) {
        let c = seq!['['] + host;
        assert(c[0] == '[' && c.last() == host.last());
        lemma_trim_keeps(c);
        assert(c.skip(1) =~= host);
        lemma_absent_has_no_place(host, ']');
    }
    assert(trim(Seq::<char>::empty()).len() == 0);
}

/// A line asks for what stands before its first `#`, without blanks round it.
pub proof fn law_comments_are_left_out(before: Seq<char>, comment: Seq<char>)
    requires
        !before.contains('#'),
    ensures
        node_token(before) == trim(before),
        node_token(before + seq!['#'] + comment) == trim(before),
    decreases comment.len(),
{
    lemma_split_single(before, '#');
    let s = before + seq!['#'] + comment;
    if comment.len() == 0 {
        assert(s =~= before.push('#') + Seq::<char>::empty());
        lemma_split_append(before, Seq::empty(), '#');
    } else {
        law_comments_are_left_out(before, comment.drop_last());
        let front = before + seq!['#'] + comment.drop_last();
        assert(s.drop_last() =~= front);
        lemma_first_piece(before, comment.drop_last());
        lemma_split_pieces(front, '#');
        assert(split(s, '#')[0] == split(front, '#')[0]);
    }
}

proof fn lemma_first_piece(before: Seq<char>, comment: Seq<char>)
    requires
        !before.contains('#'),
    ensures
        split(before + seq!['#'] + comment, '#').len() >= 2,
        split(before + seq!['#'] + comment, '#')[0] == before,
    decreases comment.len(),
{
    lemma_split_single(before, '#');
    let s = before + seq!['#'] + comment;
    if comment.len() == 0 {
        assert(s =~= before.push('#') + Seq::<char>::empty());
        lemma_split_append(before, Seq::empty(), '#');
    } else {
        lemma_first_piece(before, comment.drop_last());
        assert(s.drop_last() =~= before + seq!['#'] + comment.drop_last());
    }
}

/// The nodes of a list are those of its lines that ask for one, in order.
pub proof fn law_node_lists_keep_every_line(lines: Seq<Seq<char>>, n: nat)
    requires
        n <= lines.len(),
    ensures
        ({
            let asking = lines.take(n as int).filter(|l: Seq<char>| node_token(l).len() > 0);
            let r = node_tokens(lines, n);
            &&& r.len() == asking.len()
            &&& forall|k: int| 0 <= k < r.len() ==> #[trigger] r[k] == node_token(asking[k])
        }),
    decreases n,
{
    reveal(Seq::filter);
    if n > 0 {
        law_node_lists_keep_every_line(lines, (n - 1) as nat);
        assert(lines.take(n as int).drop_last() =~= lines.take(n - 1));
        assert(lines.take(n as int).last() == lines[n - 1]);
    }
}

/// A port is any number up to 65535, and nothing above is one.
pub proof fn law_ports_end_at_65535(n: nat)
    ensures
        n <= 65535 ==> port_value(decimal(n)) == Some(n as u16),
        n > 65535 ==> port_value(decimal(n)) is None,
        port_value(seq!['+'] + decimal(n)) == port_value(decimal(n)),
{
    lemma_numeral_reads_back(n, 10);
    let d = decimal(n);
    assert(is_digit(d[0], 10));
    assert(d[0] != '+');
    assert((seq!['+'] + d).skip(1) =~= d);
}

// ---------------------------------------------------------------------------
// The report
// ---------------------------------------------------------------------------

/// A line of the report says how a node ended, what it is, and what matters of it: for a
/// reachable one the time to connect and the user agent, for one that failed the reason and
/// how many attempts it got.
pub proof fn law_report_lines_say_how_a_node_ended(key: KeyView, e: EntryView, agent: Seq<char>)
    ensures
        ({
            let node = addr_text(key.0, key.1) + "  ("@ + network_name(e.network) + ")"@;
            let failed = "  reason="@ + counted_name(e.failure) + "  attempts="@ + decimal(
                e.stats.handshake_attempts as nat,
            );
            let line = node_line(key, e, agent);
            &&& e.state == NodeState::HandshakeFailed ==> line == "HANDSHAKE_FAILED  "@ + node
                + failed
            &&& e.state == NodeState::Unreachable ==> line == "UNREACHABLE       "@ + node + failed
            &&& e.state == NodeState::Queued ==> line == "Queued"@ + "          "@ + node
            &&& e.state == NodeState::Processing ==> line == "Processing"@ + "          "@ + node
            &&& e.state == NodeState::StaleDiscarded ==> line == "StaleDiscarded"@ + "          "@
                + node
            &&& e.state == NodeState::BudgetDiscarded ==> line == "BudgetDiscarded"@
                + "          "@ + node
            &&& e.state == NodeState::Reachable ==> line == "REACHABLE         "@ + node
                + "  connect="@ + (if e.stats.time_connect_ms is Some {
                decimal(e.stats.time_connect_ms->Some_0 as nat) + "ms"@
            } else {
                Seq::empty()
            }) + "  ua="@ + agent
        }),
{
    let node = addr_text(key.0, key.1) + "  ("@ + network_name(e.network) + ")"@;
    assert(node_text(key, e) == node);
    if e.state == NodeState::Reachable {
        assert(node_line(key, e, agent) =~= "REACHABLE         "@ + node + "  connect="@ + (
        if e.stats.time_connect_ms is Some {
            decimal(e.stats.time_connect_ms->Some_0 as nat) + "ms"@
        } else {
            Seq::empty()
        }) + "  ua="@ + agent);
    }
}

/// The report has one line for each node, by rendered address, and then, where any node failed
/// for a reason, one line for each reason.
pub proof fn law_report_has_every_node(rows: Seq<Row>, order: Seq<usize>)
    requires
        is_report_order(rows, order, rows.len() as int),
        rows.len() <= usize::MAX,
    ensures
        ({
            let lines = report_lines(rows, order);
            let tail = reason_lines(rows, reasons().len());
            &&& lines.len() == 1 + order.len() + if tail.len() == 0 {
                0
            } else {
                1 + tail.len()
            }
            &&& lines[0] == "\n=== Probe results ==="@
            &&& forall|k: int|
                0 <= k < order.len() ==> #[trigger] lines[k + 1] == node_line(
                    rows[order[k] as int].0,
                    rows[order[k] as int].1,
                    match rows[order[k] as int].1.handshake {
                        Some(h) => debug_text(h.user_agent),
                        None => debug_text(Seq::empty()),
                    },
                )
            &&& forall|k: int, l: int|
                0 <= k < l < order.len() ==> {
                    let a = code_points(
                        addr_text(
                            rows[#[trigger] order[k] as int].0.0,
                            rows[order[k] as int].0.1,
                        ),
                    );
                    let b = code_points(
                        addr_text(
                            rows[#[trigger] order[l] as int].0.0,
                            rows[order[l] as int].0.1,
                        ),
                    );
                    lex_less(a, b) || (a == b && order[k] < order[l])
                }
            &&& forall|i: int|
                0 <= i < rows.len() ==> #[trigger] order.contains(i as usize)
            &&& tail.len() > 0 ==> lines[(1 + order.len()) as int] == "\n=== Failure reasons ==="@
            &&& forall|k: int|
                0 <= k < tail.len() ==> lines[(2 + order.len() + k) as int] == #[trigger] tail[k]
        }),
{
    assert forall|k: int, l: int| 0 <= k < l < order.len() implies reported_before(
        rows,
        #[trigger] order[k] as int,
        #[trigger] order[l] as int,
    ) by {
    }
}

/// The nodes that carry a failure reason.
pub open spec fn failed_for(rows: Seq<Row>, reason: Option<FailKind>) -> Seq<Row> {
    rows.filter(|r: Row| r.1.failure == reason)
}

proof fn lemma_failed_for(rows: Seq<Row>, reason: Option<FailKind>)
    ensures
        failure_count(rows, reason) == failed_for(rows, reason).len(),
    decreases rows.len(),
{
    reveal(Seq::filter);
    if rows.len() > 0 {
        lemma_failed_for(rows.drop_last(), reason);
    }
}

/// Each line on the reasons shows, in five columns or more, how many nodes failed for a reason,
/// and its name; every reason that occurs has its line.
pub proof fn law_report_counts_each_reason(rows: Seq<Row>, n: nat)
    requires
        n <= reasons().len(),
    ensures
        ({
            let lines = reason_lines(rows, n);
            &&& forall|i: int|
                0 <= i < n && (#[trigger] reasons()[i]) is Some && failed_for(
                    rows,
                    reasons()[i],
                ).len() > 0 ==> lines.contains(
                    column(failed_for(rows, reasons()[i]).len()) + "  "@ + counted_name(
                        reasons()[i],
                    ),
                )
            &&& forall|k: int|
                0 <= k < lines.len() ==> exists|i: int|
                    0 <= i < n && (#[trigger] reasons()[i]) is Some && failed_for(
                        rows,
                        reasons()[i],
                    ).len() > 0 && (#[trigger] lines[k]) == column(
                        failed_for(rows, reasons()[i]).len(),
                    ) + "  "@ + counted_name(reasons()[i])
        }),
    decreases n,
{
    if n > 0 {
        let m = (n - 1) as nat;
        law_report_counts_each_reason(rows, m);
        let before = reason_lines(rows, m);
        let lines = reason_lines(rows, n);
        let reason = reasons()[m as int];
        lemma_failed_for(rows, reason);
        assert forall|i: int|
            0 <= i < n && (#[trigger] reasons()[i]) is Some && failed_for(
                rows,
                reasons()[i],
            ).len() > 0 implies lines.contains(
            column(failed_for(rows, reasons()[i]).len()) + "  "@ + counted_name(reasons()[i]),
        ) by {
            let line = column(failed_for(rows, reasons()[i]).len()) + "  "@ + counted_name(
                reasons()[i],
            );
            if i < m {
                assert(before.contains(line));
                let k = choose|k: int| 0 <= k < before.len() && before[k] == line;
                assert(lines[k] == line);
            } else {
                assert(lines[before.len() as int] == line);
            }
        }
        assert forall|k: int| 0 <= k < lines.len() implies exists|i: int|
            0 <= i < n && (#[trigger] reasons()[i]) is Some && failed_for(rows, reasons()[i]).len()
                > 0 && (#[trigger] lines[k]) == column(failed_for(rows, reasons()[i]).len()) + "  "@
                + counted_name(reasons()[i]) by {
            if k < before.len() {
                assert(lines[k] == before[k]);
            } else {
                assert(reasons()[m as int] == reason);
            }
        }
    }
}

/// A number in columns is its numeral, with blanks before it up to five columns.
pub proof fn law_columns_hold_the_number(n: nat)
    ensures
        column(n).len() >= 5,
        column(n).len() == 5 || column(n) == decimal(n),
        column(n).skip(column(n).len() - decimal(n).len()) == decimal(n),
        forall|i: int|
            0 <= i < column(n).len() - decimal(n).len() ==> #[trigger] column(n)[i] == ' ',
{
    assert(column(n).skip(column(n).len() - decimal(n).len()) =~= decimal(n));
}

} // verus!
