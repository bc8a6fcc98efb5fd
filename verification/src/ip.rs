//! Textual forms of IPv4 and IPv6 addresses.
use vstd::prelude::*;
use crate::text::{
    chars_of, decimal, digit_value, find, is_digit, is_numeral, join, lemma_digit,
    lemma_numeral_len, lemma_numeral_reads_back, lemma_split_join, matches_at, numeral,
    numeral_value, occurs, power, push_decimal, push_numeral, read_numeral, split, split_chars,
    sub_chars, views,
};

verus! {

// ---------------------------------------------------------------------------
// IPv4
// ---------------------------------------------------------------------------

/// The decimal fields of four octets.
pub open spec fn octet_fields(o: Seq<u8>) -> Seq<Seq<char>> {
    Seq::new(o.len(), |i: int| decimal(o[i] as nat))
}

/// Dotted-quad notation.
pub open spec fn dotted(o: Seq<u8>) -> Seq<char> {
    join(octet_fields(o), '.')
}

/// A decimal octet without superfluous leading zeros.
pub open spec fn is_octet_text(s: Seq<char>) -> bool {
    &&& is_numeral(s, 10)
    &&& s.len() <= 3
    &&& s.len() > 1 ==> s[0] != '0'
    &&& numeral_value(s, 10) <= 255
}

/// The octets that a dotted quad stands for.
pub open spec fn ipv4_value(s: Seq<char>) -> Option<Seq<u8>> {
    let fields = split(s, '.');
    if fields.len() == 4 && forall|i: int| 0 <= i < 4 ==> is_octet_text(#[trigger] fields[i]) {
        Some(Seq::new(4, |i: int| numeral_value(fields[i], 10) as u8))
    } else {
        None
    }
}

/// Writes four octets as a dotted quad.
pub fn format_ipv4(o: &[u8]) -> (r: String)
    requires
        o@.len() == 4,
    ensures
        r@ == dotted(o@),
{
    let mut out: String = String::new();
    push_decimal(&mut out, o[0] as u64);
    out.push('.');
    push_decimal(&mut out, o[1] as u64);
    out.push('.');
    push_decimal(&mut out, o[2] as u64);
    out.push('.');
    push_decimal(&mut out, o[3] as u64);
    proof {
        let f = octet_fields(o@);
        let f3 = f.drop_last();
        let f2 = f3.drop_last();
        let f1 = f2.drop_last();
        assert(join(f1, '.') == f[0]);
        assert(join(f2, '.') == f[0].push('.') + f[1]);
        assert(join(f3, '.') == join(f2, '.').push('.') + f[2]);
        assert(join(f, '.') == join(f3, '.').push('.') + f[3]);
        assert(out@ =~= dotted(o@));
    }
    out
}

fn parse_octet(s: &[char]) -> (r: Option<u8>)
    ensures
        r is Some <==> is_octet_text(s@),
        r matches Some(v) ==> v == numeral_value(s@, 10),
{
    if s.len() > 3 || (s.len() > 1 && s[0] == '0') {
        return None;
    }
    match read_numeral(s, 10, 255) {
        Some(v) => Some(v as u8),
        None => None,
    }
}

/// Reads a dotted quad.
pub fn parse_ipv4(s: &[char]) -> (r: Option<Vec<u8>>)
    ensures
        r is Some <==> ipv4_value(s@) is Some,
        r matches Some(v) ==> ipv4_value(s@) == Some(v@),
{
    let fields = split_chars(s, '.');
    let ghost f = split(s@, '.');
    if fields.len() != 4 {
        return None;
    }
    let mut out: Vec<u8> = Vec::new();
    let mut i: usize = 0;
    while i < 4
        invariant
            i <= 4,
            f == split(s@, '.'),
            views(fields@) == f,
            fields@.len() == 4,
            f.len() == 4,
            out@.len() == i,
            forall|j: int| 0 <= j < i ==> is_octet_text(#[trigger] f[j]),
            forall|j: int| 0 <= j < i ==> #[trigger] out@[j] == numeral_value(f[j], 10),
        decreases 4 - i,
    {
        assert(f[i as int] == fields@[i as int]@);
        match parse_octet(&fields[i]) {
            Some(v) => out.push(v),
            None => {
                assert(!is_octet_text(f[i as int]));
                return None;
            },
        }
        i = i + 1;
    }
    proof {
        assert(out@ =~= Seq::new(4, |i: int| numeral_value(f[i], 10) as u8));
    }
    Some(out)
}

proof fn lemma_no_leading_zero(n: nat, base: nat)
    requires
        2 <= base <= 16,
    ensures
        numeral(n, base).len() >= 1,
        numeral(n, base).len() > 1 ==> numeral(n, base)[0] != '0',
        n > 0 ==> numeral(n, base)[0] != '0',
    decreases n,
{
    if n >= base {
        assert(0 < n / base < n) by (nonlinear_arith)
            requires
                n >= base,
                base >= 2,
        ;
        lemma_no_leading_zero(n / base, base);
        assert(numeral(n, base)[0] == numeral(n / base, base)[0]);
    } else {
        lemma_digit(n as int, base as int);
        assert(digit_value('0') == Some(0int));
    }
}

/// A numeral holds nothing but digits.
proof fn lemma_numeral_lacks(n: nat, base: nat, c: char)
    requires
        2 <= base <= 16,
        digit_value(c) is None,
    ensures
        !numeral(n, base).contains(c),
{
    lemma_numeral_reads_back(n, base);
    let s = numeral(n, base);
    if s.contains(c) {
        let k = choose|k: int| 0 <= k < s.len() && s[k] == c;
        assert(is_digit(s[k], base as int));
    }
}

/// A dotted quad reads back as the octets it was written for.
pub proof fn law_ipv4_text_reads_back(o: Seq<u8>)
    requires
        o.len() == 4,
    ensures
        ipv4_value(dotted(o)) == Some(o),
{
    let f = octet_fields(o);
    assert forall|i: int| 0 <= i < f.len() implies !(#[trigger] f[i]).contains('.') && is_octet_text(
        f[i],
    ) && numeral_value(f[i], 10) == o[i] by {
        lemma_numeral_lacks(o[i] as nat, 10, '.');
        lemma_numeral_reads_back(o[i] as nat, 10);
        assert(power(10, 0) == 1);
        assert(power(10, 1) == 10);
        assert(power(10, 2) == 100);
        assert(power(10, 3) == 1000);
        lemma_numeral_len(o[i] as nat, 10, 1000, 3);
        lemma_no_leading_zero(o[i] as nat, 10);
    }
    lemma_split_join(f, '.');
    assert(ipv4_value(dotted(o))->Some_0 =~= o);
}

// ---------------------------------------------------------------------------
// IPv6
// ---------------------------------------------------------------------------

/// The eight big-endian groups of sixteen octets.
pub open spec fn octet_groups(o: Seq<u8>) -> Seq<u16> {
    Seq::new(8, |i: int| (o[2 * i] * 256 + o[2 * i + 1]) as u16)
}

/// The octets of a group pair.
pub open spec fn pair_octets(g: Seq<u16>) -> Seq<u8> {
    seq![
        (g[0] / 256) as u8,
        (g[0] % 256) as u8,
        (g[1] / 256) as u8,
        (g[1] % 256) as u8,
    ]
}

/// Whether the groups are an IPv4 address mapped into IPv6.
pub open spec fn is_mapped_groups(g: Seq<u16>) -> bool {
    g[0] == 0 && g[1] == 0 && g[2] == 0 && g[3] == 0 && g[4] == 0 && g[5] == 0xffff
}

/// The hexadecimal fields of some groups.
pub open spec fn group_fields(g: Seq<u16>) -> Seq<Seq<char>> {
    Seq::new(g.len(), |i: int| numeral(g[i] as nat, 16))
}

/// Groups in hexadecimal with colons between them.
pub open spec fn colon_hex(g: Seq<u16>) -> Seq<char> {
    join(group_fields(g), ':')
}

/// How many groups from position `i` on are zero without a gap.
pub open spec fn zero_run(g: Seq<u16>, i: int) -> nat
    decreases g.len() - i,
{
    if 0 <= i < g.len() && g[i] == 0 {
        1 + zero_run(g, i + 1)
    } else {
        0
    }
}

/// The first among the positions up to `k` at which the longest zero run starts.
pub open spec fn longest_run(g: Seq<u16>, k: int) -> int
    decreases k,
{
    if k <= 0 {
        0
    } else if zero_run(g, k) > zero_run(g, longest_run(g, k - 1)) {
        k
    } else {
        longest_run(g, k - 1)
    }
}

/// Canonical text: a mapped IPv4 address in mixed notation, otherwise lowercase groups
/// with the first longest run of two or more zero groups left out.
pub open spec fn ipv6_text(g: Seq<u16>) -> Seq<char> {
    let start = longest_run(g, 7);
    let n = zero_run(g, start);
    if is_mapped_groups(g) {
        "::ffff:"@ + dotted(pair_octets(g.skip(6)))
    } else if n > 1 {
        colon_hex(g.take(start)) + "::"@ + colon_hex(g.skip((start + n) as int))
    } else {
        colon_hex(g)
    }
}

/// A group field: one to four hexadecimal digits.
pub open spec fn is_group_text(s: Seq<char>) -> bool {
    is_numeral(s, 16) && s.len() <= 4
}

pub open spec fn all_group_texts(fields: Seq<Seq<char>>) -> bool {
    forall|i: int| 0 <= i < fields.len() ==> is_group_text(#[trigger] fields[i])
}

pub open spec fn group_values(fields: Seq<Seq<char>>) -> Seq<u16> {
    Seq::new(fields.len(), |i: int| numeral_value(fields[i], 16) as u16)
}

/// The two groups that a dotted quad stands for.
pub open spec fn quad_groups(o: Seq<u8>) -> Seq<u16> {
    seq![(o[0] * 256 + o[1]) as u16, (o[2] * 256 + o[3]) as u16]
}

/// The groups of colon-separated fields; where `quad` is set the last field may be a
/// dotted quad, which counts for two groups.
pub open spec fn field_groups(fields: Seq<Seq<char>>, quad: bool) -> Option<Seq<u16>> {
    if all_group_texts(fields) {
        Some(group_values(fields))
    } else if quad && fields.len() > 0 && all_group_texts(fields.drop_last()) {
        match ipv4_value(fields.last()) {
            Some(o) => Some(group_values(fields.drop_last()) + quad_groups(o)),
            None => None,
        }
    } else {
        None
    }
}

/// The groups on one side of a double colon, which may be empty.
pub open spec fn side_groups(s: Seq<char>, quad: bool) -> Option<Seq<u16>> {
    if s.len() == 0 {
        Some(Seq::empty())
    } else {
        field_groups(split(s, ':'), quad)
    }
}

/// Whether the double colon at `at` is the first one in `s`.
pub open spec fn first_double_colon(s: Seq<char>, at: int) -> bool {
    matches_at(s, "::"@, at) && forall|j: int| 0 <= j < at ==> !matches_at(s, "::"@, j)
}

/// The groups around a double colon, which stands for at least one zero group.
pub open spec fn around_double_colon(s: Seq<char>, at: int) -> Option<Seq<u16>> {
    match (side_groups(s.take(at), false), side_groups(s.skip(at + 2), true)) {
        (Some(h), Some(t)) => if h.len() + t.len() <= 7 {
            Some(h + Seq::new((8 - h.len() - t.len()) as nat, |i: int| 0u16) + t)
        } else {
            None
        },
        _ => None,
    }
}

/// The groups that an IPv6 address text stands for.
pub open spec fn ipv6_value(s: Seq<char>) -> Option<Seq<u16>> {
    if occurs(s, "::"@) {
        around_double_colon(s, choose|at: int| first_double_colon(s, at))
    } else {
        match field_groups(split(s, ':'), true) {
            Some(g) => if g.len() == 8 {
                Some(g)
            } else {
                None
            },
            None => None,
        }
    }
}

proof fn lemma_first_double_colon(s: Seq<char>, at: int)
    requires
        first_double_colon(s, at),
    ensures
        occurs(s, "::"@),
        (choose|a: int| first_double_colon(s, a)) == at,
{
    let c = choose|a: int| first_double_colon(s, a);
    assert(first_double_colon(s, c));
    assert(matches_at(s, "::"@, at));
}

fn parse_group_fields(fields: &Vec<Vec<char>>, upto: usize) -> (r: Option<Vec<u16>>)
    requires
        upto <= fields@.len(),
    ensures
        r is Some <==> all_group_texts(views(fields@).take(upto as int)),
        r matches Some(v) ==> v@ == group_values(views(fields@).take(upto as int)),
{
    let ghost f = views(fields@).take(upto as int);
    let mut out: Vec<u16> = Vec::new();
    let mut i: usize = 0;
    while i < upto
        invariant
            i <= upto <= fields@.len(),
            f == views(fields@).take(upto as int),
            out@.len() == i,
            forall|j: int| 0 <= j < i ==> is_group_text(#[trigger] f[j]),
            forall|j: int| 0 <= j < i ==> #[trigger] out@[j] == numeral_value(f[j], 16),
        decreases upto - i,
    {
        assert(f[i as int] == fields@[i as int]@);
        if fields[i].len() > 4 {
            assert(!is_group_text(f[i as int]));
            return None;
        }
        match read_numeral(&fields[i], 16, 0xffff) {
            Some(v) => out.push(v as u16),
            None => {
                proof {
                    if is_group_text(f[i as int]) {
                        lemma_group_value(f[i as int]);
                    }
                    assert(!is_group_text(f[i as int]));
                }
                return None;
            },
        }
        i = i + 1;
    }
    proof {
        assert(out@ =~= group_values(f));
    }
    Some(out)
}

proof fn lemma_value_bound(s: Seq<char>, base: nat)
    requires
        2 <= base <= 16,
        forall|i: int| 0 <= i < s.len() ==> is_digit(#[trigger] s[i], base as int),
    ensures
        0 <= numeral_value(s, base as int) < power(base, s.len()),
    decreases s.len(),
{
    if s.len() > 0 {
        let p = s.drop_last();
        assert forall|i: int| 0 <= i < p.len() implies is_digit(#[trigger] p[i], base as int) by {
            assert(p[i] == s[i]);
        }
        lemma_value_bound(p, base);
        assert(is_digit(s[s.len() - 1], base as int));
        let v = numeral_value(p, base as int);
        let b = power(base, p.len());
        let d = digit_value(s.last())->Some_0;
        assert(0 <= v * base + d < base * b) by (nonlinear_arith)
            requires
                0 <= v < b,
                0 <= d < base,
        ;
    } else {
        assert(power(base, 0) == 1);
    }
}

proof fn lemma_group_value(s: Seq<char>)
    requires
        is_group_text(s),
    ensures
        0 <= numeral_value(s, 16) <= 0xffff,
{
    lemma_value_bound(s, 16);
    assert(power(16, 0) == 1);
    assert(power(16, 1) == 16);
    assert(power(16, 2) == 256);
    assert(power(16, 3) == 4096);
    assert(power(16, 4) == 65536);
}

fn parse_fields(s: &[char], quad: bool) -> (r: Option<Vec<u16>>)
    ensures
        r is Some <==> field_groups(split(s@, ':'), quad) is Some,
        r matches Some(v) ==> field_groups(split(s@, ':'), quad) == Some(v@),
{
    let fields = split_chars(s, ':');
    let ghost f = split(s@, ':');
    let n = fields.len();
    proof {
        assert(views(fields@).take(n as int) =~= f);
        assert(views(fields@).take(n - 1) =~= f.drop_last());
        assert(f.last() == fields@[n - 1]@);
    }
    match parse_group_fields(&fields, n) {
        Some(v) => Some(v),
        None => {
            if !quad {
                return None;
            }
            let head = parse_group_fields(&fields, n - 1);
            let tail = parse_ipv4(&fields[n - 1]);
            match (head, tail) {
                (Some(mut g), Some(o)) => {
                    let ghost before = g@;
                    assert(o@.len() == 4);
                    g.push((o[0] as u16) * 256 + (o[1] as u16));
                    g.push((o[2] as u16) * 256 + (o[3] as u16));
                    proof {
                        assert(g@ =~= before + quad_groups(o@));
                    }
                    Some(g)
                },
                _ => None,
            }
        },
    }
}

fn parse_side(s: &[char], quad: bool) -> (r: Option<Vec<u16>>)
    ensures
        r is Some <==> side_groups(s@, quad) is Some,
        r matches Some(v) ==> side_groups(s@, quad) == Some(v@),
{
    if s.len() == 0 {
        let out: Vec<u16> = Vec::new();
        assert(out@ =~= Seq::<u16>::empty());
        Some(out)
    } else {
        parse_fields(s, quad)
    }
}

/// Reads an IPv6 address into its eight groups.
pub fn parse_ipv6(s: &[char]) -> (r: Option<Vec<u16>>)
    ensures
        r is Some <==> ipv6_value(s@) is Some,
        r matches Some(v) ==> ipv6_value(s@) == Some(v@) && v@.len() == 8,
{
    let pat = chars_of("::");
    proof {
        reveal_strlit("::");
    }
    match find(s, &pat) {
        Some(at) => {
            proof {
                assert(first_double_colon(s@, at as int));
                lemma_first_double_colon(s@, at as int);
            }
            let n = s.len();
            assert(at + 2 <= n);
            let left = sub_chars(s, 0, at);
            let right = sub_chars(s, at + 2, n);
            proof {
                assert(left@ =~= s@.take(at as int));
                assert(right@ =~= s@.skip(at + 2));
            }
            let head = parse_side(&left, false);
            let tail = parse_side(&right, true);
            match (head, tail) {
                (Some(mut g), Some(t)) => {
                    if g.len() > 7 || t.len() > 7 - g.len() {
                        return None;
                    }
                    let ghost h = g@;
                    let zeros: usize = 8 - g.len() - t.len();
                    let mut i: usize = 0;
                    while i < zeros
                        invariant
                            i <= zeros,
                            g@ == h + Seq::new(i as nat, |k: int| 0u16),
                        decreases zeros - i,
                    {
                        g.push(0);
                        i = i + 1;
                        proof {
                            assert(g@ =~= h + Seq::new(i as nat, |k: int| 0u16));
                        }
                    }
                    let mut j: usize = 0;
                    let ghost filled = g@;
                    while j < t.len()
                        invariant
                            j <= t@.len(),
                            g@ == filled + t@.take(j as int),
                        decreases t@.len() - j,
                    {
                        g.push(t[j]);
                        j = j + 1;
                        proof {
                            assert(t@.take(j as int) =~= t@.take(j - 1).push(t@[j - 1]));
                            assert(g@ =~= filled + t@.take(j as int));
                        }
                    }
                    proof {
                        assert(t@.take(j as int) =~= t@);
                    }
                    Some(g)
                },
                _ => None,
            }
        },
        None => match parse_fields(s, true) {
            Some(g) => if g.len() == 8 {
                Some(g)
            } else {
                None
            },
            None => None,
        },
    }
}

fn zero_run_at(g: &Vec<u16>, i: usize) -> (n: usize)
    requires
        i <= g@.len(),
    ensures
        n == zero_run(g@, i as int),
        i + n <= g@.len(),
    decreases g@.len() - i,
{
    if i < g.len() && g[i] == 0 {
        1 + zero_run_at(g, i + 1)
    } else {
        0
    }
}

fn push_groups(out: &mut String, g: &Vec<u16>, from: usize, to: usize)
    requires
        from <= to <= g@.len(),
    ensures
        final(out)@ == old(out)@ + colon_hex(g@.subrange(from as int, to as int)),
{
    let mut i: usize = from;
    let ghost start = out@;
    proof {
        assert(g@.subrange(from as int, from as int) =~= Seq::<u16>::empty());
        assert(out@ =~= start + colon_hex(g@.subrange(from as int, i as int)));
    }
    while i < to
        invariant
            from <= i <= to <= g@.len(),
            out@ == start + colon_hex(g@.subrange(from as int, i as int)),
        decreases to - i,
    {
        let ghost done = g@.subrange(from as int, i as int);
        let ghost next = g@.subrange(from as int, i + 1);
        if i > from {
            out.push(':');
        }
        push_numeral(out, g[i] as u64, 16);
        i = i + 1;
        proof {
            assert(group_fields(next).drop_last() =~= group_fields(done));
            assert(group_fields(next).last() == numeral(g@[i - 1] as nat, 16));
            assert(out@ =~= start + colon_hex(next));
        }
    }
}

/// Writes sixteen octets in canonical IPv6 notation.
pub fn format_ipv6(o: &[u8]) -> (r: String)
    requires
        o@.len() == 16,
    ensures
        r@ == ipv6_text(octet_groups(o@)),
{
    let mut g: Vec<u16> = Vec::new();
    let mut i: usize = 0;
    while i < 8
        invariant
            i <= 8,
            o@.len() == 16,
            g@ == octet_groups(o@).take(i as int),
        decreases 8 - i,
    {
        g.push((o[2 * i] as u16) * 256 + (o[2 * i + 1] as u16));
        i = i + 1;
        proof {
            assert(g@ =~= octet_groups(o@).take(i as int));
        }
    }
    proof {
        assert(g@ =~= octet_groups(o@));
    }
    let mut out: String = String::new();
    if g[0] == 0 && g[1] == 0 && g[2] == 0 && g[3] == 0 && g[4] == 0 && g[5] == 0xffff {
        out.push_str("::ffff:");
        let quad: [u8; 4] = [o[12], o[13], o[14], o[15]];
        let text = format_ipv4(&quad);
        out.push_str(&text);
        proof {
            let p = pair_octets(g@.skip(6));
            assert(g@.skip(6)[0] == g@[6]);
            assert(g@.skip(6)[1] == g@[7]);
            assert(quad@ =~= p);
            assert(out@ =~= ipv6_text(g@));
        }
        return out;
    }
    let mut start: usize = 0;
    let mut best: usize = zero_run_at(&g, 0);
    let mut k: usize = 0;
    while k < 7
        invariant
            k <= 7,
            g@.len() == 8,
            start == longest_run(g@, k as int),
            best == zero_run(g@, start as int),
            start <= k,
            start + best <= 8,
        decreases 7 - k,
    {
        k = k + 1;
        let n = zero_run_at(&g, k);
        if n > best {
            start = k;
            best = n;
        }
    }
    if best > 1 {
        push_groups(&mut out, &g, 0, start);
        out.push_str("::");
        push_groups(&mut out, &g, start + best, 8);
        proof {
            assert(g@.subrange(0, start as int) =~= g@.take(start as int));
            assert(g@.subrange(start + best, 8) =~= g@.skip(start + best));
            assert(out@ =~= ipv6_text(g@));
        }
    } else {
        push_groups(&mut out, &g, 0, 8);
        proof {
            assert(g@.subrange(0, 8) =~= g@);
            assert(out@ =~= ipv6_text(g@));
        }
    }
    out
}

/// Whether every separator in `s` is followed by something else.
#[verifier::opaque]
spec fn well_separated(s: Seq<char>, sep: char) -> bool {
    forall|p: int|
        0 <= p < s.len() && #[trigger] s[p] == sep ==> p + 1 < s.len() && s[p + 1] != sep
}

/// In joined non-empty fields a separator is always followed by something else.
proof fn lemma_join_no_double(parts: Seq<Seq<char>>, sep: char)
    requires
        parts.len() > 0,
        forall|i: int| 0 <= i < parts.len() ==> !(#[trigger] parts[i]).contains(sep),
        forall|i: int| 0 <= i < parts.len() ==> (#[trigger] parts[i]).len() > 0,
    ensures
        join(parts, sep).len() > 0,
        well_separated(join(parts, sep), sep),
    decreases parts.len(),
{
    reveal(well_separated);
    let s = join(parts, sep);
    let last = parts[parts.len() - 1];
    assert forall|k: int| 0 <= k < last.len() implies last[k] != sep by {
        assert(last.contains(last[k]));
    }
    if parts.len() > 1 {
        let dl = parts.drop_last();
        assert forall|i: int| 0 <= i < dl.len() implies !(#[trigger] dl[i]).contains(sep) && dl[i].len()
            > 0 by {
            assert(dl[i] == parts[i]);
        }
        lemma_join_no_double(dl, sep);
        let h = join(dl, sep);
        assert(s == h.push(sep) + last);
        assert forall|p: int| 0 <= p < s.len() && #[trigger] s[p] == sep implies p + 1 < s.len()
            && s[p + 1] != sep by {
            if p < h.len() {
                assert(h[p] == sep);
                assert(s[p + 1] == h[p + 1]);
            } else if p == h.len() {
                assert(s[p + 1] == last[0]);
            } else {
                assert(s[p] == last[p - h.len() - 1]);
            }
        }
    }
}

proof fn lemma_group_fields(g: Seq<u16>)
    ensures
        forall|i: int| 0 <= i < g.len() ==> !(#[trigger] group_fields(g)[i]).contains(':'),
        forall|i: int| 0 <= i < g.len() ==> (#[trigger] group_fields(g)[i]).len() > 0,
        all_group_texts(group_fields(g)),
        group_values(group_fields(g)) == g,
{
    let f = group_fields(g);
    assert forall|i: int| 0 <= i < g.len() implies !(#[trigger] f[i]).contains(':') && is_group_text(
        f[i],
    ) && numeral_value(f[i], 16) == g[i] by {
        lemma_numeral_lacks(g[i] as nat, 16, ':');
        lemma_numeral_reads_back(g[i] as nat, 16);
        assert(power(16, 0) == 1);
        assert(power(16, 1) == 16);
        assert(power(16, 2) == 256);
        assert(power(16, 3) == 4096);
        assert(power(16, 4) == 65536);
        lemma_numeral_len(g[i] as nat, 16, 65536, 4);
    }
    assert(group_values(f) =~= g);
}

proof fn lemma_side_reads_back(g: Seq<u16>, quad: bool)
    ensures
        side_groups(colon_hex(g), quad) == Some(g),
        g.len() > 0 ==> field_groups(split(colon_hex(g), ':'), quad) == Some(g),
        well_separated(colon_hex(g), ':'),
{
    lemma_group_fields(g);
    if g.len() > 0 {
        lemma_split_join(group_fields(g), ':');
        lemma_join_no_double(group_fields(g), ':');
    } else {
        reveal(well_separated);
        assert(g =~= Seq::<u16>::empty());
    }
}

proof fn lemma_double_colon_split(h: Seq<char>, t: Seq<char>)
    requires
        well_separated(h, ':'),
    ensures
        first_double_colon(h + "::"@ + t, h.len() as int),
        (h + "::"@ + t).take(h.len() as int) == h,
        (h + "::"@ + t).skip(h.len() as int + 2) == t,
{
    reveal(well_separated);
    reveal_strlit("::");
    let s = h + "::"@ + t;
    assert(s.subrange(h.len() as int, h.len() as int + 2) =~= "::"@);
    assert forall|j: int| 0 <= j < h.len() implies !matches_at(s, "::"@, j) by {
        if matches_at(s, "::"@, j) {
            assert(s.subrange(j, j + 2)[0] == ':');
            assert(s.subrange(j, j + 2)[1] == ':');
            assert(h[j] == ':');
            assert(s[j + 1] == h[j + 1]);
        }
    }
    assert(s.take(h.len() as int) =~= h);
    assert(s.skip(h.len() as int + 2) =~= t);
}

pub proof fn lemma_zero_run(g: Seq<u16>, i: int)
    requires
        0 <= i <= g.len(),
    ensures
        i + zero_run(g, i) <= g.len(),
        forall|j: int| i <= j < i + zero_run(g, i) ==> g[j] == 0,
    decreases g.len() - i,
{
    if i < g.len() && g[i] == 0 {
        lemma_zero_run(g, i + 1);
    }
}

pub proof fn lemma_longest_run_range(g: Seq<u16>, k: int)
    requires
        0 <= k,
    ensures
        0 <= longest_run(g, k) <= k,
    decreases k,
{
    if k > 0 {
        lemma_longest_run_range(g, k - 1);
    }
}

/// The tail of a mapped address, `ffff:` and a dotted quad, stands for three groups.
proof fn lemma_mapped_tail(o: Seq<u8>)
    requires
        o.len() == 4,
    ensures
        side_groups("ffff:"@ + dotted(o), true) == Some(seq![0xffffu16] + quad_groups(o)),
{
    let t = "ffff:"@ + dotted(o);
    let ffff = seq!['f', 'f', 'f', 'f'];
    let fields = seq![ffff, dotted(o)];
    lemma_ffff();
    lemma_dotted_shape(o);
    assert(fields.drop_last() =~= seq![ffff]);
    assert(split(t, ':') == fields && t.len() > 0) by {
        reveal_strlit("ffff:");
        assert(join(fields.drop_last(), ':') == ffff);
        assert(join(fields, ':') =~= t);
        lemma_split_join(fields, ':');
    }
    law_ipv4_text_reads_back(o);
    assert(!is_group_text(fields[1]));
    assert(all_group_texts(fields.drop_last()));
    assert(group_values(fields.drop_last()) =~= seq![0xffffu16]);
}

proof fn lemma_ffff()
    ensures
        is_group_text(seq!['f', 'f', 'f', 'f']),
        !seq!['f', 'f', 'f', 'f'].contains(':'),
        numeral_value(seq!['f', 'f', 'f', 'f'], 16) == 0xffff,
{
    let f4 = seq!['f', 'f', 'f', 'f'];
    let f3 = f4.drop_last();
    let f2 = f3.drop_last();
    let f1 = f2.drop_last();
    let f0 = f1.drop_last();
    assert(numeral_value(f0, 16) == 0);
    assert(numeral_value(f1, 16) == 15);
    assert(numeral_value(f2, 16) == 255);
    assert(numeral_value(f3, 16) == 4095);
}

proof fn lemma_mapped_reads_back(g: Seq<u16>)
    requires
        g.len() == 8,
        is_mapped_groups(g),
    ensures
        ipv6_value(ipv6_text(g)) == Some(g),
        ipv6_text(g).contains(':'),
{
    let s = ipv6_text(g);
    let o = pair_octets(g.skip(6));
    assert(g.skip(6)[0] == g[6]);
    assert(g.skip(6)[1] == g[7]);
    let t = "ffff:"@ + dotted(o);
    let empty = Seq::<char>::empty();
    assert(well_separated(empty, ':')) by {
        reveal(well_separated);
    }
    assert(s =~= empty + "::"@ + t) by {
        reveal_strlit("ffff:");
        reveal_strlit("::ffff:");
        reveal_strlit("::");
    }
    lemma_mapped_tail(o);
    let tg = seq![0xffffu16] + quad_groups(o);
    let none = Seq::<u16>::empty();
    lemma_sides_read_back(empty, t, none, tg);
    let whole = none + Seq::new((8 - none.len() - tg.len()) as nat, |i: int| 0u16) + tg;
    assert(whole =~= g);
}

proof fn lemma_sides_read_back(hs: Seq<char>, ts: Seq<char>, h: Seq<u16>, t: Seq<u16>)
    requires
        well_separated(hs, ':'),
        side_groups(hs, false) == Some(h),
        side_groups(ts, true) == Some(t),
        h.len() + t.len() <= 7,
    ensures
        ipv6_value(hs + "::"@ + ts) == Some(
            h + Seq::new((8 - h.len() - t.len()) as nat, |i: int| 0u16) + t,
        ),
        (hs + "::"@ + ts).contains(':'),
{
    let s = hs + "::"@ + ts;
    lemma_double_colon_split(hs, ts);
    lemma_first_double_colon(s, hs.len() as int);
    assert(s.contains(':')) by {
        reveal_strlit("::");
        assert(s[hs.len() as int] == ':');
    }
}

proof fn lemma_compressed_reads_back(g: Seq<u16>, start: int, n: int)
    requires
        g.len() == 8,
        0 <= start,
        start + n <= 8,
        n > 1,
        forall|j: int| start <= j < start + n ==> g[j] == 0,
    ensures
        ipv6_value(colon_hex(g.take(start)) + "::"@ + colon_hex(g.skip(start + n))) == Some(g),
        (colon_hex(g.take(start)) + "::"@ + colon_hex(g.skip(start + n))).contains(':'),
{
    let h = g.take(start);
    let t = g.skip(start + n);
    lemma_side_reads_back(h, false);
    lemma_side_reads_back(t, true);
    lemma_sides_read_back(colon_hex(h), colon_hex(t), h, t);
    let whole = h + Seq::new((8 - h.len() - t.len()) as nat, |i: int| 0u16) + t;
    assert(whole =~= g);
}

proof fn lemma_full_reads_back(g: Seq<u16>)
    requires
        g.len() == 8,
    ensures
        ipv6_value(colon_hex(g)) == Some(g),
        colon_hex(g).contains(':'),
{
    let s = colon_hex(g);
    lemma_side_reads_back(g, true);
    assert forall|at: int| !matches_at(s, "::"@, at) by {
        reveal(well_separated);
        reveal_strlit("::");
        if matches_at(s, "::"@, at) {
            assert(s.subrange(at, at + 2)[0] == ':');
            assert(s.subrange(at, at + 2)[1] == ':');
            assert(s[at] == ':');
            assert(s[at + 1] == ':');
        }
    }
    let f = group_fields(g);
    assert(s == join(f.drop_last(), ':').push(':') + f.last());
    assert(s[join(f.drop_last(), ':').len() as int] == ':');
}

/// Canonical IPv6 text holds a colon and reads back as the groups it was written for.
pub proof fn law_ipv6_text_reads_back(g: Seq<u16>)
    requires
        g.len() == 8,
    ensures
        ipv6_value(ipv6_text(g)) == Some(g),
        ipv6_text(g).contains(':'),
{
    let start = longest_run(g, 7);
    let n = zero_run(g, start);
    lemma_longest_run_range(g, 7);
    lemma_zero_run(g, start);
    if is_mapped_groups(g) {
        lemma_mapped_reads_back(g);
    } else if n > 1 {
        lemma_compressed_reads_back(g, start, n as int);
    } else {
        lemma_full_reads_back(g);
    }
}

/// A dotted quad holds a dot and no colon.
pub proof fn lemma_dotted_shape(o: Seq<u8>)
    requires
        o.len() == 4,
    ensures
        !dotted(o).contains(':'),
        !is_group_text(dotted(o)),
        forall|i: int|
            0 <= i < dotted(o).len() ==> is_digit(#[trigger] dotted(o)[i], 10) || dotted(o)[i]
                == '.',
{
    let f = octet_fields(o);
    lemma_dotted_chars(o, 4);
    assert(o.take(4) =~= o);
    let s = dotted(o);
    assert(s == join(f.drop_last(), '.').push('.') + f.last());
    let k = join(f.drop_last(), '.').len() as int;
    assert(s[k] == '.');
    if is_group_text(s) {
        assert(is_digit(s[k], 16));
    }
}

proof fn lemma_dotted_chars(o: Seq<u8>, n: int)
    requires
        0 <= n <= o.len(),
    ensures
        forall|i: int|
            0 <= i < dotted(o.take(n)).len() ==> is_digit(#[trigger] dotted(o.take(n))[i], 10)
                || dotted(o.take(n))[i] == '.',
    decreases n,
{
    let f = octet_fields(o.take(n));
    if n > 0 {
        lemma_numeral_reads_back(o[n - 1] as nat, 10);
        assert(f.last() == decimal(o[n - 1] as nat));
        lemma_dotted_chars(o, n - 1);
        assert(f.drop_last() =~= octet_fields(o.take(n - 1)));
        let h = dotted(o.take(n - 1));
        if n > 1 {
            assert(dotted(o.take(n)) == h.push('.') + f.last());
        }
    }
}

/// Whether a text is one to four hexadecimal digits, in either case.
pub open spec fn is_group(s: Seq<char>) -> bool {
    1 <= s.len() <= 4 && forall|i: int|
        0 <= i < s.len() ==> '0' <= #[trigger] s[i] <= '9' || 'a' <= s[i] <= 'f' || 'A' <= s[i]
            <= 'F'
}

/// The numbers that groups stand for.
pub open spec fn groups_read(fields: Seq<Seq<char>>) -> Seq<u16> {
    Seq::new(fields.len(), |i: int| numeral_value(fields[i], 16) as u16)
}

proof fn lemma_groups_in_any_spelling(fields: Seq<Seq<char>>)
    requires
        forall|i: int| 0 <= i < fields.len() ==> is_group(#[trigger] fields[i]),
    ensures
        all_group_texts(fields),
        group_values(fields) == groups_read(fields),
        forall|i: int| 0 <= i < fields.len() ==> !(#[trigger] fields[i]).contains(':'),
        forall|i: int| 0 <= i < fields.len() ==> (#[trigger] fields[i]).len() > 0,
{
    assert forall|i: int| 0 <= i < fields.len() implies is_group_text(#[trigger] fields[i])
        && !fields[i].contains(':') by {
        let f = fields[i];
        assert(is_group(f));
        assert forall|k: int| 0 <= k < f.len() implies is_digit(#[trigger] f[k], 16) by {
        }
    }
    assert(group_values(fields) =~= groups_read(fields));
}

/// Whether a side of an address may stand before or after a double colon, or alone: groups
/// between colons, and a dotted quad at its end where one is given.
pub open spec fn side_text(fields: Seq<Seq<char>>, quad: Option<Seq<u8>>) -> Seq<char> {
    match quad {
        Some(o) => join(fields.push(dotted(o)), ':'),
        None => join(fields, ':'),
    }
}

/// What such a side stands for.
pub open spec fn side_read(fields: Seq<Seq<char>>, quad: Option<Seq<u8>>) -> Seq<u16> {
    match quad {
        Some(o) => groups_read(fields) + seq![
            (o[0] * 256 + o[1]) as u16,
            (o[2] * 256 + o[3]) as u16,
        ],
        None => groups_read(fields),
    }
}

proof fn lemma_side_text(fields: Seq<Seq<char>>, quad: Option<Seq<u8>>)
    requires
        forall|i: int| 0 <= i < fields.len() ==> is_group(#[trigger] fields[i]),
        quad matches Some(o) ==> o.len() == 4,
    ensures
        side_groups(side_text(fields, quad), true) == Some(side_read(fields, quad)),
        quad is None ==> side_groups(side_text(fields, quad), false) == Some(
            side_read(fields, quad),
        ),
        side_text(fields, quad).len() > 0 ==> field_groups(split(side_text(fields, quad), ':'), true)
            == Some(side_read(fields, quad)),
        fields.len() > 0 || quad is Some ==> side_text(fields, quad).len() > 0,
        well_separated(side_text(fields, quad), ':'),
{
    lemma_groups_in_any_spelling(fields);
    match quad {
        None => {
            if fields.len() > 0 {
                lemma_split_join(fields, ':');
                lemma_join_no_double(fields, ':');
            } else {
                reveal(well_separated);
                assert(groups_read(fields) =~= Seq::<u16>::empty());
            }
        },
        Some(o) => {
            let all = fields.push(dotted(o));
            lemma_dotted_shape(o);
            law_ipv4_text_reads_back(o);
            assert(dotted(o).len() > 0) by {
                lemma_numeral_reads_back(o[3] as nat, 10);
                let f = octet_fields(o);
                assert(dotted(o) == join(f.drop_last(), '.').push('.') + f.last());
            }
            assert forall|i: int| 0 <= i < all.len() implies !(#[trigger] all[i]).contains(':')
                && all[i].len() > 0 by {
                if i < fields.len() {
                    assert(all[i] == fields[i]);
                }
            }
            lemma_split_join(all, ':');
            lemma_join_no_double(all, ':');
            assert(all.drop_last() =~= fields);
            assert(!is_group_text(all[all.len() - 1]));
            assert(all.last() == dotted(o));
        },
    }
}

/// Eight groups between colons, each of one to four hexadecimal digits in either case, are an
/// IPv6 address; the last two may be a dotted quad.
pub proof fn law_ipv6_is_read_from_eight_groups(fields: Seq<Seq<char>>, quad: Option<Seq<u8>>)
    requires
        forall|i: int| 0 <= i < fields.len() ==> is_group(#[trigger] fields[i]),
        quad matches Some(o) ==> o.len() == 4 && fields.len() == 6,
        quad is None ==> fields.len() == 8,
    ensures
        ipv6_value(side_text(fields, quad)) == Some(side_read(fields, quad)),
{
    lemma_side_text(fields, quad);
    let s = side_text(fields, quad);
    assert forall|at: int| !matches_at(s, "::"@, at) by {
        reveal(well_separated);
        reveal_strlit("::");
        if matches_at(s, "::"@, at) {
            assert(s.subrange(at, at + 2)[0] == ':');
            assert(s.subrange(at, at + 2)[1] == ':');
            assert(s[at] == ':');
            assert(s[at + 1] == ':');
        }
    }
}

/// A double colon stands for as many zero groups as are missing, at least one, wherever it
/// stands; the last two groups may be a dotted quad.
pub proof fn law_ipv6_double_colon_stands_for_zeros(
    before: Seq<Seq<char>>,
    after: Seq<Seq<char>>,
    quad: Option<Seq<u8>>,
)
    requires
        forall|i: int| 0 <= i < before.len() ==> is_group(#[trigger] before[i]),
        forall|i: int| 0 <= i < after.len() ==> is_group(#[trigger] after[i]),
        quad matches Some(o) ==> o.len() == 4,
        before.len() + side_read(after, quad).len() <= 7,
    ensures
        ({
            let s = join(before, ':') + "::"@ + side_text(after, quad);
            let (h, t) = (groups_read(before), side_read(after, quad));
            &&& ipv6_value(s) matches Some(g) && g.len() == 8 && g.take(h.len() as int) == h
                && g.skip(8 - t.len()) == t && forall|i: int|
                h.len() <= i < 8 - t.len() ==> #[trigger] g[i] == 0
        }),
{
    lemma_side_text(before, None);
    lemma_side_text(after, quad);
    let (h, t) = (groups_read(before), side_read(after, quad));
    lemma_sides_read_back(join(before, ':'), side_text(after, quad), h, t);
    let g = h + Seq::new((8 - h.len() - t.len()) as nat, |i: int| 0u16) + t;
    assert(g.take(h.len() as int) =~= h);
    assert(g.skip(8 - t.len()) =~= t);
}

/// Whatever is read as an IPv6 address has eight groups.
pub proof fn law_ipv6_has_eight_groups(s: Seq<char>)
    ensures
        ipv6_value(s) matches Some(g) ==> g.len() == 8,
{
}

} // verus!
