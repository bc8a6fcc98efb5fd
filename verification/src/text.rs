//! Text primitives over sequences of characters: numerals, splitting, joining and searching.
use vstd::prelude::*;

verus! {

/// `String::push` appends one character.
pub assume_specification[ String::push ](s: &mut String, c: char)
    ensures
        final(s)@ == old(s)@.push(c),
;

/// `String::push_str` appends a whole string slice.
pub assume_specification[ String::push_str ](s: &mut String, t: &str)
    ensures
        final(s)@ == old(s)@ + t@,
;

/// The characters of a string, in order.
pub fn chars_of(s: &str) -> (r: Vec<char>)
    ensures
        r@ == s@,
{
    let mut out: Vec<char> = Vec::new();
    for c in it: s.chars()
        invariant
            out@ == it.seq().take(it.index() as int),
            it.seq() == s@,
    {
        out.push(c);
    }
    out
}

/// The string made of the given characters.
pub fn string_of(chars: &[char]) -> (r: String)
    ensures
        r@ == chars@,
{
    let mut out: String = String::new();
    push_chars(&mut out, chars);
    proof {
        assert(out@ =~= chars@);
    }
    out
}

/// Appends characters to a string.
pub fn push_chars(out: &mut String, chars: &[char])
    ensures
        final(out)@ == old(out)@ + chars@,
{
    let mut i: usize = 0;
    while i < chars.len()
        invariant
            i <= chars@.len(),
            out@ == old(out)@ + chars@.take(i as int),
        decreases chars@.len() - i,
    {
        out.push(chars[i]);
        i = i + 1;
        proof {
            assert(chars@.take(i as int) =~= chars@.take(i - 1).push(chars@[i - 1]));
            assert(out@ =~= old(out)@ + chars@.take(i as int));
        }
    }
    proof {
        assert(chars@.take(i as int) =~= chars@);
        assert(out@ =~= old(out)@ + chars@);
    }
}

/// A copy of the characters in `from..to`.
pub fn sub_chars(chars: &[char], from: usize, to: usize) -> (r: Vec<char>)
    requires
        from <= to <= chars@.len(),
    ensures
        r@ == chars@.subrange(from as int, to as int),
{
    let mut out: Vec<char> = Vec::new();
    let mut i: usize = from;
    while i < to
        invariant
            from <= i <= to <= chars@.len(),
            out@ == chars@.subrange(from as int, i as int),
        decreases to - i,
    {
        out.push(chars[i]);
        i = i + 1;
        proof {
            assert(out@ =~= chars@.subrange(from as int, i as int));
        }
    }
    out
}

/// Whether two character sequences are the same.
pub fn chars_eq(a: &[char], b: &[char]) -> (r: bool)
    ensures
        r == (a@ == b@),
{
    if a.len() != b.len() {
        return false;
    }
    let mut i: usize = 0;
    while i < a.len()
        invariant
            i <= a@.len(),
            a@.len() == b@.len(),
            forall|j: int| 0 <= j < i ==> a@[j] == b@[j],
        decreases a@.len() - i,
    {
        if a[i] != b[i] {
            return false;
        }
        i = i + 1;
    }
    proof {
        assert(a@ =~= b@);
    }
    true
}

/// Whether two strings hold the same characters.
pub fn str_eq(a: &str, b: &str) -> (r: bool)
    ensures
        r == (a@ == b@),
{
    let x = chars_of(a);
    let y = chars_of(b);
    chars_eq(&x, &y)
}

// ---------------------------------------------------------------------------
// Numerals
// ---------------------------------------------------------------------------

/// The lowercase digit that stands for `d`, for `d` below sixteen.
pub open spec fn digit_char(d: int) -> char {
    if d < 10 {
        (48 + d) as u8 as char
    } else {
        (87 + d) as u8 as char
    }
}

/// What a digit stands for, in either case, or `None` for any other character.
pub open spec fn digit_value(c: char) -> Option<int> {
    if '0' <= c <= '9' {
        Some(c as int - 48)
    } else if 'a' <= c <= 'f' {
        Some(c as int - 87)
    } else if 'A' <= c <= 'F' {
        Some(c as int - 55)
    } else {
        None
    }
}

/// Whether `c` is a digit of the given base.
pub open spec fn is_digit(c: char, base: int) -> bool {
    digit_value(c) matches Some(d) && d < base
}

/// The shortest numeral of `n`, without leading zeros.
pub open spec fn numeral(n: nat, base: nat) -> Seq<char>
    decreases n via numeral_terminates
{
    if base < 2 || n < base {
        seq![digit_char(n as int)]
    } else {
        numeral(n / base, base).push(digit_char((n % base) as int))
    }
}

#[via_fn]
proof fn numeral_terminates(n: nat, base: nat) {
    if base >= 2 && n >= base {
        assert(n / base < n) by (nonlinear_arith)
            requires
                n >= base,
                base >= 2,
        ;
    }
}

/// The decimal numeral of `n`.
pub open spec fn decimal(n: nat) -> Seq<char> {
    numeral(n, 10)
}

/// The decimal numeral of `n`, with a minus sign where it is negative.
pub open spec fn signed_decimal(n: int) -> Seq<char> {
    if n < 0 {
        seq!['-'] + decimal((-n) as nat)
    } else {
        decimal(n as nat)
    }
}

/// A non-empty run of digits of the given base.
pub open spec fn is_numeral(s: Seq<char>, base: int) -> bool {
    s.len() > 0 && forall|i: int| 0 <= i < s.len() ==> is_digit(#[trigger] s[i], base)
}

/// The number that a run of digits stands for.
pub open spec fn numeral_value(s: Seq<char>, base: int) -> int
    decreases s.len(),
{
    if s.len() == 0 {
        0
    } else {
        numeral_value(s.drop_last(), base) * base + digit_value(s.last())->Some_0
    }
}

pub proof fn lemma_digit(d: int, base: int)
    requires
        0 <= d < base <= 16,
    ensures
        digit_value(digit_char(d)) == Some(d),
        is_digit(digit_char(d), base),
{
}

pub proof fn lemma_numeral_value_nonneg(s: Seq<char>, base: int)
    requires
        base >= 0,
        forall|i: int| 0 <= i < s.len() ==> is_digit(#[trigger] s[i], base),
    ensures
        numeral_value(s, base) >= 0,
    decreases s.len(),
{
    if s.len() > 0 {
        assert forall|i: int| 0 <= i < s.drop_last().len() implies is_digit(
            #[trigger] s.drop_last()[i],
            base,
        ) by {
            assert(s.drop_last()[i] == s[i]);
        }
        lemma_numeral_value_nonneg(s.drop_last(), base);
        assert(is_digit(s[s.len() - 1], base));
        assert(numeral_value(s.drop_last(), base) * base >= 0) by (nonlinear_arith)
            requires
                numeral_value(s.drop_last(), base) >= 0,
                base >= 0,
        ;
    }
}

/// Reading a numeral back gives the number that it was written for.
pub proof fn lemma_numeral_reads_back(n: nat, base: nat)
    requires
        2 <= base <= 16,
    ensures
        is_numeral(numeral(n, base), base as int),
        numeral_value(numeral(n, base), base as int) == n,
    decreases n,
{
    let s = numeral(n, base);
    if n < base {
        lemma_digit(n as int, base as int);
        assert(s.drop_last() =~= Seq::<char>::empty());
        assert(numeral_value(s.drop_last(), base as int) == 0);
    } else {
        let m = n / base;
        assert(m < n && n == m * base + n % base && n % base < base) by (nonlinear_arith)
            requires
                m == n / base,
                n >= base,
                base >= 2,
        ;
        lemma_numeral_reads_back(m, base);
        lemma_digit((n % base) as int, base as int);
        assert(s.drop_last() =~= numeral(m, base));
        assert forall|i: int| 0 <= i < s.len() implies is_digit(#[trigger] s[i], base as int) by {
            if i < s.len() - 1 {
                assert(s[i] == numeral(m, base)[i]);
            }
        }
    }
}

/// A number below `base` to the power `k` has at most `k` digits.
pub proof fn lemma_numeral_len(n: nat, base: nat, bound: nat, k: nat)
    requires
        2 <= base <= 16,
        n < bound,
        bound == power(base, k),
        k > 0,
    ensures
        1 <= numeral(n, base).len() <= k,
    decreases k,
{
    if n >= base {
        if k == 1 {
            assert(power(base, 1) == base * power(base, 0));
            assert(power(base, 0) == 1);
            assert(base * 1 == base) by (nonlinear_arith);
            assert(false);
        }
        let b1 = power(base, (k - 1) as nat);
        assert(bound == base * b1);
        assert(n / base < b1) by (nonlinear_arith)
            requires
                n < base * b1,
                base >= 2,
        ;
        lemma_numeral_len(n / base, base, b1, (k - 1) as nat);
    }
}

/// `base` to the power `k`.
pub open spec fn power(base: nat, k: nat) -> nat
    decreases k,
{
    if k == 0 {
        1
    } else {
        base * power(base, (k - 1) as nat)
    }
}

/// The digit that stands for `d`.
fn digit(d: u64) -> (c: char)
    requires
        d < 16,
    ensures
        c == digit_char(d as int),
{
    if d < 10 {
        (48 + d as u8) as char
    } else {
        (87 + d as u8) as char
    }
}

/// Appends the numeral of `n` in the given base.
pub fn push_numeral(out: &mut String, n: u64, base: u64)
    requires
        2 <= base <= 16,
    ensures
        final(out)@ == old(out)@ + numeral(n as nat, base as nat),
    decreases n,
{
    if n >= base {
        assert(n / base < n) by (nonlinear_arith)
            requires
                n >= base,
                base >= 2,
        ;
        push_numeral(out, n / base, base);
    }
    out.push(digit(n % base));
    proof {
        if n < base {
            assert(n % base == n) by (nonlinear_arith)
                requires
                    n < base,
            ;
        }
        assert(out@ =~= old(out)@ + numeral(n as nat, base as nat));
    }
}

/// Appends the decimal numeral of `n`.
pub fn push_decimal(out: &mut String, n: u64)
    ensures
        final(out)@ == old(out)@ + decimal(n as nat),
{
    push_numeral(out, n, 10);
}

/// The decimal numeral of `n`.
pub fn decimal_string(n: u64) -> (r: String)
    ensures
        r@ == decimal(n as nat),
{
    let mut out: String = String::new();
    push_decimal(&mut out, n);
    proof {
        assert(out@ =~= decimal(n as nat));
    }
    out
}

/// Appends the decimal numeral of a signed number.
pub fn push_signed(out: &mut String, n: i64)
    ensures
        final(out)@ == old(out)@ + signed_decimal(n as int),
{
    if n < 0 {
        out.push('-');
        let magnitude: u64 = ((-(n + 1)) as u64) + 1;
        push_decimal(out, magnitude);
    } else {
        push_decimal(out, n as u64);
    }
    proof {
        assert(out@ =~= old(out)@ + signed_decimal(n as int));
    }
}

/// The decimal numeral of a signed number.
pub fn signed_string(n: i64) -> (r: String)
    ensures
        r@ == signed_decimal(n as int),
{
    let mut out: String = String::new();
    push_signed(&mut out, n);
    proof {
        assert(out@ =~= signed_decimal(n as int));
    }
    out
}

/// The value of one digit of the given base.
pub fn read_digit(c: char, base: u64) -> (r: Option<u64>)
    requires
        base <= 16,
    ensures
        r is Some <==> is_digit(c, base as int),
        r matches Some(d) ==> digit_value(c) == Some(d as int) && d < base,
{
    let v: u64 = if '0' <= c && c <= '9' {
        (c as u64) - 48
    } else if 'a' <= c && c <= 'f' {
        (c as u64) - 87
    } else if 'A' <= c && c <= 'F' {
        (c as u64) - 55
    } else {
        return None;
    };
    if v < base {
        Some(v)
    } else {
        None
    }
}

/// Reads a run of digits as a number of at most `max`.
pub fn read_numeral(s: &[char], base: u64, max: u64) -> (r: Option<u64>)
    requires
        2 <= base <= 16,
    ensures
        r is Some <==> is_numeral(s@, base as int) && numeral_value(s@, base as int) <= max,
        r matches Some(v) ==> v == numeral_value(s@, base as int),
{
    if s.len() == 0 {
        return None;
    }
    let mut value: u64 = 0;
    let mut over: bool = false;
    let mut i: usize = 0;
    while i < s.len()
        invariant
            2 <= base <= 16,
            i <= s@.len(),
            forall|j: int| 0 <= j < i ==> is_digit(#[trigger] s@[j], base as int),
            over <==> numeral_value(s@.take(i as int), base as int) > max,
            !over ==> value == numeral_value(s@.take(i as int), base as int),
        decreases s@.len() - i,
    {
        let d: u64 = match read_digit(s[i], base) {
            Some(d) => d,
            None => {
                assert(!is_digit(s@[i as int], base as int));
                return None;
            },
        };
        proof {
            let p = s@.take(i as int);
            let q = s@.take(i + 1);
            assert(q.drop_last() =~= p);
            assert(q.last() == s@[i as int]);
            lemma_numeral_value_nonneg(p, base as int);
            let v = numeral_value(p, base as int);
            assert(numeral_value(q, base as int) == v * base + d);
            assert(v > max ==> v * base + d > max) by (nonlinear_arith)
                requires
                    base >= 2,
                    v >= 0,
                    d >= 0,
            ;
            assert(d <= max ==> ((v <= (max - d) / base as int) <==> v * base + d <= max))
                by (nonlinear_arith)
                requires
                    base >= 2,
                    v >= 0,
                    d >= 0,
            ;
            assert(d > max ==> v * base + d > max) by (nonlinear_arith)
                requires
                    base >= 2,
                    v >= 0,
                    d >= 0,
            ;
        }
        if over || d > max || value > (max - d) / base {
            over = true;
        } else {
            assert(value * base + d <= max);
            value = value * base + d;
        }
        i = i + 1;
    }
    proof {
        assert(s@.take(i as int) =~= s@);
    }
    if over {
        None
    } else {
        Some(value)
    }
}

// ---------------------------------------------------------------------------
// Searching, splitting, joining
// ---------------------------------------------------------------------------

/// Whether `pat` stands in `s` at position `at`.
pub open spec fn matches_at(s: Seq<char>, pat: Seq<char>, at: int) -> bool {
    0 <= at && at + pat.len() <= s.len() && s.subrange(at, at + pat.len()) == pat
}

/// Whether `pat` occurs anywhere in `s`.
pub open spec fn occurs(s: Seq<char>, pat: Seq<char>) -> bool {
    exists|at: int| matches_at(s, pat, at)
}

/// Whether `s` ends with `pat`.
pub open spec fn ends_with(s: Seq<char>, pat: Seq<char>) -> bool {
    matches_at(s, pat, s.len() - pat.len())
}

/// Whether `pat` stands in `s` at position `at`.
pub fn is_at(s: &[char], pat: &[char], at: usize) -> (r: bool)
    ensures
        r == matches_at(s@, pat@, at as int),
{
    if at > s.len() || pat.len() > s.len() - at {
        return false;
    }
    let mut i: usize = 0;
    while i < pat.len()
        invariant
            i <= pat@.len(),
            at + pat@.len() <= s@.len(),
            s@.len() <= usize::MAX,
            forall|j: int| 0 <= j < i ==> s@[at + j] == pat@[j],
        decreases pat@.len() - i,
    {
        if s[at + i] != pat[i] {
            assert(s@.subrange(at as int, at + pat@.len())[i as int] == s@[at + i]);
            return false;
        }
        i = i + 1;
    }
    proof {
        assert(s@.subrange(at as int, at + pat@.len()) =~= pat@);
    }
    true
}

/// The first position at which `pat` occurs in `s`.
pub fn find(s: &[char], pat: &[char]) -> (r: Option<usize>)
    ensures
        r is Some <==> occurs(s@, pat@),
        r matches Some(at) ==> matches_at(s@, pat@, at as int) && forall|j: int|
            0 <= j < at ==> !matches_at(s@, pat@, j),
{
    let mut at: usize = 0;
    while at < s.len()
        invariant
            at <= s@.len(),
            forall|j: int| 0 <= j < at ==> !matches_at(s@, pat@, j),
        decreases s@.len() - at,
    {
        if is_at(s, pat, at) {
            return Some(at);
        }
        at = at + 1;
    }
    if is_at(s, pat, at) {
        return Some(at);
    }
    None
}

/// Whether `pat` occurs in `s`.
pub fn contains(s: &str, pat: &str) -> (r: bool)
    ensures
        r == occurs(s@, pat@),
{
    let x = chars_of(s);
    let y = chars_of(pat);
    find(&x, &y).is_some()
}

/// Whether `c` occurs in `s`.
pub fn contains_char(s: &[char], c: char) -> (r: bool)
    ensures
        r == s@.contains(c),
{
    let mut i: usize = 0;
    while i < s.len()
        invariant
            i <= s@.len(),
            forall|j: int| 0 <= j < i ==> s@[j] != c,
        decreases s@.len() - i,
    {
        if s[i] == c {
            assert(s@[i as int] == c);
            return true;
        }
        i = i + 1;
    }
    false
}

/// The pieces of `s` between occurrences of `sep`.
pub open spec fn split(s: Seq<char>, sep: char) -> Seq<Seq<char>>
    decreases s.len(),
{
    if s.len() == 0 {
        seq![Seq::<char>::empty()]
    } else {
        let rest = split(s.drop_last(), sep);
        if s.last() == sep {
            rest.push(Seq::<char>::empty())
        } else {
            rest.drop_last().push(rest.last().push(s.last()))
        }
    }
}

/// The pieces with `sep` between each two of them.
pub open spec fn join(parts: Seq<Seq<char>>, sep: char) -> Seq<char>
    decreases parts.len(),
{
    if parts.len() == 0 {
        Seq::<char>::empty()
    } else if parts.len() == 1 {
        parts[0]
    } else {
        join(parts.drop_last(), sep).push(sep) + parts.last()
    }
}

/// Splitting always gives at least one piece, and no piece holds the separator.
pub proof fn lemma_split_pieces(s: Seq<char>, sep: char)
    ensures
        split(s, sep).len() >= 1,
        forall|i: int| 0 <= i < split(s, sep).len() ==> !(#[trigger] split(s, sep)[i]).contains(sep),
    decreases s.len(),
{
    if s.len() > 0 {
        lemma_split_pieces(s.drop_last(), sep);
        let rest = split(s.drop_last(), sep);
        let whole = split(s, sep);
        assert forall|i: int| 0 <= i < whole.len() implies !(#[trigger] whole[i]).contains(sep) by {
            if s.last() != sep && i == whole.len() - 1 {
                let piece = rest.last().push(s.last());
                assert(!rest[rest.len() - 1].contains(sep));
                if piece.contains(sep) {
                    let k = choose|k: int| 0 <= k < piece.len() && piece[k] == sep;
                    assert(rest.last()[k] == sep);
                    assert(false);
                }
            } else if i < whole.len() - 1 {
                assert(whole[i] == rest[i]);
            }
        }
    }
}

/// Text after a separator is a piece of its own.
pub proof fn lemma_split_append(a: Seq<char>, b: Seq<char>, sep: char)
    requires
        !b.contains(sep),
    ensures
        split(a.push(sep) + b, sep) == split(a, sep).push(b),
    decreases b.len(),
{
    let s = a.push(sep) + b;
    if b.len() == 0 {
        assert(s =~= a.push(sep));
        assert(s.drop_last() =~= a);
        assert(b =~= Seq::<char>::empty());
    } else {
        assert forall|k: int| 0 <= k < b.drop_last().len() implies b.drop_last()[k] != sep by {
            assert(b[k] == b.drop_last()[k]);
            assert(b.contains(b[k]));
        }
        assert(b.contains(b[b.len() - 1]));
        lemma_split_append(a, b.drop_last(), sep);
        assert(s.drop_last() =~= a.push(sep) + b.drop_last());
        assert(s.last() == b.last());
        let rest = split(a, sep).push(b.drop_last());
        assert(rest.drop_last() =~= split(a, sep));
        assert(b.drop_last().push(b.last()) =~= b);
    }
}

/// Text without a separator is one piece.
pub proof fn lemma_split_single(b: Seq<char>, sep: char)
    requires
        !b.contains(sep),
    ensures
        split(b, sep) == seq![b],
    decreases b.len(),
{
    if b.len() == 0 {
        assert(b =~= Seq::<char>::empty());
    } else {
        assert forall|k: int| 0 <= k < b.drop_last().len() implies b.drop_last()[k] != sep by {
            assert(b[k] == b.drop_last()[k]);
            assert(b.contains(b[k]));
        }
        assert(b.contains(b[b.len() - 1]));
        lemma_split_single(b.drop_last(), sep);
        assert(b.drop_last().push(b.last()) =~= b);
        assert(split(b, sep) =~= seq![b]);
    }
}

/// Splitting undoes joining where no piece holds the separator.
pub proof fn lemma_split_join(parts: Seq<Seq<char>>, sep: char)
    requires
        parts.len() > 0,
        forall|i: int| 0 <= i < parts.len() ==> !(#[trigger] parts[i]).contains(sep),
    ensures
        split(join(parts, sep), sep) == parts,
    decreases parts.len(),
{
    if parts.len() == 1 {
        lemma_split_single(parts[0], sep);
        assert(parts =~= seq![parts[0]]);
    } else {
        assert forall|i: int| 0 <= i < parts.drop_last().len() implies !(
        #[trigger] parts.drop_last()[i]).contains(sep) by {
            assert(parts.drop_last()[i] == parts[i]);
        }
        lemma_split_join(parts.drop_last(), sep);
        assert(!parts[parts.len() - 1].contains(sep));
        lemma_split_append(join(parts.drop_last(), sep), parts.last(), sep);
        assert(parts.drop_last().push(parts.last()) =~= parts);
    }
}

/// The views of a vector of character vectors.
pub open spec fn views(parts: Seq<Vec<char>>) -> Seq<Seq<char>> {
    Seq::new(parts.len(), |i: int| parts[i]@)
}

/// The pieces of `s` between occurrences of `sep`.
pub fn split_chars(s: &[char], sep: char) -> (r: Vec<Vec<char>>)
    ensures
        views(r@) == split(s@, sep),
        r@.len() >= 1,
{
    let mut done: Vec<Vec<char>> = Vec::new();
    let mut piece: Vec<char> = Vec::new();
    let mut i: usize = 0;
    proof {
        assert(s@.take(0) =~= Seq::<char>::empty());
        assert(views(done@).push(piece@) =~= split(s@.take(0), sep));
    }
    while i < s.len()
        invariant
            i <= s@.len(),
            views(done@).push(piece@) == split(s@.take(i as int), sep),
        decreases s@.len() - i,
    {
        let ghost before = s@.take(i as int);
        let ghost after = s@.take(i + 1);
        let ghost pieces = views(done@);
        proof {
            assert(after.drop_last() =~= before);
            assert(after.last() == s@[i as int]);
            assert(pieces.push(piece@).drop_last() =~= pieces);
        }
        if s[i] == sep {
            done.push(piece);
            piece = Vec::new();
            proof {
                assert(views(done@) =~= split(before, sep));
                assert(piece@ =~= Seq::<char>::empty());
            }
        } else {
            piece.push(s[i]);
            proof {
                assert(views(done@) =~= pieces);
            }
        }
        i = i + 1;
    }
    let ghost pieces = views(done@);
    let ghost last = piece@;
    done.push(piece);
    proof {
        assert(s@.take(i as int) =~= s@);
        assert(views(done@) =~= pieces.push(last));
    }
    done
}

// ---------------------------------------------------------------------------
// Blank space
// ---------------------------------------------------------------------------

/// The Unicode `White_Space` property.
pub open spec fn is_space(c: char) -> bool {
    let n = c as int;
    9 <= n <= 13 || n == 0x20 || n == 0x85 || n == 0xA0 || n == 0x1680 || 0x2000 <= n <= 0x200A
        || n == 0x2028 || n == 0x2029 || n == 0x202F || n == 0x205F || n == 0x3000
}

/// `s` without white space at its end.
pub open spec fn trim_end(s: Seq<char>) -> Seq<char>
    decreases s.len(),
{
    if s.len() > 0 && is_space(s.last()) {
        trim_end(s.drop_last())
    } else {
        s
    }
}

/// `s` without white space at its start.
pub open spec fn trim_start(s: Seq<char>) -> Seq<char>
    decreases s.len(),
{
    if s.len() > 0 && is_space(s[0]) {
        trim_start(s.skip(1))
    } else {
        s
    }
}

/// `s` without white space at either end.
pub open spec fn trim(s: Seq<char>) -> Seq<char> {
    trim_end(trim_start(s))
}

pub fn is_blank(c: char) -> (r: bool)
    ensures
        r == is_space(c),
{
    let n: u32 = c as u32;
    (9 <= n && n <= 13) || n == 0x20 || n == 0x85 || n == 0xA0 || n == 0x1680 || (0x2000 <= n && n
        <= 0x200A) || n == 0x2028 || n == 0x2029 || n == 0x202F || n == 0x205F || n == 0x3000
}

/// A copy of `s` without white space at either end.
pub fn trim_chars(s: &[char]) -> (r: Vec<char>)
    ensures
        r@ == trim(s@),
{
    let n = s.len();
    let mut from: usize = 0;
    proof {
        assert(s@.skip(0) =~= s@);
    }
    while from < n && is_blank(s[from])
        invariant
            from <= n == s@.len(),
            trim_start(s@.skip(from as int)) == trim_start(s@),
        decreases n - from,
    {
        proof {
            assert(s@.skip(from as int).skip(1) =~= s@.skip(from + 1));
        }
        from = from + 1;
    }
    let mut to: usize = n;
    proof {
        assert(trim_start(s@) == s@.skip(from as int));
        assert(s@.subrange(from as int, to as int) =~= s@.skip(from as int));
    }
    while to > from && is_blank(s[to - 1])
        invariant
            from <= to <= n == s@.len(),
            trim_end(s@.subrange(from as int, to as int)) == trim(s@),
        decreases to,
    {
        proof {
            assert(s@.subrange(from as int, to as int).drop_last() =~= s@.subrange(
                from as int,
                to - 1,
            ));
        }
        to = to - 1;
    }
    sub_chars(s, from, to)
}

} // verus!
