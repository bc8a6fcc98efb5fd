//! Digests and the unpadded base32 alphabet used by onion and I2P host names.
use vstd::prelude::*;
use data_encoding::BASE32_NOPAD;
use sha2::{Digest, Sha256};
use sha3::Sha3_256;

verus! {

/// The SHA-256 digest of a message.
pub uninterp spec fn sha256_digest(data: Seq<u8>) -> Seq<u8>;

/// The SHA3-256 digest of a message.
pub uninterp spec fn sha3_256_digest(data: Seq<u8>) -> Seq<u8>;

/// `sha2::Sha256::digest`: a digest that depends on the message alone.
#[verifier::external_body]
pub(crate) fn sha256(data: &[u8]) -> (r: [u8; 32])
    ensures
        r@ == sha256_digest(data@),
{
    Sha256::digest(data).into()
}

/// `sha3::Sha3_256::digest`: a digest that depends on the message alone.
#[verifier::external_body]
pub(crate) fn sha3_256(data: &[u8]) -> (r: [u8; 32])
    ensures
        r@ == sha3_256_digest(data@),
{
    Sha3_256::digest(data).into()
}

/// The weight of the `m`-th bit of an octet, counted from the most significant.
pub open spec fn bit_weight(m: int) -> int {
    if m == 0 {
        128
    } else if m == 1 {
        64
    } else if m == 2 {
        32
    } else if m == 3 {
        16
    } else if m == 4 {
        8
    } else if m == 5 {
        4
    } else if m == 6 {
        2
    } else {
        1
    }
}

/// The `k`-th bit of a byte string, most significant bit first; zero past the end.
pub open spec fn bit_at(b: Seq<u8>, k: int) -> int {
    if k / 8 < b.len() {
        (b[k / 8] as int / bit_weight(k % 8)) % 2
    } else {
        0
    }
}

/// The `i`-th group of five bits.
#[verifier::opaque]
pub open spec fn quintet(b: Seq<u8>, i: int) -> int {
    16 * bit_at(b, 5 * i) + 8 * bit_at(b, 5 * i + 1) + 4 * bit_at(b, 5 * i + 2) + 2 * bit_at(
        b,
        5 * i + 3,
    ) + bit_at(b, 5 * i + 4)
}

/// The base32 symbol of a five-bit value: `A` to `Z`, then `2` to `7`.
pub open spec fn base32_symbol(v: int) -> char {
    if v < 26 {
        (65 + v) as u8 as char
    } else {
        (24 + v) as u8 as char
    }
}

/// Unpadded base32: one symbol for each five bits, the last filled up with zero bits.
pub open spec fn base32_text(b: Seq<u8>) -> Seq<char> {
    Seq::new(((8 * b.len() + 4) / 5) as nat, |i: int| base32_symbol(quintet(b, i)))
}

/// `data_encoding::BASE32_NOPAD.encode`: the canonical base32 text of the bytes. The
/// outside function panics above `usize::MAX / 512` bytes.
#[verifier::external_body]
pub(crate) fn base32_encode(data: &[u8]) -> (r: String)
    requires
        data@.len() <= usize::MAX / 512,
    ensures
        r@ == base32_text(data@),
{
    BASE32_NOPAD.encode(data)
}

/// `data_encoding::BASE32_NOPAD.decode`: the bytes whose canonical base32 text is given, or
/// `None` where there are none (a wrong length, a foreign symbol, or non-zero trailing
/// bits). The outside function panics above `usize::MAX / 8` input bytes, and a character
/// takes at most four.
#[verifier::external_body]
pub(crate) fn base32_decode(text: &str) -> (r: Option<Vec<u8>>)
    requires
        text@.len() <= usize::MAX / 32,
    ensures
        r matches Some(b) ==> base32_text(b@) == text@,
        r is None ==> forall|b: Seq<u8>| base32_text(b) != text@,
{
    BASE32_NOPAD.decode(text.as_bytes()).ok()
}

proof fn lemma_bit_range(b: Seq<u8>, k: int)
    ensures
        0 <= bit_at(b, k) <= 1,
{
}

proof fn lemma_quintet_range(b: Seq<u8>, i: int)
    ensures
        0 <= quintet(b, i) < 32,
{
    reveal(quintet);
    lemma_bit_range(b, 5 * i);
    lemma_bit_range(b, 5 * i + 1);
    lemma_bit_range(b, 5 * i + 2);
    lemma_bit_range(b, 5 * i + 3);
    lemma_bit_range(b, 5 * i + 4);
}

proof fn lemma_octet_bits(x: u8)
    ensures
        x == 128 * ((x as int / 128) % 2) + 64 * ((x as int / 64) % 2) + 32 * ((x as int / 32) % 2)
            + 16 * ((x as int / 16) % 2) + 8 * ((x as int / 8) % 2) + 4 * ((x as int / 4) % 2) + 2
            * ((x as int / 2) % 2) + (x as int % 2),
{
    assert(x == 128 * ((x / 128) % 2) + 64 * ((x / 64) % 2) + 32 * ((x / 32) % 2) + 16 * ((x / 16)
        % 2) + 8 * ((x / 8) % 2) + 4 * ((x / 4) % 2) + 2 * ((x / 2) % 2) + (x % 2))
        by (bit_vector);
}

proof fn lemma_symbol_injective(u: int, v: int)
    requires
        0 <= u < 32,
        0 <= v < 32,
        base32_symbol(u) == base32_symbol(v),
    ensures
        u == v,
{
}

proof fn lemma_text_len_injective(m: int, n: int)
    requires
        (8 * m + 4) / 5 == (8 * n + 4) / 5,
    ensures
        m == n,
{
}

proof fn lemma_same_quintet(a: Seq<u8>, b: Seq<u8>, i: int)
    requires
        base32_text(a) == base32_text(b),
        0 <= i < base32_text(a).len(),
    ensures
        quintet(a, i) == quintet(b, i),
{
    lemma_quintet_range(a, i);
    lemma_quintet_range(b, i);
    assert(base32_text(a)[i] == base32_symbol(quintet(a, i)));
    assert(base32_text(b)[i] == base32_symbol(quintet(b, i)));
    lemma_symbol_injective(quintet(a, i), quintet(b, i));
}

#[verifier::rlimit(40)]
proof fn lemma_same_bit(a: Seq<u8>, b: Seq<u8>, k: int)
    requires
        a.len() == b.len(),
        base32_text(a) == base32_text(b),
        0 <= k < 8 * a.len(),
    ensures
        bit_at(a, k) == bit_at(b, k),
{
    let i = k / 5;
    let r = k % 5;
    lemma_same_quintet(a, b, i);
    reveal(quintet);
    assert(k == 5 * i + r);
    lemma_bit_range(a, 5 * i);
    lemma_bit_range(a, 5 * i + 1);
    lemma_bit_range(a, 5 * i + 2);
    lemma_bit_range(a, 5 * i + 3);
    lemma_bit_range(a, 5 * i + 4);
    lemma_bit_range(b, 5 * i);
    lemma_bit_range(b, 5 * i + 1);
    lemma_bit_range(b, 5 * i + 2);
    lemma_bit_range(b, 5 * i + 3);
    lemma_bit_range(b, 5 * i + 4);
}

proof fn lemma_octet_from_bits(a: Seq<u8>, j: int)
    requires
        0 <= j < a.len(),
    ensures
        a[j] == 128 * bit_at(a, 8 * j) + 64 * bit_at(a, 8 * j + 1) + 32 * bit_at(a, 8 * j + 2) + 16
            * bit_at(a, 8 * j + 3) + 8 * bit_at(a, 8 * j + 4) + 4 * bit_at(a, 8 * j + 5) + 2
            * bit_at(a, 8 * j + 6) + bit_at(a, 8 * j + 7),
{
    lemma_octet_bits(a[j]);
    assert((8 * j) / 8 == j && (8 * j) % 8 == 0);
    assert((8 * j + 1) / 8 == j && (8 * j + 1) % 8 == 1);
    assert((8 * j + 2) / 8 == j && (8 * j + 2) % 8 == 2);
    assert((8 * j + 3) / 8 == j && (8 * j + 3) % 8 == 3);
    assert((8 * j + 4) / 8 == j && (8 * j + 4) % 8 == 4);
    assert((8 * j + 5) / 8 == j && (8 * j + 5) % 8 == 5);
    assert((8 * j + 6) / 8 == j && (8 * j + 6) % 8 == 6);
    assert((8 * j + 7) / 8 == j && (8 * j + 7) % 8 == 7);
}

/// Two byte strings with the same base32 text are the same.
pub proof fn lemma_base32_injective(a: Seq<u8>, b: Seq<u8>)
    requires
        base32_text(a) == base32_text(b),
    ensures
        a == b,
{
    assert(base32_text(a).len() == (8 * a.len() + 4) / 5);
    assert(base32_text(b).len() == (8 * b.len() + 4) / 5);
    lemma_text_len_injective(a.len() as int, b.len() as int);
    assert forall|j: int| 0 <= j < a.len() implies a[j] == b[j] by {
        lemma_octet_from_bits(a, j);
        lemma_octet_from_bits(b, j);
        lemma_same_bit(a, b, 8 * j);
        lemma_same_bit(a, b, 8 * j + 1);
        lemma_same_bit(a, b, 8 * j + 2);
        lemma_same_bit(a, b, 8 * j + 3);
        lemma_same_bit(a, b, 8 * j + 4);
        lemma_same_bit(a, b, 8 * j + 5);
        lemma_same_bit(a, b, 8 * j + 6);
        lemma_same_bit(a, b, 8 * j + 7);
    }
    assert(a =~= b);
}

/// Lowercase form of an uppercase ASCII letter; anything else is kept.
pub open spec fn lower_char(c: char) -> char {
    if 'A' <= c <= 'Z' {
        (c as int + 32) as u8 as char
    } else {
        c
    }
}

/// Uppercase form of a lowercase ASCII letter; anything else is kept.
pub open spec fn upper_char(c: char) -> char {
    if 'a' <= c <= 'z' {
        (c as int - 32) as u8 as char
    } else {
        c
    }
}

pub open spec fn lower(s: Seq<char>) -> Seq<char> {
    Seq::new(s.len(), |i: int| lower_char(s[i]))
}

pub open spec fn upper(s: Seq<char>) -> Seq<char> {
    Seq::new(s.len(), |i: int| upper_char(s[i]))
}

/// Base32 text in the lowercase spelling of host names.
pub open spec fn base32_lower(b: Seq<u8>) -> Seq<char> {
    lower(base32_text(b))
}

/// A symbol of the lowercase base32 alphabet.
pub open spec fn is_base32_lower_char(c: char) -> bool {
    'a' <= c <= 'z' || '2' <= c <= '7'
}

/// Lowercase base32 text holds only symbols of that alphabet, and its uppercase form is
/// the canonical text.
pub proof fn lemma_base32_lower(b: Seq<u8>)
    ensures
        base32_lower(b).len() == (8 * b.len() + 4) / 5,
        forall|i: int|
            0 <= i < base32_lower(b).len() ==> is_base32_lower_char(#[trigger] base32_lower(b)[i]),
        upper(base32_lower(b)) == base32_text(b),
{
    assert forall|i: int| 0 <= i < base32_lower(b).len() implies is_base32_lower_char(
        #[trigger] base32_lower(b)[i],
    ) && upper_char(base32_lower(b)[i]) == base32_text(b)[i] by {
        lemma_quintet_range(b, i);
    }
    assert(upper(base32_lower(b)) =~= base32_text(b));
}

/// Two byte strings with the same lowercase base32 text are the same.
pub proof fn lemma_base32_lower_injective(a: Seq<u8>, b: Seq<u8>)
    requires
        base32_lower(a) == base32_lower(b),
    ensures
        a == b,
{
    lemma_base32_lower(a);
    lemma_base32_lower(b);
    lemma_base32_injective(a, b);
}

/// Writes bytes in lowercase base32.
pub fn encode_base32_lower(data: &[u8]) -> (r: String)
    requires
        data@.len() <= usize::MAX / 512,
    ensures
        r@ == base32_lower(data@),
{
    let text = base32_encode(data);
    let chars = crate::text::chars_of(&text);
    let mut out: String = String::new();
    let mut i: usize = 0;
    while i < chars.len()
        invariant
            i <= chars@.len(),
            chars@ == base32_text(data@),
            out@ == base32_lower(data@).take(i as int),
        decreases chars@.len() - i,
    {
        let c = chars[i];
        let l: char = if 'A' <= c && c <= 'Z' {
            ((c as u8) + 32) as char
        } else {
            c
        };
        out.push(l);
        i = i + 1;
        proof {
            assert(out@ =~= base32_lower(data@).take(i as int));
        }
    }
    proof {
        assert(base32_lower(data@).take(i as int) =~= base32_lower(data@));
    }
    out
}

} // verus!
