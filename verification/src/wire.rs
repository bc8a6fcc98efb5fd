//! Little-endian integers, CompactSize values and a cursor over received bytes.
use vstd::prelude::*;
use crate::text::power;

verus! {

// ---------------------------------------------------------------------------
// Fixed-width integers
// ---------------------------------------------------------------------------

/// The number that bytes stand for, least significant byte first.
pub open spec fn le_value(b: Seq<u8>) -> nat
    decreases b.len(),
{
    if b.len() == 0 {
        0
    } else {
        b[0] as nat + 256 * le_value(b.skip(1))
    }
}

/// The `n` low bytes of `v`, least significant byte first.
pub open spec fn le_bytes(v: nat, n: nat) -> Seq<u8>
    decreases n,
{
    if n == 0 {
        Seq::empty()
    } else {
        seq![(v % 256) as u8] + le_bytes(v / 256, (n - 1) as nat)
    }
}

/// The number at `at..at + n` of `b`, least significant byte first.
pub open spec fn le_at(b: Seq<u8>, at: int, n: int) -> nat {
    le_value(b.subrange(at, at + n))
}

/// The two-byte number at `at`, most significant byte first.
pub open spec fn be16_at(b: Seq<u8>, at: int) -> u16 {
    (b[at] * 256 + b[at + 1]) as u16
}

/// The two bytes of `v`, most significant byte first.
pub open spec fn be16_bytes(v: u16) -> Seq<u8> {
    seq![(v / 256) as u8, (v % 256) as u8]
}

/// A 32-bit pattern read as two's complement.
pub open spec fn signed32(v: nat) -> i32 {
    if v < 0x8000_0000 {
        v as i32
    } else {
        (v - 0x1_0000_0000) as i32
    }
}

/// A 64-bit pattern read as two's complement.
pub open spec fn signed64(v: nat) -> i64 {
    if v < 0x8000_0000_0000_0000 {
        v as i64
    } else {
        (v - 0x1_0000_0000_0000_0000) as i64
    }
}

/// The two's complement pattern of a 64-bit number.
pub open spec fn pattern64(v: i64) -> nat {
    if v < 0 {
        (v + 0x1_0000_0000_0000_0000) as nat
    } else {
        v as nat
    }
}

pub proof fn lemma_powers_of_256()
    ensures
        power(256, 1) == 0x100,
        power(256, 2) == 0x1_0000,
        power(256, 4) == 0x1_0000_0000,
        power(256, 8) == 0x1_0000_0000_0000_0000,
{
    assert(power(256, 0) == 1);
    assert(power(256, 1) == 0x100);
    assert(power(256, 2) == 0x1_0000);
    assert(power(256, 3) == 0x100_0000);
    assert(power(256, 4) == 0x1_0000_0000);
    assert(power(256, 5) == 0x100_0000_0000);
    assert(power(256, 6) == 0x1_0000_0000_0000);
    assert(power(256, 7) == 0x100_0000_0000_0000);
}

pub proof fn lemma_le_bytes_len(v: nat, n: nat)
    ensures
        le_bytes(v, n).len() == n,
    decreases n,
{
    if n > 0 {
        lemma_le_bytes_len(v / 256, (n - 1) as nat);
    }
}

/// Reading little-endian bytes gives back the number they were written for.
pub proof fn law_le_round_trip(v: nat, n: nat)
    requires
        v < power(256, n),
    ensures
        le_bytes(v, n).len() == n,
        le_value(le_bytes(v, n)) == v,
    decreases n,
{
    if n > 0 {
        let rest = le_bytes(v / 256, (n - 1) as nat);
        assert(power(256, n) == 256 * power(256, (n - 1) as nat));
        law_le_round_trip(v / 256, (n - 1) as nat);
        assert(le_bytes(v, n).skip(1) =~= rest);
    } else {
        assert(power(256, 0) == 1);
    }
}

/// Writing the number that bytes stand for gives back the bytes.
pub proof fn law_le_bytes_of_value(b: Seq<u8>)
    ensures
        le_bytes(le_value(b), b.len()) == b,
        le_value(b) < power(256, b.len()),
    decreases b.len(),
{
    if b.len() > 0 {
        law_le_bytes_of_value(b.skip(1));
        assert(power(256, b.len()) == 256 * power(256, (b.len() - 1) as nat));
        assert(le_value(b) / 256 == le_value(b.skip(1)));
        assert(le_value(b) % 256 == b[0] as nat);
        assert(le_bytes(le_value(b), b.len()) =~= b);
    } else {
        assert(power(256, 0) == 1);
        assert(b =~= Seq::<u8>::empty());
    }
}

proof fn lemma_le_value_2(b: Seq<u8>)
    requires
        b.len() == 2,
    ensures
        le_value(b) == b[0] + 0x100 * b[1],
{
    reveal_with_fuel(le_value, 3);
}

proof fn lemma_le_value_4(b: Seq<u8>)
    requires
        b.len() == 4,
    ensures
        le_value(b) == b[0] + 0x100 * b[1] + 0x1_0000 * b[2] + 0x100_0000 * b[3],
{
    let t = b.skip(2);
    lemma_le_value_2(t);
    assert(b.skip(1).skip(1) =~= t);
    assert(le_value(b.skip(1)) == b[1] + 256 * le_value(t));
}

proof fn lemma_le_value_8(b: Seq<u8>)
    requires
        b.len() == 8,
    ensures
        le_value(b) == b[0] + 0x100 * b[1] + 0x1_0000 * b[2] + 0x100_0000 * b[3] + 0x1_0000_0000
            * b[4] + 0x100_0000_0000 * b[5] + 0x1_0000_0000_0000 * b[6] + 0x100_0000_0000_0000
            * b[7],
{
    let t = b.skip(4);
    lemma_le_value_4(t);
    assert(b.skip(1).skip(1) =~= b.skip(2));
    assert(b.skip(2).skip(1) =~= b.skip(3));
    assert(b.skip(3).skip(1) =~= t);
    assert(le_value(b.skip(3)) == b[3] + 256 * le_value(t));
    assert(le_value(b.skip(2)) == b[2] + 256 * le_value(b.skip(3)));
    assert(le_value(b.skip(1)) == b[1] + 256 * le_value(b.skip(2)));
}

/// Appends the `n` low bytes of `v`, least significant byte first.
pub fn push_le(out: &mut Vec<u8>, v: u64, n: usize)
    ensures
        final(out)@ == old(out)@ + le_bytes(v as nat, n as nat),
{
    let mut rest: u64 = v;
    let mut k: usize = n;
    let ghost start = out@;
    proof {
        assert(start + le_bytes(v as nat, n as nat) =~= out@ + le_bytes(rest as nat, k as nat));
    }
    while k > 0
        invariant
            out@ + le_bytes(rest as nat, k as nat) == start + le_bytes(v as nat, n as nat),
        decreases k,
    {
        let ghost before = out@;
        let ghost tail = le_bytes((rest / 256) as nat, (k - 1) as nat);
        out.push((rest % 256) as u8);
        proof {
            assert(before + (seq![(rest % 256) as u8] + tail) =~= out@ + tail);
        }
        rest = rest / 256;
        k = k - 1;
    }
    proof {
        assert(out@ + le_bytes(rest as nat, 0) =~= out@);
    }
}

/// The pattern of a signed number, as an unsigned one.
pub fn to_pattern64(v: i64) -> (r: u64)
    ensures
        r == pattern64(v),
{
    let r = v as u64;
    assert(v >= 0 ==> r == v) by (bit_vector)
        requires
            r == v as u64,
    ;
    assert(v < 0 ==> r == v + 0x1_0000_0000_0000_0000) by (bit_vector)
        requires
            r == v as u64,
    ;
    r
}

/// Writing and reading a signed number keeps it.
pub proof fn lemma_pattern64(v: i64)
    ensures
        signed64(pattern64(v)) == v,
        pattern64(v) < 0x1_0000_0000_0000_0000,
{
}

// ---------------------------------------------------------------------------
// CompactSize
// ---------------------------------------------------------------------------

/// How many bytes follow a CompactSize prefix byte.
pub open spec fn compact_width(prefix: u8) -> nat {
    if prefix == 0xFF {
        8
    } else if prefix == 0xFE {
        4
    } else if prefix == 0xFD {
        2
    } else {
        0
    }
}

/// The minimal CompactSize form of a value.
pub open spec fn compact_bytes(v: u64) -> Seq<u8> {
    if v <= 0xFC {
        seq![v as u8]
    } else if v <= 0xFFFF {
        seq![0xFDu8] + le_bytes(v as nat, 2)
    } else if v <= 0xFFFF_FFFF {
        seq![0xFEu8] + le_bytes(v as nat, 4)
    } else {
        seq![0xFFu8] + le_bytes(v as nat, 8)
    }
}

/// The value at the front of `s` in any CompactSize form, and what follows it.
pub open spec fn compact_read(s: Seq<u8>) -> Option<(u64, Seq<u8>)> {
    if s.len() == 0 || s.len() < 1 + compact_width(s[0]) {
        None
    } else if compact_width(s[0]) == 0 {
        Some((s[0] as u64, s.skip(1)))
    } else {
        let w = compact_width(s[0]) as int;
        Some((le_at(s, 1, w) as u64, s.skip(1 + w)))
    }
}

/// The value at the front of `s` where it is in its minimal form, and what follows it.
pub open spec fn compact_canonical(s: Seq<u8>) -> Option<(u64, Seq<u8>)> {
    match compact_read(s) {
        Some((v, rest)) => if compact_width(s[0]) == compact_bytes(v).len() - 1 {
            Some((v, rest))
        } else {
            None
        },
        None => None,
    }
}

pub proof fn lemma_compact_bytes_len(v: u64)
    ensures
        v <= 0xFC ==> compact_bytes(v).len() == 1,
        0xFC < v <= 0xFFFF ==> compact_bytes(v).len() == 3,
        0xFFFF < v <= 0xFFFF_FFFF ==> compact_bytes(v).len() == 5,
        v > 0xFFFF_FFFF ==> compact_bytes(v).len() == 9,
{
    lemma_le_bytes_len(v as nat, 2);
    lemma_le_bytes_len(v as nat, 4);
    lemma_le_bytes_len(v as nat, 8);
}

/// A value in minimal form is read from its own bytes alone: whatever follows them is left
/// over, and a text that ends before they do holds no value.
pub proof fn law_compact_size_reads_its_bytes_alone(s: Seq<u8>, u: Seq<u8>)
    requires
        compact_canonical(s) is Some,
    ensures
        ({
            let (v, rest) = compact_canonical(s)->Some_0;
            let h = s.len() - rest.len();
            &&& 0 < h <= s.len()
            &&& rest == s.skip(h)
            &&& h <= u.len() && u.take(h) == s.take(h) ==> compact_canonical(u) == Some(
                (v, u.skip(h)),
            )
            &&& u.len() < h && u == s.take(u.len() as int) ==> compact_canonical(u) is None
        }),
{
    let w = compact_width(s[0]) as int;
    if 1 + w <= u.len() && u.take(1 + w) == s.take(1 + w) {
        assert(u[0] == u.take(1 + w)[0]);
        assert(s[0] == s.take(1 + w)[0]);
        assert(u.subrange(1, 1 + w) =~= u.take(1 + w).subrange(1, 1 + w));
        assert(s.subrange(1, 1 + w) =~= s.take(1 + w).subrange(1, 1 + w));
    }
    if 0 < u.len() < 1 + w && u == s.take(u.len() as int) {
        assert(u[0] == s[0]);
    }
}

/// A CompactSize value reads back, by either decoder, as it was written, whatever follows.
pub proof fn law_compact_size_round_trip(v: u64, rest: Seq<u8>)
    ensures
        compact_read(compact_bytes(v) + rest) == Some((v, rest)),
        compact_canonical(compact_bytes(v) + rest) == Some((v, rest)),
{
    lemma_compact_bytes_len(v);
    lemma_powers_of_256();
    let s = compact_bytes(v) + rest;
    let w = (compact_bytes(v).len() - 1) as nat;
    assert(s[0] == compact_bytes(v)[0]);
    assert(s.skip(1 + w as int) =~= rest);
    if w > 0 {
        law_le_round_trip(v as nat, w);
        assert(s.subrange(1, 1 + w as int) =~= le_bytes(v as nat, w));
    }
}

/// The canonical decoder takes nothing but minimal forms.
pub proof fn law_compact_canonical_is_minimal(s: Seq<u8>)
    ensures
        compact_canonical(s) matches Some((v, rest)) ==> s == compact_bytes(v) + rest,
{
    if let Some((v, rest)) = compact_canonical(s) {
        let w = compact_width(s[0]);
        lemma_compact_bytes_len(v);
        lemma_powers_of_256();
        if w > 0 {
            let digits = s.subrange(1, 1 + w as int);
            law_le_bytes_of_value(digits);
            assert(v == le_value(digits));
            assert(s =~= seq![s[0]] + digits + rest);
            assert(compact_bytes(v) =~= seq![s[0]] + digits);
        } else {
            assert(s =~= seq![s[0]] + rest);
        }
    }
}

/// Appends a value in minimal CompactSize form.
pub fn write_compact_size(out: &mut Vec<u8>, value: u64)
    ensures
        final(out)@ == old(out)@ + compact_bytes(value),
{
    if value <= 0xFC {
        out.push(value as u8);
    } else if value <= 0xFFFF {
        out.push(0xFD);
        push_le(out, value, 2);
    } else if value <= 0xFFFF_FFFF {
        out.push(0xFE);
        push_le(out, value, 4);
    } else {
        out.push(0xFF);
        push_le(out, value, 8);
    }
    proof {
        assert(out@ =~= old(out)@ + compact_bytes(value));
    }
}

// ---------------------------------------------------------------------------
// Cursor
// ---------------------------------------------------------------------------

/// A cursor over a byte slice for defensive parsing; short reads yield `None`. Its view is
/// what is left to read.
pub struct Cursor<'a> {
    rest: &'a [u8],
}

impl<'a> View for Cursor<'a> {
    type V = Seq<u8>;

    closed spec fn view(&self) -> Seq<u8> {
        self.rest@
    }
}

impl<'a> Cursor<'a> {
    pub fn new(buf: &'a [u8]) -> (r: Self)
        ensures
            r@ == buf@,
    {
        Cursor { rest: buf }
    }

    /// Takes the next `n` bytes; nothing is taken where fewer are left.
    pub fn take(&mut self, n: usize) -> (r: Option<&'a [u8]>)
        ensures
            r is Some <==> n <= old(self)@.len(),
            r matches Some(b) ==> b@ == old(self)@.take(n as int) && final(self)@ == old(
                self,
            )@.skip(n as int),
            r is None ==> final(self)@ == old(self)@,
    {
        let whole = self.rest;
        if n > whole.len() {
            return None;
        }
        let slice = &whole[0..n];
        self.rest = &whole[n..whole.len()];
        Some(slice)
    }

    /// How many bytes are left.
    pub fn remaining(&self) -> (r: usize)
        ensures
            r == self@.len(),
    {
        self.rest.len()
    }

    pub fn u8(&mut self) -> (r: Option<u8>)
        ensures
            r is Some <==> old(self)@.len() >= 1,
            r matches Some(v) ==> v == old(self)@[0] && final(self)@ == old(self)@.skip(1),
            r is None ==> final(self)@ == old(self)@,
    {
        match self.take(1) {
            Some(b) => Some(b[0]),
            None => None,
        }
    }

    pub fn u16_le(&mut self) -> (r: Option<u16>)
        ensures
            r is Some <==> old(self)@.len() >= 2,
            r matches Some(v) ==> v == le_at(old(self)@, 0, 2) && final(self)@ == old(self)@.skip(2),
            r is None ==> final(self)@ == old(self)@,
    {
        match self.take(2) {
            Some(b) => {
                proof {
                    assert(b@ =~= old(self)@.subrange(0, 2));
                    lemma_le_value_2(b@);
                }
                Some((b[0] as u16) + 0x100 * (b[1] as u16))
            },
            None => None,
        }
    }

    pub fn u16_be(&mut self) -> (r: Option<u16>)
        ensures
            r is Some <==> old(self)@.len() >= 2,
            r matches Some(v) ==> v == be16_at(old(self)@, 0) && final(self)@ == old(self)@.skip(2),
            r is None ==> final(self)@ == old(self)@,
    {
        match self.take(2) {
            Some(b) => Some(0x100 * (b[0] as u16) + (b[1] as u16)),
            None => None,
        }
    }

    pub fn u32_le(&mut self) -> (r: Option<u32>)
        ensures
            r is Some <==> old(self)@.len() >= 4,
            r matches Some(v) ==> v == le_at(old(self)@, 0, 4) && final(self)@ == old(self)@.skip(4),
            r is None ==> final(self)@ == old(self)@,
    {
        match self.take(4) {
            Some(b) => {
                proof {
                    assert(b@ =~= old(self)@.subrange(0, 4));
                    lemma_le_value_4(b@);
                }
                Some(
                    (b[0] as u32) + 0x100 * (b[1] as u32) + 0x1_0000 * (b[2] as u32) + 0x100_0000 * (
                    b[3] as u32),
                )
            },
            None => None,
        }
    }

    pub fn i32_le(&mut self) -> (r: Option<i32>)
        ensures
            r is Some <==> old(self)@.len() >= 4,
            r matches Some(v) ==> v == signed32(le_at(old(self)@, 0, 4)) && final(self)@ == old(
                self,
            )@.skip(4),
            r is None ==> final(self)@ == old(self)@,
    {
        match self.u32_le() {
            Some(u) => {
                let v = u as i32;
                assert(u < 0x8000_0000 ==> v == u) by (bit_vector)
                    requires
                        v == u as i32,
                ;
                assert(u >= 0x8000_0000 ==> v == u - 0x1_0000_0000) by (bit_vector)
                    requires
                        v == u as i32,
                ;
                Some(v)
            },
            None => None,
        }
    }

    pub fn u64_le(&mut self) -> (r: Option<u64>)
        ensures
            r is Some <==> old(self)@.len() >= 8,
            r matches Some(v) ==> v == le_at(old(self)@, 0, 8) && final(self)@ == old(self)@.skip(8),
            r is None ==> final(self)@ == old(self)@,
    {
        match self.take(8) {
            Some(b) => {
                proof {
                    assert(b@ =~= old(self)@.subrange(0, 8));
                    lemma_le_value_8(b@);
                }
                Some(
                    (b[0] as u64) + 0x100 * (b[1] as u64) + 0x1_0000 * (b[2] as u64) + 0x100_0000 * (
                    b[3] as u64) + 0x1_0000_0000 * (b[4] as u64) + 0x100_0000_0000 * (b[5] as u64)
                        + 0x1_0000_0000_0000 * (b[6] as u64) + 0x100_0000_0000_0000 * (b[7] as u64),
                )
            },
            None => None,
        }
    }

    pub fn i64_le(&mut self) -> (r: Option<i64>)
        ensures
            r is Some <==> old(self)@.len() >= 8,
            r matches Some(v) ==> v == signed64(le_at(old(self)@, 0, 8)) && final(self)@ == old(
                self,
            )@.skip(8),
            r is None ==> final(self)@ == old(self)@,
    {
        match self.u64_le() {
            Some(u) => {
                let v = u as i64;
                assert(u < 0x8000_0000_0000_0000 ==> v == u) by (bit_vector)
                    requires
                        v == u as i64,
                ;
                assert(u >= 0x8000_0000_0000_0000 ==> v == u - 0x1_0000_0000_0000_0000)
                    by (bit_vector)
                    requires
                        v == u as i64,
                ;
                Some(v)
            },
            None => None,
        }
    }

    /// Reads a CompactSize value in any form. Where the value is cut short only its prefix
    /// byte is taken.
    pub fn compact_size(&mut self) -> (r: Option<u64>)
        ensures
            match compact_read(old(self)@) {
                Some((v, rest)) => r == Some(v) && final(self)@ == rest,
                None => r is None && final(self)@ == after_prefix(old(self)@),
            },
    {
        let prefix = match self.u8() {
            Some(b) => b,
            None => {
                return None;
            },
        };
        let ghost whole = old(self)@;
        let ghost tail = self@;
        proof {
            if whole.len() >= 9 {
                assert(tail.subrange(0, 8) =~= whole.subrange(1, 9));
                assert(tail.skip(8) =~= whole.skip(9));
            }
            if whole.len() >= 5 {
                assert(tail.subrange(0, 4) =~= whole.subrange(1, 5));
                assert(tail.skip(4) =~= whole.skip(5));
            }
            if whole.len() >= 3 {
                assert(tail.subrange(0, 2) =~= whole.subrange(1, 3));
                assert(tail.skip(2) =~= whole.skip(3));
            }
        }
        if prefix == 0xFF {
            self.u64_le()
        } else if prefix == 0xFE {
            match self.u32_le() {
                Some(v) => Some(v as u64),
                None => None,
            }
        } else if prefix == 0xFD {
            match self.u16_le() {
                Some(v) => Some(v as u64),
                None => None,
            }
        } else {
            Some(prefix as u64)
        }
    }

    /// Reads a CompactSize value and refuses one that is not in its minimal form. A refused
    /// value is taken all the same.
    pub fn compact_size_canonical(&mut self) -> (r: Option<u64>)
        ensures
            match compact_canonical(old(self)@) {
                Some((v, rest)) => r == Some(v) && final(self)@ == rest,
                None => r is None,
            },
            match compact_read(old(self)@) {
                Some((v, rest)) => final(self)@ == rest,
                None => final(self)@ == after_prefix(old(self)@),
            },
    {
        let first: u8 = if self.remaining() > 0 {
            self.rest[0]
        } else {
            0
        };
        let value = match self.compact_size() {
            Some(v) => v,
            None => {
                return None;
            },
        };
        proof {
            lemma_compact_bytes_len(value);
        }
        let minimal = if first == 0xFF {
            value > 0xffff_ffff
        } else if first == 0xFE {
            value > 0xffff
        } else if first == 0xFD {
            value >= 0xfd
        } else {
            true
        };
        proof {
            let w = compact_width(first) as int;
            if w > 0 {
                law_le_bytes_of_value(old(self)@.subrange(1, 1 + w));
                lemma_powers_of_256();
            }
        }
        if minimal {
            Some(value)
        } else {
            None
        }
    }
}

/// What is left behind the prefix byte of a value that is cut short.
pub open spec fn after_prefix(s: Seq<u8>) -> Seq<u8> {
    if s.len() == 0 {
        s
    } else {
        s.skip(1)
    }
}

} // verus!
