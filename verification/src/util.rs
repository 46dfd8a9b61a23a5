//! Byte-level helpers shared by the codecs: big-endian integer fields
//! and decimal rendering of unsigned integers.

use vstd::prelude::*;
use vstd::arithmetic::div_mod::{lemma_fundamental_div_mod, lemma_div_denominator};

verus! {

/// The value of a 2-byte big-endian field.
pub open spec fn be2(b0: u8, b1: u8) -> int {
    b0 * 0x100 + b1
}

/// The value of a 4-byte big-endian field.
pub open spec fn be4(b0: u8, b1: u8, b2: u8, b3: u8) -> int {
    b0 * 0x1000000 + b1 * 0x10000 + b2 * 0x100 + b3
}

/// The value of an 8-byte big-endian field.
pub open spec fn be8(b0: u8, b1: u8, b2: u8, b3: u8, b4: u8, b5: u8, b6: u8, b7: u8) -> int {
    be4(b0, b1, b2, b3) * 0x100000000 + be4(b4, b5, b6, b7)
}

/// The 2-byte big-endian encoding of `x`.
pub open spec fn spec_u16_bytes(x: u16) -> Seq<u8> {
    seq![(x / 0x100) as u8, (x % 0x100) as u8]
}

/// The 4-byte big-endian encoding of `x`.
pub open spec fn spec_u32_bytes(x: u32) -> Seq<u8> {
    seq![
        (x / 0x1000000) as u8,
        ((x / 0x10000) % 0x100) as u8,
        ((x / 0x100) % 0x100) as u8,
        (x % 0x100) as u8,
    ]
}

/// The 8-byte big-endian encoding of `x`.
pub open spec fn spec_u64_bytes(x: u64) -> Seq<u8> {
    spec_u32_bytes((x / 0x100000000) as u32) + spec_u32_bytes((x % 0x100000000) as u32)
}

/// A big-endian field holds the value its bytes encode.
pub proof fn lemma_u32_bytes_val(x: u32)
    ensures
        spec_u32_bytes(x).len() == 4,
        be4(
            spec_u32_bytes(x)[0],
            spec_u32_bytes(x)[1],
            spec_u32_bytes(x)[2],
            spec_u32_bytes(x)[3],
        ) == x,
{
    let q1 = x as int / 0x100;
    let q2 = q1 / 0x100;
    lemma_fundamental_div_mod(x as int, 0x100);
    lemma_fundamental_div_mod(q1, 0x100);
    lemma_fundamental_div_mod(q2, 0x100);
    lemma_div_denominator(x as int, 0x100, 0x100);
    lemma_div_denominator(x as int, 0x10000, 0x100);
    lemma_div_denominator(q1, 0x100, 0x100);
}

/// Reads a 2-byte big-endian field.
pub fn read_u16_be(b0: u8, b1: u8) -> (r: u16)
    ensures
        r == be2(b0, b1),
{
    (b0 as u16) * 0x100 + (b1 as u16)
}

/// Reads a 4-byte big-endian field.
pub fn read_u32_be(b0: u8, b1: u8, b2: u8, b3: u8) -> (r: u32)
    ensures
        r == be4(b0, b1, b2, b3),
{
    (b0 as u32) * 0x1000000 + (b1 as u32) * 0x10000 + (b2 as u32) * 0x100 + (b3 as u32)
}

/// Reads an 8-byte big-endian field.
pub fn read_u64_be(b0: u8, b1: u8, b2: u8, b3: u8, b4: u8, b5: u8, b6: u8, b7: u8) -> (r: u64)
    ensures
        r == be8(b0, b1, b2, b3, b4, b5, b6, b7),
{
    let hi = read_u32_be(b0, b1, b2, b3);
    let lo = read_u32_be(b4, b5, b6, b7);
    (hi as u64) * 0x100000000 + (lo as u64)
}

/// Appends the 2-byte big-endian encoding of `x` to `out`.
pub fn push_u16_be(out: &mut Vec<u8>, x: u16)
    ensures
        final(out)@ =~= old(out)@ + spec_u16_bytes(x),
{
    let b0: u8 = (x / 0x100) as u8;
    let b1: u8 = (x % 0x100) as u8;
    out.push(b0);
    out.push(b1);
}

/// Appends the 4-byte big-endian encoding of `x` to `out`.
pub fn push_u32_be(out: &mut Vec<u8>, x: u32)
    ensures
        final(out)@ =~= old(out)@ + spec_u32_bytes(x),
{
    let b0: u8 = (x / 0x1000000) as u8;
    let b1: u8 = ((x / 0x10000) % 0x100) as u8;
    let b2: u8 = ((x / 0x100) % 0x100) as u8;
    let b3: u8 = (x % 0x100) as u8;
    out.push(b0);
    out.push(b1);
    out.push(b2);
    out.push(b3);
}

/// Appends the 8-byte big-endian encoding of `x` to `out`.
pub fn push_u64_be(out: &mut Vec<u8>, x: u64)
    ensures
        final(out)@ =~= old(out)@ + spec_u64_bytes(x),
{
    let hi: u32 = (x / 0x100000000) as u32;
    let lo: u32 = (x % 0x100000000) as u32;
    push_u32_be(out, hi);
    push_u32_be(out, lo);
}

/// Appends every byte of `src` to `out`.
pub fn push_all(out: &mut Vec<u8>, src: &Vec<u8>)
    ensures
        final(out)@ =~= old(out)@ + src@,
{
    let mut i: usize = 0;
    while i < src.len()
        invariant
            i <= src.len(),
            out@ =~= old(out)@ + src@.subrange(0, i as int),
        decreases src.len() - i,
    {
        out.push(src[i]);
        i = i + 1;
        assert(out@ =~= old(out)@ + src@.subrange(0, i as int));
    }
    assert(src@.subrange(0, src@.len() as int) =~= src@);
}

/// A vector of `n` copies of `x`.
pub fn repeat_val<T: Copy>(x: T, n: usize) -> (r: Vec<T>)
    ensures
        r@ =~= Seq::new(n as nat, |i: int| x),
{
    let mut r: Vec<T> = Vec::new();
    let mut i: usize = 0;
    while i < n
        invariant
            i <= n,
            r@.len() == i,
            forall|j: int| 0 <= j < i ==> r@[j] == x,
        decreases n - i,
    {
        r.push(x);
        i = i + 1;
    }
    r
}

/// Copies the bytes of `v` in `[a, b)` into a fresh vector.
pub fn sub_vec(v: &Vec<u8>, a: usize, b: usize) -> (r: Vec<u8>)
    requires
        a <= b <= v@.len(),
    ensures
        r@ =~= v@.subrange(a as int, b as int),
{
    let mut r: Vec<u8> = Vec::new();
    let mut i: usize = a;
    while i < b
        invariant
            a <= i <= b <= v@.len(),
            r@ =~= v@.subrange(a as int, i as int),
        decreases b - i,
    {
        r.push(v[i]);
        i = i + 1;
        assert(r@ =~= v@.subrange(a as int, i as int));
    }
    r
}

/// Compares two byte vectors for equality of contents.
pub fn bytes_eq(a: &Vec<u8>, b: &Vec<u8>) -> (r: bool)
    ensures
        r == (a@ == b@),
{
    if a.len() != b.len() {
        return false;
    }
    let mut i: usize = 0;
    while i < a.len()
        invariant
            i <= a@.len(),
            a@.len() == b@.len(),
            forall|j: int| 0 <= j < i ==> a@[j] == b@[j],
        decreases a.len() - i,
    {
        if a[i] != b[i] {
            return false;
        }
        i = i + 1;
    }
    proof {
        assert(a@ =~= b@);
    }
    true
}

/// Whether `s` opens with the bytes of `p`.
pub fn has_prefix(s: &Vec<u8>, p: &Vec<u8>) -> (r: bool)
    ensures
        r == (s@.len() >= p@.len() && s@.subrange(0, p@.len() as int) == p@),
{
    if s.len() < p.len() {
        return false;
    }
    let mut i: usize = 0;
    while i < p.len()
        invariant
            i <= p@.len() <= s@.len(),
            forall|j: int| 0 <= j < i ==> s@[j] == p@[j],
        decreases p@.len() - i,
    {
        if s[i] != p[i] {
            proof {
                assert(s@.subrange(0, p@.len() as int)[i as int] != p@[i as int]);
            }
            return false;
        }
        i = i + 1;
    }
    proof {
        assert(s@.subrange(0, p@.len() as int) =~= p@);
    }
    true
}

/// The decimal digits of `n`, most significant first, as ASCII bytes.
pub open spec fn spec_dec(n: nat) -> Seq<u8>
    decreases n,
{
    if n < 10 {
        seq![(48 + n) as u8]
    } else {
        spec_dec(n / 10) + seq![(48 + n % 10) as u8]
    }
}

/// Renders `x` in decimal, most significant digit first.
pub fn dec_u64(x: u64) -> (r: Vec<u8>)
    ensures
        r@ == spec_dec(x as nat),
    decreases x,
{
    if x < 10 {
        let mut v: Vec<u8> = Vec::new();
        v.push(48 + x as u8);
        assert(v@ =~= spec_dec(x as nat));
        v
    } else {
        let mut v = dec_u64(x / 10);
        v.push(48 + (x % 10) as u8);
        assert(v@ =~= spec_dec(x as nat));
        v
    }
}

} // verus!
