//! Big-endian integers and length-prefixed strings: the vocabulary of every
//! canonical byte form in this crate.

use vstd::prelude::*;

verus! {

/// Big-endian bytes of a `u16`.
pub open spec fn be16(x: u16) -> Seq<u8> {
    seq![(x >> 8u16) as u8, x as u8]
}

/// Big-endian bytes of a `u32`.
pub open spec fn be32(x: u32) -> Seq<u8> {
    seq![(x >> 24u32) as u8, (x >> 16u32) as u8, (x >> 8u32) as u8, x as u8]
}

/// Big-endian bytes of a `u64`.
pub open spec fn be64(x: u64) -> Seq<u8> {
    seq![
        (x >> 56u64) as u8,
        (x >> 48u64) as u8,
        (x >> 40u64) as u8,
        (x >> 32u64) as u8,
        (x >> 24u64) as u8,
        (x >> 16u64) as u8,
        (x >> 8u64) as u8,
        x as u8,
    ]
}

/// The `u16` that two big-endian bytes spell.
pub open spec fn from_be16(s: Seq<u8>) -> u16 {
    ((s[0] as u16) << 8u16) | (s[1] as u16)
}

/// The `u32` that four big-endian bytes spell.
pub open spec fn from_be32(s: Seq<u8>) -> u32 {
    ((s[0] as u32) << 24u32) | ((s[1] as u32) << 16u32) | ((s[2] as u32) << 8u32) | (s[3] as u32)
}

/// The `u64` that eight big-endian bytes spell.
pub open spec fn from_be64(s: Seq<u8>) -> u64 {
    ((s[0] as u64) << 56u64) | ((s[1] as u64) << 48u64) | ((s[2] as u64) << 40u64) | ((
    s[3] as u64) << 32u64) | ((s[4] as u64) << 24u64) | ((s[5] as u64) << 16u64) | ((
    s[6] as u64) << 8u64) | (s[7] as u64)
}

/// A length prefix (two bytes, big-endian, truncated to 16 bits) followed by
/// the bytes.
pub open spec fn str16(s: Seq<u8>) -> Seq<u8> {
    be16(s.len() as u16) + s
}

pub proof fn lemma_be16_round_trip(x: u16)
    ensures
        from_be16(be16(x)) == x,
{
    let b0 = (x >> 8u16) as u8;
    let b1 = x as u8;
    assert((((b0 as u16) << 8u16) | (b1 as u16)) == x) by (bit_vector)
        requires
            b0 == (x >> 8u16) as u8,
            b1 == x as u8,
    ;
}

pub proof fn lemma_be32_round_trip(x: u32)
    ensures
        from_be32(be32(x)) == x,
{
    let b0 = (x >> 24u32) as u8;
    let b1 = (x >> 16u32) as u8;
    let b2 = (x >> 8u32) as u8;
    let b3 = x as u8;
    assert((((b0 as u32) << 24u32) | ((b1 as u32) << 16u32) | ((b2 as u32) << 8u32) | (b3 as u32))
        == x) by (bit_vector)
        requires
            b0 == (x >> 24u32) as u8,
            b1 == (x >> 16u32) as u8,
            b2 == (x >> 8u32) as u8,
            b3 == x as u8,
    ;
}

pub proof fn lemma_be64_round_trip(x: u64)
    ensures
        from_be64(be64(x)) == x,
{
    let b0 = (x >> 56u64) as u8;
    let b1 = (x >> 48u64) as u8;
    let b2 = (x >> 40u64) as u8;
    let b3 = (x >> 32u64) as u8;
    let b4 = (x >> 24u64) as u8;
    let b5 = (x >> 16u64) as u8;
    let b6 = (x >> 8u64) as u8;
    let b7 = x as u8;
    assert((((b0 as u64) << 56u64) | ((b1 as u64) << 48u64) | ((b2 as u64) << 40u64) | ((
    b3 as u64) << 32u64) | ((b4 as u64) << 24u64) | ((b5 as u64) << 16u64) | ((b6 as u64)
        << 8u64) | (b7 as u64)) == x) by (bit_vector)
        requires
            b0 == (x >> 56u64) as u8,
            b1 == (x >> 48u64) as u8,
            b2 == (x >> 40u64) as u8,
            b3 == (x >> 32u64) as u8,
            b4 == (x >> 24u64) as u8,
            b5 == (x >> 16u64) as u8,
            b6 == (x >> 8u64) as u8,
            b7 == x as u8,
    ;
}

pub proof fn lemma_from_be16_canonical(s: Seq<u8>)
    requires
        s.len() == 2,
    ensures
        be16(from_be16(s)) == s,
{
    let b0 = s[0];
    let b1 = s[1];
    let x = from_be16(s);
    assert((x >> 8u16) as u8 == b0 && x as u8 == b1) by (bit_vector)
        requires
            x == ((b0 as u16) << 8u16) | (b1 as u16),
    ;
    assert(be16(x) =~= s);
}

pub proof fn lemma_from_be32_canonical(s: Seq<u8>)
    requires
        s.len() == 4,
    ensures
        be32(from_be32(s)) == s,
{
    let b0 = s[0];
    let b1 = s[1];
    let b2 = s[2];
    let b3 = s[3];
    let x = from_be32(s);
    assert((x >> 24u32) as u8 == b0 && (x >> 16u32) as u8 == b1 && (x >> 8u32) as u8 == b2
        && x as u8 == b3) by (bit_vector)
        requires
            x == ((b0 as u32) << 24u32) | ((b1 as u32) << 16u32) | ((b2 as u32) << 8u32) | (
            b3 as u32),
    ;
    assert(be32(x) =~= s);
}

pub proof fn lemma_from_be64_canonical(s: Seq<u8>)
    requires
        s.len() == 8,
    ensures
        be64(from_be64(s)) == s,
{
    let b0 = s[0];
    let b1 = s[1];
    let b2 = s[2];
    let b3 = s[3];
    let b4 = s[4];
    let b5 = s[5];
    let b6 = s[6];
    let b7 = s[7];
    let x = from_be64(s);
    assert((x >> 56u64) as u8 == b0 && (x >> 48u64) as u8 == b1 && (x >> 40u64) as u8 == b2
        && (x >> 32u64) as u8 == b3 && (x >> 24u64) as u8 == b4 && (x >> 16u64) as u8 == b5
        && (x >> 8u64) as u8 == b6 && x as u8 == b7) by (bit_vector)
        requires
            x == ((b0 as u64) << 56u64) | ((b1 as u64) << 48u64) | ((b2 as u64) << 40u64) | ((
            b3 as u64) << 32u64) | ((b4 as u64) << 24u64) | ((b5 as u64) << 16u64) | ((
            b6 as u64) << 8u64) | (b7 as u64),
    ;
    assert(be64(x) =~= s);
}

/// The two big-endian bytes of `x`.
pub fn be16_bytes(x: u16) -> (r: [u8; 2])
    ensures
        r@ == be16(x),
{
    let r = [(x >> 8u16) as u8, x as u8];
    assert(r@ =~= be16(x));
    r
}

/// The four big-endian bytes of `x`.
pub fn be32_bytes(x: u32) -> (r: [u8; 4])
    ensures
        r@ == be32(x),
{
    let r = [(x >> 24u32) as u8, (x >> 16u32) as u8, (x >> 8u32) as u8, x as u8];
    assert(r@ =~= be32(x));
    r
}

/// The eight big-endian bytes of `x`.
pub fn be64_bytes(x: u64) -> (r: [u8; 8])
    ensures
        r@ == be64(x),
{
    let r = [
        (x >> 56u64) as u8,
        (x >> 48u64) as u8,
        (x >> 40u64) as u8,
        (x >> 32u64) as u8,
        (x >> 24u64) as u8,
        (x >> 16u64) as u8,
        (x >> 8u64) as u8,
        x as u8,
    ];
    assert(r@ =~= be64(x));
    r
}

/// The `u16` that the first two bytes of `s` spell.
pub fn read_be16(s: &[u8]) -> (r: u16)
    requires
        s@.len() >= 2,
    ensures
        r == from_be16(s@),
{
    ((s[0] as u16) << 8u16) | (s[1] as u16)
}

/// The `u32` that the first four bytes of `s` spell.
pub fn read_be32(s: &[u8]) -> (r: u32)
    requires
        s@.len() >= 4,
    ensures
        r == from_be32(s@),
{
    ((s[0] as u32) << 24u32) | ((s[1] as u32) << 16u32) | ((s[2] as u32) << 8u32) | (s[3] as u32)
}

/// The `u64` that the first eight bytes of `s` spell.
pub fn read_be64(s: &[u8]) -> (r: u64)
    requires
        s@.len() >= 8,
    ensures
        r == from_be64(s@),
{
    ((s[0] as u64) << 56u64) | ((s[1] as u64) << 48u64) | ((s[2] as u64) << 40u64) | ((
    s[3] as u64) << 32u64) | ((s[4] as u64) << 24u64) | ((s[5] as u64) << 16u64) | ((
    s[6] as u64) << 8u64) | (s[7] as u64)
}

/// Append `b` to `v`.
pub fn push_all(v: &mut Vec<u8>, b: &[u8])
    ensures
        final(v)@ == old(v)@ + b@,
{
    let mut i: usize = 0;
    while i < b.len()
        invariant
            i <= b@.len(),
            v@ == old(v)@ + b@.subrange(0, i as int),
        decreases b@.len() - i,
    {
        v.push(b[i]);
        i += 1;
        assert(v@ =~= old(v)@ + b@.subrange(0, i as int));
    }
    assert(b@.subrange(0, b@.len() as int) =~= b@);
}

/// Copy `b` into `out` at `pos`; everything else in `out` stays.
pub fn copy_into(out: &mut [u8], pos: usize, b: &[u8])
    requires
        pos + b@.len() <= old(out)@.len(),
    ensures
        final(out)@ == old(out)@.subrange(0, pos as int) + b@ + old(out)@.subrange(
            pos + b@.len(),
            old(out)@.len() as int,
        ),
{
    let n = out.len();
    let mut i: usize = 0;
    while i < b.len()
        invariant
            i <= b@.len(),
            n == old(out)@.len(),
            pos + b@.len() <= old(out)@.len(),
            out@.len() == old(out)@.len(),
            out@ == old(out)@.subrange(0, pos as int) + b@.subrange(0, i as int) + old(
                out,
            )@.subrange(pos + i, old(out)@.len() as int),
        decreases b@.len() - i,
    {
        out[pos + i] = b[i];
        i += 1;
        assert(out@ =~= old(out)@.subrange(0, pos as int) + b@.subrange(0, i as int) + old(
            out,
        )@.subrange(pos + i, old(out)@.len() as int));
    }
    assert(b@.subrange(0, b@.len() as int) =~= b@);
}

} // verus!
