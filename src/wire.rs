//! Fixed-width integer fields as they appear on the wire: big-endian for the
//! upper-layer protocol, little-endian for DIMSE command elements.
use vstd::prelude::*;

verus! {

/// Two bytes, most significant first.
pub open spec fn be16(v: u16) -> Seq<u8> {
    seq![(v >> 8u16) as u8, v as u8]
}

/// Four bytes, most significant first.
pub open spec fn be32(v: u32) -> Seq<u8> {
    seq![(v >> 24u32) as u8, (v >> 16u32) as u8, (v >> 8u32) as u8, v as u8]
}

/// Two bytes, least significant first.
pub open spec fn le16(v: u16) -> Seq<u8> {
    seq![v as u8, (v >> 8u16) as u8]
}

/// Four bytes, least significant first.
pub open spec fn le32(v: u32) -> Seq<u8> {
    seq![v as u8, (v >> 8u32) as u8, (v >> 16u32) as u8, (v >> 24u32) as u8]
}

/// The value of two bytes read most significant first.
pub open spec fn be16_of(a: u8, b: u8) -> u16 {
    ((a as u16) << 8u16) | (b as u16)
}

/// The value of four bytes read most significant first.
pub open spec fn be32_of(a: u8, b: u8, c: u8, d: u8) -> u32 {
    ((a as u32) << 24u32) | ((b as u32) << 16u32) | ((c as u32) << 8u32) | (d as u32)
}

/// The value of four bytes read least significant first.
pub open spec fn le32_of(a: u8, b: u8, c: u8, d: u8) -> u32 {
    be32_of(d, c, b, a)
}

/// The value of two bytes read least significant first.
pub open spec fn le16_of(a: u8, b: u8) -> u16 {
    be16_of(b, a)
}

pub proof fn lemma_be16_of_be16(v: u16)
    ensures
        be16_of(be16(v)[0], be16(v)[1]) == v,
{
    let a = (v >> 8u16) as u8;
    let b = v as u8;
    assert(((a as u16) << 8u16) | (b as u16) == v) by (bit_vector)
        requires
            a == (v >> 8u16) as u8,
            b == v as u8,
    ;
}

pub proof fn lemma_be16_bytes(a: u8, b: u8)
    ensures
        be16(be16_of(a, b)) == seq![a, b],
{
    let v = be16_of(a, b);
    assert((v >> 8u16) as u8 == a && v as u8 == b) by (bit_vector)
        requires
            v == ((a as u16) << 8u16) | (b as u16),
    ;
    assert(be16(v) =~= seq![a, b]);
}

pub proof fn lemma_be32_of_be32(v: u32)
    ensures
        be32_of(be32(v)[0], be32(v)[1], be32(v)[2], be32(v)[3]) == v,
        le32_of(le32(v)[0], le32(v)[1], le32(v)[2], le32(v)[3]) == v,
{
    let a = (v >> 24u32) as u8;
    let b = (v >> 16u32) as u8;
    let c = (v >> 8u32) as u8;
    let d = v as u8;
    assert(((a as u32) << 24u32) | ((b as u32) << 16u32) | ((c as u32) << 8u32) | (d as u32)
        == v) by (bit_vector)
        requires
            a == (v >> 24u32) as u8,
            b == (v >> 16u32) as u8,
            c == (v >> 8u32) as u8,
            d == v as u8,
    ;
}

pub proof fn lemma_be32_bytes(a: u8, b: u8, c: u8, d: u8)
    ensures
        be32(be32_of(a, b, c, d)) == seq![a, b, c, d],
        le32(le32_of(a, b, c, d)) == seq![a, b, c, d],
{
    let v = be32_of(a, b, c, d);
    assert((v >> 24u32) as u8 == a && (v >> 16u32) as u8 == b && (v >> 8u32) as u8 == c && v as u8
        == d) by (bit_vector)
        requires
            v == ((a as u32) << 24u32) | ((b as u32) << 16u32) | ((c as u32) << 8u32) | (d as u32),
    ;
    assert(be32(v) =~= seq![a, b, c, d]);
    let w = le32_of(a, b, c, d);
    assert((w >> 24u32) as u8 == d && (w >> 16u32) as u8 == c && (w >> 8u32) as u8 == b && w as u8
        == a) by (bit_vector)
        requires
            w == ((d as u32) << 24u32) | ((c as u32) << 16u32) | ((b as u32) << 8u32) | (a as u32),
    ;
    assert(le32(w) =~= seq![a, b, c, d]);
}

pub proof fn lemma_le16_roundtrip(v: u16, a: u8, b: u8)
    ensures
        le16_of(le16(v)[0], le16(v)[1]) == v,
        le16(le16_of(a, b)) == seq![a, b],
{
    lemma_be16_of_be16(v);
    lemma_be16_bytes(b, a);
    assert(le16(le16_of(a, b)) =~= seq![a, b]);
}

/// Appends `v` most significant byte first.
pub fn push_be16(buf: &mut Vec<u8>, v: u16)
    ensures
        final(buf)@ == old(buf)@ + be16(v),
{
    buf.push((v >> 8u16) as u8);
    buf.push(v as u8);
    assert(final(buf)@ =~= old(buf)@ + be16(v));
}

/// Appends `v` most significant byte first.
pub fn push_be32(buf: &mut Vec<u8>, v: u32)
    ensures
        final(buf)@ == old(buf)@ + be32(v),
{
    buf.push((v >> 24u32) as u8);
    buf.push((v >> 16u32) as u8);
    buf.push((v >> 8u32) as u8);
    buf.push(v as u8);
    assert(final(buf)@ =~= old(buf)@ + be32(v));
}

/// Appends `v` least significant byte first.
pub fn push_le32(buf: &mut Vec<u8>, v: u32)
    ensures
        final(buf)@ == old(buf)@ + le32(v),
{
    buf.push(v as u8);
    buf.push((v >> 8u32) as u8);
    buf.push((v >> 16u32) as u8);
    buf.push((v >> 24u32) as u8);
    assert(final(buf)@ =~= old(buf)@ + le32(v));
}

/// Appends `v` least significant byte first.
pub fn push_le16(buf: &mut Vec<u8>, v: u16)
    ensures
        final(buf)@ == old(buf)@ + le16(v),
{
    buf.push(v as u8);
    buf.push((v >> 8u16) as u8);
    assert(final(buf)@ =~= old(buf)@ + le16(v));
}

/// Appends every byte of `src`.
pub fn push_all(buf: &mut Vec<u8>, src: &[u8])
    ensures
        final(buf)@ == old(buf)@ + src@,
{
    let mut i: usize = 0;
    while i < src.len()
        invariant
            0 <= i <= src@.len(),
            buf@ == old(buf)@ + src@.subrange(0, i as int),
        decreases src@.len() - i,
    {
        buf.push(src[i]);
        i = i + 1;
        assert(buf@ =~= old(buf)@ + src@.subrange(0, i as int));
    }
    assert(src@.subrange(0, src@.len() as int) =~= src@);
}

/// The bytes `b[start..end]` as a new vector.
pub fn copy_range(b: &[u8], start: usize, end: usize) -> (r: Vec<u8>)
    requires
        start <= end <= b@.len(),
    ensures
        r@ == b@.subrange(start as int, end as int),
{
    let mut r: Vec<u8> = Vec::with_capacity(end - start);
    let mut i: usize = start;
    while i < end
        invariant
            start <= i <= end <= b@.len(),
            r@ == b@.subrange(start as int, i as int),
        decreases end - i,
    {
        r.push(b[i]);
        i = i + 1;
        assert(r@ =~= b@.subrange(start as int, i as int));
    }
    r
}

pub fn read_be16(b: &[u8], at: usize) -> (r: u16)
    requires
        at + 2 <= b@.len(),
    ensures
        r == be16_of(b@[at as int], b@[at + 1]),
{
    ((b[at] as u16) << 8u16) | (b[at + 1] as u16)
}

pub fn read_be32(b: &[u8], at: usize) -> (r: u32)
    requires
        at + 4 <= b@.len(),
    ensures
        r == be32_of(b@[at as int], b@[at + 1], b@[at + 2], b@[at + 3]),
{
    ((b[at] as u32) << 24u32) | ((b[at + 1] as u32) << 16u32) | ((b[at + 2] as u32) << 8u32) | (
    b[at + 3] as u32)
}

pub fn read_le32(b: &[u8], at: usize) -> (r: u32)
    requires
        at + 4 <= b@.len(),
    ensures
        r == le32_of(b@[at as int], b@[at + 1], b@[at + 2], b@[at + 3]),
{
    let (b0, b1, b2, b3) = (b[at], b[at + 1], b[at + 2], b[at + 3]);
    ((b3 as u32) << 24u32) | ((b2 as u32) << 16u32) | ((b1 as u32) << 8u32) | (b0 as u32)
}

pub fn read_le16(b: &[u8], at: usize) -> (r: u16)
    requires
        at + 2 <= b@.len(),
    ensures
        r == le16_of(b@[at as int], b@[at + 1]),
{
    let (b0, b1) = (b[at], b[at + 1]);
    ((b1 as u16) << 8u16) | (b0 as u16)
}

} // verus!
