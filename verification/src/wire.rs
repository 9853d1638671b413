//! Little-endian integer layouts shared by every SCP1 codec.

use vstd::prelude::*;

verus! {

/// Little-endian layout of a `u16`.
pub open spec fn le16(v: u16) -> Seq<u8> {
    seq![(v & 0xff) as u8, (v >> 8u16) as u8]
}

/// Little-endian layout of a `u32`.
pub open spec fn le32(v: u32) -> Seq<u8> {
    seq![
        (v & 0xff) as u8,
        ((v >> 8u32) & 0xff) as u8,
        ((v >> 16u32) & 0xff) as u8,
        (v >> 24u32) as u8,
    ]
}

/// Little-endian layout of a `u64`.
pub open spec fn le64(v: u64) -> Seq<u8> {
    le32((v & 0xffff_ffff) as u32) + le32((v >> 32u64) as u32)
}

/// Little-endian layout of an `i16` (two's complement).
pub open spec fn le_i16(v: i16) -> Seq<u8> {
    le16(v as u16)
}

/// Little-endian layout of an `i64` (two's complement).
pub open spec fn le_i64(v: i64) -> Seq<u8> {
    le64(v as u64)
}

/// The `u16` whose little-endian layout starts `s`.
pub open spec fn from_le16(s: Seq<u8>) -> u16 {
    ((s[0] as u16) | ((s[1] as u16) << 8u16)) as u16
}

/// The `u32` whose little-endian layout starts `s`.
pub open spec fn from_le32(s: Seq<u8>) -> u32 {
    ((s[0] as u32) | ((s[1] as u32) << 8u32) | ((s[2] as u32) << 16u32) | ((s[3] as u32)
        << 24u32)) as u32
}

/// The `u64` whose little-endian layout starts `s`.
pub open spec fn from_le64(s: Seq<u8>) -> u64 {
    ((from_le32(s) as u64) | ((from_le32(s.subrange(4, 8)) as u64) << 32u64)) as u64
}

pub proof fn lemma_le16_roundtrip(v: u16)
    ensures
        le16(v).len() == 2,
        from_le16(le16(v)) == v,
{
    let b0 = (v & 0xff) as u8;
    let b1 = (v >> 8u16) as u8;
    assert(((b0 as u16) | ((b1 as u16) << 8u16)) as u16 == v) by (bit_vector)
        requires
            b0 == (v & 0xff) as u8,
            b1 == (v >> 8u16) as u8,
    ;
}

pub proof fn lemma_le32_roundtrip(v: u32)
    ensures
        le32(v).len() == 4,
        from_le32(le32(v)) == v,
{
    let b0 = (v & 0xff) as u8;
    let b1 = ((v >> 8u32) & 0xff) as u8;
    let b2 = ((v >> 16u32) & 0xff) as u8;
    let b3 = (v >> 24u32) as u8;
    assert(((b0 as u32) | ((b1 as u32) << 8u32) | ((b2 as u32) << 16u32) | ((b3 as u32)
        << 24u32)) as u32 == v) by (bit_vector)
        requires
            b0 == (v & 0xff) as u8,
            b1 == ((v >> 8u32) & 0xff) as u8,
            b2 == ((v >> 16u32) & 0xff) as u8,
            b3 == (v >> 24u32) as u8,
    ;
}

pub proof fn lemma_le64_roundtrip(v: u64)
    ensures
        le64(v).len() == 8,
        from_le64(le64(v)) == v,
{
    let lo = (v & 0xffff_ffff) as u32;
    let hi = (v >> 32u64) as u32;
    lemma_le32_roundtrip(lo);
    lemma_le32_roundtrip(hi);
    assert(le64(v).subrange(4, 8) =~= le32(hi));
    assert(le64(v).subrange(0, 4) =~= le32(lo));
    assert(from_le32(le64(v)) == from_le32(le32(lo)));
    assert(((lo as u64) | ((hi as u64) << 32u64)) as u64 == v) by (bit_vector)
        requires
            lo == (v & 0xffff_ffff) as u32,
            hi == (v >> 32u64) as u32,
    ;
}

pub proof fn lemma_le16_canonical(s: Seq<u8>)
    requires
        s.len() == 2,
    ensures
        le16(from_le16(s)) =~= s,
{
    let b0 = s[0];
    let b1 = s[1];
    let v = from_le16(s);
    assert((v & 0xff) as u8 == b0 && (v >> 8u16) as u8 == b1) by (bit_vector)
        requires
            v == ((b0 as u16) | ((b1 as u16) << 8u16)) as u16,
    ;
}

pub proof fn lemma_le32_canonical(s: Seq<u8>)
    requires
        s.len() == 4,
    ensures
        le32(from_le32(s)) =~= s,
{
    let b0 = s[0];
    let b1 = s[1];
    let b2 = s[2];
    let b3 = s[3];
    let v = from_le32(s);
    assert((v & 0xff) as u8 == b0 && ((v >> 8u32) & 0xff) as u8 == b1 && ((v >> 16u32)
        & 0xff) as u8 == b2 && (v >> 24u32) as u8 == b3) by (bit_vector)
        requires
            v == ((b0 as u32) | ((b1 as u32) << 8u32) | ((b2 as u32) << 16u32) | ((b3 as u32)
                << 24u32)) as u32,
    ;
}

pub proof fn lemma_le64_canonical(s: Seq<u8>)
    requires
        s.len() == 8,
    ensures
        le64(from_le64(s)) =~= s,
{
    let lo = from_le32(s);
    let hi = from_le32(s.subrange(4, 8));
    let v = from_le64(s);
    assert((v & 0xffff_ffff) as u32 == lo && (v >> 32u64) as u32 == hi) by (bit_vector)
        requires
            v == ((lo as u64) | ((hi as u64) << 32u64)) as u64,
    ;
    lemma_le32_canonical(s.subrange(0, 4));
    lemma_le32_canonical(s.subrange(4, 8));
    assert(from_le32(s.subrange(0, 4)) == lo);
    assert(s =~= s.subrange(0, 4) + s.subrange(4, 8));
}

pub proof fn lemma_i16_roundtrip(v: i16)
    ensures
        (v as u16) as i16 == v,
{
    assert((v as u16) as i16 == v) by (bit_vector);
}

pub proof fn lemma_i64_roundtrip(v: i64)
    ensures
        (v as u64) as i64 == v,
{
    assert((v as u64) as i64 == v) by (bit_vector);
}

pub proof fn lemma_u16_of_i16(v: u16)
    ensures
        ((v as i16) as u16) == v,
{
    assert(((v as i16) as u16) == v) by (bit_vector);
}

/// Appends the little-endian layout of `v`.
pub fn put_u16(bytes: &mut Vec<u8>, v: u16)
    ensures
        final(bytes)@ == old(bytes)@ + le16(v),
{
    bytes.push((v & 0xff) as u8);
    bytes.push((v >> 8) as u8);
    assert(final(bytes)@ =~= old(bytes)@ + le16(v));
}

/// Appends the little-endian layout of `v`.
pub fn put_i16(bytes: &mut Vec<u8>, v: i16)
    ensures
        final(bytes)@ == old(bytes)@ + le_i16(v),
{
    put_u16(bytes, v as u16);
}

/// Appends the little-endian layout of `v`.
pub fn put_u32(bytes: &mut Vec<u8>, v: u32)
    ensures
        final(bytes)@ == old(bytes)@ + le32(v),
{
    bytes.push((v & 0xff) as u8);
    bytes.push(((v >> 8) & 0xff) as u8);
    bytes.push(((v >> 16) & 0xff) as u8);
    bytes.push((v >> 24) as u8);
    assert(final(bytes)@ =~= old(bytes)@ + le32(v));
}

/// Appends the little-endian layout of `v`.
pub fn put_u64(bytes: &mut Vec<u8>, v: u64)
    ensures
        final(bytes)@ == old(bytes)@ + le64(v),
{
    let ghost start = bytes@;
    put_u32(bytes, (v & 0xffff_ffff) as u32);
    put_u32(bytes, (v >> 32) as u32);
    assert(final(bytes)@ =~= start + le64(v));
}

/// Appends the little-endian layout of `v`.
pub fn put_i64(bytes: &mut Vec<u8>, v: i64)
    ensures
        final(bytes)@ == old(bytes)@ + le_i64(v),
{
    put_u64(bytes, v as u64);
}

/// Appends every byte of `data`.
pub fn put_bytes(bytes: &mut Vec<u8>, data: &[u8])
    ensures
        final(bytes)@ == old(bytes)@ + data@,
{
    let ghost start = bytes@;
    let mut i: usize = 0;
    while i < data.len()
        invariant
            i <= data.len(),
            bytes@ == start + data@.subrange(0, i as int),
        decreases data.len() - i,
    {
        bytes.push(data[i]);
        i = i + 1;
        assert(bytes@ =~= start + data@.subrange(0, i as int));
    }
    assert(data@.subrange(0, data.len() as int) =~= data@);
}

/// Reads the little-endian `u16` at `offset`.
pub fn get_u16(bytes: &[u8], offset: usize) -> (r: u16)
    requires
        offset + 2 <= bytes@.len(),
    ensures
        r == from_le16(bytes@.subrange(offset as int, offset + 2)),
{
    ((bytes[offset] as u16) | ((bytes[offset + 1] as u16) << 8)) as u16
}

/// Reads the little-endian `u32` at `offset`.
pub fn get_u32(bytes: &[u8], offset: usize) -> (r: u32)
    requires
        offset + 4 <= bytes@.len(),
    ensures
        r == from_le32(bytes@.subrange(offset as int, offset + 4)),
{
    ((bytes[offset] as u32) | ((bytes[offset + 1] as u32) << 8) | ((bytes[offset + 2] as u32)
        << 16) | ((bytes[offset + 3] as u32) << 24)) as u32
}

/// Reads the little-endian `u64` at `offset`.
pub fn get_u64(bytes: &[u8], offset: usize) -> (r: u64)
    requires
        offset + 8 <= bytes@.len(),
    ensures
        r == from_le64(bytes@.subrange(offset as int, offset + 8)),
{
    let lo = get_u32(bytes, offset);
    let len = bytes.len();
    let hi = get_u32(bytes, offset + 4);
    assert(bytes@.subrange(offset as int, offset + 8).subrange(4, 8) =~= bytes@.subrange(
        offset + 4,
        offset + 8,
    ));
    assert(from_le32(bytes@.subrange(offset as int, offset + 8)) == from_le32(
        bytes@.subrange(offset as int, offset + 4),
    ));
    ((lo as u64) | ((hi as u64) << 32)) as u64
}

} // verus!
