use vstd::prelude::*;

use crate::error::Error;

verus! {

/// Big-endian bytes of a 16-bit value.
pub open spec fn be16(v: u16) -> Seq<u8> {
    seq![(v >> 8u16) as u8, v as u8]
}

/// Big-endian bytes of a 32-bit value.
pub open spec fn be32(v: u32) -> Seq<u8> {
    seq![(v >> 24u32) as u8, (v >> 16u32) as u8, (v >> 8u32) as u8, v as u8]
}

/// Big-endian bytes of a 64-bit value.
pub open spec fn be64(v: u64) -> Seq<u8> {
    seq![
        (v >> 56u64) as u8,
        (v >> 48u64) as u8,
        (v >> 40u64) as u8,
        (v >> 32u64) as u8,
        (v >> 24u64) as u8,
        (v >> 16u64) as u8,
        (v >> 8u64) as u8,
        v as u8,
    ]
}

/// The value of two big-endian bytes.
pub open spec fn u16_of(b: Seq<u8>) -> u16
    recommends
        b.len() == 2,
{
    ((b[0] as u16) << 8u16) | (b[1] as u16)
}

/// The value of four big-endian bytes.
pub open spec fn u32_of(b: Seq<u8>) -> u32
    recommends
        b.len() == 4,
{
    ((b[0] as u32) << 24u32) | ((b[1] as u32) << 16u32) | ((b[2] as u32) << 8u32) | (b[3] as u32)
}

/// The value of eight big-endian bytes.
pub open spec fn u64_of(b: Seq<u8>) -> u64
    recommends
        b.len() == 8,
{
    ((b[0] as u64) << 56u64) | ((b[1] as u64) << 48u64) | ((b[2] as u64) << 40u64) | ((b[3] as u64)
        << 32u64) | ((b[4] as u64) << 24u64) | ((b[5] as u64) << 16u64) | ((b[6] as u64) << 8u64)
        | (b[7] as u64)
}

/// Decodes a big-endian 16-bit value; any width but 2 is refused.
pub fn slice_to_u16(bytes: &[u8]) -> (r: Result<u16, Error>)
    ensures
        r == (if bytes@.len() == 2 {
            Ok::<u16, Error>(u16_of(bytes@))
        } else {
            Err::<u16, Error>(Error::BadSliceLength)
        }),
{
    if bytes.len() != 2 {
        Err(Error::BadSliceLength)
    } else {
        Ok(((bytes[0] as u16) << 8u16) | (bytes[1] as u16))
    }
}

/// Decodes a big-endian 32-bit value; any width but 4 is refused.
pub fn slice_to_u32(bytes: &[u8]) -> (r: Result<u32, Error>)
    ensures
        r == (if bytes@.len() == 4 {
            Ok::<u32, Error>(u32_of(bytes@))
        } else {
            Err::<u32, Error>(Error::BadSliceLength)
        }),
{
    if bytes.len() != 4 {
        Err(Error::BadSliceLength)
    } else {
        Ok(((bytes[0] as u32) << 24u32) | ((bytes[1] as u32) << 16u32) | ((bytes[2] as u32) << 8u32)
            | (bytes[3] as u32))
    }
}

/// Decodes a big-endian 64-bit value; any width but 8 is refused.
pub fn slice_to_u64(bytes: &[u8]) -> (r: Result<u64, Error>)
    ensures
        r == (if bytes@.len() == 8 {
            Ok::<u64, Error>(u64_of(bytes@))
        } else {
            Err::<u64, Error>(Error::BadSliceLength)
        }),
{
    if bytes.len() != 8 {
        Err(Error::BadSliceLength)
    } else {
        Ok(((bytes[0] as u64) << 56u64) | ((bytes[1] as u64) << 48u64) | ((bytes[2] as u64) << 40u64)
            | ((bytes[3] as u64) << 32u64) | ((bytes[4] as u64) << 24u64) | ((bytes[5] as u64)
            << 16u64) | ((bytes[6] as u64) << 8u64) | (bytes[7] as u64))
    }
}

/// Appends the big-endian bytes of `v`.
pub fn push_be16(out: &mut Vec<u8>, v: u16)
    ensures
        final(out)@ == old(out)@ + be16(v),
{
    out.push((v >> 8u16) as u8);
    out.push(v as u8);
    assert(final(out)@ =~= old(out)@ + be16(v));
}

/// Appends the big-endian bytes of `v`.
pub fn push_be32(out: &mut Vec<u8>, v: u32)
    ensures
        final(out)@ == old(out)@ + be32(v),
{
    out.push((v >> 24u32) as u8);
    out.push((v >> 16u32) as u8);
    out.push((v >> 8u32) as u8);
    out.push(v as u8);
    assert(final(out)@ =~= old(out)@ + be32(v));
}

/// Appends the big-endian bytes of `v`.
pub fn push_be64(out: &mut Vec<u8>, v: u64)
    ensures
        final(out)@ == old(out)@ + be64(v),
{
    out.push((v >> 56u64) as u8);
    out.push((v >> 48u64) as u8);
    out.push((v >> 40u64) as u8);
    out.push((v >> 32u64) as u8);
    out.push((v >> 24u64) as u8);
    out.push((v >> 16u64) as u8);
    out.push((v >> 8u64) as u8);
    out.push(v as u8);
    assert(final(out)@ =~= old(out)@ + be64(v));
}

/// Encoding a 16-bit value and decoding it gives the value back, and decoding
/// two bytes and encoding the value gives the bytes back.
pub proof fn lemma_u16_round_trip(v: u16, b: Seq<u8>)
    requires
        b.len() == 2,
    ensures
        u16_of(be16(v)) == v,
        be16(u16_of(b)) == b,
{
    let (b0, b1) = (b[0], b[1]);
    assert((((((v >> 8u16) as u8) as u16) << 8u16) | ((v as u8) as u16)) == v) by (bit_vector);
    assert(((((((b0 as u16) << 8u16) | (b1 as u16)) >> 8u16) as u8) == b0) && ((((b0 as u16)
        << 8u16) | (b1 as u16)) as u8 == b1)) by (bit_vector);
    assert(be16(u16_of(b)) =~= b);
}

/// Encoding a 32-bit value and decoding it gives the value back, and decoding
/// four bytes and encoding the value gives the bytes back.
pub proof fn lemma_u32_round_trip(v: u32, b: Seq<u8>)
    requires
        b.len() == 4,
    ensures
        u32_of(be32(v)) == v,
        be32(u32_of(b)) == b,
{
    let (b0, b1, b2, b3) = (b[0], b[1], b[2], b[3]);
    assert((((((v >> 24u32) as u8) as u32) << 24u32) | ((((v >> 16u32) as u8) as u32) << 16u32)
        | ((((v >> 8u32) as u8) as u32) << 8u32) | ((v as u8) as u32)) == v) by (bit_vector);
    let x = u32_of(b);
    assert(x == ((b0 as u32) << 24u32) | ((b1 as u32) << 16u32) | ((b2 as u32) << 8u32) | (b3 as u32));
    assert(x == ((b0 as u32) << 24u32) | ((b1 as u32) << 16u32) | ((b2 as u32) << 8u32) | (b3 as u32)
        ==> ((x >> 24u32) as u8 == b0 && (x >> 16u32) as u8 == b1 && (x >> 8u32) as u8 == b2
        && x as u8 == b3)) by (bit_vector);
    assert(be32(u32_of(b)) =~= b);
}

/// Encoding a 64-bit value and decoding it gives the value back, and decoding
/// eight bytes and encoding the value gives the bytes back.
pub proof fn lemma_u64_round_trip(v: u64, b: Seq<u8>)
    requires
        b.len() == 8,
    ensures
        u64_of(be64(v)) == v,
        be64(u64_of(b)) == b,
{
    let (b0, b1, b2, b3, b4, b5, b6, b7) = (b[0], b[1], b[2], b[3], b[4], b[5], b[6], b[7]);
    assert((((((v >> 56u64) as u8) as u64) << 56u64) | ((((v >> 48u64) as u8) as u64) << 48u64)
        | ((((v >> 40u64) as u8) as u64) << 40u64) | ((((v >> 32u64) as u8) as u64) << 32u64)
        | ((((v >> 24u64) as u8) as u64) << 24u64) | ((((v >> 16u64) as u8) as u64) << 16u64)
        | ((((v >> 8u64) as u8) as u64) << 8u64) | ((v as u8) as u64)) == v) by (bit_vector);
    let x = u64_of(b);
    assert(x == ((b0 as u64) << 56u64) | ((b1 as u64) << 48u64) | ((b2 as u64) << 40u64) | ((b3
        as u64) << 32u64) | ((b4 as u64) << 24u64) | ((b5 as u64) << 16u64) | ((b6 as u64) << 8u64)
        | (b7 as u64));
    assert(x == ((b0 as u64) << 56u64) | ((b1 as u64) << 48u64) | ((b2 as u64) << 40u64) | ((b3
        as u64) << 32u64) | ((b4 as u64) << 24u64) | ((b5 as u64) << 16u64) | ((b6 as u64) << 8u64)
        | (b7 as u64) ==> ((x >> 56u64) as u8 == b0 && (x >> 48u64) as u8 == b1 && (x >> 40u64) as u8
        == b2 && (x >> 32u64) as u8 == b3 && (x >> 24u64) as u8 == b4 && (x >> 16u64) as u8 == b5
        && (x >> 8u64) as u8 == b6 && x as u8 == b7)) by (bit_vector);
    assert(be64(u64_of(b)) =~= b);
}

} // verus!

verus! {

/// Appends every byte of `src` to `dst`, in order.
pub fn append_bytes(dst: &mut Vec<u8>, src: &[u8])
    ensures
        final(dst)@ == old(dst)@ + src@,
        final(dst)@.len() <= usize::MAX,
{
    let mut i: usize = 0;
    while i < src.len()
        invariant
            0 <= i <= src@.len(),
            dst@ == old(dst)@ + src@.subrange(0, i as int),
        decreases src@.len() - i,
    {
        dst.push(src[i]);
        i = i + 1;
        assert(dst@ =~= old(dst)@ + src@.subrange(0, i as int));
    }
    assert(src@.subrange(0, i as int) =~= src@);
    // a vector's length is a usize
    let _len: usize = dst.len();
}

} // verus!
