//! Big-endian integers in bytes (through byteorder) and the CRC-32C checksum
//! (through crc), which the needle and index formats use.
use vstd::prelude::*;
use byteorder::{BigEndian, ByteOrder};

verus! {

/// The two bytes of `n`, most significant first.
pub open spec fn be_u16_bytes(n: u16) -> Seq<u8> {
    seq![(n >> 8u16) as u8, n as u8]
}

/// The four bytes of `n`, most significant first.
pub open spec fn be_u32_bytes(n: u32) -> Seq<u8> {
    seq![(n >> 24u32) as u8, (n >> 16u32) as u8, (n >> 8u32) as u8, n as u8]
}

/// The eight bytes of `n`, most significant first.
pub open spec fn be_u64_bytes(n: u64) -> Seq<u8> {
    seq![
        (n >> 56u64) as u8,
        (n >> 48u64) as u8,
        (n >> 40u64) as u8,
        (n >> 32u64) as u8,
        (n >> 24u64) as u8,
        (n >> 16u64) as u8,
        (n >> 8u64) as u8,
        n as u8,
    ]
}

/// The u16 that the first two bytes of `b` spell, most significant first.
pub open spec fn be_u16_value(b: Seq<u8>) -> u16 {
    ((b[0] as u16) << 8u16) | (b[1] as u16)
}

/// The u32 that the first four bytes of `b` spell, most significant first.
pub open spec fn be_u32_value(b: Seq<u8>) -> u32 {
    ((b[0] as u32) << 24u32) | ((b[1] as u32) << 16u32) | ((b[2] as u32) << 8u32) | (b[3] as u32)
}

/// The u64 that the first eight bytes of `b` spell, most significant first.
pub open spec fn be_u64_value(b: Seq<u8>) -> u64 {
    ((b[0] as u64) << 56u64) | ((b[1] as u64) << 48u64) | ((b[2] as u64) << 40u64) | ((
    b[3] as u64) << 32u64) | ((b[4] as u64) << 24u64) | ((b[5] as u64) << 16u64) | ((
    b[6] as u64) << 8u64) | (b[7] as u64)
}

/// The CRC-32C (Castagnoli) checksum of `data`, as the crc crate computes it.
pub uninterp spec fn crc32c(data: Seq<u8>) -> u32;

/// byteorder's `BigEndian::read_u16`: the first two bytes of `buf`, most significant
/// first. It panics on fewer than two bytes, which `requires` rules out.
#[verifier::external_body]
pub(crate) fn read_u16_be(buf: &[u8]) -> (r: u16)
    requires
        buf@.len() >= 2,
    ensures
        r == be_u16_value(buf@),
{
    BigEndian::read_u16(buf)
}

/// byteorder's `BigEndian::read_u32`: the first four bytes of `buf`, most significant
/// first. It panics on fewer than four bytes, which `requires` rules out.
#[verifier::external_body]
pub(crate) fn read_u32_be(buf: &[u8]) -> (r: u32)
    requires
        buf@.len() >= 4,
    ensures
        r == be_u32_value(buf@),
{
    BigEndian::read_u32(buf)
}

/// byteorder's `BigEndian::read_u64`: the first eight bytes of `buf`, most significant
/// first. It panics on fewer than eight bytes, which `requires` rules out.
#[verifier::external_body]
pub(crate) fn read_u64_be(buf: &[u8]) -> (r: u64)
    requires
        buf@.len() >= 8,
    ensures
        r == be_u64_value(buf@),
{
    BigEndian::read_u64(buf)
}

/// byteorder's `BigEndian::write_u16` into a two-byte buffer: the bytes of `n`, most
/// significant first.
#[verifier::external_body]
pub(crate) fn u16_be_bytes(n: u16) -> (r: [u8; 2])
    ensures
        r@ == be_u16_bytes(n),
{
    let mut buf = [0u8; 2];
    BigEndian::write_u16(&mut buf, n);
    buf
}

/// byteorder's `BigEndian::write_u32` into a four-byte buffer: the bytes of `n`, most
/// significant first.
#[verifier::external_body]
pub(crate) fn u32_be_bytes(n: u32) -> (r: [u8; 4])
    ensures
        r@ == be_u32_bytes(n),
{
    let mut buf = [0u8; 4];
    BigEndian::write_u32(&mut buf, n);
    buf
}

/// byteorder's `BigEndian::write_u64` into an eight-byte buffer: the bytes of `n`, most
/// significant first.
#[verifier::external_body]
pub(crate) fn u64_be_bytes(n: u64) -> (r: [u8; 8])
    ensures
        r@ == be_u64_bytes(n),
{
    let mut buf = [0u8; 8];
    BigEndian::write_u64(&mut buf, n);
    buf
}

/// crc's `crc32::checksum_castagnoli`: the CRC-32C checksum of `bytes`. Its value is
/// named, not stated: it depends on `bytes` alone.
#[verifier::external_body]
pub(crate) fn checksum_castagnoli(bytes: &[u8]) -> (r: u32)
    ensures
        r == crc32c(bytes@),
{
    crc::crc32::checksum_castagnoli(bytes)
}

/// Appends the two big-endian bytes of `n` to `w`.
pub fn push_u16_be(w: &mut Vec<u8>, n: u16)
    ensures
        final(w)@ == old(w)@ + be_u16_bytes(n),
{
    let b = u16_be_bytes(n);
    w.push(b[0]);
    w.push(b[1]);
    assert(w@ =~= old(w)@ + be_u16_bytes(n));
}

/// Appends the four big-endian bytes of `n` to `w`.
pub fn push_u32_be(w: &mut Vec<u8>, n: u32)
    ensures
        final(w)@ == old(w)@ + be_u32_bytes(n),
{
    let b = u32_be_bytes(n);
    w.push(b[0]);
    w.push(b[1]);
    w.push(b[2]);
    w.push(b[3]);
    assert(w@ =~= old(w)@ + be_u32_bytes(n));
}

/// Appends the eight big-endian bytes of `n` to `w`.
pub fn push_u64_be(w: &mut Vec<u8>, n: u64)
    ensures
        final(w)@ == old(w)@ + be_u64_bytes(n),
{
    let b = u64_be_bytes(n);
    let mut i: usize = 0;
    while i < 8
        invariant
            i <= 8,
            b@ == be_u64_bytes(n),
            w@ =~= old(w)@ + b@.subrange(0, i as int),
        decreases 8 - i,
    {
        w.push(b[i]);
        i = i + 1;
        assert(w@ =~= old(w)@ + b@.subrange(0, i as int));
    }
    assert(b@.subrange(0, 8) =~= b@);
}

/// Reading back the bytes of a u16 gives the u16.
pub proof fn lemma_be_u16_roundtrip(n: u16)
    ensures
        be_u16_value(be_u16_bytes(n)) == n,
{
    let b = be_u16_bytes(n);
    assert(((((n >> 8u16) as u8) as u16) << 8u16) | ((n as u8) as u16) == n) by (bit_vector);
}

/// Reading back the bytes of a u32 gives the u32.
pub proof fn lemma_be_u32_roundtrip(n: u32)
    ensures
        be_u32_value(be_u32_bytes(n)) == n,
{
    assert(((((n >> 24u32) as u8) as u32) << 24u32) | ((((n >> 16u32) as u8) as u32) << 16u32)
        | ((((n >> 8u32) as u8) as u32) << 8u32) | ((n as u8) as u32) == n) by (bit_vector);
}

/// Reading back the bytes of a u64 gives the u64.
pub proof fn lemma_be_u64_roundtrip(n: u64)
    ensures
        be_u64_value(be_u64_bytes(n)) == n,
{
    assert(((((n >> 56u64) as u8) as u64) << 56u64) | ((((n >> 48u64) as u8) as u64) << 48u64)
        | ((((n >> 40u64) as u8) as u64) << 40u64) | ((((n >> 32u64) as u8) as u64) << 32u64)
        | ((((n >> 24u64) as u8) as u64) << 24u64) | ((((n >> 16u64) as u8) as u64) << 16u64)
        | ((((n >> 8u64) as u8) as u64) << 8u64) | ((n as u8) as u64) == n) by (bit_vector);
}

} // verus!
