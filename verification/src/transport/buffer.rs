//! Growable byte buffers of the `bytes` crate, and big-endian numbers.

use bytes::{BufMut, BytesMut};
use vstd::prelude::*;

verus! {

/// The byte buffer type of the `bytes` crate.
#[verifier::external_type_specification]
#[verifier::external_body]
pub struct ExBytesMut(bytes::BytesMut);

/// The bytes that a buffer holds.
pub uninterp spec fn buffer_bytes(buffer: BytesMut) -> Seq<u8>;

/// The two bytes of a 16-bit number, the high one first.
pub open spec fn be16(n: u16) -> Seq<u8> {
    seq![(n / 256) as u8, (n % 256) as u8]
}

/// The four bytes of a 32-bit number, the high one first.
pub open spec fn be32(n: u32) -> Seq<u8> {
    seq![
        (n / 0x100_0000) as u8,
        (n / 0x1_0000 % 256) as u8,
        (n / 256 % 256) as u8,
        (n % 256) as u8,
    ]
}

/// The 16-bit number that two bytes stand for, the high one first.
pub open spec fn be16_value(bytes: Seq<u8>) -> int {
    bytes[0] * 256 + bytes[1]
}

/// The 32-bit number that four bytes stand for, the high one first.
pub open spec fn be32_value(bytes: Seq<u8>) -> int {
    bytes[0] * 0x100_0000 + bytes[1] * 0x1_0000 + bytes[2] * 256 + bytes[3]
}

/// `BytesMut::with_capacity`: a new buffer is empty, whatever room it reserves.
#[verifier::external_body]
pub(crate) fn buffer_with_capacity(capacity: usize) -> (buffer: BytesMut)
    requires
        capacity <= isize::MAX,
    ensures
        buffer_bytes(buffer) == Seq::<u8>::empty(),
{
    BytesMut::with_capacity(capacity)
}

/// `BufMut::put_u8` on a `BytesMut`: the byte comes behind what the buffer held.
#[verifier::external_body]
pub(crate) fn put_u8(buffer: &mut BytesMut, n: u8)
    requires
        buffer_bytes(*old(buffer)).len() + 1 <= isize::MAX,
    ensures
        buffer_bytes(*final(buffer)) == buffer_bytes(*old(buffer)).push(n),
{
    buffer.put_u8(n);
}

/// `BufMut::put_u16` on a `BytesMut`: both bytes come behind what the buffer
/// held, the high one first.
#[verifier::external_body]
pub(crate) fn put_u16(buffer: &mut BytesMut, n: u16)
    requires
        buffer_bytes(*old(buffer)).len() + 2 <= isize::MAX,
    ensures
        buffer_bytes(*final(buffer)) == buffer_bytes(*old(buffer)) + be16(n),
{
    buffer.put_u16(n);
}

/// `BufMut::put_u32` on a `BytesMut`: the four bytes come behind what the buffer
/// held, the high one first.
#[verifier::external_body]
pub(crate) fn put_u32(buffer: &mut BytesMut, n: u32)
    requires
        buffer_bytes(*old(buffer)).len() + 4 <= isize::MAX,
    ensures
        buffer_bytes(*final(buffer)) == buffer_bytes(*old(buffer)) + be32(n),
{
    buffer.put_u32(n);
}

/// `BytesMut::extend_from_slice`: the bytes of the slice come behind what the
/// buffer held.
#[verifier::external_body]
pub(crate) fn put_slice(buffer: &mut BytesMut, bytes: &[u8])
    requires
        buffer_bytes(*old(buffer)).len() + bytes@.len() <= isize::MAX,
    ensures
        buffer_bytes(*final(buffer)) == buffer_bytes(*old(buffer)) + bytes@,
{
    buffer.extend_from_slice(bytes);
}

/// `to_vec` on the slice that a `BytesMut` dereferences to: a copy of what the
/// buffer holds.
#[verifier::external_body]
pub(crate) fn buffer_to_vec(buffer: &BytesMut) -> (bytes: Vec<u8>)
    ensures
        bytes@ == buffer_bytes(*buffer),
{
    buffer.to_vec()
}

/// Reads a big-endian 16-bit number.
pub fn read_be16(bytes: &[u8], at: usize) -> (n: u16)
    requires
        at + 2 <= bytes@.len(),
    ensures
        n == be16_value(bytes@.subrange(at as int, at + 2)),
{
    (bytes[at] as u16) * 256 + bytes[at + 1] as u16
}

/// Reads a big-endian 32-bit number.
pub fn read_be32(bytes: &[u8], at: usize) -> (n: u32)
    requires
        at + 4 <= bytes@.len(),
    ensures
        n == be32_value(bytes@.subrange(at as int, at + 4)),
{
    (bytes[at] as u32) * 0x100_0000 + (bytes[at + 1] as u32) * 0x1_0000 + (bytes[at + 2] as u32) * 256
        + bytes[at + 3] as u32
}

/// Two bytes written high one first read back as the number they came from.
pub proof fn law_be16_round_trip(n: u16)
    ensures
        be16(n).len() == 2,
        be16_value(be16(n)) == n,
{
}

/// Four bytes written high one first read back as the number they came from.
pub proof fn law_be32_round_trip(n: u32)
    ensures
        be32(n).len() == 4,
        be32_value(be32(n)) == n,
{
}

/// Numbers are written and read with the high byte first: each byte counts 256 times the
/// one behind it.
pub proof fn law_high_byte_first(n: u16, m: u32, bytes: Seq<u8>)
    ensures
        be16(n).len() == 2,
        be16(n)[0] * 256 + be16(n)[1] == n,
        be32(m).len() == 4,
        ((be32(m)[0] * 256 + be32(m)[1]) * 256 + be32(m)[2]) * 256 + be32(m)[3] == m,
        bytes.len() >= 2 ==> be16_value(bytes) == bytes[0] * 256 + bytes[1],
        bytes.len() >= 4 ==> be32_value(bytes) == ((bytes[0] * 256 + bytes[1]) * 256 + bytes[2]) * 256
            + bytes[3],
{
}

} // verus!
