//! The receive buffers of `tokio_core` and `bytes`.
use byteorder::{BigEndian, ReadBytesExt};
use bytes::BytesMut;
use tokio_core::io::EasyBuf;
use vstd::prelude::*;

verus! {

/// A receive buffer of `tokio_core`.
#[verifier::external_type_specification]
#[verifier::external_body]
pub struct ExEasyBuf(tokio_core::io::EasyBuf);

/// The bytes in a buffer.
pub uninterp spec fn easy_buf_bytes(buf: EasyBuf) -> Seq<u8>;

/// `EasyBuf::new`: an empty buffer.
#[verifier::external_body]
pub(crate) fn easy_buf_new() -> (r: EasyBuf)
    ensures
        easy_buf_bytes(r) == Seq::<u8>::empty(),
{
    EasyBuf::new()
}

/// `EasyBuf::get_mut`, and `extend_from_slice` on what it gives: appends the bytes.
#[verifier::external_body]
pub(crate) fn easy_buf_append(buf: &mut EasyBuf, data: &[u8])
    ensures
        easy_buf_bytes(*final(buf)) == easy_buf_bytes(*old(buf)) + data@,
{
    buf.get_mut().extend_from_slice(data);
}

/// `EasyBuf::as_slice`: the bytes in the buffer.
#[verifier::external_body]
pub(crate) fn easy_buf_as_slice(buf: &EasyBuf) -> (r: &[u8])
    ensures
        r@ == easy_buf_bytes(*buf),
{
    buf.as_slice()
}

/// `EasyBuf::drain_to`: cuts the first `at` bytes off and returns them. It panics where there are
/// fewer.
#[verifier::external_body]
pub(crate) fn easy_buf_drain_to(buf: &mut EasyBuf, at: usize) -> (r: Vec<u8>)
    requires
        at <= easy_buf_bytes(*old(buf)).len(),
    ensures
        r@ == easy_buf_bytes(*old(buf)).take(at as int),
        easy_buf_bytes(*final(buf)) == easy_buf_bytes(*old(buf)).skip(at as int),
{
    buf.drain_to(at).as_slice().to_vec()
}

/// A buffer of `bytes`.
#[verifier::external_type_specification]
#[verifier::external_body]
pub struct ExBytesMut(bytes::BytesMut);

/// The bytes in a buffer.
pub uninterp spec fn bytes_mut_bytes(buf: BytesMut) -> Seq<u8>;

/// `BytesMut::with_capacity`: an empty buffer. It panics where there cannot be that much room.
#[verifier::external_body]
pub(crate) fn bytes_mut_with_capacity(capacity: usize) -> (r: BytesMut)
    requires
        capacity <= isize::MAX,
    ensures
        bytes_mut_bytes(r) == Seq::<u8>::empty(),
{
    BytesMut::with_capacity(capacity)
}

/// `BytesMut::extend_from_slice`: appends the bytes, with more room where it is needed.
#[verifier::external_body]
pub(crate) fn bytes_mut_extend(buf: &mut BytesMut, data: &[u8])
    ensures
        bytes_mut_bytes(*final(buf)) == bytes_mut_bytes(*old(buf)) + data@,
{
    buf.extend_from_slice(data);
}

/// `BytesMut::len`: how many bytes are in the buffer.
#[verifier::external_body]
pub(crate) fn bytes_mut_len(buf: &BytesMut) -> (r: usize)
    ensures
        r == bytes_mut_bytes(*buf).len(),
{
    buf.len()
}

/// `BytesMut::split_to`: cuts the first `at` bytes off and returns them. It panics where there are
/// fewer.
#[verifier::external_body]
pub(crate) fn bytes_mut_split_to(buf: &mut BytesMut, at: usize) -> (r: Vec<u8>)
    requires
        at <= bytes_mut_bytes(*old(buf)).len(),
    ensures
        r@ == bytes_mut_bytes(*old(buf)).take(at as int),
        bytes_mut_bytes(*final(buf)) == bytes_mut_bytes(*old(buf)).skip(at as int),
{
    buf.split_to(at).to_vec()
}

/// The number that eight bytes stand for, most significant first.
pub open spec fn be64(s: Seq<u8>) -> u64 {
    (s[0] * 0x100_0000_0000_0000 + s[1] * 0x1_0000_0000_0000 + s[2] * 0x100_0000_0000 + s[3]
        * 0x1_0000_0000 + s[4] * 0x100_0000 + s[5] * 0x1_0000 + s[6] * 0x100 + s[7]) as u64
}

/// `read_u64::<BigEndian>` of `byteorder`, on a slice of eight bytes or more.
#[verifier::external_body]
pub(crate) fn read_u64(bytes: &[u8]) -> (r: u64)
    requires
        bytes@.len() >= 8,
    ensures
        r == be64(bytes@),
{
    let mut reader: &[u8] = bytes;
    reader.read_u64::<BigEndian>().unwrap()
}

} // verus!
