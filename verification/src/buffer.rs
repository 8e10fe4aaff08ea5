//! The growable output buffer that encoders append to.
//!
//! The buffer is `bytes::BytesMut`. Its code is not verified here: what each
//! of its methods does to the bytes it holds is stated below and taken on
//! trust. Everything else in this crate is proved against these statements.

use crate::wire::{as_i32, be_u32, bits_i16, bits_i32, bits_i64, bits_i8, u16_be, u32_be, u64_be};
use bytes::Buf;
use bytes::BufMut;
use bytes::BytesMut;
use vstd::prelude::*;

verus! {

/// `bytes::BytesMut`, carried as a value whose inside is not looked at.
#[verifier::external_type_specification]
#[verifier::external_body]
pub struct ExBytesMut(BytesMut);

/// The bytes that a buffer holds, first written first.
pub uninterp spec fn written(buf: BytesMut) -> Seq<u8>;

/// Whether `n` more bytes fit: a buffer never holds more than `isize::MAX`.
pub open spec fn fits(buf: BytesMut, n: int) -> bool {
    written(buf).len() + n <= isize::MAX
}

/// `BytesMut::len`: the number of bytes held.
#[verifier::external_body]
pub(crate) fn buffer_len(buf: &BytesMut) -> (n: usize)
    ensures
        n == written(*buf).len(),
{
    buf.len()
}

/// `BufMut::put_u8` on `BytesMut`: appends the byte. It panics where the
/// buffer has no room left, which the precondition rules out.
#[verifier::external_body]
pub(crate) fn put_u8(buf: &mut BytesMut, n: u8)
    requires
        fits(*old(buf), 1),
    ensures
        written(*final(buf)) == written(*old(buf)).push(n),
{
    buf.put_u8(n)
}

/// `BufMut::put_i8` on `BytesMut`: appends the byte that stands for `n` in
/// two's complement. It panics where the buffer has no room left, which the
/// precondition rules out.
#[verifier::external_body]
pub(crate) fn put_i8(buf: &mut BytesMut, n: i8)
    requires
        fits(*old(buf), 1),
    ensures
        written(*final(buf)) == written(*old(buf)).push(bits_i8(n)),
{
    buf.put_i8(n)
}

/// `BufMut::put_u16` on `BytesMut`: appends the two bytes of `n`, most
/// significant first. It panics where the buffer has no room left, which the
/// precondition rules out.
#[verifier::external_body]
pub(crate) fn put_u16(buf: &mut BytesMut, n: u16)
    requires
        fits(*old(buf), 2),
    ensures
        written(*final(buf)) == written(*old(buf)) + u16_be(n),
{
    buf.put_u16(n)
}

/// `BufMut::put_i16` on `BytesMut`: appends the two bytes of the two's
/// complement pattern of `n`, most significant first. It panics where the
/// buffer has no room left, which the precondition rules out.
#[verifier::external_body]
pub(crate) fn put_i16(buf: &mut BytesMut, n: i16)
    requires
        fits(*old(buf), 2),
    ensures
        written(*final(buf)) == written(*old(buf)) + u16_be(bits_i16(n)),
{
    buf.put_i16(n)
}

/// `BufMut::put_u32` on `BytesMut`: appends the four bytes of `n`, most
/// significant first. It panics where the buffer has no room left, which the
/// precondition rules out.
#[verifier::external_body]
pub(crate) fn put_u32(buf: &mut BytesMut, n: u32)
    requires
        fits(*old(buf), 4),
    ensures
        written(*final(buf)) == written(*old(buf)) + u32_be(n),
{
    buf.put_u32(n)
}

/// `BufMut::put_i32` on `BytesMut`: appends the four bytes of the two's
/// complement pattern of `n`, most significant first. It panics where the
/// buffer has no room left, which the precondition rules out.
#[verifier::external_body]
pub(crate) fn put_i32(buf: &mut BytesMut, n: i32)
    requires
        fits(*old(buf), 4),
    ensures
        written(*final(buf)) == written(*old(buf)) + u32_be(bits_i32(n)),
{
    buf.put_i32(n)
}

/// `BufMut::put_u64` on `BytesMut`: appends the eight bytes of `n`, most
/// significant first. It panics where the buffer has no room left, which the
/// precondition rules out.
#[verifier::external_body]
pub(crate) fn put_u64(buf: &mut BytesMut, n: u64)
    requires
        fits(*old(buf), 8),
    ensures
        written(*final(buf)) == written(*old(buf)) + u64_be(n),
{
    buf.put_u64(n)
}

/// `BufMut::put_i64` on `BytesMut`: appends the eight bytes of the two's
/// complement pattern of `n`, most significant first. It panics where the
/// buffer has no room left, which the precondition rules out.
#[verifier::external_body]
pub(crate) fn put_i64(buf: &mut BytesMut, n: i64)
    requires
        fits(*old(buf), 8),
    ensures
        written(*final(buf)) == written(*old(buf)) + u64_be(bits_i64(n)),
{
    buf.put_i64(n)
}

/// `Buf::get_i32` on a byte slice: the first four bytes read as a big-endian
/// pattern in two's complement, and the slice moved on behind them. It
/// panics on a shorter slice, which the precondition rules out.
#[verifier::external_body]
pub(crate) fn get_i32<'a>(buf: &mut &'a [u8]) -> (r: i32)
    requires
        old(buf)@.len() >= 4,
    ensures
        r == as_i32(be_u32(old(buf)@.subrange(0, 4))),
        final(buf)@ == old(buf)@.subrange(4, old(buf)@.len() as int),
{
    buf.get_i32()
}

/// Whether `n` more bytes fit in the buffer.
pub fn has_room(buf: &BytesMut, n: usize) -> (r: bool)
    ensures
        r == fits(*buf, n as int),
{
    let held = buffer_len(buf);
    let limit = isize::MAX as usize;
    held <= limit && n <= limit - held
}

/// `BufMut::put_slice` on `BytesMut`: appends the bytes of `src` in order.
/// It panics where the buffer has no room left, which the precondition rules
/// out.
#[verifier::external_body]
pub(crate) fn put_slice(buf: &mut BytesMut, src: &[u8])
    requires
        fits(*old(buf), src@.len() as int),
    ensures
        written(*final(buf)) == written(*old(buf)) + src@,
{
    buf.put_slice(src)
}

} // verus!
