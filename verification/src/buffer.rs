//! The byte buffer of the `bytes` crate as the codec sees it: a sequence of
//! bytes that grows at the back and is consumed from the front.
//!
//! Nothing in this file is proved. Each item states, over [`contents`], what
//! the named function of `bytes` does; the codec is verified against these
//! statements.

use vstd::prelude::*;
use bytes::{Buf, BufMut, BytesMut};
use crate::common::{be_u16, be_u32, be_u64, u16_be, u32_be, u64_be};

verus! {

/// `bytes::BytesMut`, carried as an opaque value.
#[verifier::external_type_specification]
#[verifier::external_body]
pub struct ExBytesMut(bytes::BytesMut);

/// The bytes that a buffer holds, front first: what `BytesMut` derefs to as a
/// slice.
pub uninterp spec fn contents(b: BytesMut) -> Seq<u8>;

/// `BytesMut::new`: a buffer that holds nothing.
pub assume_specification[ BytesMut::new ]() -> (b: BytesMut)
    ensures
        contents(b) == Seq::<u8>::empty(),
;

/// `BytesMut::with_capacity`: a buffer that holds nothing, whatever room was
/// asked for. The request is passed to `Vec::with_capacity`, which panics
/// above `isize::MAX` bytes.
pub assume_specification[ BytesMut::with_capacity ](capacity: usize) -> (b: BytesMut)
    requires
        capacity <= isize::MAX,
    ensures
        contents(b) == Seq::<u8>::empty(),
;

/// `BytesMut::len`: the number of bytes held.
pub assume_specification[ BytesMut::len ](b: &BytesMut) -> (n: usize)
    ensures
        n == contents(*b).len(),
;

/// `BytesMut::split_to`: hands out the first `at` bytes as a buffer of their
/// own and keeps the rest. It panics when `at` is more than the buffer holds.
pub assume_specification[ BytesMut::split_to ](b: &mut BytesMut, at: usize) -> (front: BytesMut)
    requires
        at <= contents(*old(b)).len(),
    ensures
        contents(front) == contents(*old(b)).take(at as int),
        contents(*final(b)) == contents(*old(b)).skip(at as int),
;

/// `BytesMut::extend_from_slice`: appends the slice. It reserves room first,
/// which panics when the new length cannot be a capacity. Whether the machine
/// has that much memory is not part of what is stated.
pub assume_specification[ BytesMut::extend_from_slice ](b: &mut BytesMut, extend: &[u8])
    requires
        contents(*old(b)).len() + extend@.len() <= isize::MAX,
    ensures
        contents(*final(b)) == contents(*old(b)) + extend@,
;

/// `Buf::has_remaining` on a `BytesMut`: whether the buffer holds any byte.
#[verifier::external_body]
pub(crate) fn has_remaining(b: &BytesMut) -> (r: bool)
    ensures
        r == (contents(*b).len() > 0),
{
    b.has_remaining()
}

/// `Buf::get_u8` on a `BytesMut`: takes the first byte off the front. It
/// panics on an empty buffer.
#[verifier::external_body]
pub(crate) fn get_u8(b: &mut BytesMut) -> (v: u8)
    requires
        contents(*old(b)).len() >= 1,
    ensures
        v == contents(*old(b))[0],
        contents(*final(b)) == contents(*old(b)).skip(1),
{
    b.get_u8()
}

/// `Buf::get_u16` on a `BytesMut`: takes two bytes off the front and reads
/// them as a big-endian number. It panics when fewer are held.
#[verifier::external_body]
pub(crate) fn get_u16(b: &mut BytesMut) -> (v: u16)
    requires
        contents(*old(b)).len() >= 2,
    ensures
        v == be_u16(contents(*old(b))),
        contents(*final(b)) == contents(*old(b)).skip(2),
{
    b.get_u16()
}

/// `Buf::get_u32` on a `BytesMut`: takes four bytes off the front and reads
/// them as a big-endian number. It panics when fewer are held.
#[verifier::external_body]
pub(crate) fn get_u32(b: &mut BytesMut) -> (v: u32)
    requires
        contents(*old(b)).len() >= 4,
    ensures
        v == be_u32(contents(*old(b))),
        contents(*final(b)) == contents(*old(b)).skip(4),
{
    b.get_u32()
}

/// `Buf::get_u64` on a `BytesMut`: takes eight bytes off the front and reads
/// them as a big-endian number. It panics when fewer are held.
#[verifier::external_body]
pub(crate) fn get_u64(b: &mut BytesMut) -> (v: u64)
    requires
        contents(*old(b)).len() >= 8,
    ensures
        v == be_u64(contents(*old(b))),
        contents(*final(b)) == contents(*old(b)).skip(8),
{
    b.get_u64()
}

/// `BufMut::put_u8` on a `BytesMut`: appends the byte, growing the buffer as
/// `extend_from_slice` does.
#[verifier::external_body]
pub(crate) fn put_u8(b: &mut BytesMut, v: u8)
    requires
        contents(*old(b)).len() + 1 <= isize::MAX,
    ensures
        contents(*final(b)) == contents(*old(b)).push(v),
{
    b.put_u8(v)
}

/// `BufMut::put_u16` on a `BytesMut`: appends the number's two bytes in
/// big-endian order.
#[verifier::external_body]
pub(crate) fn put_u16(b: &mut BytesMut, v: u16)
    requires
        contents(*old(b)).len() + 2 <= isize::MAX,
    ensures
        contents(*final(b)) == contents(*old(b)) + u16_be(v),
{
    b.put_u16(v)
}

/// `BufMut::put_u32` on a `BytesMut`: appends the number's four bytes in
/// big-endian order.
#[verifier::external_body]
pub(crate) fn put_u32(b: &mut BytesMut, v: u32)
    requires
        contents(*old(b)).len() + 4 <= isize::MAX,
    ensures
        contents(*final(b)) == contents(*old(b)) + u32_be(v),
{
    b.put_u32(v)
}

/// `BufMut::put_u64` on a `BytesMut`: appends the number's eight bytes in
/// big-endian order.
#[verifier::external_body]
pub(crate) fn put_u64(b: &mut BytesMut, v: u64)
    requires
        contents(*old(b)).len() + 8 <= isize::MAX,
    ensures
        contents(*final(b)) == contents(*old(b)) + u64_be(v),
{
    b.put_u64(v)
}

} // verus!
