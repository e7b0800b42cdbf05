//! The byte buffer that the codec reads from: `bytes::BytesMut`, seen through
//! the sequence of bytes it holds.
//!
//! Nothing in this file is proved. Each item states what the `bytes` crate
//! does, and the rest of the library is verified against these statements.

use bytes::Buf;
use bytes::BytesMut;
use vstd::prelude::*;
use crate::wire::be_value;
use crate::wire::signed8;
use crate::wire::signed16;
use crate::wire::signed32;
use crate::wire::signed64;

verus! {

/// `bytes::BytesMut`. A buffer is opaque here: nothing is known of one but
/// what the items below state of the bytes it holds.
#[verifier::external_type_specification]
#[verifier::external_body]
pub struct ExBytesMut(bytes::BytesMut);

/// The bytes that a buffer holds, front first. Reading consumes from the
/// front; the transport appends at the back.
pub uninterp spec fn contents(buf: BytesMut) -> Seq<u8>;

/// `BytesMut::len`: the number of bytes held.
pub assume_specification[ bytes::BytesMut::len ](buf: &BytesMut) -> (n: usize)
    ensures
        n == contents(*buf).len(),
;

/// `BytesMut::reserve`: makes room for `additional` more bytes and leaves the
/// bytes held as they are. The crate panics when the new capacity overflows,
/// which the precondition rules out as far as the held bytes show it; memory
/// that the allocator cannot provide is outside this model, as it is for `Vec`.
pub assume_specification[ bytes::BytesMut::reserve ](buf: &mut BytesMut, additional: usize)
    requires
        contents(*old(buf)).len() + additional <= isize::MAX,
    ensures
        contents(*final(buf)) == contents(*old(buf)),
;

/// `BytesMut::split_to`: hands out the first `at` bytes as a buffer of their
/// own and keeps the rest. Panics when `at` exceeds the length.
pub assume_specification[ bytes::BytesMut::split_to ](buf: &mut BytesMut, at: usize) -> (front:
    BytesMut)
    requires
        at <= contents(*old(buf)).len(),
    ensures
        contents(front) == contents(*old(buf)).take(at as int),
        contents(*final(buf)) == contents(*old(buf)).skip(at as int),
;

/// `AsRef<[u8]>::as_ref` of `BytesMut`: the held bytes as a slice.
#[verifier::external_body]
pub(crate) fn as_slice(buf: &BytesMut) -> (bytes: &[u8])
    ensures
        bytes@ == contents(*buf),
{
    buf.as_ref()
}

/// `Buf::advance` of `BytesMut`: drops the first `count` bytes. Panics when
/// fewer are held.
#[verifier::external_body]
pub(crate) fn advance(buf: &mut BytesMut, count: usize)
    requires
        count <= contents(*old(buf)).len(),
    ensures
        contents(*final(buf)) == contents(*old(buf)).skip(count as int),
{
    buf.advance(count)
}

/// `Buf::get_u8`: takes the first byte. Panics on an empty buffer.
#[verifier::external_body]
pub(crate) fn get_u8(buf: &mut BytesMut) -> (value: u8)
    requires
        1 <= contents(*old(buf)).len(),
    ensures
        value == contents(*old(buf))[0],
        contents(*final(buf)) == contents(*old(buf)).skip(1),
{
    buf.get_u8()
}

/// `Buf::get_i8`: takes the first byte, read as two's complement. Panics on
/// an empty buffer.
#[verifier::external_body]
pub(crate) fn get_i8(buf: &mut BytesMut) -> (value: i8)
    requires
        1 <= contents(*old(buf)).len(),
    ensures
        value == signed8(contents(*old(buf))[0] as nat),
        contents(*final(buf)) == contents(*old(buf)).skip(1),
{
    buf.get_i8()
}

/// `Buf::get_u16`: takes two bytes as a big-endian number. Panics when fewer
/// are held.
#[verifier::external_body]
pub(crate) fn get_u16(buf: &mut BytesMut) -> (value: u16)
    requires
        2 <= contents(*old(buf)).len(),
    ensures
        value == be_value(contents(*old(buf)).take(2)),
        contents(*final(buf)) == contents(*old(buf)).skip(2),
{
    buf.get_u16()
}

/// `Buf::get_i16`: takes two bytes as a big-endian number in two's
/// complement. Panics when fewer are held.
#[verifier::external_body]
pub(crate) fn get_i16(buf: &mut BytesMut) -> (value: i16)
    requires
        2 <= contents(*old(buf)).len(),
    ensures
        value == signed16(be_value(contents(*old(buf)).take(2))),
        contents(*final(buf)) == contents(*old(buf)).skip(2),
{
    buf.get_i16()
}

/// `Buf::get_u32`: takes four bytes as a big-endian number. Panics when fewer
/// are held.
#[verifier::external_body]
pub(crate) fn get_u32(buf: &mut BytesMut) -> (value: u32)
    requires
        4 <= contents(*old(buf)).len(),
    ensures
        value == be_value(contents(*old(buf)).take(4)),
        contents(*final(buf)) == contents(*old(buf)).skip(4),
{
    buf.get_u32()
}

/// `Buf::get_i32`: takes four bytes as a big-endian number in two's
/// complement. Panics when fewer are held.
#[verifier::external_body]
pub(crate) fn get_i32(buf: &mut BytesMut) -> (value: i32)
    requires
        4 <= contents(*old(buf)).len(),
    ensures
        value == signed32(be_value(contents(*old(buf)).take(4))),
        contents(*final(buf)) == contents(*old(buf)).skip(4),
{
    buf.get_i32()
}

/// `Buf::get_u64`: takes eight bytes as a big-endian number. Panics when
/// fewer are held.
#[verifier::external_body]
pub(crate) fn get_u64(buf: &mut BytesMut) -> (value: u64)
    requires
        8 <= contents(*old(buf)).len(),
    ensures
        value == be_value(contents(*old(buf)).take(8)),
        contents(*final(buf)) == contents(*old(buf)).skip(8),
{
    buf.get_u64()
}

/// `Buf::get_i64`: takes eight bytes as a big-endian number in two's
/// complement. Panics when fewer are held.
#[verifier::external_body]
pub(crate) fn get_i64(buf: &mut BytesMut) -> (value: i64)
    requires
        8 <= contents(*old(buf)).len(),
    ensures
        value == signed64(be_value(contents(*old(buf)).take(8))),
        contents(*final(buf)) == contents(*old(buf)).skip(8),
{
    buf.get_i64()
}

} // verus!
