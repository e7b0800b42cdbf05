//! Readers of the primitive field kinds. Each takes its bytes from the front
//! of the buffer, or fails and leaves the buffer as it found it.

use bytes::BytesMut;
use vstd::prelude::*;
use vstd::slice::slice_subrange;
use crate::buffer::advance;
use crate::buffer::as_slice;
use crate::buffer::contents;
use crate::buffer::get_i16;
use crate::buffer::get_i32;
use crate::buffer::get_i64;
use crate::buffer::get_i8;
use crate::buffer::get_u16;
use crate::buffer::get_u32;
use crate::buffer::get_u64;
use crate::buffer::get_u8;
use crate::error::InvalidData;
use crate::error::ProtocolError;
use crate::text::lossy_string;
use crate::text::lossy_text;
use crate::varint::decode_varint;
use crate::varint::decode_varlong;
use crate::varint::lemma_varint_round_trip;
use crate::varint::varint_decoding;
use crate::varint::varint_encoding;
use crate::varint::varlong_decoding;
use crate::wire::be_value;
use crate::wire::signed16;
use crate::wire::signed32;
use crate::wire::signed64;
use crate::wire::signed8;

verus! {

/// A block position, packed into 64 bits on the wire.
#[derive(Debug, Clone, Copy, PartialEq, Eq, Structural)]
pub struct Position {
    pub x: i32,
    pub y: i32,
    pub z: i32,
}

/// A rotation in steps of 1/256 of a full turn.
#[derive(Debug, Clone, Copy, PartialEq, Eq, Structural)]
pub struct Angle(pub u8);

/// The outcome of a reader that needs `n` bytes: with fewer in the buffer it
/// fails and leaves them alone, else it succeeds and takes exactly `n`.
pub open spec fn takes<T>(
    r: Result<T, ProtocolError>,
    before: Seq<u8>,
    after: Seq<u8>,
    n: nat,
) -> bool {
    if before.len() < n {
        r == Err::<T, ProtocolError>(ProtocolError::Io(InvalidData::NotEnoughBytes)) && after
            == before
    } else {
        r is Ok && after == before.skip(n as int)
    }
}

/// The position that a packed 64-bit number holds: `x` in the top 26 bits,
/// `z` in the 26 below, `y` in the low 12. The fields are not sign-extended.
pub open spec fn unpack_position(packed: nat) -> Position {
    Position {
        x: (packed / 0x40_0000_0000) as i32,
        y: (packed % 0x1000) as i32,
        z: ((packed / 0x1000) % 0x400_0000) as i32,
    }
}

/// What the front of `s` holds as a length-prefixed string: the bytes of the
/// text and the number of bytes that prefix and text occupy together.
pub open spec fn string_framing(s: Seq<u8>) -> Result<(Seq<u8>, usize), ProtocolError> {
    match varint_decoding(s) {
        Err(e) => Err(e),
        Ok((length, prefix)) => if length < 0 {
            Err(ProtocolError::Io(InvalidData::NegativeLength))
        } else if s.len() - prefix < length {
            Err(ProtocolError::Io(InvalidData::NotEnoughBytes))
        } else {
            Ok((s.subrange(prefix as int, prefix + length), (prefix + length) as usize))
        },
    }
}

/// Text never fails for what it holds. Any bytes behind a prefix that counts
/// them are found as the bytes of a string, well-formed UTF-8 or not, and what
/// follows them is left; `read_string` then returns their lenient decoding.
pub proof fn lemma_any_bytes_are_text(raw: Seq<u8>, tail: Seq<u8>)
    requires
        raw.len() <= i32::MAX,
    ensures
        string_framing(varint_encoding(raw.len() as i32) + raw + tail) == Ok::<
            (Seq<u8>, usize),
            ProtocolError,
        >((raw, (varint_encoding(raw.len() as i32).len() + raw.len()) as usize)),
{
    let prefix = varint_encoding(raw.len() as i32);
    let s = prefix + raw + tail;
    lemma_varint_round_trip(raw.len() as i32, raw + tail);
    assert(prefix + (raw + tail) =~= s);
    assert(s.subrange(prefix.len() as int, (prefix.len() + raw.len()) as int) =~= raw);
}

/// Decodes the 32-bit variable-length value at the front of `src` without
/// taking it: the result holds the value and the number of bytes it occupies.
pub fn read_varint_without_cursor(src: &mut BytesMut) -> (r: Result<(i32, usize), ProtocolError>)
    ensures
        r == varint_decoding(contents(*old(src))),
        contents(*final(src)) == contents(*old(src)),
{
    decode_varint(as_slice(src))
}

/// Takes the 32-bit variable-length value at the front of `src`.
pub fn read_varint(src: &mut BytesMut) -> (r: Result<i32, ProtocolError>)
    ensures
        match varint_decoding(contents(*old(src))) {
            Ok((value, len)) => {
                &&& r == Ok::<i32, ProtocolError>(value)
                &&& contents(*final(src)) == contents(*old(src)).skip(len as int)
            },
            Err(e) => {
                &&& r == Err::<i32, ProtocolError>(e)
                &&& contents(*final(src)) == contents(*old(src))
            },
        },
{
    match decode_varint(as_slice(src)) {
        Ok((value, len)) => {
            advance(src, len);
            Ok(value)
        },
        Err(e) => Err(e),
    }
}

/// Takes the 64-bit variable-length value at the front of `src`.
pub fn read_varlong(src: &mut BytesMut) -> (r: Result<i64, ProtocolError>)
    ensures
        match varlong_decoding(contents(*old(src))) {
            Ok((value, len)) => {
                &&& r == Ok::<i64, ProtocolError>(value)
                &&& contents(*final(src)) == contents(*old(src)).skip(len as int)
            },
            Err(e) => {
                &&& r == Err::<i64, ProtocolError>(e)
                &&& contents(*final(src)) == contents(*old(src))
            },
        },
{
    match decode_varlong(as_slice(src)) {
        Ok((value, len)) => {
            advance(src, len);
            Ok(value)
        },
        Err(e) => Err(e),
    }
}

/// Takes one byte as a truth value: 1 is true, anything else is false.
pub fn read_bool(src: &mut BytesMut) -> (r: Result<bool, ProtocolError>)
    ensures
        takes(r, contents(*old(src)), contents(*final(src)), 1),
        r matches Ok(value) ==> value == (contents(*old(src))[0] == 1),
{
    if src.len() < 1 {
        return Err(ProtocolError::Io(InvalidData::NotEnoughBytes));
    }
    Ok(get_u8(src) == 1)
}

/// Takes one byte as a signed number.
pub fn read_byte(src: &mut BytesMut) -> (r: Result<i8, ProtocolError>)
    ensures
        takes(r, contents(*old(src)), contents(*final(src)), 1),
        r matches Ok(value) ==> value == signed8(contents(*old(src))[0] as nat),
{
    if src.len() < 1 {
        return Err(ProtocolError::Io(InvalidData::NotEnoughBytes));
    }
    Ok(get_i8(src))
}

/// Takes one byte as an unsigned number.
pub fn read_unsigned_byte(src: &mut BytesMut) -> (r: Result<u8, ProtocolError>)
    ensures
        takes(r, contents(*old(src)), contents(*final(src)), 1),
        r matches Ok(value) ==> value == contents(*old(src))[0],
{
    if src.len() < 1 {
        return Err(ProtocolError::Io(InvalidData::NotEnoughBytes));
    }
    Ok(get_u8(src))
}

/// Takes two bytes as a signed big-endian number.
pub fn read_short(src: &mut BytesMut) -> (r: Result<i16, ProtocolError>)
    ensures
        takes(r, contents(*old(src)), contents(*final(src)), 2),
        r matches Ok(value) ==> value == signed16(be_value(contents(*old(src)).take(2))),
{
    if src.len() < 2 {
        return Err(ProtocolError::Io(InvalidData::NotEnoughBytes));
    }
    Ok(get_i16(src))
}

/// Takes two bytes as an unsigned big-endian number.
pub fn read_unsigned_short(src: &mut BytesMut) -> (r: Result<u16, ProtocolError>)
    ensures
        takes(r, contents(*old(src)), contents(*final(src)), 2),
        r matches Ok(value) ==> value == be_value(contents(*old(src)).take(2)),
{
    if src.len() < 2 {
        return Err(ProtocolError::Io(InvalidData::NotEnoughBytes));
    }
    Ok(get_u16(src))
}

/// Takes four bytes as a signed big-endian number.
pub fn read_int(src: &mut BytesMut) -> (r: Result<i32, ProtocolError>)
    ensures
        takes(r, contents(*old(src)), contents(*final(src)), 4),
        r matches Ok(value) ==> value == signed32(be_value(contents(*old(src)).take(4))),
{
    if src.len() < 4 {
        return Err(ProtocolError::Io(InvalidData::NotEnoughBytes));
    }
    Ok(get_i32(src))
}

/// Takes eight bytes as a signed big-endian number.
pub fn read_long(src: &mut BytesMut) -> (r: Result<i64, ProtocolError>)
    ensures
        takes(r, contents(*old(src)), contents(*final(src)), 8),
        r matches Ok(value) ==> value == signed64(be_value(contents(*old(src)).take(8))),
{
    if src.len() < 8 {
        return Err(ProtocolError::Io(InvalidData::NotEnoughBytes));
    }
    Ok(get_i64(src))
}

/// Takes the four bytes of a single-precision number and returns its
/// IEEE 754 bit pattern, first byte in the top bits.
pub fn read_float(src: &mut BytesMut) -> (r: Result<u32, ProtocolError>)
    ensures
        takes(r, contents(*old(src)), contents(*final(src)), 4),
        r matches Ok(bits) ==> bits == be_value(contents(*old(src)).take(4)),
{
    if src.len() < 4 {
        return Err(ProtocolError::Io(InvalidData::NotEnoughBytes));
    }
    Ok(get_u32(src))
}

/// Takes the eight bytes of a double-precision number and returns its
/// IEEE 754 bit pattern, first byte in the top bits.
pub fn read_double(src: &mut BytesMut) -> (r: Result<u64, ProtocolError>)
    ensures
        takes(r, contents(*old(src)), contents(*final(src)), 8),
        r matches Ok(bits) ==> bits == be_value(contents(*old(src)).take(8)),
{
    if src.len() < 8 {
        return Err(ProtocolError::Io(InvalidData::NotEnoughBytes));
    }
    Ok(get_u64(src))
}

/// Takes a string: a variable-length byte count, then that many bytes of
/// UTF-8. Malformed UTF-8 is no failure: it comes out as U+FFFD.
pub fn read_string(src: &mut BytesMut) -> (r: Result<String, ProtocolError>)
    ensures
        match string_framing(contents(*old(src))) {
            Ok((raw, total)) => {
                &&& r matches Ok(text)
                &&& text@ == lossy_text(raw)
                &&& contents(*final(src)) == contents(*old(src)).skip(total as int)
            },
            Err(e) => {
                &&& r == Err::<String, ProtocolError>(e)
                &&& contents(*final(src)) == contents(*old(src))
            },
        },
{
    let bytes = as_slice(src);
    let (length, prefix): (i32, usize) = match decode_varint(bytes) {
        Ok(found) => found,
        Err(e) => {
            return Err(e);
        },
    };
    if length < 0 {
        return Err(ProtocolError::Io(InvalidData::NegativeLength));
    }
    let length: usize = length as usize;
    if bytes.len() - prefix < length {
        return Err(ProtocolError::Io(InvalidData::NotEnoughBytes));
    }
    let text = lossy_string(slice_subrange(bytes, prefix, prefix + length));
    advance(src, prefix + length);
    Ok(text)
}

/// Takes eight bytes as a packed position.
pub fn read_position(src: &mut BytesMut) -> (r: Result<Position, ProtocolError>)
    ensures
        takes(r, contents(*old(src)), contents(*final(src)), 8),
        r matches Ok(position) ==> position == unpack_position(
            be_value(contents(*old(src)).take(8)),
        ),
{
    if src.len() < 8 {
        return Err(ProtocolError::Io(InvalidData::NotEnoughBytes));
    }
    let coordinates: u64 = get_u64(src);
    proof {
        assert((coordinates >> 38u64) as i32 == coordinates / 0x40_0000_0000) by (bit_vector);
        assert(((coordinates << 52u64) >> 52u64) as i32 == coordinates % 0x1000) by (bit_vector);
        assert(((coordinates << 26u64) >> 38u64) as i32 == (coordinates / 0x1000) % 0x400_0000)
            by (bit_vector);
    }
    let x: i32 = (coordinates >> 38) as i32;
    let y: i32 = (coordinates << 52 >> 52) as i32;
    let z: i32 = (coordinates << 26 >> 38) as i32;
    Ok(Position { x, y, z })
}

/// Takes one byte as an angle.
pub fn read_angle(src: &mut BytesMut) -> (r: Result<Angle, ProtocolError>)
    ensures
        takes(r, contents(*old(src)), contents(*final(src)), 1),
        r matches Ok(angle) ==> angle.0 == contents(*old(src))[0],
{
    if src.len() < 1 {
        return Err(ProtocolError::Io(InvalidData::NotEnoughBytes));
    }
    Ok(Angle(get_u8(src)))
}

} // verus!
