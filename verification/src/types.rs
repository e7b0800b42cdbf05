//! The two integer kinds whose wire form is a variable-length integer rather
//! than their natural width. A schema declares them by the name of the type.

use vstd::pervasive::unreached;
use vstd::prelude::*;
use crate::deserializer::FieldValue;
use crate::deserializer::PacketDeserializer;
use crate::deserializer::VARINT_MARKER;
use crate::deserializer::VARLONG_MARKER;
use crate::error::ProtocolError;
use crate::varint::varint_decoding;
use crate::varint::varlong_decoding;

verus! {

/// A 32-bit value that travels as one to five bytes.
#[derive(Debug, Clone, Copy, PartialEq, Eq, Structural)]
pub struct VarInt(pub i32);

/// A 64-bit value that travels as one to ten bytes.
#[derive(Debug, Clone, Copy, PartialEq, Eq, Structural)]
pub struct VarLong(pub i64);

impl VarInt {
    /// Takes a value of this kind from the front of the payload. A failure
    /// takes nothing.
    pub fn deserialize(deserializer: &mut PacketDeserializer) -> (r: Result<VarInt, ProtocolError>)
        ensures
            *final(final(deserializer).bytes) == *final(old(deserializer).bytes),
            match varint_decoding(old(deserializer).remaining()) {
                Ok((value, len)) => {
                    &&& r == Ok::<VarInt, ProtocolError>(VarInt(value))
                    &&& final(deserializer).remaining() == old(deserializer).remaining().skip(
                        len as int,
                    )
                },
                Err(e) => {
                    &&& r == Err::<VarInt, ProtocolError>(e)
                    &&& final(deserializer).remaining() == old(deserializer).remaining()
                },
            },
    {
        match deserializer.deserialize_newtype_struct(VARINT_MARKER) {
            Ok(FieldValue::VarInt(value)) => Ok(VarInt(value)),
            Ok(_) => unreached(),
            Err(e) => Err(e),
        }
    }
}

impl VarLong {
    /// Takes a value of this kind from the front of the payload. A failure
    /// takes nothing.
    pub fn deserialize(deserializer: &mut PacketDeserializer) -> (r: Result<VarLong, ProtocolError>)
        ensures
            *final(final(deserializer).bytes) == *final(old(deserializer).bytes),
            match varlong_decoding(old(deserializer).remaining()) {
                Ok((value, len)) => {
                    &&& r == Ok::<VarLong, ProtocolError>(VarLong(value))
                    &&& final(deserializer).remaining() == old(deserializer).remaining().skip(
                        len as int,
                    )
                },
                Err(e) => {
                    &&& r == Err::<VarLong, ProtocolError>(e)
                    &&& final(deserializer).remaining() == old(deserializer).remaining()
                },
            },
    {
        proof {
            // The two names differ, so the longer one is not taken for the other.
            reveal_strlit("MC_VARINT");
            reveal_strlit("MC_VARLONG");
            assert(VARINT_MARKER@.len() == 9);
            assert(VARLONG_MARKER@.len() == 10);
        }
        match deserializer.deserialize_newtype_struct(VARLONG_MARKER) {
            Ok(FieldValue::VarLong(value)) => Ok(VarLong(value)),
            Ok(_) => unreached(),
            Err(e) => Err(e),
        }
    }
}

} // verus!
