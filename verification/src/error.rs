//! The errors that decoding can end in.

use vstd::prelude::*;

verus! {

/// Why a run of bytes could not be decoded.
#[derive(Debug, Clone, Copy, PartialEq, Eq, Structural)]
pub enum InvalidData {
    /// A value asks for more bytes than are there.
    NotEnoughBytes,
    /// The bytes end before a 32-bit variable-length value does: every byte
    /// there is, and there are fewer than five, announces a successor.
    VarIntCutShort,
    /// The bytes end before a 64-bit variable-length value does: every byte
    /// there is, and there are fewer than ten, announces a successor.
    VarLongCutShort,
    /// Five bytes in a row announce a successor: the value would not fit in 32 bits.
    VarIntTooLong,
    /// Ten bytes in a row announce a successor: the value would not fit in 64 bits.
    VarLongTooLong,
    /// A length prefix is below zero.
    NegativeLength,
}

impl InvalidData {
    /// The text that describes the failure.
    pub open spec fn spec_message(&self) -> &'static str {
        match self {
            InvalidData::NotEnoughBytes => "not enough bytes",
            InvalidData::VarIntCutShort => "not enough bytes to read varint",
            InvalidData::VarLongCutShort => "not enough bytes to read varlong",
            InvalidData::VarIntTooLong => "varint is longer than 32 bits",
            InvalidData::VarLongTooLong => "varlong is longer than 64 bits",
            InvalidData::NegativeLength => "length is negative",
        }
    }

    /// The text that describes the failure, fit for a log line or for
    /// wrapping in a transport error.
    #[verifier::when_used_as_spec(spec_message)]
    pub fn message(&self) -> (text: &'static str)
        ensures
            text == self.spec_message(),
    {
        match self {
            InvalidData::NotEnoughBytes => "not enough bytes",
            InvalidData::VarIntCutShort => "not enough bytes to read varint",
            InvalidData::VarLongCutShort => "not enough bytes to read varlong",
            InvalidData::VarIntTooLong => "varint is longer than 32 bits",
            InvalidData::VarLongTooLong => "varlong is longer than 64 bits",
            InvalidData::NegativeLength => "length is negative",
        }
    }
}

/// A failed decode. Every one of them is fatal to the frame at hand: nothing
/// is retried and no resynchronisation is attempted.
#[derive(Debug, Clone, Copy, PartialEq, Eq)]
pub enum ProtocolError {
    /// All declared fields were decoded and this many bytes were left over.
    RemainingBytes(usize),
    /// The bytes do not form what was asked for.
    Io(InvalidData),
    /// The declared field type is not one this codec decodes.
    UnsupportedType(&'static str),
}

} // verus!
