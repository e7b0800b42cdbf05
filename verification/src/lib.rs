//! Wire codec of a length-prefixed binary protocol: variable-length integers,
//! primitive field readers, frame extraction and schema-driven payload decoding.
//!
//! Bytes arrive in a `bytes::BytesMut`. [`MinecraftCodec`] cuts them into
//! frames, and [`from_bytes_mut`] decodes the payload of a frame against the
//! field list of its packet.
//!
//! - [`varint`]: the variable-length integers, with their round-trip laws.
//! - [`reader`]: one reader for each primitive field kind.
//! - [`codec`]: framing, with the laws of liveness and partiality.
//! - [`deserializer`]: field lists, dispatch and strict consumption.
//! - [`types`]: the two integer kinds that a field list declares by name.
//! - [`error`]: what decoding can fail with.
//! - [`wire`]: big-endian numbers and two's complement, as mathematics.
//! - [`buffer`] and [`text`]: what is taken on trust of `bytes` and of std.
//!
//! No function of this library panics, and every failure is reported as a
//! [`ProtocolError`]: a peer can send any bytes at all.

pub mod buffer;
pub mod codec;
pub mod deserializer;
pub mod error;
pub mod reader;
pub mod text;
pub mod types;
pub mod varint;
pub mod wire;

pub use codec::Frame;
pub use codec::MinecraftCodec;
pub use codec::State;
pub use deserializer::from_bytes_mut;
pub use deserializer::FieldType;
pub use deserializer::FieldValue;
pub use deserializer::PacketDeserializer;
pub use error::InvalidData;
pub use error::ProtocolError;
pub use types::VarInt;
pub use types::VarLong;
