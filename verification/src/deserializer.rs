//! Decoding a payload against a schema: the declared fields in order, each by
//! the reader of its kind, and then nothing may be left.

use bytes::BytesMut;
use vstd::prelude::*;
use crate::buffer::contents;
use crate::error::InvalidData;
use crate::error::ProtocolError;
use crate::reader::read_bool;
use crate::reader::read_byte;
use crate::reader::read_double;
use crate::reader::read_float;
use crate::reader::read_int;
use crate::reader::read_long;
use crate::reader::read_short;
use crate::reader::read_string;
use crate::reader::read_unsigned_byte;
use crate::reader::read_unsigned_short;
use crate::reader::read_varint;
use crate::reader::read_varlong;
use crate::reader::string_framing;
use crate::text::lossy_text;
use crate::text::same_text;
use crate::varint::varint_decoding;
use crate::varint::varlong_decoding;
use crate::wire::be_value;
use crate::wire::signed16;
use crate::wire::signed32;
use crate::wire::signed64;
use crate::wire::signed8;

verus! {

/// The name of the wrapper type that declares a 32-bit variable-length field.
pub const VARINT_MARKER: &'static str = "MC_VARINT";

/// The name of the wrapper type that declares a 64-bit variable-length field.
pub const VARLONG_MARKER: &'static str = "MC_VARLONG";

/// A shape that a schema can declare and that this codec does not decode:
/// the wire format is a flat list of primitive fields, and richer packets
/// are declared as more fields.
#[derive(Debug, Clone, Copy, PartialEq, Eq)]
pub enum Shape {
    Any,
    U32,
    U64,
    Char,
    Str,
    Bytes,
    ByteBuf,
    Optional,
    Unit,
    UnitStruct,
    /// A wrapper type of the given name, other than the two that declare
    /// variable-length integers.
    NewtypeStruct(&'static str),
    Sequence,
    Tuple,
    TupleStruct,
    Mapping,
    Struct,
    Enum,
    Identifier,
    IgnoredAny,
}

impl Shape {
    /// The name under which the shape is reported.
    pub open spec fn spec_name(self) -> &'static str {
        match self {
            Shape::Any => "any",
            Shape::U32 => "u32",
            Shape::U64 => "u64",
            Shape::Char => "char",
            Shape::Str => "str",
            Shape::Bytes => "bytes",
            Shape::ByteBuf => "byte buf",
            Shape::Optional => "option",
            Shape::Unit => "unit",
            Shape::UnitStruct => "unit struct",
            Shape::NewtypeStruct(name) => name,
            Shape::Sequence => "seq",
            Shape::Tuple => "tuple",
            Shape::TupleStruct => "tuple struct",
            Shape::Mapping => "map",
            Shape::Struct => "struct",
            Shape::Enum => "enum",
            Shape::Identifier => "identifier",
            Shape::IgnoredAny => "ignored any",
        }
    }

    /// The name under which the shape is reported.
    #[verifier::when_used_as_spec(spec_name)]
    pub fn name(self) -> (name: &'static str)
        ensures
            name == self.spec_name(),
    {
        match self {
            Shape::Any => "any",
            Shape::U32 => "u32",
            Shape::U64 => "u64",
            Shape::Char => "char",
            Shape::Str => "str",
            Shape::Bytes => "bytes",
            Shape::ByteBuf => "byte buf",
            Shape::Optional => "option",
            Shape::Unit => "unit",
            Shape::UnitStruct => "unit struct",
            Shape::NewtypeStruct(name) => name,
            Shape::Sequence => "seq",
            Shape::Tuple => "tuple",
            Shape::TupleStruct => "tuple struct",
            Shape::Mapping => "map",
            Shape::Struct => "struct",
            Shape::Enum => "enum",
            Shape::Identifier => "identifier",
            Shape::IgnoredAny => "ignored any",
        }
    }
}

/// The kind of a field, as a schema declares it.
#[derive(Debug, Clone, Copy, PartialEq, Eq)]
pub enum FieldType {
    /// One byte: 1 is true.
    Bool,
    /// One byte, signed.
    Byte,
    /// One byte, unsigned.
    UnsignedByte,
    /// Two bytes, signed, big-endian.
    Short,
    /// Two bytes, unsigned, big-endian.
    UnsignedShort,
    /// Four bytes, signed, big-endian.
    Int,
    /// Eight bytes, signed, big-endian.
    Long,
    /// Four bytes, single precision, big-endian.
    Float,
    /// Eight bytes, double precision, big-endian.
    Double,
    /// A variable-length byte count and that many bytes of UTF-8.
    String,
    /// A 32-bit value as a variable-length integer.
    VarInt,
    /// A 64-bit value as a variable-length integer.
    VarLong,
    /// A shape that this codec does not decode.
    Unsupported(Shape),
}

impl FieldType {
    /// The kind that a wrapper type of the given name declares: the two
    /// variable-length integers go by name, and no other wrapper is decoded.
    pub open spec fn spec_from_newtype_name(name: &'static str) -> FieldType {
        if name@ == VARINT_MARKER@ {
            FieldType::VarInt
        } else if name@ == VARLONG_MARKER@ {
            FieldType::VarLong
        } else {
            FieldType::Unsupported(Shape::NewtypeStruct(name))
        }
    }

    /// The kind that a wrapper type of the given name declares.
    #[verifier::when_used_as_spec(spec_from_newtype_name)]
    pub fn from_newtype_name(name: &'static str) -> (field: FieldType)
        ensures
            field == FieldType::spec_from_newtype_name(name),
    {
        if same_text(name, VARINT_MARKER) {
            FieldType::VarInt
        } else if same_text(name, VARLONG_MARKER) {
            FieldType::VarLong
        } else {
            FieldType::Unsupported(Shape::NewtypeStruct(name))
        }
    }
}

/// A decoded field.
#[derive(Debug, Clone, PartialEq, Eq)]
pub enum FieldValue {
    Bool(bool),
    Byte(i8),
    UnsignedByte(u8),
    Short(i16),
    UnsignedShort(u16),
    Int(i32),
    Long(i64),
    /// The IEEE 754 bit pattern of a single-precision number.
    Float(u32),
    /// The IEEE 754 bit pattern of a double-precision number.
    Double(u64),
    String(String),
    VarInt(i32),
    VarLong(i64),
}

/// A decoded field as a mathematical value: text is its sequence of
/// characters.
pub enum FieldView {
    Bool(bool),
    Byte(i8),
    UnsignedByte(u8),
    Short(i16),
    UnsignedShort(u16),
    Int(i32),
    Long(i64),
    Float(u32),
    Double(u64),
    String(Seq<char>),
    VarInt(i32),
    VarLong(i64),
}

impl View for FieldValue {
    type V = FieldView;

    open spec fn view(&self) -> FieldView {
        match self {
            FieldValue::Bool(v) => FieldView::Bool(*v),
            FieldValue::Byte(v) => FieldView::Byte(*v),
            FieldValue::UnsignedByte(v) => FieldView::UnsignedByte(*v),
            FieldValue::Short(v) => FieldView::Short(*v),
            FieldValue::UnsignedShort(v) => FieldView::UnsignedShort(*v),
            FieldValue::Int(v) => FieldView::Int(*v),
            FieldValue::Long(v) => FieldView::Long(*v),
            FieldValue::Float(v) => FieldView::Float(*v),
            FieldValue::Double(v) => FieldView::Double(*v),
            FieldValue::String(v) => FieldView::String(v@),
            FieldValue::VarInt(v) => FieldView::VarInt(*v),
            FieldValue::VarLong(v) => FieldView::VarLong(*v),
        }
    }
}

/// The decoded fields as mathematical values.
pub open spec fn views(values: Seq<FieldValue>) -> Seq<FieldView> {
    values.map_values(|v: FieldValue| v@)
}

/// What a field of fixed width `n` makes of `s`: with fewer than `n` bytes a
/// failure that takes nothing, else `value` and the bytes after the first `n`.
pub open spec fn fixed_field(s: Seq<u8>, n: nat, value: FieldView) -> (
    Result<FieldView, ProtocolError>,
    Seq<u8>,
) {
    if s.len() < n {
        (Err(ProtocolError::Io(InvalidData::NotEnoughBytes)), s)
    } else {
        (Ok(value), s.skip(n as int))
    }
}

/// What decoding one field of the given kind makes of `s`: the value or the
/// failure, and the bytes that are left. A failure leaves all of them.
pub open spec fn field_decoding(field: FieldType, s: Seq<u8>) -> (
    Result<FieldView, ProtocolError>,
    Seq<u8>,
) {
    match field {
        FieldType::Bool => fixed_field(s, 1, FieldView::Bool(s[0] == 1)),
        FieldType::Byte => fixed_field(s, 1, FieldView::Byte(signed8(s[0] as nat) as i8)),
        FieldType::UnsignedByte => fixed_field(s, 1, FieldView::UnsignedByte(s[0])),
        FieldType::Short => fixed_field(
            s,
            2,
            FieldView::Short(signed16(be_value(s.take(2))) as i16),
        ),
        FieldType::UnsignedShort => fixed_field(
            s,
            2,
            FieldView::UnsignedShort(be_value(s.take(2)) as u16),
        ),
        FieldType::Int => fixed_field(s, 4, FieldView::Int(signed32(be_value(s.take(4))) as i32)),
        FieldType::Long => fixed_field(s, 8, FieldView::Long(signed64(be_value(s.take(8))) as i64)),
        FieldType::Float => fixed_field(s, 4, FieldView::Float(be_value(s.take(4)) as u32)),
        FieldType::Double => fixed_field(s, 8, FieldView::Double(be_value(s.take(8)) as u64)),
        FieldType::String => match string_framing(s) {
            Ok((raw, total)) => (Ok(FieldView::String(lossy_text(raw))), s.skip(total as int)),
            Err(e) => (Err(e), s),
        },
        FieldType::VarInt => match varint_decoding(s) {
            Ok((value, len)) => (Ok(FieldView::VarInt(value)), s.skip(len as int)),
            Err(e) => (Err(e), s),
        },
        FieldType::VarLong => match varlong_decoding(s) {
            Ok((value, len)) => (Ok(FieldView::VarLong(value)), s.skip(len as int)),
            Err(e) => (Err(e), s),
        },
        FieldType::Unsupported(shape) => (Err(ProtocolError::UnsupportedType(shape.name())), s),
    }
}

/// What decoding the fields of `schema` in order makes of `s`: all the values,
/// or the first failure, and the bytes that are left at that point.
pub open spec fn fields_decoding(schema: Seq<FieldType>, s: Seq<u8>) -> (
    Result<Seq<FieldView>, ProtocolError>,
    Seq<u8>,
)
    decreases schema.len(),
{
    if schema.len() == 0 {
        (Ok(Seq::empty()), s)
    } else {
        match field_decoding(schema[0], s) {
            (Ok(value), rest) => match fields_decoding(schema.drop_first(), rest) {
                (Ok(values), left) => (Ok(seq![value] + values), left),
                (Err(e), left) => (Err(e), left),
            },
            (Err(e), rest) => (Err(e), rest),
        }
    }
}

/// Whether anything is left of a payload after its last field, as a result.
pub open spec fn end_of_payload(s: Seq<u8>) -> Result<(), ProtocolError> {
    if s.len() == 0 {
        Ok(())
    } else {
        Err(ProtocolError::RemainingBytes(s.len() as usize))
    }
}

/// What decoding a whole payload against `schema` makes of `s`: the fields in
/// order, and a failure if a field fails or if bytes are left after the last.
pub open spec fn payload_decoding(schema: Seq<FieldType>, s: Seq<u8>) -> (
    Result<Seq<FieldView>, ProtocolError>,
    Seq<u8>,
) {
    match fields_decoding(schema, s) {
        (Ok(values), left) => match end_of_payload(left) {
            Ok(_) => (Ok(values), left),
            Err(e) => (Err(e), left),
        },
        (Err(e), left) => (Err(e), left),
    }
}

/// Strict consumption. A payload decodes against a schema only if its fields
/// use it up; when all fields decode and bytes are left, the failure says how
/// many.
pub proof fn lemma_strict_consumption(schema: Seq<FieldType>, s: Seq<u8>)
    ensures
        payload_decoding(schema, s).0 is Ok ==> payload_decoding(schema, s).1.len() == 0,
        fields_decoding(schema, s).0 is Ok && fields_decoding(schema, s).1.len() > 0
            ==> payload_decoding(schema, s) == (
            Err::<Seq<FieldView>, ProtocolError>(
                ProtocolError::RemainingBytes(fields_decoding(schema, s).1.len() as usize),
            ),
            fields_decoding(schema, s).1,
        ),
{
}

/// Takes one field of the given kind from the front of `src`.
pub fn decode_field(src: &mut BytesMut, field: FieldType) -> (r: Result<FieldValue, ProtocolError>)
    ensures
        match field_decoding(field, contents(*old(src))).0 {
            Ok(value) => r matches Ok(found) && found@ == value,
            Err(e) => r == Err::<FieldValue, ProtocolError>(e),
        },
        contents(*final(src)) == field_decoding(field, contents(*old(src))).1,
{
    match field {
        FieldType::Bool => match read_bool(src) {
            Ok(v) => Ok(FieldValue::Bool(v)),
            Err(e) => Err(e),
        },
        FieldType::Byte => match read_byte(src) {
            Ok(v) => Ok(FieldValue::Byte(v)),
            Err(e) => Err(e),
        },
        FieldType::UnsignedByte => match read_unsigned_byte(src) {
            Ok(v) => Ok(FieldValue::UnsignedByte(v)),
            Err(e) => Err(e),
        },
        FieldType::Short => match read_short(src) {
            Ok(v) => Ok(FieldValue::Short(v)),
            Err(e) => Err(e),
        },
        FieldType::UnsignedShort => match read_unsigned_short(src) {
            Ok(v) => Ok(FieldValue::UnsignedShort(v)),
            Err(e) => Err(e),
        },
        FieldType::Int => match read_int(src) {
            Ok(v) => Ok(FieldValue::Int(v)),
            Err(e) => Err(e),
        },
        FieldType::Long => match read_long(src) {
            Ok(v) => Ok(FieldValue::Long(v)),
            Err(e) => Err(e),
        },
        FieldType::Float => match read_float(src) {
            Ok(v) => Ok(FieldValue::Float(v)),
            Err(e) => Err(e),
        },
        FieldType::Double => match read_double(src) {
            Ok(v) => Ok(FieldValue::Double(v)),
            Err(e) => Err(e),
        },
        FieldType::String => match read_string(src) {
            Ok(v) => Ok(FieldValue::String(v)),
            Err(e) => Err(e),
        },
        FieldType::VarInt => match read_varint(src) {
            Ok(v) => Ok(FieldValue::VarInt(v)),
            Err(e) => Err(e),
        },
        FieldType::VarLong => match read_varlong(src) {
            Ok(v) => Ok(FieldValue::VarLong(v)),
            Err(e) => Err(e),
        },
        FieldType::Unsupported(shape) => Err(ProtocolError::UnsupportedType(shape.name())),
    }
}

/// Checks that a payload has been used up: a payload with bytes left after
/// its last field was not what the schema says.
pub fn expect_end(src: &BytesMut) -> (r: Result<(), ProtocolError>)
    ensures
        r == end_of_payload(contents(*src)),
{
    let left: usize = src.len();
    if left == 0 {
        Ok(())
    } else {
        Err(ProtocolError::RemainingBytes(left))
    }
}

/// A payload that is being decoded field by field.
pub struct PacketDeserializer<'de> {
    /// The bytes not yet taken.
    pub bytes: &'de mut BytesMut,
}

impl<'de> PacketDeserializer<'de> {
    /// The bytes not yet taken.
    pub open spec fn remaining(&self) -> Seq<u8> {
        contents(*self.bytes)
    }

    /// Starts decoding at the front of `bytes`. What the deserializer leaves
    /// is what `bytes` holds afterwards.
    pub fn from_bytes_mut(bytes: &'de mut BytesMut) -> (deserializer: Self)
        ensures
            deserializer.remaining() == contents(*old(bytes)),
            *final(deserializer.bytes) == *final(bytes),
    {
        PacketDeserializer { bytes }
    }

    /// Takes one field of the given kind.
    pub fn deserialize(&mut self, field: FieldType) -> (r: Result<FieldValue, ProtocolError>)
        ensures
            *final(final(self).bytes) == *final(old(self).bytes),
            match field_decoding(field, old(self).remaining()).0 {
                Ok(value) => r matches Ok(found) && found@ == value,
                Err(e) => r == Err::<FieldValue, ProtocolError>(e),
            },
            final(self).remaining() == field_decoding(field, old(self).remaining()).1,
    {
        decode_field(self.bytes, field)
    }

    /// Takes one field whose kind is declared by the name of a wrapper type.
    pub fn deserialize_newtype_struct(&mut self, name: &'static str) -> (r: Result<
        FieldValue,
        ProtocolError,
    >)
        ensures
            *final(final(self).bytes) == *final(old(self).bytes),
            match field_decoding(FieldType::from_newtype_name(name), old(self).remaining()).0 {
                Ok(value) => r matches Ok(found) && found@ == value,
                Err(e) => r == Err::<FieldValue, ProtocolError>(e),
            },
            final(self).remaining() == field_decoding(
                FieldType::from_newtype_name(name),
                old(self).remaining(),
            ).1,
    {
        let field = FieldType::from_newtype_name(name);
        self.deserialize(field)
    }

    /// Checks that nothing is left of the payload.
    pub fn end(&mut self) -> (r: Result<(), ProtocolError>)
        ensures
            *final(final(self).bytes) == *final(old(self).bytes),
            final(self).remaining() == old(self).remaining(),
            r == end_of_payload(old(self).remaining()),
    {
        expect_end(self.bytes)
    }
}

/// Decodes a payload against a schema: every declared field in order, and
/// then the payload must be used up.
pub fn from_bytes_mut(bytes: &mut BytesMut, schema: &[FieldType]) -> (r: Result<
    Vec<FieldValue>,
    ProtocolError,
>)
    ensures
        match payload_decoding(schema@, contents(*old(bytes))).0 {
            Ok(values) => r matches Ok(found) && views(found@) == values,
            Err(e) => r == Err::<Vec<FieldValue>, ProtocolError>(e),
        },
        contents(*final(bytes)) == payload_decoding(schema@, contents(*old(bytes))).1,
{
    let mut deserializer = PacketDeserializer::from_bytes_mut(bytes);
    let mut found: Vec<FieldValue> = Vec::new();
    let mut i: usize = 0;
    proof {
        assert(schema@.skip(0) =~= schema@);
        match fields_decoding(schema@, deserializer.remaining()) {
            (Ok(values), left) => {
                assert(views(found@) + values =~= values);
            },
            (Err(e), left) => {},
        }
    }
    while i < schema.len()
        invariant
            i <= schema.len(),
            *final(deserializer.bytes) == after_borrow(*bytes),
            match fields_decoding(schema@.skip(i as int), deserializer.remaining()) {
                (Ok(values), left) => fields_decoding(schema@, contents(*old(bytes))) == (
                    Ok::<Seq<FieldView>, ProtocolError>(
                        views(found@) + values,
                    ),
                    left,
                ),
                (Err(e), left) => fields_decoding(schema@, contents(*old(bytes))) == (
                    Err::<Seq<FieldView>, ProtocolError>(e),
                    left,
                ),
            },
        decreases schema.len() - i,
    {
        let ghost todo = schema@.skip(i as int);
        assert(todo.drop_first() =~= schema@.skip(i + 1));
        assert(todo[0] == schema@[i as int]);
        let ghost seen = views(found@);
        match deserializer.deserialize(schema[i]) {
            Ok(value) => {
                found.push(value);
                proof {
                    let now = views(found@);
                    assert(now =~= seen.push(value@));
                    match fields_decoding(schema@.skip(i + 1), deserializer.remaining()) {
                        (Ok(values), left) => {
                            assert(seen + (seq![value@] + values) =~= now + values);
                        },
                        (Err(e), left) => {},
                    }
                }
            },
            Err(e) => {
                return Err(e);
            },
        }
        i = i + 1;
    }
    assert(schema@.skip(i as int) =~= Seq::<FieldType>::empty());
    assert(views(found@) + Seq::<FieldView>::empty() =~= views(found@));
    match deserializer.end() {
        Ok(_) => Ok(found),
        Err(e) => Err(e),
    }
}

} // verus!
