use bytes::BytesMut;
use protocol::deserializer::{decode_field, expect_end, Shape};
use protocol::error::{InvalidData, ProtocolError};
use protocol::{from_bytes_mut, FieldType, FieldValue, PacketDeserializer, VarInt, VarLong};

const NOT_ENOUGH: ProtocolError = ProtocolError::Io(InvalidData::NotEnoughBytes);

#[test]
fn bool_and_int() {
    let mut payload = BytesMut::from(&[1, 0, 0, 1, 0][..]);
    assert_eq!(
        from_bytes_mut(&mut payload, &[FieldType::Bool, FieldType::Int]),
        Ok(vec![FieldValue::Bool(true), FieldValue::Int(256)])
    );
    assert!(payload.is_empty());
}

#[test]
fn trailing_byte_is_an_error() {
    let mut payload = BytesMut::from(&[1, 0, 0, 1, 0, 9][..]);
    assert_eq!(
        from_bytes_mut(&mut payload, &[FieldType::Bool, FieldType::Int]),
        Err(ProtocolError::RemainingBytes(1))
    );
    assert_eq!(&payload[..], &[9]);
}

#[test]
fn trailing_bytes_are_counted() {
    let mut payload = BytesMut::from(&[0, 1, 2, 3, 4][..]);
    assert_eq!(
        from_bytes_mut(&mut payload, &[FieldType::Bool]),
        Err(ProtocolError::RemainingBytes(4))
    );
    let mut unread = BytesMut::from(&[7, 7, 7][..]);
    assert_eq!(from_bytes_mut(&mut unread, &[]), Err(ProtocolError::RemainingBytes(3)));
}

#[test]
fn empty_schema_on_empty_payload() {
    let mut payload = BytesMut::new();
    assert_eq!(from_bytes_mut(&mut payload, &[]), Ok(vec![]));
}

#[test]
fn every_supported_kind() {
    let mut payload = BytesMut::new();
    payload.extend_from_slice(&[1]);
    payload.extend_from_slice(&[0x80]);
    payload.extend_from_slice(&[0x80]);
    payload.extend_from_slice(&[0xff, 0xfe]);
    payload.extend_from_slice(&[0xff, 0xfe]);
    payload.extend_from_slice(&[0xff, 0xff, 0xff, 0xfd]);
    payload.extend_from_slice(&[0, 0, 0, 1, 0, 0, 0, 0]);
    payload.extend_from_slice(&[0x3f, 0xc0, 0, 0]);
    payload.extend_from_slice(&[0xc0, 0x04, 0, 0, 0, 0, 0, 0]);
    payload.extend_from_slice(&[2, b'o', b'k']);
    payload.extend_from_slice(&[0xdd, 0xc7, 0x01]);
    payload.extend_from_slice(&[0xff, 0xff, 0xff, 0xff, 0xff, 0xff, 0xff, 0xff, 0xff, 0x01]);
    let schema = [
        FieldType::Bool,
        FieldType::Byte,
        FieldType::UnsignedByte,
        FieldType::Short,
        FieldType::UnsignedShort,
        FieldType::Int,
        FieldType::Long,
        FieldType::Float,
        FieldType::Double,
        FieldType::String,
        FieldType::VarInt,
        FieldType::VarLong,
    ];
    let found = from_bytes_mut(&mut payload, &schema).unwrap();
    assert_eq!(
        found,
        vec![
            FieldValue::Bool(true),
            FieldValue::Byte(-128),
            FieldValue::UnsignedByte(128),
            FieldValue::Short(-2),
            FieldValue::UnsignedShort(65534),
            FieldValue::Int(-3),
            FieldValue::Long(4294967296),
            FieldValue::Float(1.5f32.to_bits()),
            FieldValue::Double((-2.5f64).to_bits()),
            FieldValue::String("ok".to_string()),
            FieldValue::VarInt(25565),
            FieldValue::VarLong(-1),
        ]
    );
}

#[test]
fn varint_field_differs_from_int_field() {
    let mut as_varint = BytesMut::from(&[0x80, 0x01][..]);
    assert_eq!(
        from_bytes_mut(&mut as_varint, &[FieldType::VarInt]),
        Ok(vec![FieldValue::VarInt(128)])
    );
    let mut as_int = BytesMut::from(&[0x80, 0x01][..]);
    assert_eq!(from_bytes_mut(&mut as_int, &[FieldType::Int]), Err(NOT_ENOUGH));
    assert_eq!(&as_int[..], &[0x80, 0x01]);
}

#[test]
fn unsupported_shape_is_named() {
    let mut payload = BytesMut::from(&[1, 2, 3][..]);
    assert_eq!(
        from_bytes_mut(&mut payload, &[FieldType::Unsupported(Shape::Mapping)]),
        Err(ProtocolError::UnsupportedType("map"))
    );
    assert_eq!(payload.len(), 3);
    assert_eq!(
        from_bytes_mut(
            &mut payload,
            &[FieldType::UnsignedByte, FieldType::Unsupported(Shape::Sequence)]
        ),
        Err(ProtocolError::UnsupportedType("seq"))
    );
    assert_eq!(&payload[..], &[2, 3]);
}

#[test]
fn first_failure_stops_the_decode() {
    let mut payload = BytesMut::from(&[1, 0, 0][..]);
    assert_eq!(
        from_bytes_mut(&mut payload, &[FieldType::Bool, FieldType::Int, FieldType::Bool]),
        Err(NOT_ENOUGH)
    );
    assert_eq!(&payload[..], &[0, 0]);

    let mut long = BytesMut::from(&[0xff, 0xff, 0xff, 0xff, 0xff, 0x01][..]);
    assert_eq!(
        from_bytes_mut(&mut long, &[FieldType::VarInt]),
        Err(ProtocolError::Io(InvalidData::VarIntTooLong))
    );
    let mut longer = BytesMut::from(&[0xff; 11][..]);
    assert_eq!(
        from_bytes_mut(&mut longer, &[FieldType::VarLong]),
        Err(ProtocolError::Io(InvalidData::VarLongTooLong))
    );
}

#[test]
fn malformed_text_is_replaced() {
    let mut payload = BytesMut::from(&[4, b'a', 0xc3, 0x28, b'b'][..]);
    assert_eq!(
        from_bytes_mut(&mut payload, &[FieldType::String]),
        Ok(vec![FieldValue::String("a\u{fffd}(b".to_string())])
    );
}

#[test]
fn field_by_field() {
    let mut payload = BytesMut::from(&[0x2a, 0x00, 0x07][..]);
    assert_eq!(decode_field(&mut payload, FieldType::UnsignedByte), Ok(FieldValue::UnsignedByte(42)));
    assert_eq!(expect_end(&payload), Err(ProtocolError::RemainingBytes(2)));
    assert_eq!(decode_field(&mut payload, FieldType::Short), Ok(FieldValue::Short(7)));
    assert_eq!(expect_end(&payload), Ok(()));
    assert_eq!(decode_field(&mut payload, FieldType::Bool), Err(NOT_ENOUGH));
}

#[test]
fn wrapper_names() {
    assert_eq!(FieldType::from_newtype_name("MC_VARINT"), FieldType::VarInt);
    assert_eq!(FieldType::from_newtype_name("MC_VARLONG"), FieldType::VarLong);
    assert_eq!(
        FieldType::from_newtype_name("MC_VARIN"),
        FieldType::Unsupported(Shape::NewtypeStruct("MC_VARIN"))
    );
    assert_eq!(
        FieldType::from_newtype_name("MC_VARINTS"),
        FieldType::Unsupported(Shape::NewtypeStruct("MC_VARINTS"))
    );
    assert_eq!(
        FieldType::from_newtype_name("mc_varint"),
        FieldType::Unsupported(Shape::NewtypeStruct("mc_varint"))
    );
    assert_eq!(FieldType::from_newtype_name(""), FieldType::Unsupported(Shape::NewtypeStruct("")));
    assert_eq!(protocol::deserializer::VARINT_MARKER, "MC_VARINT");
    assert_eq!(protocol::deserializer::VARLONG_MARKER, "MC_VARLONG");
}

#[test]
fn deserializer_steps_through_a_payload() {
    let mut payload = BytesMut::from(&[0x80, 0x01, 0xff, 0x01, 0x05][..]);
    let mut deserializer = PacketDeserializer::from_bytes_mut(&mut payload);
    assert_eq!(deserializer.deserialize_newtype_struct("MC_VARINT"), Ok(FieldValue::VarInt(128)));
    assert_eq!(deserializer.deserialize_newtype_struct("MC_VARLONG"), Ok(FieldValue::VarLong(255)));
    assert_eq!(
        deserializer.deserialize_newtype_struct("Wrapper"),
        Err(ProtocolError::UnsupportedType("Wrapper"))
    );
    assert_eq!(deserializer.end(), Err(ProtocolError::RemainingBytes(1)));
    assert_eq!(deserializer.deserialize(FieldType::Byte), Ok(FieldValue::Byte(5)));
    assert_eq!(deserializer.end(), Ok(()));
    assert!(payload.is_empty());
}

#[test]
fn varint_and_varlong_types() {
    let mut payload = BytesMut::from(&[0xff, 0xff, 0xff, 0xff, 0x0f, 0x80, 0x80, 0x01][..]);
    let mut deserializer = PacketDeserializer::from_bytes_mut(&mut payload);
    assert_eq!(VarInt::deserialize(&mut deserializer), Ok(VarInt(-1)));
    assert_eq!(VarLong::deserialize(&mut deserializer), Ok(VarLong(16384)));
    assert_eq!(
        VarInt::deserialize(&mut deserializer),
        Err(ProtocolError::Io(InvalidData::VarIntCutShort))
    );
    assert_eq!(
        VarLong::deserialize(&mut deserializer),
        Err(ProtocolError::Io(InvalidData::VarLongCutShort))
    );
    assert_eq!(deserializer.end(), Ok(()));
}

#[test]
fn every_unsupported_shape_has_its_name() {
    let shapes = [
        (Shape::Any, "any"),
        (Shape::U32, "u32"),
        (Shape::U64, "u64"),
        (Shape::Char, "char"),
        (Shape::Str, "str"),
        (Shape::Bytes, "bytes"),
        (Shape::ByteBuf, "byte buf"),
        (Shape::Optional, "option"),
        (Shape::Unit, "unit"),
        (Shape::UnitStruct, "unit struct"),
        (Shape::NewtypeStruct("Wrapper"), "Wrapper"),
        (Shape::Sequence, "seq"),
        (Shape::Tuple, "tuple"),
        (Shape::TupleStruct, "tuple struct"),
        (Shape::Mapping, "map"),
        (Shape::Struct, "struct"),
        (Shape::Enum, "enum"),
        (Shape::Identifier, "identifier"),
        (Shape::IgnoredAny, "ignored any"),
    ];
    for (shape, name) in shapes {
        assert_eq!(shape.name(), name);
        let mut payload = BytesMut::from(&[1, 2][..]);
        assert_eq!(
            decode_field(&mut payload, FieldType::Unsupported(shape)),
            Err(ProtocolError::UnsupportedType(name))
        );
        assert_eq!(&payload[..], &[1, 2]);
    }
}
