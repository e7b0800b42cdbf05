use bytes::BytesMut;
use protocol::error::{InvalidData, ProtocolError};
use protocol::varint::encode_varint;
use protocol::{MinecraftCodec, State};

fn frame(packet_id: i32, body: &[u8]) -> Vec<u8> {
    let mut content = encode_varint(packet_id);
    content.extend_from_slice(body);
    let mut bytes = encode_varint(content.len() as i32);
    bytes.extend_from_slice(&content);
    bytes
}

#[test]
fn new_codec_is_handshaking() {
    let codec = MinecraftCodec::new();
    assert_eq!(codec.state(), State::Handshaking);
}

#[test]
fn state_tags() {
    assert_eq!(State::Handshaking.tag(), 0);
    assert_eq!(State::Status.tag(), 1);
    assert_eq!(State::Login.tag(), 2);
    assert_eq!(State::Play.tag(), 3);
}

#[test]
fn empty_buffer_yields_nothing() {
    let mut codec = MinecraftCodec::new();
    let mut src = BytesMut::new();
    assert!(codec.decode(&mut src).unwrap().is_none());
    assert!(codec.decode(&mut src).unwrap().is_none());
    assert!(src.is_empty());
}

#[test]
fn one_frame() {
    let mut codec = MinecraftCodec::new();
    let mut src = BytesMut::from(&[0x04, 0x2a, 1, 2, 3][..]);
    let found = codec.decode(&mut src).unwrap().unwrap();
    assert_eq!(found.packet_id, 42);
    assert_eq!(&found.payload[..], &[1, 2, 3]);
    assert!(src.is_empty());
    assert_eq!(codec.state(), State::Handshaking);
}

#[test]
fn frame_with_a_long_id_and_no_body() {
    let mut codec = MinecraftCodec::new();
    let mut src = BytesMut::from(&[0x03, 0xdd, 0xc7, 0x01, 0x99][..]);
    let found = codec.decode(&mut src).unwrap().unwrap();
    assert_eq!(found.packet_id, 25565);
    assert!(found.payload.is_empty());
    assert_eq!(&src[..], &[0x99]);
}

#[test]
fn frames_back_to_back_come_in_order() {
    let packets: Vec<(i32, Vec<u8>)> = vec![
        (0, vec![]),
        (1, vec![0xaa]),
        (300, vec![1, 2, 3, 4, 5]),
        (-1, vec![0x80; 200]),
        (2147483647, vec![0xff, 0xff]),
        (7, vec![]),
    ];
    let mut src = BytesMut::new();
    for (packet_id, body) in &packets {
        src.extend_from_slice(&frame(*packet_id, body));
    }
    let mut codec = MinecraftCodec::new();
    for (packet_id, body) in &packets {
        let found = codec.decode(&mut src).unwrap().unwrap();
        assert_eq!(found.packet_id, *packet_id);
        assert_eq!(&found.payload[..], &body[..]);
    }
    assert!(src.is_empty());
    assert!(codec.decode(&mut src).unwrap().is_none());
}

#[test]
fn frame_in_two_feeds() {
    let whole = frame(300, &[9, 8, 7, 6, 5, 4, 3, 2, 1]);
    for cut in 0..whole.len() {
        let mut codec = MinecraftCodec::new();
        let mut src = BytesMut::new();
        src.extend_from_slice(&whole[..cut]);
        assert!(codec.decode(&mut src).unwrap().is_none());
        assert_eq!(&src[..], &whole[..cut]);
        assert!(codec.decode(&mut src).unwrap().is_none());
        assert_eq!(&src[..], &whole[..cut]);
        src.extend_from_slice(&whole[cut..]);
        let found = codec.decode(&mut src).unwrap().unwrap();
        assert_eq!(found.packet_id, 300);
        assert_eq!(&found.payload[..], &[9, 8, 7, 6, 5, 4, 3, 2, 1]);
        assert!(src.is_empty());
        assert!(codec.decode(&mut src).unwrap().is_none());
    }
}

#[test]
fn frame_with_a_two_byte_length_in_two_feeds() {
    let body: Vec<u8> = (0..200).map(|i| i as u8).collect();
    let whole = frame(5, &body);
    assert_eq!(&whole[..3], &[0xc9, 0x01, 0x05]);
    for cut in [0usize, 1, 2, 3, 100, whole.len() - 1] {
        let mut codec = MinecraftCodec::new();
        let mut src = BytesMut::new();
        src.extend_from_slice(&whole[..cut]);
        assert!(codec.decode(&mut src).unwrap().is_none());
        assert_eq!(&src[..], &whole[..cut]);
        src.extend_from_slice(&whole[cut..]);
        let found = codec.decode(&mut src).unwrap().unwrap();
        assert_eq!(found.packet_id, 5);
        assert_eq!(&found.payload[..], &body[..]);
        assert!(src.is_empty());
    }
}

#[test]
fn waiting_reserves_room_for_the_frame() {
    let mut codec = MinecraftCodec::new();
    // A length of 1000 in two bytes, and ten bytes of the frame.
    let mut src = BytesMut::new();
    src.extend_from_slice(&[0xe8, 0x07]);
    src.extend_from_slice(&[0; 10]);
    assert!(codec.decode(&mut src).unwrap().is_none());
    assert_eq!(src.len(), 12);
    assert!(src.capacity() >= 1002);
}

#[test]
fn overlong_length_is_fatal() {
    let mut codec = MinecraftCodec::new();
    let mut src = BytesMut::from(&[0xff, 0xff, 0xff, 0xff, 0xff, 0xff][..]);
    assert_eq!(
        codec.decode(&mut src).unwrap_err(),
        ProtocolError::Io(InvalidData::VarIntTooLong)
    );
    assert_eq!(src.len(), 6);

    let mut longer = BytesMut::from(&[0x80; 40][..]);
    assert_eq!(
        codec.decode(&mut longer).unwrap_err(),
        ProtocolError::Io(InvalidData::VarIntTooLong)
    );
}

#[test]
fn negative_length_is_fatal() {
    let mut codec = MinecraftCodec::new();
    let mut src = BytesMut::from(&[0xff, 0xff, 0xff, 0xff, 0x0f, 1, 2, 3][..]);
    assert_eq!(
        codec.decode(&mut src).unwrap_err(),
        ProtocolError::Io(InvalidData::NegativeLength)
    );
    assert_eq!(src.len(), 8);
}

#[test]
fn frame_without_a_packet_id_is_fatal() {
    let mut codec = MinecraftCodec::new();
    let mut empty = BytesMut::from(&[0x00, 0x2a][..]);
    assert_eq!(
        codec.decode(&mut empty).unwrap_err(),
        ProtocolError::Io(InvalidData::VarIntCutShort)
    );
    assert_eq!(&empty[..], &[0x2a]);

    let mut cut = BytesMut::from(&[0x02, 0x80, 0x80, 0x2a][..]);
    assert_eq!(
        codec.decode(&mut cut).unwrap_err(),
        ProtocolError::Io(InvalidData::VarIntCutShort)
    );
    assert_eq!(&cut[..], &[0x2a]);

    let mut long = BytesMut::from(&[0x06, 0x80, 0x80, 0x80, 0x80, 0x80, 0x01, 0x2a][..]);
    assert_eq!(
        codec.decode(&mut long).unwrap_err(),
        ProtocolError::Io(InvalidData::VarIntTooLong)
    );
    assert_eq!(&long[..], &[0x2a]);
}

#[test]
fn frame_spelled_in_more_bytes_than_needed() {
    // Length 2 in two bytes, packet id 42 in two bytes, no body.
    let whole = [0x82, 0x00, 0xaa, 0x00];
    let mut codec = MinecraftCodec::new();
    let mut src = BytesMut::from(&whole[..]);
    src.extend_from_slice(&[0x99]);
    let found = codec.decode(&mut src).unwrap().unwrap();
    assert_eq!(found.packet_id, 42);
    assert!(found.payload.is_empty());
    assert_eq!(&src[..], &[0x99]);

    for cut in 0..whole.len() {
        let mut src = BytesMut::from(&whole[..cut]);
        assert!(codec.decode(&mut src).unwrap().is_none());
        assert_eq!(&src[..], &whole[..cut]);
        src.extend_from_slice(&whole[cut..]);
        let found = codec.decode(&mut src).unwrap().unwrap();
        assert_eq!(found.packet_id, 42);
        assert!(found.payload.is_empty());
        assert!(src.is_empty());
    }
}

#[test]
fn incomplete_length_prefix_waits() {
    let mut codec = MinecraftCodec::new();
    for held in [&[0x80][..], &[0xff, 0xff][..], &[0x80, 0x80, 0x80, 0x80][..]] {
        let mut src = BytesMut::from(held);
        assert!(codec.decode(&mut src).unwrap().is_none());
        assert_eq!(&src[..], held);
    }
}
