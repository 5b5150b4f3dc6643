use bytes::{BufMut, Bytes, BytesMut};
use playground_ui::error::UiError;
use playground_ui::messages::{decode_string, decode_uuid, encode_string, encode_uuid, encoded_string, encoded_uuid, UiPacketType};

#[test]
fn packet_type_numbers() {
    assert_eq!(UiPacketType::CreateElement.as_u16(), 1);
    assert_eq!(UiPacketType::ThemeUpdate.as_u16(), 105);
    assert_eq!(UiPacketType::TerminalState.as_u16(), 204);
    for v in 0..=u16::MAX {
        if let Ok(t) = UiPacketType::try_from(v) {
            assert_eq!(t.as_u16(), v);
        }
    }
    assert_eq!(UiPacketType::try_from(202).unwrap(), UiPacketType::TerminalConnect);
    match UiPacketType::try_from(300) {
        Err(UiError::InvalidOperation(m)) => assert_eq!(m, "Invalid packet type: 300"),
        other => panic!("unexpected {:?}", other),
    }
}

#[test]
fn every_packet_type_round_trips() {
    let all = [
        UiPacketType::CreateElement, UiPacketType::UpdateElement, UiPacketType::DeleteElement,
        UiPacketType::InputEvent, UiPacketType::ResizeScreen, UiPacketType::RequestState,
        UiPacketType::ElementCreated, UiPacketType::ElementUpdated, UiPacketType::ElementDeleted,
        UiPacketType::StateSync, UiPacketType::RenderBatch, UiPacketType::ThemeUpdate,
        UiPacketType::TerminalInput, UiPacketType::TerminalOutput, UiPacketType::TerminalConnect,
        UiPacketType::TerminalDisconnect, UiPacketType::TerminalState,
    ];
    for t in all {
        assert_eq!(UiPacketType::try_from(t.as_u16()).unwrap(), t);
    }
}

#[test]
fn string_wire_format() {
    let mut buf = BytesMut::new();
    encode_string(&mut buf, "héllo");
    assert_eq!(&buf[..], &[0, 0, 0, 6, b'h', 0xc3, 0xa9, b'l', b'l', b'o'][..]);
}

#[test]
fn string_round_trip_leaves_the_rest() {
    let mut buf = BytesMut::new();
    encode_string(&mut buf, "first");
    encode_string(&mut buf, "");
    encode_string(&mut buf, "日本");
    buf.put_u8(9);
    let mut data: Bytes = buf.freeze();
    assert_eq!(decode_string(&mut data).unwrap(), "first");
    assert_eq!(decode_string(&mut data).unwrap(), "");
    assert_eq!(decode_string(&mut data).unwrap(), "日本");
    assert_eq!(&data[..], &[9][..]);
}

#[test]
fn string_errors() {
    let mut data = Bytes::from_static(&[0, 0, 1]);
    match decode_string(&mut data) {
        Err(UiError::SerializationError(m)) => assert_eq!(m, "Not enough bytes for string length"),
        other => panic!("unexpected {:?}", other),
    }
    assert_eq!(data.len(), 3);
    let mut data = Bytes::from_static(&[0, 0, 0, 5, b'a', b'b']);
    match decode_string(&mut data) {
        Err(UiError::SerializationError(m)) => assert_eq!(m, "Not enough bytes for string: expected 5, got 2"),
        other => panic!("unexpected {:?}", other),
    }
    assert_eq!(&data[..], b"ab");
    let mut data = Bytes::from_static(&[0, 0, 0, 2, 0xff, 0xfe, 7]);
    match decode_string(&mut data) {
        Err(UiError::SerializationError(m)) => assert!(m.starts_with("Invalid UTF-8: ")),
        other => panic!("unexpected {:?}", other),
    }
    assert_eq!(&data[..], &[7][..]);
}

#[test]
fn uuid_round_trip() {
    let id: u128 = 0xa1a2a3a4b1b2c1c2d1d2d3d4d5d6d7d8;
    let mut buf = BytesMut::new();
    encode_uuid(&mut buf, id);
    assert_eq!(&buf[..], uuid::Uuid::from_u128(id).as_bytes());
    buf.put_u8(1);
    let mut data = buf.freeze();
    assert_eq!(decode_uuid(&mut data).unwrap(), id);
    assert_eq!(&data[..], &[1][..]);
    match decode_uuid(&mut data) {
        Err(UiError::SerializationError(m)) => assert_eq!(m, "Not enough bytes for UUID"),
        other => panic!("unexpected {:?}", other),
    }
    assert_eq!(&data[..], &[1][..]);
}

#[test]
fn fresh_buffers_read_back() {
    let mut b = encoded_string("h\u{e9}");
    assert_eq!(b.len(), 7);
    assert_eq!(decode_string(&mut b).unwrap(), "h\u{e9}");
    let mut u = encoded_uuid(0x0102);
    assert_eq!(u.len(), 16);
    assert_eq!(decode_uuid(&mut u).unwrap(), 0x0102);
}
