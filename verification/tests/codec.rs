use tunnelproto::error::ProtocolError;
use tunnelproto::handshake::{InitializationMessage, IpAddress, SocketAddress};
use tunnelproto::message::{Message, MessageType, ProtocolVersion, HEADER_LENGTH, MAGIC_BYTE};

fn sample_message(payload: Vec<u8>) -> Message {
    Message::new(MessageType::Data, 0xABCD_0123_4567_89EF_0011_2233_4455_6677, payload)
}

#[test]
fn message_round_trip() {
    let m = sample_message(vec![9, 8, 7, 6, 5]);
    let encoded = m.encode();
    let decoded = Message::decode(&encoded).expect("full frame must decode");
    assert_eq!(decoded, m);
}

#[test]
fn message_round_trip_empty_payload() {
    let m = Message::new(MessageType::Ping, 7, Vec::new());
    let encoded = m.encode();
    assert_eq!(encoded.len(), HEADER_LENGTH);
    let decoded = Message::decode(&encoded).expect("full frame must decode");
    assert_eq!(decoded, m);
}

#[test]
fn message_round_trip_every_type() {
    for t in [MessageType::Initial, MessageType::Data, MessageType::Close, MessageType::Ping] {
        let m = Message::new(t, 42, vec![1, 2, 3]);
        let decoded = Message::decode(&m.encode()).expect("full frame must decode");
        assert_eq!(decoded.message_type, t);
        assert_eq!(decoded, m);
    }
}

#[test]
fn prefix_of_frame_is_incomplete() {
    let m = sample_message(vec![1; 100]);
    let encoded = m.encode();
    for n in 0..encoded.len() {
        let prefix: Vec<u8> = encoded[..n].to_vec();
        assert_eq!(Message::decode(&prefix), Err(ProtocolError::Incomplete));
    }
    assert!(Message::decode(&encoded).is_ok());
}

#[test]
fn thirty_eight_bytes_are_incomplete() {
    let buf = vec![0u8; 38];
    assert_eq!(Message::decode(&buf), Err(ProtocolError::Incomplete));
}

#[test]
fn wrong_version_byte_is_rejected() {
    let m = sample_message(vec![1, 2, 3]);
    let mut encoded = m.encode();
    encoded[1] = 0x02;
    assert_eq!(Message::decode(&encoded), Err(ProtocolError::InvalidVersion));
}

#[test]
fn unknown_type_byte_is_rejected() {
    let m = sample_message(vec![1, 2, 3]);
    let mut encoded = m.encode();
    encoded[2] = 0x09;
    assert_eq!(Message::decode(&encoded), Err(ProtocolError::InvalidType));
}

#[test]
fn declared_length_beyond_buffer_is_incomplete() {
    let m = sample_message(vec![1, 2, 3, 4, 5]);
    let mut encoded = m.encode();
    encoded.truncate(HEADER_LENGTH + 3);
    assert_eq!(Message::decode(&encoded), Err(ProtocolError::Incomplete));
}

#[test]
fn encoded_data_example_layout() {
    let connection_id = 0x11111111_1111_1111_1111_111111111111u128;
    let m = Message::new(MessageType::Data, connection_id, b"ping".to_vec());
    let encoded = m.encode();
    assert_eq!(encoded.len(), 43);
    assert_eq!(encoded[0], MAGIC_BYTE);
    assert_eq!(encoded[1], 0x01);
    assert_eq!(encoded[2], 0x02);
    assert_eq!(&encoded[3..19], &[0x11; 16]);
    assert_eq!(&encoded[35..39], &[0x00, 0x00, 0x00, 0x04]);
    assert_eq!(&encoded[39..43], b"ping");
}

#[test]
fn fresh_message_identifiers_differ() {
    let a = Message::new(MessageType::Ping, 1, Vec::new());
    let b = Message::new(MessageType::Ping, 1, Vec::new());
    assert_ne!(a.message_id, b.message_id);
}

#[test]
fn decode_keeps_magic_and_version() {
    let m = sample_message(vec![1]);
    let decoded = Message::decode(&m.encode()).expect("full frame must decode");
    assert_eq!(decoded.magic, MAGIC_BYTE);
    assert!(matches!(decoded.version, ProtocolVersion::V1));
    assert_eq!(decoded.length, 1);
}

#[test]
fn initialization_round_trip() {
    let p = InitializationMessage::new(
        SocketAddress { ip: IpAddress::V4(0x7F00_0001), port: 20000 },
        SocketAddress { ip: IpAddress::V4(0x7F00_0001), port: 3000 },
    )
    .expect("IPv4 endpoints must be accepted");
    let encoded = p.encode();
    assert_eq!(encoded.len(), 12);
    let decoded = InitializationMessage::decode(&encoded).expect("12 bytes must decode");
    assert_eq!(decoded, p);
}

#[test]
fn initialization_layout_is_fixed() {
    let p = InitializationMessage::new(
        SocketAddress { ip: IpAddress::V4(0xC0A8_0102), port: 0x1234 },
        SocketAddress { ip: IpAddress::V4(0x0A00_0001), port: 0x00FF },
    )
    .expect("IPv4 endpoints must be accepted");
    let encoded = p.encode();
    assert_eq!(
        encoded,
        vec![0x12, 0x34, 0x00, 0xFF, 0xC0, 0xA8, 0x01, 0x02, 0x0A, 0x00, 0x00, 0x01]
    );
}

#[test]
fn ipv6_endpoint_is_unsupported() {
    let v6 = SocketAddress { ip: IpAddress::V6(1), port: 9 };
    let v4 = SocketAddress { ip: IpAddress::V4(0x7F00_0001), port: 9 };
    assert_eq!(
        InitializationMessage::new(v6, v4),
        Err(ProtocolError::UnsupportedAddressFamily)
    );
    assert_eq!(
        InitializationMessage::new(v4, v6),
        Err(ProtocolError::UnsupportedAddressFamily)
    );
}

#[test]
fn short_initialization_payload_is_incomplete() {
    let buf = vec![0u8; 11];
    assert_eq!(
        InitializationMessage::decode(&buf),
        Err(ProtocolError::Incomplete)
    );
}
