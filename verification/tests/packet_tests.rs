use server_dot::game_state::Position;
use server_dot::packet::connection_init::ConnectionInitPacketReceived;
use server_dot::packet::connection_init::ConnectionInitPacketSent;
use server_dot::packet::connection_init::ConnectionInitSync;
use server_dot::packet::ping::PlayerLeft;
use server_dot::packet::position::PlayerPosition;
use server_dot::packet::GamePacket;
use server_dot::packet::MessageType;
use server_dot::packet::PacketError;
use server_dot::packet::PositionGamePacket;
use server_dot::game_state::Player;

fn position(x: f32, y: f32) -> Position {
    Position::new(x.to_bits(), y.to_bits())
}

fn sample_id() -> Vec<u8> {
    b"abcdefghijklmnopqr".to_vec()
}

#[test]
fn header_round_trip() {
    let id: Vec<u8> = (1u8..=18).collect();
    let packet = GamePacket::new(MessageType::PositionUpdate, 0x0102_0304, vec![9, 8, 7], id.clone());
    let bytes = packet.serialize();
    assert_eq!(bytes.len(), 27);
    assert_eq!(bytes[0], 0x01);
    assert_eq!(bytes[1], 1);
    assert_eq!(&bytes[2..20], &id[..]);
    assert_eq!(&bytes[20..24], &[1, 2, 3, 4]);
    assert_eq!(&bytes[24..], &[9, 8, 7]);
    let back = GamePacket::deserialize(&bytes).unwrap();
    assert_eq!(back.msg_type, MessageType::PositionUpdate);
    assert_eq!(back.version, 1);
    assert_eq!(back.client_id, id);
    assert_eq!(back.seq_num, 0x0102_0304);
    assert_eq!(back.payload, vec![9, 8, 7]);
}

#[test]
fn every_message_type_round_trips() {
    let all = [
        (MessageType::PositionUpdate, 0x01u8),
        (MessageType::ChatMessage, 0x02),
        (MessageType::Heartbeat, 0x03),
        (MessageType::ConnectionInit, 0x04),
        (MessageType::PlayerJoin, 0x05),
        (MessageType::ConfirmPlayerMovement, 0x06),
        (MessageType::PlayerLeft, 0x07),
    ];
    for (msg_type, code) in all {
        assert_eq!(msg_type.to_byte(), code);
        assert_eq!(MessageType::from_byte(code), Some(msg_type));
        let packet = GamePacket::new(msg_type, u32::MAX, vec![], sample_id());
        let bytes = packet.serialize();
        assert_eq!(bytes.len(), 24);
        assert_eq!(bytes[0], code);
        assert_eq!(&bytes[20..24], &[0xff, 0xff, 0xff, 0xff]);
        let back = GamePacket::deserialize(&bytes).unwrap();
        assert_eq!(back.msg_type, msg_type);
        assert_eq!(back.seq_num, u32::MAX);
        assert_eq!(back.client_id, sample_id());
        assert!(back.payload.is_empty());
    }
}

#[test]
fn unknown_type_codes_stand_for_nothing() {
    assert_eq!(MessageType::from_byte(0x00), None);
    assert_eq!(MessageType::from_byte(0x08), None);
    assert_eq!(MessageType::from_byte(0xff), None);
}

#[test]
fn short_datagram_is_truncated_header() {
    let bytes = vec![1u8; 23];
    assert_eq!(GamePacket::deserialize(&bytes).unwrap_err(), PacketError::TruncatedHeader);
    assert_eq!(GamePacket::deserialize(&[]).unwrap_err(), PacketError::TruncatedHeader);
}

#[test]
fn short_datagram_with_unknown_code_is_truncated_header() {
    let bytes = vec![0x2au8; 10];
    assert_eq!(GamePacket::deserialize(&bytes).unwrap_err(), PacketError::TruncatedHeader);
}

#[test]
fn unknown_code_is_unknown_message_type() {
    let mut bytes = vec![0u8; 24];
    bytes[0] = 0x08;
    assert_eq!(GamePacket::deserialize(&bytes).unwrap_err(), PacketError::UnknownMessageType);
    bytes[0] = 0x00;
    assert_eq!(GamePacket::deserialize(&bytes).unwrap_err(), PacketError::UnknownMessageType);
}

#[test]
fn header_alone_has_empty_payload() {
    let mut bytes = vec![0u8; 24];
    bytes[0] = 0x03;
    bytes[1] = 7;
    bytes[23] = 5;
    let packet = GamePacket::deserialize(&bytes).unwrap();
    assert_eq!(packet.msg_type, MessageType::Heartbeat);
    assert_eq!(packet.version, 7);
    assert_eq!(packet.client_id, vec![0u8; 18]);
    assert_eq!(packet.seq_num, 5);
    assert!(packet.payload.is_empty());
}

#[test]
fn serialize_keeps_the_version_field() {
    let packet = GamePacket {
        msg_type: MessageType::ChatMessage,
        version: 9,
        client_id: sample_id(),
        seq_num: 256,
        payload: vec![1],
    };
    let bytes = packet.serialize();
    assert_eq!(bytes[1], 9);
    assert_eq!(&bytes[20..24], &[0, 0, 1, 0]);
    assert_eq!(GamePacket::deserialize(&bytes).unwrap().version, 9);
}

#[test]
fn position_bytes_are_big_endian() {
    let bytes = position(100.0, 200.0).serialize();
    assert_eq!(bytes, vec![0x42, 0xc8, 0x00, 0x00, 0x43, 0x48, 0x00, 0x00]);
    assert_eq!(bytes, [100.0f32.to_be_bytes(), 200.0f32.to_be_bytes()].concat());
}

#[test]
fn position_round_trip() {
    for (x, y) in [(100.0f32, 200.0f32), (-1.5, 0.0), (1.0e-20, 3.4e38), (600.0, 700.0)] {
        let p = position(x, y);
        let back = Position::deserialize(&p.serialize()).unwrap();
        assert_eq!(back, p);
        assert_eq!(f32::from_bits(back.x_bits), x);
        assert_eq!(f32::from_bits(back.y_bits), y);
    }
}

#[test]
fn position_round_trip_is_not_byte_reversed() {
    let p = Position::new(0x0102_0304, 0x0506_0708);
    let bytes = p.serialize();
    assert_eq!(bytes, vec![1, 2, 3, 4, 5, 6, 7, 8]);
    assert_eq!(Position::deserialize(&bytes), Some(p));
}

#[test]
fn position_needs_eight_bytes() {
    assert_eq!(Position::deserialize(&[0u8; 7]), None);
    assert_eq!(Position::deserialize(&[]), None);
    assert_eq!(Position::deserialize(&[0u8; 9]), Some(Position::new(0, 0)));
}

#[test]
fn position_packet_reads_the_payload() {
    let packet = GamePacket::new(
        MessageType::PositionUpdate,
        3,
        position(100.0, 200.0).serialize(),
        sample_id(),
    );
    let update = PositionGamePacket::new(&packet);
    assert_eq!(update.msg_type, MessageType::PositionUpdate);
    assert_eq!(update.version, 1);
    assert_eq!(update.client_id, sample_id());
    assert_eq!(update.seq_num, 3);
    assert_eq!(f32::from_bits(update.position.x_bits), 100.0);
    assert_eq!(f32::from_bits(update.position.y_bits), 200.0);
}

#[test]
fn player_position_round_trip() {
    let payload = PlayerPosition::new(sample_id(), position(12.5, -3.0));
    let bytes = payload.serialize();
    assert_eq!(bytes.len(), 26);
    assert_eq!(&bytes[..18], &sample_id()[..]);
    assert_eq!(&bytes[18..], &position(12.5, -3.0).serialize()[..]);
    let back = PlayerPosition::deserialize(&bytes).unwrap();
    assert_eq!(back.id, sample_id());
    assert_eq!(back.position, position(12.5, -3.0));
    assert!(PlayerPosition::deserialize(&bytes[..25]).is_none());
}

#[test]
fn player_left_round_trip() {
    let notice = PlayerLeft::new("abcdefghijklmnopqr".to_string());
    let bytes = notice.serialize();
    assert_eq!(bytes, sample_id());
    let back = PlayerLeft::deserialize(&bytes).unwrap();
    assert_eq!(back.player_id, "abcdefghijklmnopqr");
}

#[test]
fn player_left_reads_only_eighteen_bytes() {
    let mut bytes = sample_id();
    bytes.extend_from_slice(b"xyz");
    assert_eq!(PlayerLeft::deserialize(&bytes).unwrap().player_id, "abcdefghijklmnopqr");
    assert!(PlayerLeft::deserialize(&bytes[..17]).is_none());
}

#[test]
fn player_left_rejects_bytes_that_are_no_text() {
    let mut bytes = sample_id();
    bytes[4] = 0xff;
    assert!(PlayerLeft::deserialize(&bytes).is_none());
    let mut cut = sample_id();
    cut[17] = 0xc3;
    assert!(PlayerLeft::deserialize(&cut).is_none());
}

#[test]
fn player_left_reads_text_beyond_ascii() {
    let id = "\u{e9}\u{e9}\u{e9}\u{e9}\u{e9}\u{e9}\u{e9}\u{e9}\u{e9}";
    assert_eq!(id.len(), 18);
    let notice = PlayerLeft::new(id.to_string());
    let back = PlayerLeft::deserialize(&notice.serialize()).unwrap();
    assert_eq!(back.player_id, id);
}

#[test]
fn join_request_head_is_read_from_the_header() {
    let request = GamePacket::new(MessageType::ConnectionInit, 1, vec![], vec![0; 18]).serialize();
    let head = ConnectionInitPacketReceived::deserialize(&request).unwrap();
    assert_eq!(head.msg_type, MessageType::ConnectionInit);
    assert_eq!(head.version, 1);
    assert_eq!(head.seq_num, 1);

    let mut data = vec![0u8; 30];
    data[0] = 0x04;
    data[1] = 3;
    data[2..6].copy_from_slice(&[0x78, 0x56, 0x34, 0x12]);
    data[20..24].copy_from_slice(&[0x0a, 0x0b, 0x0c, 0x0d]);
    let head = ConnectionInitPacketReceived::deserialize(&data).unwrap();
    assert_eq!(head.msg_type, MessageType::ConnectionInit);
    assert_eq!(head.version, 3);
    assert_eq!(head.seq_num, 0x0a0b_0c0d);
    let whole = GamePacket::deserialize(&data).unwrap();
    assert_eq!(head.msg_type, whole.msg_type);
    assert_eq!(head.version, whole.version);
    assert_eq!(head.seq_num, whole.seq_num);
}

#[test]
fn join_request_head_needs_a_whole_header() {
    let short = [0x04u8, 0x01, 0x78, 0x56, 0x34, 0x12];
    assert!(ConnectionInitPacketReceived::deserialize(&short).is_none());
    assert!(ConnectionInitPacketReceived::deserialize(&[0x04u8; 23]).is_none());
    assert!(ConnectionInitPacketReceived::deserialize(&[0x04u8; 24]).is_some());
    assert!(ConnectionInitPacketReceived::deserialize(&[]).is_none());
}

#[test]
fn join_request_head_needs_a_known_type() {
    assert!(ConnectionInitPacketReceived::deserialize(&[0x09u8; 24]).is_none());
    assert!(ConnectionInitPacketReceived::deserialize(&[0x00u8; 24]).is_none());
    let head = ConnectionInitPacketReceived::deserialize(&[0x07u8; 24]).unwrap();
    assert_eq!(head.msg_type, MessageType::PlayerLeft);
}

#[test]
fn join_reply_lists_each_player() {
    let players = vec![
        Player {
            id: "AAAAAAAAAAAAAAAAAA".to_string(),
            seq_num: 1,
            position: position(1.0, 2.0),
            heartbeat: 0,
        },
        Player {
            id: "BBBBBBBBBBBBBBBBBB".to_string(),
            seq_num: 2,
            position: position(3.0, 4.0),
            heartbeat: 0,
        },
    ];
    let reply = ConnectionInitPacketSent::new(77, sample_id(), players);
    assert_eq!(reply.msg_type, MessageType::ConnectionInit);
    assert_eq!(reply.version, 1);
    let packet = reply.serialize();
    assert_eq!(packet.msg_type, MessageType::ConnectionInit);
    assert_eq!(packet.version, 1);
    assert_eq!(packet.seq_num, 77);
    assert_eq!(packet.client_id, sample_id());
    assert_eq!(packet.payload.len(), 52);
    let first = PlayerPosition::deserialize(&packet.payload[..26]).unwrap();
    assert_eq!(first.id, b"AAAAAAAAAAAAAAAAAA".to_vec());
    assert_eq!(first.position, position(1.0, 2.0));
    let second = PlayerPosition::deserialize(&packet.payload[26..]).unwrap();
    assert_eq!(second.id, b"BBBBBBBBBBBBBBBBBB".to_vec());
    assert_eq!(second.position, position(3.0, 4.0));
}

#[test]
fn join_reply_to_the_first_player_has_no_payload() {
    let packet = ConnectionInitPacketSent::new(1, sample_id(), vec![]).serialize();
    assert!(packet.payload.is_empty());
    assert_eq!(packet.serialize().len(), 24);
}

#[test]
fn join_announcement_round_trip() {
    let payload = ConnectionInitSync::new(sample_id(), position(600.0, 700.0));
    let bytes = payload.serialize();
    assert_eq!(bytes.len(), 26);
    assert_eq!(&bytes[..18], &sample_id()[..]);
    assert_eq!(&bytes[18..], &[0x44, 0x16, 0, 0, 0x44, 0x2f, 0, 0]);
    let back = ConnectionInitSync::deserialize(&bytes).unwrap();
    assert_eq!(back.serialize(), bytes);
    assert!(ConnectionInitSync::deserialize(&bytes[..25]).is_none());
}
