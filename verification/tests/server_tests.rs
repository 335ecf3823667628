use std::collections::HashSet;

use server_dot::game_state::Player;
use server_dot::game_state::Position;
use server_dot::game_state::NANOS_PER_SEC;
use server_dot::ident::fresh_player_id;
use server_dot::packet::position::PlayerPosition;
use server_dot::packet::GamePacket;
use server_dot::packet::MessageType;
use server_dot::packet::Outbound;
use server_dot::server::GameServer;
use server_dot::server::ServerError;
use server_dot::server::SPAWN_X_BITS;
use server_dot::server::SPAWN_Y_BITS;

const ALPHABET: &str = "_-0123456789abcdefghijklmnopqrstuvwxyzABCDEFGHIJKLMNOPQRSTUVWXYZ";

fn position(x: f32, y: f32) -> Position {
    Position::new(x.to_bits(), y.to_bits())
}

fn player(id: &str) -> Player {
    Player { id: id.to_string(), seq_num: 0, position: position(0.0, 0.0), heartbeat: 0 }
}

fn init_packet(seq_num: u32) -> GamePacket {
    GamePacket::new(MessageType::ConnectionInit, seq_num, vec![], vec![0; 18])
}

fn sent_to<'a>(out: &'a [Outbound], address: &str) -> Vec<&'a Outbound> {
    out.iter().filter(|o| o.destination == address).collect()
}

#[test]
fn spawn_position_is_600_by_700() {
    assert_eq!(f32::from_bits(SPAWN_X_BITS), 600.0);
    assert_eq!(f32::from_bits(SPAWN_Y_BITS), 700.0);
}

#[test]
fn fresh_ids_have_eighteen_characters_of_the_alphabet() {
    let mut seen = HashSet::new();
    for _ in 0..50 {
        let id = fresh_player_id();
        assert_eq!(id.len(), 18);
        assert_eq!(id.chars().count(), 18);
        assert!(id.chars().all(|c| ALPHABET.contains(c)));
        assert!(seen.insert(id));
    }
}

#[test]
fn test_initial_game_state() {
    let server = GameServer::new();
    assert_eq!(server.game_state.get_player_count(), 0);
    assert_eq!(server.game_state.get_width(), 1920);
    assert_eq!(server.game_state.get_height(), 1080);
}

#[test]
fn test_handle_position_update() {
    let mut server = GameServer::new();
    let addr = "0.0.0.0:50000";
    let mut first = player(&fresh_player_id());
    first.position = position(700.0, 700.0);
    server.game_state.add_player(first, addr.to_string());
    let package = GamePacket {
        msg_type: MessageType::PositionUpdate,
        version: 1,
        client_id: vec![1, 2, 3, 4, 5, 6, 7, 8, 9, 10, 11, 12, 13, 14, 15, 16, 17, 18],
        seq_num: 0,
        payload: vec![0, 0, 0, 0, 0, 0, 0, 0],
    };
    let out = server.handle_position_update(&package, addr).unwrap();
    assert_eq!(out.len(), 1);
    assert_eq!(out[0].destination, addr);
    assert_eq!(*server.game_state.get_player_position(addr).unwrap(), position(0.0, 0.0));
}

#[test]
fn test_position_update_broadcast() {
    let mut server = GameServer::new();
    let clients = ["127.0.0.1:40001", "127.0.0.1:40002", "127.0.0.1:40003"];
    for client in clients {
        server.game_state.add_player(player(&fresh_player_id()), client.to_string());
    }

    let new_pos = position(100.0, 200.0);
    let player_id = fresh_player_id().as_bytes().to_vec();
    let update = GamePacket::new(
        MessageType::PositionUpdate,
        1,
        new_pos.serialize(),
        player_id.clone(),
    );

    let out = server.handle_datagram(&update.serialize(), clients[0], 0).unwrap();

    for client in &clients[1..] {
        let got = sent_to(&out, client);
        assert_eq!(got.len(), 1);
        let packet = GamePacket::deserialize(&got[0].packet.serialize()).unwrap();
        assert_eq!(packet.msg_type, MessageType::PositionUpdate);
        let position_packet = PlayerPosition::deserialize(&packet.payload).unwrap();
        let epsilon = 0.0001;
        assert!((f32::from_bits(position_packet.position.x_bits) - 100.0).abs() < epsilon);
        assert!((f32::from_bits(position_packet.position.y_bits) - 200.0).abs() < epsilon);
        assert_eq!(position_packet.id, player_id);
    }
    assert_eq!(*server.game_state.get_player_position(clients[0]).unwrap(), new_pos);
}

#[test]
fn test_handle_heartbeat() {
    let mut server = GameServer::new();
    let addr = "127.0.0.1:50001";
    let mut first = player(&fresh_player_id());
    first.position = position(700.0, 700.0);
    server.game_state.add_player(first, addr.to_string());
    assert_eq!(server.handle_heartbeat(addr, 5 * NANOS_PER_SEC), Ok(()));
    assert_eq!(server.game_state.get_player(addr).unwrap().heartbeat, 5 * NANOS_PER_SEC);
}

#[test]
fn test_handle_connection_init() {
    let mut server = GameServer::new();
    let client = "127.0.0.1:40010";
    let init_packet = init_packet(1);
    let out = server.handle_datagram(&init_packet.serialize(), client, 123).unwrap();

    assert_eq!(out.len(), 1);
    assert_eq!(out[0].destination, client);
    let packet = GamePacket::deserialize(&out[0].packet.serialize()).unwrap();
    assert_eq!(packet.msg_type, MessageType::ConnectionInit);
    assert_eq!(server.game_state.get_player_count(), 1);

    let entry = &server.game_state.get_players()[0];
    assert_eq!(entry.address, client);
    let player = &entry.player;
    assert_eq!(f32::from_bits(player.position.x_bits), 600.0);
    assert_eq!(f32::from_bits(player.position.y_bits), 700.0);
    assert_eq!(player.seq_num, init_packet.seq_num);
    assert_eq!(player.id.len(), 18);
    assert_eq!(player.heartbeat, 123);
    assert_eq!(packet.client_id, player.id.as_bytes());
    assert_eq!(packet.seq_num, 1);
    assert!(packet.payload.is_empty());
}

#[test]
fn test_multiple_connection_init_responses() {
    let mut server = GameServer::new();
    let clients = ["127.0.0.1:40021", "127.0.0.1:40022"];
    let empty_client_id = vec![0; 18];

    let mut received_ids = HashSet::new();
    for client in clients {
        let init_packet =
            GamePacket::new(MessageType::ConnectionInit, 1, vec![], empty_client_id.clone());
        let out = server.handle_datagram(&init_packet.serialize(), client, 0).unwrap();
        let replies = sent_to(&out, client);
        assert_eq!(replies.len(), 1);
        let packet = GamePacket::deserialize(&replies[0].packet.serialize()).unwrap();
        assert_eq!(packet.msg_type, MessageType::ConnectionInit);
        assert!(!received_ids.contains(&packet.client_id));
        received_ids.insert(packet.client_id.clone());
        assert_ne!(packet.client_id, empty_client_id);
    }

    assert_eq!(server.game_state.get_player_count(), 2);
}

#[test]
fn many_joins_give_as_many_entries_with_distinct_ids() {
    let mut server = GameServer::new();
    let n = 40;
    for i in 0..n {
        let addr = format!("10.0.0.{}:7000", i);
        let (id, out) = server.handle_connection_init(&init_packet(i), &addr, 0).unwrap();
        assert_eq!(id.len(), 18);
        assert_eq!(out.len(), 1 + i as usize);
    }
    assert_eq!(server.game_state.get_player_count(), n as usize);
    let ids: HashSet<String> =
        server.game_state.get_players().iter().map(|e| e.player.id.clone()).collect();
    assert_eq!(ids.len(), n as usize);
}

#[test]
fn join_with_a_given_id_replies_and_announces() {
    let mut server = GameServer::new();
    server.game_state.add_player(player("AAAAAAAAAAAAAAAAAA"), "127.0.0.1:1".to_string());
    let mut second = player("BBBBBBBBBBBBBBBBBB");
    second.position = position(3.0, 4.0);
    server.game_state.add_player(second, "127.0.0.1:2".to_string());

    let out = server
        .register_player(&init_packet(9), "127.0.0.1:3", 77, "CCCCCCCCCCCCCCCCCC".to_string())
        .unwrap();

    assert_eq!(server.game_state.get_player_count(), 3);
    let joined = server.game_state.get_player("127.0.0.1:3").unwrap();
    assert_eq!(joined.id, "CCCCCCCCCCCCCCCCCC");
    assert_eq!(joined.seq_num, 9);
    assert_eq!(joined.heartbeat, 77);
    assert_eq!(joined.position, position(600.0, 700.0));

    assert_eq!(out.len(), 3);
    let reply = &out[0];
    assert_eq!(reply.destination, "127.0.0.1:3");
    assert_eq!(reply.packet.msg_type, MessageType::ConnectionInit);
    assert_eq!(reply.packet.version, 1);
    assert_eq!(reply.packet.seq_num, 9);
    assert_eq!(reply.packet.client_id, b"CCCCCCCCCCCCCCCCCC");
    assert_eq!(reply.packet.payload.len(), 52);
    let first = PlayerPosition::deserialize(&reply.packet.payload[..26]).unwrap();
    assert_eq!(first.id, b"AAAAAAAAAAAAAAAAAA");
    assert_eq!(first.position, position(0.0, 0.0));
    let other = PlayerPosition::deserialize(&reply.packet.payload[26..]).unwrap();
    assert_eq!(other.id, b"BBBBBBBBBBBBBBBBBB");
    assert_eq!(other.position, position(3.0, 4.0));

    for (notice, (address, id)) in out[1..]
        .iter()
        .zip([("127.0.0.1:1", "AAAAAAAAAAAAAAAAAA"), ("127.0.0.1:2", "BBBBBBBBBBBBBBBBBB")])
    {
        assert_eq!(notice.destination, address);
        assert_eq!(notice.packet.msg_type, MessageType::PlayerJoin);
        assert_eq!(notice.packet.version, 1);
        assert_eq!(notice.packet.seq_num, 9);
        assert_eq!(notice.packet.client_id, id.as_bytes());
        let payload = PlayerPosition::deserialize(&notice.packet.payload).unwrap();
        assert_eq!(notice.packet.payload.len(), 26);
        assert_eq!(payload.id, b"CCCCCCCCCCCCCCCCCC");
        assert_eq!(payload.position, position(600.0, 700.0));
    }
}

#[test]
fn join_from_a_known_address_replaces_the_player() {
    let mut server = GameServer::new();
    server.game_state.add_player(player("AAAAAAAAAAAAAAAAAA"), "127.0.0.1:1".to_string());
    server.game_state.add_player(player("BBBBBBBBBBBBBBBBBB"), "127.0.0.1:2".to_string());
    let out = server
        .register_player(&init_packet(1), "127.0.0.1:1", 5, "CCCCCCCCCCCCCCCCCC".to_string())
        .unwrap();
    assert_eq!(server.game_state.get_player_count(), 2);
    assert_eq!(server.game_state.get_player("127.0.0.1:1").unwrap().id, "CCCCCCCCCCCCCCCCCC");
    assert_eq!(out.len(), 2);
    assert_eq!(out[0].destination, "127.0.0.1:1");
    assert_eq!(out[0].packet.payload.len(), 26);
    assert_eq!(out[1].destination, "127.0.0.1:2");
    assert_eq!(out[1].packet.msg_type, MessageType::PlayerJoin);
}

#[test]
fn join_under_an_id_in_use_is_refused() {
    let mut server = GameServer::new();
    server.game_state.add_player(player("AAAAAAAAAAAAAAAAAA"), "127.0.0.1:1".to_string());
    server.game_state.add_player(player("BBBBBBBBBBBBBBBBBB"), "127.0.0.1:2".to_string());
    let refused = server.register_player(
        &init_packet(1),
        "127.0.0.1:3",
        5,
        "AAAAAAAAAAAAAAAAAA".to_string(),
    );
    assert_eq!(refused.unwrap_err(), ServerError::IdCollision);
    assert_eq!(server.game_state.get_player_count(), 2);
    assert!(server.game_state.get_player("127.0.0.1:3").is_none());

    let refused = server.register_player(
        &init_packet(1),
        "127.0.0.1:2",
        5,
        "AAAAAAAAAAAAAAAAAA".to_string(),
    );
    assert_eq!(refused.unwrap_err(), ServerError::IdCollision);
    assert_eq!(server.game_state.get_player("127.0.0.1:2").unwrap().id, "BBBBBBBBBBBBBBBBBB");
}

#[test]
fn join_again_under_the_same_id_from_the_same_address_is_accepted() {
    let mut server = GameServer::new();
    server.game_state.add_player(player("AAAAAAAAAAAAAAAAAA"), "127.0.0.1:1".to_string());
    let out = server
        .register_player(&init_packet(4), "127.0.0.1:1", 8, "AAAAAAAAAAAAAAAAAA".to_string())
        .unwrap();
    assert_eq!(out.len(), 1);
    assert_eq!(server.game_state.get_player_count(), 1);
    let joined = server.game_state.get_player("127.0.0.1:1").unwrap();
    assert_eq!(joined.seq_num, 4);
    assert_eq!(joined.heartbeat, 8);
}

#[test]
fn packets_of_any_size_in_memory_can_be_encoded() {
    let packet = GamePacket::new(MessageType::ChatMessage, 7, vec![0xab; 70_000], vec![b'x'; 18]);
    let bytes = packet.try_serialize().unwrap();
    assert_eq!(bytes.len(), 70_024);
    assert_eq!(bytes, packet.serialize());
    let back = GamePacket::deserialize(&bytes).unwrap();
    assert_eq!(back.payload, packet.payload);
    assert_eq!(back.client_id, packet.client_id);
    assert_eq!(back.seq_num, 7);
}

#[test]
fn position_update_goes_to_everyone_but_the_sender() {
    let mut server = GameServer::new();
    server.game_state.add_player(player("AAAAAAAAAAAAAAAAAA"), "127.0.0.1:1".to_string());
    server.game_state.add_player(player("BBBBBBBBBBBBBBBBBB"), "127.0.0.1:2".to_string());
    server.game_state.add_player(player("CCCCCCCCCCCCCCCCCC"), "127.0.0.1:3".to_string());
    let update = GamePacket::new(
        MessageType::PositionUpdate,
        11,
        position(100.0, 200.0).serialize(),
        b"BBBBBBBBBBBBBBBBBB".to_vec(),
    );
    let out = server.handle_message(&update, "127.0.0.1:2", 0).unwrap();

    assert_eq!(
        *server.game_state.get_player_position("127.0.0.1:2").unwrap(),
        position(100.0, 200.0)
    );
    assert_eq!(
        *server.game_state.get_player_position("127.0.0.1:1").unwrap(),
        position(0.0, 0.0)
    );
    assert!(sent_to(&out, "127.0.0.1:2").is_empty());
    assert_eq!(out.len(), 2);
    for (forward, (address, id)) in out
        .iter()
        .zip([("127.0.0.1:1", "AAAAAAAAAAAAAAAAAA"), ("127.0.0.1:3", "CCCCCCCCCCCCCCCCCC")])
    {
        assert_eq!(forward.destination, address);
        assert_eq!(forward.packet.msg_type, MessageType::PositionUpdate);
        assert_eq!(forward.packet.version, 1);
        assert_eq!(forward.packet.seq_num, 11);
        assert_eq!(forward.packet.client_id, id.as_bytes());
        let payload = PlayerPosition::deserialize(&forward.packet.payload).unwrap();
        assert_eq!(payload.id, b"BBBBBBBBBBBBBBBBBB");
        assert_eq!(payload.position, position(100.0, 200.0));
    }
}

#[test]
fn sender_is_left_out_by_the_id_it_claims() {
    let mut server = GameServer::new();
    server.game_state.add_player(player("AAAAAAAAAAAAAAAAAA"), "127.0.0.1:1".to_string());
    server.game_state.add_player(player("BBBBBBBBBBBBBBBBBB"), "127.0.0.1:2".to_string());
    let update = GamePacket::new(
        MessageType::PositionUpdate,
        1,
        position(1.0, 2.0).serialize(),
        b"AAAAAAAAAAAAAAAAAA".to_vec(),
    );
    let out = server.handle_position_update(&update, "127.0.0.1:2").unwrap();
    assert_eq!(out.len(), 1);
    assert_eq!(out[0].destination, "127.0.0.1:2");
    assert_eq!(*server.game_state.get_player_position("127.0.0.1:2").unwrap(), position(1.0, 2.0));
    assert_eq!(*server.game_state.get_player_position("127.0.0.1:1").unwrap(), position(0.0, 0.0));
}

#[test]
fn claimed_id_that_is_no_text_leaves_nobody_out() {
    let mut server = GameServer::new();
    server.game_state.add_player(player("AAAAAAAAAAAAAAAAAA"), "127.0.0.1:1".to_string());
    let update = GamePacket::new(
        MessageType::PositionUpdate,
        1,
        position(1.0, 2.0).serialize(),
        vec![0xff; 18],
    );
    let out = server.handle_position_update(&update, "127.0.0.1:1").unwrap();
    assert_eq!(out.len(), 1);
    assert_eq!(out[0].destination, "127.0.0.1:1");
}

#[test]
fn position_update_with_short_payload_is_rejected() {
    let mut server = GameServer::new();
    server.game_state.add_player(player("AAAAAAAAAAAAAAAAAA"), "127.0.0.1:1".to_string());
    let update = GamePacket::new(
        MessageType::PositionUpdate,
        1,
        vec![0; 7],
        b"AAAAAAAAAAAAAAAAAA".to_vec(),
    );
    assert_eq!(
        server.handle_message(&update, "127.0.0.1:1", 0).unwrap_err(),
        ServerError::TruncatedPayload
    );
    assert_eq!(*server.game_state.get_player_position("127.0.0.1:1").unwrap(), position(0.0, 0.0));
}

#[test]
fn position_update_from_an_unknown_address_is_dropped() {
    let mut server = GameServer::new();
    server.game_state.add_player(player("AAAAAAAAAAAAAAAAAA"), "127.0.0.1:1".to_string());
    let update = GamePacket::new(
        MessageType::PositionUpdate,
        1,
        position(1.0, 2.0).serialize(),
        b"BBBBBBBBBBBBBBBBBB".to_vec(),
    );
    assert_eq!(
        server.handle_message(&update, "127.0.0.1:9", 0).unwrap_err(),
        ServerError::AddressUnregistered
    );
    assert_eq!(server.game_state.get_player_count(), 1);
    assert_eq!(*server.game_state.get_player_position("127.0.0.1:1").unwrap(), position(0.0, 0.0));
}

#[test]
fn heartbeat_from_an_unknown_address_is_an_error() {
    let mut server = GameServer::new();
    server.game_state.add_player(player("AAAAAAAAAAAAAAAAAA"), "127.0.0.1:1".to_string());
    assert_eq!(server.handle_heartbeat("127.0.0.1:2", 9), Err(ServerError::AddressUnregistered));
    let beat = GamePacket::new(MessageType::Heartbeat, 0, vec![], vec![0; 18]);
    assert_eq!(
        server.handle_datagram(&beat.serialize(), "127.0.0.1:2", 9).unwrap_err(),
        ServerError::AddressUnregistered
    );
    assert_eq!(server.game_state.get_player("127.0.0.1:1").unwrap().heartbeat, 0);
    assert_eq!(server.game_state.get_player_count(), 1);
}

#[test]
fn heartbeat_datagram_sends_nothing_back() {
    let mut server = GameServer::new();
    server.game_state.add_player(player("AAAAAAAAAAAAAAAAAA"), "127.0.0.1:1".to_string());
    let beat = GamePacket::new(MessageType::Heartbeat, 0, vec![], b"AAAAAAAAAAAAAAAAAA".to_vec());
    let out = server.handle_datagram(&beat.serialize(), "127.0.0.1:1", 31).unwrap();
    assert!(out.is_empty());
    assert_eq!(server.game_state.get_player("127.0.0.1:1").unwrap().heartbeat, 31);
}

#[test]
fn malformed_datagrams_change_nothing() {
    let mut server = GameServer::new();
    server.game_state.add_player(player("AAAAAAAAAAAAAAAAAA"), "127.0.0.1:1".to_string());
    assert_eq!(
        server.handle_datagram(&[4u8; 23], "127.0.0.1:2", 1).unwrap_err(),
        ServerError::TruncatedHeader
    );
    assert_eq!(
        server.handle_datagram(&[9u8; 40], "127.0.0.1:2", 1).unwrap_err(),
        ServerError::UnknownMessageType
    );
    assert_eq!(server.game_state.get_player_count(), 1);
}

#[test]
fn server_to_client_types_are_ignored_when_they_arrive() {
    let mut server = GameServer::new();
    server.game_state.add_player(player("AAAAAAAAAAAAAAAAAA"), "127.0.0.1:1".to_string());
    for msg_type in [
        MessageType::ChatMessage,
        MessageType::PlayerJoin,
        MessageType::ConfirmPlayerMovement,
        MessageType::PlayerLeft,
    ] {
        let packet =
            GamePacket::new(msg_type, 1, vec![1, 2, 3], b"AAAAAAAAAAAAAAAAAA".to_vec());
        let out = server.handle_datagram(&packet.serialize(), "127.0.0.1:1", 50).unwrap();
        assert!(out.is_empty());
    }
    assert_eq!(server.game_state.get_player_count(), 1);
    assert_eq!(server.game_state.get_player("127.0.0.1:1").unwrap().heartbeat, 0);
}

#[test]
fn two_clients_join_and_one_moves() {
    let mut server = GameServer::new();
    let c1 = "127.0.0.1:41001";
    let c2 = "127.0.0.1:41002";

    let out = server.handle_datagram(&init_packet(1).serialize(), c1, 0).unwrap();
    assert_eq!(out.len(), 1);
    assert_eq!(out[0].destination, c1);
    let reply1 = GamePacket::deserialize(&out[0].packet.serialize()).unwrap();
    assert_eq!(reply1.msg_type, MessageType::ConnectionInit);
    assert!(reply1.payload.is_empty());
    let id1 = reply1.client_id.clone();
    assert_eq!(id1.len(), 18);

    let out = server.handle_datagram(&init_packet(1).serialize(), c2, 1).unwrap();
    assert_eq!(out.len(), 2);
    let to_c2 = sent_to(&out, c2);
    assert_eq!(to_c2.len(), 1);
    let reply2 = GamePacket::deserialize(&to_c2[0].packet.serialize()).unwrap();
    assert_eq!(reply2.msg_type, MessageType::ConnectionInit);
    assert_eq!(reply2.payload.len(), 26);
    let roster = PlayerPosition::deserialize(&reply2.payload).unwrap();
    assert_eq!(roster.id, id1);
    assert_eq!(roster.position, position(600.0, 700.0));
    let id2 = reply2.client_id.clone();
    assert_ne!(id1, id2);

    let to_c1 = sent_to(&out, c1);
    assert_eq!(to_c1.len(), 1);
    let join = GamePacket::deserialize(&to_c1[0].packet.serialize()).unwrap();
    assert_eq!(join.msg_type, MessageType::PlayerJoin);
    assert_eq!(join.client_id, id1);
    let announced = PlayerPosition::deserialize(&join.payload).unwrap();
    assert_eq!(announced.id, id2);

    let update = GamePacket::new(
        MessageType::PositionUpdate,
        2,
        position(100.0, 200.0).serialize(),
        id1.clone(),
    );
    let out = server.handle_datagram(&update.serialize(), c1, 2).unwrap();
    assert_eq!(out.len(), 1);
    assert_eq!(out[0].destination, c2);
    let forwarded = GamePacket::deserialize(&out[0].packet.serialize()).unwrap();
    assert_eq!(forwarded.msg_type, MessageType::PositionUpdate);
    assert_eq!(forwarded.client_id, id2);
    let moved = PlayerPosition::deserialize(&forwarded.payload).unwrap();
    assert_eq!(moved.id, id1);
    assert_eq!(f32::from_bits(moved.position.x_bits), 100.0);
    assert_eq!(f32::from_bits(moved.position.y_bits), 200.0);
    assert_eq!(*server.game_state.get_player_position(c1).unwrap(), position(100.0, 200.0));
}
