use rollback_server::client_messages::{
    ClientHeader, ClientMessageType, ClientPayload, GameMatchData, MatchResultPayload,
    PlayerConnectionPaylod, PlayerData, PlayerInputAckPayload, PlayerInputPayload, PongPayload,
    ReadyForMatchPayload, UdpClientMessage,
};
use rollback_server::serializer::{
    parse_client_message, serialize_client_message, serialize_server_message, ParseError,
};
use rollback_server::server_messages::{
    Empty, Header, Kick, PlayerConnection, PlayerDisconnected, PlayerGetReady, PlayerInputs,
    RequestPing, ServerMessagePayload, ServerMessageType, UdpServerMessage,
};

fn message(type_: ClientMessageType, sequence: u32, payload: ClientPayload) -> UdpClientMessage {
    UdpClientMessage { header: ClientHeader { type_, sequence }, payload }
}

#[test]
fn player_connection_round_trip() {
    let m = message(
        ClientMessageType::PlayerConnection,
        7,
        ClientPayload::PlayerConnectionPaylod(PlayerConnectionPaylod {
            message_version: 3,
            player_data: PlayerData { team_id: 1, player_index: 2 },
            match_data: GameMatchData {
                match_id: "match-42".to_string(),
                key: "secret".to_string(),
                environment_id: "prod".to_string(),
            },
        }),
    );
    let bytes = serialize_client_message(&m);
    assert_eq!(bytes.len(), 106);
    assert_eq!(&bytes[0..5], &[1, 7, 0, 0, 0]);
    let parsed = parse_client_message(&bytes).unwrap();
    assert_eq!(parsed.header.type_, ClientMessageType::PlayerConnection);
    assert_eq!(parsed.header.sequence, 7);
    match parsed.payload {
        ClientPayload::PlayerConnectionPaylod(p) => {
            assert_eq!(p.message_version, 3);
            assert_eq!(p.player_data, PlayerData { team_id: 1, player_index: 2 });
            assert_eq!(p.match_data.match_id, "match-42");
            assert_eq!(p.match_data.key, "secret");
            assert_eq!(p.match_data.environment_id, "prod");
        }
        _ => panic!("wrong payload"),
    }
}

#[test]
fn player_input_round_trip() {
    let m = message(
        ClientMessageType::PlayerInput,
        0x01020304,
        ClientPayload::PlayerInputPayload(PlayerInputPayload {
            start_frame: 10,
            client_frame: 12,
            num_frames: 3,
            num_checksums: 1,
            input_per_frame: vec![0xAABBCCDD, 0, 5],
            checksum_per_frame: vec![99],
        }),
    );
    let bytes = serialize_client_message(&m);
    assert_eq!(bytes.len(), 15 + 16);
    assert_eq!(&bytes[1..5], &[4, 3, 2, 1]);
    let parsed = parse_client_message(&bytes).unwrap();
    match parsed.payload {
        ClientPayload::PlayerInputPayload(p) => {
            assert_eq!(p.start_frame, 10);
            assert_eq!(p.client_frame, 12);
            assert_eq!(p.num_frames, 3);
            assert_eq!(p.num_checksums, 1);
            assert_eq!(p.input_per_frame, vec![0xAABBCCDD, 0, 5]);
            assert_eq!(p.checksum_per_frame, vec![99]);
        }
        _ => panic!("wrong payload"),
    }
}

#[test]
fn ack_and_small_messages_round_trip() {
    let ack = message(
        ClientMessageType::PlayerInputAck,
        1,
        ClientPayload::PlayerInputAckPayload(PlayerInputAckPayload {
            num_players: 2,
            ack_frame: vec![4, 9],
            server_message_sequence_number: 77,
        }),
    );
    match parse_client_message(&serialize_client_message(&ack)).unwrap().payload {
        ClientPayload::PlayerInputAckPayload(p) => {
            assert_eq!(p.num_players, 2);
            assert_eq!(p.ack_frame, vec![4, 9]);
            assert_eq!(p.server_message_sequence_number, 77);
        }
        _ => panic!("wrong payload"),
    }
    let result = message(
        ClientMessageType::MatchResult,
        2,
        ClientPayload::MatchResultPayload(MatchResultPayload {
            num_players: 2,
            last_frame_checksum: 0xDEADBEEF,
            winning_team_index: 1,
        }),
    );
    match parse_client_message(&serialize_client_message(&result)).unwrap().payload {
        ClientPayload::MatchResultPayload(p) => {
            assert_eq!(
                p,
                MatchResultPayload { num_players: 2, last_frame_checksum: 0xDEADBEEF, winning_team_index: 1 }
            );
        }
        _ => panic!("wrong payload"),
    }
    let pong = message(
        ClientMessageType::Pong,
        3,
        ClientPayload::PongPayload(PongPayload { server_message_sequence_number: 500 }),
    );
    match parse_client_message(&serialize_client_message(&pong)).unwrap().payload {
        ClientPayload::PongPayload(p) => assert_eq!(p.server_message_sequence_number, 500),
        _ => panic!("wrong payload"),
    }
    let ready = message(
        ClientMessageType::ReadyForMatch,
        4,
        ClientPayload::ReadyForMatchPayload(ReadyForMatchPayload { ready: 1 }),
    );
    assert_eq!(serialize_client_message(&ready), vec![8, 4, 0, 0, 0, 1]);
    let punch = message(ClientMessageType::MVSI_HOLE_PUNCH, 0, ClientPayload::MVSI_HOLE_PUNCH());
    let parsed = parse_client_message(&serialize_client_message(&punch)).unwrap();
    assert_eq!(parsed.header.type_, ClientMessageType::MVSI_HOLE_PUNCH);
}

#[test]
fn parse_errors() {
    assert_eq!(parse_client_message(&[1, 0, 0]).unwrap_err(), ParseError::ShortHeader);
    assert_eq!(parse_client_message(&[9, 0, 0, 0, 0]).unwrap_err(), ParseError::UnknownType);
    assert_eq!(parse_client_message(&[5, 0, 0, 0, 0, 1, 2]).unwrap_err(), ParseError::Truncated);
    // A PlayerInput announcing two frames but carrying one.
    let mut b = vec![2, 0, 0, 0, 0, 1, 0, 0, 0, 1, 0, 0, 0, 2, 0];
    b.extend_from_slice(&[1, 0, 0, 0]);
    assert_eq!(parse_client_message(&b).unwrap_err(), ParseError::Truncated);
}

#[test]
fn text_fields_stop_at_zero_and_replace_invalid_utf8() {
    let mut b = vec![1u8, 0, 0, 0, 0, 1, 0, 2, 0, 3, 0];
    let mut id = vec![0u8; 25];
    id[0] = b'a';
    id[1] = 0xFF;
    id[2] = b'b';
    id[4] = b'z';
    b.extend_from_slice(&id);
    let mut key = vec![0u8; 45];
    key[..3].copy_from_slice(b"key");
    b.extend_from_slice(&key);
    b.extend_from_slice(&[0u8; 25]);
    match parse_client_message(&b).unwrap().payload {
        ClientPayload::PlayerConnectionPaylod(p) => {
            assert_eq!(p.match_data.match_id, "a\u{FFFD}b");
            assert_eq!(p.match_data.key, "key");
            assert_eq!(p.match_data.environment_id, "");
            assert_eq!(p.player_data.player_index, 3);
        }
        _ => panic!("wrong payload"),
    }
}

fn server(type_: ServerMessageType, sequence: u32, payload: ServerMessagePayload) -> UdpServerMessage {
    UdpServerMessage { header: Header { type_, sequence }, payload }
}

#[test]
fn serialize_player_connection_reply() {
    let m = server(
        ServerMessageType::PlayerConnection,
        2,
        ServerMessagePayload::PlayerConnection(PlayerConnection {
            success: 0,
            num_players: 2,
            player_index: 1,
            match_duration: 0x0102,
            unused_0: 0,
            unused_1: 0,
        }),
    );
    assert_eq!(serialize_server_message(&m, 2), vec![1, 2, 0, 0, 0, 0, 2, 1, 2, 1, 0, 0, 0, 0]);
}

#[test]
fn serialize_request_ping_is_big_endian() {
    let m = server(
        ServerMessageType::RequestPing,
        1,
        ServerMessagePayload::RequestPing(RequestPing { ping: 0x0102, packets_loss_percent: 3 }),
    );
    assert_eq!(serialize_server_message(&m, 4), vec![6, 1, 0, 0, 0, 1, 2, 0, 3]);
}

#[test]
fn serialize_get_ready_cycles_config_table() {
    let m = server(
        ServerMessageType::PlayerGetReady,
        0,
        ServerMessagePayload::PlayerGetReady(PlayerGetReady { num_players: 2, raw_data: vec![] }),
    );
    assert_eq!(
        serialize_server_message(&m, 5),
        vec![10, 0, 0, 0, 0, 2, 0, 0, 1, 1, 0, 2, 1, 3, 0, 0]
    );
}

#[test]
fn serialize_player_inputs_zero_fills_and_quantises_rift() {
    let m = server(
        ServerMessageType::PlayerInputs,
        9,
        ServerMessagePayload::PlayerInputs(PlayerInputs {
            num_players: 2,
            start_frame: vec![5],
            num_frames: vec![2, 1],
            num_predicted_overrides: 0,
            unused_0: 0,
            ping: 300,
            packets_loss_percent: -1,
            rift: -4900,
            unused_1: 0,
            input_per_frame: vec![vec![0x11, 0x22]],
        }),
    );
    let b = serialize_server_message(&m, 2);
    let mut expected = vec![4, 9, 0, 0, 0, 2];
    expected.extend_from_slice(&[5, 0, 0, 0, 0, 0, 0, 0]);
    expected.extend_from_slice(&[2, 1]);
    expected.extend_from_slice(&[0, 0, 0, 0, 44, 1, 0xFF, 0xFF]);
    expected.extend_from_slice(&(-4900i16).to_le_bytes());
    expected.extend_from_slice(&[0, 0, 0, 0]);
    expected.extend_from_slice(&[0x11, 0, 0, 0, 0x22, 0, 0, 0, 0, 0, 0, 0]);
    assert_eq!(b, expected);
}

#[test]
fn serialize_other_server_messages() {
    let kick = server(ServerMessageType::Kick, 1, ServerMessagePayload::Kick(Kick { reason: 2, param1: 3 }));
    assert_eq!(serialize_server_message(&kick, 2), vec![8, 1, 0, 0, 0, 2, 0, 3, 0, 0, 0]);
    let gone = server(
        ServerMessageType::PlayerDisconnected,
        0,
        ServerMessagePayload::PlayerDisconnected(PlayerDisconnected {
            player_index: 1,
            should_ai_take_control: 1,
            ai_take_control_frame: 256,
            player_disconnected_array_index: 1,
        }),
    );
    assert_eq!(serialize_server_message(&gone, 2), vec![11, 0, 0, 0, 0, 1, 1, 0, 1, 0, 0, 1, 0]);
    let start = server(ServerMessageType::StartGame, 3, ServerMessagePayload::StartGame(Empty {}));
    assert_eq!(serialize_server_message(&start, 2), vec![2, 3, 0, 0, 0]);
    let punch = server(ServerMessageType::MVSI_HOLE_PUNCH, 4, ServerMessagePayload::Empty());
    assert_eq!(serialize_server_message(&punch, 2), vec![13, 4, 0, 0, 0]);
}

#[test]
fn message_type_tags() {
    assert_eq!(ClientMessageType::from_tag(13), Some(ClientMessageType::MVSI_HOLE_PUNCH));
    assert_eq!(ClientMessageType::from_tag(9), None);
    assert_eq!(ClientMessageType::PlayerInputAck.tag(), 3);
    assert_eq!(ServerMessageType::from_tag(5), None);
    assert_eq!(ServerMessageType::from_tag(10), Some(ServerMessageType::PlayerGetReady));
    assert_eq!(ServerMessageType::PlayerDisconnected.tag(), 11);
}
