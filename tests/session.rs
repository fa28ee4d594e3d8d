use rollback_server::client_messages::{
    ClientHeader, ClientMessageType, ClientPayload, GameMatchData, PlayerConnectionPaylod,
    PlayerData, PlayerInputAckPayload, PlayerInputPayload, PongPayload, ReadyForMatchPayload,
    UdpClientMessage,
};
use rollback_server::compression::{compress_packet, decompress_packet};
use rollback_server::get_mvsi_port;
use rollback_server::player::{Endpoint, MVSIMatchConfig, MVSIPlayer, LOOPBACK_IP};
use rollback_server::serializer::serialize_client_message;
use rollback_server::session::{Action, P2PRollbackServer, ServerState};

const HOST_IP: u32 = 0x0A00_0001;
const PEER_IP: u32 = 0x0A00_0002;

fn local() -> Endpoint {
    Endpoint { ip: LOOPBACK_IP, port: 50000 }
}

fn peer() -> Endpoint {
    Endpoint { ip: PEER_IP, port: 41234 }
}

fn datagram(type_: ClientMessageType, sequence: u32, payload: ClientPayload) -> Vec<u8> {
    let m = UdpClientMessage { header: ClientHeader { type_, sequence }, payload };
    compress_packet(&serialize_client_message(&m)).unwrap()
}

fn connection(index: u16) -> Vec<u8> {
    datagram(
        ClientMessageType::PlayerConnection,
        0,
        ClientPayload::PlayerConnectionPaylod(PlayerConnectionPaylod {
            message_version: 1,
            player_data: PlayerData { team_id: index, player_index: index },
            match_data: GameMatchData {
                match_id: "m1".to_string(),
                key: "k1".to_string(),
                environment_id: "env".to_string(),
            },
        }),
    )
}

fn input(sequence: u32, start_frame: u32, client_frame: u32, inputs: Vec<u32>) -> Vec<u8> {
    datagram(
        ClientMessageType::PlayerInput,
        sequence,
        ClientPayload::PlayerInputPayload(PlayerInputPayload {
            start_frame,
            client_frame,
            num_frames: inputs.len() as u8,
            num_checksums: 0,
            input_per_frame: inputs,
            checksum_per_frame: vec![],
        }),
    )
}

fn roster() -> MVSIMatchConfig {
    MVSIMatchConfig {
        max_players: 2,
        match_duration: 90,
        players: vec![
            MVSIPlayer { player_index: 0, ip: HOST_IP, is_host: true },
            MVSIPlayer { player_index: 1, ip: PEER_IP, is_host: false },
        ],
    }
}

fn sends(acts: &[Action]) -> Vec<(Endpoint, u32, Vec<u8>)> {
    acts.iter()
        .filter_map(|a| match a {
            Action::Send { target, sequence, bytes } => Some((*target, *sequence, bytes.clone())),
            _ => None,
        })
        .collect()
}

fn u32_at(b: &[u8], p: usize) -> u32 {
    u32::from_le_bytes([b[p], b[p + 1], b[p + 2], b[p + 3]])
}

/// A hosting session with both players connected, as in the host-election scenario.
fn hosting_session(log: &mut Vec<Action>) -> P2PRollbackServer {
    let mut s = P2PRollbackServer::new(get_mvsi_port());
    log.extend(s.handle_incoming_message(&connection(0), &local(), 0));
    log.extend(s.complete_registration(Some(roster())));
    log.extend(s.handle_incoming_message(&connection(1), &peer(), 0));
    s
}

#[test]
fn first_local_connection_asks_for_registration() {
    let mut s = P2PRollbackServer::new(41234);
    let acts = s.handle_incoming_message(&connection(0), &local(), 0);
    assert_eq!(acts.len(), 1);
    match &acts[0] {
        Action::Register { match_id, key } => {
            assert_eq!(match_id, "m1");
            assert_eq!(key, "k1");
        }
        _ => panic!("expected a registration"),
    }
    assert_eq!(s.state, ServerState::WaitingForPlayers);
    assert_eq!(s.local_socket, Some(local()));
}

#[test]
fn remote_connection_before_local_one_is_dropped() {
    let mut s = P2PRollbackServer::new(41234);
    assert!(s.handle_incoming_message(&connection(1), &peer(), 0).is_empty());
    assert_eq!(s.state, ServerState::Idle);
    assert!(s.local_socket.is_none());
}

#[test]
fn host_election_punches_holes_and_replies() {
    let mut s = P2PRollbackServer::new(41234);
    s.handle_incoming_message(&connection(0), &local(), 0);
    let acts = s.complete_registration(Some(roster()));
    assert!(s.is_host);
    assert_eq!(s.host_socket, None);
    assert_eq!(s.players.len(), 1);
    assert!(s.current_match.ready);
    assert_eq!(s.current_match.num_players, 2);
    assert_eq!(acts.len(), 2);
    match &acts[0] {
        Action::StartHolePunch { target } => assert_eq!(*target, Endpoint { ip: PEER_IP, port: 41234 }),
        _ => panic!("expected a hole punch"),
    }
    let reply = sends(&acts);
    assert_eq!(reply.len(), 1);
    assert_eq!(reply[0].0, local());
    assert_eq!(reply[0].1, 0);
    let body = decompress_packet(&reply[0].2, Some(14)).unwrap();
    assert_eq!(body, vec![1, 0, 0, 0, 0, 0, 2, 0, 90, 0, 0, 0, 0, 0]);
    let mut sequences = Vec::new();
    for _ in 0..4 {
        match s.send_udp_hole_punch(&Endpoint { ip: PEER_IP, port: 41234 }) {
            Some(Action::Send { sequence, bytes, .. }) => {
                assert_eq!(decompress_packet(&bytes, Some(5)).unwrap(), vec![13, sequence as u8, 0, 0, 0]);
                sequences.push(sequence);
            }
            _ => panic!("expected a datagram"),
        }
    }
    assert_eq!(sequences, vec![1, 2, 3, 4]);
}

#[test]
fn non_host_relays_between_local_client_and_host() {
    let mut s = P2PRollbackServer::new(41234);
    s.handle_incoming_message(&connection(1), &local(), 0);
    let acts = s.complete_registration(Some(roster()));
    assert!(acts.is_empty());
    let host = Endpoint { ip: HOST_IP, port: 41234 };
    assert_eq!(s.host_socket, Some(host));
    assert!(!s.is_host);
    assert!(s.players.is_empty());
    let from_local = s.handle_incoming_message(&[1, 2, 3], &local(), 0);
    assert_eq!(from_local.len(), 1);
    match &from_local[0] {
        Action::Forward { target } => assert_eq!(*target, host),
        _ => panic!("expected a forward"),
    }
    let from_host = s.handle_incoming_message(&[4, 5], &host, 0);
    match &from_host[0] {
        Action::Forward { target } => assert_eq!(*target, local()),
        _ => panic!("expected a forward"),
    }
}

#[test]
fn failed_registration_leaves_match_unconfirmed() {
    let mut s = P2PRollbackServer::new(41234);
    s.handle_incoming_message(&connection(0), &local(), 0);
    let acts = s.complete_registration(None);
    assert!(acts.is_empty());
    assert!(!s.current_match.ready);
    assert_eq!(s.current_match.match_duration, 0);
    assert_eq!(s.current_match.num_players, 0);
    assert_eq!(s.current_match.sequence_number, 0);
    assert_eq!(s.host_socket, None);
    assert!(!s.is_host);
    assert!(s.pending_connection.is_none());
    assert!(s.is_local_player_connected);
    assert!(s.players.is_empty());
}

#[test]
fn full_roster_starts_ping_loop_and_duplicates_are_ignored() {
    let mut log = Vec::new();
    let mut s = hosting_session(&mut log);
    assert_eq!(s.players.len(), 2);
    assert!(matches!(log.last(), Some(Action::StartPingLoop)));
    assert!(s.handle_incoming_message(&connection(1), &peer(), 0).is_empty());
    assert_eq!(s.players.len(), 2);
    assert_eq!(s.players[0].index, 0);
    assert_eq!(s.players[1].index, 1);
    assert_eq!(s.players[1].acked_frames, vec![0, 0]);
}

#[test]
fn ping_round_trip_sets_ping() {
    let mut log = Vec::new();
    let mut s = hosting_session(&mut log);
    let (done, acts) = s.ping_players(1000);
    assert!(!done);
    let out = sends(&acts);
    assert_eq!(out.len(), 2);
    assert_eq!(out[1].0, peer());
    let body = decompress_packet(&out[1].2, Some(9)).unwrap();
    assert_eq!(body[0], 6);
    let pong = datagram(
        ClientMessageType::Pong,
        1,
        ClientPayload::PongPayload(PongPayload { server_message_sequence_number: out[1].1 }),
    );
    s.handle_incoming_message(&pong, &peer(), 1040);
    assert_eq!(s.players[1].ping, 40);
    assert_eq!(s.players[1].replied_pings, 1);
    assert!(s.players[1].pending_pings.is_empty());
}

#[test]
fn ping_loop_completes_with_get_ready() {
    let mut log = Vec::new();
    let mut s = hosting_session(&mut log);
    for p in s.players.iter_mut() {
        p.replied_pings = 10;
    }
    let (done, acts) = s.ping_players(0);
    assert!(done);
    let out = sends(&acts);
    assert_eq!(out.len(), 2);
    let body = decompress_packet(&out[0].2, Some(10)).unwrap();
    assert_eq!(body[0], 10);
    assert_eq!(body[5], 2);
    assert_eq!(&body[6..10], &[0, 0, 1, 1]);
}

fn ready(sequence: u32) -> Vec<u8> {
    datagram(
        ClientMessageType::ReadyForMatch,
        sequence,
        ClientPayload::ReadyForMatchPayload(ReadyForMatchPayload { ready: 1 }),
    )
}

#[test]
fn all_ready_starts_game_once() {
    let mut log = Vec::new();
    let mut s = hosting_session(&mut log);
    assert!(s.handle_incoming_message(&ready(1), &local(), 0).is_empty());
    let acts = s.handle_incoming_message(&ready(1), &peer(), 0);
    assert_eq!(sends(&acts).len(), 2);
    assert!(matches!(acts.last(), Some(Action::StartTickEngine)));
    assert_eq!(s.state, ServerState::MatchInProgress);
    assert!(s.handle_incoming_message(&ready(2), &peer(), 0).is_empty());
}

#[test]
fn fan_out_sends_each_recipient_all_frames() {
    let mut log = Vec::new();
    let mut s = hosting_session(&mut log);
    assert!(s.send_player_inputs(0).is_empty());
    s.handle_incoming_message(&input(1, 1, 5, vec![11, 12, 13, 14, 15]), &local(), 0);
    s.handle_incoming_message(&input(1, 1, 5, vec![21, 22, 23, 24, 25]), &peer(), 0);
    let acts = s.send_player_inputs(500);
    let out = sends(&acts);
    assert_eq!(out.len(), 2);
    for (k, (target, sequence, bytes)) in out.iter().enumerate() {
        assert_eq!(*target, s.players[k].socket);
        assert!(s.players[k].pending_pings.contains_key(sequence));
        let b = decompress_packet(bytes, None).unwrap();
        assert_eq!(b[0], 4);
        assert_eq!(b[5], 2);
        assert_eq!(u32_at(&b, 6), 1);
        assert_eq!(u32_at(&b, 10), 1);
        assert_eq!(&b[14..16], &[5, 5]);
        let words: Vec<u32> = (0..10).map(|i| u32_at(&b, 30 + 4 * i)).collect();
        assert_eq!(words, vec![11, 12, 13, 14, 15, 21, 22, 23, 24, 25]);
    }
}

#[test]
fn acknowledged_frames_are_not_resent() {
    let mut log = Vec::new();
    let mut s = hosting_session(&mut log);
    s.handle_incoming_message(&input(1, 1, 5, vec![11, 12, 13, 14, 15]), &local(), 0);
    s.handle_incoming_message(&input(1, 1, 5, vec![21, 22, 23, 24, 25]), &peer(), 0);
    let ack = datagram(
        ClientMessageType::PlayerInputAck,
        2,
        ClientPayload::PlayerInputAckPayload(PlayerInputAckPayload {
            num_players: 2,
            ack_frame: vec![3, 5],
            server_message_sequence_number: 999,
        }),
    );
    s.handle_incoming_message(&ack, &local(), 0);
    assert_eq!(s.players[0].acked_frames, vec![3, 5]);
    let lower = datagram(
        ClientMessageType::PlayerInputAck,
        3,
        ClientPayload::PlayerInputAckPayload(PlayerInputAckPayload {
            num_players: 2,
            ack_frame: vec![1, 0],
            server_message_sequence_number: 999,
        }),
    );
    s.handle_incoming_message(&lower, &local(), 0);
    assert_eq!(s.players[0].acked_frames, vec![3, 5]);
    let out = sends(&s.send_player_inputs(0));
    let b = decompress_packet(&out[0].2, None).unwrap();
    assert_eq!(u32_at(&b, 6), 4);
    assert_eq!(u32_at(&b, 10), 0);
    assert_eq!(&b[14..16], &[2, 0]);
    assert_eq!(u32_at(&b, 30), 14);
    assert_eq!(u32_at(&b, 34), 15);
}

#[test]
fn stale_packets_are_dropped() {
    let mut log = Vec::new();
    let mut s = hosting_session(&mut log);
    s.handle_incoming_message(&input(10, 1, 5, vec![1]), &peer(), 0);
    assert_eq!(s.players[1].last_seq_received, 10);
    assert_eq!(s.players[1].last_client_frame, 5);
    assert!(s.handle_incoming_message(&input(9, 2, 99, vec![7]), &peer(), 0).is_empty());
    assert_eq!(s.players[1].last_client_frame, 5);
    assert_eq!(s.players[1].last_seq_received, 10);
    assert_eq!(s.players[1].inputs.len(), 1);
    s.handle_incoming_message(&input(10, 2, 6, vec![7]), &peer(), 0);
    assert_eq!(s.players[1].last_client_frame, 6);
}

#[test]
fn rift_of_non_host_and_host_frame() {
    let mut log = Vec::new();
    let mut s = hosting_session(&mut log);
    s.players[1].ping = 50;
    s.handle_incoming_message(&input(1, 1, 100, vec![1]), &local(), 0);
    assert_eq!(s.current_match.current_frame, 100);
    s.handle_incoming_message(&input(1, 1, 103, vec![1]), &peer(), 0);
    assert_eq!(s.players[1].rift, 450);
    assert_eq!(s.players[0].ping, 50);
    s.handle_incoming_message(&input(2, 2, 400, vec![1]), &peer(), 0);
    assert_eq!(s.players[1].rift, 4900);
}

#[test]
fn rift_formula() {
    let s = P2PRollbackServer::new(41234);
    assert_eq!(s.calc_rift_variable_tick(100, 103, 50), 450);
    assert_eq!(s.calc_rift_variable_tick(100, 100, 0), 0);
    assert_eq!(s.calc_rift_variable_tick(100, 100, 1), 3);
    assert_eq!(s.calc_rift_variable_tick(0, 100, 0), 4900);
    assert_eq!(s.calc_rift_variable_tick(100, 0, 0), -4900);
    assert_eq!(s.calc_rift_variable_tick(100, 90, 65535), 4900);
    assert_eq!(s.calc_rift_variable_tick(100, 90, 1000), -1000 + 3000);
}

#[test]
fn sequence_numbers_are_gap_free() {
    let mut log = Vec::new();
    let mut s = hosting_session(&mut log);
    log.extend(s.ping_players(0).1);
    log.extend(s.handle_incoming_message(&ready(1), &local(), 0));
    log.extend(s.handle_incoming_message(&ready(1), &peer(), 0));
    log.extend(s.handle_incoming_message(&input(2, 1, 5, vec![1, 2, 3, 4, 5]), &local(), 0));
    log.extend(s.handle_incoming_message(&input(2, 1, 5, vec![1, 2, 3, 4, 5]), &peer(), 0));
    log.extend(s.send_player_inputs(0));
    let numbers: Vec<u32> = sends(&log).iter().map(|x| x.1).collect();
    let expected: Vec<u32> = (0..numbers.len() as u32).collect();
    assert_eq!(numbers, expected);
    assert_eq!(s.current_match.sequence_number, numbers.len() as u32);
    assert!(numbers.len() >= 8);
}

#[test]
fn undecodable_datagrams_are_dropped() {
    let mut log = Vec::new();
    let mut s = hosting_session(&mut log);
    let before = s.current_match.sequence_number;
    assert!(s.handle_incoming_message(&[0x01, 99], &peer(), 0).is_empty());
    assert!(s.handle_incoming_message(&[0x03, 5], &peer(), 0).is_empty());
    let punch = datagram(ClientMessageType::MVSI_HOLE_PUNCH, 0, ClientPayload::MVSI_HOLE_PUNCH());
    assert!(s.handle_incoming_message(&punch, &peer(), 0).is_empty());
    let stranger = Endpoint { ip: 0x0A00_0063, port: 1 };
    assert!(s.handle_incoming_message(&ready(5), &stranger, 0).is_empty());
    assert_eq!(s.current_match.sequence_number, before);
}

#[test]
fn default_port() {
    assert_eq!(get_mvsi_port(), 41234);
}
