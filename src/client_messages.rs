//! Messages that game clients send to the server.
use vstd::prelude::*;

verus! {

/// Bytes of the header that starts every client message: type tag and sequence.
pub const CLIENT_HEADER_SIZE: usize = 5;

/// Width of the match identifier field.
pub const MATCH_ID_WIDTH: usize = 25;

/// Width of the match key field.
pub const KEY_WIDTH: usize = 45;

/// Width of the environment identifier field.
pub const ENVIRONMENT_ID_WIDTH: usize = 25;

#[allow(non_camel_case_types)]
#[derive(Debug, Clone, Copy, PartialEq, Eq, Structural)]
pub enum ClientMessageType {
    PlayerConnection,
    PlayerInput,
    PlayerInputAck,
    MatchResult,
    Pong,
    Disconnecting,
    PlayerDisconnectedAck,
    ReadyForMatch,
    MVSI_HOLE_PUNCH,
}

impl ClientMessageType {
    /// The tag byte of this message type.
    pub open spec fn spec_tag(self) -> u8 {
        match self {
            ClientMessageType::PlayerConnection => 1,
            ClientMessageType::PlayerInput => 2,
            ClientMessageType::PlayerInputAck => 3,
            ClientMessageType::MatchResult => 4,
            ClientMessageType::Pong => 5,
            ClientMessageType::Disconnecting => 6,
            ClientMessageType::PlayerDisconnectedAck => 7,
            ClientMessageType::ReadyForMatch => 8,
            ClientMessageType::MVSI_HOLE_PUNCH => 13,
        }
    }

    /// The message type that a tag byte names, if any.
    pub open spec fn spec_from_tag(value: u8) -> Option<ClientMessageType> {
        if value == 1 {
            Some(ClientMessageType::PlayerConnection)
        } else if value == 2 {
            Some(ClientMessageType::PlayerInput)
        } else if value == 3 {
            Some(ClientMessageType::PlayerInputAck)
        } else if value == 4 {
            Some(ClientMessageType::MatchResult)
        } else if value == 5 {
            Some(ClientMessageType::Pong)
        } else if value == 6 {
            Some(ClientMessageType::Disconnecting)
        } else if value == 7 {
            Some(ClientMessageType::PlayerDisconnectedAck)
        } else if value == 8 {
            Some(ClientMessageType::ReadyForMatch)
        } else if value == 13 {
            Some(ClientMessageType::MVSI_HOLE_PUNCH)
        } else {
            None
        }
    }

    pub fn tag(self) -> (r: u8)
        ensures
            r == self.spec_tag(),
    {
        match self {
            ClientMessageType::PlayerConnection => 1,
            ClientMessageType::PlayerInput => 2,
            ClientMessageType::PlayerInputAck => 3,
            ClientMessageType::MatchResult => 4,
            ClientMessageType::Pong => 5,
            ClientMessageType::Disconnecting => 6,
            ClientMessageType::PlayerDisconnectedAck => 7,
            ClientMessageType::ReadyForMatch => 8,
            ClientMessageType::MVSI_HOLE_PUNCH => 13,
        }
    }

    /// The message type of a tag byte; `None` for a tag outside {1..8, 13}.
    pub fn from_tag(value: u8) -> (r: Option<ClientMessageType>)
        ensures
            r == Self::spec_from_tag(value),
            r matches Some(t) ==> t.spec_tag() == value,
    {
        match value {
            1 => Some(ClientMessageType::PlayerConnection),
            2 => Some(ClientMessageType::PlayerInput),
            3 => Some(ClientMessageType::PlayerInputAck),
            4 => Some(ClientMessageType::MatchResult),
            5 => Some(ClientMessageType::Pong),
            6 => Some(ClientMessageType::Disconnecting),
            7 => Some(ClientMessageType::PlayerDisconnectedAck),
            8 => Some(ClientMessageType::ReadyForMatch),
            13 => Some(ClientMessageType::MVSI_HOLE_PUNCH),
            _ => None,
        }
    }
}

#[derive(Debug, Clone, Copy, PartialEq, Eq, Structural)]
pub struct ClientHeader {
    pub type_: ClientMessageType,
    pub sequence: u32,
}

#[derive(Debug, Clone, Copy, PartialEq, Eq, Structural)]
pub struct PlayerData {
    pub team_id: u16,
    pub player_index: u16,
}

#[derive(Debug, Clone)]
pub struct GameMatchData {
    /// At most 25 bytes on the wire, zero-terminated.
    pub match_id: String,
    /// At most 45 bytes on the wire.
    pub key: String,
    /// At most 25 bytes on the wire.
    pub environment_id: String,
}

#[derive(Debug, Clone)]
pub struct PlayerConnectionPaylod {
    pub message_version: u16,
    pub player_data: PlayerData,
    pub match_data: GameMatchData,
}

#[derive(Debug, Clone)]
pub struct PlayerInputPayload {
    pub start_frame: u32,
    pub client_frame: u32,
    pub num_frames: u8,
    pub num_checksums: u8,
    pub input_per_frame: Vec<u32>,
    pub checksum_per_frame: Vec<u32>,
}

#[derive(Debug, Clone)]
pub struct PlayerInputAckPayload {
    pub num_players: u8,
    pub ack_frame: Vec<u32>,
    pub server_message_sequence_number: u32,
}

#[derive(Debug, Clone, Copy, PartialEq, Eq, Structural)]
pub struct MatchResultPayload {
    pub num_players: u8,
    pub last_frame_checksum: u32,
    pub winning_team_index: u8,
}

#[derive(Debug, Clone, Copy, PartialEq, Eq, Structural)]
pub struct PongPayload {
    pub server_message_sequence_number: u32,
}

#[derive(Debug, Clone, Copy, PartialEq, Eq, Structural)]
pub struct DisconnectingPayload {
    pub reason: u8,
}

#[derive(Debug, Clone, Copy, PartialEq, Eq, Structural)]
pub struct PlayerDisconnectedAckPayload {
    pub player_disconnected_array_index: u8,
}

#[derive(Debug, Clone, Copy, PartialEq, Eq, Structural)]
pub struct ReadyForMatchPayload {
    pub ready: u8,
}

#[allow(non_camel_case_types)]
#[derive(Debug, Clone)]
pub enum ClientPayload {
    PlayerConnectionPaylod(PlayerConnectionPaylod),
    PlayerInputPayload(PlayerInputPayload),
    PlayerInputAckPayload(PlayerInputAckPayload),
    MatchResultPayload(MatchResultPayload),
    PongPayload(PongPayload),
    DisconnectingPayload(DisconnectingPayload),
    PlayerDisconnectedAckPayload(PlayerDisconnectedAckPayload),
    ReadyForMatchPayload(ReadyForMatchPayload),
    MVSI_HOLE_PUNCH(),
}

impl ClientPayload {
    /// The message type that this payload belongs to.
    pub open spec fn message_type(self) -> ClientMessageType {
        match self {
            ClientPayload::PlayerConnectionPaylod(_) => ClientMessageType::PlayerConnection,
            ClientPayload::PlayerInputPayload(_) => ClientMessageType::PlayerInput,
            ClientPayload::PlayerInputAckPayload(_) => ClientMessageType::PlayerInputAck,
            ClientPayload::MatchResultPayload(_) => ClientMessageType::MatchResult,
            ClientPayload::PongPayload(_) => ClientMessageType::Pong,
            ClientPayload::DisconnectingPayload(_) => ClientMessageType::Disconnecting,
            ClientPayload::PlayerDisconnectedAckPayload(_) => ClientMessageType::PlayerDisconnectedAck,
            ClientPayload::ReadyForMatchPayload(_) => ClientMessageType::ReadyForMatch,
            ClientPayload::MVSI_HOLE_PUNCH() => ClientMessageType::MVSI_HOLE_PUNCH,
        }
    }
}

#[derive(Debug, Clone)]
pub struct UdpClientMessage {
    pub header: ClientHeader,
    pub payload: ClientPayload,
}

/// Two payloads carry the same fields; text and lists are compared by content.
pub open spec fn same_payload(a: ClientPayload, b: ClientPayload) -> bool {
    match (a, b) {
        (ClientPayload::PlayerConnectionPaylod(x), ClientPayload::PlayerConnectionPaylod(y)) => {
            &&& x.message_version == y.message_version
            &&& x.player_data == y.player_data
            &&& x.match_data.match_id@ == y.match_data.match_id@
            &&& x.match_data.key@ == y.match_data.key@
            &&& x.match_data.environment_id@ == y.match_data.environment_id@
        },
        (ClientPayload::PlayerInputPayload(x), ClientPayload::PlayerInputPayload(y)) => {
            &&& x.start_frame == y.start_frame
            &&& x.client_frame == y.client_frame
            &&& x.num_frames == y.num_frames
            &&& x.num_checksums == y.num_checksums
            &&& x.input_per_frame@ == y.input_per_frame@
            &&& x.checksum_per_frame@ == y.checksum_per_frame@
        },
        (ClientPayload::PlayerInputAckPayload(x), ClientPayload::PlayerInputAckPayload(y)) => {
            &&& x.num_players == y.num_players
            &&& x.ack_frame@ == y.ack_frame@
            &&& x.server_message_sequence_number == y.server_message_sequence_number
        },
        (ClientPayload::MatchResultPayload(x), ClientPayload::MatchResultPayload(y)) => x == y,
        (ClientPayload::PongPayload(x), ClientPayload::PongPayload(y)) => x == y,
        (ClientPayload::DisconnectingPayload(x), ClientPayload::DisconnectingPayload(y)) => x == y,
        (
            ClientPayload::PlayerDisconnectedAckPayload(x),
            ClientPayload::PlayerDisconnectedAckPayload(y),
        ) => x == y,
        (ClientPayload::ReadyForMatchPayload(x), ClientPayload::ReadyForMatchPayload(y)) => x == y,
        (ClientPayload::MVSI_HOLE_PUNCH(), ClientPayload::MVSI_HOLE_PUNCH()) => true,
        _ => false,
    }
}

/// Two messages carry the same header and the same payload fields.
pub open spec fn same_message(a: UdpClientMessage, b: UdpClientMessage) -> bool {
    a.header == b.header && same_payload(a.payload, b.payload)
}

} // verus!
