//! Messages that the server sends to game clients.
use vstd::prelude::*;

verus! {

/// Bytes of the header that starts every server message: type tag and sequence.
pub const HEADER_SIZE: usize = 5;

#[allow(non_camel_case_types)]
#[derive(Debug, Clone, Copy, PartialEq, Eq, Structural)]
pub enum ServerMessageType {
    PlayerConnection,
    StartGame,
    Unknown3,
    PlayerInputs,
    RequestPing,
    Unknown,
    Kick,
    Unknown1,
    PlayerGetReady,
    PlayerDisconnected,
    Unknown2,
    MVSI_HOLE_PUNCH,
}

impl ServerMessageType {
    /// The tag byte of this message type.
    pub open spec fn spec_tag(self) -> u8 {
        match self {
            ServerMessageType::PlayerConnection => 1,
            ServerMessageType::StartGame => 2,
            ServerMessageType::Unknown3 => 3,
            ServerMessageType::PlayerInputs => 4,
            ServerMessageType::RequestPing => 6,
            ServerMessageType::Unknown => 7,
            ServerMessageType::Kick => 8,
            ServerMessageType::Unknown1 => 9,
            ServerMessageType::PlayerGetReady => 10,
            ServerMessageType::PlayerDisconnected => 11,
            ServerMessageType::Unknown2 => 12,
            ServerMessageType::MVSI_HOLE_PUNCH => 13,
        }
    }

    pub fn tag(self) -> (r: u8)
        ensures
            r == self.spec_tag(),
    {
        match self {
            ServerMessageType::PlayerConnection => 1,
            ServerMessageType::StartGame => 2,
            ServerMessageType::Unknown3 => 3,
            ServerMessageType::PlayerInputs => 4,
            ServerMessageType::RequestPing => 6,
            ServerMessageType::Unknown => 7,
            ServerMessageType::Kick => 8,
            ServerMessageType::Unknown1 => 9,
            ServerMessageType::PlayerGetReady => 10,
            ServerMessageType::PlayerDisconnected => 11,
            ServerMessageType::Unknown2 => 12,
            ServerMessageType::MVSI_HOLE_PUNCH => 13,
        }
    }

    /// The message type of a tag byte; `None` for 0, 5 and tags above 13.
    pub fn from_tag(value: u8) -> (r: Option<ServerMessageType>)
        ensures
            r matches Some(t) ==> t.spec_tag() == value,
            r is None <==> (value == 0 || value == 5 || value > 13),
    {
        match value {
            1 => Some(ServerMessageType::PlayerConnection),
            2 => Some(ServerMessageType::StartGame),
            3 => Some(ServerMessageType::Unknown3),
            4 => Some(ServerMessageType::PlayerInputs),
            6 => Some(ServerMessageType::RequestPing),
            7 => Some(ServerMessageType::Unknown),
            8 => Some(ServerMessageType::Kick),
            9 => Some(ServerMessageType::Unknown1),
            10 => Some(ServerMessageType::PlayerGetReady),
            11 => Some(ServerMessageType::PlayerDisconnected),
            12 => Some(ServerMessageType::Unknown2),
            13 => Some(ServerMessageType::MVSI_HOLE_PUNCH),
            _ => None,
        }
    }
}

#[derive(Debug, Clone, Copy, PartialEq, Eq, Structural)]
pub struct Header {
    pub type_: ServerMessageType,
    pub sequence: u32,
}

#[derive(Debug, Clone, Copy, PartialEq, Eq, Structural)]
pub struct PlayerConnection {
    pub success: u8,
    pub num_players: u8,
    pub player_index: u8,
    pub match_duration: u32,
    pub unused_0: u8,
    pub unused_1: u8,
}

#[derive(Debug, Clone)]
pub struct PlayerInputs {
    pub num_players: u8,
    /// One entry per player, up to the match's player count.
    pub start_frame: Vec<u32>,
    /// One entry per player, up to the match's player count.
    pub num_frames: Vec<u8>,
    pub num_predicted_overrides: u16,
    pub unused_0: u16,
    pub ping: u16,
    pub packets_loss_percent: i16,
    /// The recipient's rift in hundredths of a frame, as it goes on the wire.
    pub rift: i16,
    pub unused_1: u32,
    /// Inputs per player and frame.
    pub input_per_frame: Vec<Vec<u32>>,
}

#[derive(Debug, Clone, Copy, PartialEq, Eq, Structural)]
pub struct RequestPing {
    pub ping: u16,
    pub packets_loss_percent: u16,
}

#[derive(Debug, Clone, Copy, PartialEq, Eq, Structural)]
pub struct Kick {
    pub reason: u16,
    pub param1: u32,
}

#[derive(Debug, Clone)]
pub struct PlayerGetReady {
    pub num_players: u8,
    /// Not written: the player configuration comes from a fixed table.
    pub raw_data: Vec<u8>,
}

#[derive(Debug, Clone, Copy, PartialEq, Eq, Structural)]
pub struct PlayerDisconnected {
    pub player_index: u8,
    pub should_ai_take_control: u8,
    pub ai_take_control_frame: u32,
    pub player_disconnected_array_index: u16,
}

#[derive(Debug, Clone, Copy, PartialEq, Eq, Structural)]
pub struct Empty {}

#[derive(Debug, Clone)]
pub enum ServerMessagePayload {
    PlayerConnection(PlayerConnection),
    PlayerInputs(PlayerInputs),
    RequestPing(RequestPing),
    Kick(Kick),
    PlayerGetReady(PlayerGetReady),
    PlayerDisconnected(PlayerDisconnected),
    StartGame(Empty),
    Empty(),
}

#[derive(Debug, Clone)]
pub struct UdpServerMessage {
    pub header: Header,
    pub payload: ServerMessagePayload,
}

} // verus!
