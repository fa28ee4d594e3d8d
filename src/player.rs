//! The roster: players of the match and what the backend says of them.
use std::collections::HashMap;
use vstd::prelude::*;

verus! {

/// Loopback address 127.0.0.1, where the co-located game client sends from.
pub const LOOPBACK_IP: u32 = 0x7F00_0001;

/// An IPv4 UDP endpoint.
#[derive(Debug, Clone, Copy, PartialEq, Eq, Structural)]
pub struct Endpoint {
    /// The address as a number, most significant octet first.
    pub ip: u32,
    pub port: u16,
}

impl Endpoint {
    pub open spec fn spec_is_loopback(self) -> bool {
        self.ip == LOOPBACK_IP
    }

    /// The address is 127.0.0.1.
    pub fn is_loopback(&self) -> (r: bool)
        ensures
            r == self.spec_is_loopback(),
    {
        self.ip == LOOPBACK_IP
    }
}

/// One roster entry of the backend.
#[derive(Debug, Clone, Copy, PartialEq, Eq, Structural)]
pub struct MVSIPlayer {
    pub player_index: u16,
    /// IPv4 address, most significant octet first.
    pub ip: u32,
    pub is_host: bool,
}

/// What the backend returns when it registers a match.
#[derive(Debug, Clone)]
pub struct MVSIMatchConfig {
    pub max_players: u8,
    pub match_duration: u32,
    pub players: Vec<MVSIPlayer>,
}

pub struct Player {
    /// Stable index assigned by the backend.
    pub index: u16,
    pub team_index: u16,
    pub socket: Endpoint,
    /// Send time, in milliseconds, of each server packet awaiting its answer.
    pub pending_pings: HashMap<u32, u64>,
    pub replied_pings: u32,
    pub ready: bool,
    pub connected: bool,
    /// Round-trip time in milliseconds.
    pub ping: u16,
    pub is_host: bool,
    pub last_seq_received: u32,
    pub last_client_frame: u32,
    /// Highest frame of each source player that this player has acknowledged,
    /// indexed by the source's player index.
    pub acked_frames: Vec<u32>,
    /// Drift from the server frame, in hundredths of a frame, within [-4900, 4900].
    pub rift: i16,
    /// Input word of each frame received from this player.
    pub inputs: HashMap<u32, u32>,
    pub missed_inputs: u32,
}

} // verus!
