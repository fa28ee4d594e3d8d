//! The match that the session serves.
use vstd::prelude::*;

verus! {

pub struct GameMatch {
    pub match_id: String,
    pub match_key: String,
    /// Configured player count, fixed once `ready` holds.
    pub num_players: u8,
    /// Sequence number of the next server-originated packet.
    pub sequence_number: u32,
    /// Configured duration, in seconds.
    pub match_duration: u32,
    /// Mirrors the host's last reported client frame.
    pub current_frame: u32,
    /// The backend has confirmed the match.
    pub ready: bool,
}

impl GameMatch {
    /// A match that the backend has not confirmed yet.
    pub fn new() -> (r: GameMatch)
        ensures
            r.match_id@ == Seq::<char>::empty(),
            r.match_key@ == Seq::<char>::empty(),
            r.num_players == 0,
            r.sequence_number == 0,
            r.match_duration == 0,
            r.current_frame == 0,
            !r.ready,
    {
        GameMatch {
            match_id: String::new(),
            match_key: String::new(),
            num_players: 0,
            sequence_number: 0,
            match_duration: 0,
            current_frame: 0,
            ready: false,
        }
    }
}

} // verus!
