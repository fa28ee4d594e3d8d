//! Peer-assisted UDP rollback coordination for a fighting-game match.
//!
//! The library holds the wire codec (`serializer`, `compression`), the
//! message types, the roster and the match session (`session`). It performs
//! no I/O: the session turns each received datagram, backend answer or timer
//! tick into actions that the embedding program carries out.
pub mod client_messages;
pub mod compression;
pub mod game_match;
pub mod player;
pub mod serializer;
pub mod server_messages;
pub mod session;
pub mod wire;

use vstd::prelude::*;

verus! {

/// UDP port the session listens on when the embedding host sets none.
pub const DEFAULT_PORT: u16 = 41234;

/// Port the server binds and sends hole-punch datagrams to.
pub fn get_mvsi_port() -> (r: u16)
    ensures
        r == DEFAULT_PORT,
{
    DEFAULT_PORT
}

} // verus!
