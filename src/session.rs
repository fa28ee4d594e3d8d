//! The match session: connection handling, host election, ping measurement,
//! readiness, input distribution and relaying.
//!
//! The session performs no I/O. Each entry point takes what arrived (a
//! datagram, a backend answer, a tick) together with the current time in
//! milliseconds, updates the state, and returns the actions that the caller
//! carries out in order: datagrams to send, datagrams to relay, a backend
//! request, or a background loop to start.
use crate::client_messages::{
    ClientMessageType, ClientPayload, PlayerConnectionPaylod, PlayerData, PlayerInputAckPayload,
    PlayerInputPayload, PongPayload, ReadyForMatchPayload,
};
use crate::compression::{
    compress_packet, compressed, decompress_packet, decompressed, CompressionError,
    MAX_BUFFER_SIZE,
};
use crate::game_match::GameMatch;
use crate::player::{Endpoint, MVSIMatchConfig, MVSIPlayer, Player};
use crate::serializer::{
    client_parse_error, config_bytes, parse_client_message, serialize_server_message, server_bytes,
};
use crate::wire::{le16, le32, le32_bytes, words_at};
use crate::server_messages::{
    Empty, Header, PlayerConnection, PlayerGetReady, PlayerInputs, RequestPing,
    ServerMessagePayload, ServerMessageType, UdpServerMessage,
};
use std::collections::HashMap;
use vstd::prelude::*;

verus! {

/// Pings each player must answer before the match gets ready.
pub const MAX_PINGS: u32 = 10;

/// Input frames every player must have sent before inputs are distributed.
pub const MIN_BUFFERED_FRAMES: usize = 5;

/// Interval between hole-punch datagrams, in milliseconds.
pub const HOLE_PUNCH_INTERVAL_MS: u64 = 100;

/// Hole-punch datagrams sent to each peer.
pub const HOLE_PUNCH_COUNT: u32 = 4;

/// Interval between ping rounds, in milliseconds.
pub const PING_INTERVAL_MS: u64 = 100;

/// Interval between ticks of the input distribution, in milliseconds.
pub const TICK_INTERVAL_MS: u64 = 16;

/// Largest rift, in hundredths of a frame.
pub const MAX_RIFT: i16 = 4900;

#[derive(Debug, Clone, Copy, PartialEq, Eq, Structural)]
pub enum ServerState {
    Idle,
    WaitingForPlayers,
    MatchInProgress,
}

/// Something the caller must do on the session's behalf.
#[derive(Debug, Clone)]
pub enum Action {
    /// Send `bytes` to `target`; `sequence` is the number in its header.
    Send { target: Endpoint, sequence: u32, bytes: Vec<u8> },
    /// Relay the datagram just received, unchanged, to `target`.
    Forward { target: Endpoint },
    /// Register the match with the backend, then hand the answer to
    /// `complete_registration`.
    Register { match_id: String, key: String },
    /// Send `HOLE_PUNCH_COUNT` hole-punch datagrams to `target`,
    /// `HOLE_PUNCH_INTERVAL_MS` apart, each made by `hole_punch`.
    StartHolePunch { target: Endpoint },
    /// Call `ping_players` every `PING_INTERVAL_MS` until it reports completion.
    StartPingLoop,
    /// Call `send_player_inputs` every `TICK_INTERVAL_MS`.
    StartTickEngine,
}

/// Most frames of one source that a single packet carries (the count is a byte).
pub const MAX_FRAMES_PER_SOURCE: u8 = 255;

fn elapsed_ms(start: u64, now: u64) -> (r: u16)
    ensures
        r == elapsed_ping(start, now),
{
    if now <= start {
        0
    } else if now - start > 65535 {
        65535
    } else {
        (now - start) as u16
    }
}

/// The sequence numbers of the `Send` actions among `acts`, in order.
pub open spec fn send_sequences(acts: Seq<Action>) -> Seq<u32>
    decreases acts.len(),
{
    if acts.len() == 0 {
        Seq::empty()
    } else {
        send_sequences(acts.drop_last()) + match acts.last() {
            Action::Send { sequence, .. } => seq![sequence],
            _ => Seq::empty(),
        }
    }
}

/// The packets among `acts` are numbered `before, before + 1, ...` without a
/// gap, and the counter stands at `after` behind the last of them.
pub open spec fn numbered_run(acts: Seq<Action>, before: u32, after: u32) -> bool {
    let ss = send_sequences(acts);
    &&& after == before + ss.len()
    &&& forall|i: int| 0 <= i < ss.len() ==> ss[i] == before + i
}

proof fn lemma_send_sequences_concat(a: Seq<Action>, b: Seq<Action>)
    ensures
        send_sequences(a + b) == send_sequences(a) + send_sequences(b),
    decreases b.len(),
{
    if b.len() == 0 {
        assert(a + b =~= a);
        assert(send_sequences(a) + send_sequences(b) =~= send_sequences(a));
    } else {
        lemma_send_sequences_concat(a, b.drop_last());
        assert((a + b).drop_last() =~= a + b.drop_last());
        assert((a + b).last() == b.last());
        assert(send_sequences(a + b) =~= send_sequences(a) + send_sequences(b));
    }
}

/// Server sequence numbers are strictly increasing and gap-free across a run:
/// two consecutive batches of actions, each numbered from where the counter
/// stood, form one gap-free numbering.
pub proof fn lemma_sequence_gap_free(
    a: Seq<Action>,
    b: Seq<Action>,
    s0: u32,
    s1: u32,
    s2: u32,
)
    requires
        numbered_run(a, s0, s1),
        numbered_run(b, s1, s2),
    ensures
        numbered_run(a + b, s0, s2),
{
    lemma_send_sequences_concat(a, b);
    let sa = send_sequences(a);
    let sb = send_sequences(b);
    assert forall|i: int| 0 <= i < (sa + sb).len() implies (sa + sb)[i] == s0 + i by {
        if i >= sa.len() {
            assert(sb[i - sa.len()] == s1 + (i - sa.len()));
        }
    }
}

proof fn lemma_push_send(acts: Seq<Action>, a: Action, before: u32, after: u32)
    requires
        numbered_run(acts, before, after),
        a matches Action::Send { sequence, .. } && sequence == after,
        after < u32::MAX,
    ensures
        numbered_run(acts.push(a), before, (after + 1) as u32),
{
    assert(acts.push(a).drop_last() =~= acts);
}

proof fn lemma_push_other(acts: Seq<Action>, a: Action, before: u32, after: u32)
    requires
        numbered_run(acts, before, after),
        !(a is Send),
    ensures
        numbered_run(acts.push(a), before, after),
{
    assert(acts.push(a).drop_last() =~= acts);
    assert(send_sequences(acts.push(a)) =~= send_sequences(acts));
}

/// The datagram that `send_message` makes of a message numbered `sequence`.
pub open spec fn outgoing(
    sequence: u32,
    header_type: ServerMessageType,
    message: ServerMessagePayload,
    num_players: u8,
) -> Result<Seq<u8>, CompressionError> {
    compressed(
        server_bytes(
            UdpServerMessage { header: Header { type_: header_type, sequence }, payload: message },
            num_players as nat,
        ),
    )
}

/// The `PlayerGetReady` datagram numbered `sequence` for a roster of `count`
/// players, with configuration slots for `num_players`.
pub open spec fn get_ready_bytes(sequence: u32, count: u8, num_players: u8) -> Result<
    Seq<u8>,
    CompressionError,
> {
    compressed(
        seq![ServerMessageType::PlayerGetReady.spec_tag()] + le32_bytes(sequence) + (seq![count]
            + config_bytes(num_players as nat)),
    )
}

/// Rounds a non-negative quotient `a / b` to the nearest integer, halves up.
pub open spec fn round_div(a: int, b: int) -> int {
    (2 * a + b) / (2 * b)
}

/// The rift of a client, in hundredths of a frame:
/// `(client_frame + (ping / 16.6667) / 2) - server_frame`, rounded to the
/// nearest hundredth and clamped to [-49, 49] frames.
pub open spec fn rift_centi(server_frame: u32, client_frame: u32, ping: u16) -> int {
    let r = 100 * (client_frame - server_frame) + round_div(500000 * ping, 166667);
    if r < -4900 {
        -4900
    } else if r > 4900 {
        4900
    } else {
        r
    }
}

/// Elapsed milliseconds from `start` to `now`, saturated to the range of `u16`.
pub open spec fn elapsed_ping(start: u64, now: u64) -> u16 {
    if now <= start {
        0
    } else if now - start > 65535 {
        65535
    } else {
        (now - start) as u16
    }
}


/// One `Send` per player of `players`, in roster order, numbered from
/// `start`, each holding the datagram that `bytes_for(k, sequence)` gives for
/// the `k`-th player.
pub open spec fn fanned_out(
    acts: Seq<Action>,
    players: Seq<Player>,
    start: u32,
    bytes_for: spec_fn(int, u32) -> Result<Seq<u8>, CompressionError>,
) -> bool {
    &&& acts.len() == players.len()
    &&& forall|k: int|
        0 <= k < acts.len() ==> (#[trigger] acts[k] matches Action::Send { target, sequence, bytes }
            && target == players[k].socket && sequence == start + k && bytes_for(k, sequence)
            == Ok::<Seq<u8>, CompressionError>(bytes@))
}

/// `players[i]` is the first player that sends from `src`.
pub open spec fn is_sender(players: Seq<Player>, src: Endpoint, i: int) -> bool {
    &&& 0 <= i < players.len()
    &&& players[i].socket == src
    &&& forall|j: int| 0 <= j < i ==> players[j].socket != src
}

/// `new` is `old` with at most the sender from `src` changed.
pub open spec fn others_unchanged(old: Seq<Player>, new: Seq<Player>, src: Endpoint) -> bool {
    &&& new.len() == old.len()
    &&& forall|i: int| 0 <= i < old.len() && !is_sender(old, src, i) ==> new[i] == old[i]
}

/// What a `PlayerInputs` packet for `recipient` holds of `source`: the
/// frames that follow the last one the recipient acknowledged, as long as
/// they are consecutive and present; nothing when the next frame is missing.
pub open spec fn source_plan(
    recipient: Player,
    source: Player,
    start_frame: Seq<u32>,
    num_frames: Seq<u8>,
    rows: Seq<Vec<u32>>,
) -> bool {
    let p = source.index as int;
    let next = recipient.acked_frames@[p] + 1;
    if next <= u32::MAX && source.inputs@.contains_key(next as u32) {
        let n = num_frames[p] as int;
        &&& start_frame[p] == next
        &&& 1 <= n
        &&& rows[p]@.len() == n
        &&& frames_match(rows[p]@, source.inputs@, next as u32)
        &&& n == MAX_FRAMES_PER_SOURCE || frame_input(source.inputs@, next as u32, n) is None
    } else {
        &&& start_frame[p] == 0
        &&& num_frames[p] == 0
        &&& rows[p]@.len() == 0
    }
}

proof fn lemma_plan_kept(
    recipient: Player,
    source: Player,
    s1: Seq<u32>,
    n1: Seq<u8>,
    w1: Seq<Vec<u32>>,
    s2: Seq<u32>,
    n2: Seq<u8>,
    w2: Seq<Vec<u32>>,
)
    requires
        source_plan(recipient, source, s1, n1, w1),
        s1[source.index as int] == s2[source.index as int],
        n1[source.index as int] == n2[source.index as int],
        w1[source.index as int] == w2[source.index as int],
    ensures
        source_plan(recipient, source, s2, n2, w2),
{
}

/// The `PlayerInputs` packet for the `k`-th player of the roster, with
/// per-player arrays sized `num_players`.
pub open spec fn input_plan(players: Seq<Player>, k: int, num_players: u8, d: PlayerInputs) -> bool {
    let r = players[k];
    &&& d.num_players == num_players
    &&& d.start_frame@.len() == num_players
    &&& d.num_frames@.len() == num_players
    &&& d.input_per_frame@.len() == num_players
    &&& d.ping == r.ping
    &&& d.rift == r.rift
    &&& d.num_predicted_overrides == 0
    &&& d.unused_0 == 0
    &&& d.packets_loss_percent == 0
    &&& d.unused_1 == 0
    &&& forall|j: int|
        0 <= j < players.len() && players[j].index < num_players ==> #[trigger] source_plan(
            r,
            players[j],
            d.start_frame@,
            d.num_frames@,
            d.input_per_frame@,
        )
    &&& unclaimed_empty(
        players,
        players.len() as int,
        num_players,
        d.start_frame@,
        d.num_frames@,
        d.input_per_frame@,
    )
}

/// Positions below `num_players` that no player among the first `j` has as
/// index hold no frames.
pub open spec fn unclaimed_empty(
    players: Seq<Player>,
    j: int,
    num_players: u8,
    start_frame: Seq<u32>,
    num_frames: Seq<u8>,
    rows: Seq<Vec<u32>>,
) -> bool {
    forall|q: int|
        0 <= q < num_players && (forall|i: int| 0 <= i < j ==> players[i].index != q) ==> {
            &&& start_frame[q] == 0
            &&& num_frames[q] == 0
            &&& rows[q]@.len() == 0
        }
}

proof fn lemma_unclaimed_kept(
    players: Seq<Player>,
    j: int,
    num_players: u8,
    s0: Seq<u32>,
    n0: Seq<u8>,
    w0: Seq<Vec<u32>>,
    s1: Seq<u32>,
    n1: Seq<u8>,
    w1: Seq<Vec<u32>>,
)
    requires
        0 <= j < players.len(),
        unclaimed_empty(players, j, num_players, s0, n0, w0),
        forall|q: int|
            0 <= q < num_players && q != players[j].index ==> s1[q] == s0[q] && n1[q] == n0[q]
                && w1[q] == w0[q],
    ensures
        unclaimed_empty(players, j + 1, num_players, s1, n1, w1),
{
    assert forall|q: int|
        0 <= q < num_players && (forall|i: int| 0 <= i < j + 1 ==> players[i].index != q) implies {
        &&& s1[q] == 0
        &&& n1[q] == 0
        &&& w1[q]@.len() == 0
    } by {
        assert(players[j].index != q);
        assert(forall|i: int| 0 <= i < j ==> players[i].index != q);
    }
}

/// Acknowledged frames are not sent again: when a recipient's
/// `acked_frames[p]` has reached `v` (it never falls), the packet planned for
/// it starts the frames of source `p` above `v`, or leaves `p` out.
pub proof fn lemma_acked_frames_respected(
    players: Seq<Player>,
    k: int,
    num_players: u8,
    d: PlayerInputs,
    j: int,
    v: u32,
)
    requires
        0 <= k < players.len(),
        0 <= j < players.len(),
        players[j].index < num_players,
        input_plan(players, k, num_players, d),
        v <= players[k].acked_frames@[players[j].index as int],
    ensures
        d.start_frame@[players[j].index as int] == 0 || d.start_frame@[players[j].index as int]
            > v,
{
    assert(source_plan(
        players[k],
        players[j],
        d.start_frame@,
        d.num_frames@,
        d.input_per_frame@,
    ));
}

/// `row` holds the inputs of the frames `next, next + 1, ...` of `inputs`.
pub open spec fn frames_match(row: Seq<u32>, inputs: Map<u32, u32>, next: u32) -> bool {
    &&& next + row.len() <= u32::MAX + 1
    &&& forall|f: int|
        0 <= f < row.len() ==> #[trigger] frame_input(inputs, next, f) == Some(row[f])
}

/// The input of frame `next + f`, if `inputs` has it.
pub open spec fn frame_input(inputs: Map<u32, u32>, next: u32, f: int) -> Option<u32> {
    if next + f <= u32::MAX && inputs.contains_key((next + f) as u32) {
        Some(inputs[(next + f) as u32])
    } else {
        None
    }
}

proof fn lemma_frames_push(row: Seq<u32>, inputs: Map<u32, u32>, next: u32, v: u32)
    requires
        frames_match(row, inputs, next),
        frame_input(inputs, next, row.len() as int) == Some(v),
    ensures
        frames_match(row.push(v), inputs, next),
{
    let r = row.push(v);
    assert forall|f: int| 0 <= f < r.len() implies #[trigger] frame_input(inputs, next, f) == Some(
        r[f],
    ) by {
        if f < row.len() {
            assert(r[f] == row[f]);
        }
    }
}

/// Acknowledged frames are not sent again, stated of the datagram sent to
/// the `k`-th player: the `PlayerInputs` packet it carries starts the frames
/// of every source `p` above what the recipient acknowledged of `p`, or
/// leaves `p` out.
pub proof fn lemma_sent_packet_respects_acks(
    players: Seq<Player>,
    k: int,
    num_players: u8,
    sequence: u32,
    bytes: Seq<u8>,
    j: int,
    v: u32,
)
    requires
        0 <= k < players.len(),
        0 <= j < players.len(),
        players[j].index < num_players,
        planned_packet(players, k, num_players, sequence, bytes),
        v <= players[k].acked_frames@[players[j].index as int],
    ensures
        exists|d: PlayerInputs|
            #[trigger] input_plan(players, k, num_players, d) && outgoing(
                sequence,
                ServerMessageType::PlayerInputs,
                ServerMessagePayload::PlayerInputs(d),
                num_players,
            ) == Ok::<Seq<u8>, CompressionError>(bytes) && (d.start_frame@[players[j].index as int]
                == 0 || d.start_frame@[players[j].index as int] > v),
{
    let d = choose|d: PlayerInputs|
        #[trigger] input_plan(players, k, num_players, d) && outgoing(
            sequence,
            ServerMessageType::PlayerInputs,
            ServerMessagePayload::PlayerInputs(d),
            num_players,
        ) == Ok::<Seq<u8>, CompressionError>(bytes);
    lemma_acked_frames_respected(players, k, num_players, d, j, v);
}

/// Every player has buffered enough input frames for distribution to begin.
pub open spec fn all_buffered(players: Seq<Player>) -> bool {
    forall|k: int|
        0 <= k < players.len() ==> (#[trigger] players[k]).inputs@.len() >= MIN_BUFFERED_FRAMES
}

/// The counter suffices for one packet per player, numbered from `start`,
/// and every planned `PlayerInputs` packet fits in a datagram.
pub open spec fn all_plans_fit(players: Seq<Player>, num_players: u8, start: u32) -> bool {
    &&& start + players.len() <= u32::MAX
    &&& forall|k: int, d: PlayerInputs|
        0 <= k < players.len() && #[trigger] input_plan(players, k, num_players, d) ==> outgoing(
            (start + k) as u32,
            ServerMessageType::PlayerInputs,
            ServerMessagePayload::PlayerInputs(d),
            num_players,
        ) is Ok
}

/// `bytes` is the datagram, numbered `sequence`, of the `PlayerInputs` packet
/// planned for the `k`-th player of `players`.
pub open spec fn planned_packet(
    players: Seq<Player>,
    k: int,
    num_players: u8,
    sequence: u32,
    bytes: Seq<u8>,
) -> bool {
    exists|d: PlayerInputs|
        #[trigger] input_plan(players, k, num_players, d) && outgoing(
            sequence,
            ServerMessageType::PlayerInputs,
            ServerMessagePayload::PlayerInputs(d),
            num_players,
        ) == Ok::<Seq<u8>, CompressionError>(bytes)
}

/// `a` sends the `PlayerInputs` packet planned for one player of `players`.
pub open spec fn inputs_sent(a: Action, players: Seq<Player>, num_players: u8) -> bool {
    a matches Action::Send { target, sequence, bytes } && exists|k: int, d: PlayerInputs|
        0 <= k < players.len() && target == players[k].socket && #[trigger] input_plan(
            players,
            k,
            num_players,
            d,
        ) && outgoing(
            sequence,
            ServerMessageType::PlayerInputs,
            ServerMessagePayload::PlayerInputs(d),
            num_players,
        ) == Ok::<Seq<u8>, CompressionError>(bytes@)
}

/// Every player has answered `MAX_PINGS` pings.
pub open spec fn all_replied(players: Seq<Player>) -> bool {
    forall|k: int| 0 <= k < players.len() ==> (#[trigger] players[k]).replied_pings >= MAX_PINGS
}

/// The `RequestPing` packet for `player`.
pub open spec fn ping_request(player: Player) -> ServerMessagePayload {
    ServerMessagePayload::RequestPing(RequestPing { ping: player.ping, packets_loss_percent: 0 })
}

/// `p` is a newly admitted player with index and team from `data`, sending
/// from `src`, with `num_players` acknowledgement slots.
pub open spec fn fresh_player(
    p: Player,
    data: PlayerData,
    src: Endpoint,
    is_host: bool,
    num_players: u8,
) -> bool {
    &&& p.index == data.player_index
    &&& p.team_index == data.team_id
    &&& p.socket == src
    &&& p.pending_pings@ == Map::<u32, u64>::empty()
    &&& p.replied_pings == 0
    &&& !p.ready
    &&& p.connected
    &&& p.ping == 0
    &&& p.is_host == is_host
    &&& p.last_seq_received == 0
    &&& p.last_client_frame == 0
    &&& p.acked_frames@ == Seq::new(num_players as nat, |i: int| 0u32)
    &&& p.rift == 0
    &&& p.inputs@ == Map::<u32, u32>::empty()
    &&& p.missed_inputs == 0
}

/// `new` is `old` with `p` inserted at position `pos`.
pub open spec fn inserted_at(old: Seq<Player>, new: Seq<Player>, pos: int, p: Player) -> bool {
    &&& 0 <= pos <= old.len()
    &&& new == old.insert(pos, p)
}

/// Position of the backend's roster entry for `player_index`, if any.
pub open spec fn roster_entry(roster: Seq<MVSIPlayer>, player_index: u16) -> Option<int>
    decreases roster.len(),
{
    if roster.len() == 0 {
        None
    } else if roster.last().player_index == player_index {
        match roster_entry(roster.drop_last(), player_index) {
            Some(i) => Some(i),
            None => Some(roster.len() - 1),
        }
    } else {
        roster_entry(roster.drop_last(), player_index)
    }
}

/// Number of connected players.
pub open spec fn connected_count(players: Seq<Player>) -> nat
    decreases players.len(),
{
    if players.len() == 0 {
        0
    } else {
        connected_count(players.drop_last()) + if players.last().connected {
            1nat
        } else {
            0nat
        }
    }
}

/// The reply to a `PlayerConnection` of the player `player_index`.
pub open spec fn connection_reply(m: GameMatch, player_index: u16) -> ServerMessagePayload {
    ServerMessagePayload::PlayerConnection(
        PlayerConnection {
            success: 0,
            num_players: m.num_players,
            player_index: player_index as u8,
            match_duration: m.match_duration,
            unused_0: 0,
            unused_1: 0,
        },
    )
}

proof fn lemma_roster_entry_prefix(roster: Seq<MVSIPlayer>, player_index: u16, i: int)
    requires
        0 <= i < roster.len(),
        roster[i].player_index == player_index,
        roster_entry(roster.subrange(0, i), player_index) is None,
    ensures
        roster_entry(roster, player_index) == Some(i),
    decreases roster.len(),
{
    if i < roster.len() - 1 {
        assert(roster.drop_last().subrange(0, i) =~= roster.subrange(0, i));
        lemma_roster_entry_prefix(roster.drop_last(), player_index, i);
    } else {
        assert(roster.drop_last() =~= roster.subrange(0, i));
    }
}

/// The endpoints that a host punches holes to: every other roster member,
/// in roster order, on the peers' port.
pub open spec fn hole_punch_targets(roster: Seq<MVSIPlayer>, own_index: u16, port: u16) -> Seq<
    Endpoint,
>
    decreases roster.len(),
{
    if roster.len() == 0 {
        Seq::empty()
    } else {
        hole_punch_targets(roster.drop_last(), own_index, port) + if roster.last().player_index
            != own_index {
            seq![Endpoint { ip: roster.last().ip, port }]
        } else {
            Seq::empty()
        }
    }
}

/// The endpoint of the roster's host (the last one marked as host), if any.
pub open spec fn host_endpoint(roster: Seq<MVSIPlayer>, port: u16) -> Option<Endpoint>
    decreases roster.len(),
{
    if roster.len() == 0 {
        None
    } else if roster.last().is_host {
        Some(Endpoint { ip: roster.last().ip, port })
    } else {
        host_endpoint(roster.drop_last(), port)
    }
}

/// The roster's host endpoint, or `fallback` when the roster marks no host.
pub open spec fn host_or(roster: Seq<MVSIPlayer>, port: u16, fallback: Option<Endpoint>) -> Option<
    Endpoint,
> {
    match host_endpoint(roster, port) {
        Some(h) => Some(h),
        None => fallback,
    }
}

/// The targets of the `StartHolePunch` actions among `acts`.
pub open spec fn punch_targets(acts: Seq<Action>) -> Seq<Endpoint>
    decreases acts.len(),
{
    if acts.len() == 0 {
        Seq::empty()
    } else {
        punch_targets(acts.drop_last()) + match acts.last() {
            Action::StartHolePunch { target } => seq![target],
            _ => Seq::empty(),
        }
    }
}

proof fn lemma_punch_prefix(a: Seq<Action>, b: Seq<Action>)
    ensures
        (a + b).subrange(0, a.len() as int) == a,
{
    assert((a + b).subrange(0, a.len() as int) =~= a);
}

/// The decompressed client message in a datagram, if it decompresses and parses.
pub open spec fn received_message(buf: Seq<u8>) -> Option<Seq<u8>> {
    match decompressed(buf, MAX_BUFFER_SIZE as nat) {
        Ok(d) => if client_parse_error(d) is None {
            Some(d)
        } else {
            None
        },
        Err(_) => None,
    }
}

/// The decoded message `d` from `src` passes the filters of the receive path:
/// the session is not relaying, `d` is neither a connection nor a hole punch,
/// and its sequence number is not below the last one received from its sender.
pub open spec fn accepted(old: P2PRollbackServer, src: Endpoint, d: Seq<u8>) -> bool {
    &&& old.host_socket is None
    &&& d[0] != ClientMessageType::PlayerConnection.spec_tag()
    &&& d[0] != ClientMessageType::MVSI_HOLE_PUNCH.spec_tag()
    &&& exists|i: int|
        #[trigger] is_sender(old.players@, src, i) && le32(d, 1) >= old.players@[i].last_seq_received
}

/// Every player has said it is ready.
pub open spec fn all_ready(players: Seq<Player>) -> bool {
    forall|k: int| 0 <= k < players.len() ==> (#[trigger] players[k]).ready
}

/// Highest ping among `players`, 0 for none.
pub open spec fn max_ping(players: Seq<Player>) -> u16
    decreases players.len(),
{
    if players.len() == 0 {
        0
    } else {
        let m = max_ping(players.drop_last());
        if players.last().ping > m {
            players.last().ping
        } else {
            m
        }
    }
}

/// `acked` after an acknowledgement `ack`: each entry rises to the
/// acknowledged frame where that is higher, and never falls.
pub open spec fn acks_merged(acked: Seq<u32>, ack: Seq<u32>) -> Seq<u32> {
    Seq::new(
        acked.len(),
        |k: int|
            if k < ack.len() && acked[k] < ack[k] {
                ack[k]
            } else {
                acked[k]
            },
    )
}

/// The input history after inputs `s` that start at frame `start`; frames
/// beyond `u32::MAX` are dropped.
pub open spec fn merged_inputs(m: Map<u32, u32>, start: u32, s: Seq<u32>) -> Map<u32, u32>
    decreases s.len(),
{
    if s.len() == 0 {
        m
    } else {
        let before = merged_inputs(m, start, s.drop_last());
        if start + s.len() - 1 <= u32::MAX {
            before.insert((start + s.len() - 1) as u32, s.last())
        } else {
            before
        }
    }
}

/// What `admit_player` does: the player `data` sending from `src` is
/// admitted when the backend lists it, it is not admitted yet and the
/// session is not relaying; it is then inserted into the ordered roster, the
/// reply `PlayerConnection` is sent, and the ping loop starts once the
/// roster is full. Otherwise nothing changes.
pub open spec fn admitted(
    old: P2PRollbackServer,
    new: P2PRollbackServer,
    r: Seq<Action>,
    data: PlayerData,
    src: Endpoint,
) -> bool {
    &&& new == (P2PRollbackServer {
        players: new.players,
        current_match: GameMatch {
            sequence_number: new.current_match.sequence_number,
            ..old.current_match
        },
        ..old
    })
    &&& ({
        let known = exists|j: int|
            0 <= j < old.players@.len() && (#[trigger] old.players@[j]).index
                == data.player_index;
        let entry = roster_entry(old.http_players@, data.player_index);
        let admits = !known && old.host_socket is None && entry is Some;
        &&& !admits ==> r.len() == 0 && new == old
        &&& forall|i: int| 0 <= i < r.len() ==> (#[trigger] r[i]) is Send || r[i] is StartPingLoop
        &&& admits ==> {
            &&& exists|pos: int|
                inserted_at(
                    old.players@,
                    new.players@,
                    pos,
                    #[trigger] new.players@[pos],
                ) && fresh_player(
                    new.players@[pos],
                    data,
                    src,
                    old.http_players@[entry->0].is_host,
                    old.current_match.num_players,
                )
            &&& old.current_match.sequence_number < u32::MAX ==> (r.len() > 0
                && (r[0] matches Action::Send { target, sequence, bytes } && target == src
                && sequence == old.current_match.sequence_number && outgoing(
                sequence,
                ServerMessageType::PlayerConnection,
                connection_reply(old.current_match, data.player_index),
                old.current_match.num_players,
            ) == Ok::<Seq<u8>, CompressionError>(bytes@)))
            &&& (connected_count(new.players@)
                == old.current_match.num_players) <==> (r.len() > 0
                && r.last() is StartPingLoop)
        }
    })
}

/// What host election does for the local player `data` sending from `src`.
/// When the roster marks it as host, the session becomes host, starts a hole
/// punch to every other roster member, and admits the player. When the
/// roster lists it as a non-host, the session relays to the roster's host
/// from then on, and nothing else changes. When the roster does not list it,
/// the player goes to admission, which then changes nothing.
pub open spec fn elected(
    old: P2PRollbackServer,
    new: P2PRollbackServer,
    r: Seq<Action>,
    data: PlayerData,
    src: Endpoint,
) -> bool {
    let roster = old.http_players@;
    let targets = hole_punch_targets(roster, data.player_index, old.port);
    match roster_entry(roster, data.player_index) {
        Some(e) => if roster[e].is_host {
            &&& r.len() >= targets.len()
            &&& punch_targets(r.subrange(0, targets.len() as int)) == targets
            &&& forall|i: int| 0 <= i < targets.len() ==> #[trigger] r[i] is StartHolePunch
            &&& admitted(
                P2PRollbackServer { is_host: true, ..old },
                new,
                r.subrange(targets.len() as int, r.len() as int),
                data,
                src,
            )
        } else {
            &&& r.len() == 0
            &&& new == (P2PRollbackServer {
                host_socket: host_or(roster, old.port, old.host_socket),
                ..old
            })
        },
        None => admitted(old, new, r, data, src),
    }
}

/// The session once the backend's answer `config` to the registration of the
/// waiting connection `p` is applied: the connection no longer waits, the
/// local player counts as connected, and on an answer to a match not yet
/// confirmed the match takes the answer's roster, player count and duration
/// and becomes ready. No answer (`None`) changes nothing more.
pub open spec fn registration_applied(
    old: P2PRollbackServer,
    config: Option<MVSIMatchConfig>,
    p: PendingConnection,
) -> P2PRollbackServer {
    let local = match old.local_socket {
        Some(l) => Some(l),
        None => Some(p.source),
    };
    let base = P2PRollbackServer {
        pending_connection: None,
        is_local_player_connected: true,
        local_socket: local,
        ..old
    };
    match config {
        Some(c) => if old.current_match.ready {
            base
        } else {
            P2PRollbackServer {
                current_match: GameMatch {
                    match_id: p.match_id,
                    match_key: p.key,
                    num_players: c.max_players,
                    match_duration: c.match_duration,
                    ready: true,
                    ..old.current_match
                },
                http_players: c.players,
                ..base
            }
        },
        None => base,
    }
}

pub struct P2PRollbackServer {
    pub state: ServerState,
    /// The roster, strictly ordered by player index.
    pub players: Vec<Player>,
    pub current_match: GameMatch,
    /// Set on a non-host participant: all traffic is relayed to and from it.
    pub host_socket: Option<Endpoint>,
    /// The co-located game client.
    pub local_socket: Option<Endpoint>,
    /// The roster that the backend returned.
    pub http_players: Vec<MVSIPlayer>,
    pub is_local_player_connected: bool,
    pub is_host: bool,
    /// UDP port of the peers, for hole punching and relaying.
    pub port: u16,
    /// The local connection that waits for the backend's answer.
    pub pending_connection: Option<PendingConnection>,
}

/// The first local `PlayerConnection`, kept while the backend registers the match.
pub struct PendingConnection {
    pub player_data: PlayerData,
    pub source: Endpoint,
    pub match_id: String,
    pub key: String,
}

/// Player indices strictly increase along the roster (so they are unique).
pub open spec fn roster_ordered(players: Seq<Player>) -> bool {
    forall|i: int, j: int| 0 <= i < j < players.len() ==> players[i].index < players[j].index
}

/// Every rift is within [-4900, 4900] hundredths.
pub open spec fn rifts_bounded(players: Seq<Player>) -> bool {
    forall|i: int| 0 <= i < players.len() ==> -4900 <= #[trigger] players[i].rift <= 4900
}

impl P2PRollbackServer {
    /// The session's invariant.
    pub open spec fn well_formed(&self) -> bool {
        &&& roster_ordered(self.players@)
        &&& rifts_bounded(self.players@)
        &&& self.host_socket is Some ==> self.local_socket is Some
        &&& !self.current_match.ready ==> self.players@.len() == 0 && self.http_players@.len() == 0
        &&& forall|i: int|
            0 <= i < self.players@.len() ==> (#[trigger] self.players@[i]).acked_frames@.len()
                == self.current_match.num_players
    }

    /// A session in the idle state whose peers listen on `port`.
    pub fn new(port: u16) -> (r: P2PRollbackServer)
        ensures
            r.well_formed(),
            r.state == ServerState::Idle,
            r.players@.len() == 0,
            r.current_match.sequence_number == 0,
            r.current_match.num_players == 0,
            !r.current_match.ready,
            r.host_socket is None,
            r.local_socket is None,
            r.http_players@.len() == 0,
            !r.is_local_player_connected,
            !r.is_host,
            r.port == port,
            r.pending_connection is None,
    {
        P2PRollbackServer {
            state: ServerState::Idle,
            players: Vec::new(),
            current_match: GameMatch::new(),
            host_socket: None,
            local_socket: None,
            http_players: Vec::new(),
            is_local_player_connected: false,
            is_host: false,
            port,
            pending_connection: None,
        }
    }

    /// Numbers, serialises and compresses a message to `target`.
    ///
    /// The message takes the current sequence number, which then advances by
    /// one. Nothing is sent, and the number does not advance, when the
    /// counter is exhausted or the datagram would not fit in
    /// `MAX_BUFFER_SIZE` bytes.
    pub fn send_message(
        &mut self,
        header_type: ServerMessageType,
        message: ServerMessagePayload,
        target: &Endpoint,
    ) -> (r: Option<Action>)
        ensures
            ({
                let s = old(self).current_match.sequence_number;
                let out = outgoing(s, header_type, message, old(self).current_match.num_players);
                &&& r is Some <==> (s < u32::MAX && out is Ok)
                &&& r matches Some(a) ==> (a matches Action::Send { target: t, sequence: q, bytes: b }
                    && t == *target && q == s && out == Ok::<Seq<u8>, CompressionError>(b@))
                &&& final(self).current_match.sequence_number == if r is Some {
                    (s + 1) as u32
                } else {
                    s
                }
                &&& *final(self) == (P2PRollbackServer {
                    current_match: GameMatch {
                        sequence_number: final(self).current_match.sequence_number,
                        ..old(self).current_match
                    },
                    ..*old(self)
                })
            }),
    {
        let sequence = self.current_match.sequence_number;
        if sequence == u32::MAX {
            return None;
        }
        let server_msg = UdpServerMessage {
            header: Header { type_: header_type, sequence },
            payload: message,
        };
        let serialized = serialize_server_message(
            &server_msg,
            self.current_match.num_players as usize,
        );
        match compress_packet(serialized.as_slice()) {
            Ok(bytes) => {
                self.current_match.sequence_number = sequence + 1;
                Some(Action::Send { target: *target, sequence, bytes })
            },
            Err(_) => None,
        }
    }

    /// The rift of a client at `client_frame` with round-trip time `ping`
    /// against the server frame `server_frame`, in hundredths of a frame.
    pub fn calc_rift_variable_tick(&self, server_frame: u32, client_frame: u32, ping: u16) -> (r:
        i16)
        ensures
            r == rift_centi(server_frame, client_frame, ping),
            -4900 <= r <= 4900,
    {
        let diff: i64 = client_frame as i64 - server_frame as i64;
        let half_ping: i64 = (ping as i64 * 1000000 + 166667) / 333334;
        assert(half_ping == round_div(500000 * ping, 166667));
        let rift: i64 = diff * 100 + half_ping;
        if rift < -(MAX_RIFT as i64) {
            -MAX_RIFT
        } else if rift > MAX_RIFT as i64 {
            MAX_RIFT
        } else {
            rift as i16
        }
    }

    /// Position in the roster of the player that sends from `src`.
    pub fn find_player(&self, src: &Endpoint) -> (r: Option<usize>)
        ensures
            r matches Some(i) ==> i < self.players@.len() && self.players@[i as int].socket == *src
                && forall|j: int| 0 <= j < i ==> self.players@[j].socket != *src,
            r is None ==> forall|i: int|
                0 <= i < self.players@.len() ==> self.players@[i].socket != *src,
    {
        let mut i: usize = 0;
        while i < self.players.len()
            invariant
                i <= self.players@.len(),
                forall|k: int| 0 <= k < i ==> self.players@[k].socket != *src,
            decreases self.players@.len() - i,
        {
            if self.players[i].socket == *src {
                return Some(i);
            }
            i = i + 1;
        }
        None
    }

    /// Records the answer to a ping: when `src` is a player and the sequence
    /// number it answers is pending, its ping becomes the elapsed time and
    /// its count of answered pings grows by one. Anything else changes nothing.
    pub fn handle_player_pong_response(&mut self, payload: PongPayload, src: &Endpoint, now_ms: u64)
        requires
            old(self).well_formed(),
        ensures
            final(self).well_formed(),
            *final(self) == (P2PRollbackServer { players: final(self).players, ..*old(self) }),
            final(self).players@.len() == old(self).players@.len(),
            ({
                let seq = payload.server_message_sequence_number;
                forall|i: int|
                    0 <= i < old(self).players@.len() ==> {
                        let o = #[trigger] old(self).players@[i];
                        let n = final(self).players@[i];
                        if o.socket == *src && o.pending_pings@.contains_key(seq) && (forall|j: int|
                            0 <= j < i ==> old(self).players@[j].socket != *src) {
                            &&& n == (Player {
                                pending_pings: n.pending_pings,
                                ping: elapsed_ping(o.pending_pings@[seq], now_ms),
                                replied_pings: if o.replied_pings < u32::MAX {
                                    (o.replied_pings + 1) as u32
                                } else {
                                    o.replied_pings
                                },
                                ..o
                            })
                            &&& n.pending_pings@ == o.pending_pings@.remove(seq)
                        } else {
                            n == o
                        }
                    }
            }),
    {
        let seq = payload.server_message_sequence_number;
        match self.find_player(src) {
            Some(i) => {
                if self.players[i].pending_pings.contains_key(&seq) {
                    match self.players[i].pending_pings.remove(&seq) {
                        Some(start) => {
                            let ping = elapsed_ms(start, now_ms);
                            self.players[i].ping = ping;
                            if self.players[i].replied_pings < u32::MAX {
                                self.players[i].replied_pings = self.players[i].replied_pings + 1;
                            }
                        },
                        None => {},
                    }
                }
            },
            None => {},
        }
    }

    /// Sends `StartGame` to every player, in roster order.
    #[verifier::spinoff_prover]
    pub fn send_game_start(&mut self) -> (r: Vec<Action>)
        requires
            old(self).well_formed(),
        ensures
            final(self).well_formed(),
            numbered_run(
                r@,
                old(self).current_match.sequence_number,
                final(self).current_match.sequence_number,
            ),
            *final(self) == (P2PRollbackServer {
                current_match: GameMatch {
                    sequence_number: final(self).current_match.sequence_number,
                    ..old(self).current_match
                },
                ..*old(self)
            }),
            old(self).current_match.sequence_number + old(self).players@.len() <= u32::MAX
                ==> fanned_out(
                r@,
                old(self).players@,
                old(self).current_match.sequence_number,
                |k: int, q: u32|
                    outgoing(
                        q,
                        ServerMessageType::StartGame,
                        ServerMessagePayload::StartGame(Empty {  }),
                        old(self).current_match.num_players,
                    ),
            ),
    {
        let ghost pre = *self;
        let ghost s0 = self.current_match.sequence_number;
        let mut acts: Vec<Action> = Vec::new();
        let mut k: usize = 0;
        while k < self.players.len()
            invariant
                k <= self.players@.len(),
                self.well_formed(),
                *self == (P2PRollbackServer {
                    current_match: GameMatch {
                        sequence_number: self.current_match.sequence_number,
                        ..pre.current_match
                    },
                    ..pre
                }),
                numbered_run(acts@, s0, self.current_match.sequence_number),
                s0 + pre.players@.len() <= u32::MAX ==> acts@.len() == k
                    && self.current_match.sequence_number == s0 + k && forall|j: int|
                    0 <= j < k ==> (#[trigger] acts@[j] matches Action::Send {
                        target,
                        sequence,
                        bytes,
                    } && target == pre.players@[j].socket && sequence == s0 + j && outgoing(
                        sequence,
                        ServerMessageType::StartGame,
                        ServerMessagePayload::StartGame(Empty {  }),
                        pre.current_match.num_players,
                    ) == Ok::<Seq<u8>, CompressionError>(bytes@)),
            decreases self.players@.len() - k,
        {
            let target = self.players[k].socket;
            let ghost q = self.current_match.sequence_number;
            proof {
                crate::compression::lemma_compress_fits(
                    server_bytes(
                        UdpServerMessage {
                            header: Header { type_: ServerMessageType::StartGame, sequence: q },
                            payload: ServerMessagePayload::StartGame(Empty {  }),
                        },
                        pre.current_match.num_players as nat,
                    ),
                );
            }
            let sent = self.send_message(
                ServerMessageType::StartGame,
                ServerMessagePayload::StartGame(Empty {  }),
                &target,
            );
            match sent {
                Some(a) => {
                    proof {
                        lemma_push_send(acts@, a, s0, q);
                    }
                    acts.push(a);
                },
                None => {},
            }
            k = k + 1;
        }
        acts
    }

    /// Sends `PlayerGetReady` to every player, in roster order.
    #[verifier::spinoff_prover]
    pub fn send_players_get_ready(&mut self) -> (r: Vec<Action>)
        requires
            old(self).well_formed(),
        ensures
            final(self).well_formed(),
            numbered_run(
                r@,
                old(self).current_match.sequence_number,
                final(self).current_match.sequence_number,
            ),
            *final(self) == (P2PRollbackServer {
                current_match: GameMatch {
                    sequence_number: final(self).current_match.sequence_number,
                    ..old(self).current_match
                },
                ..*old(self)
            }),
            old(self).current_match.sequence_number + old(self).players@.len() <= u32::MAX
                ==> fanned_out(
                r@,
                old(self).players@,
                old(self).current_match.sequence_number,
                |k: int, q: u32|
                    get_ready_bytes(
                        q,
                        old(self).players@.len() as u8,
                        old(self).current_match.num_players,
                    ),
            ),
    {
        let ghost pre = *self;
        let ghost s0 = self.current_match.sequence_number;
        let count = self.players.len() as u8;
        let mut acts: Vec<Action> = Vec::new();
        let mut k: usize = 0;
        while k < self.players.len()
            invariant
                k <= self.players@.len(),
                count == pre.players@.len() as u8,
                self.well_formed(),
                *self == (P2PRollbackServer {
                    current_match: GameMatch {
                        sequence_number: self.current_match.sequence_number,
                        ..pre.current_match
                    },
                    ..pre
                }),
                numbered_run(acts@, s0, self.current_match.sequence_number),
                s0 + pre.players@.len() <= u32::MAX ==> acts@.len() == k
                    && self.current_match.sequence_number == s0 + k && forall|j: int|
                    0 <= j < k ==> (#[trigger] acts@[j] matches Action::Send {
                        target,
                        sequence,
                        bytes,
                    } && target == pre.players@[j].socket && sequence == s0 + j && get_ready_bytes(
                        sequence,
                        count,
                        pre.current_match.num_players,
                    ) == Ok::<Seq<u8>, CompressionError>(bytes@)),
            decreases self.players@.len() - k,
        {
            let target = self.players[k].socket;
            let ghost q = self.current_match.sequence_number;
            let msg = ServerMessagePayload::PlayerGetReady(
                PlayerGetReady { num_players: count, raw_data: Vec::new() },
            );
            proof {
                crate::serializer::lemma_config_bytes_len(pre.current_match.num_players as nat);
                crate::compression::lemma_compress_fits(
                    server_bytes(
                        UdpServerMessage {
                            header: Header { type_: ServerMessageType::PlayerGetReady, sequence: q },
                            payload: msg,
                        },
                        pre.current_match.num_players as nat,
                    ),
                );
            }
            let sent = self.send_message(ServerMessageType::PlayerGetReady, msg, &target);
            match sent {
                Some(a) => {
                    proof {
                        lemma_push_send(acts@, a, s0, q);
                    }
                    acts.push(a);
                },
                None => {},
            }
            k = k + 1;
        }
        acts
    }

    /// Makes one hole-punch datagram for `target`.
    pub fn send_udp_hole_punch(&mut self, target: &Endpoint) -> (r: Option<Action>)
        requires
            old(self).well_formed(),
        ensures
            final(self).well_formed(),
            ({
                let s = old(self).current_match.sequence_number;
                &&& r is Some <==> s < u32::MAX
                &&& r matches Some(a) ==> (a matches Action::Send { target: t, sequence: q, bytes: b }
                    && t == *target && q == s && outgoing(
                    s,
                    ServerMessageType::MVSI_HOLE_PUNCH,
                    ServerMessagePayload::Empty(),
                    old(self).current_match.num_players,
                ) == Ok::<Seq<u8>, CompressionError>(b@))
                &&& numbered_run(
                    match r {
                        Some(a) => seq![a],
                        None => Seq::empty(),
                    },
                    s,
                    final(self).current_match.sequence_number,
                )
                &&& *final(self) == (P2PRollbackServer {
                    current_match: GameMatch {
                        sequence_number: final(self).current_match.sequence_number,
                        ..old(self).current_match
                    },
                    ..*old(self)
                })
            }),
    {
        proof {
            crate::compression::lemma_compress_fits(
                server_bytes(
                    UdpServerMessage {
                        header: Header {
                            type_: ServerMessageType::MVSI_HOLE_PUNCH,
                            sequence: self.current_match.sequence_number,
                        },
                        payload: ServerMessagePayload::Empty(),
                    },
                    self.current_match.num_players as nat,
                ),
            );
        }
        let r = self.send_message(ServerMessageType::MVSI_HOLE_PUNCH, ServerMessagePayload::Empty(), target);
        proof {
            if r is Some {
                let a = r->0;
                lemma_push_send(Seq::empty(), a, old(self).current_match.sequence_number, old(self).current_match.sequence_number);
                assert(Seq::<Action>::empty().push(a) =~= seq![a]);
            } else {
                assert(send_sequences(Seq::<Action>::empty()) =~= Seq::<u32>::empty());
            }
        }
        r
    }

    /// Records whether the player sending from `src` is ready. Once every
    /// player is ready, and the match has not started yet, sends `StartGame`
    /// to each and starts the tick engine.
    #[verifier::spinoff_prover]
    pub fn handle_player_ready(&mut self, payload: ReadyForMatchPayload, src: &Endpoint) -> (r: Vec<
        Action,
    >)
        requires
            old(self).well_formed(),
        ensures
            final(self).well_formed(),
            numbered_run(
                r@,
                old(self).current_match.sequence_number,
                final(self).current_match.sequence_number,
            ),
            others_unchanged(old(self).players@, final(self).players@, *src),
            forall|i: int|
                is_sender(old(self).players@, *src, i) ==> final(self).players@[i] == (Player {
                    ready: payload.ready != 0,
                    ..old(self).players@[i]
                }),
            *final(self) == (P2PRollbackServer {
                players: final(self).players,
                state: final(self).state,
                current_match: GameMatch {
                    sequence_number: final(self).current_match.sequence_number,
                    ..old(self).current_match
                },
                ..*old(self)
            }),
            ({
                let starts = all_ready(final(self).players@) && old(self).state
                    != ServerState::MatchInProgress;
                &&& starts ==> {
                    &&& final(self).state == ServerState::MatchInProgress
                    &&& r@.len() > 0 && r@.last() is StartTickEngine
                    &&& old(self).current_match.sequence_number + old(self).players@.len()
                        <= u32::MAX ==> fanned_out(
                        r@.drop_last(),
                        final(self).players@,
                        old(self).current_match.sequence_number,
                        |k: int, q: u32|
                            outgoing(
                                q,
                                ServerMessageType::StartGame,
                                ServerMessagePayload::StartGame(Empty {  }),
                                old(self).current_match.num_players,
                            ),
                    )
                }
                &&& !starts ==> r@.len() == 0 && final(self).state == old(self).state
                    && final(self).current_match == old(self).current_match
            }),
    {
        match self.find_player(src) {
            Some(i) => {
                self.players[i].ready = payload.ready != 0;
            },
            None => {},
        }
        let mut all: bool = true;
        let mut k: usize = 0;
        while k < self.players.len()
            invariant
                k <= self.players@.len(),
                all == forall|j: int| 0 <= j < k ==> (#[trigger] self.players@[j]).ready,
            decreases self.players@.len() - k,
        {
            if !self.players[k].ready {
                all = false;
            }
            k = k + 1;
        }
        if all && self.state != ServerState::MatchInProgress {
            let mut acts = self.send_game_start();
            self.state = ServerState::MatchInProgress;
            let ghost before = acts@;
            proof {
                lemma_push_other(
                    acts@,
                    Action::StartTickEngine,
                    old(self).current_match.sequence_number,
                    self.current_match.sequence_number,
                );
            }
            acts.push(Action::StartTickEngine);
            assert(acts@.drop_last() =~= before);
            acts
        } else {
            Vec::new()
        }
    }

    /// Applies an acknowledgement from the player sending from `src`: each
    /// entry of its `acked_frames` rises to the acknowledged frame where that
    /// is higher, and the answered server packet, if pending, gives its ping.
    #[verifier::spinoff_prover]
    pub fn handle_player_input_ack(
        &mut self,
        payload: PlayerInputAckPayload,
        src: &Endpoint,
        now_ms: u64,
    )
        requires
            old(self).well_formed(),
        ensures
            final(self).well_formed(),
            *final(self) == (P2PRollbackServer { players: final(self).players, ..*old(self) }),
            others_unchanged(old(self).players@, final(self).players@, *src),
            forall|i: int|
                is_sender(old(self).players@, *src, i) ==> {
                    let o = old(self).players@[i];
                    let n = #[trigger] final(self).players@[i];
                    let seq = payload.server_message_sequence_number;
                    &&& n == (Player {
                        acked_frames: n.acked_frames,
                        pending_pings: n.pending_pings,
                        ping: n.ping,
                        ..o
                    })
                    &&& n.acked_frames@ == acks_merged(o.acked_frames@, payload.ack_frame@)
                    &&& o.pending_pings@.contains_key(seq) ==> n.ping == elapsed_ping(
                        o.pending_pings@[seq],
                        now_ms,
                    ) && n.pending_pings@ == o.pending_pings@.remove(seq)
                    &&& !o.pending_pings@.contains_key(seq) ==> n.ping == o.ping
                        && n.pending_pings == o.pending_pings
                },
    {
        match self.find_player(src) {
            Some(i) => {
                let ghost o = self.players@[i as int];
                let n = self.players[i].acked_frames.len();
                let mut k: usize = 0;
                while k < n
                    invariant
                        i < self.players@.len(),
                        k <= n,
                        n == o.acked_frames@.len(),
                        self.players@.len() == old(self).players@.len(),
                        forall|j: int|
                            0 <= j < self.players@.len() && j != i ==> self.players@[j]
                                == old(self).players@[j],
                        self.players@[i as int] == (Player {
                            acked_frames: self.players@[i as int].acked_frames,
                            ..o
                        }),
                        self.players@[i as int].acked_frames@.len() == n,
                        forall|j: int|
                            0 <= j < n ==> #[trigger] self.players@[i as int].acked_frames@[j] == if j
                                < k {
                                acks_merged(o.acked_frames@, payload.ack_frame@)[j]
                            } else {
                                o.acked_frames@[j]
                            },
                        *self == (P2PRollbackServer { players: self.players, ..*old(self) }),
                    decreases n - k,
                {
                    if k < payload.ack_frame.len() {
                        let acked = payload.ack_frame[k];
                        if acked > 0 && self.players[i].acked_frames[k] < acked {
                            self.players[i].acked_frames.set(k, acked);
                        }
                    }
                    k = k + 1;
                }
                assert(self.players@[i as int].acked_frames@ =~= acks_merged(
                    o.acked_frames@,
                    payload.ack_frame@,
                ));
                let seq = payload.server_message_sequence_number;
                if self.players[i].pending_pings.contains_key(&seq) {
                    match self.players[i].pending_pings.remove(&seq) {
                        Some(start) => {
                            self.players[i].ping = elapsed_ms(start, now_ms);
                        },
                        None => {},
                    }
                }
            },
            None => {},
        }
    }

    /// Highest ping of the roster.
    fn roster_max_ping(&self) -> (r: u16)
        ensures
            r == max_ping(self.players@),
    {
        let mut m: u16 = 0;
        let mut k: usize = 0;
        assert(self.players@.subrange(0, 0) =~= Seq::<Player>::empty());
        while k < self.players.len()
            invariant
                k <= self.players@.len(),
                m == max_ping(self.players@.subrange(0, k as int)),
            decreases self.players@.len() - k,
        {
            assert(self.players@.subrange(0, k + 1).drop_last() =~= self.players@.subrange(
                0,
                k as int,
            ));
            if self.players[k].ping > m {
                m = self.players[k].ping;
            }
            k = k + 1;
        }
        assert(self.players@.subrange(0, k as int) =~= self.players@);
        m
    }

    /// Applies inputs from the player sending from `src`: its client frame is
    /// recorded and the frames are merged into its history. The host's frame
    /// becomes the server frame, and with exactly two configured players the
    /// host takes the highest ping of the roster; any other player gets its
    /// rift against the server frame.
    #[verifier::spinoff_prover]
    pub fn handle_player_input(&mut self, payload: PlayerInputPayload, src: &Endpoint)
        requires
            old(self).well_formed(),
        ensures
            final(self).well_formed(),
            *final(self) == (P2PRollbackServer {
                players: final(self).players,
                current_match: GameMatch {
                    current_frame: final(self).current_match.current_frame,
                    ..old(self).current_match
                },
                ..*old(self)
            }),
            others_unchanged(old(self).players@, final(self).players@, *src),
            (forall|i: int| !is_sender(old(self).players@, *src, i))
                ==> final(self).current_match.current_frame
                == old(self).current_match.current_frame,
            forall|i: int|
                is_sender(old(self).players@, *src, i) ==> {
                    let o = old(self).players@[i];
                    let n = #[trigger] final(self).players@[i];
                    &&& n == (Player {
                        last_client_frame: payload.client_frame,
                        inputs: n.inputs,
                        ping: n.ping,
                        rift: n.rift,
                        ..o
                    })
                    &&& n.inputs@ == merged_inputs(
                        o.inputs@,
                        payload.start_frame,
                        payload.input_per_frame@,
                    )
                    &&& o.is_host ==> {
                        &&& n.rift == o.rift
                        &&& final(self).current_match.current_frame == payload.client_frame
                        &&& n.ping == if old(self).current_match.num_players == 2 {
                            max_ping(old(self).players@)
                        } else {
                            o.ping
                        }
                    }
                    &&& !o.is_host ==> {
                        &&& n.ping == o.ping
                        &&& n.rift == rift_centi(
                            old(self).current_match.current_frame,
                            payload.client_frame,
                            o.ping,
                        )
                        &&& final(self).current_match.current_frame
                            == old(self).current_match.current_frame
                    }
                },
    {
        let highest = self.roster_max_ping();
        match self.find_player(src) {
            Some(i) => {
                let ghost o = self.players@[i as int];
                assert(is_sender(old(self).players@, *src, i as int));
                self.players[i].last_client_frame = payload.client_frame;
                let start = payload.start_frame;
                let n = payload.input_per_frame.len();
                let mut k: usize = 0;
                assert(payload.input_per_frame@.subrange(0, 0) =~= Seq::<u32>::empty());
                while k < n
                    invariant
                        i < self.players@.len(),
                        k <= n,
                        n == payload.input_per_frame@.len(),
                        self.players@.len() == old(self).players@.len(),
                        forall|j: int|
                            0 <= j < self.players@.len() && j != i ==> self.players@[j]
                                == old(self).players@[j],
                        self.players@[i as int] == (Player {
                            last_client_frame: payload.client_frame,
                            inputs: self.players@[i as int].inputs,
                            ..o
                        }),
                        self.players@[i as int].inputs@ == merged_inputs(
                            o.inputs@,
                            start,
                            payload.input_per_frame@.subrange(0, k as int),
                        ),
                        *self == (P2PRollbackServer { players: self.players, ..*old(self) }),
                    decreases n - k,
                {
                    assert(payload.input_per_frame@.subrange(0, k + 1).drop_last()
                        =~= payload.input_per_frame@.subrange(0, k as int));
                    if k <= (u32::MAX - start) as usize {
                        let frame = start + k as u32;
                        self.players[i].inputs.insert(frame, payload.input_per_frame[k]);
                    }
                    k = k + 1;
                }
                assert(payload.input_per_frame@.subrange(0, n as int) =~= payload.input_per_frame@);
                if self.players[i].is_host {
                    if self.current_match.num_players == 2 {
                        self.players[i].ping = highest;
                    }
                    self.current_match.current_frame = payload.client_frame;
                } else {
                    let rift = self.calc_rift_variable_tick(
                        self.current_match.current_frame,
                        payload.client_frame,
                        self.players[i].ping,
                    );
                    self.players[i].rift = rift;
                }
            },
            None => {},
        }
    }

    /// The frames of `source` that follow `next`, consecutive and present, at
    /// most `MAX_FRAMES_PER_SOURCE` of them.
    fn frames_from(source: &Player, next: u32) -> (r: Vec<u32>)
        requires
            source.inputs@.contains_key(next),
        ensures
            1 <= r@.len() <= MAX_FRAMES_PER_SOURCE,
            frames_match(r@, source.inputs@, next),
            r@.len() == MAX_FRAMES_PER_SOURCE || frame_input(source.inputs@, next, r@.len() as int)
                is None,
    {
        let mut row: Vec<u32> = Vec::new();
        let mut f: u64 = next as u64;
        assert(f as u32 == next);
        while row.len() < 255 && f <= u32::MAX as u64 && source.inputs.contains_key(&(f as u32))
            invariant
                f == next + row@.len(),
                row@.len() <= 255,
                source.inputs@.contains_key(next),
                frames_match(row@, source.inputs@, next),
            decreases 256 - row@.len(),
        {
            let key = f as u32;
            assert(key == f);
            assert(source.inputs@.contains_key(key));
            assert(next + row@.len() <= u32::MAX);
            let v: u32 = match source.inputs.get(&key) {
                Some(v) => *v,
                None => 0,
            };
            assert(v == source.inputs@[key]);
            let ghost before = row@;
            assert(key == (next + before.len()) as u32);
            assert(frame_input(source.inputs@, next, before.len() as int) == Some(v));
            row.push(v);
            proof {
                lemma_frames_push(before, source.inputs@, next, v);
            }
            f = f + 1;
        }
        row
    }

    /// Builds the `PlayerInputs` packet for the `k`-th player of the roster.
    #[verifier::spinoff_prover]
    pub fn plan_player_inputs(&self, k: usize) -> (d: PlayerInputs)
        requires
            self.well_formed(),
            k < self.players@.len(),
        ensures
            input_plan(self.players@, k as int, self.current_match.num_players, d),
    {
        let np = self.current_match.num_players;
        let mut start_frame: Vec<u32> = Vec::new();
        let mut num_frames: Vec<u8> = Vec::new();
        let mut input_per_frame: Vec<Vec<u32>> = Vec::new();
        let mut p: usize = 0;
        while p < np as usize
            invariant
                p <= np,
                start_frame@.len() == p,
                num_frames@.len() == p,
                input_per_frame@.len() == p,
                start_frame@ =~= Seq::new(p as nat, |q: int| 0u32),
                num_frames@ =~= Seq::new(p as nat, |q: int| 0u8),
                forall|q: int| 0 <= q < p ==> (#[trigger] input_per_frame@[q])@.len() == 0,
            decreases np - p,
        {
            start_frame.push(0);
            num_frames.push(0);
            let ghost before = input_per_frame@;
            input_per_frame.push(Vec::new());
            assert forall|q: int| 0 <= q < p + 1 implies (#[trigger] input_per_frame@[q])@.len()
                == 0 by {
                if q < p {
                    assert(input_per_frame@[q] == before[q]);
                }
            }
            p = p + 1;
        }
        let ghost players = self.players@;
        let ghost r = self.players@[k as int];
        let mut j: usize = 0;
        while j < self.players.len()
            invariant
                players == self.players@,
                self.well_formed(),
                k < players.len(),
                r == players[k as int],
                j <= players.len(),
                np == self.current_match.num_players,
                start_frame@.len() == np,
                num_frames@.len() == np,
                input_per_frame@.len() == np,
                forall|i: int|
                    0 <= i < j && players[i].index < np ==> #[trigger] source_plan(
                        r,
                        players[i],
                        start_frame@,
                        num_frames@,
                        input_per_frame@,
                    ),
                unclaimed_empty(
                    players,
                    j as int,
                    np,
                    start_frame@,
                    num_frames@,
                    input_per_frame@,
                ),
            decreases players.len() - j,
        {
            let p = self.players[j].index as usize;
            let ghost s0 = start_frame@;
            let ghost n0 = num_frames@;
            let ghost w0 = input_per_frame@;
            if p < np as usize {
                assert(forall|i: int| 0 <= i < j ==> players[i].index < players[j as int].index);
                let acked = self.players[k].acked_frames[p];
                if acked < u32::MAX && self.players[j].inputs.contains_key(&(acked + 1)) {
                    let row = Self::frames_from(&self.players[j], acked + 1);
                    start_frame.set(p, acked + 1);
                    num_frames.set(p, row.len() as u8);
                    input_per_frame.set(p, row);
                }
                assert(source_plan(
                    r,
                    players[j as int],
                    start_frame@,
                    num_frames@,
                    input_per_frame@,
                ));
            }
            proof {
                lemma_unclaimed_kept(
                    players,
                    j as int,
                    np,
                    s0,
                    n0,
                    w0,
                    start_frame@,
                    num_frames@,
                    input_per_frame@,
                );
                assert forall|i: int|
                    0 <= i < j + 1 && players[i].index < np implies #[trigger] source_plan(
                    r,
                    players[i],
                    start_frame@,
                    num_frames@,
                    input_per_frame@,
                ) by {
                    if i < j {
                        assert(players[i].index < players[j as int].index);
                        lemma_plan_kept(
                            r,
                            players[i],
                            s0,
                            n0,
                            w0,
                            start_frame@,
                            num_frames@,
                            input_per_frame@,
                        );
                    }
                }
            }
            j = j + 1;
        }
        let r = &self.players[k];
        PlayerInputs {
            num_players: np,
            start_frame,
            num_frames,
            num_predicted_overrides: 0,
            unused_0: 0,
            ping: r.ping,
            packets_loss_percent: 0,
            rift: r.rift,
            unused_1: 0,
            input_per_frame,
        }
    }

    /// One tick of the input distribution. Once every player has buffered
    /// `MIN_BUFFERED_FRAMES` input frames, sends each player, in roster
    /// order, the `PlayerInputs` packet planned for it and records the
    /// packet's sequence number as a pending ping.
    #[verifier::rlimit(100)]
    #[verifier::spinoff_prover]
    pub fn send_player_inputs(&mut self, now_ms: u64) -> (r: Vec<Action>)
        requires
            old(self).well_formed(),
        ensures
            final(self).well_formed(),
            numbered_run(
                r@,
                old(self).current_match.sequence_number,
                final(self).current_match.sequence_number,
            ),
            !all_buffered(old(self).players@) ==> r@.len() == 0 && *final(self) == *old(self),
            all_buffered(old(self).players@) ==> {
                &&& *final(self) == (P2PRollbackServer {
                    players: final(self).players,
                    current_match: GameMatch {
                        sequence_number: final(self).current_match.sequence_number,
                        ..old(self).current_match
                    },
                    ..*old(self)
                })
                &&& final(self).players@.len() == old(self).players@.len()
                &&& r@.len() <= old(self).players@.len()
                &&& forall|a: int|
                    0 <= a < r@.len() ==> #[trigger] inputs_sent(
                        r@[a],
                        old(self).players@,
                        old(self).current_match.num_players,
                    )
                &&& forall|k: int|
                    0 <= k < old(self).players@.len() ==> {
                        let o = old(self).players@[k];
                        let n = #[trigger] final(self).players@[k];
                        &&& n == (Player { pending_pings: n.pending_pings, missed_inputs: 0, ..o })
                        &&& n.pending_pings@ == o.pending_pings@ || exists|q: u32|
                            n.pending_pings@ == o.pending_pings@.insert(q, now_ms)
                                && send_sequences(r@).contains(q)
                    }
                &&& all_plans_fit(
                    old(self).players@,
                    old(self).current_match.num_players,
                    old(self).current_match.sequence_number,
                ) ==> {
                    &&& r@.len() == old(self).players@.len()
                    &&& forall|k: int|
                        0 <= k < r@.len() ==> (#[trigger] r@[k] matches Action::Send {
                            target,
                            sequence,
                            bytes,
                        } && target == old(self).players@[k].socket && sequence
                            == old(self).current_match.sequence_number + k
                            && final(self).players@[k].pending_pings@
                            == old(self).players@[k].pending_pings@.insert(sequence, now_ms)
                            && planned_packet(
                            old(self).players@,
                            k,
                            old(self).current_match.num_players,
                            sequence,
                            bytes@,
                        ))
                }
            },
    {
        let mut buffered: bool = true;
        let mut k: usize = 0;
        while k < self.players.len()
            invariant
                k <= self.players@.len(),
                buffered == forall|j: int|
                    0 <= j < k ==> (#[trigger] self.players@[j]).inputs@.len()
                        >= MIN_BUFFERED_FRAMES,
            decreases self.players@.len() - k,
        {
            if self.players[k].inputs.len() < MIN_BUFFERED_FRAMES {
                buffered = false;
            }
            k = k + 1;
        }
        if !buffered {
            return Vec::new();
        }
        let ghost pre = *self;
        let np = self.current_match.num_players;
        let n = self.players.len();
        let mut plans: Vec<PlayerInputs> = Vec::new();
        k = 0;
        while k < n
            invariant
                *self == pre,
                pre.well_formed(),
                n == pre.players@.len(),
                np == pre.current_match.num_players,
                k <= n,
                plans@.len() == k,
                forall|j: int| 0 <= j < k ==> #[trigger] input_plan(pre.players@, j, np, plans@[j]),
            decreases n - k,
        {
            let d = self.plan_player_inputs(k);
            plans.push(d);
            k = k + 1;
        }
        let ghost all_plans = plans@;
        let ghost s0 = self.current_match.sequence_number;
        let mut acts: Vec<Action> = Vec::new();
        k = 0;
        while k < n
            invariant
                n == pre.players@.len(),
                np == pre.current_match.num_players,
                k <= n,
                all_plans.len() == n,
                plans@ == all_plans.subrange(k as int, n as int),
                forall|j: int|
                    0 <= j < n ==> #[trigger] input_plan(pre.players@, j, np, all_plans[j]),
                self.well_formed(),
                *self == (P2PRollbackServer {
                    players: self.players,
                    current_match: GameMatch {
                        sequence_number: self.current_match.sequence_number,
                        ..pre.current_match
                    },
                    ..pre
                }),
                self.players@.len() == n,
                numbered_run(acts@, s0, self.current_match.sequence_number),
                acts@.len() <= k,
                forall|a: int|
                    0 <= a < acts@.len() ==> #[trigger] inputs_sent(acts@[a], pre.players@, np),
                all_plans_fit(pre.players@, np, s0) ==> {
                    &&& acts@.len() == k
                    &&& self.current_match.sequence_number == s0 + k
                    &&& forall|j: int|
                        0 <= j < k ==> (#[trigger] acts@[j] matches Action::Send {
                            target,
                            sequence,
                            bytes,
                        } && target == pre.players@[j].socket && sequence == s0 + j
                            && self.players@[j].pending_pings@
                            == pre.players@[j].pending_pings@.insert(sequence, now_ms)
                            && planned_packet(pre.players@, j, np, sequence, bytes@))
                },
                forall|j: int|
                    0 <= j < n ==> {
                        let o = pre.players@[j];
                        let m = #[trigger] self.players@[j];
                        &&& j < k ==> m == (Player {
                            pending_pings: m.pending_pings,
                            missed_inputs: 0,
                            ..o
                        })
                        &&& j >= k ==> m == o
                        &&& m.pending_pings@ == o.pending_pings@ || exists|q: u32|
                            m.pending_pings@ == o.pending_pings@.insert(q, now_ms)
                                && send_sequences(acts@).contains(q)
                    },
            decreases n - k,
        {
            let d = plans.remove(0);
            let ghost dg = d;
            assert(dg == all_plans[k as int]);
            assert(input_plan(pre.players@, k as int, np, dg));
            let target = self.players[k].socket;
            let q = self.current_match.sequence_number;
            let ghost acts0 = acts@;
            self.players[k].missed_inputs = 0;
            let sent = self.send_message(
                ServerMessageType::PlayerInputs,
                ServerMessagePayload::PlayerInputs(d),
                &target,
            );
            match sent {
                Some(a) => {
                    self.players[k].pending_pings.insert(q, now_ms);
                    proof {
                        lemma_push_send(acts@, a, s0, q);
                        assert(input_plan(pre.players@, k as int, np, dg));
                        assert(inputs_sent(a, pre.players@, np));
                    }
                    acts.push(a);
                    proof {
                        assert(acts@.drop_last() =~= acts0);
                        assert(send_sequences(acts@) =~= send_sequences(acts0).push(q));
                        assert(send_sequences(acts@).contains(q)) by {
                            assert(send_sequences(acts@)[send_sequences(acts0).len() as int] == q);
                        }
                        assert forall|x: u32| send_sequences(acts0).contains(x) implies send_sequences(
                            acts@,
                        ).contains(x) by {
                            let w = choose|w: int|
                                0 <= w < send_sequences(acts0).len() && send_sequences(acts0)[w]
                                    == x;
                            assert(send_sequences(acts@)[w] == x);
                        }
                        assert forall|a2: int| 0 <= a2 < acts@.len() implies #[trigger] inputs_sent(
                            acts@[a2],
                            pre.players@,
                            np,
                        ) by {
                            if a2 < acts0.len() {
                                assert(acts@[a2] == acts0[a2]);
                            }
                        }
                    }
                },
                None => {},
            }
            k = k + 1;
            assert(plans@ =~= all_plans.subrange(k as int, n as int));
        }
        acts
    }

    /// One round of the ping loop. Once every player has answered
    /// `MAX_PINGS` pings, sends `PlayerGetReady` to every player in roster
    /// order (the roster is kept ordered by player index) and reports
    /// completion. Otherwise sends each player a `RequestPing` carrying its
    /// current ping and records the packet's sequence number as pending.
    #[verifier::spinoff_prover]
    pub fn ping_players(&mut self, now_ms: u64) -> (r: (bool, Vec<Action>))
        requires
            old(self).well_formed(),
        ensures
            final(self).well_formed(),
            numbered_run(
                r.1@,
                old(self).current_match.sequence_number,
                final(self).current_match.sequence_number,
            ),
            r.0 == all_replied(old(self).players@),
            r.0 ==> {
                &&& *final(self) == (P2PRollbackServer {
                    current_match: GameMatch {
                        sequence_number: final(self).current_match.sequence_number,
                        ..old(self).current_match
                    },
                    ..*old(self)
                })
                &&& old(self).current_match.sequence_number + old(self).players@.len() <= u32::MAX
                    ==> fanned_out(
                    r.1@,
                    old(self).players@,
                    old(self).current_match.sequence_number,
                    |k: int, q: u32|
                        get_ready_bytes(
                            q,
                            old(self).players@.len() as u8,
                            old(self).current_match.num_players,
                        ),
                )
            },
            !r.0 ==> {
                &&& *final(self) == (P2PRollbackServer {
                    players: final(self).players,
                    current_match: GameMatch {
                        sequence_number: final(self).current_match.sequence_number,
                        ..old(self).current_match
                    },
                    ..*old(self)
                })
                &&& final(self).players@.len() == old(self).players@.len()
                &&& forall|k: int|
                    0 <= k < old(self).players@.len() ==> {
                        let n = #[trigger] final(self).players@[k];
                        n == (Player { pending_pings: n.pending_pings, ..old(self).players@[k] })
                    }
                &&& old(self).current_match.sequence_number + old(self).players@.len() <= u32::MAX
                    ==> {
                    &&& fanned_out(
                        r.1@,
                        old(self).players@,
                        old(self).current_match.sequence_number,
                        |k: int, q: u32|
                            outgoing(
                                q,
                                ServerMessageType::RequestPing,
                                ping_request(old(self).players@[k]),
                                old(self).current_match.num_players,
                            ),
                    )
                    &&& forall|k: int|
                        0 <= k < old(self).players@.len() ==> (#[trigger] final(self).players@[k]).pending_pings@
                            == old(self).players@[k].pending_pings@.insert(
                            (old(self).current_match.sequence_number + k) as u32,
                            now_ms,
                        )
                }
            },
    {
        let mut done: bool = true;
        let mut k: usize = 0;
        while k < self.players.len()
            invariant
                k <= self.players@.len(),
                done == forall|j: int|
                    0 <= j < k ==> (#[trigger] self.players@[j]).replied_pings >= MAX_PINGS,
            decreases self.players@.len() - k,
        {
            if self.players[k].replied_pings < MAX_PINGS {
                done = false;
            }
            k = k + 1;
        }
        if done {
            let acts = self.send_players_get_ready();
            return (true, acts);
        }
        let ghost pre = *self;
        let ghost s0 = self.current_match.sequence_number;
        let n = self.players.len();
        let mut acts: Vec<Action> = Vec::new();
        k = 0;
        while k < n
            invariant
                n == pre.players@.len(),
                k <= n,
                self.well_formed(),
                *self == (P2PRollbackServer {
                    players: self.players,
                    current_match: GameMatch {
                        sequence_number: self.current_match.sequence_number,
                        ..pre.current_match
                    },
                    ..pre
                }),
                self.players@.len() == n,
                numbered_run(acts@, s0, self.current_match.sequence_number),
                forall|j: int|
                    0 <= j < n ==> {
                        let m = #[trigger] self.players@[j];
                        &&& m == (Player { pending_pings: m.pending_pings, ..pre.players@[j] })
                        &&& j >= k ==> m == pre.players@[j]
                    },
                s0 + n <= u32::MAX ==> {
                    &&& acts@.len() == k
                    &&& self.current_match.sequence_number == s0 + k
                    &&& forall|j: int|
                        0 <= j < k ==> (#[trigger] acts@[j] matches Action::Send {
                            target,
                            sequence,
                            bytes,
                        } && target == pre.players@[j].socket && sequence == s0 + j && outgoing(
                            sequence,
                            ServerMessageType::RequestPing,
                            ping_request(pre.players@[j]),
                            pre.current_match.num_players,
                        ) == Ok::<Seq<u8>, CompressionError>(bytes@))
                    &&& forall|j: int|
                        0 <= j < k ==> (#[trigger] self.players@[j]).pending_pings@
                            == pre.players@[j].pending_pings@.insert((s0 + j) as u32, now_ms)
                },
            decreases n - k,
        {
            let target = self.players[k].socket;
            let q = self.current_match.sequence_number;
            let msg = ServerMessagePayload::RequestPing(
                RequestPing { ping: self.players[k].ping, packets_loss_percent: 0 },
            );
            proof {
                crate::compression::lemma_compress_fits(
                    server_bytes(
                        UdpServerMessage {
                            header: Header { type_: ServerMessageType::RequestPing, sequence: q },
                            payload: msg,
                        },
                        pre.current_match.num_players as nat,
                    ),
                );
            }
            let sent = self.send_message(ServerMessageType::RequestPing, msg, &target);
            match sent {
                Some(a) => {
                    self.players[k].pending_pings.insert(q, now_ms);
                    proof {
                        lemma_push_send(acts@, a, s0, q);
                    }
                    acts.push(a);
                },
                None => {},
            }
            k = k + 1;
        }
        (false, acts)
    }

    /// Position of the backend's roster entry for `player_index`.
    fn find_roster_entry(&self, player_index: u16) -> (r: Option<usize>)
        ensures
            r matches Some(i) ==> roster_entry(self.http_players@, player_index) == Some(i as int)
                && i < self.http_players@.len(),
            r is None ==> roster_entry(self.http_players@, player_index) is None,
    {
        let mut i: usize = 0;
        while i < self.http_players.len()
            invariant
                i <= self.http_players@.len(),
                roster_entry(self.http_players@.subrange(0, i as int), player_index) is None,
            decreases self.http_players@.len() - i,
        {
            assert(self.http_players@.subrange(0, i + 1).drop_last() =~= self.http_players@.subrange(
                0,
                i as int,
            ));
            if self.http_players[i].player_index == player_index {
                proof {
                    lemma_roster_entry_prefix(self.http_players@, player_index, i as int);
                }
                return Some(i);
            }
            i = i + 1;
        }
        assert(self.http_players@.subrange(0, i as int) =~= self.http_players@);
        None
    }

    /// Admits the player `data` sending from `src`, when the backend lists it,
    /// it is not admitted yet and the session is not relaying; replies with
    /// `PlayerConnection`. Starts the ping loop once the roster is full.
    #[verifier::spinoff_prover]
    pub fn admit_player(&mut self, data: PlayerData, src: &Endpoint) -> (r: Vec<Action>)
        requires
            old(self).well_formed(),
        ensures
            final(self).well_formed(),
            numbered_run(
                r@,
                old(self).current_match.sequence_number,
                final(self).current_match.sequence_number,
            ),
            admitted(*old(self), *final(self), r@, data, *src),
    {
        let mut pos: usize = 0;
        while pos < self.players.len() && self.players[pos].index < data.player_index
            invariant
                pos <= self.players@.len(),
                forall|j: int| 0 <= j < pos ==> self.players@[j].index < data.player_index,
            decreases self.players@.len() - pos,
        {
            pos = pos + 1;
        }
        if pos < self.players.len() && self.players[pos].index == data.player_index {
            return Vec::new();
        }
        proof {
            assert forall|j: int| 0 <= j < self.players@.len() implies (
            #[trigger] self.players@[j]).index != data.player_index by {
                if j >= pos {
                    assert(self.players@[pos as int].index <= self.players@[j].index);
                }
            }
        }
        if self.host_socket.is_some() {
            return Vec::new();
        }
        let entry = match self.find_roster_entry(data.player_index) {
            Some(i) => i,
            None => {
                return Vec::new();
            },
        };
        let np = self.current_match.num_players;
        let mut acked_frames: Vec<u32> = Vec::new();
        let mut k: usize = 0;
        while k < np as usize
            invariant
                k <= np,
                acked_frames@ =~= Seq::new(k as nat, |i: int| 0u32),
            decreases np - k,
        {
            acked_frames.push(0);
            k = k + 1;
        }
        let player = Player {
            index: data.player_index,
            team_index: data.team_id,
            socket: *src,
            pending_pings: HashMap::new(),
            replied_pings: 0,
            ready: false,
            connected: true,
            ping: 0,
            is_host: self.http_players[entry].is_host,
            last_seq_received: 0,
            last_client_frame: 0,
            acked_frames,
            rift: 0,
            inputs: HashMap::new(),
            missed_inputs: 0,
        };
        let ghost fresh = player;
        self.players.insert(pos, player);
        assert(self.players@[pos as int] == fresh);
        assert(roster_ordered(self.players@)) by {
            assert forall|a: int, b: int|
                0 <= a < b < self.players@.len() implies self.players@[a].index
                < self.players@[b].index by {
                if b == pos {
                    assert(old(self).players@[a].index < data.player_index);
                } else if a == pos {
                    assert(old(self).players@[b - 1].index > data.player_index) by {
                        assert(old(self).players@[pos as int].index >= data.player_index);
                    }
                }
            }
        }
        let reply = ServerMessagePayload::PlayerConnection(
            PlayerConnection {
                success: 0,
                num_players: self.current_match.num_players,
                player_index: data.player_index as u8,
                match_duration: self.current_match.match_duration,
                unused_0: 0,
                unused_1: 0,
            },
        );
        proof {
            crate::compression::lemma_compress_fits(
                server_bytes(
                    UdpServerMessage {
                        header: Header {
                            type_: ServerMessageType::PlayerConnection,
                            sequence: self.current_match.sequence_number,
                        },
                        payload: reply,
                    },
                    np as nat,
                ),
            );
        }
        let mut acts: Vec<Action> = Vec::new();
        let s0 = self.current_match.sequence_number;
        match self.send_message(ServerMessageType::PlayerConnection, reply, src) {
            Some(a) => {
                proof {
                    lemma_push_send(acts@, a, s0, s0);
                }
                acts.push(a);
            },
            None => {},
        }
        let mut connected: usize = 0;
        k = 0;
        assert(self.players@.subrange(0, 0) =~= Seq::<Player>::empty());
        while k < self.players.len()
            invariant
                k <= self.players@.len(),
                connected == connected_count(self.players@.subrange(0, k as int)),
                connected <= k,
            decreases self.players@.len() - k,
        {
            assert(self.players@.subrange(0, k + 1).drop_last() =~= self.players@.subrange(
                0,
                k as int,
            ));
            if self.players[k].connected {
                connected = connected + 1;
            }
            k = k + 1;
        }
        assert(self.players@.subrange(0, k as int) =~= self.players@);
        if connected == np as usize {
            proof {
                lemma_push_other(acts@, Action::StartPingLoop, s0, self.current_match.sequence_number);
            }
            acts.push(Action::StartPingLoop);
        }
        proof {
            assert(inserted_at(old(self).players@, self.players@, pos as int, self.players@[pos as int]));
        }
        acts
    }

    /// Applies the backend's answer to a registration: the roster, the
    /// player count and the duration are taken, the identifiers recorded, and
    /// the match becomes ready. A match that is ready already is left as it is.
    pub fn try_register_match(&mut self, config: MVSIMatchConfig, match_id: String, key: String)
        requires
            old(self).well_formed(),
        ensures
            final(self).well_formed(),
            old(self).current_match.ready ==> *final(self) == *old(self),
            !old(self).current_match.ready ==> *final(self) == (P2PRollbackServer {
                current_match: GameMatch {
                    match_id,
                    match_key: key,
                    num_players: config.max_players,
                    match_duration: config.match_duration,
                    ready: true,
                    ..old(self).current_match
                },
                http_players: config.players,
                ..*old(self)
            }),
    {
        if !self.current_match.ready {
            self.http_players = config.players;
            self.current_match.num_players = config.max_players;
            self.current_match.match_id = match_id;
            self.current_match.match_key = key;
            self.current_match.ready = true;
            self.current_match.match_duration = config.match_duration;
        }
    }

    /// Host election for the local player `data`: when the roster marks it as
    /// host, the session becomes host and punches holes to every other roster
    /// member; when the roster lists it as a non-host, the session relays to
    /// the roster's host from then on. Unless relaying, the player is then
    /// admitted.
    #[verifier::spinoff_prover]
    fn elect_host_and_admit(&mut self, data: PlayerData, src: &Endpoint) -> (r: Vec<Action>)
        requires
            old(self).well_formed(),
            old(self).local_socket is Some,
        ensures
            final(self).well_formed(),
            numbered_run(
                r@,
                old(self).current_match.sequence_number,
                final(self).current_match.sequence_number,
            ),
            elected(*old(self), *final(self), r@, data, *src),
    {
        let mut acts: Vec<Action> = Vec::new();
        let ghost s0 = self.current_match.sequence_number;
        let port = self.port;
        match self.find_roster_entry(data.player_index) {
            Some(e) => {
                if self.http_players[e].is_host {
                    self.is_host = true;
                    let mut j: usize = 0;
                    assert(self.http_players@.subrange(0, 0) =~= Seq::<MVSIPlayer>::empty());
                    while j < self.http_players.len()
                        invariant
                            j <= self.http_players@.len(),
                            port == self.port,
                            acts@.len() == hole_punch_targets(
                                self.http_players@.subrange(0, j as int),
                                data.player_index,
                                port,
                            ).len(),
                            punch_targets(acts@) == hole_punch_targets(
                                self.http_players@.subrange(0, j as int),
                                data.player_index,
                                port,
                            ),
                            forall|i: int| 0 <= i < acts@.len() ==> #[trigger] acts@[i] is StartHolePunch,
                            send_sequences(acts@).len() == 0,
                            *self == (P2PRollbackServer { is_host: true, ..*old(self) }),
                        decreases self.http_players@.len() - j,
                    {
                        let ghost before = acts@;
                        assert(self.http_players@.subrange(0, j + 1).drop_last()
                            =~= self.http_players@.subrange(0, j as int));
                        let member = self.http_players[j];
                        if member.player_index != data.player_index {
                            acts.push(Action::StartHolePunch { target: Endpoint { ip: member.ip, port } });
                            assert(acts@.drop_last() =~= before);
                        } else {
                            assert(acts@ =~= before);
                        }
                        j = j + 1;
                    }
                    assert(self.http_players@.subrange(0, j as int) =~= self.http_players@);
                    assert(acts@.subrange(0, acts@.len() as int) =~= acts@);
                } else {
                    let mut j: usize = 0;
                    let ghost h0 = self.host_socket;
                    assert(self.http_players@.subrange(0, 0) =~= Seq::<MVSIPlayer>::empty());
                    while j < self.http_players.len()
                        invariant
                            j <= self.http_players@.len(),
                            port == self.port,
                            self.well_formed(),
                            self.local_socket is Some,
                            *self == (P2PRollbackServer { host_socket: self.host_socket, ..*old(self) }),
                            self.host_socket == host_or(
                                self.http_players@.subrange(0, j as int),
                                port,
                                h0,
                            ),
                        decreases self.http_players@.len() - j,
                    {
                        assert(self.http_players@.subrange(0, j + 1).drop_last()
                            =~= self.http_players@.subrange(0, j as int));
                        let member = self.http_players[j];
                        if member.is_host {
                            self.host_socket = Some(Endpoint { ip: member.ip, port });
                        }
                        j = j + 1;
                    }
                    assert(self.http_players@.subrange(0, j as int) =~= self.http_players@);
                    proof {
                        assert(send_sequences(acts@) =~= Seq::<u32>::empty());
                    }
                    return acts;
                }
            },
            None => {},
        }
        let ghost punches = acts@;
        let mut more = self.admit_player(data, src);
        let ghost more0 = more@;
        proof {
            lemma_send_sequences_concat(punches, more@);
            assert(send_sequences(punches) =~= Seq::<u32>::empty());
            lemma_punch_prefix(punches, more@);
        }
        acts.append(&mut more);
        assert(acts@ =~= punches + more0);
        assert(acts@.subrange(punches.len() as int, acts@.len() as int) =~= more0);
        acts
    }

    /// Handles a `PlayerConnection` from `src`.
    ///
    /// The first one must come from the loopback address: it records the
    /// local endpoint and asks for the match's registration, and the
    /// connection waits for `complete_registration`. Later ones are admitted
    /// by `admit_player`. Connections from elsewhere before the local one,
    /// or while a registration is under way, are dropped.
    #[verifier::spinoff_prover]
    pub fn handle_new_connection(&mut self, payload: PlayerConnectionPaylod, src: &Endpoint) -> (r:
        Vec<Action>)
        requires
            old(self).well_formed(),
        ensures
            final(self).well_formed(),
            numbered_run(
                r@,
                old(self).current_match.sequence_number,
                final(self).current_match.sequence_number,
            ),
            !old(self).is_local_player_connected && (!src.spec_is_loopback()
                || old(self).pending_connection is Some) ==> r@.len() == 0 && *final(self)
                == *old(self),
            !old(self).is_local_player_connected && src.spec_is_loopback()
                && old(self).pending_connection is None && !old(self).current_match.ready ==> {
                &&& r@.len() == 1
                &&& r@[0] matches Action::Register { match_id, key } && match_id@
                    == payload.match_data.match_id@ && key@ == payload.match_data.key@
                &&& final(self).local_socket == Some(*src)
                &&& final(self).state == ServerState::WaitingForPlayers
                &&& final(self).pending_connection matches Some(p) && p.player_data
                    == payload.player_data && p.source == *src && p.match_id@
                    == payload.match_data.match_id@ && p.key@ == payload.match_data.key@
                &&& !final(self).is_local_player_connected
                &&& final(self).players == old(self).players
            },
            !old(self).is_local_player_connected && src.spec_is_loopback()
                && old(self).pending_connection is None && old(self).current_match.ready ==> elected(
                P2PRollbackServer {
                    local_socket: Some(*src),
                    state: ServerState::WaitingForPlayers,
                    is_local_player_connected: true,
                    ..*old(self)
                },
                *final(self),
                r@,
                payload.player_data,
                *src,
            ),
            old(self).is_local_player_connected ==> admitted(
                *old(self),
                *final(self),
                r@,
                payload.player_data,
                *src,
            ),
    {
        if !self.is_local_player_connected {
            if !src.is_loopback() || self.pending_connection.is_some() {
                return Vec::new();
            }
            self.local_socket = Some(*src);
            self.state = ServerState::WaitingForPlayers;
            let data = payload.player_data;
            if !self.current_match.ready {
                let match_id = payload.match_data.match_id;
                let key = payload.match_data.key;
                let mut acts: Vec<Action> = Vec::new();
                let request = Action::Register { match_id: match_id.clone(), key: key.clone() };
                proof {
                    lemma_push_other(
                        acts@,
                        request,
                        self.current_match.sequence_number,
                        self.current_match.sequence_number,
                    );
                }
                acts.push(request);
                self.pending_connection = Some(
                    PendingConnection { player_data: data, source: *src, match_id, key },
                );
                return acts;
            }
            self.is_local_player_connected = true;
            return self.elect_host_and_admit(data, src);
        }
        self.admit_player(payload.player_data, src)
    }

    /// Continues the waiting local connection with the backend's answer to
    /// the registration (`None` when the request or its decoding failed; the
    /// match then stays unconfirmed): host election, then admission.
    #[verifier::spinoff_prover]
    pub fn complete_registration(&mut self, config: Option<MVSIMatchConfig>) -> (r: Vec<Action>)
        requires
            old(self).well_formed(),
        ensures
            final(self).well_formed(),
            numbered_run(
                r@,
                old(self).current_match.sequence_number,
                final(self).current_match.sequence_number,
            ),
            old(self).pending_connection is None ==> r@.len() == 0 && *final(self) == *old(self),
            old(self).pending_connection matches Some(p) ==> elected(
                registration_applied(*old(self), config, p),
                *final(self),
                r@,
                p.player_data,
                p.source,
            ),
    {
        match self.pending_connection.take() {
            None => Vec::new(),
            Some(pending) => {
                match config {
                    Some(c) => {
                        self.try_register_match(c, pending.match_id, pending.key);
                    },
                    None => {},
                }
                self.is_local_player_connected = true;
                if self.local_socket.is_none() {
                    self.local_socket = Some(pending.source);
                }
                self.elect_host_and_admit(pending.player_data, &pending.source)
            },
        }
    }

    /// Handles one datagram from `src`.
    ///
    /// While relaying, the datagram is forwarded unchanged: to the host when
    /// it comes from the loopback address, to the local client otherwise.
    /// Otherwise it is decompressed (up to `MAX_BUFFER_SIZE` bytes) and
    /// parsed; what fails is dropped. Hole punches are dropped, and a
    /// `PlayerConnection` goes to `handle_new_connection`. Any other message
    /// must come from a player and carry a sequence number no lower than the
    /// last one received from it; it then becomes the last one received and
    /// the message goes to its handler.
    #[verifier::spinoff_prover]
    pub fn handle_incoming_message(&mut self, buf: &[u8], src: &Endpoint, now_ms: u64) -> (r: Vec<
        Action,
    >)
        requires
            old(self).well_formed(),
        ensures
            final(self).well_formed(),
            numbered_run(
                r@,
                old(self).current_match.sequence_number,
                final(self).current_match.sequence_number,
            ),
            old(self).host_socket matches Some(h) ==> {
                &&& *final(self) == *old(self)
                &&& r@.len() == 1
                &&& src.spec_is_loopback() ==> (r@[0] matches Action::Forward { target } && target
                    == h)
                &&& !src.spec_is_loopback() ==> (r@[0] matches Action::Forward { target } && Some(
                    target,
                ) == old(self).local_socket)
            },
            old(self).host_socket is None && received_message(buf@) is None ==> r@.len() == 0
                && *final(self) == *old(self),
            old(self).host_socket is None ==> (received_message(buf@) matches Some(d) && {
                let tag = d[0];
                let seq = le32(d, 1);
                &&& tag != ClientMessageType::PlayerConnection.spec_tag()
                &&& tag != ClientMessageType::MVSI_HOLE_PUNCH.spec_tag()
                &&& forall|i: int|
                    is_sender(old(self).players@, *src, i) ==> seq
                        < old(self).players@[i].last_seq_received
            }) ==> r@.len() == 0 && *final(self) == *old(self),
            old(self).host_socket is None ==> (received_message(buf@) matches Some(d)
                && d[0] == ClientMessageType::MVSI_HOLE_PUNCH.spec_tag()) ==> r@.len() == 0
                && *final(self) == *old(self),
            received_message(buf@) matches Some(d) ==> accepted(*old(self), *src, d) ==> forall|i: int|
                #[trigger] is_sender(old(self).players@, *src, i) ==> {
                    let o = old(self).players@[i];
                    let n = final(self).players@[i];
                    &&& n.last_seq_received == le32(d, 1)
                    &&& d[0] == ClientMessageType::PlayerInputAck.spec_tag() ==> n.acked_frames@
                        == acks_merged(o.acked_frames@, words_at(d, 6, d[5] as nat))
                    &&& d[0] == ClientMessageType::PlayerInput.spec_tag() ==> {
                        &&& n.last_client_frame == le32(d, 9)
                        &&& n.inputs@ == merged_inputs(
                            o.inputs@,
                            le32(d, 5) as u32,
                            words_at(d, 15, d[13] as nat),
                        )
                    }
                    &&& d[0] == ClientMessageType::ReadyForMatch.spec_tag() ==> n.ready == (d[5]
                        != 0)
                    &&& d[0] == ClientMessageType::Pong.spec_tag() ==> {
                        let q = le32(d, 5) as u32;
                        &&& o.pending_pings@.contains_key(q) ==> {
                            &&& n.ping == elapsed_ping(o.pending_pings@[q], now_ms)
                            &&& n.pending_pings@ == o.pending_pings@.remove(q)
                            &&& n.replied_pings == if o.replied_pings < u32::MAX {
                                (o.replied_pings + 1) as u32
                            } else {
                                o.replied_pings
                            }
                        }
                        &&& !o.pending_pings@.contains_key(q) ==> n.ping == o.ping
                            && n.pending_pings == o.pending_pings
                    }
                },
            received_message(buf@) matches Some(d) ==> (old(self).host_socket is None && d[0]
                == ClientMessageType::PlayerConnection.spec_tag()
                && old(self).is_local_player_connected) ==> admitted(
                *old(self),
                *final(self),
                r@,
                PlayerData { team_id: le16(d, 7) as u16, player_index: le16(d, 9) as u16 },
                *src,
            ),
    {
        match self.host_socket {
            Some(host) => {
                let mut acts: Vec<Action> = Vec::new();
                let target = if src.is_loopback() {
                    host
                } else {
                    match self.local_socket {
                        Some(local) => local,
                        None => host,
                    }
                };
                proof {
                    lemma_push_other(
                        acts@,
                        Action::Forward { target },
                        self.current_match.sequence_number,
                        self.current_match.sequence_number,
                    );
                }
                acts.push(Action::Forward { target });
                return acts;
            },
            None => {},
        }
        let decompressed_buf = match decompress_packet(buf, None) {
            Ok(d) => d,
            Err(_) => {
                return Vec::new();
            },
        };
        let msg = match parse_client_message(decompressed_buf.as_slice()) {
            Ok(m) => m,
            Err(_) => {
                return Vec::new();
            },
        };
        let ghost d = decompressed_buf@;
        assert(received_message(buf@) == Some(d));
        let seq = msg.header.sequence;
        match msg.payload {
            ClientPayload::MVSI_HOLE_PUNCH() => {
                return Vec::new();
            },
            ClientPayload::PlayerConnectionPaylod(p) => {
                return self.handle_new_connection(p, src);
            },
            _ => {},
        }
        let i = match self.find_player(src) {
            Some(i) => i,
            None => {
                return Vec::new();
            },
        };
        assert(is_sender(old(self).players@, *src, i as int));
        if seq < self.players[i].last_seq_received {
            return Vec::new();
        }
        self.players[i].last_seq_received = seq;
        assert(forall|j: int|
            is_sender(old(self).players@, *src, j) <==> is_sender(self.players@, *src, j));
        match msg.payload {
            ClientPayload::PongPayload(p) => {
                self.handle_player_pong_response(p, src, now_ms);
                Vec::new()
            },
            ClientPayload::ReadyForMatchPayload(p) => self.handle_player_ready(p, src),
            ClientPayload::PlayerInputPayload(p) => {
                self.handle_player_input(p, src);
                Vec::new()
            },
            ClientPayload::PlayerInputAckPayload(p) => {
                self.handle_player_input_ack(p, src, now_ms);
                Vec::new()
            },
            _ => Vec::new(),
        }
    }
}

} // verus!
