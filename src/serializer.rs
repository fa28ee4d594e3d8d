//! Wire codec: parsing of client messages and serialisation of server messages.
//!
//! A message is a five-byte header (type tag, little-endian sequence number)
//! followed by a body whose layout depends on the type. Integers in bodies are
//! little-endian, except for the two fields of `RequestPing`.
use crate::client_messages::{
    ClientHeader, ClientMessageType, ClientPayload, DisconnectingPayload, GameMatchData,
    MatchResultPayload, PlayerConnectionPaylod, PlayerData, PlayerDisconnectedAckPayload,
    PlayerInputAckPayload, PlayerInputPayload, PongPayload, ReadyForMatchPayload, UdpClientMessage,
    same_message, CLIENT_HEADER_SIZE, ENVIRONMENT_ID_WIDTH, KEY_WIDTH, MATCH_ID_WIDTH,
};
use crate::wire::{
    be16_bytes, i16_bits, le16, le16_bytes, le32, le32_bytes, lemma_le16, lemma_le32, lemma_until_nul,
    lemma_until_nul_padded, lemma_words_bytes_len, lemma_words_read, push_i16_le, push_u16_be, push_u16_le, push_u32_le,
    push_u8, push_words, push_zeros, read_u16_le, read_u32_le, read_words, until_nul,
    words_at, words_bytes, zeros,
};
use crate::server_messages::{ServerMessagePayload, UdpServerMessage};
use vstd::prelude::*;
use vstd::utf8::{decode_utf8, encode_utf8, valid_utf8};

verus! {

broadcast use {vstd::utf8::encode_utf8_valid_utf8, vstd::utf8::encode_utf8_decode_utf8};

/// Why a client message could not be parsed.
#[derive(Debug, Clone, Copy, PartialEq, Eq)]
pub enum ParseError {
    /// Fewer bytes than the header needs.
    ShortHeader,
    /// The tag byte names no client message type.
    UnknownType,
    /// A field runs past the end of the buffer.
    Truncated,
}

/// The text that `String::from_utf8_lossy` makes of bytes that are not valid
/// UTF-8 (each invalid sequence becomes U+FFFD).
pub uninterp spec fn lossy_text(b: Seq<u8>) -> Seq<char>;

/// Text of a byte string: decoded as UTF-8 where it is valid.
pub open spec fn utf8_text(b: Seq<u8>) -> Seq<char> {
    if valid_utf8(b) {
        decode_utf8(b)
    } else {
        lossy_text(b)
    }
}

/// Relies on `String::from_utf8_lossy`: valid UTF-8 is decoded as it stands,
/// and what it makes of other bytes depends on the bytes alone.
#[verifier::external_body]
fn text_from_utf8(b: &[u8]) -> (r: String)
    ensures
        r@ == (if valid_utf8(b@) {
            decode_utf8(b@)
        } else {
            lossy_text(b@)
        }),
{
    String::from_utf8_lossy(b).into_owned()
}

/// The text of the zero-terminated field of `width` bytes at `p`.
pub open spec fn text_at(b: Seq<u8>, p: int, width: nat) -> Seq<char> {
    utf8_text(until_nul(b.subrange(p, p + width)))
}

/// Number of bytes a client message needs, judged from its tag and its count bytes.
pub open spec fn client_needed_len(b: Seq<u8>) -> nat {
    match ClientMessageType::spec_from_tag(b[0]) {
        Some(ClientMessageType::PlayerConnection) => 106,
        Some(ClientMessageType::PlayerInput) => if b.len() < 15 {
            15
        } else {
            15 + 4 * (b[13] as nat) + 4 * (b[14] as nat)
        },
        Some(ClientMessageType::PlayerInputAck) => if b.len() < 6 {
            6
        } else {
            10 + 4 * (b[5] as nat)
        },
        Some(ClientMessageType::MatchResult) => 11,
        Some(ClientMessageType::Pong) => 9,
        Some(ClientMessageType::MVSI_HOLE_PUNCH) => 5,
        _ => 6,
    }
}

/// Why `parse_client_message` rejects `b`, or `None` when it accepts it.
pub open spec fn client_parse_error(b: Seq<u8>) -> Option<ParseError> {
    if b.len() < CLIENT_HEADER_SIZE {
        Some(ParseError::ShortHeader)
    } else if ClientMessageType::spec_from_tag(b[0]) is None {
        Some(ParseError::UnknownType)
    } else if b.len() < client_needed_len(b) {
        Some(ParseError::Truncated)
    } else {
        None
    }
}

/// `m` holds what the bytes `b` say, field by field.
pub open spec fn decodes_to(b: Seq<u8>, m: UdpClientMessage) -> bool {
    &&& ClientMessageType::spec_from_tag(b[0]) == Some(m.header.type_)
    &&& m.header.sequence == le32(b, 1)
    &&& m.payload.message_type() == m.header.type_
    &&& match m.payload {
        ClientPayload::PlayerConnectionPaylod(p) => {
            &&& p.message_version == le16(b, 5)
            &&& p.player_data.team_id == le16(b, 7)
            &&& p.player_data.player_index == le16(b, 9)
            &&& p.match_data.match_id@ == text_at(b, 11, MATCH_ID_WIDTH as nat)
            &&& p.match_data.key@ == text_at(b, 36, KEY_WIDTH as nat)
            &&& p.match_data.environment_id@ == text_at(b, 81, ENVIRONMENT_ID_WIDTH as nat)
        },
        ClientPayload::PlayerInputPayload(p) => {
            &&& p.start_frame == le32(b, 5)
            &&& p.client_frame == le32(b, 9)
            &&& p.num_frames == b[13]
            &&& p.num_checksums == b[14]
            &&& p.input_per_frame@ == words_at(b, 15, b[13] as nat)
            &&& p.checksum_per_frame@ == words_at(b, 15 + 4 * b[13], b[14] as nat)
        },
        ClientPayload::PlayerInputAckPayload(p) => {
            &&& p.num_players == b[5]
            &&& p.ack_frame@ == words_at(b, 6, b[5] as nat)
            &&& p.server_message_sequence_number == le32(b, 6 + 4 * b[5])
        },
        ClientPayload::MatchResultPayload(p) => {
            &&& p.num_players == b[5]
            &&& p.last_frame_checksum == le32(b, 6)
            &&& p.winning_team_index == b[10]
        },
        ClientPayload::PongPayload(p) => p.server_message_sequence_number == le32(b, 5),
        ClientPayload::DisconnectingPayload(p) => p.reason == b[5],
        ClientPayload::PlayerDisconnectedAckPayload(p) => p.player_disconnected_array_index
            == b[5],
        ClientPayload::ReadyForMatchPayload(p) => p.ready == b[5],
        ClientPayload::MVSI_HOLE_PUNCH() => true,
    }
}

/// Reads the zero-terminated text field of `width` bytes at `p`.
fn read_text(buf: &[u8], p: usize, width: usize) -> (r: String)
    requires
        p + width <= buf@.len(),
    ensures
        r@ == text_at(buf@, p as int, width as nat),
{
    let ghost field = buf@.subrange(p as int, p + width);
    let len = buf.len();
    let end = p + width;
    let mut z: usize = p;
    while z < end && buf[z] != 0
        invariant
            p <= z <= end,
            end == p + width,
            end <= buf@.len(),
            forall|i: int| p <= i < z ==> buf@[i] != 0,
        decreases end - z,
    {
        z = z + 1;
    }
    proof {
        lemma_until_nul(field, z - p);
    }
    let bytes = vstd::slice::slice_subrange(buf, p, z);
    assert(bytes@ =~= field.subrange(0, z - p));
    text_from_utf8(bytes)
}

/// Parses one decompressed client datagram.
///
/// Fails with `ShortHeader` below five bytes, with `UnknownType` when the tag
/// is not one of {1..8, 13}, and with `Truncated` when a field, or one of the
/// words that a count byte announces, runs past the end. Bytes after the
/// message are ignored.
#[verifier::spinoff_prover]
pub fn parse_client_message(buf: &[u8]) -> (r: Result<UdpClientMessage, ParseError>)
    ensures
        match r {
            Ok(m) => client_parse_error(buf@) is None && decodes_to(buf@, m),
            Err(e) => client_parse_error(buf@) == Some(e),
        },
{
    let len = buf.len();
    if len < CLIENT_HEADER_SIZE {
        return Err(ParseError::ShortHeader);
    }
    let msg_type = match ClientMessageType::from_tag(buf[0]) {
        Some(t) => t,
        None => {
            return Err(ParseError::UnknownType);
        },
    };
    let sequence = read_u32_le(buf, 1);
    let header = ClientHeader { type_: msg_type, sequence };
    let payload = match msg_type {
        ClientMessageType::PlayerConnection => {
            if len < 106 {
                return Err(ParseError::Truncated);
            }
            let message_version = read_u16_le(buf, 5);
            let team_id = read_u16_le(buf, 7);
            let player_index = read_u16_le(buf, 9);
            let match_id = read_text(buf, 11, MATCH_ID_WIDTH);
            let key = read_text(buf, 36, KEY_WIDTH);
            let environment_id = read_text(buf, 81, ENVIRONMENT_ID_WIDTH);
            ClientPayload::PlayerConnectionPaylod(
                PlayerConnectionPaylod {
                    message_version,
                    player_data: PlayerData { team_id, player_index },
                    match_data: GameMatchData { match_id, key, environment_id },
                },
            )
        },
        ClientMessageType::PlayerInput => {
            if len < 15 {
                return Err(ParseError::Truncated);
            }
            let start_frame = read_u32_le(buf, 5);
            let client_frame = read_u32_le(buf, 9);
            let num_frames = buf[13];
            let num_checksums = buf[14];
            if len < 15 + 4 * (num_frames as usize) + 4 * (num_checksums as usize) {
                return Err(ParseError::Truncated);
            }
            let input_per_frame = read_words(buf, 15, num_frames as usize);
            let checksum_per_frame = read_words(
                buf,
                15 + 4 * (num_frames as usize),
                num_checksums as usize,
            );
            ClientPayload::PlayerInputPayload(
                PlayerInputPayload {
                    start_frame,
                    client_frame,
                    num_frames,
                    num_checksums,
                    input_per_frame,
                    checksum_per_frame,
                },
            )
        },
        ClientMessageType::PlayerInputAck => {
            if len < 6 {
                return Err(ParseError::Truncated);
            }
            let num_players = buf[5];
            if len < 10 + 4 * (num_players as usize) {
                return Err(ParseError::Truncated);
            }
            let ack_frame = read_words(buf, 6, num_players as usize);
            let server_message_sequence_number = read_u32_le(buf, 6 + 4 * (num_players as usize));
            ClientPayload::PlayerInputAckPayload(
                PlayerInputAckPayload { num_players, ack_frame, server_message_sequence_number },
            )
        },
        ClientMessageType::MatchResult => {
            if len < 11 {
                return Err(ParseError::Truncated);
            }
            ClientPayload::MatchResultPayload(
                MatchResultPayload {
                    num_players: buf[5],
                    last_frame_checksum: read_u32_le(buf, 6),
                    winning_team_index: buf[10],
                },
            )
        },
        ClientMessageType::Pong => {
            if len < 9 {
                return Err(ParseError::Truncated);
            }
            ClientPayload::PongPayload(
                PongPayload { server_message_sequence_number: read_u32_le(buf, 5) },
            )
        },
        ClientMessageType::Disconnecting => {
            if len < 6 {
                return Err(ParseError::Truncated);
            }
            ClientPayload::DisconnectingPayload(DisconnectingPayload { reason: buf[5] })
        },
        ClientMessageType::PlayerDisconnectedAck => {
            if len < 6 {
                return Err(ParseError::Truncated);
            }
            ClientPayload::PlayerDisconnectedAckPayload(
                PlayerDisconnectedAckPayload { player_disconnected_array_index: buf[5] },
            )
        },
        ClientMessageType::ReadyForMatch => {
            if len < 6 {
                return Err(ParseError::Truncated);
            }
            ClientPayload::ReadyForMatchPayload(ReadyForMatchPayload { ready: buf[5] })
        },
        ClientMessageType::MVSI_HOLE_PUNCH => ClientPayload::MVSI_HOLE_PUNCH(),
    };
    Ok(UdpClientMessage { header, payload })
}

/// The fixed-width field for text `s`: its UTF-8 bytes, then zeros up to `width`.
pub open spec fn text_bytes(s: Seq<char>, width: nat) -> Seq<u8> {
    encode_utf8(s) + zeros((width - encode_utf8(s).len()) as nat)
}

/// `s` fits a zero-terminated field of `width` bytes: it is short enough and
/// holds no zero byte.
pub open spec fn fits_text(s: Seq<char>, width: nat) -> bool {
    encode_utf8(s).len() <= width && !encode_utf8(s).contains(0u8)
}

/// A client message that has a wire form: its header names its payload's type,
/// its count fields give the lengths of its lists, and its texts fit their fields.
pub open spec fn client_well_formed(m: UdpClientMessage) -> bool {
    &&& m.payload.message_type() == m.header.type_
    &&& match m.payload {
        ClientPayload::PlayerConnectionPaylod(p) => {
            &&& fits_text(p.match_data.match_id@, MATCH_ID_WIDTH as nat)
            &&& fits_text(p.match_data.key@, KEY_WIDTH as nat)
            &&& fits_text(p.match_data.environment_id@, ENVIRONMENT_ID_WIDTH as nat)
        },
        ClientPayload::PlayerInputPayload(p) => {
            &&& p.num_frames == p.input_per_frame@.len()
            &&& p.num_checksums == p.checksum_per_frame@.len()
        },
        ClientPayload::PlayerInputAckPayload(p) => p.num_players == p.ack_frame@.len(),
        _ => true,
    }
}

/// The body bytes of a client payload.
pub open spec fn client_body_bytes(p: ClientPayload) -> Seq<u8> {
    match p {
        ClientPayload::PlayerConnectionPaylod(p) => le16_bytes(p.message_version) + le16_bytes(
            p.player_data.team_id,
        ) + le16_bytes(p.player_data.player_index) + text_bytes(
            p.match_data.match_id@,
            MATCH_ID_WIDTH as nat,
        ) + text_bytes(p.match_data.key@, KEY_WIDTH as nat) + text_bytes(
            p.match_data.environment_id@,
            ENVIRONMENT_ID_WIDTH as nat,
        ),
        ClientPayload::PlayerInputPayload(p) => le32_bytes(p.start_frame) + le32_bytes(
            p.client_frame,
        ) + seq![p.num_frames] + seq![p.num_checksums] + words_bytes(p.input_per_frame@)
            + words_bytes(p.checksum_per_frame@),
        ClientPayload::PlayerInputAckPayload(p) => seq![p.num_players] + words_bytes(p.ack_frame@)
            + le32_bytes(p.server_message_sequence_number),
        ClientPayload::MatchResultPayload(p) => seq![p.num_players] + le32_bytes(
            p.last_frame_checksum,
        ) + seq![p.winning_team_index],
        ClientPayload::PongPayload(p) => le32_bytes(p.server_message_sequence_number),
        ClientPayload::DisconnectingPayload(p) => seq![p.reason],
        ClientPayload::PlayerDisconnectedAckPayload(p) => seq![p.player_disconnected_array_index],
        ClientPayload::ReadyForMatchPayload(p) => seq![p.ready],
        ClientPayload::MVSI_HOLE_PUNCH() => Seq::empty(),
    }
}

/// The wire form of a client message.
pub open spec fn client_bytes(m: UdpClientMessage) -> Seq<u8> {
    seq![m.header.type_.spec_tag()] + le32_bytes(m.header.sequence) + client_body_bytes(m.payload)
}

/// Appends the fixed-width field for `s`.
fn push_text(out: &mut Vec<u8>, s: &String, width: usize)
    requires
        fits_text(s@, width as nat),
    ensures
        final(out)@ == old(out)@ + text_bytes(s@, width as nat),
{
    let bytes = s.as_str().as_bytes();
    assert(bytes@ == encode_utf8(s@));
    let mut k: usize = 0;
    while k < bytes.len()
        invariant
            k <= bytes@.len(),
            bytes@ == encode_utf8(s@),
            out@ =~= old(out)@ + bytes@.subrange(0, k as int),
        decreases bytes@.len() - k,
    {
        out.push(bytes[k]);
        k = k + 1;
    }
    assert(bytes@.subrange(0, k as int) =~= bytes@);
    push_zeros(out, width - bytes.len());
    assert(final(out)@ =~= old(out)@ + text_bytes(s@, width as nat));
}

/// Writes a client message in its wire form, as a game client sends it.
pub fn serialize_client_message(message: &UdpClientMessage) -> (r: Vec<u8>)
    requires
        client_well_formed(*message),
    ensures
        r@ == client_bytes(*message),
{
    let mut buffer: Vec<u8> = Vec::new();
    push_u8(&mut buffer, message.header.type_.tag());
    push_u32_le(&mut buffer, message.header.sequence);
    let ghost head = buffer@;
    match &message.payload {
        ClientPayload::PlayerConnectionPaylod(p) => {
            push_u16_le(&mut buffer, p.message_version);
            push_u16_le(&mut buffer, p.player_data.team_id);
            push_u16_le(&mut buffer, p.player_data.player_index);
            push_text(&mut buffer, &p.match_data.match_id, MATCH_ID_WIDTH);
            push_text(&mut buffer, &p.match_data.key, KEY_WIDTH);
            push_text(&mut buffer, &p.match_data.environment_id, ENVIRONMENT_ID_WIDTH);
        },
        ClientPayload::PlayerInputPayload(p) => {
            push_u32_le(&mut buffer, p.start_frame);
            push_u32_le(&mut buffer, p.client_frame);
            push_u8(&mut buffer, p.num_frames);
            push_u8(&mut buffer, p.num_checksums);
            push_words(&mut buffer, &p.input_per_frame);
            push_words(&mut buffer, &p.checksum_per_frame);
        },
        ClientPayload::PlayerInputAckPayload(p) => {
            push_u8(&mut buffer, p.num_players);
            push_words(&mut buffer, &p.ack_frame);
            push_u32_le(&mut buffer, p.server_message_sequence_number);
        },
        ClientPayload::MatchResultPayload(p) => {
            push_u8(&mut buffer, p.num_players);
            push_u32_le(&mut buffer, p.last_frame_checksum);
            push_u8(&mut buffer, p.winning_team_index);
        },
        ClientPayload::PongPayload(p) => {
            push_u32_le(&mut buffer, p.server_message_sequence_number);
        },
        ClientPayload::DisconnectingPayload(p) => {
            push_u8(&mut buffer, p.reason);
        },
        ClientPayload::PlayerDisconnectedAckPayload(p) => {
            push_u8(&mut buffer, p.player_disconnected_array_index);
        },
        ClientPayload::ReadyForMatchPayload(p) => {
            push_u8(&mut buffer, p.ready);
        },
        ClientPayload::MVSI_HOLE_PUNCH() => {},
    }
    assert(buffer@ =~= client_bytes(*message));
    buffer
}

proof fn lemma_tag_round_trip(t: ClientMessageType)
    ensures
        ClientMessageType::spec_from_tag(t.spec_tag()) == Some(t),
{
}

proof fn lemma_text_round_trip(pre: Seq<u8>, s: Seq<char>, width: nat, post: Seq<u8>)
    requires
        fits_text(s, width),
    ensures
        text_at(pre + text_bytes(s, width) + post, pre.len() as int, width) == s,
{
    let b = pre + text_bytes(s, width) + post;
    assert(b.subrange(pre.len() as int, pre.len() + width as int) =~= text_bytes(s, width));
    lemma_until_nul_padded(encode_utf8(s), (width - encode_utf8(s).len()) as nat);
}

#[verifier::spinoff_prover]
#[verifier::rlimit(60)]
proof fn lemma_round_trip_player_connection_paylod(m: UdpClientMessage, parsed: UdpClientMessage)
    requires
        client_well_formed(m),
        decodes_to(client_bytes(m), parsed),
        m.payload is PlayerConnectionPaylod,
    ensures
        client_parse_error(client_bytes(m)) is None,
        same_message(parsed, m),
{
    let b = client_bytes(m);
    let h = seq![m.header.type_.spec_tag()] + le32_bytes(m.header.sequence);
    let body = client_body_bytes(m.payload);
    lemma_tag_round_trip(m.header.type_);
    lemma_le32(seq![m.header.type_.spec_tag()], m.header.sequence, body);
    let p = m.payload->PlayerConnectionPaylod_0;
    let v = le16_bytes(p.message_version);
    let t = le16_bytes(p.player_data.team_id);
    let i = le16_bytes(p.player_data.player_index);
    let t1 = text_bytes(p.match_data.match_id@, MATCH_ID_WIDTH as nat);
    let t2 = text_bytes(p.match_data.key@, KEY_WIDTH as nat);
    let t3 = text_bytes(p.match_data.environment_id@, ENVIRONMENT_ID_WIDTH as nat);
    assert(b =~= h + v + (t + i + t1 + t2 + t3));
    lemma_le16(h, p.message_version, t + i + t1 + t2 + t3);
    assert(b =~= (h + v) + t + (i + t1 + t2 + t3));
    lemma_le16(h + v, p.player_data.team_id, i + t1 + t2 + t3);
    assert(b =~= (h + v + t) + i + (t1 + t2 + t3));
    lemma_le16(h + v + t, p.player_data.player_index, t1 + t2 + t3);
    assert(b =~= (h + v + t + i) + t1 + (t2 + t3));
    lemma_text_round_trip(h + v + t + i, p.match_data.match_id@, MATCH_ID_WIDTH as nat, t2 + t3);
    assert(b =~= (h + v + t + i + t1) + t2 + t3);
    lemma_text_round_trip(h + v + t + i + t1, p.match_data.key@, KEY_WIDTH as nat, t3);
    assert(b =~= (h + v + t + i + t1 + t2) + t3 + Seq::<u8>::empty());
    lemma_text_round_trip(
        h + v + t + i + t1 + t2,
        p.match_data.environment_id@,
        ENVIRONMENT_ID_WIDTH as nat,
        Seq::empty(),
    );
}

#[verifier::spinoff_prover]
proof fn lemma_round_trip_player_input_payload(m: UdpClientMessage, parsed: UdpClientMessage)
    requires
        client_well_formed(m),
        decodes_to(client_bytes(m), parsed),
        m.payload is PlayerInputPayload,
    ensures
        client_parse_error(client_bytes(m)) is None,
        same_message(parsed, m),
{
    let b = client_bytes(m);
    let h = seq![m.header.type_.spec_tag()] + le32_bytes(m.header.sequence);
    let body = client_body_bytes(m.payload);
    lemma_tag_round_trip(m.header.type_);
    lemma_le32(seq![m.header.type_.spec_tag()], m.header.sequence, body);
    lemma_input_body(h, m.payload->PlayerInputPayload_0);
}

/// What a reader finds in the wire form of a `PlayerInput` body after a header `h`.
#[verifier::spinoff_prover]
#[verifier::rlimit(100)]
proof fn lemma_input_body(h: Seq<u8>, p: PlayerInputPayload)
    requires
        h.len() == 5,
        p.num_frames == p.input_per_frame@.len(),
        p.num_checksums == p.checksum_per_frame@.len(),
    ensures
        ({
            let b = h + client_body_bytes(ClientPayload::PlayerInputPayload(p));
            &&& b.len() == 15 + 4 * (p.num_frames as nat) + 4 * (p.num_checksums as nat)
            &&& le32(b, 5) == p.start_frame
            &&& le32(b, 9) == p.client_frame
            &&& b[13] == p.num_frames
            &&& b[14] == p.num_checksums
            &&& words_at(b, 15, p.num_frames as nat) == p.input_per_frame@
            &&& words_at(b, 15 + 4 * p.num_frames, p.num_checksums as nat) == p.checksum_per_frame@
        }),
{
    let sf = le32_bytes(p.start_frame);
    let cf = le32_bytes(p.client_frame);
    let w1 = words_bytes(p.input_per_frame@);
    let w2 = words_bytes(p.checksum_per_frame@);
    let counts = seq![p.num_frames] + seq![p.num_checksums];
    let b = h + client_body_bytes(ClientPayload::PlayerInputPayload(p));
    lemma_words_bytes_len(p.input_per_frame@);
    lemma_words_bytes_len(p.checksum_per_frame@);
    lemma_input_layout(h, sf, cf, counts, w1, w2);
    assert(b == h + (sf + cf + counts + w1 + w2));
    lemma_le32(h, p.start_frame, cf + counts + w1 + w2);
    lemma_le32(h + sf, p.client_frame, counts + w1 + w2);
    lemma_words_read(h + sf + cf + counts, p.input_per_frame@, w2);
    lemma_words_read(h + sf + cf + counts + w1, p.checksum_per_frame@, Seq::empty());
}

proof fn lemma_input_layout(
    h: Seq<u8>,
    sf: Seq<u8>,
    cf: Seq<u8>,
    c: Seq<u8>,
    w1: Seq<u8>,
    w2: Seq<u8>,
)
    requires
        h.len() == 5,
        sf.len() == 4,
        cf.len() == 4,
        c.len() == 2,
    ensures
        ({
            let b = h + (sf + cf + c + w1 + w2);
            &&& b == h + sf + (cf + c + w1 + w2)
            &&& b == (h + sf) + cf + (c + w1 + w2)
            &&& b == (h + sf + cf + c) + w1 + w2
            &&& b == (h + sf + cf + c + w1) + w2 + Seq::<u8>::empty()
            &&& b[13] == c[0]
            &&& b[14] == c[1]
        }),
{
    let b = h + (sf + cf + c + w1 + w2);
    assert(b =~= h + sf + (cf + c + w1 + w2));
    assert(b =~= (h + sf) + cf + (c + w1 + w2));
    assert(b =~= (h + sf + cf + c) + w1 + w2);
    assert(b =~= (h + sf + cf + c + w1) + w2 + Seq::<u8>::empty());
}

#[verifier::spinoff_prover]
proof fn lemma_round_trip_player_input_ack_payload(m: UdpClientMessage, parsed: UdpClientMessage)
    requires
        client_well_formed(m),
        decodes_to(client_bytes(m), parsed),
        m.payload is PlayerInputAckPayload,
    ensures
        client_parse_error(client_bytes(m)) is None,
        same_message(parsed, m),
{
    let b = client_bytes(m);
    let h = seq![m.header.type_.spec_tag()] + le32_bytes(m.header.sequence);
    let body = client_body_bytes(m.payload);
    lemma_tag_round_trip(m.header.type_);
    lemma_le32(seq![m.header.type_.spec_tag()], m.header.sequence, body);
    let p = m.payload->PlayerInputAckPayload_0;
    let n = seq![p.num_players];
    let w = words_bytes(p.ack_frame@);
    let sn = le32_bytes(p.server_message_sequence_number);
    lemma_words_bytes_len(p.ack_frame@);
    assert(b =~= (h + n) + w + sn);
    lemma_words_read(h + n, p.ack_frame@, sn);
    assert(b =~= (h + n + w) + sn + Seq::<u8>::empty());
    lemma_le32(h + n + w, p.server_message_sequence_number, Seq::empty());
    assert(b[5] == p.num_players);
}

#[verifier::spinoff_prover]
proof fn lemma_round_trip_match_result_payload(m: UdpClientMessage, parsed: UdpClientMessage)
    requires
        client_well_formed(m),
        decodes_to(client_bytes(m), parsed),
        m.payload is MatchResultPayload,
    ensures
        client_parse_error(client_bytes(m)) is None,
        same_message(parsed, m),
{
    let b = client_bytes(m);
    let h = seq![m.header.type_.spec_tag()] + le32_bytes(m.header.sequence);
    let body = client_body_bytes(m.payload);
    lemma_tag_round_trip(m.header.type_);
    lemma_le32(seq![m.header.type_.spec_tag()], m.header.sequence, body);
    let p = m.payload->MatchResultPayload_0;
    assert(b =~= (h + seq![p.num_players]) + le32_bytes(p.last_frame_checksum) + seq![
        p.winning_team_index,
    ]);
    lemma_le32(h + seq![p.num_players], p.last_frame_checksum, seq![p.winning_team_index]);
    assert(b[5] == p.num_players);
    assert(b[10] == p.winning_team_index);
}

#[verifier::spinoff_prover]
proof fn lemma_round_trip_pong_payload(m: UdpClientMessage, parsed: UdpClientMessage)
    requires
        client_well_formed(m),
        decodes_to(client_bytes(m), parsed),
        m.payload is PongPayload,
    ensures
        client_parse_error(client_bytes(m)) is None,
        same_message(parsed, m),
{
    let b = client_bytes(m);
    let h = seq![m.header.type_.spec_tag()] + le32_bytes(m.header.sequence);
    let body = client_body_bytes(m.payload);
    lemma_tag_round_trip(m.header.type_);
    lemma_le32(seq![m.header.type_.spec_tag()], m.header.sequence, body);
    let p = m.payload->PongPayload_0;
    assert(b =~= h + le32_bytes(p.server_message_sequence_number) + Seq::<u8>::empty());
    lemma_le32(h, p.server_message_sequence_number, Seq::empty());
}

/// Round trip: parsing the wire form of a well-formed client message gives
/// back the same message.
pub proof fn lemma_client_round_trip(m: UdpClientMessage, parsed: UdpClientMessage)
    requires
        client_well_formed(m),
        decodes_to(client_bytes(m), parsed),
    ensures
        client_parse_error(client_bytes(m)) is None,
        same_message(parsed, m),
{
    let b = client_bytes(m);
    lemma_tag_round_trip(m.header.type_);
    lemma_le32(
        seq![m.header.type_.spec_tag()],
        m.header.sequence,
        client_body_bytes(m.payload),
    );
    match m.payload {
        ClientPayload::PlayerConnectionPaylod(_) => lemma_round_trip_player_connection_paylod(m, parsed),
        ClientPayload::PlayerInputPayload(_) => lemma_round_trip_player_input_payload(m, parsed),
        ClientPayload::PlayerInputAckPayload(_) => lemma_round_trip_player_input_ack_payload(m, parsed),
        ClientPayload::MatchResultPayload(_) => lemma_round_trip_match_result_payload(m, parsed),
        ClientPayload::PongPayload(_) => lemma_round_trip_pong_payload(m, parsed),
        ClientPayload::DisconnectingPayload(p) => {
            assert(b[5] == p.reason);
        },
        ClientPayload::PlayerDisconnectedAckPayload(p) => {
            assert(b[5] == p.player_disconnected_array_index);
        },
        ClientPayload::ReadyForMatchPayload(p) => {
            assert(b[5] == p.ready);
        },
        ClientPayload::MVSI_HOLE_PUNCH() => {},
    }
}

/// The first `n` entries of `s`, with zeros where `s` has none.
pub open spec fn padded_u32(s: Seq<u32>, n: nat) -> Seq<u32> {
    Seq::new(n, |i: int| if i < s.len() { s[i] } else { 0u32 })
}

/// The first `n` entries of `s`, with zeros where `s` has none.
pub open spec fn padded_u8(s: Seq<u8>, n: nat) -> Seq<u8> {
    Seq::new(n, |i: int| if i < s.len() { s[i] } else { 0u8 })
}

/// The input table as plain sequences.
pub open spec fn rows_of(v: Seq<Vec<u32>>) -> Seq<Seq<u32>> {
    v.map_values(|r: Vec<u32>| r@)
}

/// The frame count announced for player `pi`.
pub open spec fn count_at(counts: Seq<u8>, pi: int) -> nat {
    if 0 <= pi < counts.len() {
        counts[pi] as nat
    } else {
        0
    }
}

/// The inputs written for player `pi`: as many as its count announces, zero
/// where the table has none.
pub open spec fn frame_row(rows: Seq<Seq<u32>>, counts: Seq<u8>, pi: int) -> Seq<u32> {
    Seq::new(
        count_at(counts, pi),
        |f: int|
            if 0 <= pi < rows.len() && f < rows[pi].len() {
                rows[pi][f]
            } else {
                0u32
            },
    )
}

/// The ragged input table for players `0..n`.
pub open spec fn ragged_bytes(rows: Seq<Seq<u32>>, counts: Seq<u8>, n: nat) -> Seq<u8>
    decreases n,
{
    if n == 0 {
        Seq::empty()
    } else {
        ragged_bytes(rows, counts, (n - 1) as nat) + words_bytes(frame_row(rows, counts, n - 1))
    }
}

/// The player configuration word of slot `i`, from the table {0, 257, 512, 769}.
pub open spec fn player_config_value(i: nat) -> u16 {
    let k = i % 4;
    if k == 0 {
        0
    } else if k == 1 {
        257
    } else if k == 2 {
        512
    } else {
        769
    }
}

/// The player configuration words of slots `0..n`.
pub open spec fn config_bytes(n: nat) -> Seq<u8>
    decreases n,
{
    if n == 0 {
        Seq::empty()
    } else {
        config_bytes((n - 1) as nat) + le16_bytes(player_config_value((n - 1) as nat))
    }
}

pub proof fn lemma_config_bytes_len(n: nat)
    ensures
        config_bytes(n).len() == 2 * n,
    decreases n,
{
    if n > 0 {
        lemma_config_bytes_len((n - 1) as nat);
    }
}

/// The body bytes of a server payload, with per-player arrays sized `max_players`.
pub open spec fn server_body_bytes(p: ServerMessagePayload, max_players: nat) -> Seq<u8> {
    match p {
        ServerMessagePayload::PlayerConnection(d) => seq![d.success, d.num_players, d.player_index]
            + le32_bytes(d.match_duration) + seq![d.unused_0, d.unused_1],
        ServerMessagePayload::PlayerInputs(d) => seq![d.num_players] + words_bytes(
            padded_u32(d.start_frame@, max_players),
        ) + padded_u8(d.num_frames@, max_players) + le16_bytes(d.num_predicted_overrides)
            + le16_bytes(d.unused_0) + le16_bytes(d.ping) + le16_bytes(
            i16_bits(d.packets_loss_percent),
        ) + le16_bytes(i16_bits(d.rift)) + le32_bytes(d.unused_1) + ragged_bytes(
            rows_of(d.input_per_frame@),
            d.num_frames@,
            max_players,
        ),
        ServerMessagePayload::RequestPing(d) => be16_bytes(d.ping) + be16_bytes(
            d.packets_loss_percent,
        ),
        ServerMessagePayload::Kick(d) => le16_bytes(d.reason) + le32_bytes(d.param1),
        ServerMessagePayload::PlayerGetReady(d) => seq![d.num_players] + config_bytes(max_players),
        ServerMessagePayload::PlayerDisconnected(d) => seq![
            d.player_index,
            d.should_ai_take_control,
        ] + le32_bytes(d.ai_take_control_frame) + le16_bytes(d.player_disconnected_array_index),
        ServerMessagePayload::StartGame(_) => Seq::empty(),
        ServerMessagePayload::Empty() => Seq::empty(),
    }
}

/// The wire form of a server message.
pub open spec fn server_bytes(m: UdpServerMessage, max_players: nat) -> Seq<u8> {
    seq![m.header.type_.spec_tag()] + le32_bytes(m.header.sequence) + server_body_bytes(
        m.payload,
        max_players,
    )
}

fn push_padded_u32(out: &mut Vec<u8>, s: &Vec<u32>, n: usize)
    ensures
        final(out)@ == old(out)@ + words_bytes(padded_u32(s@, n as nat)),
{
    let mut i: usize = 0;
    assert(padded_u32(s@, 0) =~= Seq::<u32>::empty());
    assert(out@ =~= old(out)@ + words_bytes(padded_u32(s@, 0)));
    while i < n
        invariant
            i <= n,
            out@ == old(out)@ + words_bytes(padded_u32(s@, i as nat)),
        decreases n - i,
    {
        let v: u32 = if i < s.len() {
            s[i]
        } else {
            0
        };
        push_u32_le(out, v);
        assert(padded_u32(s@, (i + 1) as nat).drop_last() =~= padded_u32(s@, i as nat));
        i = i + 1;
        assert(out@ =~= old(out)@ + words_bytes(padded_u32(s@, i as nat)));
    }
}

fn push_padded_u8(out: &mut Vec<u8>, s: &Vec<u8>, n: usize)
    ensures
        final(out)@ == old(out)@ + padded_u8(s@, n as nat),
{
    let mut i: usize = 0;
    while i < n
        invariant
            i <= n,
            out@ =~= old(out)@ + padded_u8(s@, i as nat),
        decreases n - i,
    {
        let v: u8 = if i < s.len() {
            s[i]
        } else {
            0
        };
        out.push(v);
        i = i + 1;
    }
}

fn push_ragged(out: &mut Vec<u8>, rows: &Vec<Vec<u32>>, counts: &Vec<u8>, n: usize)
    ensures
        final(out)@ == old(out)@ + ragged_bytes(rows_of(rows@), counts@, n as nat),
{
    let ghost table = rows_of(rows@);
    let mut pi: usize = 0;
    assert(out@ =~= old(out)@ + ragged_bytes(table, counts@, 0));
    while pi < n
        invariant
            pi <= n,
            table == rows_of(rows@),
            out@ == old(out)@ + ragged_bytes(table, counts@, pi as nat),
        decreases n - pi,
    {
        let nf: u8 = if pi < counts.len() {
            counts[pi]
        } else {
            0
        };
        let ghost row = frame_row(table, counts@, pi as int);
        let ghost before = out@;
        let mut f: usize = 0;
        assert(row.subrange(0, 0) =~= Seq::<u32>::empty());
        assert(out@ =~= before + words_bytes(row.subrange(0, 0)));
        while f < nf as usize
            invariant
                f <= nf,
                nf == count_at(counts@, pi as int),
                pi < n,
                row == frame_row(table, counts@, pi as int),
                table == rows_of(rows@),
                out@ == before + words_bytes(row.subrange(0, f as int)),
            decreases nf - f,
        {
            let v: u32 = if pi < rows.len() && f < rows[pi].len() {
                rows[pi][f]
            } else {
                0
            };
            assert(v == row[f as int]);
            push_u32_le(out, v);
            assert(row.subrange(0, f + 1).drop_last() =~= row.subrange(0, f as int));
            f = f + 1;
            assert(out@ =~= before + words_bytes(row.subrange(0, f as int)));
        }
        assert(row.subrange(0, f as int) =~= row);
        pi = pi + 1;
        assert(out@ =~= old(out)@ + ragged_bytes(table, counts@, pi as nat));
    }
}

fn push_player_config(out: &mut Vec<u8>, n: usize)
    ensures
        final(out)@ == old(out)@ + config_bytes(n as nat),
{
    let mut i: usize = 0;
    assert(out@ =~= old(out)@ + config_bytes(0));
    while i < n
        invariant
            i <= n,
            out@ == old(out)@ + config_bytes(i as nat),
        decreases n - i,
    {
        let k = i % 4;
        let v: u16 = if k == 0 {
            0
        } else if k == 1 {
            257
        } else if k == 2 {
            512
        } else {
            769
        };
        push_u16_le(out, v);
        i = i + 1;
        assert(out@ =~= old(out)@ + config_bytes(i as nat));
    }
}

/// Writes a server message in its wire form. Per-player arrays have
/// `max_players` entries whatever the lengths of the message's lists: missing
/// entries are written as zeros.
#[verifier::spinoff_prover]
pub fn serialize_server_message(message: &UdpServerMessage, max_players: usize) -> (r: Vec<u8>)
    ensures
        r@ == server_bytes(*message, max_players as nat),
{
    let mut buffer: Vec<u8> = Vec::new();
    push_u8(&mut buffer, message.header.type_.tag());
    push_u32_le(&mut buffer, message.header.sequence);
    match &message.payload {
        ServerMessagePayload::PlayerConnection(data) => {
            push_u8(&mut buffer, data.success);
            push_u8(&mut buffer, data.num_players);
            push_u8(&mut buffer, data.player_index);
            push_u32_le(&mut buffer, data.match_duration);
            push_u8(&mut buffer, data.unused_0);
            push_u8(&mut buffer, data.unused_1);
        },
        ServerMessagePayload::PlayerInputs(data) => {
            push_u8(&mut buffer, data.num_players);
            push_padded_u32(&mut buffer, &data.start_frame, max_players);
            push_padded_u8(&mut buffer, &data.num_frames, max_players);
            push_u16_le(&mut buffer, data.num_predicted_overrides);
            push_u16_le(&mut buffer, data.unused_0);
            push_u16_le(&mut buffer, data.ping);
            push_i16_le(&mut buffer, data.packets_loss_percent);
            push_i16_le(&mut buffer, data.rift);
            push_u32_le(&mut buffer, data.unused_1);
            push_ragged(&mut buffer, &data.input_per_frame, &data.num_frames, max_players);
        },
        ServerMessagePayload::RequestPing(data) => {
            push_u16_be(&mut buffer, data.ping);
            push_u16_be(&mut buffer, data.packets_loss_percent);
        },
        ServerMessagePayload::Kick(data) => {
            push_u16_le(&mut buffer, data.reason);
            push_u32_le(&mut buffer, data.param1);
        },
        ServerMessagePayload::PlayerGetReady(data) => {
            push_u8(&mut buffer, data.num_players);
            push_player_config(&mut buffer, max_players);
        },
        ServerMessagePayload::PlayerDisconnected(data) => {
            push_u8(&mut buffer, data.player_index);
            push_u8(&mut buffer, data.should_ai_take_control);
            push_u32_le(&mut buffer, data.ai_take_control_frame);
            push_u16_le(&mut buffer, data.player_disconnected_array_index);
        },
        ServerMessagePayload::StartGame(_) => {},
        ServerMessagePayload::Empty() => {},
    }
    assert(buffer@ =~= server_bytes(*message, max_players as nat));
    buffer
}

} // verus!
