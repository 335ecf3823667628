//! The packets exchanged when a player joins.

use vstd::prelude::*;
use vstd::slice::slice_to_vec;
use vstd::utf8::encode_utf8;

use crate::byte_order::be_word_at;
use crate::byte_order::read_be_u32;
use crate::game_state::player_views;
use crate::game_state::Player;
use crate::game_state::PlayerView;
use crate::game_state::Position;
use crate::packet::decode;
use crate::packet::position::parse_player_position;
use crate::packet::position::player_position_bytes;
use crate::packet::position::PlayerPositionView;
use crate::packet::position::PLAYER_POSITION_LEN;
use crate::packet::GamePacket;
use crate::packet::HEADER_LEN;
use crate::packet::MessageType;
use crate::packet::PacketView;
use crate::packet::PROTOCOL_VERSION;

verus! {

/// The head of a join request: the type, version and sequence number of
/// its header.
#[derive(Debug)]
pub struct ConnectionInitPacketReceived {
    pub msg_type: MessageType,
    pub version: u8,
    pub seq_num: u32,
}

impl ConnectionInitPacketReceived {
    /// Reads the header fields of a datagram, as `GamePacket::deserialize`
    /// does; the client id and the payload are passed over.
    pub fn deserialize(data: &[u8]) -> (r: Option<ConnectionInitPacketReceived>)
        ensures
            r.is_some() <==> data@.len() >= HEADER_LEN && MessageType::of_code(data@[0]).is_some(),
            r.is_some() ==> {
                &&& Some(r.unwrap().msg_type) == MessageType::of_code(data@[0])
                &&& r.unwrap().version == data@[1]
                &&& r.unwrap().seq_num == be_word_at(data@, 20)
            },
            r.is_some() <==> decode(data@).is_ok(),
            r.is_some() ==> {
                &&& r.unwrap().msg_type == decode(data@).unwrap().msg_type
                &&& r.unwrap().version == decode(data@).unwrap().version
                &&& r.unwrap().seq_num == decode(data@).unwrap().seq_num
            },
    {
        if data.len() < HEADER_LEN {
            return None;
        }
        let msg_type = match MessageType::from_byte(data[0]) {
            Some(t) => t,
            None => {
                return None;
            },
        };
        let version: u8 = data[1];
        let seq_num: u32 = read_be_u32(data, 20);
        Some(ConnectionInitPacketReceived { msg_type, version, seq_num })
    }
}

/// One roster record: the bytes of a player's id, then the player's position.
pub open spec fn roster_record(p: PlayerView) -> Seq<u8> {
    encode_utf8(p.id) + p.position.wire()
}

/// The roster: one record for each player, in order.
pub open spec fn roster_bytes(players: Seq<PlayerView>) -> Seq<u8> {
    players.map_values(|p: PlayerView| roster_record(p)).flatten()
}

/// The roster of a list that grew by one player is the old roster followed
/// by that player's record.
pub proof fn lemma_roster_push(players: Seq<PlayerView>, p: PlayerView)
    ensures
        roster_bytes(players.push(p)) == roster_bytes(players) + roster_record(p),
{
    let records = players.map_values(|p: PlayerView| roster_record(p));
    assert(players.push(p).map_values(|p: PlayerView| roster_record(p)) =~= records.push(
        roster_record(p),
    ));
    records.lemma_flatten_push(roster_record(p));
}

/// The reply to a join request: the new player's id in the header, and the
/// roster of the players that were already there.
pub struct ConnectionInitPacketSent {
    pub msg_type: MessageType,
    pub version: u8,
    pub seq_num: u32,
    pub client_id: Vec<u8>,
    pub players: Vec<Player>,
}

impl ConnectionInitPacketSent {
    /// The packet of the reply. Its version is the current one.
    pub fn serialize(&self) -> (p: GamePacket)
        ensures
            p@ == (PacketView {
                msg_type: self.msg_type,
                version: PROTOCOL_VERSION,
                client_id: self.client_id@,
                seq_num: self.seq_num,
                payload: roster_bytes(player_views(self.players@)),
            }),
    {
        let mut buf: Vec<u8> = Vec::new();
        let ghost all = player_views(self.players@);
        let mut i: usize = 0;
        while i < self.players.len()
            invariant
                0 <= i <= self.players@.len(),
                all == player_views(self.players@),
                buf@ == roster_bytes(all.take(i as int)),
            decreases self.players@.len() - i,
        {
            let player = &self.players[i];
            let mut id = slice_to_vec(player.id.as_str().as_bytes());
            let mut position = player.position.serialize();
            proof {
                assert(all.take(i + 1) =~= all.take(i as int).push(all[i as int]));
                lemma_roster_push(all.take(i as int), all[i as int]);
            }
            buf.append(&mut id);
            buf.append(&mut position);
            i = i + 1;
        }
        assert(all.take(i as int) =~= all);
        GamePacket::new(self.msg_type, self.seq_num, buf, slice_to_vec(self.client_id.as_slice()))
    }

    pub fn new(seq_num: u32, client_id: Vec<u8>, players: Vec<Player>) -> (p: Self)
        ensures
            p.msg_type == MessageType::ConnectionInit,
            p.version == PROTOCOL_VERSION,
            p.seq_num == seq_num,
            p.client_id@ == client_id@,
            p.players@ == players@,
    {
        ConnectionInitPacketSent {
            msg_type: MessageType::ConnectionInit,
            version: 1,
            seq_num,
            client_id,
            players,
        }
    }
}

/// The payload that announces a new player to those already there: the new
/// player's id and a position.
#[derive(Debug)]
pub struct ConnectionInitSync {
    client_id: Vec<u8>,
    position: Position,
}

impl View for ConnectionInitSync {
    type V = PlayerPositionView;

    closed spec fn view(&self) -> PlayerPositionView {
        PlayerPositionView { id: self.client_id@, position: self.position }
    }
}

impl Clone for ConnectionInitSync {
    fn clone(&self) -> (p: Self)
        ensures
            p@ == self@,
    {
        ConnectionInitSync {
            client_id: slice_to_vec(self.client_id.as_slice()),
            position: self.position,
        }
    }
}

impl ConnectionInitSync {
    pub fn new(client_id: Vec<u8>, position: Position) -> (p: Self)
        ensures
            p@ == (PlayerPositionView { id: client_id@, position }),
    {
        ConnectionInitSync { client_id, position }
    }

    /// The id as it is, then the eight bytes of the position.
    pub fn serialize(&self) -> (bytes: Vec<u8>)
        ensures
            bytes@ == player_position_bytes(self@),
    {
        let mut buf: Vec<u8> = slice_to_vec(self.client_id.as_slice());
        let mut position = self.position.serialize();
        buf.append(&mut position);
        buf
    }

    /// Reads an id and a position from the first 26 bytes of `data`.
    pub fn deserialize(data: &[u8]) -> (r: Option<ConnectionInitSync>)
        ensures
            r.is_some() <==> parse_player_position(data@).is_some(),
            r.is_some() ==> r.unwrap()@ == parse_player_position(data@).unwrap(),
    {
        if data.len() < PLAYER_POSITION_LEN {
            return None;
        }
        let client_id = slice_to_vec(vstd::slice::slice_subrange(data, 0, 18));
        match Position::deserialize(vstd::slice::slice_subrange(data, 18, data.len())) {
            Some(position) => Some(ConnectionInitSync { client_id, position }),
            None => None,
        }
    }
}

} // verus!
