//! A player's id together with where the player is.

use vstd::prelude::*;
use vstd::slice::slice_subrange;
use vstd::slice::slice_to_vec;

use crate::game_state::lemma_position_round_trip;
use crate::game_state::Position;
use crate::packet::CLIENT_ID_LEN;

verus! {

/// Bytes of an id followed by a position.
pub const PLAYER_POSITION_LEN: usize = 26;

/// An id followed by a position, as a mathematical value.
pub struct PlayerPositionView {
    pub id: Seq<u8>,
    pub position: Position,
}

/// The bytes of an id followed by a position.
pub open spec fn player_position_bytes(v: PlayerPositionView) -> Seq<u8> {
    v.id + v.position.wire()
}

/// What the first 26 bytes hold: eighteen bytes of id, then a position.
pub open spec fn parse_player_position(bytes: Seq<u8>) -> Option<PlayerPositionView> {
    if bytes.len() < PLAYER_POSITION_LEN {
        None
    } else {
        Some(
            PlayerPositionView {
                id: bytes.subrange(0, 18),
                position: Position::parse(bytes.subrange(18, bytes.len() as int)).unwrap(),
            },
        )
    }
}

/// Reading back what was written for an id of eighteen bytes gives the id
/// and the position.
pub proof fn lemma_player_position_round_trip(v: PlayerPositionView)
    requires
        v.id.len() == CLIENT_ID_LEN,
    ensures
        parse_player_position(player_position_bytes(v)) == Some(v),
{
    let bytes = player_position_bytes(v);
    lemma_position_round_trip(v.position, Seq::<u8>::empty());
    assert(bytes.subrange(0, 18) =~= v.id);
    assert(bytes.subrange(18, bytes.len() as int) =~= v.position.wire() + Seq::<u8>::empty());
}

/// The payload of a forwarded position update.
#[derive(Debug)]
pub struct PlayerPosition {
    pub id: Vec<u8>,
    pub position: Position,
}

impl View for PlayerPosition {
    type V = PlayerPositionView;

    open spec fn view(&self) -> PlayerPositionView {
        PlayerPositionView { id: self.id@, position: self.position }
    }
}

impl Clone for PlayerPosition {
    fn clone(&self) -> (p: Self)
        ensures
            p@ == self@,
    {
        PlayerPosition { id: slice_to_vec(self.id.as_slice()), position: self.position }
    }
}

impl PlayerPosition {
    #[must_use]
    pub fn new(id: Vec<u8>, position: Position) -> (p: Self)
        ensures
            p@ == (PlayerPositionView { id: id@, position }),
    {
        PlayerPosition { id, position }
    }

    /// The id as it is, then the eight bytes of the position.
    #[must_use]
    pub fn serialize(&self) -> (bytes: Vec<u8>)
        ensures
            bytes@ == player_position_bytes(self@),
    {
        let mut buf: Vec<u8> = slice_to_vec(self.id.as_slice());
        let mut position = self.position.serialize();
        buf.append(&mut position);
        buf
    }

    /// Reads an id and a position from the first 26 bytes of `data`.
    #[must_use]
    pub fn deserialize(data: &[u8]) -> (r: Option<PlayerPosition>)
        ensures
            r.is_some() <==> parse_player_position(data@).is_some(),
            r.is_some() ==> r.unwrap()@ == parse_player_position(data@).unwrap(),
    {
        if data.len() < PLAYER_POSITION_LEN {
            return None;
        }
        let id = slice_to_vec(slice_subrange(data, 0, 18));
        match Position::deserialize(slice_subrange(data, 18, data.len())) {
            Some(position) => Some(PlayerPosition { id, position }),
            None => None,
        }
    }
}

} // verus!
