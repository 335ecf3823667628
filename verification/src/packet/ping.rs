//! The notice that a player has left.

use vstd::prelude::*;
use vstd::slice::slice_subrange;
use vstd::slice::slice_to_vec;
use vstd::utf8::decode_utf8;
use vstd::utf8::encode_utf8;
use vstd::utf8::encode_utf8_decode_utf8;
use vstd::utf8::encode_utf8_valid_utf8;
use vstd::utf8::valid_utf8;

use crate::packet::CLIENT_ID_LEN;
use crate::text::string_from_utf8;

verus! {

/// The payload of a departure notice: the id of the player who left.
#[derive(Debug)]
pub struct PlayerLeft {
    pub player_id: String,
}

impl Clone for PlayerLeft {
    fn clone(&self) -> (p: Self)
        ensures
            p.player_id@ == self.player_id@,
    {
        PlayerLeft { player_id: self.player_id.clone() }
    }
}

/// The id that a departure payload names: its first eighteen bytes, if they
/// are there and spell text.
pub open spec fn parse_player_left(bytes: Seq<u8>) -> Option<Seq<char>> {
    if bytes.len() < CLIENT_ID_LEN {
        None
    } else if !valid_utf8(bytes.subrange(0, 18)) {
        None
    } else {
        Some(decode_utf8(bytes.subrange(0, 18)))
    }
}

/// A departure payload names the id it was made from, when that id takes
/// eighteen bytes.
pub proof fn lemma_player_left_round_trip(id: Seq<char>)
    requires
        encode_utf8(id).len() == CLIENT_ID_LEN,
    ensures
        parse_player_left(encode_utf8(id)) == Some(id),
{
    let bytes = encode_utf8(id);
    assert(bytes.subrange(0, 18) =~= bytes);
    encode_utf8_valid_utf8(id);
    encode_utf8_decode_utf8(id);
}

impl PlayerLeft {
    #[must_use]
    pub fn new(player_id: String) -> (p: Self)
        ensures
            p.player_id@ == player_id@,
    {
        PlayerLeft { player_id }
    }

    /// The bytes of the id.
    #[must_use]
    pub fn serialize(&self) -> (bytes: Vec<u8>)
        ensures
            bytes@ == encode_utf8(self.player_id@),
    {
        slice_to_vec(self.player_id.as_str().as_bytes())
    }

    /// Reads the id from the first eighteen bytes of `data`.
    #[must_use]
    pub fn deserialize(data: &[u8]) -> (r: Option<PlayerLeft>)
        ensures
            r.is_some() <==> parse_player_left(data@).is_some(),
            r.is_some() ==> r.unwrap().player_id@ == parse_player_left(data@).unwrap(),
    {
        if data.len() < CLIENT_ID_LEN {
            return None;
        }
        match string_from_utf8(slice_to_vec(slice_subrange(data, 0, 18))) {
            Some(player_id) => Some(PlayerLeft { player_id }),
            None => None,
        }
    }
}

} // verus!
