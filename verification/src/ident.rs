//! Player identifiers.

use vstd::prelude::*;
use vstd::utf8::encode_utf8;
use vstd::utf8::is_ascii_chars;
use vstd::utf8::is_ascii_chars_encode_utf8;

verus! {

/// Characters of a player id.
pub const PLAYER_ID_LEN: usize = 18;

/// The characters that identifiers are drawn from: letters, digits, `_`
/// and `-`.
pub open spec fn is_id_char(c: char) -> bool {
    c == '_' || c == '-' || ('0' <= c && c <= '9') || ('a' <= c && c <= 'z') || ('A' <= c && c
        <= 'Z')
}

/// An identifier of `size` characters.
pub open spec fn is_id_of_len(id: Seq<char>, size: int) -> bool {
    id.len() == size && forall|i: int| 0 <= i < id.len() ==> is_id_char(#[trigger] id[i])
}

/// A player id: eighteen identifier characters.
pub open spec fn is_player_id(id: Seq<char>) -> bool {
    is_id_of_len(id, PLAYER_ID_LEN as int)
}

/// A player id takes exactly the bytes of the header's id field.
pub proof fn lemma_player_id_bytes(id: Seq<char>)
    requires
        is_player_id(id),
    ensures
        encode_utf8(id).len() == PLAYER_ID_LEN,
{
    assert(is_ascii_chars(id)) by {
        assert forall|i: int| 0 <= i < id.len() implies '\0' <= #[trigger] id[i] <= '\u{7f}' by {
            assert(is_id_char(id[i]));
        }
    }
    is_ascii_chars_encode_utf8(id);
}

/// `nanoid::format` with the crate's default random source and its URL-safe
/// alphabet; not proved here. The source shows that the result has `size`
/// characters, each taken from that alphabet, and that with an alphabet of
/// 64 characters every random byte yields one, so the call returns. Which
/// characters come out is left open: they are random.
#[verifier::external_body]
pub(crate) fn random_id(size: usize) -> (id: String)
    requires
        1 <= size,
        8 * size <= usize::MAX,
    ensures
        is_id_of_len(id@, size as int),
{
    nanoid::format(nanoid::rngs::default, &nanoid::alphabet::SAFE, size)
}

/// A fresh player id. Written out, it fills the id field of a packet
/// header exactly.
pub fn fresh_player_id() -> (id: String)
    ensures
        is_player_id(id@),
        encode_utf8(id@).len() == PLAYER_ID_LEN,
{
    let id = random_id(PLAYER_ID_LEN);
    proof {
        lemma_player_id_bytes(id@);
    }
    id
}

} // verus!
