//! The datagram header and the message taxonomy.

pub mod connection_init;
pub mod ping;
pub mod position;

use vstd::prelude::*;
use vstd::slice::slice_subrange;
use vstd::slice::slice_to_vec;

use crate::buffer::buffer_contents;
use crate::buffer::buffer_put_slice;
use crate::buffer::buffer_put_u32;
use crate::buffer::buffer_put_u8;
use crate::buffer::buffer_to_vec;
use crate::buffer::buffer_with_capacity;
use crate::byte_order::be_bytes;
use crate::byte_order::be_word_at;
use crate::byte_order::lemma_be_word_of_bytes;
use crate::byte_order::read_be_u32;
use crate::game_state::Position;
use crate::game_state::POSITION_LEN;

verus! {

/// Bytes before the payload: type, version, client id, sequence number.
pub const HEADER_LEN: usize = 24;

/// Bytes of the client id field.
pub const CLIENT_ID_LEN: usize = 18;

/// The protocol version stamped on packets built here.
pub const PROTOCOL_VERSION: u8 = 1;

/// What a datagram is about.
#[derive(Debug, Clone, Copy, PartialEq, Eq, Structural)]
pub enum MessageType {
    PositionUpdate,
    ChatMessage,
    Heartbeat,
    ConnectionInit,
    PlayerJoin,
    ConfirmPlayerMovement,
    PlayerLeft,
}

impl MessageType {
    /// The byte that stands for this message type on the wire.
    pub open spec fn code(self) -> u8 {
        match self {
            MessageType::PositionUpdate => 0x01,
            MessageType::ChatMessage => 0x02,
            MessageType::Heartbeat => 0x03,
            MessageType::ConnectionInit => 0x04,
            MessageType::PlayerJoin => 0x05,
            MessageType::ConfirmPlayerMovement => 0x06,
            MessageType::PlayerLeft => 0x07,
        }
    }

    /// The message type that `b` stands for, if any.
    pub open spec fn of_code(b: u8) -> Option<MessageType> {
        if b == 0x01 {
            Some(MessageType::PositionUpdate)
        } else if b == 0x02 {
            Some(MessageType::ChatMessage)
        } else if b == 0x03 {
            Some(MessageType::Heartbeat)
        } else if b == 0x04 {
            Some(MessageType::ConnectionInit)
        } else if b == 0x05 {
            Some(MessageType::PlayerJoin)
        } else if b == 0x06 {
            Some(MessageType::ConfirmPlayerMovement)
        } else if b == 0x07 {
            Some(MessageType::PlayerLeft)
        } else {
            None
        }
    }

    /// Decodes a type code; codes outside `0x01..=0x07` stand for nothing.
    #[must_use]
    pub fn from_byte(b: u8) -> (r: Option<MessageType>)
        ensures
            r == Self::of_code(b),
            r.is_some() <==> 1 <= b <= 7,
            r.is_some() ==> r.unwrap().code() == b,
    {
        match b {
            0x01 => Some(MessageType::PositionUpdate),
            0x02 => Some(MessageType::ChatMessage),
            0x03 => Some(MessageType::Heartbeat),
            0x04 => Some(MessageType::ConnectionInit),
            0x05 => Some(MessageType::PlayerJoin),
            0x06 => Some(MessageType::ConfirmPlayerMovement),
            0x07 => Some(MessageType::PlayerLeft),
            _ => None,
        }
    }

    /// Encodes this message type as its wire code.
    #[must_use]
    pub fn to_byte(self) -> (b: u8)
        ensures
            b == self.code(),
    {
        match self {
            MessageType::PositionUpdate => 0x01,
            MessageType::ChatMessage => 0x02,
            MessageType::Heartbeat => 0x03,
            MessageType::ConnectionInit => 0x04,
            MessageType::PlayerJoin => 0x05,
            MessageType::ConfirmPlayerMovement => 0x06,
            MessageType::PlayerLeft => 0x07,
        }
    }
}

/// Every message type is recovered from its own code.
pub proof fn lemma_code_round_trip(t: MessageType)
    ensures
        MessageType::of_code(t.code()) == Some(t),
{
}

/// Why a datagram was not accepted as a packet.
#[derive(Debug, Clone, Copy, PartialEq, Eq, Structural)]
pub enum PacketError {
    /// Fewer bytes than a header takes.
    TruncatedHeader,
    /// The first byte is no known type code.
    UnknownMessageType,
}

/// A packet as a mathematical value.
pub struct PacketView {
    pub msg_type: MessageType,
    pub version: u8,
    pub client_id: Seq<u8>,
    pub seq_num: u32,
    pub payload: Seq<u8>,
}

/// One datagram: header fields and payload.
///
/// `client_id` names the sender on packets that arrive and the recipient on
/// packets that the server sends.
#[derive(Debug)]
pub struct GamePacket {
    pub msg_type: MessageType,
    pub version: u8,
    pub client_id: Vec<u8>,
    pub seq_num: u32,
    pub payload: Vec<u8>,
}

impl View for GamePacket {
    type V = PacketView;

    open spec fn view(&self) -> PacketView {
        PacketView {
            msg_type: self.msg_type,
            version: self.version,
            client_id: self.client_id@,
            seq_num: self.seq_num,
            payload: self.payload@,
        }
    }
}

/// A packet whose client id fills its field exactly; only such packets
/// survive a trip over the wire unchanged.
pub open spec fn well_formed(p: PacketView) -> bool {
    p.client_id.len() == CLIENT_ID_LEN
}

/// The bytes of a packet on the wire.
pub open spec fn encode(p: PacketView) -> Seq<u8> {
    seq![p.msg_type.code(), p.version] + p.client_id + be_bytes(p.seq_num) + p.payload
}

/// Whether a buffer can hold the packet's bytes: no buffer grows beyond
/// `isize::MAX` bytes, and room for a whole header is set aside whatever
/// the length of the client id.
pub open spec fn encodable(p: PacketView) -> bool {
    HEADER_LEN + p.payload.len() <= isize::MAX && 6 + p.client_id.len() + p.payload.len()
        <= isize::MAX
}

/// The packet that a datagram holds, or why it holds none.
pub open spec fn decode(bytes: Seq<u8>) -> Result<PacketView, PacketError> {
    if bytes.len() < HEADER_LEN {
        Err(PacketError::TruncatedHeader)
    } else {
        match MessageType::of_code(bytes[0]) {
            None => Err(PacketError::UnknownMessageType),
            Some(t) => Ok(
                PacketView {
                    msg_type: t,
                    version: bytes[1],
                    client_id: bytes.subrange(2, 20),
                    seq_num: be_word_at(bytes, 20),
                    payload: bytes.subrange(24, bytes.len() as int),
                },
            ),
        }
    }
}

/// Decoding the encoding of a well-formed packet gives the packet back.
pub proof fn lemma_packet_round_trip(p: PacketView)
    requires
        well_formed(p),
    ensures
        decode(encode(p)) == Ok::<PacketView, PacketError>(p),
{
    let bytes = encode(p);
    lemma_code_round_trip(p.msg_type);
    lemma_be_word_of_bytes(p.seq_num);
    assert(bytes.len() == 24 + p.payload.len());
    assert(bytes[0] == p.msg_type.code());
    assert(bytes[1] == p.version);
    assert(bytes.subrange(2, 20) =~= p.client_id);
    assert(bytes.subrange(24, bytes.len() as int) =~= p.payload);
    assert(be_word_at(bytes, 20) == be_word_at(be_bytes(p.seq_num), 0)) by {
        assert(bytes[20] == be_bytes(p.seq_num)[0]);
        assert(bytes[21] == be_bytes(p.seq_num)[1]);
        assert(bytes[22] == be_bytes(p.seq_num)[2]);
        assert(bytes[23] == be_bytes(p.seq_num)[3]);
    }
}

impl GamePacket {
    /// A packet of the current protocol version.
    #[must_use]
    pub fn new(msg_type: MessageType, seq_num: u32, payload: Vec<u8>, client_id: Vec<u8>) -> (p:
        Self)
        ensures
            p@ == (PacketView {
                msg_type,
                version: PROTOCOL_VERSION,
                client_id: client_id@,
                seq_num,
                payload: payload@,
            }),
    {
        GamePacket { msg_type, version: 1, seq_num, payload, client_id }
    }

    /// The datagram for this packet: header fields in order, then the
    /// payload. The client id is written as it is, whatever its length.
    #[must_use]
    pub fn serialize(&self) -> (bytes: Vec<u8>)
        requires
            encodable(self@),
        ensures
            bytes@ == encode(self@),
            well_formed(self@) ==> decode(bytes@) == Ok::<PacketView, PacketError>(self@),
    {
        proof {
            if well_formed(self@) {
                lemma_packet_round_trip(self@);
            }
        }
        let mut buf = buffer_with_capacity(1 + 1 + 18 + 4 + self.payload.len());
        buffer_put_u8(&mut buf, self.msg_type.to_byte());
        buffer_put_u8(&mut buf, self.version);
        buffer_put_slice(&mut buf, self.client_id.as_slice());
        buffer_put_u32(&mut buf, self.seq_num);
        buffer_put_slice(&mut buf, self.payload.as_slice());
        assert(buffer_contents(buf) =~= encode(self@));
        buffer_to_vec(&buf)
    }

    /// The datagram for this packet, or nothing where its bytes are more
    /// than a buffer can hold.
    #[must_use]
    pub fn try_serialize(&self) -> (r: Option<Vec<u8>>)
        ensures
            r.is_some() <==> encodable(self@),
            r.is_some() ==> r.unwrap()@ == encode(self@),
            r.is_some() && well_formed(self@) ==> decode(r.unwrap()@) == Ok::<
                PacketView,
                PacketError,
            >(self@),
    {
        let limit: usize = isize::MAX as usize;
        let payload_len: usize = self.payload.len();
        let id_len: usize = self.client_id.len();
        if payload_len > limit - HEADER_LEN {
            return None;
        }
        if id_len > limit - 6 - payload_len {
            return None;
        }
        Some(self.serialize())
    }

    /// Reads a packet from a datagram. Everything after the header is the
    /// payload.
    pub fn deserialize(data: &[u8]) -> (r: Result<GamePacket, PacketError>)
        ensures
            match r {
                Ok(p) => decode(data@) == Ok::<PacketView, PacketError>(p@),
                Err(e) => decode(data@) == Err::<PacketView, PacketError>(e),
            },
    {
        if data.len() < HEADER_LEN {
            return Err(PacketError::TruncatedHeader);
        }
        let msg_type = match MessageType::from_byte(data[0]) {
            Some(t) => t,
            None => {
                return Err(PacketError::UnknownMessageType);
            },
        };
        let version: u8 = data[1];
        let client_id = slice_to_vec(slice_subrange(data, 2, 20));
        let seq_num: u32 = read_be_u32(data, 20);
        let payload = slice_to_vec(slice_subrange(data, HEADER_LEN, data.len()));
        Ok(GamePacket { msg_type, seq_num, client_id, payload, version })
    }
}

/// A position update as it arrives: the header fields, and the position that
/// the payload starts with.
#[derive(Debug)]
pub struct PositionGamePacket {
    pub msg_type: MessageType,
    pub version: u8,
    pub client_id: Vec<u8>,
    pub seq_num: u32,
    pub position: Position,
}

impl PositionGamePacket {
    /// Reads the position out of a packet whose payload holds one.
    #[must_use]
    pub fn new(game_packet: &GamePacket) -> (p: Self)
        requires
            game_packet.payload@.len() >= POSITION_LEN,
        ensures
            p.msg_type == game_packet.msg_type,
            p.version == game_packet.version,
            p.client_id@ == game_packet.client_id@,
            p.seq_num == game_packet.seq_num,
            Some(p.position) == Position::parse(game_packet.payload@),
    {
        let position = Position {
            x_bits: read_be_u32(game_packet.payload.as_slice(), 0),
            y_bits: read_be_u32(game_packet.payload.as_slice(), 4),
        };
        PositionGamePacket {
            msg_type: game_packet.msg_type,
            version: game_packet.version,
            client_id: slice_to_vec(game_packet.client_id.as_slice()),
            seq_num: game_packet.seq_num,
            position,
        }
    }
}

/// A packet on its way out, as a mathematical value.
pub struct OutboundView {
    pub destination: Seq<char>,
    pub packet: PacketView,
}

/// A packet on its way out, with the address to send it to.
#[derive(Debug)]
pub struct Outbound {
    pub destination: String,
    pub packet: GamePacket,
}

impl View for Outbound {
    type V = OutboundView;

    open spec fn view(&self) -> OutboundView {
        OutboundView { destination: self.destination@, packet: self.packet@ }
    }
}

/// The packets of a list, each as a mathematical value.
pub open spec fn outbound_views(list: Seq<Outbound>) -> Seq<OutboundView> {
    list.map_values(|o: Outbound| o@)
}

} // verus!
