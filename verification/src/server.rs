//! What the server does with each datagram that arrives: how the registry
//! changes and which packets go out. Sending them is the caller's part; a
//! packet that cannot be delivered changes nothing here.

use vstd::prelude::*;
use vstd::slice::slice_to_vec;
use vstd::utf8::encode_utf8;

use crate::game_state::distinct_addresses;
use crate::game_state::distinct_ids;
use crate::game_state::entry_views;
use crate::game_state::has_other_id;
use crate::game_state::held_elsewhere;
use crate::game_state::lemma_with_player_valid;
use crate::game_state::valid_registry;
use crate::game_state::lemma_slot_is;
use crate::game_state::lemma_text_of_bytes;
use crate::game_state::lemma_update_keeps_distinct;
use crate::game_state::others;
use crate::game_state::registered;
use crate::game_state::slot;
use crate::game_state::with_heartbeat;
use crate::game_state::with_player;
use crate::game_state::with_position;
use crate::game_state::EntryView;
use crate::game_state::GameState;
use crate::game_state::Player;
use crate::game_state::PlayerView;
use crate::game_state::Position;
use crate::game_state::POSITION_LEN;
use crate::ident::fresh_player_id;
use crate::ident::is_player_id;
use crate::packet::connection_init::roster_bytes;
use crate::packet::connection_init::ConnectionInitPacketSent;
use crate::packet::connection_init::ConnectionInitSync;
use crate::packet::decode;
use crate::packet::outbound_views;
use crate::packet::position::player_position_bytes;
use crate::packet::position::PlayerPosition;
use crate::packet::position::PlayerPositionView;
use crate::packet::GamePacket;
use crate::packet::MessageType;
use crate::packet::Outbound;
use crate::packet::OutboundView;
use crate::packet::PacketError;
use crate::packet::PacketView;
use crate::packet::PositionGamePacket;
use crate::packet::PROTOCOL_VERSION;
use crate::sequences::count;
use crate::sequences::lemma_count_empty;
use crate::sequences::lemma_count_push;
use crate::sequences::lemma_filter_map_step;
use crate::sequences::lemma_filter_start;
use crate::sequences::lemma_take_all;
use crate::text::same_text;
use crate::text::text_is_bytes;

verus! {

/// Where a new player appears: the bit patterns of 600.0 and 700.0.
pub const SPAWN_X_BITS: u32 = 0x4416_0000;

pub const SPAWN_Y_BITS: u32 = 0x442F_0000;

/// Where a new player appears.
pub open spec fn spawn_position() -> Position {
    Position { x_bits: SPAWN_X_BITS, y_bits: SPAWN_Y_BITS }
}

/// The player that a join request with sequence number `seq_num`, handled
/// at `now`, creates under `id`.
pub open spec fn new_player(id: Seq<char>, seq_num: u32, now: u64) -> PlayerView {
    PlayerView { id, seq_num, position: spawn_position(), heartbeat: now }
}

/// The reply to a join request from `address`: the new id in the header and
/// the roster of all players with another id.
pub open spec fn join_reply(
    entries: Seq<EntryView>,
    address: Seq<char>,
    id: Seq<char>,
    seq_num: u32,
) -> OutboundView {
    OutboundView {
        destination: address,
        packet: PacketView {
            msg_type: MessageType::ConnectionInit,
            version: PROTOCOL_VERSION,
            client_id: encode_utf8(id),
            seq_num,
            payload: roster_bytes(others(entries, id)),
        },
    }
}

/// The announcement of the player `id` to `target`: addressed to the target
/// by address and by id, carrying the new id and the spawn position.
pub open spec fn join_notice(id: Seq<char>, seq_num: u32, target: EntryView) -> OutboundView {
    OutboundView {
        destination: target.address,
        packet: PacketView {
            msg_type: MessageType::PlayerJoin,
            version: PROTOCOL_VERSION,
            client_id: encode_utf8(target.player.id),
            seq_num,
            payload: player_position_bytes(
                PlayerPositionView { id: encode_utf8(id), position: spawn_position() },
            ),
        },
    }
}

/// Makes the announcement of the player `id` for a target.
pub open spec fn join_notice_to(id: Seq<char>, seq_num: u32) -> spec_fn(EntryView) -> OutboundView {
    |target: EntryView| join_notice(id, seq_num, target)
}

/// Everything that goes out when `id` has joined from `address`: the reply,
/// then one announcement to each player with another id, in the order of
/// the registry. `entries` is the registry with the new player in it.
pub open spec fn join_packets(
    entries: Seq<EntryView>,
    address: Seq<char>,
    id: Seq<char>,
    seq_num: u32,
) -> Seq<OutboundView> {
    seq![join_reply(entries, address, id, seq_num)] + entries.filter(has_other_id(id)).map_values(
        join_notice_to(id, seq_num),
    )
}

/// Selects the entries whose player's id is not spelled by the bytes
/// `claimed`.
pub open spec fn claims_other_id(claimed: Seq<u8>) -> spec_fn(EntryView) -> bool {
    |e: EntryView| encode_utf8(e.player.id) != claimed
}

/// A position update as forwarded to `target`: addressed to the target by
/// address and by id, carrying the id that the sender claimed and the
/// position.
pub open spec fn position_forward(
    claimed: Seq<u8>,
    seq_num: u32,
    position: Position,
    target: EntryView,
) -> OutboundView {
    OutboundView {
        destination: target.address,
        packet: PacketView {
            msg_type: MessageType::PositionUpdate,
            version: PROTOCOL_VERSION,
            client_id: encode_utf8(target.player.id),
            seq_num,
            payload: player_position_bytes(PlayerPositionView { id: claimed, position }),
        },
    }
}

/// Makes the forwarded update for a target.
pub open spec fn position_forward_to(claimed: Seq<u8>, seq_num: u32, position: Position) -> spec_fn(
    EntryView,
) -> OutboundView {
    |target: EntryView| position_forward(claimed, seq_num, position, target)
}

/// The forwarded updates: one to each player whose id is not the claimed
/// one, in the order of the registry.
pub open spec fn position_forwards(
    entries: Seq<EntryView>,
    claimed: Seq<u8>,
    seq_num: u32,
    position: Position,
) -> Seq<OutboundView> {
    entries.filter(claims_other_id(claimed)).map_values(
        position_forward_to(claimed, seq_num, position),
    )
}

/// What a handler returned, as a mathematical value.
pub open spec fn result_views(r: Result<Vec<Outbound>, ServerError>) -> Result<
    Seq<OutboundView>,
    ServerError,
> {
    match r {
        Ok(out) => Ok(outbound_views(out@)),
        Err(e) => Err(e),
    }
}

/// How the server reacts to a position update `p` from `addr`: a payload
/// too short for a position, or an address without a player, is an error
/// and changes nothing; otherwise the player at the address moves and the
/// update is forwarded.
pub open spec fn position_reaction(
    before: Seq<EntryView>,
    p: PacketView,
    addr: Seq<char>,
    after: Seq<EntryView>,
    r: Result<Seq<OutboundView>, ServerError>,
) -> bool {
    if p.payload.len() < POSITION_LEN {
        after == before && r == Err::<Seq<OutboundView>, ServerError>(
            ServerError::TruncatedPayload,
        )
    } else if !registered(before, addr) {
        after == before && r == Err::<Seq<OutboundView>, ServerError>(
            ServerError::AddressUnregistered,
        )
    } else {
        let position = Position::parse(p.payload).unwrap();
        after == with_position(before, addr, position) && r == Ok::<
            Seq<OutboundView>,
            ServerError,
        >(position_forwards(after, p.client_id, p.seq_num, position))
    }
}

/// How the server reacts to a heartbeat from `addr` at `now`.
pub open spec fn heartbeat_reaction(
    before: Seq<EntryView>,
    addr: Seq<char>,
    now: u64,
    after: Seq<EntryView>,
    r: Result<Seq<OutboundView>, ServerError>,
) -> bool {
    after == with_heartbeat(before, addr, now) && r == if registered(before, addr) {
        Ok::<Seq<OutboundView>, ServerError>(Seq::empty())
    } else {
        Err::<Seq<OutboundView>, ServerError>(ServerError::AddressUnregistered)
    }
}

/// What becomes of a join request from `addr` under the id `id`. If a
/// player at another address has that id already, the request is refused
/// and nothing changes; otherwise the player is registered at `addr`, in
/// place of whoever was there, and the reply and the announcements go out.
pub open spec fn join_outcome(
    before: Seq<EntryView>,
    addr: Seq<char>,
    id: Seq<char>,
    seq_num: u32,
    now: u64,
    after: Seq<EntryView>,
    r: Result<Seq<OutboundView>, ServerError>,
) -> bool {
    if held_elsewhere(before, addr, id) {
        after == before && r == Err::<Seq<OutboundView>, ServerError>(ServerError::IdCollision)
    } else {
        after == with_player(before, addr, new_player(id, seq_num, now)) && r == Ok::<
            Seq<OutboundView>,
            ServerError,
        >(join_packets(after, addr, id, seq_num))
    }
}

/// How the server reacts to a join request from `addr` at `now`: some
/// player id is drawn, and the request fares as it does under that id.
pub open spec fn join_reaction(
    before: Seq<EntryView>,
    p: PacketView,
    addr: Seq<char>,
    now: u64,
    after: Seq<EntryView>,
    r: Result<Seq<OutboundView>, ServerError>,
) -> bool {
    exists|id: Seq<char>|
        is_player_id(id) && #[trigger] join_outcome(before, addr, id, p.seq_num, now, after, r)
}

/// How the server reacts to the packet `p` from `addr` at `now`. Packets
/// that only the server sends are ignored when they arrive.
pub open spec fn reaction(
    before: Seq<EntryView>,
    p: PacketView,
    addr: Seq<char>,
    now: u64,
    after: Seq<EntryView>,
    r: Result<Seq<OutboundView>, ServerError>,
) -> bool {
    match p.msg_type {
        MessageType::PositionUpdate => position_reaction(before, p, addr, after, r),
        MessageType::Heartbeat => heartbeat_reaction(before, addr, now, after, r),
        MessageType::ConnectionInit => join_reaction(before, p, addr, now, after, r),
        _ => after == before && r == Ok::<Seq<OutboundView>, ServerError>(Seq::empty()),
    }
}

/// The error that stands for a datagram that is no packet.
pub open spec fn rejection(e: PacketError) -> ServerError {
    match e {
        PacketError::TruncatedHeader => ServerError::TruncatedHeader,
        PacketError::UnknownMessageType => ServerError::UnknownMessageType,
    }
}

/// Why a datagram led to nothing.
#[derive(Debug, Clone, Copy, PartialEq, Eq, Structural)]
pub enum ServerError {
    /// The datagram is shorter than a header.
    TruncatedHeader,
    /// The datagram's type code is not known.
    UnknownMessageType,
    /// A position update whose payload is shorter than a position.
    TruncatedPayload,
    /// A heartbeat or position update from an address that has no player.
    AddressUnregistered,
    /// A join under an id that a player at another address has already.
    IdCollision,
}

/// The server's state: the registry.
pub struct GameServer {
    pub game_state: GameState,
}

impl GameServer {
    /// A server with an empty world of the default size.
    pub fn new() -> (s: Self)
        ensures
            s.game_state.wf(),
            s.game_state@ == Seq::<EntryView>::empty(),
            s.game_state.spec_width() == 1920,
            s.game_state.spec_height() == 1080,
    {
        GameServer { game_state: GameState::default() }
    }

    /// Handles one datagram from `addr`, received at `now`. A datagram that
    /// is no packet is an error and changes nothing.
    pub fn handle_datagram(&mut self, data: &[u8], addr: &str, now: u64) -> (r: Result<
        Vec<Outbound>,
        ServerError,
    >)
        requires
            old(self).game_state.wf(),
        ensures
            final(self).game_state.wf(),
            match decode(data@) {
                Ok(p) => reaction(
                    old(self).game_state@,
                    p,
                    addr@,
                    now,
                    final(self).game_state@,
                    result_views(r),
                ),
                Err(e) => final(self).game_state@ == old(self).game_state@ && r == Err::<
                    Vec<Outbound>,
                    ServerError,
                >(rejection(e)),
            },
            final(self).game_state.spec_width() == old(self).game_state.spec_width(),
            final(self).game_state.spec_height() == old(self).game_state.spec_height(),
    {
        match GamePacket::deserialize(data) {
            Ok(package) => self.handle_message(&package, addr, now),
            Err(PacketError::TruncatedHeader) => Err(ServerError::TruncatedHeader),
            Err(PacketError::UnknownMessageType) => Err(ServerError::UnknownMessageType),
        }
    }

    /// Handles one packet from `addr`, received at `now`.
    pub fn handle_message(&mut self, package: &GamePacket, addr: &str, now: u64) -> (r: Result<
        Vec<Outbound>,
        ServerError,
    >)
        requires
            old(self).game_state.wf(),
        ensures
            final(self).game_state.wf(),
            reaction(
                old(self).game_state@,
                package@,
                addr@,
                now,
                final(self).game_state@,
                result_views(r),
            ),
            final(self).game_state.spec_width() == old(self).game_state.spec_width(),
            final(self).game_state.spec_height() == old(self).game_state.spec_height(),
    {
        match package.msg_type {
            MessageType::PositionUpdate => self.handle_position_update(package, addr),
            MessageType::Heartbeat => {
                match self.handle_heartbeat(addr, now) {
                    Ok(()) => {
                        let out: Vec<Outbound> = Vec::new();
                        assert(outbound_views(out@) =~= Seq::<OutboundView>::empty());
                        Ok(out)
                    },
                    Err(e) => Err(e),
                }
            },
            MessageType::ConnectionInit => {
                let ghost before = self.game_state@;
                match self.handle_connection_init(package, addr, now) {
                    Ok(joined) => {
                        assert(join_outcome(
                            before,
                            addr@,
                            joined.0@,
                            package@.seq_num,
                            now,
                            self.game_state@,
                            Ok::<Seq<OutboundView>, ServerError>(outbound_views(joined.1@)),
                        ));
                        Ok(joined.1)
                    },
                    Err(e) => {
                        let ghost id = choose|id: Seq<char>|
                            is_player_id(id) && #[trigger] held_elsewhere(before, addr@, id);
                        assert(join_outcome(
                            before,
                            addr@,
                            id,
                            package@.seq_num,
                            now,
                            self.game_state@,
                            Err::<Seq<OutboundView>, ServerError>(ServerError::IdCollision),
                        ));
                        Err(e)
                    },
                }
            },
            _ => {
                let out: Vec<Outbound> = Vec::new();
                assert(outbound_views(out@) =~= Seq::<OutboundView>::empty());
                Ok(out)
            },
        }
    }

    /// Records a heartbeat from `addr` at `now`. A heartbeat from an address
    /// that has no player is an error and changes nothing.
    pub fn handle_heartbeat(&mut self, addr: &str, now: u64) -> (r: Result<(), ServerError>)
        requires
            old(self).game_state.wf(),
        ensures
            final(self).game_state.wf(),
            final(self).game_state@ == with_heartbeat(old(self).game_state@, addr@, now),
            r == if registered(old(self).game_state@, addr@) {
                Ok::<(), ServerError>(())
            } else {
                Err::<(), ServerError>(ServerError::AddressUnregistered)
            },
            final(self).game_state.spec_width() == old(self).game_state.spec_width(),
            final(self).game_state.spec_height() == old(self).game_state.spec_height(),
    {
        if self.game_state.get_player(addr).is_some() {
            self.game_state.touch_heartbeat(addr, now);
            Ok(())
        } else {
            Err(ServerError::AddressUnregistered)
        }
    }

    /// Moves the player at `addr` to the position in the payload and
    /// forwards the update to every player whose id is not the one that the
    /// packet claims.
    pub fn handle_position_update(&mut self, package: &GamePacket, addr: &str) -> (r: Result<
        Vec<Outbound>,
        ServerError,
    >)
        requires
            old(self).game_state.wf(),
        ensures
            final(self).game_state.wf(),
            position_reaction(
                old(self).game_state@,
                package@,
                addr@,
                final(self).game_state@,
                result_views(r),
            ),
            final(self).game_state.spec_width() == old(self).game_state.spec_width(),
            final(self).game_state.spec_height() == old(self).game_state.spec_height(),
    {
        if package.payload.len() < POSITION_LEN {
            return Err(ServerError::TruncatedPayload);
        }
        if self.game_state.get_player(addr).is_none() {
            return Err(ServerError::AddressUnregistered);
        }
        let update = PositionGamePacket::new(package);
        self.game_state.update_player_position(addr, update.position);
        let position_payload = PlayerPosition::new(
            slice_to_vec(update.client_id.as_slice()),
            update.position,
        );

        let entries = self.game_state.get_players();
        let ghost all = self.game_state@;
        let ghost keep = claims_other_id(package@.client_id);
        let ghost make = position_forward_to(package@.client_id, package.seq_num, update.position);
        let mut out: Vec<Outbound> = Vec::new();
        let mut i: usize = 0;
        proof {
            lemma_filter_start(all, keep);
            assert(outbound_views(out@) =~= all.take(0).filter(keep).map_values(make));
        }
        while i < entries.len()
            invariant
                0 <= i <= entries@.len(),
                all == entry_views(entries@),
                keep == claims_other_id(package@.client_id),
                make == position_forward_to(package@.client_id, package.seq_num, update.position),
                update.client_id@ == package@.client_id,
                update.seq_num == package.seq_num,
                position_payload@ == (PlayerPositionView {
                    id: package@.client_id,
                    position: update.position,
                }),
                outbound_views(out@) == all.take(i as int).filter(keep).map_values(make),
            decreases entries@.len() - i,
        {
            let target = &entries[i];
            proof {
                lemma_filter_map_step(all, i as int, keep, make);
            }
            if !text_is_bytes(target.player.id.as_str(), update.client_id.as_slice()) {
                let position_packet = GamePacket::new(
                    MessageType::PositionUpdate,
                    update.seq_num,
                    position_payload.serialize(),
                    slice_to_vec(target.player.id.as_str().as_bytes()),
                );
                let ghost before = outbound_views(out@);
                let forward = Outbound {
                    destination: target.address.clone(),
                    packet: position_packet,
                };
                assert(forward@ == position_forward(
                    package@.client_id,
                    package.seq_num,
                    update.position,
                    all[i as int],
                ));
                out.push(forward);
                assert(outbound_views(out@) =~= before.push(
                    position_forward(
                        package@.client_id,
                        package.seq_num,
                        update.position,
                        all[i as int],
                    ),
                ));
            }
            i = i + 1;
        }
        proof {
            lemma_take_all(all);
        }
        Ok(out)
    }

    /// Registers a new player under `player_id` at `addr`, in place of
    /// whoever was registered there, and makes the reply and the
    /// announcements. An id that a player at another address has already is
    /// refused, and nothing changes.
    pub fn register_player(
        &mut self,
        package: &GamePacket,
        addr: &str,
        now: u64,
        player_id: String,
    ) -> (r: Result<Vec<Outbound>, ServerError>)
        requires
            old(self).game_state.wf(),
        ensures
            final(self).game_state.wf(),
            join_outcome(
                old(self).game_state@,
                addr@,
                player_id@,
                package.seq_num,
                now,
                final(self).game_state@,
                result_views(r),
            ),
            final(self).game_state.spec_width() == old(self).game_state.spec_width(),
            final(self).game_state.spec_height() == old(self).game_state.spec_height(),
    {
        if self.game_state.id_held_elsewhere(player_id.as_str(), addr) {
            return Err(ServerError::IdCollision);
        }
        let player = Player {
            id: player_id.clone(),
            position: Position { x_bits: SPAWN_X_BITS, y_bits: SPAWN_Y_BITS },
            heartbeat: now,
            seq_num: package.seq_num,
        };
        self.game_state.add_player(player, addr.to_owned());
        let players = self.game_state.snapshot_others(player_id.as_str());
        let reply = ConnectionInitPacketSent::new(
            package.seq_num,
            slice_to_vec(player_id.as_str().as_bytes()),
            players,
        ).serialize();
        let mut out: Vec<Outbound> = Vec::new();
        out.push(Outbound { destination: addr.to_owned(), packet: reply });

        let entries = self.game_state.get_players();
        let ghost all = self.game_state@;
        let ghost keep = has_other_id(player_id@);
        let ghost make = join_notice_to(player_id@, package.seq_num);
        let ghost first = join_reply(all, addr@, player_id@, package.seq_num);
        let mut i: usize = 0;
        proof {
            lemma_filter_start(all, keep);
            assert(outbound_views(out@) =~= seq![first] + all.take(0).filter(keep).map_values(
                make,
            ));
        }
        while i < entries.len()
            invariant
                0 <= i <= entries@.len(),
                all == entry_views(entries@),
                keep == has_other_id(player_id@),
                make == join_notice_to(player_id@, package.seq_num),
                outbound_views(out@) == seq![first] + all.take(i as int).filter(keep).map_values(
                    make,
                ),
            decreases entries@.len() - i,
        {
            let target = &entries[i];
            proof {
                lemma_filter_map_step(all, i as int, keep, make);
            }
            if !same_text(player_id.as_str(), target.player.id.as_str()) {
                let connection_payload = ConnectionInitSync::new(
                    slice_to_vec(player_id.as_str().as_bytes()),
                    Position { x_bits: SPAWN_X_BITS, y_bits: SPAWN_Y_BITS },
                );
                let connection_packet = GamePacket::new(
                    MessageType::PlayerJoin,
                    package.seq_num,
                    connection_payload.serialize(),
                    slice_to_vec(target.player.id.as_str().as_bytes()),
                );
                let ghost before = outbound_views(out@);
                let notice = Outbound {
                    destination: target.address.clone(),
                    packet: connection_packet,
                };
                assert(notice@ == join_notice(player_id@, package.seq_num, all[i as int]));
                out.push(notice);
                assert(outbound_views(out@) =~= before.push(
                    join_notice(player_id@, package.seq_num, all[i as int]),
                ));
            }
            i = i + 1;
        }
        proof {
            lemma_take_all(all);
        }
        Ok(out)
    }

    /// Handles a join request from `addr`: draws a fresh id and registers
    /// the player under it. Returns the id with the packets to send. Should
    /// the id drawn be one that a player at another address has, the
    /// request is refused and nothing changes.
    pub fn handle_connection_init(&mut self, package: &GamePacket, addr: &str, now: u64) -> (r:
        Result<(String, Vec<Outbound>), ServerError>)
        requires
            old(self).game_state.wf(),
        ensures
            final(self).game_state.wf(),
            match r {
                Ok(joined) => {
                    &&& is_player_id(joined.0@)
                    &&& !held_elsewhere(old(self).game_state@, addr@, joined.0@)
                    &&& final(self).game_state@ == with_player(
                        old(self).game_state@,
                        addr@,
                        new_player(joined.0@, package.seq_num, now),
                    )
                    &&& outbound_views(joined.1@) == join_packets(
                        final(self).game_state@,
                        addr@,
                        joined.0@,
                        package.seq_num,
                    )
                },
                Err(e) => {
                    &&& e == ServerError::IdCollision
                    &&& final(self).game_state@ == old(self).game_state@
                    &&& exists|id: Seq<char>|
                        is_player_id(id) && #[trigger] held_elsewhere(
                            old(self).game_state@,
                            addr@,
                            id,
                        )
                },
            },
            final(self).game_state.spec_width() == old(self).game_state.spec_width(),
            final(self).game_state.spec_height() == old(self).game_state.spec_height(),
    {
        let player_id = fresh_player_id();
        match self.register_player(package, addr, now, player_id.clone()) {
            Ok(out) => Ok((player_id, out)),
            Err(e) => {
                assert(held_elsewhere(old(self).game_state@, addr@, player_id@));
                Err(e)
            },
        }
    }
}

/// Selects the packets that go to `address`.
pub open spec fn goes_to(address: Seq<char>) -> spec_fn(OutboundView) -> bool {
    |n: OutboundView| n.destination == address
}

/// Among the updates forwarded to the first `j` entries, exactly one goes
/// to the entry `t`, unless `t` is the entry `a` whose id was claimed.
#[verifier::spinoff_prover]
proof fn lemma_forwards_count(
    entries: Seq<EntryView>,
    seq_num: u32,
    position: Position,
    a: int,
    t: int,
    j: int,
)
    requires
        distinct_addresses(entries),
        distinct_ids(entries),
        0 <= a < entries.len(),
        0 <= t < entries.len(),
        0 <= j <= entries.len(),
    ensures
        count(
            entries.take(j).filter(claims_other_id(encode_utf8(entries[a].player.id))).map_values(
                position_forward_to(encode_utf8(entries[a].player.id), seq_num, position),
            ),
            goes_to(entries[t].address),
        ) == if t != a && t < j {
            1nat
        } else {
            0nat
        },
    decreases j,
{
    let claimed = encode_utf8(entries[a].player.id);
    let keep = claims_other_id(claimed);
    let make = position_forward_to(claimed, seq_num, position);
    let wanted = goes_to(entries[t].address);
    if j == 0 {
        lemma_filter_start(entries, keep);
        assert(entries.take(0).filter(keep).map_values(make) =~= Seq::<OutboundView>::empty());
        lemma_count_empty(wanted);
    } else {
        let k = j - 1;
        lemma_forwards_count(entries, seq_num, position, a, t, k);
        lemma_filter_map_step(entries, k, keep, make);
        let before = entries.take(k).filter(keep).map_values(make);
        if keep(entries[k]) {
            let forward = position_forward(claimed, seq_num, position, entries[k]);
            lemma_count_push(before, forward, wanted);
            if k < t {
                assert(entries[k].address != entries[t].address);
            } else if t < k {
                assert(entries[t].address != entries[k].address);
            }
        } else {
            lemma_text_of_bytes(entries[k].player.id, entries[a].player.id);
            if k < a {
                assert(entries[k].player.id != entries[a].player.id);
            } else if a < k {
                assert(entries[a].player.id != entries[k].player.id);
            }
        }
    }
}

/// A position update from a registered player that claims the player's own
/// id is accepted. It changes the position of that player and nothing else
/// in the registry; exactly one forwarded update goes to every other
/// player, carrying the new position, and none goes back to the sender.
#[verifier::spinoff_prover]
pub proof fn lemma_position_update_reaches_others(
    before: Seq<EntryView>,
    p: PacketView,
    sender: int,
    other: int,
    after: Seq<EntryView>,
    r: Result<Seq<OutboundView>, ServerError>,
)
    requires
        valid_registry(before),
        0 <= sender < before.len(),
        0 <= other < before.len(),
        other != sender,
        p.client_id == encode_utf8(before[sender].player.id),
        p.payload.len() >= POSITION_LEN,
        position_reaction(before, p, before[sender].address, after, r),
    ensures
        r.is_ok(),
        after == before.update(
            sender,
            EntryView {
                address: before[sender].address,
                player: PlayerView {
                    position: Position::parse(p.payload).unwrap(),
                    ..before[sender].player
                },
            },
        ),
        count(r.unwrap(), goes_to(before[sender].address)) == 0,
        count(r.unwrap(), goes_to(before[other].address)) == 1,
        r.unwrap().contains(
            position_forward(
                p.client_id,
                p.seq_num,
                Position::parse(p.payload).unwrap(),
                before[other],
            ),
        ),
{
    let position = Position::parse(p.payload).unwrap();
    let moved = EntryView {
        address: before[sender].address,
        player: PlayerView { position, ..before[sender].player },
    };
    lemma_slot_is(before, sender);
    lemma_update_keeps_distinct(before, sender, moved);
    assert(distinct_ids(after)) by {
        assert forall|i: int, j: int| 0 <= i < j < after.len() implies (
        #[trigger] after[i]).player.id != (#[trigger] after[j]).player.id by {
            assert(after[i].player.id == before[i].player.id);
            assert(after[j].player.id == before[j].player.id);
        }
    }
    let out = r.unwrap();
    let n = after.len() as int;
    lemma_take_all(after);
    lemma_forwards_count(after, p.seq_num, position, sender, sender, n);
    lemma_forwards_count(after, p.seq_num, position, sender, other, n);
    let keep = claims_other_id(p.client_id);
    let make = position_forward_to(p.client_id, p.seq_num, position);
    assert(keep(after[other])) by {
        if encode_utf8(after[other].player.id) == p.client_id {
            lemma_text_of_bytes(before[other].player.id, before[sender].player.id);
            if other < sender {
                assert(before[other].player.id != before[sender].player.id);
            } else {
                assert(before[sender].player.id != before[other].player.id);
            }
        }
    }
    after.lemma_filter_contains(keep, other);
    let kept = after.filter(keep);
    let m = choose|m: int| 0 <= m < kept.len() && kept[m] == after[other];
    assert(out[m] == make(kept[m]));
}

/// One join: who asked, which id was drawn, and when.
pub struct JoinView {
    pub address: Seq<char>,
    pub id: Seq<char>,
    pub seq_num: u32,
    pub now: u64,
}

/// The entry that a join leaves in the registry.
pub open spec fn joined_entry(j: JoinView) -> EntryView {
    EntryView { address: j.address, player: new_player(j.id, j.seq_num, j.now) }
}

/// The registry after one join: unchanged where the id is refused.
pub open spec fn after_join(entries: Seq<EntryView>, j: JoinView) -> Seq<EntryView> {
    if held_elsewhere(entries, j.address, j.id) {
        entries
    } else {
        with_player(entries, j.address, joined_entry(j).player)
    }
}

/// The registry after the joins were handled one after the other.
pub open spec fn after_joins(entries: Seq<EntryView>, joins: Seq<JoinView>) -> Seq<EntryView>
    decreases joins.len(),
{
    if joins.len() == 0 {
        entries
    } else {
        after_join(after_joins(entries, joins.drop_last()), joins.last())
    }
}

/// What `join_outcome` leaves in the registry is what `after_join` says.
pub proof fn lemma_join_outcome_registry(
    before: Seq<EntryView>,
    j: JoinView,
    after: Seq<EntryView>,
    r: Result<Seq<OutboundView>, ServerError>,
)
    requires
        join_outcome(before, j.address, j.id, j.seq_num, j.now, after, r),
    ensures
        after == after_join(before, j),
{
}

/// Whatever joins are handled, in whatever order, no two players of the
/// registry share an id or an address afterwards.
pub proof fn lemma_joins_keep_valid(entries: Seq<EntryView>, joins: Seq<JoinView>)
    requires
        valid_registry(entries),
    ensures
        valid_registry(after_joins(entries, joins)),
    decreases joins.len(),
{
    if joins.len() > 0 {
        lemma_joins_keep_valid(entries, joins.drop_last());
        let earlier = after_joins(entries, joins.drop_last());
        let last = joins.last();
        if !held_elsewhere(earlier, last.address, last.id) {
            lemma_with_player_valid(earlier, last.address, joined_entry(last).player);
        }
    }
}

/// Joins from addresses that all differ, under ids that all differ, fill an
/// empty registry with one entry for each join, in the order of the joins:
/// as many entries as joins, and no id twice.
pub proof fn lemma_joins_fill_registry(joins: Seq<JoinView>)
    requires
        forall|i: int, j: int|
            0 <= i < j < joins.len() ==> (#[trigger] joins[i]).address != (
            #[trigger] joins[j]).address,
        forall|i: int, j: int|
            0 <= i < j < joins.len() ==> (#[trigger] joins[i]).id != (#[trigger] joins[j]).id,
    ensures
        after_joins(Seq::empty(), joins) == joins.map_values(|j: JoinView| joined_entry(j)),
        after_joins(Seq::empty(), joins).len() == joins.len(),
        valid_registry(after_joins(Seq::empty(), joins)),
    decreases joins.len(),
{
    let made = joins.map_values(|j: JoinView| joined_entry(j));
    lemma_joins_keep_valid(Seq::empty(), joins);
    if joins.len() == 0 {
        assert(after_joins(Seq::empty(), joins) =~= made);
    } else {
        let front = joins.drop_last();
        let last = joins.last();
        assert forall|i: int, j: int| 0 <= i < j < front.len() implies (#[trigger] front[i]).address
            != (#[trigger] front[j]).address by {
            assert(front[i] == joins[i] && front[j] == joins[j]);
        }
        assert forall|i: int, j: int| 0 <= i < j < front.len() implies (#[trigger] front[i]).id != (
        #[trigger] front[j]).id by {
            assert(front[i] == joins[i] && front[j] == joins[j]);
        }
        lemma_joins_fill_registry(front);
        let earlier = after_joins(Seq::empty(), front);
        assert(earlier == front.map_values(|j: JoinView| joined_entry(j)));
        assert(!registered(earlier, last.address)) by {
            if registered(earlier, last.address) {
                let k = slot(earlier, last.address);
                assert(earlier[k].address == joins[k].address);
                assert(joins[k].address != joins[joins.len() - 1].address);
            }
        }
        assert(!held_elsewhere(earlier, last.address, last.id)) by {
            if held_elsewhere(earlier, last.address, last.id) {
                let k = choose|k: int|
                    0 <= k < earlier.len() && (#[trigger] earlier[k]).player.id == last.id
                        && earlier[k].address != last.address;
                assert(earlier[k].player.id == joins[k].id);
                assert(joins[k].id != joins[joins.len() - 1].id);
            }
        }
        let all = earlier.push(joined_entry(last));
        assert(after_joins(Seq::empty(), joins) == all);
        assert(all =~= made);
    }
}

} // verus!
