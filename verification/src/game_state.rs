//! The registry of connected players, keyed by transport address.

use vstd::prelude::*;
use vstd::slice::slice_to_vec;
use vstd::utf8::encode_utf8;
use vstd::utf8::encode_utf8_decode_utf8;

use crate::byte_order::be_bytes;
use crate::byte_order::be_word_at;
use crate::byte_order::lemma_be_word_of_bytes;
use crate::byte_order::push_be_u32;
use crate::byte_order::read_be_u32;
use crate::packet::outbound_views;
use crate::packet::ping::PlayerLeft;
use crate::packet::GamePacket;
use crate::packet::MessageType;
use crate::packet::Outbound;
use crate::packet::OutboundView;
use crate::packet::PacketView;
use crate::packet::PROTOCOL_VERSION;
use crate::sequences::count;
use crate::sequences::lemma_count_add;
use crate::sequences::lemma_count_empty;
use crate::sequences::lemma_count_push;
use crate::sequences::lemma_filter_flat_map_step;
use crate::sequences::lemma_filter_map_step;
use crate::sequences::lemma_filter_start;
use crate::sequences::lemma_filter_step;
use crate::sequences::lemma_take_all;
use crate::text::same_text;

verus! {

/// Seconds between two eviction passes.
pub const CLEANUP_INTERVAL_SECS: u64 = 5;

/// Seconds of silence after which a player is evicted.
pub const PLAYER_TIMEOUT_SECS: u64 = 10;

/// Nanoseconds in a second; timestamps count nanoseconds.
pub const NANOS_PER_SEC: u64 = 1_000_000_000;

/// Nanoseconds of silence after which a player is evicted.
pub const PLAYER_TIMEOUT_NANOS: u64 = 10_000_000_000;

/// Bytes of an encoded position.
pub const POSITION_LEN: usize = 8;

/// A point of the world. Each coordinate is kept as the bit pattern of an
/// IEEE-754 single-precision number, which is also what travels on the wire.
#[derive(Debug, Clone, Copy, PartialEq, Eq, Structural)]
pub struct Position {
    pub x_bits: u32,
    pub y_bits: u32,
}

impl Position {
    /// The eight bytes of a position: `x` then `y`, each big-endian.
    pub open spec fn wire(self) -> Seq<u8> {
        be_bytes(self.x_bits) + be_bytes(self.y_bits)
    }

    /// The position at the start of `bytes`, if there are eight bytes.
    pub open spec fn parse(bytes: Seq<u8>) -> Option<Position> {
        if bytes.len() < POSITION_LEN {
            None
        } else {
            Some(Position { x_bits: be_word_at(bytes, 0), y_bits: be_word_at(bytes, 4) })
        }
    }

    #[must_use]
    pub fn new(x_bits: u32, y_bits: u32) -> (p: Self)
        ensures
            p == (Position { x_bits, y_bits }),
    {
        Position { x_bits, y_bits }
    }

    /// Encodes the position.
    #[must_use]
    pub fn serialize(&self) -> (bytes: Vec<u8>)
        ensures
            bytes@ == self.wire(),
    {
        let mut buf: Vec<u8> = Vec::with_capacity(8);
        push_be_u32(&mut buf, self.x_bits);
        push_be_u32(&mut buf, self.y_bits);
        assert(buf@ =~= self.wire());
        buf
    }

    /// Decodes the position at the start of `data`; bytes after the eighth
    /// are not looked at.
    #[must_use]
    pub fn deserialize(data: &[u8]) -> (r: Option<Position>)
        ensures
            r == Self::parse(data@),
    {
        if data.len() < POSITION_LEN {
            return None;
        }
        let x_bits: u32 = read_be_u32(data, 0);
        let y_bits: u32 = read_be_u32(data, 4);
        Some(Position { x_bits, y_bits })
    }
}

/// Decoding an encoded position gives the position back, whatever follows it.
pub proof fn lemma_position_round_trip(p: Position, rest: Seq<u8>)
    ensures
        p.wire().len() == POSITION_LEN,
        Position::parse(p.wire() + rest) == Some(p),
{
    lemma_be_word_of_bytes(p.x_bits);
    lemma_be_word_of_bytes(p.y_bits);
    let bytes = p.wire() + rest;
    let xs = be_bytes(p.x_bits);
    let ys = be_bytes(p.y_bits);
    assert(bytes[0] == xs[0] && bytes[1] == xs[1] && bytes[2] == xs[2] && bytes[3] == xs[3]);
    assert(bytes[4] == ys[0] && bytes[5] == ys[1] && bytes[6] == ys[2] && bytes[7] == ys[3]);
}

/// A player as a mathematical value.
pub struct PlayerView {
    pub id: Seq<char>,
    pub seq_num: u32,
    pub position: Position,
    pub heartbeat: u64,
}

/// One connected client.
///
/// `heartbeat` is the time the client was last heard from, in nanoseconds on
/// a clock that never runs backwards.
#[derive(Debug)]
pub struct Player {
    pub id: String,
    pub seq_num: u32,
    pub position: Position,
    pub heartbeat: u64,
}

impl View for Player {
    type V = PlayerView;

    open spec fn view(&self) -> PlayerView {
        PlayerView {
            id: self.id@,
            seq_num: self.seq_num,
            position: self.position,
            heartbeat: self.heartbeat,
        }
    }
}

impl Clone for Player {
    fn clone(&self) -> (p: Self)
        ensures
            p@ == self@,
    {
        Player {
            id: self.id.clone(),
            seq_num: self.seq_num,
            position: self.position,
            heartbeat: self.heartbeat,
        }
    }
}

/// The players of a list, each as a mathematical value.
pub open spec fn player_views(players: Seq<Player>) -> Seq<PlayerView> {
    players.map_values(|p: Player| p@)
}

/// A registry entry as a mathematical value.
pub struct EntryView {
    pub address: Seq<char>,
    pub player: PlayerView,
}

/// A player together with the address it is reached at.
#[derive(Debug)]
pub struct PlayerEntry {
    pub address: String,
    pub player: Player,
}

impl View for PlayerEntry {
    type V = EntryView;

    open spec fn view(&self) -> EntryView {
        EntryView { address: self.address@, player: self.player@ }
    }
}

impl Clone for PlayerEntry {
    fn clone(&self) -> (e: Self)
        ensures
            e@ == self@,
    {
        PlayerEntry { address: self.address.clone(), player: self.player.clone() }
    }
}

/// The entries of a list, each as a mathematical value.
pub open spec fn entry_views(entries: Seq<PlayerEntry>) -> Seq<EntryView> {
    entries.map_values(|e: PlayerEntry| e@)
}

/// No address occurs twice.
pub open spec fn distinct_addresses(entries: Seq<EntryView>) -> bool {
    forall|i: int, j: int|
        0 <= i < j < entries.len() ==> (#[trigger] entries[i]).address != (
        #[trigger] entries[j]).address
}

/// No player id occurs twice.
pub open spec fn distinct_ids(entries: Seq<EntryView>) -> bool {
    forall|i: int, j: int|
        0 <= i < j < entries.len() ==> (#[trigger] entries[i]).player.id != (
        #[trigger] entries[j]).player.id
}

/// What a registry has to be: no address and no player id occurs twice.
pub open spec fn valid_registry(entries: Seq<EntryView>) -> bool {
    distinct_addresses(entries) && distinct_ids(entries)
}

/// Some player at another address than `address` has the id `id`.
pub open spec fn held_elsewhere(entries: Seq<EntryView>, address: Seq<char>, id: Seq<char>) -> bool {
    exists|i: int|
        0 <= i < entries.len() && (#[trigger] entries[i]).player.id == id && entries[i].address
            != address
}

/// Some entry has this address.
pub open spec fn registered(entries: Seq<EntryView>, address: Seq<char>) -> bool {
    exists|i: int| 0 <= i < entries.len() && (#[trigger] entries[i]).address == address
}

/// Where the entry with this address stands, when there is one.
pub open spec fn slot(entries: Seq<EntryView>, address: Seq<char>) -> int {
    choose|i: int| 0 <= i < entries.len() && (#[trigger] entries[i]).address == address
}

/// Among distinct addresses, an entry's address leads back to its place.
pub proof fn lemma_slot_is(entries: Seq<EntryView>, i: int)
    requires
        distinct_addresses(entries),
        0 <= i < entries.len(),
    ensures
        registered(entries, entries[i].address),
        slot(entries, entries[i].address) == i,
{
    let j = slot(entries, entries[i].address);
    assert(0 <= j < entries.len() && entries[j].address == entries[i].address);
    if j < i {
        assert(entries[j].address != entries[i].address);
    } else if i < j {
        assert(entries[i].address != entries[j].address);
    }
}

/// The registry after `player` is put at `address`: in the place of the
/// entry that had the address, or else behind all others.
pub open spec fn with_player(entries: Seq<EntryView>, address: Seq<char>, player: PlayerView) -> Seq<
    EntryView,
> {
    let entry = EntryView { address, player };
    if registered(entries, address) {
        entries.update(slot(entries, address), entry)
    } else {
        entries.push(entry)
    }
}

/// The registry without the entry at `address`.
pub open spec fn without_address(entries: Seq<EntryView>, address: Seq<char>) -> Seq<EntryView> {
    if registered(entries, address) {
        entries.remove(slot(entries, address))
    } else {
        entries
    }
}

/// The player at another position.
pub open spec fn moved_to(player: PlayerView, position: Position) -> PlayerView {
    PlayerView {
        id: player.id,
        seq_num: player.seq_num,
        position,
        heartbeat: player.heartbeat,
    }
}

/// The player with another time of last contact.
pub open spec fn heard_at(player: PlayerView, now: u64) -> PlayerView {
    PlayerView {
        id: player.id,
        seq_num: player.seq_num,
        position: player.position,
        heartbeat: now,
    }
}

/// The registry after the player at `address`, if any, moved to `position`.
pub open spec fn with_position(entries: Seq<EntryView>, address: Seq<char>, position: Position) -> Seq<
    EntryView,
> {
    if registered(entries, address) {
        let i = slot(entries, address);
        entries.update(
            i,
            EntryView { address, player: moved_to(entries[i].player, position) },
        )
    } else {
        entries
    }
}

/// The registry after the player at `address`, if any, was heard from at `now`.
pub open spec fn with_heartbeat(entries: Seq<EntryView>, address: Seq<char>, now: u64) -> Seq<
    EntryView,
> {
    if registered(entries, address) {
        let i = slot(entries, address);
        entries.update(
            i,
            EntryView { address, player: heard_at(entries[i].player, now) },
        )
    } else {
        entries
    }
}

/// Selects the entries whose player has another id than `id`.
pub open spec fn has_other_id(id: Seq<char>) -> spec_fn(EntryView) -> bool {
    |e: EntryView| e.player.id != id
}

/// Takes the player out of an entry.
pub open spec fn player_of() -> spec_fn(EntryView) -> PlayerView {
    |e: EntryView| e.player
}

/// The players with another id than `id`, in the order of the registry.
pub open spec fn others(entries: Seq<EntryView>, id: Seq<char>) -> Seq<PlayerView> {
    entries.filter(has_other_id(id)).map_values(player_of())
}

/// Whether a player last heard from at `heartbeat` has been silent for more
/// than the timeout at `now`. A heartbeat that lies ahead of `now` counts as
/// no silence at all.
pub open spec fn expired(heartbeat: u64, now: u64) -> bool {
    now > heartbeat && now - heartbeat > PLAYER_TIMEOUT_NANOS
}

/// Selects the entries that have expired at `now`.
pub open spec fn is_expired_at(now: u64) -> spec_fn(EntryView) -> bool {
    |e: EntryView| expired(e.player.heartbeat, now)
}

/// Selects the entries that have not expired at `now`.
pub open spec fn is_alive_at(now: u64) -> spec_fn(EntryView) -> bool {
    |e: EntryView| !expired(e.player.heartbeat, now)
}

/// Selects the entries at another address than `address`.
pub open spec fn at_other_address(address: Seq<char>) -> spec_fn(EntryView) -> bool {
    |e: EntryView| e.address != address
}

/// The notice that tells `target` that `leaver` has left: addressed to the
/// target by address and by id, carrying the leaver's id.
pub open spec fn departure_notice(leaver: EntryView, target: EntryView) -> OutboundView {
    OutboundView {
        destination: target.address,
        packet: PacketView {
            msg_type: MessageType::PlayerLeft,
            version: PROTOCOL_VERSION,
            client_id: encode_utf8(target.player.id),
            seq_num: 0,
            payload: encode_utf8(leaver.player.id),
        },
    }
}

/// Makes the notice about `leaver` for a target.
pub open spec fn notice_about(leaver: EntryView) -> spec_fn(EntryView) -> OutboundView {
    |target: EntryView| departure_notice(leaver, target)
}

/// The notices about one leaver: one to each entry at another address, in
/// the order of the registry.
pub open spec fn departure_notices(entries: Seq<EntryView>, leaver: EntryView) -> Seq<
    OutboundView,
> {
    entries.filter(at_other_address(leaver.address)).map_values(notice_about(leaver))
}

/// Makes the notices about a leaver among `entries`.
pub open spec fn notices_among(entries: Seq<EntryView>) -> spec_fn(EntryView) -> Seq<
    OutboundView,
> {
    |leaver: EntryView| departure_notices(entries, leaver)
}

/// All notices of one eviction pass at `now`: for each expired entry in
/// turn, the notices about it to everyone else who is registered when the
/// pass begins, expired or not.
pub open spec fn cleanup_notices(entries: Seq<EntryView>, now: u64) -> Seq<OutboundView> {
    entries.filter(is_expired_at(now)).map_values(notices_among(entries)).flatten()
}

/// The registry after an eviction pass at `now`.
pub open spec fn survivors(entries: Seq<EntryView>, now: u64) -> Seq<EntryView> {
    entries.filter(is_alive_at(now))
}

/// A selection of entries with distinct addresses has distinct addresses,
/// and registers no address that was not registered.
pub proof fn lemma_filter_keeps_distinct(entries: Seq<EntryView>, keep: spec_fn(EntryView) -> bool)
    requires
        distinct_addresses(entries),
    ensures
        distinct_addresses(entries.filter(keep)),
        forall|a: Seq<char>| registered(entries.filter(keep), a) ==> registered(entries, a),
    decreases entries.len(),
{
    reveal(Seq::filter);
    if entries.len() > 0 {
        let front = entries.drop_last();
        let last = entries.last();
        assert forall|i: int, j: int| 0 <= i < j < front.len() implies (#[trigger] front[i]).address
            != (#[trigger] front[j]).address by {
            assert(front[i] == entries[i] && front[j] == entries[j]);
        }
        lemma_filter_keeps_distinct(front, keep);
        let kept = front.filter(keep);
        assert forall|a: Seq<char>| registered(kept, a) implies registered(entries, a) by {
            assert(registered(front, a));
            let k = slot(front, a);
            assert(entries[k] == front[k]);
        }
        if keep(last) {
            if registered(kept, last.address) {
                assert(registered(front, last.address));
                let k = slot(front, last.address);
                assert(entries[k] == front[k]);
                assert(entries[k].address != entries[entries.len() - 1].address);
            }
            lemma_push_keeps_distinct(kept, last);
            let all = kept.push(last);
            assert forall|a: Seq<char>| registered(all, a) implies registered(entries, a) by {
                let k = slot(all, a);
                if k == kept.len() {
                    assert(entries[entries.len() - 1].address == a);
                } else {
                    assert(kept[k] == all[k]);
                    assert(registered(kept, a));
                }
            }
        }
    }
}

/// The players of the world and its size.
///
/// Entries keep the order in which their addresses first joined. No address
/// has two entries.
pub struct GameState {
    players: Vec<PlayerEntry>,
    width: u32,
    height: u32,
}

impl View for GameState {
    type V = Seq<EntryView>;

    closed spec fn view(&self) -> Seq<EntryView> {
        entry_views(self.players@)
    }
}

impl GameState {
    /// No address has two entries and no player id has two. Every
    /// operation keeps a registry so; `add_player` leaves it to the caller
    /// to bring an id that no other player has.
    pub open spec fn wf(&self) -> bool {
        valid_registry(self@)
    }

    /// The width of the world.
    pub closed spec fn spec_width(&self) -> u32 {
        self.width
    }

    /// The height of the world.
    pub closed spec fn spec_height(&self) -> u32 {
        self.height
    }

    /// An empty world of the given size.
    #[must_use]
    pub fn new(width: u32, height: u32) -> (s: Self)
        ensures
            s.wf(),
            s@ == Seq::<EntryView>::empty(),
            s.spec_width() == width,
            s.spec_height() == height,
    {
        let s = GameState { players: Vec::new(), width, height };
        assert(s@ =~= Seq::<EntryView>::empty());
        s
    }

    /// Where the entry with this address stands.
    fn find(&self, address: &str) -> (r: Option<usize>)
        requires
            self.wf(),
        ensures
            r.is_some() <==> registered(self@, address@),
            r.is_some() ==> r.unwrap() == slot(self@, address@) && r.unwrap() < self.players@.len(),
    {
        let mut i: usize = 0;
        while i < self.players.len()
            invariant
                0 <= i <= self.players@.len(),
                distinct_addresses(self@),
                self@ == entry_views(self.players@),
                forall|k: int| 0 <= k < i ==> (#[trigger] self@[k]).address != address@,
            decreases self.players@.len() - i,
        {
            if same_text(self.players[i].address.as_str(), address) {
                proof {
                    assert(self@[i as int].address == address@);
                    lemma_slot_is(self@, i as int);
                }
                return Some(i);
            }
            i = i + 1;
        }
        None
    }

    /// Whether some player at another address than `address` has the id `id`.
    #[must_use]
    pub fn id_held_elsewhere(&self, id: &str, address: &str) -> (r: bool)
        ensures
            r == held_elsewhere(self@, address@, id@),
    {
        let mut i: usize = 0;
        while i < self.players.len()
            invariant
                0 <= i <= self.players@.len(),
                self@ == entry_views(self.players@),
                forall|k: int|
                    0 <= k < i ==> !((#[trigger] self@[k]).player.id == id@ && self@[k].address
                        != address@),
            decreases self.players@.len() - i,
        {
            let entry = &self.players[i];
            if same_text(entry.player.id.as_str(), id) && !same_text(
                entry.address.as_str(),
                address,
            ) {
                assert(self@[i as int].player.id == id@ && self@[i as int].address != address@);
                return true;
            }
            i = i + 1;
        }
        false
    }

    /// Puts `player` at `address`, in place of whoever was there. The
    /// registry does not look at the id: the caller brings one that no
    /// player at another address has.
    pub fn add_player(&mut self, player: Player, address: String)
        requires
            old(self).wf(),
            !held_elsewhere(old(self)@, address@, player.id@),
        ensures
            final(self).wf(),
            final(self)@ == with_player(old(self)@, address@, player@),
            final(self).spec_width() == old(self).spec_width(),
            final(self).spec_height() == old(self).spec_height(),
    {
        let found = self.find(address.as_str());
        let ghost before = self@;
        let ghost entry = EntryView { address: address@, player: player@ };
        match found {
            Some(i) => {
                self.players.set(i, PlayerEntry { address, player });
                proof {
                    assert(self@ =~= before.update(i as int, entry));
                    lemma_with_player_valid(before, entry.address, entry.player);
                }
            },
            None => {
                self.players.push(PlayerEntry { address, player });
                proof {
                    assert(self@ =~= before.push(entry));
                    lemma_with_player_valid(before, entry.address, entry.player);
                }
            },
        }
    }

    /// Deletes the entry at `address`, if there is one.
    pub fn remove_player(&mut self, address: &str)
        requires
            old(self).wf(),
        ensures
            final(self).wf(),
            final(self)@ == without_address(old(self)@, address@),
            final(self).spec_width() == old(self).spec_width(),
            final(self).spec_height() == old(self).spec_height(),
    {
        let found = self.find(address);
        let ghost before = self@;
        if let Some(i) = found {
            let _ = self.players.remove(i);
            proof {
                assert(self@ =~= before.remove(i as int));
                lemma_without_address_valid(before, address@);
            }
        }
    }

    /// Moves the player at `address`, if there is one, to `new_position`.
    pub fn update_player_position(&mut self, address: &str, new_position: Position)
        requires
            old(self).wf(),
        ensures
            final(self).wf(),
            final(self)@ == with_position(old(self)@, address@, new_position),
            final(self).spec_width() == old(self).spec_width(),
            final(self).spec_height() == old(self).spec_height(),
    {
        let found = self.find(address);
        let ghost before = self@;
        if let Some(i) = found {
            let mut entry = self.players[i].clone();
            entry.player.position = new_position;
            let ghost moved = entry@;
            self.players.set(i, entry);
            proof {
                assert(self@ =~= before.update(i as int, moved));
                lemma_with_position_valid(before, address@, new_position);
            }
        }
    }

    /// Records that the player at `address`, if there is one, was heard from
    /// at `now`.
    pub fn touch_heartbeat(&mut self, address: &str, now: u64)
        requires
            old(self).wf(),
        ensures
            final(self).wf(),
            final(self)@ == with_heartbeat(old(self)@, address@, now),
            final(self).spec_width() == old(self).spec_width(),
            final(self).spec_height() == old(self).spec_height(),
    {
        let found = self.find(address);
        let ghost before = self@;
        if let Some(i) = found {
            let mut entry = self.players[i].clone();
            entry.player.heartbeat = now;
            let ghost touched = entry@;
            self.players.set(i, entry);
            proof {
                assert(self@ =~= before.update(i as int, touched));
                lemma_with_heartbeat_valid(before, address@, now);
            }
        }
    }

    /// A copy of every player whose id is not `excluding_id`.
    #[must_use]
    pub fn snapshot_others(&self, excluding_id: &str) -> (players: Vec<Player>)
        ensures
            player_views(players@) == others(self@, excluding_id@),
    {
        let ghost entries = self@;
        let ghost keep = has_other_id(excluding_id@);
        let mut players: Vec<Player> = Vec::new();
        let mut i: usize = 0;
        proof {
            lemma_filter_start(entries, keep);
            assert(player_views(players@) =~= Seq::<PlayerView>::empty());
            assert(entries.take(0).filter(keep).map_values(player_of()) =~= Seq::<
                PlayerView,
            >::empty());
        }
        while i < self.players.len()
            invariant
                0 <= i <= self.players@.len(),
                entries == entry_views(self.players@),
                keep == has_other_id(excluding_id@),
                player_views(players@) == entries.take(i as int).filter(keep).map_values(
                    player_of(),
                ),
            decreases self.players@.len() - i,
        {
            let entry = &self.players[i];
            proof {
                lemma_filter_map_step(entries, i as int, keep, player_of());
            }
            if !same_text(entry.player.id.as_str(), excluding_id) {
                let ghost before = player_views(players@);
                players.push(entry.player.clone());
                assert(player_views(players@) =~= before.push(entries[i as int].player));
            }
            i = i + 1;
        }
        proof {
            lemma_take_all(entries);
        }
        players
    }

    /// One eviction pass at `now`. Every player silent for more than the
    /// timeout is announced to all others and then removed; the notices are
    /// made before anyone is removed, so they also go to players that the
    /// same pass removes.
    pub fn cleanup_inactive_players(&mut self, now: u64) -> (notices: Vec<Outbound>)
        requires
            old(self).wf(),
        ensures
            final(self).wf(),
            outbound_views(notices@) == cleanup_notices(old(self)@, now),
            final(self)@ == survivors(old(self)@, now),
            final(self).spec_width() == old(self).spec_width(),
            final(self).spec_height() == old(self).spec_height(),
    {
        let ghost entries = self@;
        let notices = self.departure_notices_at(now);
        let mut kept: Vec<PlayerEntry> = Vec::new();
        let mut i: usize = 0;
        proof {
            lemma_filter_start(entries, is_alive_at(now));
        }
        while i < self.players.len()
            invariant
                0 <= i <= self.players@.len(),
                entries == entry_views(self.players@),
                entry_views(kept@) == entries.take(i as int).filter(is_alive_at(now)),
            decreases self.players@.len() - i,
        {
            let entry = &self.players[i];
            proof {
                lemma_filter_step(entries, i as int, is_alive_at(now));
            }
            if !(now > entry.player.heartbeat && now - entry.player.heartbeat
                > PLAYER_TIMEOUT_NANOS) {
                let ghost before = entry_views(kept@);
                kept.push(entry.clone());
                assert(entry_views(kept@) =~= before.push(entries[i as int]));
            }
            i = i + 1;
        }
        proof {
            lemma_take_all(entries);
            lemma_filter_keeps_valid(entries, is_alive_at(now));
        }
        self.players = kept;
        notices
    }

    /// The notices of an eviction pass at `now`.
    fn departure_notices_at(&self, now: u64) -> (notices: Vec<Outbound>)
        ensures
            outbound_views(notices@) == cleanup_notices(self@, now),
    {
        let ghost entries = self@;
        let mut notices: Vec<Outbound> = Vec::new();
        let mut i: usize = 0;
        proof {
            lemma_filter_start(entries, is_expired_at(now));
            assert(outbound_views(notices@) =~= Seq::<OutboundView>::empty());
        }
        while i < self.players.len()
            invariant
                0 <= i <= self.players@.len(),
                entries == entry_views(self.players@),
                outbound_views(notices@) == entries.take(i as int).filter(
                    is_expired_at(now),
                ).map_values(notices_among(entries)).flatten(),
            decreases self.players@.len() - i,
        {
            let leaver = &self.players[i];
            proof {
                lemma_filter_flat_map_step(
                    entries,
                    i as int,
                    is_expired_at(now),
                    notices_among(entries),
                );
            }
            if now > leaver.player.heartbeat && now - leaver.player.heartbeat
                > PLAYER_TIMEOUT_NANOS {
                let mut about = self.departure_notices_about(leaver);
                let ghost before = outbound_views(notices@);
                let ghost added = outbound_views(about@);
                notices.append(&mut about);
                assert(outbound_views(notices@) =~= before + added);
            }
            i = i + 1;
        }
        proof {
            lemma_take_all(entries);
        }
        notices
    }

    /// The notices that tell everyone at another address that `leaver` left.
    fn departure_notices_about(&self, leaver: &PlayerEntry) -> (notices: Vec<Outbound>)
        ensures
            outbound_views(notices@) == departure_notices(self@, leaver@),
    {
        let ghost entries = self@;
        let ghost others = at_other_address(leaver@.address);
        let ghost make = notice_about(leaver@);
        let player_left_payload = PlayerLeft::new(leaver.player.id.clone());
        let mut notices: Vec<Outbound> = Vec::new();
        let mut j: usize = 0;
        proof {
            lemma_filter_start(entries, others);
            assert(outbound_views(notices@) =~= Seq::<OutboundView>::empty());
            assert(entries.take(0).filter(others).map_values(make) =~= Seq::<
                OutboundView,
            >::empty());
        }
        while j < self.players.len()
            invariant
                0 <= j <= self.players@.len(),
                entries == entry_views(self.players@),
                others == at_other_address(leaver@.address),
                make == notice_about(leaver@),
                player_left_payload.player_id@ == leaver@.player.id,
                outbound_views(notices@) == entries.take(j as int).filter(others).map_values(make),
            decreases self.players@.len() - j,
        {
            let target = &self.players[j];
            proof {
                lemma_filter_map_step(entries, j as int, others, make);
            }
            if !same_text(target.address.as_str(), leaver.address.as_str()) {
                let packet = GamePacket::new(
                    MessageType::PlayerLeft,
                    0,
                    player_left_payload.serialize(),
                    slice_to_vec(target.player.id.as_str().as_bytes()),
                );
                let ghost before = outbound_views(notices@);
                let notice = Outbound { destination: target.address.clone(), packet };
                assert(notice@ == departure_notice(leaver@, entries[j as int]));
                notices.push(notice);
                assert(outbound_views(notices@) =~= before.push(
                    departure_notice(leaver@, entries[j as int]),
                ));
            }
            j = j + 1;
        }
        proof {
            lemma_take_all(entries);
        }
        notices
    }

    /// The player at `address`.
    #[must_use]
    pub fn get_player(&self, address: &str) -> (r: Option<&Player>)
        requires
            self.wf(),
        ensures
            r.is_some() <==> registered(self@, address@),
            r.is_some() ==> r.unwrap()@ == self@[slot(self@, address@)].player,
    {
        match self.find(address) {
            Some(i) => Some(&self.players[i].player),
            None => None,
        }
    }

    /// The player at `address`, to be changed in place. The entry keeps its
    /// address whatever the caller writes; the registry stays well formed
    /// as long as the caller writes no id that another player has.
    #[must_use]
    #[verifier::spinoff_prover]
    pub fn get_player_mut(&mut self, address: &str) -> (r: Option<&mut Player>)
        requires
            old(self).wf(),
        ensures
            r.is_some() <==> registered(old(self)@, address@),
            match r {
                Some(p) => (*p)@ == old(self)@[slot(old(self)@, address@)].player,
                None => true,
            },
            match r {
                Some(p) => final(self)@ == old(self)@.update(
                    slot(old(self)@, address@),
                    EntryView { address: address@, player: (*final(p))@ },
                ),
                None => final(self)@ == old(self)@,
            },
            match r {
                Some(p) => final(self)@ == with_player(old(self)@, address@, (*final(p))@),
                None => true,
            },
            // With the clause before: the registry stays well formed unless
            // the caller writes an id that a player at another address has.
            match r {
                Some(p) => final(self)@ == with_player(old(self)@, address@, (*final(p))@)
                    && !held_elsewhere(old(self)@, address@, (*final(p))@.id)
                    ==> final(self).wf(),
                None => final(self).wf(),
            },
            final(self).spec_width() == old(self).spec_width(),
            final(self).spec_height() == old(self).spec_height(),
    {
        let ghost before = self@;
        match self.find(address) {
            Some(i) => {
                proof {
                    assert forall|player: PlayerView|
                        !held_elsewhere(before, address@, player.id) implies valid_registry(
                        #[trigger] with_player(before, address@, player),
                    ) by {
                        lemma_with_player_valid(before, address@, player);
                    }
                    assert forall|player: PlayerView| #[trigger]
                        with_player(before, address@, player) == before.update(
                            i as int,
                            EntryView { address: address@, player },
                        ) by {}
                    assert forall|player: Player| #[trigger]
                        entry_views(
                            self.players@.update(
                                i as int,
                                PlayerEntry { address: self.players@[i as int].address, player },
                            ),
                        ) == before.update(
                            i as int,
                            EntryView { address: address@, player: player@ },
                        ) by {
                        assert(entry_views(
                            self.players@.update(
                                i as int,
                                PlayerEntry { address: self.players@[i as int].address, player },
                            ),
                        ) =~= before.update(
                            i as int,
                            EntryView { address: address@, player: player@ },
                        ));
                    }
                }
                Some(&mut self.players[i].player)
            },
            None => None,
        }
    }

    /// Where the player at `address` is.
    #[must_use]
    pub fn get_player_position(&self, address: &str) -> (r: Option<&Position>)
        requires
            self.wf(),
        ensures
            r.is_some() <==> registered(self@, address@),
            r.is_some() ==> *r.unwrap() == self@[slot(self@, address@)].player.position,
    {
        match self.find(address) {
            Some(i) => Some(&self.players[i].player.position),
            None => None,
        }
    }

    /// The position of the player at `address`, to be changed in place.
    #[must_use]
    #[verifier::spinoff_prover]
    pub fn get_player_position_mut(&mut self, address: &str) -> (r: Option<&mut Position>)
        requires
            old(self).wf(),
        ensures
            r.is_some() <==> registered(old(self)@, address@),
            match r {
                Some(p) => *p == old(self)@[slot(old(self)@, address@)].player.position,
                None => true,
            },
            match r {
                Some(p) => final(self)@ == old(self)@.update(
                    slot(old(self)@, address@),
                    EntryView {
                        address: address@,
                        player: moved_to(old(self)@[slot(old(self)@, address@)].player, *final(p)),
                    },
                ),
                None => final(self)@ == old(self)@,
            },
            match r {
                Some(p) => final(self)@ == with_position(old(self)@, address@, *final(p)),
                None => true,
            },
            // With the clause before: the registry stays well formed whatever
            // position the caller writes.
            match r {
                Some(p) => final(self)@ == with_position(old(self)@, address@, *final(p))
                    ==> final(self).wf(),
                None => final(self).wf(),
            },
            final(self).spec_width() == old(self).spec_width(),
            final(self).spec_height() == old(self).spec_height(),
    {
        let ghost before = self@;
        match self.find(address) {
            Some(i) => {
                proof {
                    assert forall|position: Position|
                        valid_registry(#[trigger] with_position(before, address@, position)) by {
                        lemma_with_position_valid(before, address@, position);
                    }
                    assert forall|position: Position| #[trigger]
                        with_position(before, address@, position) == before.update(
                            i as int,
                            EntryView {
                                address: address@,
                                player: moved_to(before[i as int].player, position),
                            },
                        ) by {}
                    assert forall|position: Position| #[trigger]
                        entry_views(
                            self.players@.update(
                                i as int,
                                PlayerEntry {
                                    address: self.players@[i as int].address,
                                    player: Player {
                                        id: self.players@[i as int].player.id,
                                        seq_num: self.players@[i as int].player.seq_num,
                                        position,
                                        heartbeat: self.players@[i as int].player.heartbeat,
                                    },
                                },
                            ),
                        ) == before.update(
                            i as int,
                            EntryView {
                                address: address@,
                                player: moved_to(before[i as int].player, position),
                            },
                        ) by {
                        assert(entry_views(
                            self.players@.update(
                                i as int,
                                PlayerEntry {
                                    address: self.players@[i as int].address,
                                    player: Player {
                                        id: self.players@[i as int].player.id,
                                        seq_num: self.players@[i as int].player.seq_num,
                                        position,
                                        heartbeat: self.players@[i as int].player.heartbeat,
                                    },
                                },
                            ),
                        ) =~= before.update(
                            i as int,
                            EntryView {
                                address: address@,
                                player: moved_to(before[i as int].player, position),
                            },
                        ));
                    }
                }
                Some(&mut self.players[i].player.position)
            },
            None => None,
        }
    }

    /// How many players are registered.
    #[must_use]
    pub fn get_player_count(&self) -> (n: usize)
        ensures
            n == self@.len(),
    {
        self.players.len()
    }

    /// The entries, oldest address first.
    #[must_use]
    pub fn get_players(&self) -> (entries: &Vec<PlayerEntry>)
        ensures
            entry_views(entries@) == self@,
    {
        &self.players
    }

    #[must_use]
    pub fn get_width(&self) -> (w: u32)
        ensures
            w == self.spec_width(),
    {
        self.width
    }

    #[must_use]
    pub fn get_height(&self) -> (h: u32)
        ensures
            h == self.spec_height(),
    {
        self.height
    }
}

impl Default for GameState {
    /// An empty world of 1920 by 1080.
    fn default() -> (s: Self)
        ensures
            s.wf(),
            s@ == Seq::<EntryView>::empty(),
            s.spec_width() == 1920,
            s.spec_height() == 1080,
    {
        GameState::new(1920, 1080)
    }
}

/// Taking an entry out keeps addresses distinct.
pub proof fn lemma_remove_keeps_distinct(entries: Seq<EntryView>, i: int)
    requires
        distinct_addresses(entries),
        0 <= i < entries.len(),
    ensures
        distinct_addresses(entries.remove(i)),
        !registered(entries.remove(i), entries[i].address),
{
    let after = entries.remove(i);
    assert forall|a: int, b: int| 0 <= a < b < after.len() implies (#[trigger] after[a]).address != (
    #[trigger] after[b]).address by {
        let a0 = if a < i { a } else { a + 1 };
        let b0 = if b < i { b } else { b + 1 };
        assert(after[a] == entries[a0]);
        assert(after[b] == entries[b0]);
    }
    assert forall|k: int| 0 <= k < after.len() implies (#[trigger] after[k]).address
        != entries[i].address by {
        let k0 = if k < i { k } else { k + 1 };
        assert(after[k] == entries[k0]);
        if k0 < i {
            assert(entries[k0].address != entries[i].address);
        } else {
            assert(entries[i].address != entries[k0].address);
        }
    }
}

/// Replacing an entry by one with the same address keeps addresses distinct.
pub proof fn lemma_update_keeps_distinct(entries: Seq<EntryView>, i: int, entry: EntryView)
    requires
        distinct_addresses(entries),
        0 <= i < entries.len(),
        entries[i].address == entry.address,
    ensures
        distinct_addresses(entries.update(i, entry)),
{
    let after = entries.update(i, entry);
    assert forall|a: int, b: int| 0 <= a < b < after.len() implies (#[trigger] after[a]).address != (
    #[trigger] after[b]).address by {
        assert(after[a].address == entries[a].address);
        assert(after[b].address == entries[b].address);
    }
}

/// Adding an entry with an address that is not registered keeps addresses
/// distinct.
pub proof fn lemma_push_keeps_distinct(entries: Seq<EntryView>, entry: EntryView)
    requires
        distinct_addresses(entries),
        !registered(entries, entry.address),
    ensures
        distinct_addresses(entries.push(entry)),
{
    let after = entries.push(entry);
    assert forall|a: int, b: int| 0 <= a < b < after.len() implies (#[trigger] after[a]).address != (
    #[trigger] after[b]).address by {
        if b == entries.len() {
            assert(after[a] == entries[a]);
        } else {
            assert(after[a] == entries[a]);
            assert(after[b] == entries[b]);
        }
    }
}

/// An entry's own id is held by nobody at another address.
pub proof fn lemma_own_id_free(entries: Seq<EntryView>, i: int)
    requires
        valid_registry(entries),
        0 <= i < entries.len(),
    ensures
        !held_elsewhere(entries, entries[i].address, entries[i].player.id),
{
    if held_elsewhere(entries, entries[i].address, entries[i].player.id) {
        let k = choose|k: int|
            0 <= k < entries.len() && (#[trigger] entries[k]).player.id == entries[i].player.id
                && entries[k].address != entries[i].address;
        if k < i {
            assert(entries[k].player.id != entries[i].player.id);
        } else if i < k {
            assert(entries[i].player.id != entries[k].player.id);
        }
    }
}

/// Putting a player at an address keeps the registry valid, if nobody at
/// another address has the player's id.
pub proof fn lemma_with_player_valid(
    entries: Seq<EntryView>,
    address: Seq<char>,
    player: PlayerView,
)
    requires
        valid_registry(entries),
        !held_elsewhere(entries, address, player.id),
    ensures
        valid_registry(with_player(entries, address, player)),
{
    let entry = EntryView { address, player };
    let after = with_player(entries, address, player);
    if registered(entries, address) {
        let i = slot(entries, address);
        lemma_update_keeps_distinct(entries, i, entry);
        assert forall|a: int, b: int| 0 <= a < b < after.len() implies (
        #[trigger] after[a]).player.id != (#[trigger] after[b]).player.id by {
            if a == i {
                assert(after[b] == entries[b]);
                assert(entries[i].address != entries[b].address);
            } else if b == i {
                assert(after[a] == entries[a]);
                assert(entries[a].address != entries[i].address);
            } else {
                assert(after[a] == entries[a] && after[b] == entries[b]);
            }
        }
    } else {
        lemma_push_keeps_distinct(entries, entry);
        assert forall|a: int, b: int| 0 <= a < b < after.len() implies (
        #[trigger] after[a]).player.id != (#[trigger] after[b]).player.id by {
            assert(after[a] == entries[a]);
            if b == entries.len() {
                assert(entries[a].address != address);
            } else {
                assert(after[b] == entries[b]);
            }
        }
    }
}

/// Moving a player keeps the registry valid.
pub proof fn lemma_with_position_valid(
    entries: Seq<EntryView>,
    address: Seq<char>,
    position: Position,
)
    requires
        valid_registry(entries),
    ensures
        valid_registry(with_position(entries, address, position)),
{
    if registered(entries, address) {
        let i = slot(entries, address);
        lemma_own_id_free(entries, i);
        let player = moved_to(entries[i].player, position);
        lemma_with_player_valid(entries, address, player);
    }
}

/// Recording a heartbeat keeps the registry valid.
pub proof fn lemma_with_heartbeat_valid(entries: Seq<EntryView>, address: Seq<char>, now: u64)
    requires
        valid_registry(entries),
    ensures
        valid_registry(with_heartbeat(entries, address, now)),
{
    if registered(entries, address) {
        let i = slot(entries, address);
        lemma_own_id_free(entries, i);
        let player = heard_at(entries[i].player, now);
        lemma_with_player_valid(entries, address, player);
    }
}

/// Deleting an entry keeps the registry valid.
pub proof fn lemma_without_address_valid(entries: Seq<EntryView>, address: Seq<char>)
    requires
        valid_registry(entries),
    ensures
        valid_registry(without_address(entries, address)),
{
    if registered(entries, address) {
        let i = slot(entries, address);
        lemma_remove_keeps_distinct(entries, i);
        let after = entries.remove(i);
        assert forall|a: int, b: int| 0 <= a < b < after.len() implies (
        #[trigger] after[a]).player.id != (#[trigger] after[b]).player.id by {
            let a0 = if a < i { a } else { a + 1 };
            let b0 = if b < i { b } else { b + 1 };
            assert(after[a] == entries[a0]);
            assert(after[b] == entries[b0]);
        }
    }
}

/// Some entry has this id.
pub open spec fn holds_id(entries: Seq<EntryView>, id: Seq<char>) -> bool {
    exists|i: int| 0 <= i < entries.len() && (#[trigger] entries[i]).player.id == id
}

/// A selection of entries with distinct ids has distinct ids, and holds no
/// id that was not held.
proof fn lemma_filter_keeps_distinct_ids(entries: Seq<EntryView>, keep: spec_fn(EntryView) -> bool)
    requires
        distinct_ids(entries),
    ensures
        distinct_ids(entries.filter(keep)),
        forall|id: Seq<char>| holds_id(entries.filter(keep), id) ==> holds_id(entries, id),
    decreases entries.len(),
{
    reveal(Seq::filter);
    if entries.len() > 0 {
        let front = entries.drop_last();
        let last = entries.last();
        assert forall|i: int, j: int| 0 <= i < j < front.len() implies (
        #[trigger] front[i]).player.id != (#[trigger] front[j]).player.id by {
            assert(front[i] == entries[i] && front[j] == entries[j]);
        }
        lemma_filter_keeps_distinct_ids(front, keep);
        let kept = front.filter(keep);
        assert forall|id: Seq<char>| holds_id(kept, id) implies holds_id(entries, id) by {
            assert(holds_id(front, id));
            let k = choose|k: int| 0 <= k < front.len() && (#[trigger] front[k]).player.id == id;
            assert(entries[k] == front[k]);
        }
        if keep(last) {
            let all = kept.push(last);
            assert forall|a: int, b: int| 0 <= a < b < all.len() implies (
            #[trigger] all[a]).player.id != (#[trigger] all[b]).player.id by {
                assert(all[a] == kept[a]);
                if b == kept.len() {
                    if kept[a].player.id == last.player.id {
                        assert(holds_id(kept, last.player.id));
                        assert(holds_id(front, last.player.id));
                        let k = choose|k: int|
                            0 <= k < front.len() && (#[trigger] front[k]).player.id
                                == last.player.id;
                        assert(entries[k] == front[k]);
                        assert(entries[k].player.id != entries[entries.len() - 1].player.id);
                    }
                } else {
                    assert(all[b] == kept[b]);
                }
            }
            assert forall|id: Seq<char>| holds_id(all, id) implies holds_id(entries, id) by {
                let k = choose|k: int| 0 <= k < all.len() && (#[trigger] all[k]).player.id == id;
                if k == kept.len() {
                    assert(entries[entries.len() - 1].player.id == id);
                } else {
                    assert(kept[k] == all[k]);
                    assert(holds_id(kept, id));
                }
            }
        }
    }
}

/// A selection from a valid registry is a valid registry.
pub proof fn lemma_filter_keeps_valid(entries: Seq<EntryView>, keep: spec_fn(EntryView) -> bool)
    requires
        valid_registry(entries),
    ensures
        valid_registry(entries.filter(keep)),
{
    lemma_filter_keeps_distinct(entries, keep);
    lemma_filter_keeps_distinct_ids(entries, keep);
}

/// Two texts with the same bytes are the same text.
pub proof fn lemma_text_of_bytes(a: Seq<char>, b: Seq<char>)
    requires
        encode_utf8(a) == encode_utf8(b),
    ensures
        a == b,
{
    encode_utf8_decode_utf8(a);
    encode_utf8_decode_utf8(b);
}

/// Selects the departure notices that go to `address` and carry the id
/// `leaver_id`.
pub open spec fn tells_of_departure(address: Seq<char>, leaver_id: Seq<char>) -> spec_fn(
    OutboundView,
) -> bool {
    |n: OutboundView|
        n.destination == address && n.packet.msg_type == MessageType::PlayerLeft
            && n.packet.payload == encode_utf8(leaver_id)
}

/// Among the notices about the entry `l` to the first `j` entries, exactly
/// one goes to the entry `t` and carries `leaver_id`, if `l` has that id and
/// `t` is another of those entries; otherwise none does.
#[verifier::spinoff_prover]
proof fn lemma_notices_about_count(
    entries: Seq<EntryView>,
    l: int,
    t: int,
    leaver_id: Seq<char>,
    j: int,
)
    requires
        distinct_addresses(entries),
        0 <= l < entries.len(),
        0 <= t < entries.len(),
        0 <= j <= entries.len(),
    ensures
        count(
            entries.take(j).filter(at_other_address(entries[l].address)).map_values(
                notice_about(entries[l]),
            ),
            tells_of_departure(entries[t].address, leaver_id),
        ) == if entries[l].player.id == leaver_id && t != l && t < j {
            1nat
        } else {
            0nat
        },
    decreases j,
{
    let others = at_other_address(entries[l].address);
    let make = notice_about(entries[l]);
    let wanted = tells_of_departure(entries[t].address, leaver_id);
    if j == 0 {
        lemma_filter_start(entries, others);
        assert(entries.take(0).filter(others).map_values(make) =~= Seq::<OutboundView>::empty());
        lemma_count_empty(wanted);
    } else {
        let k = j - 1;
        lemma_notices_about_count(entries, l, t, leaver_id, k);
        lemma_filter_map_step(entries, k, others, make);
        let before = entries.take(k).filter(others).map_values(make);
        if others(entries[k]) {
            let notice = departure_notice(entries[l], entries[k]);
            lemma_count_push(before, notice, wanted);
            if wanted(notice) {
                lemma_text_of_bytes(entries[l].player.id, leaver_id);
                if k < t {
                    assert(entries[k].address != entries[t].address);
                } else if t < k {
                    assert(entries[t].address != entries[k].address);
                }
            }
            if entries[l].player.id == leaver_id && k == t {
                assert(wanted(notice));
            }
        } else {
            if k < l {
                assert(entries[k].address != entries[l].address);
            } else if l < k {
                assert(entries[l].address != entries[k].address);
            }
        }
    }
}

/// Among the notices that an eviction pass has made when it has looked at
/// the first `i` entries, exactly one tells the entry `t` that the expired
/// entry `leaver` left, once the pass has come to `leaver`.
#[verifier::spinoff_prover]
proof fn lemma_cleanup_count(entries: Seq<EntryView>, now: u64, leaver: int, t: int, i: int)
    requires
        distinct_addresses(entries),
        distinct_ids(entries),
        0 <= leaver < entries.len(),
        expired(entries[leaver].player.heartbeat, now),
        0 <= t < entries.len(),
        t != leaver,
        0 <= i <= entries.len(),
    ensures
        count(
            entries.take(i).filter(is_expired_at(now)).map_values(
                notices_among(entries),
            ).flatten(),
            tells_of_departure(entries[t].address, entries[leaver].player.id),
        ) == if leaver < i {
            1nat
        } else {
            0nat
        },
    decreases i,
{
    let gone = is_expired_at(now);
    let make = notices_among(entries);
    let wanted = tells_of_departure(entries[t].address, entries[leaver].player.id);
    if i == 0 {
        lemma_filter_start(entries, gone);
        assert(entries.take(0).filter(gone).map_values(make) =~= Seq::<Seq<OutboundView>>::empty());
        lemma_count_empty(wanted);
    } else {
        let k = i - 1;
        lemma_cleanup_count(entries, now, leaver, t, k);
        lemma_filter_flat_map_step(entries, k, gone, make);
        let before = entries.take(k).filter(gone).map_values(make).flatten();
        if gone(entries[k]) {
            let about = departure_notices(entries, entries[k]);
            let here: nat = if k == leaver {
                1
            } else {
                0
            };
            assert(count(about, wanted) == here) by {
                lemma_notices_about_count(
                    entries,
                    k,
                    t,
                    entries[leaver].player.id,
                    entries.len() as int,
                );
                lemma_take_all(entries);
                if k < leaver {
                    assert(entries[k].player.id != entries[leaver].player.id);
                } else if leaver < k {
                    assert(entries[leaver].player.id != entries[k].player.id);
                }
            }
            assert(count(before + about, wanted) == count(before, wanted) + count(about, wanted))
                by {
                lemma_count_add(before, about, wanted);
            }
        }
    }
}

/// Selects the departure notices that carry the id `leaver_id`, whoever
/// they go to.
pub open spec fn announces_departure_of(leaver_id: Seq<char>) -> spec_fn(OutboundView) -> bool {
    |n: OutboundView|
        n.packet.msg_type == MessageType::PlayerLeft && n.packet.payload == encode_utf8(leaver_id)
}

/// None of the notices about the entry `l` carries another id than its own.
proof fn lemma_notices_about_other(entries: Seq<EntryView>, l: int, id: Seq<char>, j: int)
    requires
        0 <= l < entries.len(),
        0 <= j <= entries.len(),
        entries[l].player.id != id,
    ensures
        count(
            entries.take(j).filter(at_other_address(entries[l].address)).map_values(
                notice_about(entries[l]),
            ),
            announces_departure_of(id),
        ) == 0,
    decreases j,
{
    let others = at_other_address(entries[l].address);
    let make = notice_about(entries[l]);
    let wanted = announces_departure_of(id);
    if j == 0 {
        lemma_filter_start(entries, others);
        assert(entries.take(0).filter(others).map_values(make) =~= Seq::<OutboundView>::empty());
        lemma_count_empty(wanted);
    } else {
        let k = j - 1;
        lemma_notices_about_other(entries, l, id, k);
        lemma_filter_map_step(entries, k, others, make);
        let before = entries.take(k).filter(others).map_values(make);
        if others(entries[k]) {
            let notice = departure_notice(entries[l], entries[k]);
            lemma_count_push(before, notice, wanted);
            if wanted(notice) {
                lemma_text_of_bytes(entries[l].player.id, id);
            }
        }
    }
}

/// When no expired entry has the id `id`, none of the notices that an
/// eviction pass has made after the first `i` entries carries it.
proof fn lemma_no_notice_of(entries: Seq<EntryView>, now: u64, id: Seq<char>, i: int)
    requires
        0 <= i <= entries.len(),
        forall|k: int|
            0 <= k < entries.len() && expired((#[trigger] entries[k]).player.heartbeat, now)
                ==> entries[k].player.id != id,
    ensures
        count(
            entries.take(i).filter(is_expired_at(now)).map_values(
                notices_among(entries),
            ).flatten(),
            announces_departure_of(id),
        ) == 0,
    decreases i,
{
    let gone = is_expired_at(now);
    let make = notices_among(entries);
    let wanted = announces_departure_of(id);
    if i == 0 {
        lemma_filter_start(entries, gone);
        assert(entries.take(0).filter(gone).map_values(make) =~= Seq::<Seq<OutboundView>>::empty());
        lemma_count_empty(wanted);
    } else {
        let k = i - 1;
        lemma_no_notice_of(entries, now, id, k);
        lemma_filter_flat_map_step(entries, k, gone, make);
        let before = entries.take(k).filter(gone).map_values(make).flatten();
        if gone(entries[k]) {
            let about = departure_notices(entries, entries[k]);
            assert(count(about, wanted) == 0) by {
                assert(entries[k].player.id != id);
                lemma_notices_about_other(entries, k, id, entries.len() as int);
                lemma_take_all(entries);
            }
            assert(count(before + about, wanted) == count(before, wanted) + count(about, wanted))
                by {
                lemma_count_add(before, about, wanted);
            }
        }
    }
}

/// An expired player is not registered after the pass.
proof fn lemma_expired_is_removed(entries: Seq<EntryView>, now: u64, leaver: int)
    requires
        distinct_addresses(entries),
        0 <= leaver < entries.len(),
        expired(entries[leaver].player.heartbeat, now),
    ensures
        !registered(survivors(entries, now), entries[leaver].address),
{
    let alive = survivors(entries, now);
    if registered(alive, entries[leaver].address) {
        let k = slot(alive, entries[leaver].address);
        entries.lemma_filter_pred(is_alive_at(now), k);
        assert(alive.contains(alive[k]));
        entries.lemma_filter_contains_rev(is_alive_at(now), alive[k]);
        let m = choose|m: int| 0 <= m < entries.len() && entries[m] == alive[k];
        if m < leaver {
            assert(entries[m].address != entries[leaver].address);
        } else if leaver < m {
            assert(entries[leaver].address != entries[m].address);
        }
    }
}

/// A player who has not expired is registered after the pass, unchanged.
proof fn lemma_alive_stays(entries: Seq<EntryView>, now: u64, other: int)
    requires
        0 <= other < entries.len(),
        !expired(entries[other].player.heartbeat, now),
    ensures
        registered(survivors(entries, now), entries[other].address),
        survivors(entries, now).contains(entries[other]),
{
    let alive = survivors(entries, now);
    assert(is_alive_at(now)(entries[other]));
    entries.lemma_filter_contains(is_alive_at(now), other);
    let k = choose|k: int| 0 <= k < alive.len() && alive[k] == entries[other];
    assert(alive[k].address == entries[other].address);
}

/// What an eviction pass at `now` does about a player who has expired: the
/// player is no longer registered after it, and among the notices of the
/// pass exactly one tells any other registered player of the departure.
/// A player who has not expired stays registered, and no notice of the pass
/// carries that player's id.
#[verifier::spinoff_prover]
pub proof fn lemma_eviction(entries: Seq<EntryView>, now: u64, leaver: int, other: int)
    requires
        valid_registry(entries),
        0 <= leaver < entries.len(),
        expired(entries[leaver].player.heartbeat, now),
        0 <= other < entries.len(),
        other != leaver,
    ensures
        !registered(survivors(entries, now), entries[leaver].address),
        count(
            cleanup_notices(entries, now),
            tells_of_departure(entries[other].address, entries[leaver].player.id),
        ) == 1,
        !expired(entries[other].player.heartbeat, now) ==> {
            &&& registered(survivors(entries, now), entries[other].address)
            &&& count(
                cleanup_notices(entries, now),
                announces_departure_of(entries[other].player.id),
            ) == 0
        },
{
    lemma_expired_is_removed(entries, now, leaver);
    assert(cleanup_notices(entries, now) == entries.take(entries.len() as int).filter(
        is_expired_at(now),
    ).map_values(notices_among(entries)).flatten()) by {
        lemma_take_all(entries);
    }
    lemma_cleanup_count(entries, now, leaver, other, entries.len() as int);
    if !expired(entries[other].player.heartbeat, now) {
        lemma_alive_stays(entries, now, other);
        lemma_silent_about_the_living(entries, now, other);
    }
}

/// No notice of an eviction pass carries the id of a player who has not
/// expired.
pub proof fn lemma_silent_about_the_living(entries: Seq<EntryView>, now: u64, other: int)
    requires
        distinct_ids(entries),
        0 <= other < entries.len(),
        !expired(entries[other].player.heartbeat, now),
    ensures
        count(cleanup_notices(entries, now), announces_departure_of(entries[other].player.id))
            == 0,
{
    let id = entries[other].player.id;
    assert forall|k: int|
        0 <= k < entries.len() && expired(
            (#[trigger] entries[k]).player.heartbeat,
            now,
        ) implies entries[k].player.id != id by {
        if k < other {
            assert(entries[k].player.id != entries[other].player.id);
        } else if other < k {
            assert(entries[other].player.id != entries[k].player.id);
        }
    }
    lemma_no_notice_of(entries, now, id, entries.len() as int);
    lemma_take_all(entries);
}

/// A player heard from at `heard` is still registered after an eviction
/// pass at `pass`, if the pass comes no later than the timeout after the
/// heartbeat. The heartbeat is what the registry then holds for the
/// player, and no notice of the pass carries the player's id.
#[verifier::spinoff_prover]
pub proof fn lemma_heartbeat_survives(
    entries: Seq<EntryView>,
    address: Seq<char>,
    heard: u64,
    pass: u64,
)
    requires
        valid_registry(entries),
        registered(entries, address),
        pass <= heard + PLAYER_TIMEOUT_NANOS,
    ensures
        registered(survivors(with_heartbeat(entries, address, heard), pass), address),
        survivors(with_heartbeat(entries, address, heard), pass)[slot(
            survivors(with_heartbeat(entries, address, heard), pass),
            address,
        )].player == heard_at(entries[slot(entries, address)].player, heard),
        count(
            cleanup_notices(with_heartbeat(entries, address, heard), pass),
            announces_departure_of(entries[slot(entries, address)].player.id),
        ) == 0,
{
    let i = slot(entries, address);
    let touched = with_heartbeat(entries, address, heard);
    let entry = touched[i];
    lemma_with_heartbeat_valid(entries, address, heard);
    let alive = survivors(touched, pass);
    lemma_filter_keeps_distinct(touched, is_alive_at(pass));
    lemma_alive_stays(touched, pass, i);
    let k = choose|k: int| 0 <= k < alive.len() && alive[k] == entry;
    assert(alive[k].address == address);
    lemma_slot_is(alive, k);
    lemma_silent_about_the_living(touched, pass, i);
}

} // verus!
