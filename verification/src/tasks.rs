//! The periodic work: probing every player, and evicting the silent ones.
//! The timers run with the caller; here is what each tick sends.

use vstd::prelude::*;
use vstd::slice::slice_to_vec;
use vstd::utf8::encode_utf8;

use crate::game_state::entry_views;
use crate::game_state::EntryView;
use crate::game_state::GameState;
use crate::packet::outbound_views;
use crate::packet::GamePacket;
use crate::packet::MessageType;
use crate::packet::Outbound;
use crate::packet::OutboundView;
use crate::packet::PacketView;
use crate::packet::PROTOCOL_VERSION;

verus! {

/// Seconds between two rounds of probes.
pub const HEARTBEAT_INTERVAL_SECS: u64 = 3;

/// The probe for `target`: a heartbeat without payload, addressed to the
/// target by address and by id.
pub open spec fn probe(target: EntryView) -> OutboundView {
    OutboundView {
        destination: target.address,
        packet: PacketView {
            msg_type: MessageType::Heartbeat,
            version: PROTOCOL_VERSION,
            client_id: encode_utf8(target.player.id),
            seq_num: 0,
            payload: Seq::empty(),
        },
    }
}

/// Makes the probe for a target.
pub open spec fn probe_for() -> spec_fn(EntryView) -> OutboundView {
    |target: EntryView| probe(target)
}

/// One round of probes: one for each player, in the order of the registry.
pub open spec fn probes(entries: Seq<EntryView>) -> Seq<OutboundView> {
    entries.map_values(probe_for())
}

/// The probes of one round. The registry is left as it is: a probe resets
/// no timer.
pub fn send_heartbeats(state: &GameState) -> (out: Vec<Outbound>)
    ensures
        outbound_views(out@) == probes(state@),
{
    let entries = state.get_players();
    let ghost all = state@;
    let mut out: Vec<Outbound> = Vec::new();
    let mut i: usize = 0;
    assert(outbound_views(out@) =~= probes(all.take(0)));
    while i < entries.len()
        invariant
            0 <= i <= entries@.len(),
            all == entry_views(entries@),
            outbound_views(out@) == probes(all.take(i as int)),
        decreases entries@.len() - i,
    {
        let target = &entries[i];
        let reply = GamePacket::new(
            MessageType::Heartbeat,
            0,
            Vec::new(),
            slice_to_vec(target.player.id.as_str().as_bytes()),
        );
        let ghost before = outbound_views(out@);
        let probe_out = Outbound { destination: target.address.clone(), packet: reply };
        assert(probe_out@ == probe(all[i as int]));
        out.push(probe_out);
        assert(outbound_views(out@) =~= before.push(probe(all[i as int])));
        assert(probes(all.take(i + 1)) =~= probes(all.take(i as int)).push(probe(all[i as int])));
        i = i + 1;
    }
    assert(all.take(i as int) =~= all);
    out
}

} // verus!
