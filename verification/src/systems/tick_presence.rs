use std::collections::HashMap;

use vstd::prelude::*;
use vstd::utf8::encode_utf8;

use crate::digest::{blake3_digest, roster_key};
use crate::model::{ActiveLobby, Peer};
use crate::systems::spawn_on_join::peers_v;
use crate::wire::{edits_v, events_v, lemma_edits_push, lemma_filter_step, lemma_take_all, Event, EventV, PeerV, RosterEdit, RosterEditV};

verus! {

broadcast use vstd::std_specs::hash::group_hash_axioms;

/// Seconds a disconnected peer may stay silent before it leaves the roster.
pub const PRESENCE_TTL_SECS: u64 = 60;

/// Presence bookkeeping for one event: a disconnect starts the silence
/// clock of the peer (unless it runs already); any message or gossip from
/// a peer stops it.
pub open spec fn presence_step(presence: Map<u64, u64>, e: EventV, now: u64) -> Map<u64, u64> {
    match e {
        EventV::PeerDisconnected(p) => if presence.contains_key(p.id) {
            presence
        } else {
            presence.insert(p.id, now)
        },
        EventV::Message { from, .. } => presence.remove(from.id),
        EventV::Gossip { from, .. } => presence.remove(from.id),
        _ => presence,
    }
}

/// Presence bookkeeping over the events in order.
pub open spec fn presence_after(presence: Map<u64, u64>, events: Seq<EventV>, now: u64) -> Map<u64, u64>
    decreases events.len(),
{
    if events.len() == 0 {
        presence
    } else {
        presence_step(presence_after(presence, events.drop_last(), now), events.last(), now)
    }
}

/// Whether a member has been silent for the whole presence TTL at `now`.
pub open spec fn silent_too_long(presence: Map<u64, u64>, now: u64) -> spec_fn(PeerV) -> bool {
    |p: PeerV|
        presence.contains_key(p.id) && (if now >= presence[p.id] { now - presence[p.id] } else { 0 })
            >= PRESENCE_TTL_SECS * 1000
}

/// The roster removal of `peer` from `room`.
pub open spec fn remove_edit(room: Seq<char>, peer: Seq<char>) -> RosterEditV {
    RosterEditV::Remove { room, key: blake3_digest(encode_utf8(peer)) }
}

/// The removals of `expired` from `room`, in order.
pub open spec fn removals(room: Seq<char>, expired: Seq<PeerV>) -> Seq<RosterEditV> {
    expired.map_values(|p: PeerV| remove_edit(room, p.name))
}

/// `presence` without the ids of `expired`.
pub open spec fn forget(presence: Map<u64, u64>, expired: Seq<PeerV>) -> Map<u64, u64>
    decreases expired.len(),
{
    if expired.len() == 0 {
        presence
    } else {
        forget(presence, expired.drop_last()).remove(expired.last().id)
    }
}

/// Tracks peer presence over the frame's events (all of which pass on)
/// and removes from the lobby's roster the members silent for the whole
/// presence TTL. `members` are the lobby's roster members in roster order,
/// `presence` maps network ids to the millisecond their silence began.
/// Returns the roster removals, in roster order.
pub fn tick_presence(
    events: &Vec<Event>,
    presence: &mut HashMap<u64, u64>,
    members: &Vec<Peer>,
    lobby: &ActiveLobby,
    now: u64,
) -> (edits: Vec<RosterEdit>)
    ensures
        ({
            let p1 = presence_after(old(presence)@, events_v(events@), now);
            let expired = peers_v(members@).filter(silent_too_long(p1, now));
            &&& edits_v(edits@) == removals(lobby.0@, expired)
            &&& final(presence)@ == forget(p1, expired)
        }),
{
    let ghost evs = events_v(events@);
    let mut i: usize = 0;
    while i < events.len()
        invariant
            i <= events@.len(),
            evs == events_v(events@),
            presence@ == presence_after(old(presence)@, evs.take(i as int), now),
        decreases events@.len() - i,
    {
        proof {
            assert(evs.take(i + 1).drop_last() =~= evs.take(i as int));
            assert(evs[i as int] == events@[i as int]@);
        }
        match &events[i] {
            Event::PeerDisconnected(p) => {
                if !presence.contains_key(&p.id) {
                    presence.insert(p.id, now);
                }
            },
            Event::Message { from, .. } => {
                presence.remove(&from.id);
            },
            Event::Gossip { from, .. } => {
                presence.remove(&from.id);
            },
            _ => {},
        }
        i = i + 1;
    }
    proof {
        lemma_take_all(evs);
    }
    let ghost p1 = presence@;
    let ghost pred = silent_too_long(p1, now);
    let ghost ms = peers_v(members@);
    let mut expired: Vec<Peer> = Vec::new();
    let mut k: usize = 0;
    while k < members.len()
        invariant
            k <= members@.len(),
            presence@ == p1,
            pred == silent_too_long(p1, now),
            ms == peers_v(members@),
            peers_v(expired@) == ms.take(k as int).filter(pred),
        decreases members@.len() - k,
    {
        proof {
            lemma_filter_step(ms, k as int, pred);
            assert(ms[k as int] == members@[k as int]@);
        }
        let peer = &members[k];
        let stale = match presence.get(&peer.id) {
            Some(since) => now.saturating_sub(*since) >= PRESENCE_TTL_SECS * 1000,
            None => false,
        };
        if stale {
            let p = peer.clone();
            proof {
                assert(peers_v(expired@.push(p)) =~= peers_v(expired@).push(p@));
            }
            expired.push(p);
        }
        k = k + 1;
    }
    proof {
        lemma_take_all(ms);
    }
    let ghost ex = peers_v(expired@);
    let mut edits: Vec<RosterEdit> = Vec::new();
    let mut j: usize = 0;
    while j < expired.len()
        invariant
            j <= expired@.len(),
            ex == peers_v(expired@),
            edits_v(edits@) == removals(lobby.0@, ex.take(j as int)),
            presence@ == forget(p1, ex.take(j as int)),
        decreases expired@.len() - j,
    {
        proof {
            assert(ex.take(j + 1).drop_last() =~= ex.take(j as int));
            assert(ex[j as int] == expired@[j as int]@);
        }
        let peer = &expired[j];
        let key = roster_key(&peer.name);
        let edit = RosterEdit::Remove { room: lobby.0.clone(), key };
        proof {
            lemma_edits_push(edits@, edit);
            assert(removals(lobby.0@, ex.take(j + 1)) =~= removals(lobby.0@, ex.take(j as int)).push(
                remove_edit(lobby.0@, ex[j as int].name),
            ));
        }
        edits.push(edit);
        presence.remove(&peer.id);
        j = j + 1;
    }
    proof {
        lemma_take_all(ex);
    }
    edits
}

} // verus!
