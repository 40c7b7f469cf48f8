use vstd::prelude::*;

use crate::idset::contains_id;
use crate::model::{Peer, Slot};
use crate::systems::spawn_on_join_ctx::{is_held, SpawnOnJoinCtx};
use crate::wire::{lemma_take_all, PeerV};

verus! {

/// The most cursors a lobby shows.
pub const LOBBY_CAP: usize = 8;

/// Which roster members get a new gray placeholder cursor, and the owners
/// known afterwards.
pub struct SpawnSt {
    pub known: Seq<u64>,
    pub spawned: Seq<PeerV>,
}

/// One roster member: skipped when it is us, already has a cursor or is
/// held back; skipped while the lobby is full; else its cursor spawns.
pub open spec fn spawn_one(st: SpawnSt, ctx: SpawnOnJoinCtx, p: PeerV) -> SpawnSt {
    if p.id == ctx.own || st.known.contains(p.id) || is_held(
        ctx.own,
        ctx.gate.pending@,
        ctx.gate.absent@,
        p.name,
        p.id,
    ) {
        st
    } else if st.known.len() >= LOBBY_CAP {
        st
    } else {
        SpawnSt { known: st.known.push(p.id), spawned: st.spawned.push(p) }
    }
}

/// The members handled in order.
pub open spec fn spawn_all(st: SpawnSt, ctx: SpawnOnJoinCtx, members: Seq<PeerV>) -> SpawnSt
    decreases members.len(),
{
    if members.len() == 0 {
        st
    } else {
        spawn_one(spawn_all(st, ctx, members.drop_last()), ctx, members.last())
    }
}

/// The views of peers.
pub open spec fn peers_v(s: Seq<Peer>) -> Seq<PeerV> {
    s.map_values(|p: Peer| p@)
}

/// The roster members whose placeholder cursors spawn, in roster order:
/// those that are not us, have no cursor among `owners` (or spawned
/// before them here) and are not held back, while the lobby has room.
pub fn spawn_on_join(owners: &Vec<u64>, ctx: &SpawnOnJoinCtx) -> (spawned: Vec<Peer>)
    ensures
        peers_v(spawned@) == spawn_all(
            SpawnSt { known: owners@, spawned: Seq::empty() },
            *ctx,
            peers_v(ctx.members@),
        ).spawned,
{
    let mut known: Vec<u64> = owners.clone();
    let mut spawned: Vec<Peer> = Vec::new();
    let ghost members = peers_v(ctx.members@);
    let ghost init = SpawnSt { known: owners@, spawned: Seq::empty() };
    proof {
        assert(known@ =~= owners@);
        assert(peers_v(spawned@) =~= Seq::<PeerV>::empty());
    }
    let mut i: usize = 0;
    while i < ctx.members.len()
        invariant
            i <= ctx.members@.len(),
            members == peers_v(ctx.members@),
            spawn_all(init, *ctx, members.take(i as int)) == (SpawnSt {
                known: known@,
                spawned: peers_v(spawned@),
            }),
        decreases ctx.members@.len() - i,
    {
        proof {
            assert(members.take(i + 1).drop_last() =~= members.take(i as int));
            assert(members.take(i + 1).last() == ctx.members@[i as int]@);
        }
        let peer = &ctx.members[i];
        let id = peer.id;
        if !(id == ctx.own || contains_id(&known, id) || ctx.held(&peer.name, id)) {
            if known.len() < LOBBY_CAP {
                known.push(id);
                let p = peer.clone();
                proof {
                    assert(peers_v(spawned@.push(p)) =~= peers_v(spawned@).push(p@));
                }
                spawned.push(p);
            }
        }
        i = i + 1;
    }
    proof {
        lemma_take_all(members);
    }
    spawned
}

/// The placeholder cursor of a spawned member: owned by it, with no player
/// number, no clicks and no reveal marker, until its identity resolves.
pub fn placeholder_slot(peer: &Peer) -> (s: Slot)
    ensures
        s == (Slot { owner: peer.id, player: None, count: 0, reveal: None }),
{
    Slot { owner: peer.id, player: None, count: 0, reveal: None }
}

} // verus!
