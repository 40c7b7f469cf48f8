use vstd::prelude::*;

use crate::lobby::{JoinGate, PendingJoin};
use crate::model::{PendingReveal, Slot};
use crate::seqs::first_index;
use crate::systems::answer_join::owned_by;
use crate::seqs::{lemma_first_index_bounds, lemma_first_index_found, lemma_first_index_miss, lemma_first_index_none};
use crate::wire::lemma_take_all;

verus! {

/// What a pending join does to the cursors: an existing cursor turns gray
/// and gets the reveal marker, or a gray placeholder spawns for `owner`.
#[derive(Debug, Clone, Copy, PartialEq, Eq)]
pub enum JoinMarker {
    Regray { slot: usize, reveal: PendingReveal },
    Spawn { owner: u64, reveal: PendingReveal },
}

/// The cursor owner a pending join maps to: our own id for our own join,
/// else the network id of the joiner's peer (`peer_id`).
pub open spec fn target_of(entry: PendingJoin, peer_id: u64, own: u64) -> u64 {
    if entry.joiner == own {
        own
    } else {
        peer_id
    }
}

/// The cursor owner a pending join maps to: our own id for our own join,
/// else the network id of the joiner's peer.
pub fn target_owner(entry: &PendingJoin, peer_id: u64, own: u64) -> (r: u64)
    ensures
        r == target_of(*entry, peer_id, own),
{
    if entry.joiner == own {
        own
    } else {
        peer_id
    }
}

/// The reveal marker of a pending join; it carries our own number only
/// for our own join.
pub open spec fn marker_of(entry: PendingJoin, own: u64) -> PendingReveal {
    PendingReveal {
        reveal_at: entry.reveal_at,
        fail_at: entry.fail_at,
        player: if entry.joiner == own { Some(own) } else { None },
    }
}

/// What one pending join does: nothing when the first cursor of its target
/// already carries a marker; that cursor gets one when it carries none;
/// without a cursor, a placeholder spawns.
pub open spec fn marker_for(slots: Seq<Slot>, entry: PendingJoin, peer_id: u64, own: u64) -> Option<JoinMarker> {
    let target = target_of(entry, peer_id, own);
    let k = first_index(slots, owned_by(target));
    if k >= 0 {
        if slots[k].reveal is Some {
            None
        } else {
            Some(JoinMarker::Regray { slot: k as usize, reveal: marker_of(entry, own) })
        }
    } else {
        Some(JoinMarker::Spawn { owner: target, reveal: marker_of(entry, own) })
    }
}

/// What the first `n` pending joins do, in order.
pub open spec fn markers(slots: Seq<Slot>, pending: Seq<PendingJoin>, ids: Seq<u64>, own: u64, n: int) -> Seq<JoinMarker>
    decreases n,
{
    if n <= 0 {
        Seq::empty()
    } else {
        let prev = markers(slots, pending, ids, own, n - 1);
        match marker_for(slots, pending[n - 1], ids[n - 1], own) {
            Some(m) => prev.push(m),
            None => prev,
        }
    }
}

/// The first cursor owned by `owner`, if any.
pub fn find_owned(slots: &Vec<Slot>, owner: u64) -> (r: Option<usize>)
    ensures
        r matches Some(i) ==> i == first_index(slots@, owned_by(owner)),
        r is None ==> first_index(slots@, owned_by(owner)) == -1,
{
    proof {
        lemma_first_index_bounds(slots@, owned_by(owner));
    }
    let mut i: usize = 0;
    while i < slots.len()
        invariant
            i <= slots@.len(),
            first_index(slots@.take(i as int), owned_by(owner)) == -1,
        decreases slots@.len() - i,
    {
        if slots[i].owner == owner {
            proof {
                lemma_first_index_found(slots@, i as int, owned_by(owner));
            }
            return Some(i);
        }
        proof {
            lemma_first_index_miss(slots@, i as int, owned_by(owner));
        }
        i = i + 1;
    }
    proof {
        lemma_first_index_none(slots@, owned_by(owner));
    }
    None
}

/// Marks the cursors of the pending joins gray (see [`marker_for`]).
/// `peer_ids[i]` is the network id of the peer of the `i`-th pending join.
pub fn spawn_pending_join(slots: &Vec<Slot>, gate: &JoinGate, peer_ids: &Vec<u64>, own: u64) -> (r: Vec<JoinMarker>)
    requires
        peer_ids@.len() == gate.pending@.len(),
    ensures
        r@ == markers(slots@, gate.pending@, peer_ids@, own, gate.pending@.len() as int),
{
    let mut r: Vec<JoinMarker> = Vec::new();
    let mut i: usize = 0;
    while i < gate.pending.len()
        invariant
            i <= gate.pending@.len(),
            peer_ids@.len() == gate.pending@.len(),
            r@ == markers(slots@, gate.pending@, peer_ids@, own, i as int),
        decreases gate.pending@.len() - i,
    {
        let entry = &gate.pending[i];
        let target = target_owner(entry, peer_ids[i], own);
        let reveal = PendingReveal {
            reveal_at: entry.reveal_at,
            fail_at: entry.fail_at,
            player: if entry.joiner == own { Some(own) } else { None },
        };
        proof {
            lemma_first_index_bounds(slots@, owned_by(target));
        }
        match find_owned(slots, target) {
            Some(k) => {
                if slots[k].reveal.is_none() {
                    r.push(JoinMarker::Regray { slot: k, reveal });
                }
            },
            None => {
                r.push(JoinMarker::Spawn { owner: target, reveal });
            },
        }
        i = i + 1;
    }
    r
}

} // verus!
