use vstd::prelude::*;

use crate::idset::{contains_name, names};
use crate::lobby::{JoinGate, PendingJoin};
use crate::model::{ActiveLobby, Peer};

verus! {

/// Whether a peer's cursor is held back from spawning: it is us, it was
/// given up on, or a join of it (by name or by network id) is pending.
pub open spec fn is_held(own: u64, pending: Seq<PendingJoin>, absent: Seq<String>, peer: Seq<char>, id: u64) -> bool {
    ||| id == own
    ||| names(absent).contains(peer)
    ||| exists|i: int| 0 <= i < pending.len() && (pending[i].peer@ == peer || pending[i].joiner == id)
}

/// Whether the cursor of `peer` (network id `id`) is held back from
/// spawning: it is us, it was given up on, or a join of it is pending.
pub fn held(own: u64, pending: &Vec<PendingJoin>, absent: &Vec<String>, peer: &String, id: u64) -> (r: bool)
    ensures
        r == is_held(own, pending@, absent@, peer@, id),
{
    if id == own {
        return true;
    }
    if contains_name(absent, peer) {
        return true;
    }
    let mut i: usize = 0;
    while i < pending.len()
        invariant
            i <= pending@.len(),
            forall|j: int| 0 <= j < i ==> !(pending@[j].peer@ == peer@ || pending@[j].joiner == id),
        decreases pending@.len() - i,
    {
        if pending[i].peer == *peer || pending[i].joiner == id {
            return true;
        }
        i = i + 1;
    }
    false
}

/// What spawning on join reads: the lobby's roster members, the lobby, our
/// own network id and the join gate.
#[derive(Debug, PartialEq, Eq)]
pub struct SpawnOnJoinCtx {
    pub members: Vec<Peer>,
    pub lobby: ActiveLobby,
    pub own: u64,
    pub gate: JoinGate,
}

impl SpawnOnJoinCtx {
    /// Whether the cursor of `peer` (network id `id`) is held back.
    pub fn held(&self, peer: &String, id: u64) -> (r: bool)
        ensures
            r == is_held(self.own, self.gate.pending@, self.gate.absent@, peer@, id),
    {
        held(self.own, &self.gate.pending, &self.gate.absent, peer, id)
    }
}

} // verus!
