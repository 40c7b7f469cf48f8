use vstd::prelude::*;

use crate::lobby::JoinPending;
use crate::model::ActiveLobby;

verus! {

/// What the spawning gate reads: the lobby's roster members, the lobby, our
/// own network id and the room whose join is still loading.
#[derive(Debug, PartialEq, Eq)]
pub struct SpawnCtx {
    pub members: Vec<String>,
    pub lobby: ActiveLobby,
    pub own: u64,
    pub pending: JoinPending,
}

impl SpawnCtx {
    /// Whether no join is loading.
    pub fn gate_open(&self) -> (r: bool)
        ensures
            r == self.pending.0 is None,
    {
        gate_open(self)
    }
}

/// Whether no join is loading.
pub fn gate_open(ctx: &SpawnCtx) -> (r: bool)
    ensures
        r == ctx.pending.0 is None,
{
    ctx.pending.is_none()
}

} // verus!
