use std::collections::HashMap;

use vstd::prelude::*;

use crate::model::ActiveLobby;
use crate::tombstones::ScoreTombstones;

verus! {

broadcast use vstd::std_specs::hash::group_hash_axioms;

/// What leaving reads and keeps: the lobby, our own network id, the kept
/// scores, the time in milliseconds of a monotonic clock, and since when
/// each missing owner has been missing.
#[derive(Debug)]
pub struct LeaveCtx {
    pub lobby: ActiveLobby,
    pub own: u64,
    pub tombstones: ScoreTombstones,
    pub now: u64,
    pub absent: HashMap<u64, u64>,
}

/// How long `owner` has been missing at `now`, in milliseconds.
pub open spec fn absence_of(absent: Map<u64, u64>, owner: u64, now: u64) -> u64 {
    if absent.contains_key(owner) {
        if now >= absent[owner] {
            (now - absent[owner]) as u64
        } else {
            0
        }
    } else {
        0
    }
}

/// `absent` with the absence of `owner` started now unless it runs already.
pub open spec fn absence_started(absent: Map<u64, u64>, owner: u64, now: u64) -> Map<u64, u64> {
    if absent.contains_key(owner) {
        absent
    } else {
        absent.insert(owner, now)
    }
}

impl LeaveCtx {
    /// How long `owner` has been missing, in milliseconds; starts counting
    /// now when it was not missing before.
    pub fn absence_secs(&mut self, owner: u64) -> (r: u64)
        ensures
            r == absence_of(old(self).absent@, owner, old(self).now),
            final(self).absent@ == absence_started(old(self).absent@, owner, old(self).now),
            final(self).lobby == old(self).lobby,
            final(self).own == old(self).own,
            final(self).tombstones == old(self).tombstones,
            final(self).now == old(self).now,
    {
        absence_secs(self, owner)
    }
}

/// How long `owner` has been missing, in milliseconds; starts counting now
/// when it was not missing before.
pub fn absence_secs(ctx: &mut LeaveCtx, owner: u64) -> (r: u64)
    ensures
        r == absence_of(old(ctx).absent@, owner, old(ctx).now),
        final(ctx).absent@ == absence_started(old(ctx).absent@, owner, old(ctx).now),
        final(ctx).lobby == old(ctx).lobby,
        final(ctx).own == old(ctx).own,
        final(ctx).tombstones == old(ctx).tombstones,
        final(ctx).now == old(ctx).now,
{
    let now = ctx.now;
    let since = match ctx.absent.get(&owner) {
        Some(s) => *s,
        None => {
            ctx.absent.insert(owner, now);
            now
        },
    };
    now.saturating_sub(since)
}

} // verus!
