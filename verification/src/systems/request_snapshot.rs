use vstd::prelude::*;

use crate::model::ActiveLobby;
use crate::wire::{Command, CommandV, SNAPSHOT_CHUNK};

verus! {

/// How long to wait before asking the history for the snapshot again.
pub const SNAPSHOT_REFETCH_SECS: u64 = 10;

/// How often the lobby's snapshot is stored.
pub const SNAPSHOT_INTERVAL_SECS: u64 = 5;

/// Whether the snapshot was asked for yet, and when (milliseconds).
#[derive(Debug, Clone, Copy, PartialEq, Eq)]
pub struct SnapshotFetch {
    pub requested: bool,
    pub last_ms: u64,
}

impl Default for SnapshotFetch {
    fn default() -> (r: SnapshotFetch)
        ensures
            !r.requested,
            r.last_ms == 0,
    {
        SnapshotFetch { requested: false, last_ms: 0 }
    }
}

/// Whether the snapshot is to be asked for at `now_ms`: never asked yet,
/// or the refetch interval has passed since the last time.
pub open spec fn fetch_due(f: SnapshotFetch, now_ms: u64) -> bool {
    !f.requested || now_ms - f.last_ms >= SNAPSHOT_REFETCH_SECS * 1000
}

/// Asks the history for the lobby's snapshot the first time, then again
/// each time the refetch interval has passed (see [`fetch_due`]).
pub fn request_snapshot(fetch: &mut SnapshotFetch, lobby: &ActiveLobby, now_ms: u64) -> (r: Option<Command>)
    ensures
        fetch_due(*old(fetch), now_ms) ==> {
            &&& *final(fetch) == (SnapshotFetch { requested: true, last_ms: now_ms })
            &&& r matches Some(c) && c@ == (CommandV::FetchHistory { lobby: lobby.0@, chunk: SNAPSHOT_CHUNK })
        },
        !fetch_due(*old(fetch), now_ms) ==> *final(fetch) == *old(fetch) && r is None,
{
    if fetch.requested && !(now_ms >= fetch.last_ms && now_ms - fetch.last_ms >= SNAPSHOT_REFETCH_SECS * 1000) {
        return None;
    }
    fetch.requested = true;
    fetch.last_ms = now_ms;
    Some(Command::FetchHistory { lobby: lobby.0.clone(), chunk: SNAPSHOT_CHUNK })
}

/// Whether a snapshot store is due at `now_ms`: the first time (nothing
/// stored after time zero yet) or once the interval has passed since the
/// last store.
pub open spec fn store_due(last_ms: u64, now_ms: u64) -> bool {
    last_ms == 0 || now_ms - last_ms >= SNAPSHOT_INTERVAL_SECS * 1000
}

/// Whether to store the snapshot now (see [`store_due`]); when it is due,
/// the time is remembered.
pub fn publish_due(last_ms: &mut u64, now_ms: u64) -> (due: bool)
    ensures
        due == store_due(*old(last_ms), now_ms),
        *final(last_ms) == (if due { now_ms } else { *old(last_ms) }),
{
    if *last_ms > 0 && !(now_ms >= *last_ms && now_ms - *last_ms >= SNAPSHOT_INTERVAL_SECS * 1000) {
        return false;
    }
    *last_ms = now_ms;
    true
}

} // verus!
