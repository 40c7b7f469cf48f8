use vstd::prelude::*;

use crate::model::{ActiveLobby, GlobalCounter, Slot};
use crate::scores::{labeled_entries, labeled_scores, merge_into, merge_kept};
use crate::tombstones::ScoreTombstones;
use crate::wire::{Command, CommandV, Snapshot, SnapshotV, SNAPSHOT_CHUNK};

verus! {

/// Every kept score is published.
pub open spec fn any_id() -> spec_fn(u64) -> bool {
    |id: u64| true
}

/// The scores a published snapshot carries: each labeled cursor's number
/// and clicks, each raised to the kept score of that number, then the kept
/// scores of the numbers no cursor carries, in the order they were kept.
pub open spec fn published_entries(slots: Seq<Slot>, tombs: Seq<(u64, i32)>) -> Seq<(u64, i32)> {
    merge_kept(labeled_entries(slots), tombs, any_id())
}

/// The scores for a published snapshot (see [`published_entries`]).
pub fn snapshot_scores(slots: &Vec<Slot>, tombstones: &ScoreTombstones) -> (r: Vec<(u64, i32)>)
    ensures
        r@ == published_entries(slots@, tombstones.entries@),
{
    let mut entries = labeled_scores(slots);
    let tombs = tombstones.iter();
    let ghost base = entries@;
    let mut k: usize = 0;
    while k < tombs.len()
        invariant
            k <= tombs@.len(),
            tombs@ == tombstones.entries@,
            base == labeled_entries(slots@),
            entries@ == merge_kept(base, tombs@.take(k as int), any_id()),
        decreases tombs@.len() - k,
    {
        proof {
            assert(tombs@.take(k + 1).drop_last() =~= tombs@.take(k as int));
        }
        let (logical, count) = tombs[k];
        merge_into(&mut entries, logical, count);
        k = k + 1;
    }
    proof {
        assert(tombs@.take(tombs@.len() as int) =~= tombs@);
    }
    entries
}

/// Stores the lobby's scores in its history: the snapshot holds the
/// scores of [`published_entries`] and the global count.
pub fn publish_snapshot(slots: &Vec<Slot>, global: &GlobalCounter, lobby: &ActiveLobby, tombstones: &ScoreTombstones) -> (c: Command)
    ensures
        c@ == (CommandV::PutHistory {
            lobby: lobby.0@,
            chunk: SNAPSHOT_CHUNK,
            snapshot: SnapshotV { entries: published_entries(slots@, tombstones.entries@), global: global.0 },
        }),
{
    let snapshot = Snapshot { entries: snapshot_scores(slots, tombstones), global: global.0 };
    Command::PutHistory { lobby: lobby.0.clone(), chunk: SNAPSHOT_CHUNK, snapshot }
}

} // verus!
