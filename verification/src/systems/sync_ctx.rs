use vstd::prelude::*;

use crate::idset::contains_id;
use crate::lobby::JoinGate;
use crate::model::Slot;
use crate::scores::{labeled_entries, labeled_scores, merge_into, merge_kept};
use crate::systems::sync_global::{no_dups, note_seen, seen_after, seen_next};
use crate::tombstones::ScoreTombstones;

verus! {

/// What the sync exchange reads and keeps between frames: the join gate,
/// the kept scores, and the player numbers seen labeled here.
#[derive(Debug, PartialEq, Eq)]
pub struct SyncCtx {
    pub gate: JoinGate,
    pub tombstones: ScoreTombstones,
    pub seen: Vec<u64>,
}

/// Whether a kept score for `id` may ride a reply: its player was seen here.
pub open spec fn seen_filter(seen: Seq<u64>) -> spec_fn(u64) -> bool {
    |id: u64| seen.contains(id)
}

/// The scores a sync reply carries: every labeled slot's number and
/// clicks, raised to the kept score of that number, then the kept scores of
/// the other players seen here.
pub open spec fn sync_entries(slots: Seq<Slot>, tombs: Seq<(u64, i32)>, seen: Seq<u64>) -> Seq<(u64, i32)> {
    merge_kept(labeled_entries(slots), tombs, seen_filter(seen))
}

/// Merges the kept scores that `seen` admits into `entries`.
fn merge_seen(entries: &mut Vec<(u64, i32)>, tombstones: &ScoreTombstones, seen: &Vec<u64>)
    ensures
        final(entries)@ == merge_kept(old(entries)@, tombstones.entries@, seen_filter(seen@)),
{
    let tombs = tombstones.iter();
    let ghost base = entries@;
    let mut k: usize = 0;
    while k < tombs.len()
        invariant
            k <= tombs@.len(),
            tombs@ == tombstones.entries@,
            entries@ == merge_kept(base, tombs@.take(k as int), seen_filter(seen@)),
        decreases tombs@.len() - k,
    {
        proof {
            assert(tombs@.take(k + 1).drop_last() =~= tombs@.take(k as int));
        }
        let (logical, count) = tombs[k];
        if contains_id(seen, logical) {
            merge_into(entries, logical, count);
        }
        k = k + 1;
    }
    proof {
        assert(tombs@.take(tombs@.len() as int) =~= tombs@);
    }
}

/// The scores for a sync reply, after noting the labeled slots as seen:
/// each labeled slot's number and clicks (raised to its kept score), then
/// the kept scores of players seen here; kept scores of players never seen
/// labeled here are left out.
pub fn snapshot_entries(ctx: &mut SyncCtx, slots: &Vec<Slot>) -> (r: Vec<(u64, i32)>)
    requires
        old(ctx).tombstones.wf(),
        no_dups(old(ctx).seen@),
    ensures
        final(ctx).seen@ == seen_next(old(ctx).seen@, slots@, old(ctx).tombstones.entries@),
        no_dups(final(ctx).seen@),
        final(ctx).gate == old(ctx).gate,
        final(ctx).tombstones == old(ctx).tombstones,
        r@ == sync_entries(slots@, old(ctx).tombstones.entries@, final(ctx).seen@),
{
    note_seen(slots, &ctx.tombstones, &mut ctx.seen);
    let mut entries = labeled_scores(slots);
    merge_seen(&mut entries, &ctx.tombstones, &ctx.seen);
    entries
}

impl SyncCtx {
    /// The scores for a sync reply; see [`snapshot_entries`].
    pub fn snapshot_entries(&mut self, slots: &Vec<Slot>) -> (r: Vec<(u64, i32)>)
        requires
            old(self).tombstones.wf(),
            no_dups(old(self).seen@),
        ensures
            final(self).seen@ == seen_next(old(self).seen@, slots@, old(self).tombstones.entries@),
            no_dups(final(self).seen@),
            final(self).gate == old(self).gate,
            final(self).tombstones == old(self).tombstones,
            r@ == sync_entries(slots@, old(self).tombstones.entries@, final(self).seen@),
    {
        snapshot_entries(self, slots)
    }
}

} // verus!
