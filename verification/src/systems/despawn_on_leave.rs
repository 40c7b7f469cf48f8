use std::collections::HashMap;

use vstd::prelude::*;

use crate::idset::contains_id;
use crate::model::{Peer, Slot};
use crate::systems::leave_ctx::{absence_of, absence_secs, absence_started, LeaveCtx};
use crate::systems::spawn_on_join::peers_v;
use crate::tombstones::kept;
use crate::wire::{lemma_take_all, PeerV};

verus! {

broadcast use vstd::std_specs::hash::group_hash_axioms;

/// Seconds a labeled cursor stays after its owner left the roster.
pub const LEAVE_GRACE_SECS: u64 = 60;

/// What leaving changes.
pub struct LeaveSt {
    pub absent: Map<u64, u64>,
    pub tombs: Seq<(u64, i32)>,
    pub despawned: Seq<int>,
}

/// The network ids of peers.
pub open spec fn ids_of(members: Seq<PeerV>) -> Seq<u64> {
    members.map_values(|p: PeerV| p.id)
}

/// One cursor: kept while its owner is us or in the roster; an unlabeled
/// cursor of a missing owner despawns at once; a labeled one stays for the
/// leave grace (its owner's absence starting now if it was not missing),
/// then despawns, its score kept under its number.
pub open spec fn leave_one(st: LeaveSt, own: u64, live: Seq<u64>, now: u64, k: int, s: Slot) -> LeaveSt {
    if s.owner == own || live.contains(s.owner) {
        st
    } else {
        match s.player {
            None => LeaveSt { despawned: st.despawned.push(k), ..st },
            Some(n) => if absence_of(st.absent, s.owner, now) < LEAVE_GRACE_SECS * 1000 {
                LeaveSt { absent: absence_started(st.absent, s.owner, now), ..st }
            } else {
                LeaveSt {
                    absent: absence_started(st.absent, s.owner, now).remove(s.owner),
                    tombs: kept(st.tombs, n, s.count),
                    despawned: st.despawned.push(k),
                }
            },
        }
    }
}

/// The first `n` cursors handled in order.
pub open spec fn leave_all(st: LeaveSt, own: u64, live: Seq<u64>, now: u64, slots: Seq<Slot>, n: int) -> LeaveSt
    decreases n,
{
    if n <= 0 {
        st
    } else {
        leave_one(leave_all(st, own, live, now, slots, n - 1), own, live, now, n - 1, slots[n - 1])
    }
}

/// Positions as integers.
pub open spec fn positions(v: Seq<usize>) -> Seq<int> {
    v.map_values(|k: usize| k as int)
}

/// `absent` without the ids of `live`.
pub open spec fn without_live(absent: Map<u64, u64>, live: Seq<u64>) -> Map<u64, u64>
    decreases live.len(),
{
    if live.len() == 0 {
        absent
    } else {
        without_live(absent, live.drop_last()).remove(live.last())
    }
}

/// Despawns the cursors whose owners left the roster (see [`leave_one`]),
/// then forgets the absences of owners back in the roster. `members` are
/// the lobby's roster members. Returns the positions of the cursors to
/// despawn, in order.
pub fn despawn_on_leave(slots: &Vec<Slot>, members: &Vec<Peer>, ctx: &mut LeaveCtx) -> (despawned: Vec<usize>)
    requires
        old(ctx).tombstones.wf(),
    ensures
        final(ctx).tombstones.wf(),
        ({
            let live = ids_of(peers_v(members@));
            let r = leave_all(
                LeaveSt {
                    absent: old(ctx).absent@,
                    tombs: old(ctx).tombstones.entries@,
                    despawned: Seq::empty(),
                },
                old(ctx).own,
                live,
                old(ctx).now,
                slots@,
                slots@.len() as int,
            );
            &&& final(ctx).absent@ == without_live(r.absent, live)
            &&& final(ctx).tombstones.entries@ == r.tombs
            &&& positions(despawned@) == r.despawned
        }),
        final(ctx).lobby == old(ctx).lobby,
        final(ctx).own == old(ctx).own,
        final(ctx).now == old(ctx).now,
{
    let mut live: Vec<u64> = Vec::new();
    let mut m: usize = 0;
    while m < members.len()
        invariant
            m <= members@.len(),
            live@ == ids_of(peers_v(members@)).take(m as int),
        decreases members@.len() - m,
    {
        proof {
            assert(ids_of(peers_v(members@)).take(m + 1) =~= live@.push(members@[m as int].id));
        }
        live.push(members[m].id);
        m = m + 1;
    }
    proof {
        lemma_take_all(ids_of(peers_v(members@)));
    }
    let ghost init = LeaveSt { absent: ctx.absent@, tombs: ctx.tombstones.entries@, despawned: Seq::empty() };
    let mut despawned: Vec<usize> = Vec::new();
    let mut i: usize = 0;
    proof {
        assert(positions(despawned@) =~= Seq::<int>::empty());
    }
    while i < slots.len()
        invariant
            i <= slots@.len(),
            live@ == ids_of(peers_v(members@)),
            ctx.tombstones.wf(),
            ctx.lobby == old(ctx).lobby,
            ctx.own == old(ctx).own,
            ctx.now == old(ctx).now,
            init == (LeaveSt { absent: old(ctx).absent@, tombs: old(ctx).tombstones.entries@, despawned: Seq::empty() }),
            leave_all(init, ctx.own, live@, ctx.now, slots@, i as int) == (LeaveSt {
                absent: ctx.absent@,
                tombs: ctx.tombstones.entries@,
                despawned: positions(despawned@),
            }),
        decreases slots@.len() - i,
    {
        let s = slots[i];
        if s.owner != ctx.own && !contains_id(&live, s.owner) {
            match s.player {
                None => {
                    proof {
                        assert(positions(despawned@.push(i)) =~= positions(despawned@).push(i as int));
                    }
                    despawned.push(i);
                },
                Some(n) => {
                    let absence = absence_secs(ctx, s.owner);
                    if absence >= LEAVE_GRACE_SECS * 1000 {
                        ctx.absent.remove(&s.owner);
                        ctx.tombstones.keep(n, s.count);
                        proof {
                            assert(positions(despawned@.push(i)) =~= positions(despawned@).push(i as int));
                        }
                        despawned.push(i);
                    }
                },
            }
        }
        i = i + 1;
    }
    let ghost r_absent = ctx.absent@;
    let ghost r_tombs = ctx.tombstones.entries@;
    let mut j: usize = 0;
    while j < live.len()
        invariant
            j <= live@.len(),
            ctx.absent@ == without_live(r_absent, live@.take(j as int)),
            ctx.tombstones.wf(),
            ctx.lobby == old(ctx).lobby,
            ctx.own == old(ctx).own,
            ctx.now == old(ctx).now,
            ctx.tombstones.entries@ == r_tombs,
        decreases live@.len() - j,
    {
        proof {
            assert(live@.take(j + 1).drop_last() =~= live@.take(j as int));
        }
        ctx.absent.remove(&live[j]);
        j = j + 1;
    }
    proof {
        lemma_take_all(live@);
    }
    despawned
}

} // verus!
