use vstd::prelude::*;

use crate::lobby::SyncedPeer;
use crate::model::{raise, raised, Slot};
use crate::seqs::{
    first_index, lemma_first_index_bounds, lemma_first_index_found, lemma_first_index_miss,
    lemma_first_index_none,
};
use crate::systems::sync_ctx::{snapshot_entries, sync_entries, SyncCtx};
use crate::systems::sync_global::{no_dups, seen_next};
use crate::wire::{
    commands_v, events_v, lemma_commands_push, lemma_run_step, lemma_take_all, lemma_views_push,
    lemma_views_skip, run, Command, CommandV, CursorMsg, Event, EventV, MsgV, PendingClick,
    PendingClicks,
};

verus! {

/// Whether a slot is the one a score for `id` belongs to: owned by `id` or
/// labeled with it.
pub open spec fn slot_for(id: u64) -> spec_fn(Slot) -> bool {
    |s: Slot| s.owner == id || s.player == Some(id)
}

/// Merging one `(id, score)` pair from `sender`: the first slot for `id`
/// is raised toward the score; without one, the score is parked.
pub open spec fn merge_entry(
    slots: Seq<Slot>,
    pending: Seq<PendingClick>,
    sender: u64,
    e: (u64, i32),
) -> (Seq<Slot>, Seq<PendingClick>) {
    let k = first_index(slots, slot_for(e.0));
    if k >= 0 {
        (
            slots.update(k, Slot { count: raised(slots[k].count as int, e.1 as int) as i32, ..slots[k] }),
            pending,
        )
    } else {
        (slots, pending.push(PendingClick { sender, owner: e.0, delta: e.1, absolute: true }))
    }
}

/// Merging all pairs of `entries` in order.
pub open spec fn merge_all(
    slots: Seq<Slot>,
    pending: Seq<PendingClick>,
    sender: u64,
    entries: Seq<(u64, i32)>,
) -> (Seq<Slot>, Seq<PendingClick>)
    decreases entries.len(),
{
    if entries.len() == 0 {
        (slots, pending)
    } else {
        let prev = merge_all(slots, pending, sender, entries.drop_last());
        merge_entry(prev.0, prev.1, sender, entries.last())
    }
}

/// What the sync exchange changes between events.
pub struct SyncSt {
    pub slots: Seq<Slot>,
    pub pending: Seq<PendingClick>,
    pub synced: Seq<Seq<char>>,
    pub seen: Seq<u64>,
}

/// The names of the synced peers.
pub open spec fn synced_names(v: Seq<SyncedPeer>) -> Seq<Seq<char>> {
    v.map_values(|p: SyncedPeer| p.0@)
}

/// One event of the sync exchange. A sync request from another node is
/// answered to its sender with our scores; an acknowledgement addressed to
/// us marks its sender synced and merges its scores; requests from
/// ourselves, acknowledgements for others and peer-exchange messages are
/// consumed; everything else passes on.
pub open spec fn sync_step(own: u64, tombs: Seq<(u64, i32)>) -> spec_fn(SyncSt, EventV) -> (
    SyncSt,
    Seq<EventV>,
    Seq<CommandV>,
) {
    |st: SyncSt, e: EventV|
        match e {
            EventV::Message { from, payload } => match payload {
                MsgV::SyncReq { requester } => if requester == own {
                    (st, Seq::empty(), Seq::empty())
                } else {
                    let seen = seen_next(st.seen, st.slots, tombs);
                    (
                        SyncSt { slots: st.slots, pending: st.pending, synced: st.synced, seen },
                        Seq::empty(),
                        seq![
                            CommandV::Send {
                                peer_id: from.name,
                                payload: MsgV::SyncAck {
                                    target: requester,
                                    entries: sync_entries(st.slots, tombs, seen),
                                },
                            },
                        ],
                    )
                },
                MsgV::SyncAck { target, entries } => if target != own {
                    (st, Seq::empty(), Seq::empty())
                } else {
                    let synced = if st.synced.contains(from.name) {
                        st.synced
                    } else {
                        st.synced.push(from.name)
                    };
                    let m = merge_all(st.slots, st.pending, from.id, entries);
                    (SyncSt { slots: m.0, pending: m.1, synced, seen: st.seen }, Seq::empty(), Seq::empty())
                },
                MsgV::PexAsk(_) => (st, Seq::empty(), Seq::empty()),
                MsgV::PexResp(_) => (st, Seq::empty(), Seq::empty()),
                _ => (st, seq![e], Seq::empty()),
            },
            _ => (st, seq![e], Seq::empty()),
        }
}

/// The position of the first slot for `id`, if any.
pub fn find_slot_for(slots: &Vec<Slot>, id: u64) -> (r: Option<usize>)
    ensures
        r matches Some(i) ==> i == first_index(slots@, slot_for(id)),
        r is None ==> first_index(slots@, slot_for(id)) == -1,
{
    proof {
        lemma_first_index_bounds(slots@, slot_for(id));
    }
    let mut i: usize = 0;
    let mut found: Option<usize> = None;
    while i < slots.len()
        invariant
            i <= slots@.len(),
            found is None,
            first_index(slots@.take(i as int), slot_for(id)) == -1,
        decreases slots@.len() - i,
    {
        if slots[i].owner == id || slots[i].player == Some(id) {
            proof {
                lemma_first_index_found(slots@, i as int, slot_for(id));
            }
            return Some(i);
        }
        proof {
            lemma_first_index_miss(slots@, i as int, slot_for(id));
        }
        i = i + 1;
    }
    proof {
        lemma_first_index_none(slots@, slot_for(id));
    }
    found
}

/// Max-merges a peer's scores: each `(id, score)` raises the first slot
/// owned by or labeled with `id`; a score without a slot is parked as an
/// absolute pending score from `sender`.
pub fn merge_entries(
    slots: &mut Vec<Slot>,
    pending: &mut PendingClicks,
    sender: u64,
    entries: Vec<(u64, i32)>,
)
    ensures
        (final(slots)@, final(pending).items@) == merge_all(
            old(slots)@,
            old(pending).items@,
            sender,
            entries@,
        ),
        final(pending).parked == old(pending).parked,
{
    let mut k: usize = 0;
    while k < entries.len()
        invariant
            k <= entries@.len(),
            (slots@, pending.items@) == merge_all(
                old(slots)@,
                old(pending).items@,
                sender,
                entries@.take(k as int),
            ),
            pending.parked == old(pending).parked,
        decreases entries@.len() - k,
    {
        proof {
            assert(entries@.take(k + 1).drop_last() =~= entries@.take(k as int));
        }
        let (id, count) = entries[k];
        match find_slot_for(slots, id) {
            Some(j) => {
                proof {
                    lemma_first_index_bounds(slots@, slot_for(id));
                }
                let mut slot = slots[j];
                slot.count = raise(slot.count, count);
                slots.set(j, slot);
            },
            None => {
                pending.items.push(PendingClick { sender, owner: id, delta: count, absolute: true });
            },
        }
        k = k + 1;
    }
    proof {
        lemma_take_all(entries@);
    }
}

/// Whether `name` is among the synced peers.
pub fn synced_contains(v: &Vec<SyncedPeer>, name: &String) -> (r: bool)
    ensures
        r == synced_names(v@).contains(name@),
{
    let mut i: usize = 0;
    while i < v.len()
        invariant
            i <= v@.len(),
            forall|j: int| 0 <= j < i ==> v@[j].0@ != name@,
        decreases v@.len() - i,
    {
        if v[i].0 == *name {
            proof {
                assert(synced_names(v@)[i as int] == name@);
            }
            return true;
        }
        i = i + 1;
    }
    proof {
        if synced_names(v@).contains(name@) {
            let k = choose|k: int| 0 <= k < synced_names(v@).len() && synced_names(v@)[k] == name@;
            assert(v@[k].0@ == name@);
        }
    }
    false
}

/// The sync state held by the exec values.
pub open spec fn sync_state(slots: Seq<Slot>, pending: Seq<PendingClick>, ctx: SyncCtx) -> SyncSt {
    SyncSt { slots, pending, synced: synced_names(ctx.gate.synced@), seen: ctx.seen@ }
}

/// Handles one event of the sync exchange (see [`sync_step`]).
fn absorb_one(
    e: Event,
    slots: &mut Vec<Slot>,
    pending: &mut PendingClicks,
    own: u64,
    ctx: &mut SyncCtx,
    rest: &mut Vec<Event>,
    commands: &mut Vec<Command>,
)
    requires
        old(ctx).tombstones.wf(),
        no_dups(old(ctx).seen@),
    ensures
        ({
            let r = sync_step(own, old(ctx).tombstones.entries@)(
                sync_state(old(slots)@, old(pending).items@, *old(ctx)),
                e@,
            );
            &&& sync_state(final(slots)@, final(pending).items@, *final(ctx)) == r.0
            &&& events_v(final(rest)@) == events_v(old(rest)@) + r.1
            &&& commands_v(final(commands)@) == commands_v(old(commands)@) + r.2
        }),
        final(ctx).tombstones == old(ctx).tombstones,
        final(ctx).gate.expected == old(ctx).gate.expected,
        final(ctx).gate.committed == old(ctx).gate.committed,
        final(ctx).gate.pending == old(ctx).gate.pending,
        final(ctx).gate.absent == old(ctx).gate.absent,
        no_dups(final(ctx).seen@),
        final(pending).parked == old(pending).parked,
{
    let ghost ev = e@;
    match e {
        Event::Message { from, payload } => match payload {
            CursorMsg::SyncReq { requester } => {
                if requester != own {
                    let entries = snapshot_entries(ctx, slots);
                    let c = Command::Send {
                        peer_id: from.name,
                        payload: CursorMsg::SyncAck { target: requester, entries },
                    };
                    proof {
                        lemma_commands_push(commands@, c);
                        assert(seq![c@] =~= seq![c@]);
                    }
                    commands.push(c);
                }
                proof {
                    assert(events_v(rest@) =~= events_v(rest@) + Seq::<EventV>::empty());
                    assert(commands_v(commands@) =~= commands_v(old(commands)@) + (if requester
                        == own { Seq::<CommandV>::empty() } else {
                        seq![commands@.last()@]
                    }));
                }
            },
            CursorMsg::SyncAck { target, entries } => {
                if target == own {
                    let known = synced_contains(&ctx.gate.synced, &from.name);
                    if !known {
                        let ghost before = ctx.gate.synced@;
                        ctx.gate.synced.push(SyncedPeer(from.name.clone()));
                        proof {
                            assert(synced_names(ctx.gate.synced@) =~= synced_names(before).push(
                                from.name@,
                            ));
                        }
                    }
                    merge_entries(slots, pending, from.id, entries);
                }
                proof {
                    assert(events_v(rest@) =~= events_v(rest@) + Seq::<EventV>::empty());
                    assert(commands_v(commands@) =~= commands_v(commands@) + Seq::<CommandV>::empty());
                }
            },
            CursorMsg::PexAsk(raw) => {
                proof {
                    assert(events_v(rest@) =~= events_v(rest@) + Seq::<EventV>::empty());
                    assert(commands_v(commands@) =~= commands_v(commands@) + Seq::<CommandV>::empty());
                }
            },
            CursorMsg::PexResp(raw) => {
                proof {
                    assert(events_v(rest@) =~= events_v(rest@) + Seq::<EventV>::empty());
                    assert(commands_v(commands@) =~= commands_v(commands@) + Seq::<CommandV>::empty());
                }
            },
            other => {
                let back = Event::Message { from, payload: other };
                proof {
                    assert(back@ == ev);
                    lemma_views_push(rest@, back);
                    assert(commands_v(commands@) =~= commands_v(commands@) + Seq::<CommandV>::empty());
                }
                rest.push(back);
            },
        },
        other => {
            proof {
                lemma_views_push(rest@, other);
                assert(commands_v(commands@) =~= commands_v(commands@) + Seq::<CommandV>::empty());
            }
            rest.push(other);
        },
    }
}

/// Answers sync requests with our scores and merges the acknowledgements
/// addressed to us (see [`sync_step`]); returns the events passed on and
/// the commands to send.
pub fn absorb_sync(
    events: Vec<Event>,
    slots: &mut Vec<Slot>,
    pending: &mut PendingClicks,
    own: u64,
    ctx: &mut SyncCtx,
) -> (out: (Vec<Event>, Vec<Command>))
    requires
        old(ctx).tombstones.wf(),
        no_dups(old(ctx).seen@),
    ensures
        ({
            let r = run(
                events_v(events@),
                sync_state(old(slots)@, old(pending).items@, *old(ctx)),
                sync_step(own, old(ctx).tombstones.entries@),
            );
            &&& sync_state(final(slots)@, final(pending).items@, *final(ctx)) == r.0
            &&& events_v(out.0@) == r.1
            &&& commands_v(out.1@) == r.2
        }),
        final(ctx).tombstones == old(ctx).tombstones,
        final(ctx).gate.expected == old(ctx).gate.expected,
        final(ctx).gate.committed == old(ctx).gate.committed,
        final(ctx).gate.pending == old(ctx).gate.pending,
        final(ctx).gate.absent == old(ctx).gate.absent,
        final(pending).parked == old(pending).parked,
        no_dups(final(ctx).seen@),
{
    let ghost src = events@;
    let ghost init = sync_state(slots@, pending.items@, *ctx);
    let ghost step = sync_step(own, ctx.tombstones.entries@);
    let mut events = events;
    let mut rest: Vec<Event> = Vec::new();
    let mut commands: Vec<Command> = Vec::new();
    let ghost mut i: int = 0;
    proof {
        assert(events_v(src).take(0) =~= Seq::<EventV>::empty());
        assert(events_v(rest@) =~= Seq::<EventV>::empty());
        assert(commands_v(commands@) =~= Seq::<CommandV>::empty());
    }
    while events.len() > 0
        invariant
            0 <= i <= src.len(),
            events@ == src.skip(i),
            ctx.tombstones == old(ctx).tombstones,
            ctx.gate.expected == old(ctx).gate.expected,
            ctx.gate.committed == old(ctx).gate.committed,
            ctx.gate.pending == old(ctx).gate.pending,
            ctx.gate.absent == old(ctx).gate.absent,
            pending.parked == old(pending).parked,
            ctx.tombstones.wf(),
            no_dups(ctx.seen@),
            step == sync_step(own, ctx.tombstones.entries@),
            run(events_v(src).take(i), init, step) == (
                sync_state(slots@, pending.items@, *ctx),
                events_v(rest@),
                commands_v(commands@),
            ),
        decreases events.len(),
    {
        let e = events.remove(0);
        proof {
            assert(e == src[i]);
            lemma_views_skip(src, i);
            lemma_run_step(events_v(src), i, init, step);
            assert(src.skip(i + 1) =~= src.skip(i).drop_first());
        }
        absorb_one(e, slots, pending, own, ctx, &mut rest, &mut commands);
        proof {
            i = i + 1;
        }
    }
    proof {
        assert(events_v(src).take(i) =~= events_v(src));
    }
    (rest, commands)
}

} // verus!
