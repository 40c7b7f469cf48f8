use vstd::prelude::*;

use crate::model::{raise, raised, ActiveLobby, Slot};
use crate::seqs::{first_index, lemma_first_index_bounds};
use crate::systems::absorb_sync::{find_slot_for, slot_for};
use crate::systems::answer_join::owned_by;
use crate::systems::spawn_pending_join::find_owned;
use crate::tombstones::{kept, ScoreTombstones};
use crate::wire::{
    events_v, lemma_run_step, lemma_take_all, lemma_views_push, lemma_views_skip, run,
    CommandV, Event, EventV, SNAPSHOT_CHUNK,
};

verus! {

/// One snapshot score applied to the cursors and the kept scores. Our own
/// score raises the first cursor we own; another id raises its first cursor
/// (owned by or labeled with it), or is kept when no cursor has it. Nothing
/// is ever lowered.
pub open spec fn snapshot_entry(
    st: (Seq<Slot>, Seq<(u64, i32)>),
    own: u64,
    e: (u64, i32),
) -> (Seq<Slot>, Seq<(u64, i32)>) {
    let slots = st.0;
    if e.0 == own {
        let k = first_index(slots, owned_by(e.0));
        if k >= 0 {
            (slots.update(k, Slot { count: raised(slots[k].count as int, e.1 as int) as i32, ..slots[k] }), st.1)
        } else {
            st
        }
    } else {
        let k = first_index(slots, slot_for(e.0));
        if k >= 0 {
            (slots.update(k, Slot { count: raised(slots[k].count as int, e.1 as int) as i32, ..slots[k] }), st.1)
        } else {
            (slots, kept(st.1, e.0, e.1))
        }
    }
}

/// All scores of a snapshot applied in order.
pub open spec fn snapshot_entries(
    st: (Seq<Slot>, Seq<(u64, i32)>),
    own: u64,
    entries: Seq<(u64, i32)>,
) -> (Seq<Slot>, Seq<(u64, i32)>)
    decreases entries.len(),
{
    if entries.len() == 0 {
        st
    } else {
        snapshot_entry(snapshot_entries(st, own, entries.drop_last()), own, entries.last())
    }
}

/// One event of absorbing snapshots: the snapshot chunk of our lobby is
/// consumed and, when it decodes, its scores are applied; everything else
/// passes on.
pub open spec fn snapshot_step(own: u64, lobby: Seq<char>) -> spec_fn((Seq<Slot>, Seq<(u64, i32)>), EventV) -> (
    (Seq<Slot>, Seq<(u64, i32)>),
    Seq<EventV>,
    Seq<CommandV>,
) {
    |st: (Seq<Slot>, Seq<(u64, i32)>), e: EventV|
        match e {
            EventV::HistoryChunk { lobby: l, chunk, decoded, .. } => if l == lobby && chunk == SNAPSHOT_CHUNK {
                match decoded {
                    Some(snap) => (snapshot_entries(st, own, snap.entries), Seq::empty(), Seq::empty()),
                    None => (st, Seq::empty(), Seq::empty()),
                }
            } else {
                (st, seq![e], Seq::empty())
            },
            _ => (st, seq![e], Seq::empty()),
        }
}

/// Applies the scores of one snapshot (see [`snapshot_entry`]).
pub fn absorb_entries(slots: &mut Vec<Slot>, tombstones: &mut ScoreTombstones, own: u64, entries: &Vec<(u64, i32)>)
    requires
        old(tombstones).wf(),
    ensures
        final(tombstones).wf(),
        (final(slots)@, final(tombstones).entries@) == snapshot_entries(
            (old(slots)@, old(tombstones).entries@),
            own,
            entries@,
        ),
{
    let ghost init = (slots@, tombstones.entries@);
    let mut i: usize = 0;
    while i < entries.len()
        invariant
            i <= entries@.len(),
            init == (old(slots)@, old(tombstones).entries@),
            tombstones.wf(),
            (slots@, tombstones.entries@) == snapshot_entries(init, own, entries@.take(i as int)),
        decreases entries@.len() - i,
    {
        let (id, count) = entries[i];
        proof {
            assert(entries@.take(i + 1).drop_last() =~= entries@.take(i as int));
            assert(entries@.take(i + 1).last() == (id, count));
        }
        if id == own {
            proof {
                lemma_first_index_bounds(slots@, owned_by(id));
            }
            if let Some(k) = find_owned(slots, id) {
                let mut s = slots[k];
                s.count = raise(s.count, count);
                slots.set(k, s);
            }
        } else {
            proof {
                lemma_first_index_bounds(slots@, slot_for(id));
            }
            match find_slot_for(slots, id) {
                Some(k) => {
                    let mut s = slots[k];
                    s.count = raise(s.count, count);
                    slots.set(k, s);
                },
                None => {
                    tombstones.keep(id, count);
                },
            }
        }
        i = i + 1;
    }
    proof {
        lemma_take_all(entries@);
    }
}

/// Absorbs the lobby's score snapshot from the history (see
/// [`snapshot_step`]); returns the events passed on.
pub fn absorb_snapshot(
    events: Vec<Event>,
    slots: &mut Vec<Slot>,
    tombstones: &mut ScoreTombstones,
    lobby: &ActiveLobby,
    own: u64,
) -> (rest: Vec<Event>)
    requires
        old(tombstones).wf(),
    ensures
        final(tombstones).wf(),
        ({
            let r = run(events_v(events@), (old(slots)@, old(tombstones).entries@), snapshot_step(own, lobby.0@));
            &&& (final(slots)@, final(tombstones).entries@) == r.0
            &&& events_v(rest@) == r.1
        }),
{
    let ghost src = events@;
    let ghost init = (slots@, tombstones.entries@);
    let ghost step = snapshot_step(own, lobby.0@);
    let mut events = events;
    let mut rest: Vec<Event> = Vec::new();
    let ghost mut i: int = 0;
    proof {
        assert(events_v(rest@) =~= Seq::<EventV>::empty());
    }
    while events.len() > 0
        invariant
            0 <= i <= src.len(),
            events@ == src.skip(i),
            step == snapshot_step(own, lobby.0@),
            init == (old(slots)@, old(tombstones).entries@),
            tombstones.wf(),
            run(events_v(src).take(i), init, step) == ((slots@, tombstones.entries@), events_v(rest@), Seq::<CommandV>::empty()),
        decreases events.len(),
    {
        let e = events.remove(0);
        proof {
            assert(e == src[i]);
            lemma_views_skip(src, i);
            lemma_run_step(events_v(src), i, init, step);
            assert(src.skip(i + 1) =~= src.skip(i).drop_first());
        }
        let ours = match &e {
            Event::HistoryChunk { lobby: l, chunk, .. } => *l == lobby.0 && *chunk == SNAPSHOT_CHUNK,
            _ => false,
        };
        if ours {
            if let Event::HistoryChunk { decoded, .. } = e {
                if let Some(snap) = decoded {
                    absorb_entries(slots, tombstones, own, &snap.entries);
                }
            }
            proof {
                assert(events_v(rest@) =~= events_v(rest@) + Seq::<EventV>::empty());
            }
        } else {
            proof {
                lemma_views_push(rest@, e);
            }
            rest.push(e);
        }
        proof {
            i = i + 1;
        }
    }
    proof {
        lemma_take_all(events_v(src));
    }
    rest
}

} // verus!
