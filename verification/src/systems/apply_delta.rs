use vstd::prelude::*;

use crate::model::{sat_add, saturating_add_i32, Slot};
use crate::seqs::{first_index, lemma_first_index_bounds};
use crate::systems::answer_join::owned_by;
use crate::systems::spawn_pending_join::find_owned;
use crate::wire::{
    events_v, lemma_run_step, lemma_take_all, lemma_views_push, lemma_views_skip, run,
    CommandV, CursorMsg, Event, EventV, MsgV, PendingClick, PendingClicks,
};

verus! {

/// Crediting a click of `delta` that `sender` reports for `owner`: a click
/// reported for our own cursor is ignored (our count is ours to keep);
/// otherwise the sender's first cursor gets the clicks, whatever owner the
/// message names; without one, the click is parked.
pub open spec fn credited(
    slots: Seq<Slot>,
    pending: Seq<PendingClick>,
    own: u64,
    sender: u64,
    owner: u64,
    delta: i32,
) -> (Seq<Slot>, Seq<PendingClick>) {
    if owner == own {
        (slots, pending)
    } else {
        let k = first_index(slots, owned_by(sender));
        if k >= 0 {
            (slots.update(k, Slot { count: sat_add(slots[k].count as int, delta as int) as i32, ..slots[k] }), pending)
        } else {
            (slots, pending.push(PendingClick { sender, owner, delta, absolute: false }))
        }
    }
}

/// Credits a click that `sender` reports for `owner` (see [`credited`]).
pub fn credit_click(slots: &mut Vec<Slot>, pending: &mut PendingClicks, own: u64, sender: u64, owner: u64, delta: i32)
    ensures
        (final(slots)@, final(pending).items@) == credited(old(slots)@, old(pending).items@, own, sender, owner, delta),
        final(pending).parked == old(pending).parked,
{
    if owner == own {
        return;
    }
    proof {
        lemma_first_index_bounds(slots@, owned_by(sender));
    }
    match find_owned(slots, sender) {
        Some(k) => {
            let mut slot = slots[k];
            slot.count = saturating_add_i32(slot.count, delta);
            slots.set(k, slot);
        },
        None => {
            pending.items.push(PendingClick { sender, owner, delta, absolute: false });
        },
    }
}

/// One event of applying direct clicks: a click message is credited and
/// consumed; peer-exchange, join requests and welcomes are consumed; sync
/// messages, moves, commits and other events pass on.
pub open spec fn delta_step(own: u64) -> spec_fn((Seq<Slot>, Seq<PendingClick>), EventV) -> (
    (Seq<Slot>, Seq<PendingClick>),
    Seq<EventV>,
    Seq<CommandV>,
) {
    |st: (Seq<Slot>, Seq<PendingClick>), e: EventV|
        match e {
            EventV::Message { from, payload } => match payload {
                MsgV::Click { owner, delta } => (
                    credited(st.0, st.1, own, from.id, owner, delta),
                    Seq::empty(),
                    Seq::empty(),
                ),
                MsgV::PexAsk(_) => (st, Seq::empty(), Seq::empty()),
                MsgV::PexResp(_) => (st, Seq::empty(), Seq::empty()),
                MsgV::WantJoin { .. } => (st, Seq::empty(), Seq::empty()),
                MsgV::Welcome { .. } => (st, Seq::empty(), Seq::empty()),
                _ => (st, seq![e], Seq::empty()),
            },
            _ => (st, seq![e], Seq::empty()),
        }
}

/// Applies the clicks that peers send directly (see [`delta_step`]);
/// returns the events passed on.
pub fn apply_delta(events: Vec<Event>, slots: &mut Vec<Slot>, pending: &mut PendingClicks, own: u64) -> (rest: Vec<Event>)
    ensures
        ({
            let r = run(events_v(events@), (old(slots)@, old(pending).items@), delta_step(own));
            &&& (final(slots)@, final(pending).items@) == r.0
            &&& events_v(rest@) == r.1
        }),
        final(pending).parked == old(pending).parked,
{
    let ghost src = events@;
    let ghost init = (slots@, pending.items@);
    let ghost step = delta_step(own);
    let mut events = events;
    let mut rest: Vec<Event> = Vec::new();
    let ghost mut i: int = 0;
    proof {
        assert(events_v(rest@) =~= Seq::<EventV>::empty());
    }
    while events.len() > 0
        invariant
            0 <= i <= src.len(),
            events@ == src.skip(i),
            step == delta_step(own),
            init == (old(slots)@, old(pending).items@),
            pending.parked == old(pending).parked,
            run(events_v(src).take(i), init, step) == ((slots@, pending.items@), events_v(rest@), Seq::<CommandV>::empty()),
        decreases events.len(),
    {
        let e = events.remove(0);
        proof {
            assert(e == src[i]);
            lemma_views_skip(src, i);
            lemma_run_step(events_v(src), i, init, step);
            assert(src.skip(i + 1) =~= src.skip(i).drop_first());
        }
        match e {
            Event::Message { from, payload } => match payload {
                CursorMsg::Click { owner, delta } => {
                    credit_click(slots, pending, own, from.id, owner, delta);
                    proof {
                        assert(events_v(rest@) =~= events_v(rest@) + Seq::<EventV>::empty());
                    }
                },
                CursorMsg::PexAsk(raw) => {
                    proof {
                        assert(events_v(rest@) =~= events_v(rest@) + Seq::<EventV>::empty());
                    }
                },
                CursorMsg::PexResp(raw) => {
                    proof {
                        assert(events_v(rest@) =~= events_v(rest@) + Seq::<EventV>::empty());
                    }
                },
                CursorMsg::WantJoin { room } => {
                    proof {
                        assert(events_v(rest@) =~= events_v(rest@) + Seq::<EventV>::empty());
                    }
                },
                CursorMsg::Welcome { room, peers, own_score, joining } => {
                    proof {
                        assert(events_v(rest@) =~= events_v(rest@) + Seq::<EventV>::empty());
                    }
                },
                other => {
                    let back = Event::Message { from, payload: other };
                    proof {
                        lemma_views_push(rest@, back);
                    }
                    rest.push(back);
                },
            },
            other => {
                proof {
                    lemma_views_push(rest@, other);
                }
                rest.push(other);
            },
        }
        proof {
            i = i + 1;
        }
    }
    proof {
        lemma_take_all(events_v(src));
    }
    rest
}

} // verus!
