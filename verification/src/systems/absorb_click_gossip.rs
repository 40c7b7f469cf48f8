use vstd::prelude::*;

use crate::model::{ActiveLobby, Slot};
use crate::systems::apply_delta::{credit_click, credited};
use crate::topics::{click_topic, click_topic_of};
use crate::wire::{
    events_v, lemma_run_step, lemma_take_all, lemma_views_push, lemma_views_skip, run,
    CommandV, CursorMsg, Event, EventV, MsgV, PendingClick, PendingClicks,
};

verus! {

/// One event of absorbing gossiped clicks: gossip on the lobby's click
/// topic is consumed, and a click in it from another peer is credited;
/// everything else passes on.
pub open spec fn click_gossip_step(own: u64, topic: Seq<char>) -> spec_fn((Seq<Slot>, Seq<PendingClick>), EventV) -> (
    (Seq<Slot>, Seq<PendingClick>),
    Seq<EventV>,
    Seq<CommandV>,
) {
    |st: (Seq<Slot>, Seq<PendingClick>), e: EventV|
        match e {
            EventV::Gossip { topic: t, from, decoded, .. } => if t == topic {
                if from.id == own {
                    (st, Seq::empty(), Seq::empty())
                } else {
                    match decoded {
                        Some(MsgV::Click { owner, delta }) => (
                            credited(st.0, st.1, own, from.id, owner, delta),
                            Seq::empty(),
                            Seq::empty(),
                        ),
                        _ => (st, Seq::empty(), Seq::empty()),
                    }
                }
            } else {
                (st, seq![e], Seq::empty())
            },
            _ => (st, seq![e], Seq::empty()),
        }
}

/// Credits the clicks gossiped on the lobby's click topic (see
/// [`click_gossip_step`]); returns the events passed on.
pub fn absorb_click_gossip(
    events: Vec<Event>,
    slots: &mut Vec<Slot>,
    pending: &mut PendingClicks,
    lobby: &ActiveLobby,
    own: u64,
) -> (rest: Vec<Event>)
    ensures
        ({
            let r = run(
                events_v(events@),
                (old(slots)@, old(pending).items@),
                click_gossip_step(own, click_topic_of(lobby.0@)),
            );
            &&& (final(slots)@, final(pending).items@) == r.0
            &&& events_v(rest@) == r.1
        }),
        final(pending).parked == old(pending).parked,
{
    let topic = click_topic(lobby);
    let ghost src = events@;
    let ghost init = (slots@, pending.items@);
    let ghost step = click_gossip_step(own, topic@);
    let mut events = events;
    let mut rest: Vec<Event> = Vec::new();
    let ghost mut i: int = 0;
    proof {
        assert(events_v(rest@) =~= Seq::<EventV>::empty());
    }
    while events.len() > 0
        invariant
            0 <= i <= src.len(),
            events@ == src.skip(i),
            step == click_gossip_step(own, topic@),
            init == (old(slots)@, old(pending).items@),
            pending.parked == old(pending).parked,
            run(events_v(src).take(i), init, step) == ((slots@, pending.items@), events_v(rest@), Seq::<CommandV>::empty()),
        decreases events.len(),
    {
        let e = events.remove(0);
        proof {
            assert(e == src[i]);
            lemma_views_skip(src, i);
            lemma_run_step(events_v(src), i, init, step);
            assert(src.skip(i + 1) =~= src.skip(i).drop_first());
        }
        let on_topic = match &e {
            Event::Gossip { topic: t, .. } => *t == topic,
            _ => false,
        };
        if on_topic {
            if let Event::Gossip { from, decoded, .. } = e {
                if from.id != own {
                    if let Some(CursorMsg::Click { owner, delta }) = decoded {
                        credit_click(slots, pending, own, from.id, owner, delta);
                    }
                }
            }
            proof {
                assert(events_v(rest@) =~= events_v(rest@) + Seq::<EventV>::empty());
            }
        } else {
            proof {
                lemma_views_push(rest@, e);
            }
            rest.push(e);
        }
        proof {
            i = i + 1;
        }
    }
    proof {
        lemma_take_all(events_v(src));
    }
    rest
}

} // verus!
