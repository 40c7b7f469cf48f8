use vstd::prelude::*;

use crate::model::ActiveLobby;
use crate::seqs::{
    first_index, lemma_first_index_bounds, lemma_first_index_found, lemma_first_index_miss,
    lemma_first_index_none,
};
use crate::topics::{pos_topic, pos_topic_of};
use crate::wire::{
    events_v, lemma_run_step, lemma_take_all, lemma_views_push, lemma_views_skip, run,
    CommandV, CursorMsg, Event, EventV, MsgV,
};

verus! {

/// Where a remote cursor is heading: its owner and the bit patterns of the
/// two `f32` coordinates of its target.
#[derive(Debug, Clone, Copy, PartialEq, Eq)]
pub struct CursorTarget {
    pub owner: u64,
    pub x_bits: u32,
    pub y_bits: u32,
}

/// Whether a target belongs to `owner`.
pub open spec fn target_of(owner: u64) -> spec_fn(CursorTarget) -> bool {
    |t: CursorTarget| t.owner == owner
}

/// The targets after `sender` moved to `(x_bits, y_bits)`: the sender's
/// first target takes the position; without one nothing changes.
pub open spec fn moved(targets: Seq<CursorTarget>, sender: u64, x_bits: u32, y_bits: u32) -> Seq<CursorTarget> {
    let k = first_index(targets, target_of(sender));
    if k >= 0 {
        targets.update(k, CursorTarget { owner: targets[k].owner, x_bits, y_bits })
    } else {
        targets
    }
}

/// One event of absorbing cursor moves: gossip on the lobby's position
/// topic is consumed, and a move in it from another peer moves that peer's
/// cursor target; everything else passes on.
pub open spec fn pos_step(own: u64, topic: Seq<char>) -> spec_fn(Seq<CursorTarget>, EventV) -> (
    Seq<CursorTarget>,
    Seq<EventV>,
    Seq<CommandV>,
) {
    |st: Seq<CursorTarget>, e: EventV|
        match e {
            EventV::Gossip { topic: t, from, decoded, .. } => if t == topic {
                if from.id == own {
                    (st, Seq::empty(), Seq::empty())
                } else {
                    match decoded {
                        Some(MsgV::Move { x_bits, y_bits, .. }) => (
                            moved(st, from.id, x_bits, y_bits),
                            Seq::empty(),
                            Seq::empty(),
                        ),
                        _ => (st, Seq::empty(), Seq::empty()),
                    }
                }
            } else {
                (st, seq![e], Seq::empty())
            },
            _ => (st, seq![e], Seq::empty()),
        }
}

/// The position of the first target of `owner`, if any.
pub fn find_target(targets: &Vec<CursorTarget>, owner: u64) -> (r: Option<usize>)
    ensures
        r matches Some(i) ==> i == first_index(targets@, target_of(owner)),
        r is None ==> first_index(targets@, target_of(owner)) == -1,
{
    proof {
        lemma_first_index_bounds(targets@, target_of(owner));
    }
    let mut i: usize = 0;
    while i < targets.len()
        invariant
            i <= targets@.len(),
            first_index(targets@.take(i as int), target_of(owner)) == -1,
        decreases targets@.len() - i,
    {
        if targets[i].owner == owner {
            proof {
                lemma_first_index_found(targets@, i as int, target_of(owner));
            }
            return Some(i);
        }
        proof {
            lemma_first_index_miss(targets@, i as int, target_of(owner));
        }
        i = i + 1;
    }
    proof {
        lemma_first_index_none(targets@, target_of(owner));
    }
    None
}

/// Moves the cursor targets of the peers that gossip their position on the
/// lobby's position topic (see [`pos_step`]); returns the events passed on.
pub fn absorb_gossip(events: Vec<Event>, targets: &mut Vec<CursorTarget>, lobby: &ActiveLobby, own: u64) -> (rest: Vec<Event>)
    ensures
        ({
            let r = run(events_v(events@), old(targets)@, pos_step(own, pos_topic_of(lobby.0@)));
            &&& final(targets)@ == r.0
            &&& events_v(rest@) == r.1
        }),
{
    let topic = pos_topic(lobby);
    let ghost src = events@;
    let ghost init = targets@;
    let ghost step = pos_step(own, topic@);
    let mut events = events;
    let mut rest: Vec<Event> = Vec::new();
    let ghost mut i: int = 0;
    proof {
        assert(events_v(rest@) =~= Seq::<EventV>::empty());
    }
    while events.len() > 0
        invariant
            0 <= i <= src.len(),
            events@ == src.skip(i),
            step == pos_step(own, topic@),
            init == old(targets)@,
            run(events_v(src).take(i), init, step) == (targets@, events_v(rest@), Seq::<CommandV>::empty()),
        decreases events.len(),
    {
        let e = events.remove(0);
        proof {
            assert(e == src[i]);
            lemma_views_skip(src, i);
            lemma_run_step(events_v(src), i, init, step);
            assert(src.skip(i + 1) =~= src.skip(i).drop_first());
        }
        let on_topic = match &e {
            Event::Gossip { topic: t, .. } => *t == topic,
            _ => false,
        };
        if on_topic {
            if let Event::Gossip { from, decoded, .. } = e {
                if from.id != own {
                    if let Some(CursorMsg::Move { x_bits, y_bits, .. }) = decoded {
                        proof {
                            lemma_first_index_bounds(targets@, target_of(from.id));
                        }
                        if let Some(k) = find_target(targets, from.id) {
                            let t = CursorTarget { owner: targets[k].owner, x_bits, y_bits };
                            targets.set(k, t);
                        }
                    }
                }
            }
            proof {
                assert(events_v(rest@) =~= events_v(rest@) + Seq::<EventV>::empty());
            }
        } else {
            proof {
                lemma_views_push(rest@, e);
            }
            rest.push(e);
        }
        proof {
            i = i + 1;
        }
    }
    proof {
        lemma_take_all(events_v(src));
    }
    rest
}

} // verus!
