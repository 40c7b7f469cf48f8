use vstd::prelude::*;

use crate::idset::names;
use crate::model::{ActiveLobby, Slot};
use crate::seqs::{
    first_index, lemma_first_index_bounds, lemma_first_index_found, lemma_first_index_miss,
    lemma_first_index_none,
};
use crate::wire::{
    commands_v, events_v, lemma_commands_push, lemma_filter_step, lemma_run_step, lemma_take_all,
    lemma_views_push, lemma_views_skip, run, Command, CommandV, CursorMsg, Event, EventV, MsgV,
};

verus! {

/// A name other than `name`.
pub open spec fn not_named(name: Seq<char>) -> spec_fn(Seq<char>) -> bool {
    |n: Seq<char>| n != name
}

/// A slot owned by `owner`.
pub open spec fn owned_by(owner: u64) -> spec_fn(Slot) -> bool {
    |s: Slot| s.owner == owner
}

/// Our own score: the clicks of the first slot we own, or 0.
pub open spec fn own_score(slots: Seq<Slot>, own: u64) -> i32 {
    let k = first_index(slots, owned_by(own));
    if k >= 0 {
        slots[k].count
    } else {
        0
    }
}

/// One event of answering joins. A join request for our lobby is answered
/// to the requester with a welcome listing the lobby's roster members other
/// than the requester and our own score; join requests for other rooms are
/// consumed; everything else passes on.
pub open spec fn answer_step(
    lobby: Seq<char>,
    members: Seq<Seq<char>>,
    own: u64,
    slots: Seq<Slot>,
) -> spec_fn((), EventV) -> ((), Seq<EventV>, Seq<CommandV>) {
    |st: (), e: EventV|
        match e {
            EventV::Message { from, payload: MsgV::WantJoin { room } } => if room == lobby {
                (
                    (),
                    Seq::empty(),
                    seq![
                        CommandV::Send {
                            peer_id: from.name,
                            payload: MsgV::Welcome {
                                room,
                                peers: members.filter(not_named(from.name)),
                                own_score: (own, own_score(slots, own)),
                                joining: Seq::empty(),
                            },
                        },
                    ],
                )
            } else {
                ((), Seq::empty(), Seq::empty())
            },
            _ => ((), seq![e], Seq::empty()),
        }
}

/// Our own score: the clicks of the first slot we own, or 0.
pub fn find_own_score(slots: &Vec<Slot>, own: u64) -> (r: i32)
    ensures
        r == own_score(slots@, own),
{
    proof {
        lemma_first_index_bounds(slots@, owned_by(own));
    }
    let mut i: usize = 0;
    while i < slots.len()
        invariant
            i <= slots@.len(),
            first_index(slots@.take(i as int), owned_by(own)) == -1,
        decreases slots@.len() - i,
    {
        if slots[i].owner == own {
            proof {
                lemma_first_index_found(slots@, i as int, owned_by(own));
            }
            return slots[i].count;
        }
        proof {
            lemma_first_index_miss(slots@, i as int, owned_by(own));
        }
        i = i + 1;
    }
    proof {
        lemma_first_index_none(slots@, owned_by(own));
    }
    0
}

/// The members other than `name`, in order.
pub fn others(members: &Vec<String>, name: &String) -> (r: Vec<String>)
    ensures
        names(r@) == names(members@).filter(not_named(name@)),
{
    let mut r: Vec<String> = Vec::new();
    let mut i: usize = 0;
    while i < members.len()
        invariant
            i <= members@.len(),
            names(r@) == names(members@).take(i as int).filter(not_named(name@)),
        decreases members@.len() - i,
    {
        proof {
            lemma_filter_step(names(members@), i as int, not_named(name@));
            assert(names(members@)[i as int] == members@[i as int]@);
        }
        if members[i] != *name {
            let m = members[i].clone();
            proof {
                assert(names(r@.push(m)) =~= names(r@).push(m@));
            }
            r.push(m);
        }
        i = i + 1;
    }
    proof {
        lemma_take_all(names(members@));
    }
    r
}

/// Answers join requests for our lobby with a welcome (see
/// [`answer_step`]); `members` are the lobby's roster members in roster
/// order. Returns the events passed on and the commands to send.
pub fn answer_join(
    events: Vec<Event>,
    lobby: &ActiveLobby,
    members: &Vec<String>,
    own: u64,
    slots: &Vec<Slot>,
) -> (out: (Vec<Event>, Vec<Command>))
    ensures
        ({
            let r = run(events_v(events@), (), answer_step(lobby.0@, names(members@), own, slots@));
            &&& events_v(out.0@) == r.1
            &&& commands_v(out.1@) == r.2
        }),
{
    let ghost src = events@;
    let ghost step = answer_step(lobby.0@, names(members@), own, slots@);
    let mut events = events;
    let mut rest: Vec<Event> = Vec::new();
    let mut commands: Vec<Command> = Vec::new();
    let ghost mut i: int = 0;
    proof {
        assert(events_v(rest@) =~= Seq::<EventV>::empty());
        assert(commands_v(commands@) =~= Seq::<CommandV>::empty());
    }
    while events.len() > 0
        invariant
            0 <= i <= src.len(),
            events@ == src.skip(i),
            step == answer_step(lobby.0@, names(members@), own, slots@),
            run(events_v(src).take(i), (), step) == ((), events_v(rest@), commands_v(commands@)),
        decreases events.len(),
    {
        let e = events.remove(0);
        proof {
            assert(e == src[i]);
            lemma_views_skip(src, i);
            lemma_run_step(events_v(src), i, (), step);
            assert(src.skip(i + 1) =~= src.skip(i).drop_first());
        }
        match e {
            Event::Message { from, payload: CursorMsg::WantJoin { room } } => {
                if room == lobby.0 {
                    let peers = others(members, &from.name);
                    let score = find_own_score(slots, own);
                    let c = Command::Send {
                        peer_id: from.name,
                        payload: CursorMsg::Welcome {
                            room,
                            peers,
                            own_score: (own, score),
                            joining: Vec::new(),
                        },
                    };
                    proof {
                        lemma_commands_push(commands@, c);
                        assert(names(Seq::<String>::empty()) =~= Seq::<Seq<char>>::empty());
                    }
                    commands.push(c);
                }
                proof {
                    assert(events_v(rest@) =~= events_v(rest@) + Seq::<EventV>::empty());
                }
            },
            other => {
                proof {
                    lemma_views_push(rest@, other);
                }
                rest.push(other);
            },
        }
        proof {
            i = i + 1;
        }
    }
    proof {
        lemma_take_all(events_v(src));
    }
    (rest, commands)
}

} // verus!
