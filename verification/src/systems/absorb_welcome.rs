use vstd::prelude::*;
use vstd::utf8::encode_utf8;

use crate::digest::{blake3_digest, roster_key};
use crate::idset::{contains_name, names};
use crate::lobby::{JoinClock, JoinGate};
use crate::model::ActiveLobby;
use crate::wire::{
    edits_v, events_v, lemma_edits_push, lemma_run_step, lemma_take_all, lemma_views_push,
    lemma_views_skip, run, CommandV, CursorMsg, Event, EventV, MsgV, PeerV, RosterEdit,
    RosterEditV,
};

verus! {

/// `v` with `x` added unless present.
pub open spec fn add_name(v: Seq<Seq<char>>, x: Seq<char>) -> Seq<Seq<char>> {
    if v.contains(x) {
        v
    } else {
        v.push(x)
    }
}

/// `u` joined by the names of `list`, in order.
pub open spec fn union_with(u: Seq<Seq<char>>, list: Seq<Seq<char>>) -> Seq<Seq<char>>
    decreases list.len(),
{
    if list.len() == 0 {
        u
    } else {
        add_name(union_with(u, list.drop_last()), list.last())
    }
}

/// The roster entry that adds `peer` to `room`, keyed by the digest of its
/// name.
pub open spec fn add_edit(room: Seq<char>, peer: Seq<char>) -> RosterEditV {
    RosterEditV::Add { room, key: blake3_digest(encode_utf8(peer)), peer }
}

/// The roster additions for the names of `list` that `known` lacks.
pub open spec fn additions(room: Seq<char>, known: Seq<Seq<char>>, list: Seq<Seq<char>>) -> Seq<RosterEditV>
    decreases list.len(),
{
    if list.len() == 0 {
        Seq::empty()
    } else {
        let prev = additions(room, known, list.drop_last());
        if known.contains(list.last()) {
            prev
        } else {
            prev.push(add_edit(room, list.last()))
        }
    }
}

/// The names a welcome brings: its sender, the peers it advertises and the
/// joiners it mentions.
pub open spec fn welcome_names(from: PeerV, peers: Seq<Seq<char>>, joining: Seq<Seq<char>>) -> Seq<Seq<char>> {
    seq![from.name] + peers + joining
}

/// What absorbing welcomes changes.
pub struct WelcomeSt {
    pub expected: Option<Seq<Seq<char>>>,
    pub last_new_peer: Option<u64>,
    pub known: Seq<Seq<char>>,
    pub edits: Seq<RosterEditV>,
}

/// The names of an optional list.
pub open spec fn opt_names(v: Option<Vec<String>>) -> Option<Seq<Seq<char>>> {
    match v {
        Some(x) => Some(names(x@)),
        None => None,
    }
}

/// One event of absorbing welcomes. A welcome for our lobby adds its
/// sender, advertised peers and joiners to the expected set (which becomes
/// known), adds those the roster lacks to the roster, stamps `now` as the
/// time of the last new peer when the expected set grew, and passes on our
/// own score from it as a sync acknowledgement from its sender; welcomes
/// for other rooms and stray join requests are consumed; everything else
/// passes on.
pub open spec fn welcome_step(lobby: Seq<char>, own: u64, now: u64) -> spec_fn(WelcomeSt, EventV) -> (
    WelcomeSt,
    Seq<EventV>,
    Seq<CommandV>,
) {
    |st: WelcomeSt, e: EventV|
        match e {
            EventV::Message { from, payload } => match payload {
                MsgV::Welcome { room, peers, own_score, joining } => if room == lobby {
                    let list = welcome_names(from, peers, joining);
                    let before = match st.expected {
                        Some(u) => u,
                        None => Seq::empty(),
                    };
                    let union = union_with(before, list);
                    let adds = additions(room, st.known, list);
                    (
                        WelcomeSt {
                            expected: Some(union),
                            last_new_peer: if union.len() > before.len() {
                                Some(now)
                            } else {
                                st.last_new_peer
                            },
                            known: st.known + list,
                            edits: st.edits + adds,
                        },
                        seq![
                            EventV::Message {
                                from,
                                payload: MsgV::SyncAck { target: own, entries: seq![own_score] },
                            },
                        ],
                        Seq::empty(),
                    )
                } else {
                    (st, Seq::empty(), Seq::empty())
                },
                MsgV::WantJoin { .. } => (st, Seq::empty(), Seq::empty()),
                _ => (st, seq![e], Seq::empty()),
            },
            _ => (st, seq![e], Seq::empty()),
        }
}

/// The welcome state held by the exec values.
pub open spec fn welcome_state(gate: JoinGate, clock: JoinClock, known: Seq<Seq<char>>, edits: Seq<RosterEdit>) -> WelcomeSt {
    WelcomeSt {
        expected: opt_names(gate.expected),
        last_new_peer: clock.last_new_peer,
        known,
        edits: edits_v(edits),
    }
}

/// Absorbs one welcome for our lobby.
fn absorb_welcome_lists(
    room: &String,
    list: &Vec<String>,
    gate: &mut JoinGate,
    clock: &mut JoinClock,
    known: &Vec<String>,
    edits: &mut Vec<RosterEdit>,
    now: u64,
)
    ensures
        ({
            let before = match opt_names(old(gate).expected) {
                Some(u) => u,
                None => Seq::empty(),
            };
            let union = union_with(before, names(list@));
            &&& opt_names(final(gate).expected) == Some(union)
            &&& final(clock).last_new_peer == (if union.len() > before.len() {
                Some(now)
            } else {
                old(clock).last_new_peer
            })
            &&& final(clock).clicked_at == old(clock).clicked_at
            &&& edits_v(final(edits)@) == edits_v(old(edits)@) + additions(
                room@,
                names(known@),
                names(list@),
            )
        }),
        final(gate).synced == old(gate).synced,
        final(gate).committed == old(gate).committed,
        final(gate).pending == old(gate).pending,
        final(gate).absent == old(gate).absent,
{
    let mut taken: Option<Vec<String>> = None;
    std::mem::swap(&mut taken, &mut gate.expected);
    let mut union: Vec<String> = match taken {
        Some(v) => v,
        None => Vec::new(),
    };
    let ghost before = names(union@);
    proof {
        assert(before =~= (match opt_names(old(gate).expected) {
            Some(u) => u,
            None => Seq::<Seq<char>>::empty(),
        }));
    }
    let before_len = union.len();
    let ghost edits0 = edits_v(edits@);
    let mut i: usize = 0;
    while i < list.len()
        invariant
            i <= list@.len(),
            names(union@) == union_with(before, names(list@).take(i as int)),
            edits_v(edits@) == edits0 + additions(room@, names(known@), names(list@).take(i as int)),
            before.len() == before_len,
            gate.expected is None,
            gate.synced == old(gate).synced,
            gate.committed == old(gate).committed,
            gate.pending == old(gate).pending,
            gate.absent == old(gate).absent,
            clock == old(clock),
        decreases list@.len() - i,
    {
        proof {
            assert(names(list@).take(i + 1).drop_last() =~= names(list@).take(i as int));
            assert(names(list@).take(i + 1).last() == list@[i as int]@);
        }
        let peer = &list[i];
        if !contains_name(&union, peer) {
            let p = peer.clone();
            proof {
                assert(names(union@.push(p)) =~= names(union@).push(p@));
            }
            union.push(p);
        }
        if !contains_name(known, peer) {
            let key = roster_key(peer);
            let edit = RosterEdit::Add { room: room.clone(), key, peer: peer.clone() };
            proof {
                lemma_edits_push(edits@, edit);
            }
            edits.push(edit);
        }
        i = i + 1;
    }
    proof {
        lemma_take_all(names(list@));
    }
    if union.len() > before_len {
        clock.last_new_peer = Some(now);
    }
    gate.expected = Some(union);
}

/// Absorbs welcomes for our lobby (see [`welcome_step`]). `members` are the
/// lobby's roster members; returns the events passed on and the roster
/// additions, in order.
pub fn absorb_welcome(
    events: Vec<Event>,
    lobby: &ActiveLobby,
    gate: &mut JoinGate,
    clock: &mut JoinClock,
    members: &Vec<String>,
    own: u64,
    now: u64,
) -> (out: (Vec<Event>, Vec<RosterEdit>))
    ensures
        ({
            let r = run(
                events_v(events@),
                welcome_state(*old(gate), *old(clock), names(members@), Seq::empty()),
                welcome_step(lobby.0@, own, now),
            );
            &&& opt_names(final(gate).expected) == r.0.expected
            &&& final(clock).last_new_peer == r.0.last_new_peer
            &&& edits_v(out.1@) == r.0.edits
            &&& events_v(out.0@) == r.1
        }),
        final(clock).clicked_at == old(clock).clicked_at,
        final(gate).synced == old(gate).synced,
        final(gate).committed == old(gate).committed,
        final(gate).pending == old(gate).pending,
        final(gate).absent == old(gate).absent,
{
    let ghost src = events@;
    let ghost step = welcome_step(lobby.0@, own, now);
    let mut known: Vec<String> = members.clone();
    let mut events = events;
    let mut rest: Vec<Event> = Vec::new();
    let mut edits: Vec<RosterEdit> = Vec::new();
    let ghost init = welcome_state(*gate, *clock, names(members@), edits@);
    let ghost mut i: int = 0;
    proof {
        assert(names(known@) =~= names(members@));
        assert(events_v(rest@) =~= Seq::<EventV>::empty());
        assert(init.edits =~= Seq::<RosterEditV>::empty());
    }
    while events.len() > 0
        invariant
            0 <= i <= src.len(),
            events@ == src.skip(i),
            step == welcome_step(lobby.0@, own, now),
            init == welcome_state(*old(gate), *old(clock), names(members@), Seq::empty()),
            clock.clicked_at == old(clock).clicked_at,
            gate.synced == old(gate).synced,
            gate.committed == old(gate).committed,
            gate.pending == old(gate).pending,
            gate.absent == old(gate).absent,
            run(events_v(src).take(i), init, step) == (
                welcome_state(*gate, *clock, names(known@), edits@),
                events_v(rest@),
                Seq::<CommandV>::empty(),
            ),
        decreases events.len(),
    {
        let e = events.remove(0);
        proof {
            assert(e == src[i]);
            lemma_views_skip(src, i);
            lemma_run_step(events_v(src), i, init, step);
            assert(src.skip(i + 1) =~= src.skip(i).drop_first());
        }
        match e {
            Event::Message { from, payload } => match payload {
                CursorMsg::Welcome { room, mut peers, own_score, mut joining } => {
                    if room == lobby.0 {
                        let ghost pv = names(peers@);
                        let ghost jv = names(joining@);
                        let mut list: Vec<String> = Vec::new();
                        list.push(from.name.clone());
                        list.append(&mut peers);
                        list.append(&mut joining);
                        proof {
                            assert(names(list@) =~= welcome_names(from@, pv, jv));
                        }
                        absorb_welcome_lists(&room, &list, gate, clock, &known, &mut edits, now);
                        let ghost known0 = names(known@);
                        known.append(&mut list);
                        proof {
                            assert(names(known@) =~= known0 + welcome_names(from@, pv, jv));
                        }
                        let mut entries: Vec<(u64, i32)> = Vec::new();
                        entries.push(own_score);
                        let back = Event::Message {
                            from,
                            payload: CursorMsg::SyncAck { target: own, entries },
                        };
                        proof {
                            lemma_views_push(rest@, back);
                            assert(entries@ =~= seq![own_score]);
                        }
                        rest.push(back);
                    } else {
                        proof {
                            assert(events_v(rest@) =~= events_v(rest@) + Seq::<EventV>::empty());
                        }
                    }
                },
                CursorMsg::WantJoin { room } => {
                    proof {
                        assert(events_v(rest@) =~= events_v(rest@) + Seq::<EventV>::empty());
                    }
                },
                other => {
                    let back = Event::Message { from, payload: other };
                    proof {
                        lemma_views_push(rest@, back);
                    }
                    rest.push(back);
                },
            },
            other => {
                proof {
                    lemma_views_push(rest@, other);
                }
                rest.push(other);
            },
        }
        proof {
            i = i + 1;
        }
    }
    proof {
        lemma_take_all(events_v(src));
    }
    (rest, edits)
}

} // verus!
