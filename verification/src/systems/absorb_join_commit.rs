use vstd::prelude::*;

use crate::lobby::{armed, JoinGate, PendingJoin, PENDING_JOIN_FAIL_SECS};
use crate::model::ActiveLobby;
use crate::systems::decide_join_commit::add_or_keep;
use crate::topics::{pos_topic, pos_topic_of};
use crate::wire::{lemma_take_all, CursorMsg, Event};

verus! {

/// The sender, joiner and reveal delay of a join commit for `room`, sent
/// directly or gossiped on `topic`, if `e` is one.
pub open spec fn commit_of(e: Event, topic: Seq<char>, room: Seq<char>) -> Option<(String, u64, u64)> {
    match e {
        Event::Message { from, payload: CursorMsg::JoinCommit { room: r, joiner, starts_in_ms } } => if r@
            == room {
            Some((from.name, joiner, starts_in_ms))
        } else {
            None
        },
        Event::Gossip {
            topic: t,
            from,
            decoded: Some(CursorMsg::JoinCommit { room: r, joiner, starts_in_ms }),
            ..
        } => if t@ == topic && r@ == room {
            Some((from.name, joiner, starts_in_ms))
        } else {
            None
        },
        _ => None,
    }
}

/// One event of absorbing join commits: a commit for our room is consumed,
/// and unless it is our own it arms the joiner's pending join, revealing
/// after the commit's delay and failing after the fail delay, from `now`;
/// everything else passes on.
pub open spec fn commit_step(
    pending: Seq<PendingJoin>,
    rest: Seq<Event>,
    e: Event,
    topic: Seq<char>,
    room: Seq<char>,
    own: u64,
    now: u64,
) -> (Seq<PendingJoin>, Seq<Event>) {
    match commit_of(e, topic, room) {
        None => (pending, rest.push(e)),
        Some((peer, joiner, starts)) => if joiner != own {
            (
                armed(
                    pending,
                    PendingJoin {
                        peer,
                        joiner,
                        reveal_at: add_or_keep(now, starts as int),
                        fail_at: add_or_keep(now, PENDING_JOIN_FAIL_SECS * 1000),
                    },
                ),
                rest,
            )
        } else {
            (pending, rest)
        },
    }
}

/// Join commits absorbed over the events in order.
pub open spec fn commit_all(
    pending: Seq<PendingJoin>,
    events: Seq<Event>,
    topic: Seq<char>,
    room: Seq<char>,
    own: u64,
    now: u64,
) -> (Seq<PendingJoin>, Seq<Event>)
    decreases events.len(),
{
    if events.len() == 0 {
        (pending, Seq::empty())
    } else {
        let prev = commit_all(pending, events.drop_last(), topic, room, own, now);
        commit_step(prev.0, prev.1, events.last(), topic, room, own, now)
    }
}

/// Arms the pending join of a committed joiner.
fn arm_joiner(gate: &mut JoinGate, peer: String, joiner: u64, starts_in_ms: u64, now: u64)
    ensures
        final(gate).pending@ == armed(
            old(gate).pending@,
            PendingJoin {
                peer,
                joiner,
                reveal_at: add_or_keep(now, starts_in_ms as int),
                fail_at: add_or_keep(now, PENDING_JOIN_FAIL_SECS * 1000),
            },
        ),
        final(gate).expected == old(gate).expected,
        final(gate).synced == old(gate).synced,
        final(gate).committed == old(gate).committed,
        final(gate).absent == old(gate).absent,
{
    let reveal_at = match now.checked_add(starts_in_ms) {
        Some(t) => t,
        None => now,
    };
    let fail_at = match now.checked_add(PENDING_JOIN_FAIL_SECS * 1000) {
        Some(t) => t,
        None => now,
    };
    gate.arm_pending(PendingJoin { peer, joiner, reveal_at, fail_at });
}

/// Absorbs join commits for our room (see [`commit_step`]); returns the
/// events passed on.
pub fn absorb_join_commit(events: Vec<Event>, lobby: &ActiveLobby, gate: &mut JoinGate, own: u64, now: u64) -> (rest: Vec<Event>)
    ensures
        (final(gate).pending@, rest@) == commit_all(
            old(gate).pending@,
            events@,
            pos_topic_of(lobby.0@),
            lobby.0@,
            own,
            now,
        ),
        final(gate).expected == old(gate).expected,
        final(gate).synced == old(gate).synced,
        final(gate).committed == old(gate).committed,
        final(gate).absent == old(gate).absent,
{
    let topic = pos_topic(lobby);
    let ghost src = events@;
    let mut events = events;
    let mut rest: Vec<Event> = Vec::new();
    let ghost mut i: int = 0;
    while events.len() > 0
        invariant
            0 <= i <= src.len(),
            events@ == src.skip(i),
            topic@ == pos_topic_of(lobby.0@),
            (gate.pending@, rest@) == commit_all(old(gate).pending@, src.take(i), topic@, lobby.0@, own, now),
            gate.expected == old(gate).expected,
            gate.synced == old(gate).synced,
            gate.committed == old(gate).committed,
            gate.absent == old(gate).absent,
        decreases events.len(),
    {
        let e = events.remove(0);
        proof {
            assert(e == src[i]);
            assert(src.take(i + 1).drop_last() =~= src.take(i));
            assert(src.skip(i + 1) =~= src.skip(i).drop_first());
        }
        match e {
            Event::Message { from, payload: CursorMsg::JoinCommit { room, joiner, starts_in_ms } } => {
                if room == lobby.0 {
                    if joiner != own {
                        arm_joiner(gate, from.name, joiner, starts_in_ms, now);
                    }
                } else {
                    rest.push(Event::Message { from, payload: CursorMsg::JoinCommit { room, joiner, starts_in_ms } });
                }
            },
            Event::Gossip { topic: incoming, from, data, decoded } => {
                let commit = match &decoded {
                    Some(CursorMsg::JoinCommit { room, joiner, starts_in_ms }) => {
                        if incoming == topic && *room == lobby.0 {
                            Some((*joiner, *starts_in_ms))
                        } else {
                            None
                        }
                    },
                    _ => None,
                };
                match commit {
                    Some((joiner, starts_in_ms)) => {
                        if joiner != own {
                            arm_joiner(gate, from.name, joiner, starts_in_ms, now);
                        }
                    },
                    None => {
                        rest.push(Event::Gossip { topic: incoming, from, data, decoded });
                    },
                }
            },
            other => {
                rest.push(other);
            },
        }
        proof {
            i = i + 1;
        }
    }
    proof {
        lemma_take_all(src);
    }
    rest
}

} // verus!
