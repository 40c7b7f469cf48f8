use vstd::prelude::*;
use vstd::string::StringExecFns;

use crate::idset::names;
use crate::lobby::{
    armed, pending_for, JoinClock, JoinGate, PendingJoin, JOIN_COMMIT_CAP_SECS,
    JOIN_REVEAL_MS, PENDING_JOIN_FAIL_SECS,
};
use crate::model::ActiveLobby;
use crate::systems::absorb_sync::{synced_contains, synced_names};
use crate::text::{decimal_of, u64_to_string};
use crate::topics::{pos_topic, pos_topic_of};
use crate::wire::{Command, CommandV, CursorMsg, MsgV};

verus! {

/// `a + b`, or `a` when that overflows.
pub open spec fn add_or_keep(a: u64, b: int) -> u64 {
    if a + b <= u64::MAX {
        (a + b) as u64
    } else {
        a
    }
}

/// Whether every expected peer acknowledged our sync (false while the
/// expected set is unknown).
pub open spec fn all_synced(gate: JoinGate) -> bool {
    match gate.expected {
        Some(wanted) => all_in(names(wanted@), synced_names(gate.synced@)),
        None => false,
    }
}

/// Whether every name of `wanted` occurs in `have`.
pub open spec fn all_in(wanted: Seq<Seq<char>>, have: Seq<Seq<char>>) -> bool {
    forall|i: int| 0 <= i < wanted.len() ==> have.contains(#[trigger] wanted[i])
}

/// Whether the join was clicked at least the commit cap ago.
pub open spec fn capped(clock: JoinClock, now: u64) -> bool {
    match clock.clicked_at {
        Some(at) => (if now >= at { now - at } else { 0 }) / 1000 >= JOIN_COMMIT_CAP_SECS,
        None => false,
    }
}

/// Whether the joiner may commit: all expected peers acked, or the cap
/// elapsed since the join click.
pub open spec fn is_ready(gate: JoinGate, clock: JoinClock, now: u64) -> bool {
    all_synced(gate) || capped(clock, now)
}

/// Whether the join commits now: it was clicked, we are not pending nor
/// committed, the lobby is named and the joiner is ready.
pub open spec fn commits(gate: JoinGate, clock: JoinClock, lobby: Seq<char>, own: u64, now: u64) -> bool {
    &&& clock.clicked_at is Some
    &&& !pending_for(gate.pending@, own)
    &&& !gate.committed
    &&& lobby.len() > 0
    &&& is_ready(gate, clock, now)
}

/// The label of our own pending join.
pub open spec fn self_label(own: u64) -> Seq<char> {
    "self-"@ + decimal_of(own as nat)
}

/// Whether every expected peer acknowledged our sync.
fn all_acked(gate: &JoinGate) -> (r: bool)
    ensures
        r == all_synced(*gate),
{
    match &gate.expected {
        Some(wanted) => {
            let mut i: usize = 0;
            while i < wanted.len()
                invariant
                    i <= wanted@.len(),
                    gate.expected == Some(*wanted),
                    forall|j: int| 0 <= j < i ==> synced_names(gate.synced@).contains(#[trigger] names(wanted@)[j]),
                decreases wanted@.len() - i,
            {
                if !synced_contains(&gate.synced, &wanted[i]) {
                    proof {
                        assert(gate.expected == Some(*wanted));
                        assert(names(wanted@)[i as int] == wanted@[i as int]@);
                        assert(!synced_names(gate.synced@).contains(names(wanted@)[i as int]));
                        assert(!all_synced(*gate));
                    }
                    return false;
                }
                proof {
                    assert(names(wanted@)[i as int] == wanted@[i as int]@);
                }
                i = i + 1;
            }
            true
        },
        None => false,
    }
}

/// Whether the joiner may commit: all expected peers acked, or the cap
/// elapsed since the join click.
pub fn ready(gate: &JoinGate, clock: &JoinClock, now: u64) -> (r: bool)
    ensures
        r == is_ready(*gate, *clock, now),
{
    let synced = all_acked(gate);
    let over = match clock.clicked_at {
        Some(at) => now.saturating_sub(at) / 1000 >= JOIN_COMMIT_CAP_SECS,
        None => false,
    };
    synced || over
}

/// Commits our join once the joiner is ready (see [`commits`]): marks the
/// gate committed, arms our own pending join (labeled `self-` and our id,
/// revealing after the reveal delay and failing after the fail delay,
/// both from `now` in milliseconds), and returns the commit to publish on
/// the lobby's move topic. Otherwise changes nothing and returns `None`.
pub fn decide_join_commit(gate: &mut JoinGate, clock: &JoinClock, lobby: &ActiveLobby, own: u64, now: u64) -> (r: Option<Command>)
    ensures
        commits(*old(gate), *clock, lobby.0@, own, now) ==> {
            &&& final(gate).committed
            &&& final(gate).pending@ == armed(
                old(gate).pending@,
                final(gate).pending@.last(),
            )
            &&& final(gate).pending@.last().peer@ == self_label(own)
            &&& final(gate).pending@.last().joiner == own
            &&& final(gate).pending@.last().reveal_at == add_or_keep(now, JOIN_REVEAL_MS as int)
            &&& final(gate).pending@.last().fail_at == add_or_keep(now, PENDING_JOIN_FAIL_SECS * 1000)
            &&& r matches Some(c) && c@ == CommandV::Publish {
                topic: pos_topic_of(lobby.0@),
                payload: MsgV::JoinCommit {
                    room: lobby.0@,
                    joiner: own,
                    starts_in_ms: JOIN_REVEAL_MS,
                },
            }
        },
        !commits(*old(gate), *clock, lobby.0@, own, now) ==> r is None && *final(gate) == *old(gate),
        final(gate).expected == old(gate).expected,
        final(gate).synced == old(gate).synced,
        final(gate).absent == old(gate).absent,
{
    if clock.clicked_at.is_none() || gate.has_pending(own) || gate.committed {
        return None;
    }
    let empty = String::new();
    if lobby.0 == empty {
        proof {
            assert(lobby.0@ =~= Seq::<char>::empty());
        }
        return None;
    }
    proof {
        if lobby.0@.len() == 0 {
            assert(lobby.0@ =~= empty@);
        }
    }
    if !ready(gate, clock, now) {
        return None;
    }
    gate.committed = true;
    let reveal_at = match now.checked_add(JOIN_REVEAL_MS) {
        Some(t) => t,
        None => now,
    };
    let fail_at = match now.checked_add(PENDING_JOIN_FAIL_SECS * 1000) {
        Some(t) => t,
        None => now,
    };
    let mut label = String::from_str("self-");
    let digits = u64_to_string(own);
    label.append(digits.as_str());
    let entry = PendingJoin { peer: label, joiner: own, reveal_at, fail_at };
    gate.arm_pending(entry);
    let topic = pos_topic(lobby);
    Some(Command::Publish {
        topic,
        payload: CursorMsg::JoinCommit { room: lobby.0.clone(), joiner: own, starts_in_ms: JOIN_REVEAL_MS },
    })
}

} // verus!
