use vstd::prelude::*;

use crate::model::{sat_add, saturating_add_i32, ActiveLobby, AutoClick, GlobalCounter, Slot};
use crate::seqs::{first_index, lemma_first_index_bounds};
use crate::systems::answer_join::owned_by;
use crate::systems::spawn_pending_join::find_owned;
use crate::topics::{click_topic, click_topic_of};
use crate::wire::{Command, CommandV, CursorMsg, MsgV};

verus! {

/// The announcement of one click of ours: a click of one for our own
/// cursor, published on the lobby's click topic.
pub open spec fn click_announcement(lobby: Seq<char>, own: u64) -> CommandV {
    CommandV::Publish { topic: click_topic_of(lobby), payload: MsgV::Click { owner: own, delta: 1 } }
}

/// The cursors after one click of ours: the first cursor we own gains a
/// click (saturating).
pub open spec fn clicked(slots: Seq<Slot>, own: u64) -> Seq<Slot> {
    let k = first_index(slots, owned_by(own));
    slots.update(k, Slot { count: sat_add(slots[k].count as int, 1) as i32, ..slots[k] })
}

/// One click of ours: our cursor and the global count each gain one, and
/// the click is announced to the lobby.
pub fn click(slot: &mut Slot, global: &mut GlobalCounter, lobby: &ActiveLobby, own: u64) -> (c: Command)
    ensures
        *final(slot) == (Slot { count: sat_add(old(slot).count as int, 1) as i32, ..*old(slot) }),
        final(global).0 == sat_add(old(global).0 as int, 1),
        c@ == click_announcement(lobby.0@, own),
{
    slot.count = saturating_add_i32(slot.count, 1);
    global.add(1);
    Command::Publish { topic: click_topic(lobby), payload: CursorMsg::Click { owner: own, delta: 1 } }
}

/// Clicks our first cursor, if we have one; returns the announcement.
fn click_own(slots: &mut Vec<Slot>, global: &mut GlobalCounter, lobby: &ActiveLobby, own: u64) -> (r: Option<Command>)
    ensures
        first_index(old(slots)@, owned_by(own)) >= 0 ==> {
            &&& final(slots)@ == clicked(old(slots)@, own)
            &&& final(global).0 == sat_add(old(global).0 as int, 1)
            &&& r matches Some(c) && c@ == click_announcement(lobby.0@, own)
        },
        first_index(old(slots)@, owned_by(own)) < 0 ==> {
            &&& final(slots)@ == old(slots)@
            &&& *final(global) == *old(global)
            &&& r is None
        },
{
    proof {
        lemma_first_index_bounds(slots@, owned_by(own));
    }
    match find_owned(slots, own) {
        Some(k) => {
            let mut s = slots[k];
            let c = click(&mut s, global, lobby, own);
            slots.set(k, s);
            Some(c)
        },
        None => None,
    }
}

/// A press of the left mouse button (`pressed`) clicks our cursor.
pub fn detect_click(
    pressed: bool,
    slots: &mut Vec<Slot>,
    global: &mut GlobalCounter,
    lobby: &ActiveLobby,
    own: u64,
) -> (r: Option<Command>)
    ensures
        pressed && first_index(old(slots)@, owned_by(own)) >= 0 ==> {
            &&& final(slots)@ == clicked(old(slots)@, own)
            &&& final(global).0 == sat_add(old(global).0 as int, 1)
            &&& r matches Some(c) && c@ == click_announcement(lobby.0@, own)
        },
        !(pressed && first_index(old(slots)@, owned_by(own)) >= 0) ==> {
            &&& final(slots)@ == old(slots)@
            &&& *final(global) == *old(global)
            &&& r is None
        },
{
    if !pressed {
        return None;
    }
    click_own(slots, global, lobby, own)
}

/// Whether at least a second has passed from `last_ms` to `now_ms`.
pub open spec fn second_passed(last_ms: u64, now_ms: u64) -> bool {
    now_ms - last_ms >= 1000
}

/// Whether at least a second has passed since `last_ms`; when it has,
/// `now_ms` becomes the last time.
pub fn second_elapsed(last_ms: &mut u64, now_ms: u64) -> (r: bool)
    ensures
        r == second_passed(*old(last_ms), now_ms),
        *final(last_ms) == (if r { now_ms } else { *old(last_ms) }),
{
    if now_ms >= *last_ms && now_ms - *last_ms >= 1000 {
        *last_ms = now_ms;
        true
    } else {
        false
    }
}

/// While auto-click is on, clicks our cursor once a second.
pub fn auto_tick(
    auto: &AutoClick,
    last_ms: &mut u64,
    now_ms: u64,
    slots: &mut Vec<Slot>,
    global: &mut GlobalCounter,
    lobby: &ActiveLobby,
    own: u64,
) -> (r: Option<Command>)
    ensures
        ({
            let fires = auto.0 && second_passed(*old(last_ms), now_ms);
            &&& *final(last_ms) == (if fires { now_ms } else { *old(last_ms) })
            &&& (fires && first_index(old(slots)@, owned_by(own)) >= 0) ==> {
                &&& final(slots)@ == clicked(old(slots)@, own)
                &&& final(global).0 == sat_add(old(global).0 as int, 1)
                &&& r matches Some(c) && c@ == click_announcement(lobby.0@, own)
            }
            &&& !(fires && first_index(old(slots)@, owned_by(own)) >= 0) ==> {
                &&& final(slots)@ == old(slots)@
                &&& *final(global) == *old(global)
                &&& r is None
            }
        }),
{
    if !auto.0 {
        return None;
    }
    if !second_elapsed(last_ms, now_ms) {
        return None;
    }
    click_own(slots, global, lobby, own)
}

} // verus!
