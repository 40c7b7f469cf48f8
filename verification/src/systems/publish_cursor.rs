use vstd::prelude::*;

use crate::model::ActiveLobby;
use crate::topics::{pos_topic, pos_topic_of};
use crate::wire::{Command, CommandV, CursorMsg, MsgV};

verus! {

/// How far apart, in milliseconds, two published positions are at least:
/// fifteen a second at most.
pub open spec fn rate_limited(last_ms: u64, now_ms: u64) -> bool {
    15 * (now_ms - last_ms) < 1000
}

/// How long, in milliseconds, a still cursor goes without republishing.
pub const POSITION_HEARTBEAT_MS: u64 = 5000;

/// What the position publisher remembers: when it last published
/// (milliseconds) and the position it published, as `f32` bit patterns;
/// none before the first publication.
#[derive(Debug, Clone, Copy, PartialEq, Eq)]
pub struct CursorPublish {
    pub last_ms: u64,
    pub last_pos: Option<(u32, u32)>,
}

impl Default for CursorPublish {
    fn default() -> (r: CursorPublish)
        ensures
            r.last_ms == 0,
            r.last_pos is None,
    {
        CursorPublish { last_ms: 0, last_pos: None }
    }
}

/// Whether our position is published at `now_ms`: we have a cursor, and
/// either nothing was published yet, or the rate limit allows it and the
/// cursor moved far enough (`moved_far`) or the heartbeat is due.
pub open spec fn position_due(st: CursorPublish, here: Option<(u32, u32)>, moved_far: bool, now_ms: u64) -> bool {
    let primed = st.last_pos is Some;
    &&& !(primed && rate_limited(st.last_ms, now_ms))
    &&& here is Some
    &&& !(primed && !moved_far && now_ms - st.last_ms < POSITION_HEARTBEAT_MS)
}

/// Publishes our cursor position (`here`, the bit patterns of its two
/// `f32` coordinates) on the lobby's position topic when it is due (see
/// [`position_due`]). `moved_far` tells whether it lies at least two units
/// from the position published last.
pub fn publish_cursor(
    st: &mut CursorPublish,
    here: Option<(u32, u32)>,
    moved_far: bool,
    lobby: &ActiveLobby,
    own: u64,
    now_ms: u64,
) -> (r: Option<Command>)
    ensures
        position_due(*old(st), here, moved_far, now_ms) ==> {
            &&& *final(st) == (CursorPublish { last_ms: now_ms, last_pos: here })
            &&& r matches Some(c) && c@ == (CommandV::Publish {
                topic: pos_topic_of(lobby.0@),
                payload: MsgV::Move { owner: own, x_bits: here.unwrap().0, y_bits: here.unwrap().1 },
            })
        },
        !position_due(*old(st), here, moved_far, now_ms) ==> *final(st) == *old(st) && r is None,
{
    let primed = st.last_pos.is_some();
    let elapsed: u64 = if now_ms >= st.last_ms { now_ms - st.last_ms } else { 0 };
    let too_soon = now_ms < st.last_ms || elapsed < 67 && 15 * elapsed < 1000;
    if primed && too_soon {
        return None;
    }
    let pos = match here {
        Some(p) => p,
        None => {
            return None;
        },
    };
    let heartbeat_due = now_ms >= st.last_ms && elapsed >= POSITION_HEARTBEAT_MS;
    if primed && !moved_far && !heartbeat_due {
        return None;
    }
    st.last_ms = now_ms;
    st.last_pos = Some(pos);
    Some(Command::Publish {
        topic: pos_topic(lobby),
        payload: CursorMsg::Move { owner: own, x_bits: pos.0, y_bits: pos.1 },
    })
}

} // verus!
