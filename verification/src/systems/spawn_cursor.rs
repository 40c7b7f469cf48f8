use vstd::prelude::*;

use crate::model::Slot;

verus! {

/// Our own cursor as it starts: owned by us, carrying our own number, with
/// no clicks and no pending reveal.
pub open spec fn own_cursor(own: u64) -> Slot {
    Slot { owner: own, player: Some(own), count: 0, reveal: None }
}

/// Adds our own cursor once the game window exists (`window_ready`).
pub fn spawn_cursor(slots: &mut Vec<Slot>, own: u64, window_ready: bool)
    ensures
        final(slots)@ == (if window_ready { old(slots)@.push(own_cursor(own)) } else { old(slots)@ }),
{
    if window_ready {
        slots.push(Slot { owner: own, player: Some(own), count: 0, reveal: None });
    }
}

} // verus!
