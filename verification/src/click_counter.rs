use vstd::prelude::*;

use crate::model::{sat_add, saturating_add_i32, ClickCounter};

verus! {

/// Credits `delta` clicks to `counter`, saturating at the bounds of `i32`.
pub fn add(counter: &mut ClickCounter, delta: i32)
    ensures
        final(counter).0 == sat_add(old(counter).0 as int, delta as int),
{
    counter.0 = saturating_add_i32(counter.0, delta);
}

} // verus!
