use vstd::prelude::*;
use vstd::string::StringExecFns;

use crate::model::PendingReveal;
use crate::text::{decimal_of, u64_to_string};

verus! {

/// The whole seconds, rounded up, left until a waiting cursor's deadline:
/// its reveal when it knows its number, else the time its join gives up.
pub open spec fn countdown_secs(marker: PendingReveal, now_ms: u64) -> nat {
    let deadline = if marker.player is Some { marker.reveal_at } else { marker.fail_at };
    let millis: int = if deadline > now_ms { deadline - now_ms } else { 0 };
    let padded: int = if millis + 999 > u64::MAX { u64::MAX as int } else { millis + 999 };
    (padded / 1000) as nat
}

/// The countdown label of a waiting cursor: the seconds left (see
/// [`countdown_secs`]) followed by `s`.
pub fn tick_join_countdown(marker: &PendingReveal, now_ms: u64) -> (r: String)
    ensures
        r@ == decimal_of(countdown_secs(*marker, now_ms)) + "s"@,
{
    let deadline = if marker.player.is_some() { marker.reveal_at } else { marker.fail_at };
    let millis = if deadline > now_ms { deadline - now_ms } else { 0 };
    let secs = millis.saturating_add(999) / 1000;
    let mut r = u64_to_string(secs);
    r.append("s");
    r
}

} // verus!
