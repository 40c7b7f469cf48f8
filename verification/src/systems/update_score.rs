use vstd::prelude::*;
use vstd::string::StringExecFns;

use crate::model::{GlobalCounter, Slot};
use crate::systems::answer_join::{find_own_score, own_score};
use crate::text::{i32_to_string, int_text};

verus! {

/// The two score lines: our own clicks (those of the first cursor we own,
/// or 0) and the global count.
pub fn update_score(slots: &Vec<Slot>, global: &GlobalCounter, own: u64) -> (r: (String, String))
    ensures
        r.0@ == "you: "@ + int_text(own_score(slots@, own) as int),
        r.1@ == "global: "@ + int_text(global.0 as int),
{
    let mine = find_own_score(slots, own);
    let mut mine_text = String::from_str("you: ");
    let digits = i32_to_string(mine);
    mine_text.append(digits.as_str());
    let mut global_text = String::from_str("global: ");
    let g = i32_to_string(global.0);
    global_text.append(g.as_str());
    (mine_text, global_text)
}

} // verus!
