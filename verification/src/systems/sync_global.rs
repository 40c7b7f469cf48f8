use vstd::prelude::*;

use crate::idset::{contains_id, insert_id};
use crate::model::{max_int, number_taken, sat_add, saturating_add_i32, GlobalCounter, Slot};
use crate::tombstones::{score_of, ScoreTombstones};

verus! {

/// What a slot adds to the room total: nothing while unlabeled, else its
/// count or the score kept for its number, whichever is larger.
pub open spec fn slot_value(s: Slot, tombs: Seq<(u64, i32)>) -> int {
    match s.player {
        None => 0,
        Some(n) => match score_of(tombs, n) {
            Some(t) => max_int(s.count as int, t as int),
            None => s.count as int,
        },
    }
}

/// The labeled slots' values summed in order, saturating at each step.
pub open spec fn live_total(slots: Seq<Slot>, tombs: Seq<(u64, i32)>) -> int
    decreases slots.len(),
{
    if slots.len() == 0 {
        0
    } else {
        let prev = live_total(slots.drop_last(), tombs);
        if slots.last().player is Some {
            sat_add(prev, slot_value(slots.last(), tombs))
        } else {
            prev
        }
    }
}

/// Whether a kept score counts on its own: its player was seen labeled
/// here and no slot carries its number now.
pub open spec fn retained(entry: (u64, i32), seen: Seq<u64>, slots: Seq<Slot>) -> bool {
    seen.contains(entry.0) && !number_taken(slots, entry.0)
}

/// `base` plus the retained kept scores of `tombs`, in order, saturating.
pub open spec fn retained_total(
    base: int,
    tombs: Seq<(u64, i32)>,
    seen: Seq<u64>,
    slots: Seq<Slot>,
) -> int
    decreases tombs.len(),
{
    if tombs.len() == 0 {
        base
    } else {
        let prev = retained_total(base, tombs.drop_last(), seen, slots);
        if retained(tombs.last(), seen, slots) {
            sat_add(prev, tombs.last().1 as int)
        } else {
            prev
        }
    }
}

/// The player numbers seen labeled after a frame: forgotten when no score
/// is kept, then joined by every labeled slot's number.
pub open spec fn seen_after(seen: Seq<u64>, slots: Seq<Slot>, tombs: Seq<(u64, i32)>, x: u64) -> bool {
    (tombs.len() > 0 && seen.contains(x)) || number_taken(slots, x)
}

/// The room total: the labeled slots plus the kept scores of players seen
/// here who left.
pub open spec fn room_total(slots: Seq<Slot>, tombs: Seq<(u64, i32)>, seen: Seq<u64>) -> int {
    retained_total(live_total(slots, tombs), tombs, seen, slots)
}

/// Whether `v` holds no value twice.
pub open spec fn no_dups(v: Seq<u64>) -> bool {
    forall|i: int, j: int| 0 <= i < v.len() && 0 <= j < v.len() && i != j ==> v[i] != v[j]
}

/// A number labels a slot of the first `i + 1` slots iff it labels one of
/// the first `i` or the slot at `i`.
pub proof fn lemma_taken_prefix(slots: Seq<Slot>, i: int, x: u64)
    requires
        0 <= i < slots.len(),
    ensures
        number_taken(slots.take(i + 1), x) <==> (number_taken(slots.take(i), x)
            || slots[i].player == Some(x)),
{
    let a = slots.take(i);
    let b = slots.take(i + 1);
    if number_taken(b, x) {
        let k = choose|k: int| 0 <= k < b.len() && #[trigger] b[k].player == Some(x);
        if k < i {
            assert(a[k] == b[k]);
        }
    }
    if number_taken(a, x) {
        let k = choose|k: int| 0 <= k < a.len() && #[trigger] a[k].player == Some(x);
        assert(b[k] == a[k]);
    }
    if slots[i].player == Some(x) {
        assert(b[i] == slots[i]);
    }
}

/// Whether a slot of `slots` carries `number`.
pub fn has_number(slots: &Vec<Slot>, number: u64) -> (r: bool)
    ensures
        r == number_taken(slots@, number),
{
    let mut i: usize = 0;
    while i < slots.len()
        invariant
            i <= slots@.len(),
            forall|j: int| 0 <= j < i ==> slots@[j].player != Some(number),
        decreases slots@.len() - i,
    {
        if slots[i].player == Some(number) {
            return true;
        }
        i = i + 1;
    }
    false
}

/// `v` with `x` added unless present.
pub open spec fn add_id(v: Seq<u64>, x: u64) -> Seq<u64> {
    if v.contains(x) {
        v
    } else {
        v.push(x)
    }
}

/// `seen` joined, in slot order, by the numbers of the labeled slots.
pub open spec fn noted(seen: Seq<u64>, slots: Seq<Slot>) -> Seq<u64>
    decreases slots.len(),
{
    if slots.len() == 0 {
        seen
    } else {
        let prev = noted(seen, slots.drop_last());
        match slots.last().player {
            Some(n) => add_id(prev, n),
            None => prev,
        }
    }
}

/// The numbers seen labeled after a frame: forgotten when no score is
/// kept, then joined by every labeled slot's number.
pub open spec fn seen_next(seen: Seq<u64>, slots: Seq<Slot>, tombs: Seq<(u64, i32)>) -> Seq<u64> {
    noted(if tombs.len() == 0 { Seq::empty() } else { seen }, slots)
}

/// Adding keeps a sequence free of duplicates and adds exactly `x`.
pub proof fn lemma_add_id(v: Seq<u64>, x: u64)
    requires
        no_dups(v),
    ensures
        no_dups(add_id(v, x)),
        forall|y: u64| add_id(v, x).contains(y) <==> (v.contains(y) || y == x),
{
    if !v.contains(x) {
        let w = v.push(x);
        assert forall|y: u64| w.contains(y) <==> (v.contains(y) || y == x) by {
            if w.contains(y) {
                let k = choose|k: int| 0 <= k < w.len() && #[trigger] w[k] == y;
                if k < v.len() {
                    assert(v[k] == y);
                }
            }
            if v.contains(y) {
                let k = choose|k: int| 0 <= k < v.len() && #[trigger] v[k] == y;
                assert(w[k] == y);
            }
            assert(w[v.len() as int] == x);
        }
        assert forall|a: int, b: int| 0 <= a < w.len() && 0 <= b < w.len() && a != b implies w[a]
            != w[b] by {
            if a == v.len() as int {
                assert(w[b] == v[b]);
            } else if b == v.len() as int {
                assert(w[a] == v[a]);
            }
        }
    }
}

/// What noting keeps and adds.
pub proof fn lemma_noted(seen: Seq<u64>, slots: Seq<Slot>)
    requires
        no_dups(seen),
    ensures
        no_dups(noted(seen, slots)),
        forall|x: u64| noted(seen, slots).contains(x) <==> (seen.contains(x) || number_taken(slots, x)),
    decreases slots.len(),
{
    if slots.len() > 0 {
        let t = slots.drop_last();
        lemma_noted(seen, t);
        let prev = noted(seen, t);
        if let Some(n) = slots.last().player {
            lemma_add_id(prev, n);
        }
        assert forall|x: u64| noted(seen, slots).contains(x) <==> (seen.contains(x) || number_taken(slots, x)) by {
            lemma_taken_prefix(slots, slots.len() - 1, x);
            assert(slots.take(slots.len() - 1) =~= t);
            assert(slots.take(slots.len() as int) =~= slots);
        }
    }
}

/// Remembers the numbers of labeled slots in `seen` (forgetting them all
/// first when no score is kept).
pub fn note_seen(slots: &Vec<Slot>, tombstones: &ScoreTombstones, seen: &mut Vec<u64>)
    requires
        no_dups(old(seen)@),
    ensures
        final(seen)@ == seen_next(old(seen)@, slots@, tombstones.entries@),
        no_dups(final(seen)@),
        forall|x: u64|
            final(seen)@.contains(x) <==> seen_after(old(seen)@, slots@, tombstones.entries@, x),
{
    if tombstones.is_empty() {
        seen.clear();
    }
    let ghost base = seen@;
    proof {
        assert(base =~= (if tombstones.entries@.len() == 0 { Seq::<u64>::empty() } else { old(seen)@ }));
    }
    let mut i: usize = 0;
    while i < slots.len()
        invariant
            i <= slots@.len(),
            base == (if tombstones.entries@.len() == 0 { Seq::<u64>::empty() } else { old(seen)@ }),
            seen@ == noted(base, slots@.take(i as int)),
        decreases slots@.len() - i,
    {
        proof {
            assert(slots@.take(i + 1).drop_last() =~= slots@.take(i as int));
        }
        if let Some(number) = slots[i].player {
            insert_id(seen, number);
        }
        i = i + 1;
    }
    proof {
        assert(slots@.take(slots@.len() as int) =~= slots@);
        lemma_noted(base, slots@);
    }
}

/// Sets the room total: each labeled slot counts its clicks or its kept
/// score, whichever is larger; a kept score whose player was seen labeled
/// here and has no slot now counts on its own; unlabeled slots and kept
/// scores of players never seen here do not count. Sums saturate.
pub fn sync_global(
    slots: &Vec<Slot>,
    global: &mut GlobalCounter,
    tombstones: &ScoreTombstones,
    seen: &mut Vec<u64>,
)
    requires
        tombstones.wf(),
        no_dups(old(seen)@),
    ensures
        no_dups(final(seen)@),
        forall|x: u64|
            final(seen)@.contains(x) <==> seen_after(old(seen)@, slots@, tombstones.entries@, x),
        final(global).0 == room_total(slots@, tombstones.entries@, final(seen)@),
{
    note_seen(slots, tombstones, seen);
    let ghost tombs = tombstones.entries@;
    let mut total: i32 = 0;
    let mut i: usize = 0;
    while i < slots.len()
        invariant
            i <= slots@.len(),
            tombstones.wf(),
            tombs == tombstones.entries@,
            total == live_total(slots@.take(i as int), tombs),
        decreases slots@.len() - i,
    {
        proof {
            assert(slots@.take(i + 1).drop_last() =~= slots@.take(i as int));
        }
        if let Some(number) = slots[i].player {
            let mut value = slots[i].count;
            if let Some(saved) = tombstones.get(number) {
                if saved > value {
                    value = saved;
                }
            }
            total = saturating_add_i32(total, value);
        }
        i = i + 1;
    }
    proof {
        assert(slots@.take(slots@.len() as int) =~= slots@);
    }
    let ghost base = total as int;
    let entries = tombstones.iter();
    let mut k: usize = 0;
    while k < entries.len()
        invariant
            k <= entries@.len(),
            entries@ == tombs,
            total == retained_total(base, tombs.take(k as int), seen@, slots@),
        decreases entries@.len() - k,
    {
        proof {
            assert(tombs.take(k + 1).drop_last() =~= tombs.take(k as int));
        }
        let (logical, count) = entries[k];
        if contains_id(seen, logical) && !has_number(slots, logical) {
            total = saturating_add_i32(total, count);
        }
        k = k + 1;
    }
    proof {
        assert(tombs.take(tombs.len() as int) =~= tombs);
    }
    global.0 = total;
}

} // verus!
