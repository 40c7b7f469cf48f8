use vstd::prelude::*;

use crate::model::{max_int, Slot};

verus! {

/// The position of the first entry for `id` in `s`, or -1.
pub open spec fn first_key(s: Seq<(u64, i32)>, id: u64) -> int
    decreases s.len(),
{
    if s.len() == 0 {
        -1
    } else {
        let r = first_key(s.drop_last(), id);
        if r >= 0 {
            r
        } else if s.last().0 == id {
            s.len() - 1
        } else {
            -1
        }
    }
}

/// `entries` with `(id, count)` merged in: the first entry for `id` rises to
/// `count` when that is larger; without one, the pair goes last.
pub open spec fn merged(entries: Seq<(u64, i32)>, id: u64, count: i32) -> Seq<(u64, i32)> {
    let k = first_key(entries, id);
    if k >= 0 {
        entries.update(k, (id, max_int(entries[k].1 as int, count as int) as i32))
    } else {
        entries.push((id, count))
    }
}

/// The `(player number, clicks)` pairs of the labeled slots, in order.
pub open spec fn labeled_entries(slots: Seq<Slot>) -> Seq<(u64, i32)>
    decreases slots.len(),
{
    if slots.len() == 0 {
        Seq::empty()
    } else {
        let prev = labeled_entries(slots.drop_last());
        match slots.last().player {
            Some(n) => prev.push((n, slots.last().count)),
            None => prev,
        }
    }
}

/// `entries` with the kept scores of `tombs` that `admits` accepts merged
/// in, in order.
pub open spec fn merge_kept(
    entries: Seq<(u64, i32)>,
    tombs: Seq<(u64, i32)>,
    admits: spec_fn(u64) -> bool,
) -> Seq<(u64, i32)>
    decreases tombs.len(),
{
    if tombs.len() == 0 {
        entries
    } else {
        let prev = merge_kept(entries, tombs.drop_last(), admits);
        if admits(tombs.last().0) {
            merged(prev, tombs.last().0, tombs.last().1)
        } else {
            prev
        }
    }
}

/// The first entry found in a prefix is the first entry of the whole.
pub proof fn lemma_first_key_prefix(s: Seq<(u64, i32)>, k: int, id: u64)
    requires
        0 <= k <= s.len(),
        first_key(s.take(k), id) >= 0,
    ensures
        first_key(s, id) == first_key(s.take(k), id),
    decreases s.len() - k,
{
    if k < s.len() {
        assert(s.take(k + 1).drop_last() =~= s.take(k));
        lemma_first_key_prefix(s, k + 1, id);
    } else {
        assert(s.take(k) =~= s);
    }
}

/// A first entry lies inside the sequence and carries the id.
pub proof fn lemma_first_key_bounds(s: Seq<(u64, i32)>, id: u64)
    ensures
        first_key(s, id) < s.len(),
        first_key(s, id) >= 0 ==> s[first_key(s, id)].0 == id,
        first_key(s, id) < 0 ==> first_key(s, id) == -1 && forall|j: int|
            0 <= j < s.len() ==> s[j].0 != id,
        forall|j: int| 0 <= j < first_key(s, id) ==> s[j].0 != id,
    decreases s.len(),
{
    if s.len() > 0 {
        let t = s.drop_last();
        lemma_first_key_bounds(t, id);
        assert forall|j: int| 0 <= j < t.len() implies t[j] == s[j] by {}
    }
}

/// Merges `(id, count)` into `entries`: the first entry for `id` rises to
/// `count` when that is larger; without one, the pair goes last.
pub fn merge_into(entries: &mut Vec<(u64, i32)>, id: u64, count: i32)
    ensures
        final(entries)@ == merged(old(entries)@, id, count),
{
    let ghost s = entries@;
    proof {
        lemma_first_key_bounds(s, id);
    }
    let found = find_key(entries, id);
    match found {
        Some(i) => {
            let cur = entries[i].1;
            let v = if count > cur { count } else { cur };
            entries.set(i, (id, v));
            proof {
                assert(entries@ =~= merged(s, id, count));
            }
        },
        None => {
            entries.push((id, count));
        },
    }
}

/// The position of the first entry for `id`, if any.
pub fn find_key(entries: &Vec<(u64, i32)>, id: u64) -> (r: Option<usize>)
    ensures
        r matches Some(i) ==> i == first_key(entries@, id),
        r is None ==> first_key(entries@, id) == -1,
{
    let ghost s = entries@;
    proof {
        lemma_first_key_bounds(s, id);
    }
    let mut i: usize = 0;
    while i < entries.len()
        invariant
            i <= s.len(),
            entries@ == s,
            first_key(s.take(i as int), id) == -1,
        decreases s.len() - i,
    {
        proof {
            assert(s.take(i + 1).drop_last() =~= s.take(i as int));
        }
        if entries[i].0 == id {
            proof {
                assert(first_key(s.take(i + 1), id) == i);
                lemma_first_key_prefix(s, i + 1, id);
            }
            return Some(i);
        }
        i = i + 1;
    }
    proof {
        assert(s.take(s.len() as int) =~= s);
    }
    None
}

/// The `(player number, clicks)` pairs of the labeled slots, in order.
pub fn labeled_scores(slots: &Vec<Slot>) -> (r: Vec<(u64, i32)>)
    ensures
        r@ == labeled_entries(slots@),
{
    let mut r: Vec<(u64, i32)> = Vec::new();
    let mut i: usize = 0;
    while i < slots.len()
        invariant
            i <= slots@.len(),
            r@ == labeled_entries(slots@.take(i as int)),
        decreases slots@.len() - i,
    {
        proof {
            assert(slots@.take(i + 1).drop_last() =~= slots@.take(i as int));
        }
        if let Some(n) = slots[i].player {
            r.push((n, slots[i].count));
        }
        i = i + 1;
    }
    proof {
        assert(slots@.take(slots@.len() as int) =~= slots@);
    }
    r
}

} // verus!
