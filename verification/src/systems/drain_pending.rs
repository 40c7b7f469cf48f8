use vstd::prelude::*;

use crate::model::{max_int, sat_add, saturating_add_i32, Slot};
use crate::seqs::{first_index, last_index, lemma_first_index_bounds, lemma_last_index_bounds, lemma_last_index_step};
use crate::systems::absorb_sync::{find_slot_for, slot_for};
use crate::wire::{lemma_take_all, PendingClick, PendingClicks};

verus! {

/// A cursor to label once a parked click lands on it: its position, the
/// peer the click came from, and the player number it gets.
#[derive(Debug, Clone, Copy, PartialEq, Eq)]
pub struct DrainLabel {
    pub slot: usize,
    pub sender: u64,
    pub player: u64,
}

/// Whether a cursor is owned by `sender` and carries no number yet.
pub open spec fn unlabeled_sender(sender: u64) -> spec_fn(Slot) -> bool {
    |s: Slot| s.owner == sender && s.player is None
}

/// The cursor a parked item lands on: the first one for its owner (owned
/// by or labeled with it); for a click, failing that, the last unlabeled
/// cursor of its sender; -1 when there is none.
pub open spec fn drain_target(slots: Seq<Slot>, item: PendingClick) -> int {
    let k = first_index(slots, slot_for(item.owner));
    if k >= 0 {
        k
    } else if !item.absolute {
        last_index(slots, unlabeled_sender(item.sender))
    } else {
        -1
    }
}

/// The count after an item lands: a score raises it to at least the
/// score, a click adds to it (saturating).
pub open spec fn drained_count(cur: i32, item: PendingClick) -> i32 {
    if item.absolute {
        max_int(cur as int, item.delta as int) as i32
    } else {
        sat_add(cur as int, item.delta as int) as i32
    }
}

/// Draining state: the cursors, the labels to apply, the items kept.
pub type DrainSt = (Seq<Slot>, Seq<DrainLabel>, Seq<PendingClick>);

/// One parked item: it lands on its cursor, which is to be labeled with
/// the item's owner, or it stays parked.
pub open spec fn drain_one(st: DrainSt, item: PendingClick) -> DrainSt {
    let k = drain_target(st.0, item);
    if k >= 0 {
        (
            st.0.update(k, Slot { count: drained_count(st.0[k].count, item), ..st.0[k] }),
            st.1.push(DrainLabel { slot: k as usize, sender: item.sender, player: item.owner }),
            st.2,
        )
    } else {
        (st.0, st.1, st.2.push(item))
    }
}

/// All parked items, in order.
pub open spec fn drain_all(st: DrainSt, items: Seq<PendingClick>) -> DrainSt
    decreases items.len(),
{
    if items.len() == 0 {
        st
    } else {
        drain_one(drain_all(st, items.drop_last()), items.last())
    }
}

/// The cursors after the labels are applied in order.
pub open spec fn labeled(slots: Seq<Slot>, labels: Seq<DrainLabel>) -> Seq<Slot>
    decreases labels.len(),
{
    if labels.len() == 0 {
        slots
    } else {
        let prev = labeled(slots, labels.drop_last());
        let l = labels.last();
        if l.slot < prev.len() {
            prev.update(l.slot as int, Slot { player: Some(l.player), ..prev[l.slot as int] })
        } else {
            prev
        }
    }
}

/// The last unlabeled cursor of `sender`, if any.
pub fn find_last_unlabeled(slots: &Vec<Slot>, sender: u64) -> (r: Option<usize>)
    ensures
        r matches Some(i) ==> i == last_index(slots@, unlabeled_sender(sender)),
        r is None ==> last_index(slots@, unlabeled_sender(sender)) == -1,
{
    let mut found: Option<usize> = None;
    let mut i: usize = 0;
    while i < slots.len()
        invariant
            i <= slots@.len(),
            last_index(slots@.take(i as int), unlabeled_sender(sender)) == (match found {
                Some(k) => k as int,
                None => -1,
            }),
        decreases slots@.len() - i,
    {
        proof {
            lemma_last_index_step(slots@, i as int, unlabeled_sender(sender));
        }
        if slots[i].owner == sender && slots[i].player.is_none() {
            found = Some(i);
        }
        i = i + 1;
    }
    proof {
        lemma_take_all(slots@);
    }
    found
}

/// Lands the parked clicks and scores whose cursor has appeared (see
/// [`drain_one`]); the others stay parked. The landed cursors are labeled
/// with the items' owners, and the labels come back in order.
pub fn drain_pending(slots: &mut Vec<Slot>, pending: &mut PendingClicks) -> (labels: Vec<DrainLabel>)
    ensures
        ({
            let d = drain_all((old(slots)@, Seq::empty(), Seq::empty()), old(pending).items@);
            &&& labels@ == d.1
            &&& final(pending).items@ == d.2
            &&& final(slots)@ == labeled(d.0, d.1)
        }),
        final(pending).parked == old(pending).parked,
{
    let ghost init: DrainSt = (slots@, Seq::empty(), Seq::empty());
    let ghost n = slots@.len();
    let mut labels: Vec<DrainLabel> = Vec::new();
    let mut kept: Vec<PendingClick> = Vec::new();
    let mut i: usize = 0;
    while i < pending.items.len()
        invariant
            i <= pending.items@.len(),
            pending.items@ == old(pending).items@,
            pending.parked == old(pending).parked,
            init == (old(slots)@, Seq::<DrainLabel>::empty(), Seq::<PendingClick>::empty()),
            slots@.len() == n,
            (slots@, labels@, kept@) == drain_all(init, pending.items@.take(i as int)),
            forall|j: int| 0 <= j < labels@.len() ==> (#[trigger] labels@[j]).slot < n,
        decreases pending.items@.len() - i,
    {
        let item = pending.items[i];
        proof {
            assert(pending.items@.take(i + 1).drop_last() =~= pending.items@.take(i as int));
            assert(pending.items@.take(i + 1).last() == item);
            lemma_first_index_bounds(slots@, slot_for(item.owner));
            lemma_last_index_bounds(slots@, unlabeled_sender(item.sender));
        }
        let target = match find_slot_for(slots, item.owner) {
            Some(k) => Some(k),
            None => if !item.absolute {
                find_last_unlabeled(slots, item.sender)
            } else {
                None
            },
        };
        match target {
            Some(k) => {
                let mut s = slots[k];
                if item.absolute {
                    if item.delta > s.count {
                        s.count = item.delta;
                    }
                } else {
                    s.count = saturating_add_i32(s.count, item.delta);
                }
                slots.set(k, s);
                labels.push(DrainLabel { slot: k, sender: item.sender, player: item.owner });
            },
            None => {
                kept.push(item);
            },
        }
        i = i + 1;
    }
    proof {
        lemma_take_all(pending.items@);
    }
    let ghost landed = slots@;
    pending.items = kept;
    let mut j: usize = 0;
    while j < labels.len()
        invariant
            j <= labels@.len(),
            landed.len() == n,
            slots@ == labeled(landed, labels@.take(j as int)),
            slots@.len() == n,
            forall|m: int| 0 <= m < labels@.len() ==> (#[trigger] labels@[m]).slot < n,
        decreases labels@.len() - j,
    {
        let l = labels[j];
        proof {
            assert(labels@.take(j + 1).drop_last() =~= labels@.take(j as int));
            assert(labels@.take(j + 1).last() == l);
            assert(l.slot < n);
        }
        let mut s = slots[l.slot];
        s.player = Some(l.player);
        slots.set(l.slot, s);
        j = j + 1;
    }
    proof {
        lemma_take_all(labels@);
    }
    labels
}

} // verus!
