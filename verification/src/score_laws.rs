use vstd::prelude::*;

use crate::laws::never_lowered;
use crate::model::{lemma_raised, max_int, Slot};
use crate::scores::{first_key, labeled_entries, lemma_first_key_bounds, merge_kept, merged};
use crate::seqs::{first_index, last_index, lemma_first_index_bounds, lemma_last_index_bounds};
use crate::systems::absorb_sync::slot_for;
use crate::systems::drain_pending::{drain_all, drain_one, drain_target, unlabeled_sender, DrainSt};
use crate::wire::{run, MsgV, PeerV, PendingClick};
use crate::systems::absorb_welcome::{welcome_step, WelcomeSt};
use crate::systems::absorb_snapshot::{snapshot_entries, snapshot_entry};
use crate::systems::answer_join::owned_by;
use crate::systems::publish_snapshot::published_entries;
use crate::systems::sync_ctx::sync_entries;
use crate::laws::law_snapshot_never_lowers;
use crate::lobby::PendingJoin;
use crate::model::number_taken;
use crate::systems::resolve_player::{claim_of, pending_of, resolve_all, resolve_one, unlabeled_of, ResolveSt};
use crate::tombstones::{keys_unique, lemma_without_unique, score_of};
use crate::wire::EventV;

verus! {

/// Two cursor lists with the same owners place the first cursor of any
/// owner at the same position.
pub proof fn lemma_first_owned_same(a: Seq<Slot>, b: Seq<Slot>, owner: u64)
    requires
        a.len() == b.len(),
        forall|i: int| 0 <= i < a.len() ==> #[trigger] a[i].owner == b[i].owner,
    ensures
        first_index(a, owned_by(owner)) == first_index(b, owned_by(owner)),
    decreases a.len(),
{
    if a.len() > 0 {
        let (x, y) = (a.drop_last(), b.drop_last());
        assert forall|i: int| 0 <= i < x.len() implies #[trigger] x[i].owner == y[i].owner by {
            assert(x[i] == a[i] && y[i] == b[i]);
        }
        lemma_first_owned_same(x, y, owner);
        assert(a.last().owner == b[b.len() - 1].owner);
    }
}

/// A snapshot score for our own id raises the first cursor we own: its
/// clicks never go down, and from a count that is not negative they
/// become the larger of the count and the score. No cursor moves or
/// changes owner.
pub proof fn law_snapshot_raises_own(st: (Seq<Slot>, Seq<(u64, i32)>), own: u64, score: i32)
    requires
        first_index(st.0, owned_by(own)) >= 0,
    ensures
        ({
            let k = first_index(st.0, owned_by(own));
            let r = snapshot_entry(st, own, (own, score)).0;
            &&& r.len() == st.0.len()
            &&& r[k].owner == own
            &&& r[k].count >= st.0[k].count
            &&& st.0[k].count >= 0 ==> r[k].count == max_int(st.0[k].count as int, score as int)
        }),
{
    lemma_first_index_bounds(st.0, owned_by(own));
    let k = first_index(st.0, owned_by(own));
    lemma_raised(st.0[k].count, score);
}

/// After a whole snapshot, the first cursor we own has at least every
/// score the snapshot holds for our own id, when its count was not
/// negative.
pub proof fn law_snapshot_reaches_own_scores(
    st: (Seq<Slot>, Seq<(u64, i32)>),
    own: u64,
    entries: Seq<(u64, i32)>,
    i: int,
)
    requires
        0 <= i < entries.len(),
        entries[i].0 == own,
        first_index(st.0, owned_by(own)) >= 0,
        st.0[first_index(st.0, owned_by(own))].count >= 0,
    ensures
        snapshot_entries(st, own, entries).0[first_index(st.0, owned_by(own))].count >= entries[i].1,
    decreases entries.len(),
{
    let k = first_index(st.0, owned_by(own));
    let ev = entries.drop_last();
    let prev = snapshot_entries(st, own, ev);
    law_snapshot_never_lowers(st, own, ev);
    assert forall|j: int| 0 <= j < st.0.len() implies #[trigger] st.0[j].owner == prev.0[j].owner by {
        assert(prev.0[j].count >= st.0[j].count);
    }
    lemma_first_owned_same(st.0, prev.0, own);
    let e = entries.last();
    let r = snapshot_entry(prev, own, e);
    assert(snapshot_entries(st, own, entries) == r);
    assert(seq![e].drop_last() =~= Seq::<(u64, i32)>::empty());
    assert(seq![e].last() == e);
    assert(snapshot_entries(prev, own, Seq::<(u64, i32)>::empty()) == prev);
    law_snapshot_never_lowers(prev, own, seq![e]);
    assert(snapshot_entries(prev, own, seq![e]) == r);
    lemma_first_index_bounds(st.0, owned_by(own));
    assert(prev.0[k].count >= st.0[k].count);
    assert(r.0[k].count >= prev.0[k].count);
    if i == entries.len() - 1 {
        assert(e == entries[i]);
        law_snapshot_raises_own(prev, own, e.1);
    } else {
        assert(ev[i] == entries[i]);
        law_snapshot_reaches_own_scores(st, own, ev, i);
    }
}

/// Merging a kept score `(id, score)` keeps the larger value per id: the
/// first entry for `id` becomes the larger of its value and the score,
/// every other entry stays; without an entry for `id` the pair goes last.
pub proof fn law_merge_keeps_max(entries: Seq<(u64, i32)>, id: u64, score: i32)
    ensures
        ({
            let k = first_key(entries, id);
            let r = merged(entries, id, score);
            &&& k >= 0 ==> {
                &&& r.len() == entries.len()
                &&& r[k].0 == id
                &&& r[k].1 as int == max_int(entries[k].1 as int, score as int)
                &&& forall|j: int| 0 <= j < entries.len() && j != k ==> r[j] == entries[j]
            }
            &&& k < 0 ==> r == entries.push((id, score))
        }),
{
    lemma_first_key_bounds(entries, id);
}

/// Merging kept scores never lowers an entry nor changes its id; entries
/// only get added at the end.
pub proof fn law_merge_kept_never_lowers(
    entries: Seq<(u64, i32)>,
    tombs: Seq<(u64, i32)>,
    admits: spec_fn(u64) -> bool,
)
    ensures
        ({
            let r = merge_kept(entries, tombs, admits);
            &&& r.len() >= entries.len()
            &&& forall|i: int| 0 <= i < entries.len() ==> (#[trigger] r[i]).0 == entries[i].0 && r[i].1 >= entries[i].1
        }),
    decreases tombs.len(),
{
    if tombs.len() > 0 {
        law_merge_kept_never_lowers(entries, tombs.drop_last(), admits);
        let prev = merge_kept(entries, tombs.drop_last(), admits);
        law_merge_keeps_max(prev, tombs.last().0, tombs.last().1);
        lemma_first_key_bounds(prev, tombs.last().0);
        let r = merge_kept(entries, tombs, admits);
        assert(r == (if admits(tombs.last().0) { merged(prev, tombs.last().0, tombs.last().1) } else { prev }));
        assert forall|i: int| 0 <= i < entries.len() implies (#[trigger] r[i]).0 == entries[i].0 && r[i].1 >= entries[i].1 by {
            assert(prev[i].0 == entries[i].0 && prev[i].1 >= entries[i].1);
            if admits(tombs.last().0) {
                let k = first_key(prev, tombs.last().0);
                if k < 0 {
                    assert(r[i] == prev[i]);
                }
            }
        }
    }
}

/// Every labeled cursor has its number and clicks among the labeled
/// entries.
pub proof fn lemma_labeled_entries_cover(slots: Seq<Slot>, j: int)
    requires
        0 <= j < slots.len(),
        slots[j].player is Some,
    ensures
        exists|i: int|
            0 <= i < labeled_entries(slots).len() && #[trigger] labeled_entries(slots)[i] == (slots[j].player.unwrap(), slots[j].count),
    decreases slots.len(),
{
    let t = slots.drop_last();
    let prev = labeled_entries(t);
    let r = labeled_entries(slots);
    if j == slots.len() - 1 {
        assert(r[r.len() - 1] == (slots[j].player.unwrap(), slots[j].count));
    } else {
        assert(t[j] == slots[j]);
        lemma_labeled_entries_cover(t, j);
        let i = choose|i: int| 0 <= i < prev.len() && #[trigger] prev[i] == (t[j].player.unwrap(), t[j].count);
        assert(r[i] == prev[i]);
    }
}

/// A published snapshot, and a sync reply, carry for every labeled cursor
/// an entry for its number that is never below the cursor's clicks.
pub proof fn law_scores_never_below_live(slots: Seq<Slot>, tombs: Seq<(u64, i32)>, seen: Seq<u64>, j: int)
    requires
        0 <= j < slots.len(),
        slots[j].player is Some,
    ensures
        exists|i: int|
            0 <= i < published_entries(slots, tombs).len() && (#[trigger] published_entries(slots, tombs)[i]).0
                == slots[j].player.unwrap() && published_entries(slots, tombs)[i].1 >= slots[j].count,
        exists|i: int|
            0 <= i < sync_entries(slots, tombs, seen).len() && (#[trigger] sync_entries(slots, tombs, seen)[i]).0
                == slots[j].player.unwrap() && sync_entries(slots, tombs, seen)[i].1 >= slots[j].count,
{
    lemma_labeled_entries_cover(slots, j);
    let l = labeled_entries(slots);
    let i = choose|i: int| 0 <= i < l.len() && #[trigger] l[i] == (slots[j].player.unwrap(), slots[j].count);
    law_merge_kept_never_lowers(l, tombs, crate::systems::publish_snapshot::any_id());
    law_merge_kept_never_lowers(l, tombs, crate::systems::sync_ctx::seen_filter(seen));
    assert(published_entries(slots, tombs)[i].0 == slots[j].player.unwrap());
    assert(sync_entries(slots, tombs, seen)[i].0 == slots[j].player.unwrap());
}

/// Resolving one event never lowers a cursor's clicks nor moves a cursor.
/// When the event is a claim that labels at once, the sender's first
/// cursor unlabeled at the start of the frame takes the number, its clicks
/// become the larger of its clicks and the score kept for the number (if
/// any), and that score is kept no longer.
pub proof fn law_resolve_restores_without_lowering(
    st: ResolveSt,
    init: Seq<Slot>,
    own: u64,
    topic: Seq<char>,
    now: u64,
    pending: Seq<PendingJoin>,
    e: EventV,
)
    requires
        st.slots.len() == init.len(),
        keys_unique(st.tombs),
    ensures
        ({
            let r = resolve_one(st, init, own, topic, now, pending, e);
            &&& r.slots.len() == st.slots.len()
            &&& forall|i: int| 0 <= i < st.slots.len() ==> (#[trigger] r.slots[i]).count >= st.slots[i].count && r.slots[i].owner == st.slots[i].owner
            &&& keys_unique(r.tombs)
            &&& match claim_of(e, topic) {
                Some((from, claimed)) => {
                    let k = first_index(init, unlabeled_of(from.id));
                    (from.id != own && claimed != 0 && !number_taken(init, claimed) && k >= 0
                        && first_index(pending, pending_of(from.name)) < 0) ==> {
                        &&& r.slots[k].player == Some(claimed)
                        &&& r.slots[k].count as int == match score_of(st.tombs, claimed) {
                            Some(saved) => max_int(st.slots[k].count as int, saved as int),
                            None => st.slots[k].count as int,
                        }
                        &&& score_of(r.tombs, claimed) is None
                    }
                },
                None => true,
            }
        }),
{
    match claim_of(e, topic) {
        Some((from, claimed)) => {
            lemma_first_index_bounds(init, unlabeled_of(from.id));
            lemma_without_unique(st.tombs, claimed);
        },
        None => {},
    }
}

/// Resolving a frame never lowers a cursor's clicks nor moves a cursor.
pub proof fn law_resolve_never_lowers(
    st: ResolveSt,
    own: u64,
    topic: Seq<char>,
    now: u64,
    pending: Seq<PendingJoin>,
    events: Seq<EventV>,
)
    requires
        keys_unique(st.tombs),
    ensures
        ({
            let r = resolve_all(st, st.slots, own, topic, now, pending, events);
            &&& r.slots.len() == st.slots.len()
            &&& keys_unique(r.tombs)
            &&& forall|i: int| 0 <= i < st.slots.len() ==> (#[trigger] r.slots[i]).count >= st.slots[i].count
        }),
    decreases events.len(),
{
    if events.len() > 0 {
        let ev = events.drop_last();
        law_resolve_never_lowers(st, own, topic, now, pending, ev);
        let prev = resolve_all(st, st.slots, own, topic, now, pending, ev);
        law_resolve_restores_without_lowering(prev, st.slots, own, topic, now, pending, events.last());
        let r = resolve_all(st, st.slots, own, topic, now, pending, events);
        assert forall|i: int| 0 <= i < st.slots.len() implies (#[trigger] r.slots[i]).count >= st.slots[i].count by {
            assert(prev.slots[i].count >= st.slots[i].count);
            assert(r.slots[i].count >= prev.slots[i].count);
        }
    }
}

/// The first match of `p` sits at the same place in two sequences on whose
/// elements `p` agrees position by position.
pub proof fn lemma_first_index_agree<A>(a: Seq<A>, b: Seq<A>, p: spec_fn(A) -> bool)
    requires
        a.len() == b.len(),
        forall|i: int| 0 <= i < a.len() ==> p(#[trigger] a[i]) == p(b[i]),
    ensures
        first_index(a, p) == first_index(b, p),
    decreases a.len(),
{
    if a.len() > 0 {
        let (x, y) = (a.drop_last(), b.drop_last());
        assert forall|i: int| 0 <= i < x.len() implies p(#[trigger] x[i]) == p(y[i]) by {
            assert(x[i] == a[i] && y[i] == b[i]);
        }
        lemma_first_index_agree(x, y, p);
        assert(p(a[a.len() - 1]) == p(b[b.len() - 1]));
    }
}

/// The last match of `p` sits at the same place in two sequences on whose
/// elements `p` agrees position by position.
pub proof fn lemma_last_index_agree<A>(a: Seq<A>, b: Seq<A>, p: spec_fn(A) -> bool)
    requires
        a.len() == b.len(),
        forall|i: int| 0 <= i < a.len() ==> p(#[trigger] a[i]) == p(b[i]),
    ensures
        last_index(a, p) == last_index(b, p),
    decreases a.len(),
{
    if a.len() > 0 {
        let (x, y) = (a.drop_last(), b.drop_last());
        assert forall|i: int| 0 <= i < x.len() implies p(#[trigger] x[i]) == p(y[i]) by {
            assert(x[i] == a[i] && y[i] == b[i]);
        }
        lemma_last_index_agree(x, y, p);
        assert(p(a[a.len() - 1]) == p(b[b.len() - 1]));
    }
}

/// Landing one parked item changes only its cursor's clicks: a click adds
/// its delta (clamped to the bounds of `i32`), a score raises the clicks
/// to the score when that is larger. Every other cursor, and every owner
/// and number, stay.
pub proof fn law_drain_lands_item(st: DrainSt, item: PendingClick)
    ensures
        ({
            let k = drain_target(st.0, item);
            let r = drain_one(st, item).0;
            &&& r.len() == st.0.len()
            &&& forall|j: int| 0 <= j < r.len() ==> (#[trigger] r[j]).owner == st.0[j].owner && r[j].player == st.0[j].player
            &&& forall|j: int| 0 <= j < r.len() && j != k ==> #[trigger] r[j] == st.0[j]
            &&& (k >= 0 && !item.absolute) ==> {
                let sum = st.0[k].count as int + item.delta as int;
                r[k].count as int == (if sum > i32::MAX { i32::MAX as int } else if sum < i32::MIN { i32::MIN as int } else { sum })
            }
            &&& (k >= 0 && item.absolute) ==> r[k].count as int == max_int(st.0[k].count as int, item.delta as int)
        }),
{
    lemma_first_index_bounds(st.0, slot_for(item.owner));
    lemma_last_index_bounds(st.0, unlabeled_sender(item.sender));
}

/// The sum of the deltas of the parked clicks that land on cursor `j`.
pub open spec fn click_sum(slots: Seq<Slot>, items: Seq<PendingClick>, j: int) -> int
    decreases items.len(),
{
    if items.len() == 0 {
        0
    } else {
        let it = items.last();
        click_sum(slots, items.drop_last(), j) + (if !it.absolute && drain_target(slots, it) == j { it.delta as int } else { 0 })
    }
}

/// Parked clicks add up: after draining clicks of non-negative deltas onto
/// cursors with non-negative counts that stay within `i32`, each cursor
/// has its old clicks plus the deltas of all clicks that landed on it.
pub proof fn law_drained_clicks_add_up(st: DrainSt, items: Seq<PendingClick>)
    requires
        forall|i: int| 0 <= i < items.len() ==> !(#[trigger] items[i]).absolute && items[i].delta >= 0,
        forall|j: int| 0 <= j < st.0.len() ==> (#[trigger] st.0[j]).count >= 0 && st.0[j].count + click_sum(st.0, items, j) <= i32::MAX,
    ensures
        ({
            let r = drain_all(st, items).0;
            &&& r.len() == st.0.len()
            &&& forall|j: int| 0 <= j < r.len() ==> (#[trigger] r[j]).owner == st.0[j].owner && r[j].player == st.0[j].player
            &&& forall|j: int| 0 <= j < r.len() ==> (#[trigger] r[j]).count == st.0[j].count + click_sum(st.0, items, j)
        }),
    decreases items.len(),
{
    if items.len() > 0 {
        let ev = items.drop_last();
        let it = items.last();
        assert forall|i: int| 0 <= i < ev.len() implies !(#[trigger] ev[i]).absolute && ev[i].delta >= 0 by {
            assert(ev[i] == items[i]);
        }
        assert(!items[items.len() - 1].absolute && items[items.len() - 1].delta >= 0);
        assert forall|j: int| 0 <= j < st.0.len() implies (#[trigger] st.0[j]).count >= 0 && st.0[j].count + click_sum(st.0, ev, j) <= i32::MAX by {
            assert(click_sum(st.0, items, j) >= click_sum(st.0, ev, j));
        }
        law_drained_clicks_add_up(st, ev);
        let prev = drain_all(st, ev);
        law_drain_lands_item(prev, it);
        assert forall|i: int| 0 <= i < st.0.len() implies slot_for(it.owner)(#[trigger] st.0[i]) == slot_for(it.owner)(prev.0[i]) by {
            assert(prev.0[i].owner == st.0[i].owner && prev.0[i].player == st.0[i].player);
        }
        assert forall|i: int| 0 <= i < st.0.len() implies unlabeled_sender(it.sender)(#[trigger] st.0[i]) == unlabeled_sender(it.sender)(prev.0[i]) by {
            assert(prev.0[i].owner == st.0[i].owner && prev.0[i].player == st.0[i].player);
        }
        lemma_first_index_agree(st.0, prev.0, slot_for(it.owner));
        lemma_last_index_agree(st.0, prev.0, unlabeled_sender(it.sender));
        assert(drain_target(st.0, it) == drain_target(prev.0, it));
        let r = drain_all(st, items);
        assert(r == drain_one(prev, it));
        assert forall|j: int| 0 <= j < r.0.len() implies (#[trigger] r.0[j]).count == st.0[j].count + click_sum(st.0, items, j) by {
            assert(prev.0[j].count == st.0[j].count + click_sum(st.0, ev, j));
            assert(click_sum(st.0, ev, j) >= 0) by {
                lemma_click_sum_nonneg(st.0, ev, j);
            }
        }
    }
}

/// Clicks of non-negative deltas add up to a non-negative sum.
pub proof fn lemma_click_sum_nonneg(slots: Seq<Slot>, items: Seq<PendingClick>, j: int)
    requires
        forall|i: int| 0 <= i < items.len() ==> !(#[trigger] items[i]).absolute && items[i].delta >= 0,
    ensures
        click_sum(slots, items, j) >= 0,
    decreases items.len(),
{
    if items.len() > 0 {
        let ev = items.drop_last();
        assert forall|i: int| 0 <= i < ev.len() implies !(#[trigger] ev[i]).absolute && ev[i].delta >= 0 by {
            assert(ev[i] == items[i]);
        }
        lemma_click_sum_nonneg(slots, ev, j);
        assert(items[items.len() - 1].delta >= 0);
    }
}

/// Whether `e` is a welcome to `lobby` from `from` that carries the score
/// `score` of its sender.
pub open spec fn welcome_with_score(e: EventV, lobby: Seq<char>, from: PeerV, score: (u64, i32)) -> bool {
    match e {
        EventV::Message { from: f, payload: MsgV::Welcome { room, own_score, .. } } => f == from && room == lobby && own_score == score,
        _ => false,
    }
}

/// Every welcome to our lobby hands its sender's score on to the merge
/// path: the events passed on hold, for each such welcome, a sync
/// acknowledgement addressed to us from the welcomer whose entries are
/// exactly that score.
pub proof fn law_welcome_score_reaches_merge(
    events: Seq<EventV>,
    st: WelcomeSt,
    lobby: Seq<char>,
    own: u64,
    now: u64,
    i: int,
    from: PeerV,
    score: (u64, i32),
)
    requires
        0 <= i < events.len(),
        welcome_with_score(events[i], lobby, from, score),
    ensures
        run(events, st, welcome_step(lobby, own, now)).1.contains(
            EventV::Message { from, payload: MsgV::SyncAck { target: own, entries: seq![score] } },
        ),
    decreases events.len(),
{
    let step = welcome_step(lobby, own, now);
    let ack = EventV::Message { from, payload: MsgV::SyncAck { target: own, entries: seq![score] } };
    let ev = events.drop_last();
    let prev = run(ev, st, step);
    let next = step(prev.0, events.last());
    let out = run(events, st, step).1;
    assert(out == prev.1 + next.1);
    if i == events.len() - 1 {
        assert(next.1 == seq![ack]);
        assert(out[prev.1.len() as int] == ack);
    } else {
        assert(ev[i] == events[i]);
        law_welcome_score_reaches_merge(ev, st, lobby, own, now, i, from, score);
        let m = choose|m: int| 0 <= m < prev.1.len() && prev.1[m] == ack;
        assert(out[m] == ack);
    }
}

} // verus!
