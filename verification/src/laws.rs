use vstd::prelude::*;

use crate::lobby::{armed, due_by, other_peer, waiting_at, JoinGate, PendingJoin};
use crate::lobby::JoinClock;
use crate::model::{lemma_raised, max_int, number_taken, Slot};
use crate::systems::sync_global::{live_total, retained_total, room_total};
use crate::seqs::{first_index, lemma_first_index_bounds};
use crate::systems::absorb_snapshot::{snapshot_entries, snapshot_entry};
use crate::systems::absorb_sync::{merge_all, merge_entry, slot_for, sync_step, SyncSt};
use crate::wire::run;
use crate::systems::absorb_gossip::{moved, target_of, CursorTarget};
use crate::systems::absorb_welcome::union_with;
use crate::systems::answer_join::{answer_step, not_named, owned_by};
use crate::systems::apply_delta::credited;
use crate::systems::decide_join_commit::commits;
use crate::systems::drain_pending::{drain_all, drain_one, drain_target, DrainSt};
use crate::systems::send_sync_req::live_step;
use crate::tombstones::{has_key, key_index, keys_unique, kept, lemma_key_index, score_of, without};
use crate::systems::absorb_roster::{dials, PeerEntryV};
use crate::systems::despawn_on_leave::{leave_all, leave_one, LeaveSt, LEAVE_GRACE_SECS};
use crate::systems::leave_ctx::absence_of;
use crate::systems::spawn_on_join_ctx::is_held;
use crate::systems::tick_presence::{presence_step, silent_too_long};
use crate::systems::spawn_on_join::{spawn_all, spawn_one, SpawnSt, LOBBY_CAP};
use crate::systems::spawn_on_join_ctx::SpawnOnJoinCtx;
use crate::wire::{CommandV, EventV, MsgV, PeerV, PendingClick};

verus! {

/// `after` holds the cursors of `before`, in place, none with fewer
/// clicks, and with the same owners and numbers.
pub open spec fn never_lowered(before: Seq<Slot>, after: Seq<Slot>) -> bool {
    &&& after.len() == before.len()
    &&& forall|i: int| 0 <= i < before.len() ==> {
        &&& #[trigger] after[i].count >= before[i].count
        &&& after[i].owner == before[i].owner
        &&& after[i].player == before[i].player
    }
}

/// Merging the scores of a sync acknowledgement never lowers a cursor's
/// clicks nor moves, adds or relabels a cursor.
pub proof fn law_sync_merge_never_lowers(
    slots: Seq<Slot>,
    pending: Seq<PendingClick>,
    sender: u64,
    entries: Seq<(u64, i32)>,
)
    ensures
        never_lowered(slots, merge_all(slots, pending, sender, entries).0),
    decreases entries.len(),
{
    if entries.len() > 0 {
        law_sync_merge_never_lowers(slots, pending, sender, entries.drop_last());
        let prev = merge_all(slots, pending, sender, entries.drop_last());
        let e = entries.last();
        lemma_first_index_bounds(prev.0, slot_for(e.0));
        let k = first_index(prev.0, slot_for(e.0));
        if k >= 0 {
            lemma_raised(prev.0[k].count, e.1);
        }
    }
}

/// Absorbing a score snapshot never lowers a cursor's clicks nor moves,
/// adds or relabels a cursor.
pub proof fn law_snapshot_never_lowers(st: (Seq<Slot>, Seq<(u64, i32)>), own: u64, entries: Seq<(u64, i32)>)
    ensures
        never_lowered(st.0, snapshot_entries(st, own, entries).0),
    decreases entries.len(),
{
    if entries.len() > 0 {
        law_snapshot_never_lowers(st, own, entries.drop_last());
        let prev = snapshot_entries(st, own, entries.drop_last());
        let e = entries.last();
        lemma_first_index_bounds(prev.0, owned_by(e.0));
        lemma_first_index_bounds(prev.0, slot_for(e.0));
        let k1 = first_index(prev.0, owned_by(e.0));
        let k2 = first_index(prev.0, slot_for(e.0));
        if k1 >= 0 {
            lemma_raised(prev.0[k1].count, e.1);
        }
        if k2 >= 0 {
            lemma_raised(prev.0[k2].count, e.1);
        }
    }
}

/// A click that a peer reports for our own cursor changes nothing: our
/// count is ours to keep.
pub proof fn law_own_clicks_stay_ours(
    slots: Seq<Slot>,
    pending: Seq<PendingClick>,
    own: u64,
    sender: u64,
    delta: i32,
)
    ensures
        credited(slots, pending, own, sender, own, delta) == (slots, pending),
{
}

/// Keeping a score for a player without one, then restoring it, gives the
/// score back and leaves the kept scores as they were.
pub proof fn law_keep_then_restore(s: Seq<(u64, i32)>, id: u64, count: i32)
    requires
        keys_unique(s),
        !has_key(s, id),
    ensures
        score_of(kept(s, id, count), id) == Some(count),
        without(kept(s, id, count), id) == s,
{
    let t = kept(s, id, count);
    assert(t == s.push((id, count)));
    assert(keys_unique(t)) by {
        assert forall|i: int, j: int| 0 <= i < t.len() && 0 <= j < t.len() && i != j implies t[i].0 != t[j].0 by {
            if i == s.len() as int && j < s.len() {
                assert(s[j].0 != id);
            } else if j == s.len() as int && i < s.len() {
                assert(s[i].0 != id);
            }
        }
    }
    lemma_key_index(t, id, s.len() as int);
    assert(t.remove(s.len() as int) =~= s);
}

/// Keeping a score never lowers the score kept for that player: it
/// becomes the larger of the two.
pub proof fn law_keep_never_lowers(s: Seq<(u64, i32)>, id: u64, count: i32)
    requires
        keys_unique(s),
        has_key(s, id),
    ensures
        score_of(kept(s, id, count), id) == Some(max_int(score_of(s, id).unwrap() as int, count as int) as i32),
{
    let i = key_index(s, id);
    let t = kept(s, id, count);
    crate::tombstones::lemma_kept_unique(s, id, count);
    lemma_key_index(t, id, i);
}

/// A peer that connects while live is not greeted again; once it has
/// disconnected, connecting greets it again.
pub proof fn law_greet_once_per_connection(live: Seq<Seq<char>>, p: PeerV, greeting: MsgV)
    ensures
        live.contains(p.name) ==> live_step(Some(greeting))(live, EventV::PeerConnected(p)).2.len() == 0,
        ({
            let gone = live_step(Some(greeting))(live, EventV::PeerDisconnected(p)).0;
            live_step(Some(greeting))(gone, EventV::PeerConnected(p)).2 == seq![
                CommandV::Send { peer_id: p.name, payload: greeting },
            ]
        }),
{
    let gone = live_step(Some(greeting))(live, EventV::PeerDisconnected(p)).0;
    broadcast use vstd::seq_lib::group_filter_ensures;
    if gone.contains(p.name) {
        let k = choose|k: int| 0 <= k < gone.len() && gone[k] == p.name;
        assert(crate::idset::other_name(p.name)(gone[k]));
    }
}

/// A welcome never lists the peer that asked to join among the members.
pub proof fn law_welcome_omits_requester(
    lobby: Seq<char>,
    members: Seq<Seq<char>>,
    own: u64,
    slots: Seq<Slot>,
    from: PeerV,
    room: Seq<char>,
)
    ensures
        ({
            let r = answer_step(lobby, members, own, slots)((), EventV::Message { from, payload: MsgV::WantJoin { room } });
            forall|c: CommandV| #[trigger] r.2.contains(c) ==> match c {
                CommandV::Send { payload: MsgV::Welcome { peers, .. }, .. } => !peers.contains(from.name),
                _ => true,
            }
        }),
{
    let peers = members.filter(not_named(from.name));
    broadcast use vstd::seq_lib::group_filter_ensures;
    if peers.contains(from.name) {
        let k = choose|k: int| 0 <= k < peers.len() && peers[k] == from.name;
        assert(not_named(from.name)(peers[k]));
    }
}

/// A join that has committed never commits again.
pub proof fn law_commit_once(gate: JoinGate, clock: JoinClock, lobby: Seq<char>, own: u64, now: u64)
    requires
        gate.committed,
    ensures
        !commits(gate, clock, lobby, own, now),
{
}

/// Draining parked items loses none: each either lands, with a label, or
/// stays parked, and no cursor appears or disappears.
pub proof fn law_drain_loses_nothing(st: DrainSt, items: Seq<PendingClick>)
    ensures
        ({
            let d = drain_all(st, items);
            &&& d.0.len() == st.0.len()
            &&& d.1.len() + d.2.len() == st.1.len() + st.2.len() + items.len()
        }),
    decreases items.len(),
{
    if items.len() > 0 {
        law_drain_loses_nothing(st, items.drop_last());
        let prev = drain_all(st, items.drop_last());
        let k = drain_target(prev.0, items.last());
        lemma_first_index_bounds(prev.0, slot_for(items.last().owner));
        crate::seqs::lemma_last_index_bounds(prev.0, crate::systems::drain_pending::unlabeled_sender(items.last().sender));
        assert(drain_all(st, items) == drain_one(prev, items.last()));
        if k >= 0 {
            assert(drain_one(prev, items.last()).0.len() == prev.0.len());
        }
    }
}

/// Spawning placeholders for the roster never spawns one for us, for a
/// cursor already known, or for a peer held back (given up on as absent,
/// or with a join pending), and never fills the lobby past its cap.
pub proof fn law_spawn_respects_lobby(st: SpawnSt, ctx: SpawnOnJoinCtx, members: Seq<PeerV>)
    ensures
        ({
            let r = spawn_all(st, ctx, members);
            &&& r.spawned.len() >= st.spawned.len()
            &&& r.spawned.take(st.spawned.len() as int) == st.spawned
            &&& forall|i: int| st.spawned.len() <= i < r.spawned.len() ==> {
                &&& (#[trigger] r.spawned[i]).id != ctx.own
                &&& !st.known.contains(r.spawned[i].id)
                &&& !is_held(ctx.own, ctx.gate.pending@, ctx.gate.absent@, r.spawned[i].name, r.spawned[i].id)
            }
            &&& forall|x: u64| st.known.contains(x) ==> r.known.contains(x)
            &&& st.known.len() <= LOBBY_CAP ==> r.known.len() <= LOBBY_CAP
        }),
    decreases members.len(),
{
    if members.len() > 0 {
        law_spawn_respects_lobby(st, ctx, members.drop_last());
        let prev = spawn_all(st, ctx, members.drop_last());
        let r = spawn_all(st, ctx, members);
        assert(r == spawn_one(prev, ctx, members.last()));
        assert forall|x: u64| st.known.contains(x) implies r.known.contains(x) by {
            assert(prev.known.contains(x));
            if r.known != prev.known {
                let k = choose|k: int| 0 <= k < prev.known.len() && prev.known[k] == x;
                assert(r.known[k] == x);
            }
        }
        if r.spawned != prev.spawned {
            assert(r.spawned.take(st.spawned.len() as int) =~= prev.spawned.take(st.spawned.len() as int));
            assert forall|i: int| st.spawned.len() <= i < r.spawned.len() implies {
                &&& (#[trigger] r.spawned[i]).id != ctx.own
                &&& !st.known.contains(r.spawned[i].id)
                &&& !is_held(ctx.own, ctx.gate.pending@, ctx.gate.absent@, r.spawned[i].name, r.spawned[i].id)
            } by {
                if i < prev.spawned.len() {
                    assert(r.spawned[i] == prev.spawned[i]);
                } else {
                    let p = members.last();
                    assert(r.spawned[i] == p);
                    assert(!prev.known.contains(p.id));
                }
            }
        }
    }
}

/// Leaving never drops our own cursor nor the cursor of a peer still in
/// the roster: every dropped position holds a cursor whose owner is
/// neither.
pub proof fn law_leave_spares_present(st: LeaveSt, own: u64, live: Seq<u64>, now: u64, slots: Seq<Slot>, n: int)
    requires
        0 <= n <= slots.len(),
    ensures
        ({
            let r = leave_all(st, own, live, now, slots, n);
            &&& r.despawned.len() >= st.despawned.len()
            &&& r.despawned.take(st.despawned.len() as int) == st.despawned
            &&& forall|j: int| st.despawned.len() <= j < r.despawned.len() ==> {
                let k = #[trigger] r.despawned[j];
                &&& 0 <= k < n
                &&& slots[k].owner != own
                &&& !live.contains(slots[k].owner)
            }
        }),
    decreases n,
{
    if n > 0 {
        law_leave_spares_present(st, own, live, now, slots, n - 1);
        let prev = leave_all(st, own, live, now, slots, n - 1);
        let r = leave_all(st, own, live, now, slots, n);
        assert(r == leave_one(prev, own, live, now, n - 1, slots[n - 1]));
        if r.despawned != prev.despawned {
            assert(r.despawned =~= prev.despawned.push(n - 1));
            assert(r.despawned.take(st.despawned.len() as int) =~= prev.despawned.take(st.despawned.len() as int));
            assert forall|j: int| st.despawned.len() <= j < r.despawned.len() implies {
                let k = #[trigger] r.despawned[j];
                &&& 0 <= k < n
                &&& slots[k].owner != own
                &&& !live.contains(slots[k].owner)
            } by {
                if j < prev.despawned.len() {
                    assert(r.despawned[j] == prev.despawned[j]);
                }
            }
        }
    }
}

/// A gossiped move changes only the target of the peer that sent it.
pub proof fn law_move_touches_only_sender(targets: Seq<CursorTarget>, sender: u64, x_bits: u32, y_bits: u32)
    ensures
        moved(targets, sender, x_bits, y_bits).len() == targets.len(),
        forall|i: int| 0 <= i < targets.len() && targets[i].owner != sender ==> #[trigger] moved(targets, sender, x_bits, y_bits)[i] == targets[i],
{
    lemma_first_index_bounds(targets, target_of(sender));
}

/// A click credits only a cursor of the peer that sent it: every other
/// cursor keeps its clicks.
pub proof fn law_click_credits_only_sender(
    slots: Seq<Slot>,
    pending: Seq<PendingClick>,
    own: u64,
    sender: u64,
    owner: u64,
    delta: i32,
)
    ensures
        credited(slots, pending, own, sender, owner, delta).0.len() == slots.len(),
        forall|i: int| 0 <= i < slots.len() && slots[i].owner != sender ==> #[trigger] credited(slots, pending, own, sender, owner, delta).0[i] == slots[i],
{
    lemma_first_index_bounds(slots, owned_by(sender));
}

/// Whether no two pending joins are for the same peer.
pub open spec fn one_join_per_peer(pending: Seq<PendingJoin>) -> bool {
    forall|i: int, j: int| 0 <= i < j < pending.len() ==> pending[i].peer@ != pending[j].peer@
}

/// Filtering keeps at most one pending join per peer.
pub proof fn lemma_filter_one_join_per_peer(s: Seq<PendingJoin>, p: spec_fn(PendingJoin) -> bool)
    requires
        one_join_per_peer(s),
    ensures
        one_join_per_peer(s.filter(p)),
    decreases s.len(),
{
    reveal(Seq::filter);
    if s.len() > 0 {
        let t = s.drop_last();
        assert(one_join_per_peer(t));
        lemma_filter_one_join_per_peer(t, p);
        let g = t.filter(p);
        if p(s.last()) {
            let f = g.push(s.last());
            assert(s.filter(p) == f);
            assert forall|i: int, j: int| 0 <= i < j < f.len() implies f[i].peer@ != f[j].peer@ by {
                if j == g.len() {
                    assert(t.filter(p).contains(f[i])) by {
                        assert(g[i] == f[i]);
                    }
                    t.lemma_filter_contains_rev(p, f[i]);
                    let k = choose|k: int| 0 <= k < t.len() && t[k] == f[i];
                    assert(s[k] == t[k]);
                } else {
                    assert(f[i] == g[i] && f[j] == g[j]);
                }
            }
        }
    }
}

/// Arming a join keeps at most one pending join per peer, and the armed
/// join is the pending one for its peer.
pub proof fn law_one_pending_join_per_peer(pending: Seq<PendingJoin>, entry: PendingJoin)
    requires
        one_join_per_peer(pending),
    ensures
        one_join_per_peer(armed(pending, entry)),
        armed(pending, entry).last() == entry,
{
    let f = pending.filter(other_peer(entry.peer@));
    broadcast use vstd::seq_lib::group_filter_ensures;
    lemma_filter_one_join_per_peer(pending, other_peer(entry.peer@));
    let a = armed(pending, entry);
    assert forall|i: int, j: int| 0 <= i < j < a.len() implies a[i].peer@ != a[j].peer@ by {
        if j == f.len() {
            assert(other_peer(entry.peer@)(f[i]));
        } else {
            assert(a[i] == f[i] && a[j] == f[j]);
        }
    }
}

/// Taking the due joins splits the pending ones: each is either due or
/// still waiting.
pub proof fn law_due_and_waiting_split(pending: Seq<PendingJoin>, now: u64)
    ensures
        pending.filter(due_by(now)).len() + pending.filter(waiting_at(now)).len() == pending.len(),
    decreases pending.len(),
{
    reveal(Seq::filter);
    if pending.len() > 0 {
        law_due_and_waiting_split(pending.drop_last(), now);
    }
}

/// A roster entry is dialed at most once: once its id was dialed, no later
/// entry for that id is dialed again.
pub proof fn law_dial_once(dialed: Seq<u64>, own: u64, now: u64, later: u64, id: u64, entry: PeerEntryV, again: PeerEntryV)
    ensures
        dials(dialed, own, now, id, entry) ==> !dials(dialed.push(id), own, later, id, again),
{
    assert(dialed.push(id)[dialed.len() as int] == id);
}

/// Any message or gossip from a peer clears its silence: it is not among
/// the members removed for silence right after.
pub proof fn law_activity_clears_silence(presence: Map<u64, u64>, e: EventV, now: u64, later: u64)
    ensures
        match e {
            EventV::Message { from, .. } => !silent_too_long(presence_step(presence, e, now), later)(from),
            EventV::Gossip { from, .. } => !silent_too_long(presence_step(presence, e, now), later)(from),
            _ => true,
        },
{
}

/// A labeled cursor whose owner left the roster stays while the owner has
/// been missing for less than the leave grace.
pub proof fn law_labeled_cursor_waits_out_grace(st: LeaveSt, own: u64, live: Seq<u64>, now: u64, k: int, s: Slot)
    requires
        s.player is Some,
        absence_of(st.absent, s.owner, now) < LEAVE_GRACE_SECS * 1000,
    ensures
        leave_one(st, own, live, now, k, s).despawned == st.despawned,
        leave_one(st, own, live, now, k, s).tombs == st.tombs,
{
}

/// The kept scores count the same over two sets of cursors that carry the
/// same player numbers.
pub proof fn lemma_retained_same_numbers(base: int, tombs: Seq<(u64, i32)>, seen: Seq<u64>, a: Seq<Slot>, b: Seq<Slot>)
    requires
        forall|x: u64| number_taken(a, x) <==> number_taken(b, x),
    ensures
        retained_total(base, tombs, seen, a) == retained_total(base, tombs, seen, b),
    decreases tombs.len(),
{
    if tombs.len() > 0 {
        lemma_retained_same_numbers(base, tombs.drop_last(), seen, a, b);
    }
}

/// A cursor without a player number never counts toward the room total.
pub proof fn law_unlabeled_never_counts(slots: Seq<Slot>, tombs: Seq<(u64, i32)>, seen: Seq<u64>, s: Slot)
    requires
        s.player is None,
    ensures
        room_total(slots.push(s), tombs, seen) == room_total(slots, tombs, seen),
{
    let t = slots.push(s);
    assert(t.drop_last() =~= slots);
    assert forall|x: u64| number_taken(t, x) <==> number_taken(slots, x) by {
        if number_taken(t, x) {
            let k = choose|k: int| 0 <= k < t.len() && #[trigger] t[k].player == Some(x);
            assert(k < slots.len());
            assert(slots[k] == t[k]);
        }
        if number_taken(slots, x) {
            let k = choose|k: int| 0 <= k < slots.len() && #[trigger] slots[k].player == Some(x);
            assert(t[k] == slots[k]);
        }
    }
    lemma_retained_same_numbers(live_total(slots, tombs), tombs, seen, t, slots);
}

/// Kept scores of players never seen labeled here never count toward the
/// room total.
pub proof fn law_unseen_scores_never_count(base: int, tombs: Seq<(u64, i32)>, seen: Seq<u64>, slots: Seq<Slot>)
    requires
        forall|i: int| 0 <= i < tombs.len() ==> !seen.contains(#[trigger] tombs[i].0),
    ensures
        retained_total(base, tombs, seen, slots) == base,
    decreases tombs.len(),
{
    if tombs.len() > 0 {
        let t = tombs.drop_last();
        assert forall|i: int| 0 <= i < t.len() implies !seen.contains(#[trigger] t[i].0) by {
            assert(t[i] == tombs[i]);
        }
        law_unseen_scores_never_count(base, t, seen, slots);
        assert(!seen.contains(tombs[tombs.len() - 1].0));
    }
}

/// Whether no name occurs twice in `v`.
pub open spec fn names_distinct(v: Seq<Seq<char>>) -> bool {
    forall|i: int, j: int| 0 <= i < v.len() && 0 <= j < v.len() && i != j ==> v[i] != v[j]
}

/// Whether `e` is a sync acknowledgement addressed to `own` from the peer
/// named `name`.
pub open spec fn acked_us(e: EventV, own: u64, name: Seq<char>) -> bool {
    match e {
        EventV::Message { from, payload: MsgV::SyncAck { target, .. } } => target == own && from.name == name,
        _ => false,
    }
}

/// Across a run of the sync exchange, the synced list keeps every name it
/// had, gains the sender of every acknowledgement addressed to us, and
/// never holds a name twice; and no cursor's clicks go down, nor does a
/// cursor move or change owner or number.
pub proof fn law_sync_records_every_acker(events: Seq<EventV>, st: SyncSt, own: u64, tombs: Seq<(u64, i32)>)
    requires
        names_distinct(st.synced),
    ensures
        ({
            let r = run(events, st, sync_step(own, tombs)).0;
            &&& names_distinct(r.synced)
            &&& forall|n: Seq<char>| st.synced.contains(n) ==> r.synced.contains(n)
            &&& forall|i: int, n: Seq<char>| 0 <= i < events.len() && #[trigger] acked_us(events[i], own, n) ==> r.synced.contains(n)
            &&& never_lowered(st.slots, r.slots)
        }),
    decreases events.len(),
{
    let step = sync_step(own, tombs);
    if events.len() == 0 {
        assert(never_lowered(st.slots, st.slots));
    } else {
        let ev = events.drop_last();
        law_sync_records_every_acker(ev, st, own, tombs);
        let prev = run(ev, st, step).0;
        let e = events.last();
        let r = run(events, st, step).0;
        assert(r == step(prev, e).0);
        assert forall|i: int, n: Seq<char>| 0 <= i < ev.len() && #[trigger] acked_us(events[i], own, n) implies acked_us(ev[i], own, n) by {
            assert(ev[i] == events[i]);
        }
        match e {
            EventV::Message { from, payload } => match payload {
                MsgV::SyncAck { target, entries } => {
                    if target == own {
                        law_sync_merge_never_lowers(prev.slots, prev.pending, from.id, entries);
                        if !prev.synced.contains(from.name) {
                            let t = prev.synced.push(from.name);
                            assert(r.synced == t);
                            assert forall|a: int, b: int| 0 <= a < t.len() && 0 <= b < t.len() && a != b implies t[a] != t[b] by {
                                if a == prev.synced.len() {
                                    assert(t[b] == prev.synced[b]);
                                } else if b == prev.synced.len() {
                                    assert(t[a] == prev.synced[a]);
                                }
                            }
                            assert forall|n: Seq<char>| prev.synced.contains(n) implies t.contains(n) by {
                                let k = choose|k: int| 0 <= k < prev.synced.len() && prev.synced[k] == n;
                                assert(t[k] == n);
                            }
                            assert(t[prev.synced.len() as int] == from.name);
                        }
                    }
                },
                _ => {},
            },
            _ => {},
        }
        assert forall|i: int, n: Seq<char>| 0 <= i < events.len() && #[trigger] acked_us(events[i], own, n) implies r.synced.contains(n) by {
            if i == events.len() - 1 {
                assert(events[i] == e);
            }
        }
    }
}

/// Growing the expected set from a welcome never adds a name twice: a set
/// without duplicates stays so, keeps every name it had, and gains every
/// name the welcome brings.
pub proof fn law_expected_set_stays_a_set(u: Seq<Seq<char>>, list: Seq<Seq<char>>)
    requires
        names_distinct(u),
    ensures
        names_distinct(union_with(u, list)),
        forall|n: Seq<char>| u.contains(n) ==> union_with(u, list).contains(n),
        forall|i: int| 0 <= i < list.len() ==> union_with(u, list).contains(#[trigger] list[i]),
    decreases list.len(),
{
    if list.len() > 0 {
        let l = list.drop_last();
        law_expected_set_stays_a_set(u, l);
        let prev = union_with(u, l);
        let x = list.last();
        assert forall|i: int| 0 <= i < l.len() implies prev.contains(#[trigger] list[i]) by {
            assert(l[i] == list[i]);
        }
        if !prev.contains(x) {
            let t = prev.push(x);
            assert forall|a: int, b: int| 0 <= a < t.len() && 0 <= b < t.len() && a != b implies t[a] != t[b] by {
                if a == prev.len() {
                    assert(t[b] == prev[b]);
                } else if b == prev.len() {
                    assert(t[a] == prev[a]);
                }
            }
            assert forall|n: Seq<char>| prev.contains(n) implies t.contains(n) by {
                let k = choose|k: int| 0 <= k < prev.len() && prev[k] == n;
                assert(t[k] == n);
            }
            assert(t[prev.len() as int] == x);
        }
        assert forall|i: int| 0 <= i < list.len() implies union_with(u, list).contains(#[trigger] list[i]) by {
            if i < l.len() {
                assert(prev.contains(list[i]));
            }
        }
    }
}

} // verus!
