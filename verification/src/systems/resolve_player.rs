use vstd::prelude::*;

use crate::lobby::{JoinGate, PendingJoin};
use crate::model::{max_int, number_taken, numbers_unique, ActiveLobby, PendingReveal, Slot};
use crate::seqs::{
    first_index, lemma_first_index_bounds, lemma_first_index_found, lemma_first_index_miss,
    lemma_first_index_none,
};
use crate::systems::sync_global::has_number;
use crate::tombstones::{score_of, without, ScoreTombstones};
use crate::topics::{pos_topic, pos_topic_of};
use crate::wire::{events_v, lemma_take_all, CursorMsg, Event, EventV, MsgV, PeerV};

verus! {

/// How a claimed player number was taken up by a slot: `deferred` when the
/// joiner is still waiting for its reveal (the number then rides the
/// reveal marker), else the slot was labeled at once.
#[derive(Debug, PartialEq, Eq)]
pub struct Resolution {
    pub slot: usize,
    pub owner: u64,
    pub player: u64,
    pub deferred: bool,
    pub peer: String,
}

/// A resolution as the logic reads it.
pub struct ResolutionV {
    pub slot: int,
    pub owner: u64,
    pub player: u64,
    pub deferred: bool,
    pub peer: Seq<char>,
}

impl View for Resolution {
    type V = ResolutionV;

    open spec fn view(&self) -> ResolutionV {
        ResolutionV {
            slot: self.slot as int,
            owner: self.owner,
            player: self.player,
            deferred: self.deferred,
            peer: self.peer@,
        }
    }
}

/// The views of resolutions.
pub open spec fn resolutions_v(s: Seq<Resolution>) -> Seq<ResolutionV> {
    s.map_values(|r: Resolution| r@)
}

/// What identity resolution reads: the join gate, the cursors, the kept
/// scores, the lobby, our own network id, the events of the frame and the
/// time in milliseconds of a monotonic clock.
#[derive(Debug, PartialEq, Eq)]
pub struct ResolveCtx {
    pub gate: JoinGate,
    pub events: Vec<Event>,
    pub slots: Vec<Slot>,
    pub tombstones: ScoreTombstones,
    pub lobby: ActiveLobby,
    pub own: u64,
    pub now: u64,
}

impl ResolveCtx {
    /// The gossip topic whose moves carry identities.
    pub fn topic(&self) -> (t: String)
        ensures
            t@ == pos_topic_of(self.lobby.0@),
    {
        pos_topic(&self.lobby)
    }
}

/// The sender and the claimed player number of a cursor move gossiped on
/// `topic`, if `e` is one.
pub open spec fn claim_of(e: EventV, topic: Seq<char>) -> Option<(PeerV, u64)> {
    match e {
        EventV::Gossip { topic: t, from, decoded, .. } => if t == topic {
            match decoded {
                Some(MsgV::Move { owner, .. }) => Some((from, owner)),
                _ => None,
            }
        } else {
            None
        },
        _ => None,
    }
}

/// A slot of `owner` that carries no player number yet.
pub open spec fn unlabeled_of(owner: u64) -> spec_fn(Slot) -> bool {
    |s: Slot| s.owner == owner && s.player is None
}

/// A pending join of the peer named `name`.
pub open spec fn pending_of(name: Seq<char>) -> spec_fn(PendingJoin) -> bool {
    |p: PendingJoin| p.peer@ == name
}

/// The state identity resolution changes.
pub struct ResolveSt {
    pub slots: Seq<Slot>,
    pub tombs: Seq<(u64, i32)>,
    pub done: Seq<ResolutionV>,
}

/// One event of identity resolution. A move gossiped on the lobby topic by
/// another peer claims a player number (not 0). Which numbers are taken
/// and which slots are unlabeled is read from `init`, the slots as they
/// stood at the start of the frame: labels given during the frame take
/// effect only after it. When no slot of `init` carries the number, the
/// first slot of the sender unlabeled in `init` takes it: if the
/// sender is a joiner waiting for its reveal, the number goes onto the
/// slot's reveal marker (revealing no earlier than now); otherwise the slot
/// is labeled at once and gets back the score kept for the number, which is
/// no longer kept.
pub open spec fn resolve_one(
    st: ResolveSt,
    init: Seq<Slot>,
    own: u64,
    topic: Seq<char>,
    now: u64,
    pending: Seq<PendingJoin>,
    e: EventV,
) -> ResolveSt {
    match claim_of(e, topic) {
        None => st,
        Some((from, claimed)) => if from.id == own || claimed == 0 || number_taken(init, claimed) {
            st
        } else {
            let k = first_index(init, unlabeled_of(from.id));
            if k < 0 {
                st
            } else {
                let j = first_index(pending, pending_of(from.name));
                if j >= 0 {
                    let p = pending[j];
                    let reveal = PendingReveal {
                        reveal_at: if now >= p.reveal_at { now } else { p.reveal_at },
                        fail_at: p.fail_at,
                        player: Some(claimed),
                    };
                    ResolveSt {
                        slots: st.slots.update(k, Slot { reveal: Some(reveal), ..st.slots[k] }),
                        tombs: st.tombs,
                        done: st.done.push(
                            ResolutionV {
                                slot: k,
                                owner: from.id,
                                player: claimed,
                                deferred: true,
                                peer: from.name,
                            },
                        ),
                    }
                } else {
                    let count = match score_of(st.tombs, claimed) {
                        Some(saved) => max_int(st.slots[k].count as int, saved as int) as i32,
                        None => st.slots[k].count,
                    };
                    ResolveSt {
                        slots: st.slots.update(
                            k,
                            Slot { player: Some(claimed), count, ..st.slots[k] },
                        ),
                        tombs: without(st.tombs, claimed),
                        done: st.done.push(
                            ResolutionV {
                                slot: k,
                                owner: from.id,
                                player: claimed,
                                deferred: false,
                                peer: from.name,
                            },
                        ),
                    }
                }
            }
        },
    }
}

/// Identity resolution over the events in order.
pub open spec fn resolve_all(
    st: ResolveSt,
    init: Seq<Slot>,
    own: u64,
    topic: Seq<char>,
    now: u64,
    pending: Seq<PendingJoin>,
    events: Seq<EventV>,
) -> ResolveSt
    decreases events.len(),
{
    if events.len() == 0 {
        st
    } else {
        resolve_one(
            resolve_all(st, init, own, topic, now, pending, events.drop_last()),
            init,
            own,
            topic,
            now,
            pending,
            events.last(),
        )
    }
}

/// A copy of the slots.
fn copy_slots(slots: &Vec<Slot>) -> (r: Vec<Slot>)
    ensures
        r@ == slots@,
{
    let mut r: Vec<Slot> = Vec::new();
    let mut i: usize = 0;
    while i < slots.len()
        invariant
            i <= slots@.len(),
            r@ == slots@.take(i as int),
        decreases slots@.len() - i,
    {
        r.push(slots[i]);
        proof {
            assert(r@ =~= slots@.take(i + 1));
        }
        i = i + 1;
    }
    proof {
        lemma_take_all(slots@);
    }
    r
}

/// The first unlabeled slot of `owner`, if any.
fn find_unlabeled(slots: &Vec<Slot>, owner: u64) -> (r: Option<usize>)
    ensures
        r matches Some(i) ==> i == first_index(slots@, unlabeled_of(owner)),
        r is None ==> first_index(slots@, unlabeled_of(owner)) == -1,
{
    proof {
        lemma_first_index_bounds(slots@, unlabeled_of(owner));
    }
    let mut i: usize = 0;
    while i < slots.len()
        invariant
            i <= slots@.len(),
            first_index(slots@.take(i as int), unlabeled_of(owner)) == -1,
        decreases slots@.len() - i,
    {
        if slots[i].owner == owner && slots[i].player.is_none() {
            proof {
                lemma_first_index_found(slots@, i as int, unlabeled_of(owner));
            }
            return Some(i);
        }
        proof {
            lemma_first_index_miss(slots@, i as int, unlabeled_of(owner));
        }
        i = i + 1;
    }
    proof {
        lemma_first_index_none(slots@, unlabeled_of(owner));
    }
    None
}

/// The first pending join of the peer named `name`, if any.
pub fn find_pending(pending: &Vec<PendingJoin>, name: &String) -> (r: Option<usize>)
    ensures
        r matches Some(i) ==> i == first_index(pending@, pending_of(name@)),
        r is None ==> first_index(pending@, pending_of(name@)) == -1,
{
    proof {
        lemma_first_index_bounds(pending@, pending_of(name@));
    }
    let mut i: usize = 0;
    while i < pending.len()
        invariant
            i <= pending@.len(),
            first_index(pending@.take(i as int), pending_of(name@)) == -1,
        decreases pending@.len() - i,
    {
        if pending[i].peer == *name {
            proof {
                lemma_first_index_found(pending@, i as int, pending_of(name@));
            }
            return Some(i);
        }
        proof {
            lemma_first_index_miss(pending@, i as int, pending_of(name@));
        }
        i = i + 1;
    }
    proof {
        lemma_first_index_none(pending@, pending_of(name@));
    }
    None
}

/// Handles one event of identity resolution (see [`resolve_one`]).
fn resolve_event(
    e: &Event,
    init: &Vec<Slot>,
    slots: &mut Vec<Slot>,
    tombstones: &mut ScoreTombstones,
    pending: &Vec<PendingJoin>,
    own: u64,
    topic: &String,
    now: u64,
    done: &mut Vec<Resolution>,
)
    requires
        old(tombstones).wf(),
        old(slots)@.len() == init@.len(),
    ensures
        final(tombstones).wf(),
        final(slots)@.len() == init@.len(),
        ({
            let r = resolve_one(
                ResolveSt {
                    slots: old(slots)@,
                    tombs: old(tombstones).entries@,
                    done: resolutions_v(old(done)@),
                },
                init@,
                own,
                topic@,
                now,
                pending@,
                e@,
            );
            &&& final(slots)@ == r.slots
            &&& final(tombstones).entries@ == r.tombs
            &&& resolutions_v(final(done)@) == r.done
        }),
{
    if let Event::Gossip { topic: incoming, from, decoded: Some(CursorMsg::Move { owner: claimed, .. }), .. } = e {
        if *incoming == *topic {
            let claimed = *claimed;
            if from.id != own && claimed != 0 && !has_number(init, claimed) {
                if let Some(k) = find_unlabeled(init, from.id) {
                    proof {
                        lemma_first_index_bounds(init@, unlabeled_of(from.id));
                        lemma_first_index_bounds(pending@, pending_of(from.name@));
                    }
                    match find_pending(pending, &from.name) {
                        Some(j) => {
                            let p = &pending[j];
                            let reveal = PendingReveal {
                                reveal_at: if now >= p.reveal_at { now } else { p.reveal_at },
                                fail_at: p.fail_at,
                                player: Some(claimed),
                            };
                            let mut slot = slots[k];
                            slot.reveal = Some(reveal);
                            slots.set(k, slot);
                            let r = Resolution {
                                slot: k,
                                owner: from.id,
                                player: claimed,
                                deferred: true,
                                peer: from.name.clone(),
                            };
                            proof {
                                assert(resolutions_v(done@.push(r)) =~= resolutions_v(done@).push(r@));
                            }
                            done.push(r);
                        },
                        None => {
                            let mut slot = slots[k];
                            slot.player = Some(claimed);
                            if let Some(saved) = tombstones.restore(claimed) {
                                if saved > slot.count {
                                    slot.count = saved;
                                }
                            }
                            slots.set(k, slot);
                            let r = Resolution {
                                slot: k,
                                owner: from.id,
                                player: claimed,
                                deferred: false,
                                peer: from.name.clone(),
                            };
                            proof {
                                assert(resolutions_v(done@.push(r)) =~= resolutions_v(done@).push(r@));
                            }
                            done.push(r);
                        },
                    }
                }
            }
        }
    }
}

/// Resolves the player numbers that remote peers claim in their gossiped
/// moves (see [`resolve_one`]), reading taken numbers and unlabeled slots
/// from the slots as they stood before the call; every event passes on
/// untouched. Returns what was resolved, in event order.
pub fn resolve_player(ctx: &mut ResolveCtx) -> (done: Vec<Resolution>)
    requires
        old(ctx).tombstones.wf(),
    ensures
        final(ctx).tombstones.wf(),
        final(ctx).events == old(ctx).events,
        final(ctx).gate == old(ctx).gate,
        final(ctx).lobby == old(ctx).lobby,
        final(ctx).own == old(ctx).own,
        final(ctx).now == old(ctx).now,
        ({
            let r = resolve_all(
                ResolveSt {
                    slots: old(ctx).slots@,
                    tombs: old(ctx).tombstones.entries@,
                    done: Seq::empty(),
                },
                old(ctx).slots@,
                old(ctx).own,
                pos_topic_of(old(ctx).lobby.0@),
                old(ctx).now,
                old(ctx).gate.pending@,
                events_v(old(ctx).events@),
            );
            &&& final(ctx).slots@ == r.slots
            &&& final(ctx).tombstones.entries@ == r.tombs
            &&& resolutions_v(done@) == r.done
        }),
{
    let topic = ctx.topic();
    let mut done: Vec<Resolution> = Vec::new();
    let ghost init = ResolveSt {
        slots: ctx.slots@,
        tombs: ctx.tombstones.entries@,
        done: Seq::empty(),
    };
    let ghost evs = events_v(ctx.events@);
    let start = copy_slots(&ctx.slots);
    proof {
        assert(resolutions_v(done@) =~= Seq::<ResolutionV>::empty());
    }
    let mut i: usize = 0;
    while i < ctx.events.len()
        invariant
            i <= ctx.events@.len(),
            ctx.tombstones.wf(),
            ctx.events == old(ctx).events,
            ctx.gate == old(ctx).gate,
            ctx.lobby == old(ctx).lobby,
            ctx.own == old(ctx).own,
            ctx.now == old(ctx).now,
            topic@ == pos_topic_of(ctx.lobby.0@),
            evs == events_v(ctx.events@),
            start@ == init.slots,
            ctx.slots@.len() == start@.len(),
            resolve_all(init, start@, ctx.own, topic@, ctx.now, ctx.gate.pending@, evs.take(i as int))
                == (ResolveSt {
                slots: ctx.slots@,
                tombs: ctx.tombstones.entries@,
                done: resolutions_v(done@),
            }),
        decreases ctx.events@.len() - i,
    {
        proof {
            assert(evs.take(i + 1).drop_last() =~= evs.take(i as int));
            assert(evs[i as int] == ctx.events@[i as int]@);
        }
        resolve_event(
            &ctx.events[i],
            &start,
            &mut ctx.slots,
            &mut ctx.tombstones,
            &ctx.gate.pending,
            ctx.own,
            &topic,
            ctx.now,
            &mut done,
        );
        i = i + 1;
    }
    proof {
        lemma_take_all(evs);
    }
    done
}

/// Whether the `k`-th event is a claim that labels a slot at once: a move
/// gossiped on `topic` in which the peer with network id `owner`, not us,
/// claims the number `claimed` (not 0) that no slot of `init` carries,
/// while that peer has a slot unlabeled in `init` and no pending join.
pub open spec fn takes_label(
    events: Seq<EventV>,
    topic: Seq<char>,
    init: Seq<Slot>,
    own: u64,
    pending: Seq<PendingJoin>,
    k: int,
    owner: u64,
    claimed: u64,
) -> bool {
    match claim_of(events[k], topic) {
        Some((from, c)) => {
            &&& from.id == owner
            &&& c == claimed
            &&& owner != own
            &&& claimed != 0
            &&& !number_taken(init, claimed)
            &&& first_index(init, unlabeled_of(owner)) >= 0
            &&& first_index(pending, pending_of(from.name)) < 0
        },
        None => false,
    }
}

/// Whether no two claims of `events` that label at once give the same
/// number to different peers.
pub open spec fn labels_agree(
    events: Seq<EventV>,
    topic: Seq<char>,
    init: Seq<Slot>,
    own: u64,
    pending: Seq<PendingJoin>,
) -> bool {
    forall|i: int, j: int, a: u64, b: u64, c: u64|
        0 <= i < events.len() && 0 <= j < events.len() && #[trigger] takes_label(events, topic, init, own, pending, i, a, c)
            && #[trigger] takes_label(events, topic, init, own, pending, j, b, c) ==> a == b
}

/// Every number that `slots` carries and `init` does not was given by a
/// claim of `events` that labels at once, made by the slot's owner, and
/// went to the owner's first slot unlabeled in `init`; owners stay.
pub open spec fn labels_from_claims(
    init: Seq<Slot>,
    slots: Seq<Slot>,
    events: Seq<EventV>,
    topic: Seq<char>,
    own: u64,
    pending: Seq<PendingJoin>,
) -> bool {
    &&& slots.len() == init.len()
    &&& forall|i: int| 0 <= i < slots.len() ==> #[trigger] slots[i].owner == init[i].owner
    &&& forall|i: int|
        0 <= i < slots.len() && #[trigger] slots[i].player != init[i].player ==> {
            &&& init[i].player is None
            &&& i == first_index(init, unlabeled_of(init[i].owner))
            &&& slots[i].player is Some
            &&& exists|k: int|
                0 <= k < events.len() && takes_label(events, topic, init, own, pending, k, init[i].owner, slots[i].player.unwrap())
        }
}

/// Over a frame, labels come only from claims that label at once (see
/// [`labels_from_claims`]).
pub proof fn lemma_frame_labels_from_claims(
    st: ResolveSt,
    own: u64,
    topic: Seq<char>,
    now: u64,
    pending: Seq<PendingJoin>,
    events: Seq<EventV>,
)
    ensures
        labels_from_claims(
            st.slots,
            resolve_all(st, st.slots, own, topic, now, pending, events).slots,
            events,
            topic,
            own,
            pending,
        ),
    decreases events.len(),
{
    let init = st.slots;
    if events.len() > 0 {
        let ev = events.drop_last();
        lemma_frame_labels_from_claims(st, own, topic, now, pending, ev);
        let prev = resolve_all(st, init, own, topic, now, pending, ev);
        let r = resolve_all(st, init, own, topic, now, pending, events).slots;
        assert forall|k: int, o: u64, c: u64|
            0 <= k < ev.len() && takes_label(ev, topic, init, own, pending, k, o, c) implies takes_label(
            events,
            topic,
            init,
            own,
            pending,
            k,
            o,
            c,
        ) by {
            assert(ev[k] == events[k]);
        }
        match claim_of(events.last(), topic) {
            None => {},
            Some((from, claimed)) => {
                lemma_first_index_bounds(init, unlabeled_of(from.id));
                lemma_first_index_bounds(pending, pending_of(from.name));
                let k = first_index(init, unlabeled_of(from.id));
                assert forall|i: int| 0 <= i < r.len() && #[trigger] r[i].player != init[i].player implies {
                    &&& init[i].player is None
                    &&& i == first_index(init, unlabeled_of(init[i].owner))
                    &&& r[i].player is Some
                    &&& exists|m: int|
                        0 <= m < events.len() && takes_label(events, topic, init, own, pending, m, init[i].owner, r[i].player.unwrap())
                } by {
                    if i == k && prev.slots[i].player != r[i].player {
                        assert(takes_label(events, topic, init, own, pending, events.len() - 1, init[i].owner, r[i].player.unwrap()));
                    } else {
                        assert(r[i].player == prev.slots[i].player);
                        let m = choose|m: int|
                            0 <= m < ev.len() && takes_label(ev, topic, init, own, pending, m, init[i].owner, prev.slots[i].player.unwrap());
                        assert(takes_label(events, topic, init, own, pending, m, init[i].owner, r[i].player.unwrap()));
                    }
                }
            },
        }
    }
}

/// Within a frame, resolution never gives a player number that a slot
/// carries to a second slot, so long as no two claims of the frame that
/// label at once give one number to different peers (the one case in which
/// both peers get it).
pub proof fn law_frame_keeps_numbers_unique(
    st: ResolveSt,
    own: u64,
    topic: Seq<char>,
    now: u64,
    pending: Seq<PendingJoin>,
    events: Seq<EventV>,
)
    requires
        numbers_unique(st.slots),
        labels_agree(events, topic, st.slots, own, pending),
    ensures
        numbers_unique(resolve_all(st, st.slots, own, topic, now, pending, events).slots),
{
    let init = st.slots;
    let r = resolve_all(st, init, own, topic, now, pending, events).slots;
    lemma_frame_labels_from_claims(st, own, topic, now, pending, events);
    assert forall|i: int, j: int|
        0 <= i < r.len() && 0 <= j < r.len() && i != j && r[i].player is Some implies r[i].player != r[j].player by {
        if r[i].player == r[j].player {
            if r[i].player != init[i].player && r[j].player != init[j].player {
                let c = r[i].player.unwrap();
                let mi = choose|m: int| 0 <= m < events.len() && takes_label(events, topic, init, own, pending, m, init[i].owner, c);
                let mj = choose|m: int| 0 <= m < events.len() && takes_label(events, topic, init, own, pending, m, init[j].owner, c);
                assert(init[i].owner == init[j].owner);
            } else if r[i].player != init[i].player {
                let c = r[i].player.unwrap();
                let mi = choose|m: int| 0 <= m < events.len() && takes_label(events, topic, init, own, pending, m, init[i].owner, c);
                assert(init[j].player == Some(c));
                assert(number_taken(init, c));
            } else if r[j].player != init[j].player {
                let c = r[j].player.unwrap();
                let mj = choose|m: int| 0 <= m < events.len() && takes_label(events, topic, init, own, pending, m, init[j].owner, c);
                assert(init[i].player == Some(c));
                assert(number_taken(init, c));
            }
        }
    }
}

/// A player number that a slot already carries at the start of a frame is
/// never given to another slot during it: any slot that carries such a
/// number afterwards carried it before.
pub proof fn law_taken_number_never_given(
    st: ResolveSt,
    own: u64,
    topic: Seq<char>,
    now: u64,
    pending: Seq<PendingJoin>,
    events: Seq<EventV>,
    c: u64,
)
    requires
        number_taken(st.slots, c),
    ensures
        ({
            let r = resolve_all(st, st.slots, own, topic, now, pending, events).slots;
            &&& r.len() == st.slots.len()
            &&& forall|i: int| 0 <= i < r.len() && #[trigger] r[i].player == Some(c) ==> st.slots[i].player == Some(c)
        }),
{
    let init = st.slots;
    let r = resolve_all(st, init, own, topic, now, pending, events).slots;
    lemma_frame_labels_from_claims(st, own, topic, now, pending, events);
    assert forall|i: int| 0 <= i < r.len() && #[trigger] r[i].player == Some(c) implies init[i].player == Some(c) by {
        if r[i].player != init[i].player {
            let m = choose|m: int| 0 <= m < events.len() && takes_label(events, topic, init, own, pending, m, init[i].owner, c);
        }
    }
}

} // verus!
