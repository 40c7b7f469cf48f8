use vstd::prelude::*;

use crate::idset::names;
use crate::lobby::{due_by, waiting_at, JoinGate, PendingJoin};
use crate::model::{Peer, Slot};
use crate::seqs::{
    first_index, lemma_first_index_bounds, lemma_first_index_found, lemma_first_index_miss,
    lemma_first_index_none,
};

verus! {

/// Whether a peer carries the name `name`.
pub open spec fn named(name: Seq<char>) -> spec_fn(Peer) -> bool {
    |p: Peer| p.name@ == name
}

/// Whether `peers` knows the network id of `name`.
pub open spec fn knows(peers: Seq<Peer>, name: Seq<char>) -> bool {
    exists|k: int| 0 <= k < peers.len() && #[trigger] peers[k].name@ == name
}

/// The network id that `peers` gives the name `name` (its first entry).
pub open spec fn id_in(peers: Seq<Peer>, name: Seq<char>) -> u64 {
    peers[first_index(peers, named(name))].id
}

/// The cursor owner a due join maps to: our own id for our own join, else
/// the network id of the joiner's peer.
pub open spec fn reveal_target(entry: PendingJoin, peers: Seq<Peer>, own: u64) -> u64 {
    if entry.joiner == own {
        own
    } else {
        id_in(peers, entry.peer@)
    }
}

/// Whether a cursor of `owner` waits for its reveal.
pub open spec fn revealing(owner: u64) -> spec_fn(Slot) -> bool {
    |s: Slot| s.owner == owner && s.reveal is Some
}

/// What a due join does to its cursor: labels it with the peer's name and
/// the number its marker carries, or drops it when the marker has none.
#[derive(Debug, PartialEq, Eq)]
pub enum RevealAction {
    Label { slot: usize, peer: String, player: u64 },
    Despawn { slot: usize },
}

/// [`RevealAction`] over plain values.
pub enum RevealActionV {
    Label { slot: int, peer: Seq<char>, player: u64 },
    Despawn { slot: int },
}

impl View for RevealAction {
    type V = RevealActionV;

    open spec fn view(&self) -> RevealActionV {
        match self {
            RevealAction::Label { slot, peer, player } => RevealActionV::Label {
                slot: *slot as int,
                peer: peer@,
                player: *player,
            },
            RevealAction::Despawn { slot } => RevealActionV::Despawn { slot: *slot as int },
        }
    }
}

/// The views of a sequence of reveal actions.
pub open spec fn reveal_actions_v(s: Seq<RevealAction>) -> Seq<RevealActionV> {
    s.map_values(|a: RevealAction| a@)
}

/// One due join: the first cursor of its target that waits for a reveal is
/// labeled when its marker carries a number and dropped otherwise; the
/// peer is remembered absent when the cursor is dropped or missing.
pub open spec fn reveal_one(slots: Seq<Slot>, entry: PendingJoin, peers: Seq<Peer>, own: u64) -> (
    Seq<RevealActionV>,
    Seq<Seq<char>>,
) {
    let k = first_index(slots, revealing(reveal_target(entry, peers, own)));
    if k >= 0 {
        match slots[k].reveal.unwrap().player {
            Some(p) => (seq![RevealActionV::Label { slot: k, peer: entry.peer@, player: p }], Seq::empty()),
            None => (seq![RevealActionV::Despawn { slot: k }], seq![entry.peer@]),
        }
    } else {
        (Seq::empty(), seq![entry.peer@])
    }
}

/// The first `n` due joins, in order: the actions, and the peers to
/// remember absent.
pub open spec fn reveal_all(slots: Seq<Slot>, due: Seq<PendingJoin>, peers: Seq<Peer>, own: u64, n: int) -> (
    Seq<RevealActionV>,
    Seq<Seq<char>>,
)
    decreases n,
{
    if n <= 0 {
        (Seq::empty(), Seq::empty())
    } else {
        let prev = reveal_all(slots, due, peers, own, n - 1);
        let next = reveal_one(slots, due[n - 1], peers, own);
        (prev.0 + next.0, prev.1 + next.1)
    }
}

/// The network id that `peers` gives `name`.
pub fn peer_id(peers: &Vec<Peer>, name: &String) -> (r: u64)
    requires
        knows(peers@, name@),
    ensures
        r == id_in(peers@, name@),
{
    proof {
        lemma_first_index_bounds(peers@, named(name@));
    }
    let mut i: usize = 0;
    while i < peers.len()
        invariant
            i <= peers@.len(),
            knows(peers@, name@),
            first_index(peers@.take(i as int), named(name@)) == -1,
        decreases peers@.len() - i,
    {
        if peers[i].name == *name {
            proof {
                lemma_first_index_found(peers@, i as int, named(name@));
            }
            return peers[i].id;
        }
        proof {
            lemma_first_index_miss(peers@, i as int, named(name@));
        }
        i = i + 1;
    }
    proof {
        lemma_first_index_none(peers@, named(name@));
        lemma_first_index_bounds(peers@, named(name@));
        let k = choose|k: int| 0 <= k < peers@.len() && #[trigger] peers@[k].name@ == name@;
        assert(named(name@)(peers@[k]));
    }
    0
}

/// The first cursor of `owner` that waits for its reveal, if any.
pub fn find_revealing(slots: &Vec<Slot>, owner: u64) -> (r: Option<usize>)
    ensures
        r matches Some(i) ==> i == first_index(slots@, revealing(owner)),
        r is None ==> first_index(slots@, revealing(owner)) == -1,
{
    proof {
        lemma_first_index_bounds(slots@, revealing(owner));
    }
    let mut i: usize = 0;
    while i < slots.len()
        invariant
            i <= slots@.len(),
            first_index(slots@.take(i as int), revealing(owner)) == -1,
        decreases slots@.len() - i,
    {
        if slots[i].owner == owner && slots[i].reveal.is_some() {
            proof {
                lemma_first_index_found(slots@, i as int, revealing(owner));
            }
            return Some(i);
        }
        proof {
            lemma_first_index_miss(slots@, i as int, revealing(owner));
        }
        i = i + 1;
    }
    proof {
        lemma_first_index_none(slots@, revealing(owner));
    }
    None
}

/// Reveals the joins due by `now` (see [`reveal_one`]): they leave the
/// gate, the peers of dropped or missing cursors are remembered absent, and
/// the actions on the cursors come back in order. `peers` gives the network
/// id of the peer of each pending join.
pub fn reveal_on_join(gate: &mut JoinGate, slots: &Vec<Slot>, peers: &Vec<Peer>, own: u64, now: u64) -> (r: Vec<RevealAction>)
    requires
        forall|j: int| 0 <= j < old(gate).pending@.len() ==> knows(peers@, #[trigger] old(gate).pending@[j].peer@),
    ensures
        ({
            let due = old(gate).pending@.filter(due_by(now));
            let out = reveal_all(slots@, due, peers@, own, due.len() as int);
            &&& reveal_actions_v(r@) == out.0
            &&& names(final(gate).absent@) == names(old(gate).absent@) + out.1
        }),
        final(gate).pending@ == old(gate).pending@.filter(waiting_at(now)),
        final(gate).expected == old(gate).expected,
        final(gate).synced == old(gate).synced,
        final(gate).committed == old(gate).committed,
{
    let ghost before = gate.pending@;
    let ghost absent0 = names(gate.absent@);
    let due = gate.take_due_pending(now);
    let mut r: Vec<RevealAction> = Vec::new();
    let mut i: usize = 0;
    proof {
        assert(reveal_actions_v(r@) =~= Seq::<RevealActionV>::empty());
        assert(names(gate.absent@) =~= absent0 + Seq::<Seq<char>>::empty());
    }
    while i < due.len()
        invariant
            i <= due@.len(),
            due@ == before.filter(due_by(now)),
            forall|j: int| 0 <= j < before.len() ==> knows(peers@, #[trigger] before[j].peer@),
            ({
                let out = reveal_all(slots@, due@, peers@, own, i as int);
                &&& reveal_actions_v(r@) == out.0
                &&& names(gate.absent@) == absent0 + out.1
            }),
            gate.pending@ == before.filter(waiting_at(now)),
            gate.expected == old(gate).expected,
            gate.synced == old(gate).synced,
            gate.committed == old(gate).committed,
        decreases due@.len() - i,
    {
        let entry = &due[i];
        let target = if entry.joiner == own {
            own
        } else {
            proof {
                assert(before.filter(due_by(now)).contains(due@[i as int]));
                before.lemma_filter_contains_rev(due_by(now), due@[i as int]);
                let j = choose|j: int| 0 <= j < before.len() && before[j] == due@[i as int];
                assert(knows(peers@, before[j].peer@));
            }
            peer_id(peers, &entry.peer)
        };
        let ghost prev_r = reveal_actions_v(r@);
        let ghost prev_a = names(gate.absent@);
        proof {
            lemma_first_index_bounds(slots@, revealing(target));
        }
        match find_revealing(slots, target) {
            Some(k) => {
                match slots[k].reveal.unwrap().player {
                    Some(p) => {
                        let a = RevealAction::Label { slot: k, peer: entry.peer.clone(), player: p };
                        r.push(a);
                        proof {
                            assert(reveal_actions_v(r@) =~= prev_r + seq![a@]);
                            assert(names(gate.absent@) =~= prev_a + Seq::<Seq<char>>::empty());
                        }
                    },
                    None => {
                        let a = RevealAction::Despawn { slot: k };
                        r.push(a);
                        gate.absent.push(entry.peer.clone());
                        proof {
                            assert(reveal_actions_v(r@) =~= prev_r + seq![a@]);
                            assert(names(gate.absent@) =~= prev_a + seq![entry.peer@]);
                        }
                    },
                }
            },
            None => {
                gate.absent.push(entry.peer.clone());
                proof {
                    assert(reveal_actions_v(r@) =~= prev_r + Seq::<RevealActionV>::empty());
                    assert(names(gate.absent@) =~= prev_a + seq![entry.peer@]);
                }
            },
        }
        proof {
            assert((absent0 + reveal_all(slots@, due@, peers@, own, i as int).1) + reveal_one(slots@, due@[i as int], peers@, own).1
                =~= absent0 + (reveal_all(slots@, due@, peers@, own, i as int).1 + reveal_one(slots@, due@[i as int], peers@, own).1));
        }
        i = i + 1;
    }
    r
}

} // verus!
