use vstd::prelude::*;

use crate::digest::roster_key;
use crate::idset::{contains_id, contains_name, insert_id, names};
use crate::model::ActiveLobby;
use crate::systems::absorb_welcome::{add_edit, add_name};
use crate::topics::{gossip_roster_topic, roster_topic_of};
use crate::wire::{
    commands_v, edits_v, events_v, lemma_commands_push, lemma_edits_push, lemma_take_all,
    lemma_views_push, Command, CommandV, Event, EventV, RosterEdit, RosterEditV,
};

verus! {

/// Seconds after which a gossiped roster entry is too old to dial.
pub const STALE_ENTRY_SECS: u64 = 60;

/// A peer as the roster gossip advertises it: its name, its addresses and
/// when (in seconds since the Unix epoch) it last refreshed the entry.
#[derive(Debug, PartialEq, Eq)]
pub struct PeerEntry {
    pub peer_id: String,
    pub addrs: Vec<String>,
    pub updated_at: u64,
}

/// A roster entry as the logic reads it.
pub struct PeerEntryV {
    pub peer_id: Seq<char>,
    pub addrs: Seq<Seq<char>>,
    pub updated_at: u64,
}

impl View for PeerEntry {
    type V = PeerEntryV;

    open spec fn view(&self) -> PeerEntryV {
        PeerEntryV { peer_id: self.peer_id@, addrs: names(self.addrs@), updated_at: self.updated_at }
    }
}

/// The views of a gossiped roster state.
pub open spec fn state_v(s: Seq<(u64, PeerEntry)>) -> Seq<(u64, PeerEntryV)> {
    s.map_values(|e: (u64, PeerEntry)| (e.0, e.1@))
}

/// Whether a gossiped entry is dialed: not us, with addresses, not stale at
/// `now`, and not dialed before.
pub open spec fn dials(dialed: Seq<u64>, own: u64, now: u64, id: u64, entry: PeerEntryV) -> bool {
    &&& id != own
    &&& entry.addrs.len() > 0
    &&& (if now >= entry.updated_at { now - entry.updated_at } else { 0 }) <= STALE_ENTRY_SECS
    &&& !dialed.contains(id)
}

/// Decides whether a gossiped entry needs a dial, dialing each id once:
/// returns its name and addresses when it does.
pub fn absorb_entry(dialed: &mut Vec<u64>, own: u64, now: u64, id: u64, entry: &PeerEntry) -> (r: Option<(String, Vec<String>)>)
    ensures
        dials(old(dialed)@, own, now, id, entry@) ==> (r matches Some((p, a)) && p@ == entry.peer_id@ && names(a@) == names(entry.addrs@)
            && final(dialed)@ == old(dialed)@.push(id)),
        !dials(old(dialed)@, own, now, id, entry@) ==> r is None && final(dialed)@ == old(dialed)@,
{
    if id == own || entry.addrs.len() == 0 {
        return None;
    }
    if now.saturating_sub(entry.updated_at) > STALE_ENTRY_SECS {
        return None;
    }
    if contains_id(dialed, id) {
        return None;
    }
    dialed.push(id);
    let addrs = entry.addrs.clone();
    proof {
        assert(names(addrs@) =~= names(entry.addrs@));
    }
    Some((entry.peer_id.clone(), addrs))
}

/// `presence` joined by the names of `list`, in order.
pub open spec fn present_with(presence: Seq<Seq<char>>, list: Seq<Seq<char>>) -> Seq<Seq<char>>
    decreases list.len(),
{
    if list.len() == 0 {
        presence
    } else {
        add_name(present_with(presence, list.drop_last()), list.last())
    }
}

/// Records the peers present in any lobby (`all_members`), so that gossip
/// never brings back a member that vanished.
pub fn refresh_presence(presence: &mut Vec<String>, all_members: &Vec<String>)
    ensures
        names(final(presence)@) == present_with(names(old(presence)@), names(all_members@)),
{
    let mut i: usize = 0;
    while i < all_members.len()
        invariant
            i <= all_members@.len(),
            names(presence@) == present_with(names(old(presence)@), names(all_members@).take(i as int)),
        decreases all_members@.len() - i,
    {
        proof {
            assert(names(all_members@).take(i + 1).drop_last() =~= names(all_members@).take(i as int));
            assert(names(all_members@).take(i + 1).last() == all_members@[i as int]@);
        }
        if !contains_name(presence, &all_members[i]) {
            let p = all_members[i].clone();
            proof {
                assert(names(presence@.push(p)) =~= names(presence@).push(p@));
            }
            presence.push(p);
        }
        i = i + 1;
    }
    proof {
        lemma_take_all(names(all_members@));
    }
}

/// What absorbing roster gossip changes and emits.
pub struct RosterSt {
    pub dialed: Seq<u64>,
    pub edits: Seq<RosterEditV>,
    pub commands: Seq<CommandV>,
}

/// One gossiped entry: when it is dialed, it joins the lobby's roster
/// unless it was present before and is missing now, and a dial goes out.
pub open spec fn entry_step(
    st: RosterSt,
    room: Seq<char>,
    presence: Seq<Seq<char>>,
    union: Seq<Seq<char>>,
    own: u64,
    now: u64,
    e: (u64, PeerEntryV),
) -> RosterSt {
    if dials(st.dialed, own, now, e.0, e.1) {
        RosterSt {
            dialed: st.dialed.push(e.0),
            edits: if !presence.contains(e.1.peer_id) || union.contains(e.1.peer_id) {
                st.edits.push(add_edit(room, e.1.peer_id))
            } else {
                st.edits
            },
            commands: st.commands.push(CommandV::Dial { peer_id: e.1.peer_id, addrs: e.1.addrs }),
        }
    } else {
        st
    }
}

/// The entries of one gossiped roster state in order.
pub open spec fn entries_step(
    st: RosterSt,
    room: Seq<char>,
    presence: Seq<Seq<char>>,
    union: Seq<Seq<char>>,
    own: u64,
    now: u64,
    entries: Seq<(u64, PeerEntryV)>,
) -> RosterSt
    decreases entries.len(),
{
    if entries.len() == 0 {
        st
    } else {
        entry_step(
            entries_step(st, room, presence, union, own, now, entries.drop_last()),
            room,
            presence,
            union,
            own,
            now,
            entries.last(),
        )
    }
}

/// Whether an event is roster gossip of our lobby.
pub open spec fn is_roster_gossip(e: EventV, topic: Seq<char>) -> bool {
    match e {
        EventV::Gossip { topic: t, .. } => t == topic,
        _ => false,
    }
}

/// The first `n` events: roster gossip of our lobby is consumed and its
/// decoded state (`states[i]` for event `i`) absorbed entry by entry;
/// everything else passes on.
pub open spec fn roster_all(
    st: RosterSt,
    room: Seq<char>,
    presence: Seq<Seq<char>>,
    union: Seq<Seq<char>>,
    own: u64,
    now: u64,
    events: Seq<EventV>,
    states: Seq<Seq<(u64, PeerEntryV)>>,
    n: int,
) -> (RosterSt, Seq<EventV>)
    decreases n,
{
    if n <= 0 {
        (st, Seq::empty())
    } else {
        let prev = roster_all(st, room, presence, union, own, now, events, states, n - 1);
        if is_roster_gossip(events[n - 1], roster_topic_of(room)) {
            (entries_step(prev.0, room, presence, union, own, now, states[n - 1]), prev.1)
        } else {
            (prev.0, prev.1.push(events[n - 1]))
        }
    }
}

/// Absorbs one gossiped roster state.
fn absorb_state(
    state: &Vec<(u64, PeerEntry)>,
    dialed: &mut Vec<u64>,
    edits: &mut Vec<RosterEdit>,
    commands: &mut Vec<Command>,
    lobby: &ActiveLobby,
    presence: &Vec<String>,
    all_members: &Vec<String>,
    own: u64,
    now: u64,
)
    ensures
        ({
            let r = entries_step(
                RosterSt { dialed: old(dialed)@, edits: edits_v(old(edits)@), commands: commands_v(old(commands)@) },
                lobby.0@,
                names(presence@),
                names(all_members@),
                own,
                now,
                state_v(state@),
            );
            &&& final(dialed)@ == r.dialed
            &&& edits_v(final(edits)@) == r.edits
            &&& commands_v(final(commands)@) == r.commands
        }),
{
    let ghost sv = state_v(state@);
    let ghost init = RosterSt { dialed: dialed@, edits: edits_v(edits@), commands: commands_v(commands@) };
    let mut k: usize = 0;
    while k < state.len()
        invariant
            k <= state@.len(),
            sv == state_v(state@),
            entries_step(init, lobby.0@, names(presence@), names(all_members@), own, now, sv.take(k as int)) == (RosterSt {
                dialed: dialed@,
                edits: edits_v(edits@),
                commands: commands_v(commands@),
            }),
        decreases state@.len() - k,
    {
        proof {
            assert(sv.take(k + 1).drop_last() =~= sv.take(k as int));
            assert(sv.take(k + 1).last() == (state@[k as int].0, state@[k as int].1@));
        }
        let (id, entry) = (state[k].0, &state[k].1);
        match absorb_entry(dialed, own, now, id, entry) {
            Some((peer_id, addrs)) => {
                if !contains_name(presence, &peer_id) || contains_name(all_members, &peer_id) {
                    let key = roster_key(&peer_id);
                    let edit = RosterEdit::Add { room: lobby.0.clone(), key, peer: peer_id.clone() };
                    proof {
                        lemma_edits_push(edits@, edit);
                    }
                    edits.push(edit);
                }
                let c = Command::Dial { peer_id, addrs };
                proof {
                    lemma_commands_push(commands@, c);
                }
                commands.push(c);
            },
            None => {},
        }
        k = k + 1;
    }
    proof {
        lemma_take_all(sv);
    }
}

/// The views of the decoded states of a frame.
pub open spec fn states_v(s: Seq<Vec<(u64, PeerEntry)>>) -> Seq<Seq<(u64, PeerEntryV)>> {
    s.map_values(|v: Vec<(u64, PeerEntry)>| state_v(v@))
}

/// Absorbs roster gossip of our lobby (see [`roster_all`]): first records
/// the members of all lobbies as present, then dials each gossiped peer
/// once and adds it to the lobby's roster. `states[i]` is the roster state
/// that event `i` decodes to (empty where it does not decode). Returns the
/// events passed on, the roster additions and the dials.
pub fn absorb_roster(
    events: Vec<Event>,
    states: &Vec<Vec<(u64, PeerEntry)>>,
    lobby: &ActiveLobby,
    own: u64,
    all_members: &Vec<String>,
    dialed: &mut Vec<u64>,
    presence: &mut Vec<String>,
    now: u64,
) -> (out: (Vec<Event>, Vec<RosterEdit>, Vec<Command>))
    requires
        states@.len() == events@.len(),
    ensures
        names(final(presence)@) == present_with(names(old(presence)@), names(all_members@)),
        ({
            let r = roster_all(
                RosterSt { dialed: old(dialed)@, edits: Seq::empty(), commands: Seq::empty() },
                lobby.0@,
                names(final(presence)@),
                names(all_members@),
                own,
                now,
                events_v(events@),
                states_v(states@),
                events@.len() as int,
            );
            &&& final(dialed)@ == r.0.dialed
            &&& edits_v(out.1@) == r.0.edits
            &&& commands_v(out.2@) == r.0.commands
            &&& events_v(out.0@) == r.1
        }),
{
    let topic = gossip_roster_topic(lobby);
    refresh_presence(presence, all_members);
    let ghost src = events@;
    let ghost evs = events_v(events@);
    let total = events.len();
    let mut events = events;
    let mut rest: Vec<Event> = Vec::new();
    let mut edits: Vec<RosterEdit> = Vec::new();
    let mut commands: Vec<Command> = Vec::new();
    let ghost init = RosterSt { dialed: dialed@, edits: Seq::empty(), commands: Seq::empty() };
    let mut i: usize = 0;
    proof {
        assert(events_v(rest@) =~= Seq::<EventV>::empty());
        assert(edits_v(edits@) =~= Seq::<RosterEditV>::empty());
        assert(commands_v(commands@) =~= Seq::<CommandV>::empty());
    }
    while events.len() > 0
        invariant
            i <= src.len(),
            src.len() == total,
            events@ == src.skip(i as int),
            evs == events_v(src),
            states@.len() == src.len(),
            topic@ == roster_topic_of(lobby.0@),
            init == (RosterSt { dialed: old(dialed)@, edits: Seq::empty(), commands: Seq::empty() }),
            roster_all(init, lobby.0@, names(presence@), names(all_members@), own, now, evs, states_v(states@), i as int) == (
                RosterSt { dialed: dialed@, edits: edits_v(edits@), commands: commands_v(commands@) },
                events_v(rest@),
            ),
        decreases events.len(),
    {
        let e = events.remove(0);
        proof {
            assert(e == src[i as int]);
            assert(evs[i as int] == e@);
            assert(src.skip(i + 1) =~= src.skip(i as int).drop_first());
            assert(states_v(states@)[i as int] == state_v(states@[i as int]@));
        }
        let roster_gossip = match &e {
            Event::Gossip { topic: t, .. } => *t == topic,
            _ => false,
        };
        if roster_gossip {
            absorb_state(&states[i], dialed, &mut edits, &mut commands, lobby, presence, all_members, own, now);
        } else {
            proof {
                lemma_views_push(rest@, e);
            }
            rest.push(e);
        }
        i = i + 1;
    }
    (rest, edits, commands)
}

} // verus!
