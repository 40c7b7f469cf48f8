use vstd::prelude::*;

use crate::idset::names;
use crate::model::ActiveLobby;
use crate::seqs::{first_index, lemma_first_index_bounds, lemma_first_index_found, lemma_first_index_miss, lemma_first_index_none};
use crate::wire::{commands_v, lemma_commands_push, Command, CommandV, CursorMsg, MsgV};

verus! {

/// How often the members of a room are asked for their scores while the
/// membership stays the same.
pub const SYNC_INTERVAL_SECS: u64 = 5;

/// What the heartbeat remembers between ticks: when it last asked (in
/// milliseconds), and the member count it last saw in each room.
#[derive(Debug, Clone, PartialEq, Eq)]
pub struct Heartbeat {
    pub last_ms: u64,
    pub counts: Vec<(String, usize)>,
}

impl Default for Heartbeat {
    fn default() -> (r: Heartbeat)
        ensures
            r.last_ms == 0,
            r.counts@.len() == 0,
    {
        Heartbeat { last_ms: 0, counts: Vec::new() }
    }
}

/// The remembered counts over plain values.
pub open spec fn counts_v(c: Seq<(String, usize)>) -> Seq<(Seq<char>, nat)> {
    c.map_values(|e: (String, usize)| (e.0@, e.1 as nat))
}

/// Whether a remembered count is the one of `room`.
pub open spec fn count_for(room: Seq<char>) -> spec_fn((Seq<char>, nat)) -> bool {
    |e: (Seq<char>, nat)| e.0 == room
}

/// The count remembered for `room`, if any.
pub open spec fn count_of(c: Seq<(Seq<char>, nat)>, room: Seq<char>) -> Option<nat> {
    let k = first_index(c, count_for(room));
    if k >= 0 {
        Some(c[k].1)
    } else {
        None
    }
}

/// `c` with `n` remembered for `room`.
pub open spec fn count_set(c: Seq<(Seq<char>, nat)>, room: Seq<char>, n: nat) -> Seq<(Seq<char>, nat)> {
    let k = first_index(c, count_for(room));
    if k >= 0 {
        c.update(k, (room, n))
    } else {
        c.push((room, n))
    }
}

/// Whether the heartbeat asks now: the room's member count changed since
/// it last asked, or a whole interval has passed.
pub open spec fn heartbeat_due(last_ms: u64, counts: Seq<(Seq<char>, nat)>, room: Seq<char>, n: nat, now_ms: u64) -> bool {
    count_of(counts, room) != Some(n) || now_ms - last_ms >= SYNC_INTERVAL_SECS * 1000
}

/// The sync requests to each member, in order.
pub open spec fn requests_to(members: Seq<Seq<char>>, own: u64) -> Seq<CommandV> {
    members.map_values(|m: Seq<char>| CommandV::Send { peer_id: m, payload: MsgV::SyncReq { requester: own } })
}

/// The position of the count remembered for `room`, if any.
fn find_count(counts: &Vec<(String, usize)>, room: &String) -> (r: Option<usize>)
    ensures
        r matches Some(i) ==> i == first_index(counts_v(counts@), count_for(room@)),
        r is None ==> first_index(counts_v(counts@), count_for(room@)) == -1,
{
    let ghost c = counts_v(counts@);
    proof {
        lemma_first_index_bounds(c, count_for(room@));
    }
    let mut i: usize = 0;
    while i < counts.len()
        invariant
            i <= counts@.len(),
            c == counts_v(counts@),
            first_index(c.take(i as int), count_for(room@)) == -1,
        decreases counts@.len() - i,
    {
        if counts[i].0 == *room {
            proof {
                lemma_first_index_found(c, i as int, count_for(room@));
            }
            return Some(i);
        }
        proof {
            lemma_first_index_miss(c, i as int, count_for(room@));
        }
        i = i + 1;
    }
    proof {
        lemma_first_index_none(c, count_for(room@));
    }
    None
}

/// Asks the members of our lobby for their scores when their number
/// changed or an interval has passed (see [`heartbeat_due`]). `members` is
/// the lobby's roster, absent when the roster does not know the lobby; then
/// nothing happens. Returns the requests.
pub fn send_sync_heartbeat(
    hb: &mut Heartbeat,
    members: &Option<Vec<String>>,
    lobby: &ActiveLobby,
    own: u64,
    now_ms: u64,
) -> (r: Vec<Command>)
    ensures
        ({
            match members {
                None => {
                    &&& *final(hb) == *old(hb)
                    &&& r@.len() == 0
                },
                Some(m) => if heartbeat_due(old(hb).last_ms, counts_v(old(hb).counts@), lobby.0@, m@.len(), now_ms) {
                    &&& final(hb).last_ms == now_ms
                    &&& counts_v(final(hb).counts@) == count_set(counts_v(old(hb).counts@), lobby.0@, m@.len())
                    &&& commands_v(r@) == requests_to(names(m@), own)
                } else {
                    &&& *final(hb) == *old(hb)
                    &&& r@.len() == 0
                },
            }
        }),
{
    let mut r: Vec<Command> = Vec::new();
    let m = match members {
        Some(m) => m,
        None => {
            return r;
        },
    };
    let ghost c = counts_v(hb.counts@);
    proof {
        lemma_first_index_bounds(c, count_for(lobby.0@));
    }
    let k = find_count(&hb.counts, &lobby.0);
    let changed = match k {
        Some(i) => hb.counts[i].1 != m.len(),
        None => true,
    };
    let elapsed_enough = now_ms >= hb.last_ms && now_ms - hb.last_ms >= SYNC_INTERVAL_SECS * 1000;
    if !changed && !elapsed_enough {
        return r;
    }
    hb.last_ms = now_ms;
    match k {
        Some(i) => {
            hb.counts.set(i, (lobby.0.clone(), m.len()));
            proof {
                assert(counts_v(hb.counts@) =~= c.update(i as int, (lobby.0@, m@.len())));
            }
        },
        None => {
            hb.counts.push((lobby.0.clone(), m.len()));
            proof {
                assert(counts_v(hb.counts@) =~= c.push((lobby.0@, m@.len())));
            }
        },
    }
    let mut j: usize = 0;
    while j < m.len()
        invariant
            j <= m@.len(),
            commands_v(r@) == requests_to(names(m@), own).take(j as int),
        decreases m@.len() - j,
    {
        let cmd = Command::Send { peer_id: m[j].clone(), payload: CursorMsg::SyncReq { requester: own } };
        proof {
            lemma_commands_push(r@, cmd);
            assert(requests_to(names(m@), own).take(j + 1) =~= requests_to(names(m@), own).take(j as int).push(cmd@));
        }
        r.push(cmd);
        j = j + 1;
    }
    proof {
        assert(requests_to(names(m@), own).take(m@.len() as int) =~= requests_to(names(m@), own));
    }
    r
}

} // verus!
