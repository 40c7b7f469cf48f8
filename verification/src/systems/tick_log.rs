use vstd::prelude::*;
use vstd::string::StringExecFns;

use crate::model::{GlobalCounter, Slot};
use crate::seqs::{last_index, lemma_last_index_bounds, lemma_last_index_step};
use crate::text::{i32_to_string, int_text, join_ids, joined};
use crate::wire::lemma_take_all;

verus! {

/// Whether the values of `v` strictly increase.
pub open spec fn strictly_sorted(v: Seq<u64>) -> bool {
    forall|i: int, j: int| 0 <= i < j < v.len() ==> v[i] < v[j]
}

/// Adds `x` to the strictly increasing `v`, keeping it so.
pub fn insert_sorted(v: &mut Vec<u64>, x: u64)
    requires
        strictly_sorted(old(v)@),
    ensures
        strictly_sorted(final(v)@),
        forall|y: u64| final(v)@.contains(y) <==> (old(v)@.contains(y) || y == x),
{
    let mut i: usize = 0;
    while i < v.len() && v[i] < x
        invariant
            i <= v@.len(),
            v@ == old(v)@,
            forall|j: int| 0 <= j < i ==> v@[j] < x,
        decreases v@.len() - i,
    {
        i = i + 1;
    }
    let present = i < v.len() && v[i] == x;
    let ghost before = v@;
    if present {
        proof {
            assert(v@[i as int] == x);
            assert forall|y: u64| v@.contains(y) <==> (before.contains(y) || y == x) by {
                if y == x {
                    assert(v@[i as int] == y);
                }
            }
        }
    } else {
        v.insert(i, x);
        proof {
            assert(v@ =~= before.insert(i as int, x));
            assert forall|a: int, b: int| 0 <= a < b < v@.len() implies v@[a] < v@[b] by {
                if b < i {
                } else if b == i {
                } else if a < i {
                    if i < before.len() {
                        assert(before[i as int] > x);
                        assert(before[i as int] <= before[b - 1]);
                    }
                } else if a == i {
                    assert(before[i as int] > x);
                    assert(before[i as int] <= before[b - 1]);
                } else {
                }
            }
            assert forall|y: u64| v@.contains(y) <==> (before.contains(y) || y == x) by {
                if v@.contains(y) {
                    let k = choose|k: int| 0 <= k < v@.len() && v@[k] == y;
                    if k < i {
                        assert(before[k] == y);
                    } else if k > i {
                        assert(before[k - 1] == y);
                    }
                }
                if before.contains(y) {
                    let k = choose|k: int| 0 <= k < before.len() && before[k] == y;
                    if k < i {
                        assert(v@[k] == y);
                    } else {
                        assert(v@[k + 1] == y);
                    }
                }
                if y == x {
                    assert(v@[i as int] == x);
                }
            }
        }
    }
    assert(before == old(v)@);
    assert(forall|y: u64| v@.contains(y) <==> (before.contains(y) || y == x));
    assert(forall|y: u64| v@.contains(y) <==> (old(v)@.contains(y) || y == x));
}

/// Whether a cursor carries the player number `n`.
pub open spec fn labeled_as(n: u64) -> spec_fn(Slot) -> bool {
    |s: Slot| s.player == Some(n)
}

/// The clicks of player `n`: those of the last cursor that carries the
/// number, or 0.
pub open spec fn player_score(slots: Seq<Slot>, n: u64) -> i32 {
    let k = last_index(slots, labeled_as(n));
    if k >= 0 {
        slots[k].count
    } else {
        0
    }
}

/// Whether some cursor carries the player number `n`.
pub open spec fn is_player(slots: Seq<Slot>, n: u64) -> bool {
    exists|k: int| 0 <= k < slots.len() && #[trigger] slots[k].player == Some(n)
}

/// The summary a log line is keyed by: the scores of players 1 to 3, the
/// global count and the player numbers, separated by slashes.
pub open spec fn score_key(p1: i32, p2: i32, p3: i32, global: i32, players: Seq<u64>) -> Seq<char> {
    int_text(p1 as int) + seq!['/'] + int_text(p2 as int) + seq!['/'] + int_text(p3 as int) + seq!['/']
        + int_text(global as int) + seq!['/'] + joined(players)
}

/// What the score log remembers between frames: when it last wrote its
/// heartbeat (milliseconds) and the summary it last wrote.
#[derive(Debug, Clone, PartialEq, Eq)]
pub struct TickLog {
    pub last_ms: u64,
    pub prev: String,
}

/// What to log this frame: whether the heartbeat lines of every cursor are
/// due, whether the score summary is, and the summary's values.
#[derive(Debug, Clone, PartialEq, Eq)]
pub struct TickReport {
    pub heartbeat: bool,
    pub sync: bool,
    pub p1: i32,
    pub p2: i32,
    pub p3: i32,
    pub players: Vec<u64>,
}

/// Decides what the score log writes: the heartbeat once a second has
/// passed, and the summary on the heartbeat or when it changed. The
/// summary holds the scores of players 1 to 3 (see [`player_score`]), the
/// global count and the player numbers in increasing order.
pub fn tick_log(log: &mut TickLog, slots: &Vec<Slot>, global: &GlobalCounter, now_ms: u64) -> (r: TickReport)
    ensures
        r.p1 == player_score(slots@, 1),
        r.p2 == player_score(slots@, 2),
        r.p3 == player_score(slots@, 3),
        strictly_sorted(r.players@),
        forall|n: u64| r.players@.contains(n) <==> is_player(slots@, n),
        r.heartbeat == (now_ms - old(log).last_ms >= 1000),
        final(log).last_ms == (if r.heartbeat { now_ms } else { old(log).last_ms }),
        ({
            let key = score_key(r.p1, r.p2, r.p3, global.0, r.players@);
            &&& r.sync == (r.heartbeat || old(log).prev@ != key)
            &&& final(log).prev@ == (if r.sync { key } else { old(log).prev@ })
        }),
{
    let mut p1: i32 = 0;
    let mut p2: i32 = 0;
    let mut p3: i32 = 0;
    let mut players: Vec<u64> = Vec::new();
    let mut i: usize = 0;
    while i < slots.len()
        invariant
            i <= slots@.len(),
            p1 == player_score(slots@.take(i as int), 1),
            p2 == player_score(slots@.take(i as int), 2),
            p3 == player_score(slots@.take(i as int), 3),
            strictly_sorted(players@),
            forall|n: u64| players@.contains(n) <==> is_player(slots@.take(i as int), n),
        decreases slots@.len() - i,
    {
        let s = slots[i];
        proof {
            lemma_last_index_step(slots@, i as int, labeled_as(1));
            lemma_last_index_step(slots@, i as int, labeled_as(2));
            lemma_last_index_step(slots@, i as int, labeled_as(3));
            lemma_last_index_bounds(slots@.take(i as int), labeled_as(1));
            lemma_last_index_bounds(slots@.take(i as int), labeled_as(2));
            lemma_last_index_bounds(slots@.take(i as int), labeled_as(3));
        }
        let ghost before = players@;
        if let Some(n) = s.player {
            insert_sorted(&mut players, n);
            if n == 1 {
                p1 = s.count;
            } else if n == 2 {
                p2 = s.count;
            } else if n == 3 {
                p3 = s.count;
            }
        }
        proof {
            let t = slots@.take(i as int);
            let t1 = slots@.take(i + 1);
            assert forall|j: int| 0 <= j < i implies t1[j] == t[j] by {}
            assert forall|m: u64| players@.contains(m) <==> is_player(t1, m) by {
                if is_player(t, m) {
                    let k = choose|k: int| 0 <= k < t.len() && #[trigger] t[k].player == Some(m);
                    assert(t1[k].player == Some(m));
                }
                if is_player(t1, m) {
                    let k = choose|k: int| 0 <= k < t1.len() && #[trigger] t1[k].player == Some(m);
                    if k < i {
                        assert(t[k].player == Some(m));
                    }
                }
                if s.player == Some(m) {
                    assert(t1[i as int].player == Some(m));
                }
            }
            lemma_last_index_bounds(t1, labeled_as(1));
            lemma_last_index_bounds(t1, labeled_as(2));
            lemma_last_index_bounds(t1, labeled_as(3));
        }
        i = i + 1;
    }
    proof {
        lemma_take_all(slots@);
    }
    let heartbeat = now_ms >= log.last_ms && now_ms - log.last_ms >= 1000;
    if heartbeat {
        log.last_ms = now_ms;
    }
    let mut key = i32_to_string(p1);
    key.append("/");
    let t2 = i32_to_string(p2);
    key.append(t2.as_str());
    key.append("/");
    let t3 = i32_to_string(p3);
    key.append(t3.as_str());
    key.append("/");
    let tg = i32_to_string(global.0);
    key.append(tg.as_str());
    key.append("/");
    let tp = join_ids(&players);
    key.append(tp.as_str());
    proof {
        reveal_strlit("/");
        assert(key@ =~= score_key(p1, p2, p3, global.0, players@));
    }
    let changed = log.prev != key;
    let sync = heartbeat || changed;
    if sync {
        log.prev = key;
    }
    TickReport { heartbeat, sync, p1, p2, p3, players }
}

} // verus!
