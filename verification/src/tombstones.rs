use vstd::prelude::*;

use crate::model::max_int;

verus! {

/// Whether `s` holds an entry for `id`.
pub open spec fn has_key(s: Seq<(u64, i32)>, id: u64) -> bool {
    exists|i: int| 0 <= i < s.len() && s[i].0 == id
}

/// The position of the entry for `id` in `s` (meaningful when there is one).
pub open spec fn key_index(s: Seq<(u64, i32)>, id: u64) -> int {
    choose|i: int| 0 <= i < s.len() && s[i].0 == id
}

/// No id occurs twice in `s`.
pub open spec fn keys_unique(s: Seq<(u64, i32)>) -> bool {
    forall|i: int, j: int| 0 <= i < s.len() && 0 <= j < s.len() && i != j ==> s[i].0 != s[j].0
}

/// The score kept for `id` in `s`, if any.
pub open spec fn score_of(s: Seq<(u64, i32)>, id: u64) -> Option<i32> {
    if has_key(s, id) {
        Some(s[key_index(s, id)].1)
    } else {
        None
    }
}

/// `s` after keeping `count` for `id`: an existing score rises to `count`
/// when that is larger, a new id goes last.
pub open spec fn kept(s: Seq<(u64, i32)>, id: u64, count: i32) -> Seq<(u64, i32)> {
    if has_key(s, id) {
        let i = key_index(s, id);
        s.update(i, (id, max_int(s[i].1 as int, count as int) as i32))
    } else {
        s.push((id, count))
    }
}

/// `s` without the entry for `id`.
pub open spec fn without(s: Seq<(u64, i32)>, id: u64) -> Seq<(u64, i32)> {
    if has_key(s, id) {
        s.remove(key_index(s, id))
    } else {
        s
    }
}

/// With unique keys, the entry for `id` is the one at `j`.
pub proof fn lemma_key_index(s: Seq<(u64, i32)>, id: u64, j: int)
    requires
        keys_unique(s),
        0 <= j < s.len(),
        s[j].0 == id,
    ensures
        has_key(s, id),
        key_index(s, id) == j,
{
    assert(has_key(s, id));
}

/// Keeping preserves unique keys.
pub proof fn lemma_kept_unique(s: Seq<(u64, i32)>, id: u64, count: i32)
    requires
        keys_unique(s),
    ensures
        keys_unique(kept(s, id, count)),
{
}

/// Removing preserves unique keys.
pub proof fn lemma_without_unique(s: Seq<(u64, i32)>, id: u64)
    requires
        keys_unique(s),
    ensures
        keys_unique(without(s, id)),
        !has_key(without(s, id), id),
{
    if has_key(s, id) {
        let k = key_index(s, id);
        let r = s.remove(k);
        assert forall|i: int, j: int| 0 <= i < r.len() && 0 <= j < r.len() && i != j implies r[i].0
            != r[j].0 by {
            let a = if i < k { i } else { i + 1 };
            let b = if j < k { j } else { j + 1 };
            assert(r[i] == s[a] && r[j] == s[b]);
        }
        assert forall|i: int| 0 <= i < r.len() implies r[i].0 != id by {
            let a = if i < k { i } else { i + 1 };
            assert(r[i] == s[a]);
        }
    }
}

/// Scores of players that left the room, by player number, so that a
/// returning player gets its score back and the room total keeps it.
/// Each player number occurs at most once; ids keep the order in which
/// they were first kept.
#[derive(Debug, PartialEq, Eq)]
pub struct ScoreTombstones {
    pub entries: Vec<(u64, i32)>,
}

impl Default for ScoreTombstones {
    fn default() -> (r: ScoreTombstones)
        ensures
            r.entries@ == Seq::<(u64, i32)>::empty(),
    {
        ScoreTombstones { entries: Vec::new() }
    }
}

impl ScoreTombstones {
    /// Each player number occurs at most once.
    pub open spec fn wf(&self) -> bool {
        keys_unique(self.entries@)
    }

    /// Position of `id`, if kept.
    fn find(&self, id: u64) -> (r: Option<usize>)
        requires
            self.wf(),
        ensures
            r is None ==> !has_key(self.entries@, id),
            r matches Some(i) ==> i < self.entries@.len() && self.entries@[i as int].0 == id
                && key_index(self.entries@, id) == i,
    {
        let mut i: usize = 0;
        while i < self.entries.len()
            invariant
                i <= self.entries@.len(),
                self.wf(),
                forall|j: int| 0 <= j < i ==> self.entries@[j].0 != id,
            decreases self.entries@.len() - i,
        {
            if self.entries[i].0 == id {
                proof {
                    lemma_key_index(self.entries@, id, i as int);
                }
                return Some(i);
            }
            i = i + 1;
        }
        None
    }

    /// Keeps `count` for `id`; an existing score never goes down.
    pub fn keep(&mut self, id: u64, count: i32)
        requires
            old(self).wf(),
        ensures
            final(self).wf(),
            final(self).entries@ == kept(old(self).entries@, id, count),
    {
        proof {
            lemma_kept_unique(self.entries@, id, count);
        }
        match self.find(id) {
            Some(i) => {
                let cur = self.entries[i].1;
                let v = if count > cur { count } else { cur };
                self.entries.set(i, (id, v));
            },
            None => {
                self.entries.push((id, count));
            },
        }
    }

    /// Removes and returns the score kept for `id`.
    pub fn restore(&mut self, id: u64) -> (r: Option<i32>)
        requires
            old(self).wf(),
        ensures
            final(self).wf(),
            r == score_of(old(self).entries@, id),
            final(self).entries@ == without(old(self).entries@, id),
    {
        proof {
            lemma_without_unique(self.entries@, id);
        }
        match self.find(id) {
            Some(i) => {
                let e = self.entries.remove(i);
                Some(e.1)
            },
            None => None,
        }
    }

    /// The score kept for `id`, if any.
    pub fn get(&self, id: u64) -> (r: Option<i32>)
        requires
            self.wf(),
        ensures
            r == score_of(self.entries@, id),
    {
        match self.find(id) {
            Some(i) => Some(self.entries[i].1),
            None => None,
        }
    }

    /// Whether nothing is kept.
    pub fn is_empty(&self) -> (r: bool)
        ensures
            r == (self.entries@.len() == 0),
    {
        self.entries.len() == 0
    }

    /// The kept scores, in the order their ids were first kept.
    pub fn iter(&self) -> (r: &Vec<(u64, i32)>)
        ensures
            r@ == self.entries@,
    {
        &self.entries
    }
}

} // verus!
