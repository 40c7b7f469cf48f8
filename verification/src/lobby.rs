use vstd::prelude::*;

use crate::wire::{lemma_filter_step, lemma_take_all};

verus! {

/// Milliseconds between a join commit and the joiner's reveal.
pub const JOIN_REVEAL_MS: u64 = 3000;

/// Seconds after which a join that never resolved its identity fails.
pub const PENDING_JOIN_FAIL_SECS: u64 = 30;

/// Seconds after the join click at which the joiner commits even though
/// some expected peer never acknowledged its sync.
pub const JOIN_COMMIT_CAP_SECS: u64 = 10;

/// A peer whose sync acknowledgement arrived during the join handshake.
#[derive(Debug, PartialEq, Eq)]
pub struct SyncedPeer(pub String);

impl SyncedPeer {
    pub fn as_str(&self) -> (r: &str)
        ensures
            r@ == self.0@,
    {
        self.0.as_str()
    }
}

/// A joiner whose cursor stays hidden until `reveal_at`; a joiner with no
/// known identity by `fail_at` is given up. Times are milliseconds of a
/// monotonic clock.
#[derive(Debug, PartialEq, Eq)]
pub struct PendingJoin {
    pub peer: String,
    pub joiner: u64,
    pub reveal_at: u64,
    pub fail_at: u64,
}

/// State of the join handshake: the peers expected to acknowledge our sync
/// (unknown until a welcome arrives), those that did, whether we committed,
/// the joins waiting for their reveal, and the peers given up on.
#[derive(Debug, PartialEq, Eq)]
pub struct JoinGate {
    pub expected: Option<Vec<String>>,
    pub synced: Vec<SyncedPeer>,
    pub committed: bool,
    pub pending: Vec<PendingJoin>,
    pub absent: Vec<String>,
}

/// Whether the join for `peer` (by name) is not `name`.
pub open spec fn other_peer(name: Seq<char>) -> spec_fn(PendingJoin) -> bool {
    |p: PendingJoin| p.peer@ != name
}

/// The pending joins after arming `entry`: any earlier entry for the same
/// peer gives way to it, and it goes last.
pub open spec fn armed(pending: Seq<PendingJoin>, entry: PendingJoin) -> Seq<PendingJoin> {
    pending.filter(other_peer(entry.peer@)).push(entry)
}

/// Whether a join is due by `now`.
pub open spec fn due_by(now: u64) -> spec_fn(PendingJoin) -> bool {
    |p: PendingJoin| p.reveal_at <= now
}

/// Whether a join is still waiting at `now`.
pub open spec fn waiting_at(now: u64) -> spec_fn(PendingJoin) -> bool {
    |p: PendingJoin| p.reveal_at > now
}

/// Whether some pending join is for `joiner`.
pub open spec fn pending_for(pending: Seq<PendingJoin>, joiner: u64) -> bool {
    exists|i: int| 0 <= i < pending.len() && pending[i].joiner == joiner
}

impl Default for JoinGate {
    fn default() -> (r: JoinGate)
        ensures
            r.expected is None,
            r.synced@.len() == 0,
            !r.committed,
            r.pending@.len() == 0,
            r.absent@.len() == 0,
    {
        JoinGate {
            expected: None,
            synced: Vec::new(),
            committed: false,
            pending: Vec::new(),
            absent: Vec::new(),
        }
    }
}

impl JoinGate {
    /// Arms a pending join; an earlier one for the same peer is replaced.
    pub fn arm_pending(&mut self, entry: PendingJoin)
        ensures
            final(self).pending@ == armed(old(self).pending@, entry),
            final(self).expected == old(self).expected,
            final(self).synced == old(self).synced,
            final(self).committed == old(self).committed,
            final(self).absent == old(self).absent,
    {
        let ghost src = self.pending@;
        let ghost pred = other_peer(entry.peer@);
        let mut rest: Vec<PendingJoin> = Vec::new();
        std::mem::swap(&mut rest, &mut self.pending);
        let mut kept: Vec<PendingJoin> = Vec::new();
        let ghost mut i: int = 0;
        while rest.len() > 0
            invariant
                0 <= i <= src.len(),
                rest@ == src.skip(i),
                kept@ == src.take(i).filter(pred),
                pred == other_peer(entry.peer@),
            decreases rest.len(),
        {
            let e = rest.remove(0);
            proof {
                assert(e == src[i]);
                lemma_filter_step(src, i, pred);
                assert(src.skip(i + 1) =~= src.skip(i).drop_first());
            }
            let same = e.peer == entry.peer;
            if !same {
                kept.push(e);
            }
            proof {
                i = i + 1;
            }
        }
        proof {
            assert(src.skip(i).len() == 0);
            lemma_take_all(src);
        }
        kept.push(entry);
        self.pending = kept;
    }

    /// Whether a join for `joiner` is pending.
    pub fn has_pending(&self, joiner: u64) -> (r: bool)
        ensures
            r == pending_for(self.pending@, joiner),
    {
        let mut i: usize = 0;
        while i < self.pending.len()
            invariant
                i <= self.pending@.len(),
                forall|j: int| 0 <= j < i ==> self.pending@[j].joiner != joiner,
            decreases self.pending@.len() - i,
        {
            if self.pending[i].joiner == joiner {
                return true;
            }
            i = i + 1;
        }
        false
    }

    /// Removes and returns the joins due by `now`, in arming order; the
    /// others stay in order.
    pub fn take_due_pending(&mut self, now: u64) -> (due: Vec<PendingJoin>)
        ensures
            due@ == old(self).pending@.filter(due_by(now)),
            final(self).pending@ == old(self).pending@.filter(waiting_at(now)),
            final(self).expected == old(self).expected,
            final(self).synced == old(self).synced,
            final(self).committed == old(self).committed,
            final(self).absent == old(self).absent,
    {
        let ghost src = self.pending@;
        let mut rest: Vec<PendingJoin> = Vec::new();
        std::mem::swap(&mut rest, &mut self.pending);
        let mut kept: Vec<PendingJoin> = Vec::new();
        let mut due: Vec<PendingJoin> = Vec::new();
        let ghost mut i: int = 0;
        while rest.len() > 0
            invariant
                0 <= i <= src.len(),
                rest@ == src.skip(i),
                kept@ == src.take(i).filter(waiting_at(now)),
                due@ == src.take(i).filter(due_by(now)),
            decreases rest.len(),
        {
            let e = rest.remove(0);
            proof {
                assert(e == src[i]);
                lemma_filter_step(src, i, waiting_at(now));
                lemma_filter_step(src, i, due_by(now));
                assert(src.skip(i + 1) =~= src.skip(i).drop_first());
            }
            if e.reveal_at <= now {
                due.push(e);
            } else {
                kept.push(e);
            }
            proof {
                i = i + 1;
            }
        }
        proof {
            lemma_take_all(src);
        }
        self.pending = kept;
        due
    }
}

/// The room whose join is still loading, if any.
#[derive(Debug, PartialEq, Eq)]
pub struct JoinPending(pub Option<String>);

impl Default for JoinPending {
    fn default() -> (r: JoinPending)
        ensures
            r.0 is None,
    {
        JoinPending(None)
    }
}

impl JoinPending {
    pub fn is_none(&self) -> (r: bool)
        ensures
            r == self.0 is None,
    {
        self.0.is_none()
    }
}

/// When the join was clicked and when the last new peer became known, in
/// milliseconds of a monotonic clock.
#[derive(Debug, Clone, Copy, PartialEq, Eq)]
pub struct JoinClock {
    pub clicked_at: Option<u64>,
    pub last_new_peer: Option<u64>,
}

impl Default for JoinClock {
    fn default() -> (r: JoinClock)
        ensures
            r.clicked_at is None,
            r.last_new_peer is None,
    {
        JoinClock { clicked_at: None, last_new_peer: None }
    }
}

} // verus!
