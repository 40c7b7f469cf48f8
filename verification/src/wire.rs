use vstd::prelude::*;

use crate::idset::names;
use crate::model::Peer;

verus! {

/// A game message between peers. Positions travel as the bit patterns of
/// two `f32` coordinates; the logic copies them and never reads them.
#[derive(Debug, PartialEq, Eq)]
pub enum CursorMsg {
    Move { owner: u64, x_bits: u32, y_bits: u32 },
    Click { owner: u64, delta: i32 },
    SyncReq { requester: u64 },
    SyncAck { target: u64, entries: Vec<(u64, i32)> },
    PexAsk(Vec<u8>),
    PexResp(Vec<u8>),
    WantJoin { room: String },
    Welcome { room: String, peers: Vec<String>, own_score: (u64, i32), joining: Vec<String> },
    JoinCommit { room: String, joiner: u64, starts_in_ms: u64 },
}

impl Clone for CursorMsg {
    fn clone(&self) -> (r: CursorMsg) {
        match self {
            CursorMsg::Move { owner, x_bits, y_bits } => CursorMsg::Move {
                owner: *owner,
                x_bits: *x_bits,
                y_bits: *y_bits,
            },
            CursorMsg::Click { owner, delta } => CursorMsg::Click { owner: *owner, delta: *delta },
            CursorMsg::SyncReq { requester } => CursorMsg::SyncReq { requester: *requester },
            CursorMsg::SyncAck { target, entries } => CursorMsg::SyncAck {
                target: *target,
                entries: entries.clone(),
            },
            CursorMsg::PexAsk(raw) => CursorMsg::PexAsk(raw.clone()),
            CursorMsg::PexResp(raw) => CursorMsg::PexResp(raw.clone()),
            CursorMsg::WantJoin { room } => CursorMsg::WantJoin { room: room.clone() },
            CursorMsg::Welcome { room, peers, own_score, joining } => CursorMsg::Welcome {
                room: room.clone(),
                peers: peers.clone(),
                own_score: *own_score,
                joining: joining.clone(),
            },
            CursorMsg::JoinCommit { room, joiner, starts_in_ms } => CursorMsg::JoinCommit {
                room: room.clone(),
                joiner: *joiner,
                starts_in_ms: *starts_in_ms,
            },
        }
    }
}

/// The history chunk that holds a room's score snapshot.
pub const SNAPSHOT_CHUNK: u32 = 0;

/// Scores of a room, as stored in the room's history.
#[derive(Debug, Clone, PartialEq, Eq)]
pub struct Snapshot {
    pub entries: Vec<(u64, i32)>,
    pub global: i32,
}

/// What the transport delivered. A gossip payload or a history chunk comes
/// with the message it decodes to, if it decodes.
#[derive(Debug, Clone, PartialEq, Eq)]
pub enum Event {
    Message { from: Peer, payload: CursorMsg },
    Gossip { topic: String, from: Peer, data: Vec<u8>, decoded: Option<CursorMsg> },
    PeerConnected(Peer),
    PeerDisconnected(Peer),
    HistoryChunk { lobby: String, chunk: u32, data: Vec<u8>, decoded: Option<Snapshot> },
}

/// What the game asks the transport to do. A published message is encoded
/// by the transport side.
#[derive(Debug, Clone, PartialEq, Eq)]
pub enum Command {
    Send { peer_id: String, payload: CursorMsg },
    Publish { topic: String, payload: CursorMsg },
    Dial { peer_id: String, addrs: Vec<String> },
    Subscribe { topic: String },
    PutHistory { lobby: String, chunk: u32, snapshot: Snapshot },
    FetchHistory { lobby: String, chunk: u32 },
}

/// A change to the room roster: a member entry under its key, added or
/// removed.
#[derive(Debug, Clone, PartialEq, Eq)]
pub enum RosterEdit {
    Add { room: String, key: [u8; 32], peer: String },
    Remove { room: String, key: [u8; 32] },
}

/// A click or score that found no cursor yet; it waits until one appears.
/// An `absolute` item carries a total score, the others a delta.
#[derive(Debug, Clone, Copy, PartialEq, Eq)]
pub struct PendingClick {
    pub sender: u64,
    pub owner: u64,
    pub delta: i32,
    pub absolute: bool,
}

/// The parked clicks and scores.
#[derive(Debug, Clone, PartialEq, Eq)]
pub struct PendingClicks {
    pub items: Vec<PendingClick>,
    pub parked: u64,
}

impl Default for PendingClicks {
    fn default() -> (r: PendingClicks)
        ensures
            r.items@ == Seq::<PendingClick>::empty(),
            r.parked == 0,
    {
        PendingClicks { items: Vec::new(), parked: 0 }
    }
}

/// A peer as the logic reads it.
pub struct PeerV {
    pub name: Seq<char>,
    pub id: u64,
}

impl View for Peer {
    type V = PeerV;

    open spec fn view(&self) -> PeerV {
        PeerV { name: self.name@, id: self.id }
    }
}

/// A game message as the logic reads it.
pub enum MsgV {
    Move { owner: u64, x_bits: u32, y_bits: u32 },
    Click { owner: u64, delta: i32 },
    SyncReq { requester: u64 },
    SyncAck { target: u64, entries: Seq<(u64, i32)> },
    PexAsk(Seq<u8>),
    PexResp(Seq<u8>),
    WantJoin { room: Seq<char> },
    Welcome {
        room: Seq<char>,
        peers: Seq<Seq<char>>,
        own_score: (u64, i32),
        joining: Seq<Seq<char>>,
    },
    JoinCommit { room: Seq<char>, joiner: u64, starts_in_ms: u64 },
}

impl View for CursorMsg {
    type V = MsgV;

    open spec fn view(&self) -> MsgV {
        match self {
            CursorMsg::Move { owner, x_bits, y_bits } => MsgV::Move {
                owner: *owner,
                x_bits: *x_bits,
                y_bits: *y_bits,
            },
            CursorMsg::Click { owner, delta } => MsgV::Click { owner: *owner, delta: *delta },
            CursorMsg::SyncReq { requester } => MsgV::SyncReq { requester: *requester },
            CursorMsg::SyncAck { target, entries } => MsgV::SyncAck {
                target: *target,
                entries: entries@,
            },
            CursorMsg::PexAsk(raw) => MsgV::PexAsk(raw@),
            CursorMsg::PexResp(raw) => MsgV::PexResp(raw@),
            CursorMsg::WantJoin { room } => MsgV::WantJoin { room: room@ },
            CursorMsg::Welcome { room, peers, own_score, joining } => MsgV::Welcome {
                room: room@,
                peers: names(peers@),
                own_score: *own_score,
                joining: names(joining@),
            },
            CursorMsg::JoinCommit { room, joiner, starts_in_ms } => MsgV::JoinCommit {
                room: room@,
                joiner: *joiner,
                starts_in_ms: *starts_in_ms,
            },
        }
    }
}

/// Scores of a room as the logic reads them.
pub struct SnapshotV {
    pub entries: Seq<(u64, i32)>,
    pub global: i32,
}

impl View for Snapshot {
    type V = SnapshotV;

    open spec fn view(&self) -> SnapshotV {
        SnapshotV { entries: self.entries@, global: self.global }
    }
}

/// The view of an optional message.
pub open spec fn opt_msg(m: Option<CursorMsg>) -> Option<MsgV> {
    match m {
        Some(x) => Some(x@),
        None => None,
    }
}

/// The view of an optional snapshot.
pub open spec fn opt_snapshot(m: Option<Snapshot>) -> Option<SnapshotV> {
    match m {
        Some(x) => Some(x@),
        None => None,
    }
}

/// A delivered event as the logic reads it.
pub enum EventV {
    Message { from: PeerV, payload: MsgV },
    Gossip { topic: Seq<char>, from: PeerV, data: Seq<u8>, decoded: Option<MsgV> },
    PeerConnected(PeerV),
    PeerDisconnected(PeerV),
    HistoryChunk { lobby: Seq<char>, chunk: u32, data: Seq<u8>, decoded: Option<SnapshotV> },
}

impl View for Event {
    type V = EventV;

    open spec fn view(&self) -> EventV {
        match self {
            Event::Message { from, payload } => EventV::Message { from: from@, payload: payload@ },
            Event::Gossip { topic, from, data, decoded } => EventV::Gossip {
                topic: topic@,
                from: from@,
                data: data@,
                decoded: opt_msg(*decoded),
            },
            Event::PeerConnected(p) => EventV::PeerConnected(p@),
            Event::PeerDisconnected(p) => EventV::PeerDisconnected(p@),
            Event::HistoryChunk { lobby, chunk, data, decoded } => EventV::HistoryChunk {
                lobby: lobby@,
                chunk: *chunk,
                data: data@,
                decoded: opt_snapshot(*decoded),
            },
        }
    }
}

/// A transport command as the logic reads it.
pub enum CommandV {
    Send { peer_id: Seq<char>, payload: MsgV },
    Publish { topic: Seq<char>, payload: MsgV },
    Dial { peer_id: Seq<char>, addrs: Seq<Seq<char>> },
    Subscribe { topic: Seq<char> },
    PutHistory { lobby: Seq<char>, chunk: u32, snapshot: SnapshotV },
    FetchHistory { lobby: Seq<char>, chunk: u32 },
}

impl View for Command {
    type V = CommandV;

    open spec fn view(&self) -> CommandV {
        match self {
            Command::Send { peer_id, payload } => CommandV::Send {
                peer_id: peer_id@,
                payload: payload@,
            },
            Command::Publish { topic, payload } => CommandV::Publish {
                topic: topic@,
                payload: payload@,
            },
            Command::Dial { peer_id, addrs } => CommandV::Dial {
                peer_id: peer_id@,
                addrs: names(addrs@),
            },
            Command::Subscribe { topic } => CommandV::Subscribe { topic: topic@ },
            Command::PutHistory { lobby, chunk, snapshot } => CommandV::PutHistory {
                lobby: lobby@,
                chunk: *chunk,
                snapshot: snapshot@,
            },
            Command::FetchHistory { lobby, chunk } => CommandV::FetchHistory {
                lobby: lobby@,
                chunk: *chunk,
            },
        }
    }
}

/// A roster change as the logic reads it.
pub enum RosterEditV {
    Add { room: Seq<char>, key: Seq<u8>, peer: Seq<char> },
    Remove { room: Seq<char>, key: Seq<u8> },
}

impl View for RosterEdit {
    type V = RosterEditV;

    open spec fn view(&self) -> RosterEditV {
        match self {
            RosterEdit::Add { room, key, peer } => RosterEditV::Add {
                room: room@,
                key: key@,
                peer: peer@,
            },
            RosterEdit::Remove { room, key } => RosterEditV::Remove { room: room@, key: key@ },
        }
    }
}

/// The views of a sequence of events.
pub open spec fn events_v(s: Seq<Event>) -> Seq<EventV> {
    s.map_values(|e: Event| e@)
}

/// The views of a sequence of commands.
pub open spec fn commands_v(s: Seq<Command>) -> Seq<CommandV> {
    s.map_values(|c: Command| c@)
}

/// The views of a sequence of roster edits.
pub open spec fn edits_v(s: Seq<RosterEdit>) -> Seq<RosterEditV> {
    s.map_values(|c: RosterEdit| c@)
}

/// Runs `step` over `events` in order from state `s`, gathering the events
/// passed on downstream and the commands issued.
pub open spec fn run<S>(
    events: Seq<EventV>,
    s: S,
    step: spec_fn(S, EventV) -> (S, Seq<EventV>, Seq<CommandV>),
) -> (S, Seq<EventV>, Seq<CommandV>)
    decreases events.len(),
{
    if events.len() == 0 {
        (s, Seq::empty(), Seq::empty())
    } else {
        let prev = run(events.drop_last(), s, step);
        let next = step(prev.0, events.last());
        (next.0, prev.1 + next.1, prev.2 + next.2)
    }
}

/// One more event extends a run by one step.
pub proof fn lemma_run_step<S>(
    events: Seq<EventV>,
    i: int,
    s: S,
    step: spec_fn(S, EventV) -> (S, Seq<EventV>, Seq<CommandV>),
)
    requires
        0 <= i < events.len(),
    ensures
        ({
            let prev = run(events.take(i), s, step);
            let next = step(prev.0, events[i]);
            run(events.take(i + 1), s, step) == (next.0, prev.1 + next.1, prev.2 + next.2)
        }),
{
    assert(events.take(i + 1).drop_last() =~= events.take(i));
}

/// Views commute with pushing.
pub proof fn lemma_views_push(s: Seq<Event>, e: Event)
    ensures
        events_v(s.push(e)) == events_v(s).push(e@),
{
    assert(events_v(s.push(e)) =~= events_v(s).push(e@));
}

/// Views commute with pushing.
pub proof fn lemma_commands_push(s: Seq<Command>, c: Command)
    ensures
        commands_v(s.push(c)) == commands_v(s).push(c@),
{
    assert(commands_v(s.push(c)) =~= commands_v(s).push(c@));
}

/// Views commute with pushing.
pub proof fn lemma_edits_push(s: Seq<RosterEdit>, c: RosterEdit)
    ensures
        edits_v(s.push(c)) == edits_v(s).push(c@),
{
    assert(edits_v(s.push(c)) =~= edits_v(s).push(c@));
}

/// The views of the events still to come after taking the first one.
pub proof fn lemma_views_skip(s: Seq<Event>, i: int)
    requires
        0 <= i < s.len(),
    ensures
        events_v(s).skip(i + 1) == events_v(s.skip(i).drop_first()),
        events_v(s)[i] == s[i]@,
{
    assert(events_v(s).skip(i + 1) =~= events_v(s.skip(i).drop_first()));
}

/// Filtering one more element of a prefix.
pub proof fn lemma_filter_step<A>(s: Seq<A>, i: int, pred: spec_fn(A) -> bool)
    requires
        0 <= i < s.len(),
    ensures
        s.take(i + 1).filter(pred) == (if pred(s[i]) {
            s.take(i).filter(pred).push(s[i])
        } else {
            s.take(i).filter(pred)
        }),
{
    reveal(Seq::filter);
    assert(s.take(i + 1).drop_last() =~= s.take(i));
}

/// The whole sequence is its longest prefix.
pub proof fn lemma_take_all<A>(s: Seq<A>)
    ensures
        s.take(s.len() as int) == s,
{
    assert(s.take(s.len() as int) =~= s);
}

} // verus!
