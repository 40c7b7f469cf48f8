use clicker::lobby::{JoinClock, JoinGate};
use clicker::model::{ActiveLobby, Peer, Slot};
use clicker::systems::absorb_sync::absorb_sync;
use clicker::systems::absorb_welcome::absorb_welcome;
use clicker::systems::sync_ctx::SyncCtx;
use clicker::tombstones::ScoreTombstones;
use clicker::wire::{Command, CursorMsg, Event, PendingClicks, RosterEdit};

fn peer(name: &str, id: u64) -> Peer {
    Peer { name: name.to_string(), id }
}

fn labeled(owner: u64, player: u64, count: i32) -> Slot {
    Slot { owner, player: Some(player), count, reveal: None }
}

fn ctx() -> SyncCtx {
    SyncCtx { gate: JoinGate::default(), tombstones: ScoreTombstones::default(), seen: Vec::new() }
}

fn ack_entries(commands: &[Command]) -> Vec<Vec<(u64, i32)>> {
    commands
        .iter()
        .filter_map(|command| match command {
            Command::Send { payload: CursorMsg::SyncAck { entries, .. }, .. } => Some(entries.clone()),
            _ => None,
        })
        .collect()
}

#[test]
fn absorb_sync_test_usage() {
    let mut slots = vec![labeled(1, 1, 2)];
    let mut pending = PendingClicks::default();
    let mut c = ctx();
    let events = vec![Event::Message { from: peer("peer", 42), payload: CursorMsg::SyncReq { requester: 2 } }];
    let (rest, commands) = absorb_sync(events, &mut slots, &mut pending, 1, &mut c);
    assert!(rest.is_empty());
    assert_eq!(commands.len(), 1);
    assert_eq!(
        commands[0],
        Command::Send { peer_id: "peer".to_string(), payload: CursorMsg::SyncAck { target: 2, entries: vec![(1, 2)] } }
    );
}

#[test]
fn reply_carries_tombstone() {
    let mut slots = vec![labeled(9, 9, 2)];
    let mut pending = PendingClicks::default();
    let mut c = ctx();
    c.tombstones.keep(9, 5);
    let events = vec![Event::Message { from: peer("peer", 42), payload: CursorMsg::SyncReq { requester: 2 } }];
    let (_, commands) = absorb_sync(events, &mut slots, &mut pending, 1, &mut c);
    let entries = ack_entries(&commands);
    assert!(entries.iter().any(|list| list.contains(&(9, 5))), "sync reply carries retained scores, got {entries:?}");
}

#[test]
fn reply_omits_never_seen_tombstone() {
    let mut slots: Vec<Slot> = Vec::new();
    let mut pending = PendingClicks::default();
    let mut c = ctx();
    c.tombstones.keep(9, 5);
    let events = vec![Event::Message { from: peer("peer", 42), payload: CursorMsg::SyncReq { requester: 2 } }];
    let (_, commands) = absorb_sync(events, &mut slots, &mut pending, 1, &mut c);
    let entries = ack_entries(&commands);
    assert!(
        entries.iter().all(|list| list.iter().all(|(id, _)| *id != 9)),
        "retained scores without local provenance never ride the reply, got {entries:?}"
    );
}

#[test]
fn test_ack_merges() {
    let mut slots = vec![labeled(42, 2, 1)];
    let mut pending = PendingClicks::default();
    let mut c = ctx();
    let events = vec![Event::Message { from: peer("peer", 42), payload: CursorMsg::SyncAck { target: 1, entries: vec![(2, 7)] } }];
    absorb_sync(events, &mut slots, &mut pending, 1, &mut c);
    assert_eq!(slots[0].count, 7);
}

#[test]
fn ack_sender_recorded_as_synced() {
    let mut slots: Vec<Slot> = Vec::new();
    let mut pending = PendingClicks::default();
    let mut c = ctx();
    let events = vec![Event::Message { from: peer("peer-2", 20), payload: CursorMsg::SyncAck { target: 1, entries: vec![(2, 7)] } }];
    absorb_sync(events, &mut slots, &mut pending, 1, &mut c);
    assert!(c.gate.synced.iter().any(|entry| entry.as_str() == "peer-2"), "merged ack marks its sender synced");
    assert_eq!(pending.items.len(), 1, "a score without a cursor is parked");
    assert!(pending.items[0].absolute);
}

#[test]
fn ack_never_lowers_a_count() {
    let mut slots = vec![labeled(42, 2, 9)];
    let mut pending = PendingClicks::default();
    let mut c = ctx();
    let events = vec![Event::Message { from: peer("peer", 42), payload: CursorMsg::SyncAck { target: 1, entries: vec![(2, 3)] } }];
    absorb_sync(events, &mut slots, &mut pending, 1, &mut c);
    assert_eq!(slots[0].count, 9);
}

#[test]
fn own_request_and_foreign_ack_are_dropped() {
    let mut slots = vec![labeled(42, 2, 1)];
    let mut pending = PendingClicks::default();
    let mut c = ctx();
    let events = vec![
        Event::Message { from: peer("me", 1), payload: CursorMsg::SyncReq { requester: 1 } },
        Event::Message { from: peer("peer", 42), payload: CursorMsg::SyncAck { target: 5, entries: vec![(2, 7)] } },
    ];
    let (rest, commands) = absorb_sync(events, &mut slots, &mut pending, 1, &mut c);
    assert!(rest.is_empty());
    assert!(commands.is_empty());
    assert_eq!(slots[0].count, 1);
}

fn welcome(room: &str) -> Event {
    Event::Message {
        from: peer("peer-9", 90),
        payload: CursorMsg::Welcome {
            room: room.to_string(),
            peers: vec!["peer-8".to_string()],
            own_score: (9, 5),
            joining: Vec::new(),
        },
    }
}

#[test]
fn absorb_welcome_test_usage() {
    let lobby = ActiveLobby("alpha".to_string());
    let mut gate = JoinGate::default();
    let mut clock = JoinClock { clicked_at: None, last_new_peer: None };
    let (rest, edits) = absorb_welcome(vec![welcome("alpha")], &lobby, &mut gate, &mut clock, &Vec::new(), 1, 500);
    assert!(
        gate.expected.as_ref().is_some_and(|set| set.contains(&"peer-9".to_string()) && set.contains(&"peer-8".to_string())),
        "sender plus advertised peers union into expected"
    );
    let members: Vec<String> = edits
        .iter()
        .filter_map(|edit| match edit {
            RosterEdit::Add { peer, .. } => Some(peer.clone()),
            RosterEdit::Remove { .. } => None,
        })
        .collect();
    assert!(
        members.contains(&"peer-9".to_string()) && members.contains(&"peer-8".to_string()),
        "welcome peers enter the roster, got {members:?}"
    );
    assert!(
        rest.iter().any(|event| matches!(event, Event::Message { payload: CursorMsg::SyncAck { .. }, .. })),
        "the welcome score re-enters as a sync ack for the existing merge path"
    );
    assert_eq!(clock.last_new_peer, Some(500));
}

#[test]
fn wrong_room_welcome_dropped() {
    let lobby = ActiveLobby("alpha".to_string());
    let mut gate = JoinGate::default();
    let mut clock = JoinClock { clicked_at: None, last_new_peer: None };
    let (rest, edits) = absorb_welcome(vec![welcome("beta")], &lobby, &mut gate, &mut clock, &Vec::new(), 1, 500);
    assert!(rest.is_empty(), "welcome for another room is consumed without effect");
    assert!(gate.expected.is_none(), "expected stays unknown on wrong-room welcome");
    assert!(edits.is_empty());
}

#[test]
fn known_members_are_not_added_again() {
    let lobby = ActiveLobby("alpha".to_string());
    let mut gate = JoinGate::default();
    let mut clock = JoinClock { clicked_at: None, last_new_peer: None };
    let known = vec!["peer-9".to_string(), "peer-8".to_string()];
    let (_, edits) = absorb_welcome(vec![welcome("alpha")], &lobby, &mut gate, &mut clock, &known, 1, 500);
    assert!(edits.is_empty());
}

#[test]
fn repeated_acks_record_their_sender_once() {
    let mut slots: Vec<Slot> = Vec::new();
    let mut pending = PendingClicks::default();
    let mut c = ctx();
    let ack = || Event::Message { from: peer("peer-2", 20), payload: CursorMsg::SyncAck { target: 1, entries: Vec::new() } };
    absorb_sync(vec![ack(), ack()], &mut slots, &mut pending, 1, &mut c);
    absorb_sync(vec![ack()], &mut slots, &mut pending, 1, &mut c);
    assert_eq!(c.gate.synced.len(), 1);
}
