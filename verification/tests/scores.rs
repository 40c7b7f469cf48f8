use std::collections::HashMap;

use clicker::digest::roster_key;
use clicker::lobby::{JoinGate, PendingJoin};
use clicker::model::{ActiveLobby, GlobalCounter, Peer, PendingReveal, Slot};
use clicker::systems::absorb_snapshot::absorb_snapshot;
use clicker::systems::publish_snapshot::publish_snapshot;
use clicker::systems::reveal_on_join::{reveal_on_join, RevealAction};
use clicker::systems::sync_global::sync_global;
use clicker::systems::tick_join_countdown::tick_join_countdown;
use clicker::systems::tick_log::{tick_log, TickLog};
use clicker::systems::tick_presence::tick_presence;
use clicker::systems::update_score::update_score;
use clicker::tombstones::ScoreTombstones;
use clicker::wire::{Command, CursorMsg, Event, RosterEdit, Snapshot, SNAPSHOT_CHUNK};

fn labeled(owner: u64, player: u64, count: i32) -> Slot {
    Slot { owner, player: Some(player), count, reveal: None }
}

fn global_of(slots: &Vec<Slot>, tombstones: &ScoreTombstones, seen: &mut Vec<u64>) -> i32 {
    let mut global = GlobalCounter(999);
    sync_global(slots, &mut global, tombstones, seen);
    *global
}

#[test]
fn sync_global_test_usage() {
    let slots = vec![labeled(1, 1, 4), labeled(2, 2, 5)];
    assert_eq!(global_of(&slots, &ScoreTombstones::default(), &mut Vec::new()), 9);
}

#[test]
fn leaver_score_retained() {
    let mut tombstones = ScoreTombstones::default();
    let mut seen: Vec<u64> = Vec::new();
    let slots = vec![labeled(9, 9, 5)];
    assert_eq!(global_of(&slots, &tombstones, &mut seen), 5);
    tombstones.keep(9, 5);
    assert_eq!(
        global_of(&Vec::new(), &tombstones, &mut seen),
        5,
        "retained score of a departed player stays in the room total"
    );
}

#[test]
fn never_seen_tombstone_excluded() {
    let mut tombstones = ScoreTombstones::default();
    tombstones.keep(9, 5);
    assert_eq!(
        global_of(&vec![labeled(1, 1, 4)], &tombstones, &mut Vec::new()),
        4,
        "snapshot claims for never-labeled players never inflate the total"
    );
}

#[test]
fn overlap_takes_max() {
    let mut tombstones = ScoreTombstones::default();
    tombstones.keep(2, 7);
    assert_eq!(
        global_of(&vec![labeled(2, 2, 3)], &tombstones, &mut Vec::new()),
        7,
        "stale tombstone beats a not-yet-restored live slot"
    );
}

#[test]
fn unlabeled_count_never_counts() {
    let slots = vec![labeled(1, 1, 4), Slot { owner: 9, player: None, count: 16, reveal: None }];
    assert_eq!(
        global_of(&slots, &ScoreTombstones::default(), &mut Vec::new()),
        4,
        "merged-but-unresolved slots join the total only once labeled"
    );
}

#[test]
fn live_above_tombstone_wins() {
    let mut tombstones = ScoreTombstones::default();
    tombstones.keep(2, 7);
    assert_eq!(
        global_of(&vec![labeled(2, 2, 9)], &tombstones, &mut Vec::new()),
        9,
        "no double count when the live slot already leads"
    );
}

#[test]
fn absorb_snapshot_test_usage() {
    let lobby = ActiveLobby("alpha".to_string());
    let mut slots = vec![labeled(42, 2, 2)];
    let mut tombstones = ScoreTombstones::default();
    let snapshot = Snapshot { entries: vec![(2, 5)], global: 9 };
    let events = vec![
        Event::HistoryChunk { lobby: "alpha".to_string(), chunk: SNAPSHOT_CHUNK, data: vec![1], decoded: Some(snapshot.clone()) },
        Event::HistoryChunk { lobby: "other".to_string(), chunk: SNAPSHOT_CHUNK, data: vec![1], decoded: Some(snapshot) },
    ];
    let rest = absorb_snapshot(events, &mut slots, &mut tombstones, &lobby, 1);
    assert_eq!(slots[0].count, 5);
    assert_eq!(rest.len(), 1);
}

#[test]
fn test_unknown_parks_tombstone() {
    let lobby = ActiveLobby("alpha".to_string());
    let mut slots: Vec<Slot> = Vec::new();
    let mut tombstones = ScoreTombstones::default();
    let snapshot = Snapshot { entries: vec![(2, 7)], global: 7 };
    let events =
        vec![Event::HistoryChunk { lobby: "alpha".to_string(), chunk: SNAPSHOT_CHUNK, data: vec![1], decoded: Some(snapshot) }];
    absorb_snapshot(events, &mut slots, &mut tombstones, &lobby, 1);
    assert_eq!(tombstones.get(2), Some(7));
}

#[test]
fn snapshot_raises_own_cursor_but_never_lowers() {
    let lobby = ActiveLobby("alpha".to_string());
    let mut slots = vec![labeled(1, 1, 10)];
    let mut tombstones = ScoreTombstones::default();
    let snapshot = Snapshot { entries: vec![(1, 4)], global: 4 };
    let events =
        vec![Event::HistoryChunk { lobby: "alpha".to_string(), chunk: SNAPSHOT_CHUNK, data: vec![1], decoded: Some(snapshot) }];
    absorb_snapshot(events, &mut slots, &mut tombstones, &lobby, 1);
    assert_eq!(slots[0].count, 10);
    assert!(tombstones.is_empty());
}

fn put_entries(command: &Command) -> Vec<(u64, i32)> {
    match command {
        Command::PutHistory { snapshot, .. } => snapshot.entries.clone(),
        _ => panic!("expected PutHistory"),
    }
}

#[test]
fn publish_snapshot_test_usage() {
    let mut tombstones = ScoreTombstones::default();
    tombstones.keep(2, 7);
    let slots = vec![Slot { owner: 5, player: Some(1), count: 4, reveal: None }];
    let command = publish_snapshot(&slots, &GlobalCounter::default(), &ActiveLobby("alpha".to_string()), &tombstones);
    let Command::PutHistory { lobby, chunk, .. } = &command else {
        panic!("expected PutHistory");
    };
    assert_eq!(lobby, "alpha");
    assert_eq!(*chunk, SNAPSHOT_CHUNK);
    let entries = put_entries(&command);
    assert!(entries.contains(&(1, 4)));
    assert!(entries.contains(&(2, 7)));
}

#[test]
fn tombstone_wins_over_stale_live_slot() {
    let mut tombstones = ScoreTombstones::default();
    tombstones.keep(2, 7);
    let slots = vec![Slot { owner: 5, player: Some(2), count: 1, reveal: None }];
    let command = publish_snapshot(&slots, &GlobalCounter::default(), &ActiveLobby("alpha".to_string()), &tombstones);
    assert!(put_entries(&command).contains(&(2, 7)));
}

fn reveal_gate(reveal_at: u64) -> JoinGate {
    let mut gate = JoinGate::default();
    gate.arm_pending(PendingJoin { peer: "peer-2".to_string(), joiner: 2, reveal_at, fail_at: reveal_at + 30_000 });
    gate
}

fn waiting(reveal_at: u64, player: Option<u64>) -> Vec<Slot> {
    vec![Slot { owner: 22, player: None, count: 0, reveal: Some(PendingReveal { reveal_at, fail_at: reveal_at + 30_000, player }) }]
}

fn ids() -> Vec<Peer> {
    vec![Peer { name: "peer-2".to_string(), id: 22 }]
}

#[test]
fn reveal_on_join_test_usage() {
    let mut gate = reveal_gate(9_000);
    let slots = waiting(9_000, Some(2));
    let actions = reveal_on_join(&mut gate, &slots, &ids(), 1, 10_000);
    assert_eq!(actions, vec![RevealAction::Label { slot: 0, peer: "peer-2".to_string(), player: 2 }], "revealed with its number");
    assert_eq!(gate.pending.len(), 0);
}

#[test]
fn not_due_stays_hidden() {
    let mut gate = reveal_gate(40_000);
    let slots = waiting(40_000, Some(2));
    let actions = reveal_on_join(&mut gate, &slots, &ids(), 1, 10_000);
    assert!(actions.is_empty());
    assert_eq!(gate.pending.len(), 1);
}

#[test]
fn expired_identity_despawns_and_marks_absent() {
    let mut gate = reveal_gate(9_000);
    let slots = waiting(9_000, None);
    let actions = reveal_on_join(&mut gate, &slots, &ids(), 1, 10_000);
    assert_eq!(actions, vec![RevealAction::Despawn { slot: 0 }], "unresolved placeholder despawned");
    assert!(gate.absent.contains(&"peer-2".to_string()), "the failed peer is remembered absent");
}

#[test]
fn unknown_identity_stays_gray_until_due() {
    let mut gate = reveal_gate(40_000);
    let slots = waiting(40_000, None);
    let actions = reveal_on_join(&mut gate, &slots, &ids(), 1, 10_000);
    assert!(actions.is_empty());
    assert!(gate.absent.is_empty());
}

#[test]
fn tick_join_countdown_test_usage() {
    let marker = PendingReveal { reveal_at: 12_500, fail_at: 10_000, player: Some(2) };
    assert_eq!(tick_join_countdown(&marker, 10_000), "3s", "counts down by whole seconds");
}

#[test]
fn unresolved_counts_to_fail_deadline() {
    let marker = PendingReveal { reveal_at: 10_000, fail_at: 14_500, player: None };
    assert_eq!(tick_join_countdown(&marker, 10_000), "5s");
    let past = PendingReveal { reveal_at: 10_000, fail_at: 9_000, player: None };
    assert_eq!(tick_join_countdown(&past, 10_000), "0s");
}

#[test]
fn tick_log_test_usage() {
    let mut log = TickLog { last_ms: 0, prev: String::new() };
    let slots = vec![Slot { owner: 1, player: None, count: 0, reveal: None }];
    let report = tick_log(&mut log, &slots, &GlobalCounter::default(), 0);
    assert!(!report.heartbeat);
    assert!(report.sync);
    assert_eq!(log.prev, "0/0/0/0/");
}

#[test]
fn tick_log_summarizes_players_in_order() {
    let mut log = TickLog { last_ms: 0, prev: String::new() };
    let slots = vec![labeled(8, 3, -2), labeled(5, 1, 4), labeled(6, 7, 1), labeled(9, 1, 6)];
    let report = tick_log(&mut log, &slots, &GlobalCounter(12), 500);
    assert_eq!((report.p1, report.p2, report.p3), (6, 0, -2));
    assert_eq!(report.players, vec![1, 3, 7]);
    assert_eq!(log.prev, "6/0/-2/12/1,3,7");
    let again = tick_log(&mut log, &slots, &GlobalCounter(12), 600);
    assert!(!again.sync, "an unchanged summary waits for the heartbeat");
    let beat = tick_log(&mut log, &slots, &GlobalCounter(12), 1_600);
    assert!(beat.heartbeat && beat.sync);
}

fn member() -> Vec<Peer> {
    vec![Peer { name: "peer-3".to_string(), id: 33 }]
}

fn disconnect() -> Event {
    Event::PeerDisconnected(Peer { name: "peer-3".to_string(), id: 33 })
}

#[test]
fn tick_presence_test_usage() {
    let mut presence: HashMap<u64, u64> = HashMap::new();
    let edits = tick_presence(&Vec::new(), &mut presence, &Vec::new(), &ActiveLobby("alpha".to_string()), 0);
    assert!(edits.is_empty());
}

#[test]
fn disconnected_peer_removed_after_ttl() {
    let lobby = ActiveLobby("alpha".to_string());
    let mut presence: HashMap<u64, u64> = HashMap::new();
    let first = tick_presence(&vec![disconnect()], &mut presence, &member(), &lobby, 0);
    assert!(first.is_empty(), "removal waits out the presence TTL");
    let mut removed = Vec::new();
    for second in 1..=80u64 {
        removed.extend(tick_presence(&Vec::new(), &mut presence, &member(), &lobby, second * 1_000));
        if !removed.is_empty() {
            break;
        }
    }
    assert_eq!(
        removed,
        vec![RosterEdit::Remove { room: "alpha".to_string(), key: roster_key(&"peer-3".to_string()) }],
        "dead peer leaves the roster after the TTL"
    );
}

#[test]
fn liveness_clears_the_suspect() {
    let lobby = ActiveLobby("alpha".to_string());
    let mut presence: HashMap<u64, u64> = HashMap::new();
    tick_presence(&vec![disconnect()], &mut presence, &member(), &lobby, 0);
    let alive = Event::Message {
        from: Peer { name: "peer-3".to_string(), id: 33 },
        payload: CursorMsg::Move { owner: 3, x_bits: 0, y_bits: 0 },
    };
    let mut removed = tick_presence(&vec![alive], &mut presence, &member(), &lobby, 1_000);
    for second in 2..=80u64 {
        removed.extend(tick_presence(&Vec::new(), &mut presence, &member(), &lobby, second * 1_000));
    }
    assert!(removed.is_empty(), "a live peer is never pruned");
}

#[test]
fn update_score_test_usage() {
    let mut global = GlobalCounter::default();
    global.add(7);
    let slots = vec![Slot { owner: 1, player: None, count: 3, reveal: None }];
    let (mine, all) = update_score(&slots, &global, 1);
    assert_eq!(mine, "you: 3");
    assert_eq!(all, "global: 7");
}

#[test]
fn update_score_without_own_cursor_shows_zero() {
    let (mine, _) = update_score(&Vec::new(), &GlobalCounter(-4), 1);
    assert_eq!(mine, "you: 0");
    assert_eq!(update_score(&Vec::new(), &GlobalCounter(-4), 1).1, "global: -4");
}
