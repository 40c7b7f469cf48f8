use clicker::model::{ActiveLobby, AutoClick, GlobalCounter, Peer, Slot};
use clicker::systems::click::{auto_tick, detect_click};
use clicker::systems::drain_pending::{drain_pending, DrainLabel};
use clicker::systems::log_connected::{hex_hash, log_connected};
use clicker::systems::publish_cursor::{publish_cursor, CursorPublish};
use clicker::systems::request_snapshot::{publish_due, request_snapshot, SnapshotFetch};
use clicker::systems::send_sync_heartbeat::{send_sync_heartbeat, Heartbeat};
use clicker::systems::send_sync_req::send_sync_req;
use clicker::systems::send_want_join::send_want_join;
use clicker::wire::{Command, CursorMsg, Event, PendingClick, PendingClicks, SNAPSHOT_CHUNK};

fn own_cursor() -> Vec<Slot> {
    vec![Slot { owner: 1, player: None, count: 0, reveal: None }]
}

#[test]
fn detect_click_test_usage() {
    let lobby = ActiveLobby("alpha".to_string());
    let mut slots = own_cursor();
    let mut global = GlobalCounter::default();
    let command = detect_click(true, &mut slots, &mut global, &lobby, 1);
    assert_eq!(slots[0].count, 1);
    assert_eq!(*global, 1);
    assert_eq!(
        command,
        Some(Command::Publish { topic: "clicker/alpha/click".to_string(), payload: CursorMsg::Click { owner: 1, delta: 1 } })
    );
}

#[test]
fn test_no_press_no_click() {
    let lobby = ActiveLobby("alpha".to_string());
    let mut slots = own_cursor();
    let mut global = GlobalCounter::default();
    let command = detect_click(false, &mut slots, &mut global, &lobby, 1);
    assert_eq!(*global, 0);
    assert!(command.is_none());
}

#[test]
fn auto_tick_test_usage() {
    let lobby = ActiveLobby::default();
    let mut slots = own_cursor();
    let mut global = GlobalCounter::default();
    let mut last = 0u64;
    let first = auto_tick(&AutoClick(true), &mut last, 0, &mut slots, &mut global, &lobby, 1);
    assert!(first.is_none(), "nothing before a second has passed");
    let second = auto_tick(&AutoClick(true), &mut last, 1_000, &mut slots, &mut global, &lobby, 1);
    assert!(second.is_some());
    assert_eq!(slots[0].count, 1);
    assert_eq!(last, 1_000);
    let off = auto_tick(&AutoClick(false), &mut last, 5_000, &mut slots, &mut global, &lobby, 1);
    assert!(off.is_none());
    assert_eq!(*global, 1);
}

#[test]
fn drain_pending_test_usage() {
    let sender = 42u64;
    let mut pending = PendingClicks {
        items: vec![PendingClick { sender, owner: 5, delta: 4, absolute: false }],
        parked: 1,
    };
    let mut slots = vec![Slot { owner: sender, player: None, count: 0, reveal: None }];
    let labels = drain_pending(&mut slots, &mut pending);
    assert_eq!(slots[0].count, 4);
    assert_eq!(slots[0].player, Some(5));
    assert_eq!(pending.items.len(), 0);
    assert_eq!(labels, vec![DrainLabel { slot: 0, sender, player: 5 }]);
    assert_eq!(pending.parked, 1);
}

#[test]
fn parked_score_waits_for_its_cursor() {
    let mut pending = PendingClicks {
        items: vec![PendingClick { sender: 42, owner: 5, delta: 9, absolute: true }],
        parked: 0,
    };
    let mut slots = vec![Slot { owner: 42, player: None, count: 0, reveal: None }];
    let labels = drain_pending(&mut slots, &mut pending);
    assert!(labels.is_empty(), "a score lands only on its own cursor");
    assert_eq!(pending.items.len(), 1);
    slots.push(Slot { owner: 7, player: Some(5), count: 12, reveal: None });
    drain_pending(&mut slots, &mut pending);
    assert_eq!(slots[1].count, 12, "a score never lowers a count");
    assert!(pending.items.is_empty());
}

#[test]
fn log_connected_test_usage() {
    assert_eq!(hex_hash(&[0u8; 32]).len(), 64);
    let line = log_connected(&"ns".to_string(), 1, 1, &ActiveLobby("alpha".to_string()), &[0xabu8; 32]);
    assert_eq!(
        line,
        format!("namespace=ns instance_tag=1 own_id=1 lobby=alpha contract={} connected, running indefinitely", "ab".repeat(32))
    );
}

#[test]
fn hex_hash_is_lowercase_two_digits_per_byte() {
    let mut hash = [0u8; 32];
    hash[0] = 0x0f;
    hash[31] = 0xa0;
    let hex = hex_hash(&hash);
    assert!(hex.starts_with("0f00"));
    assert!(hex.ends_with("00a0"));
}

#[test]
fn publish_cursor_test_usage() {
    let lobby = ActiveLobby("alpha".to_string());
    let mut st = CursorPublish::default();
    let here = Some((10f32.to_bits(), 20f32.to_bits()));
    let command = publish_cursor(&mut st, here, false, &lobby, 1, 0);
    let Some(Command::Publish { topic, payload }) = command else {
        panic!("expected Publish");
    };
    assert_eq!(topic, "clicker/alpha/pos");
    assert!(matches!(payload, CursorMsg::Move { .. }));
}

#[test]
fn still_cursor_waits_for_the_heartbeat() {
    let lobby = ActiveLobby("alpha".to_string());
    let mut st = CursorPublish::default();
    let here = Some((1, 2));
    assert!(publish_cursor(&mut st, here, false, &lobby, 1, 0).is_some());
    assert!(publish_cursor(&mut st, here, true, &lobby, 1, 10).is_none(), "rate limited");
    assert!(publish_cursor(&mut st, here, false, &lobby, 1, 100).is_none(), "still and not due");
    assert!(publish_cursor(&mut st, here, true, &lobby, 1, 100).is_some(), "moved far enough");
    assert!(publish_cursor(&mut st, here, false, &lobby, 1, 5_100).is_some(), "heartbeat due");
}

#[test]
fn publish_due_test_usage() {
    let mut last = 0u64;
    assert!(publish_due(&mut last, 0));
    let mut last = 1_000u64;
    assert!(!publish_due(&mut last, 2_000));
    assert!(publish_due(&mut last, 6_000));
    assert_eq!(last, 6_000);
}

#[test]
fn request_snapshot_test_usage() {
    let lobby = ActiveLobby("alpha".to_string());
    let mut fetch = SnapshotFetch::default();
    let first = request_snapshot(&mut fetch, &lobby, 0);
    assert_eq!(first, Some(Command::FetchHistory { lobby: "alpha".to_string(), chunk: SNAPSHOT_CHUNK }));
    let second = request_snapshot(&mut fetch, &lobby, 16);
    assert!(second.is_none());
    assert!(request_snapshot(&mut fetch, &lobby, 10_000).is_some());
}

fn members(names: &[&str]) -> Option<Vec<String>> {
    Some(names.iter().map(|name| name.to_string()).collect())
}

#[test]
fn send_sync_heartbeat_test_usage() {
    let lobby = ActiveLobby("alpha".to_string());
    let mut hb = Heartbeat::default();
    let roster = members(&["peer-2", "peer-3"]);
    let mut total = 0;
    for frame in 0..3u64 {
        total += send_sync_heartbeat(&mut hb, &roster, &lobby, 1, frame * 16).len();
    }
    assert!(total >= 2, "heartbeat syncs each member: {total}");
}

#[test]
fn growth_fires_without_waiting_for_interval() {
    let lobby = ActiveLobby("alpha".to_string());
    let mut hb = Heartbeat::default();
    let first = send_sync_heartbeat(&mut hb, &members(&[]), &lobby, 1, 0);
    assert_eq!(first.len(), 0, "empty roster sends nothing");
    let second = send_sync_heartbeat(&mut hb, &members(&["peer-2", "peer-3"]), &lobby, 1, 16);
    assert_eq!(second.len(), 2, "roster growth syncs at once, ignoring the interval");
    let third = send_sync_heartbeat(&mut hb, &members(&["peer-2", "peer-3"]), &lobby, 1, 32);
    assert!(third.is_empty());
    let unknown = send_sync_heartbeat(&mut hb, &None, &lobby, 1, 60_000);
    assert!(unknown.is_empty());
}

fn connected(name: &str) -> Event {
    Event::PeerConnected(Peer { name: name.to_string(), id: 7 })
}

fn disconnected(name: &str) -> Event {
    Event::PeerDisconnected(Peer { name: name.to_string(), id: 7 })
}

#[test]
fn send_sync_req_test_usage() {
    let mut live: Vec<String> = Vec::new();
    let (rest, commands) = send_sync_req(vec![connected("peer")], &mut live, 1);
    assert_eq!(commands.len(), 1);
    assert_eq!(commands[0], Command::Send { peer_id: "peer".to_string(), payload: CursorMsg::SyncReq { requester: 1 } });
    assert_eq!(rest.len(), 1, "the connect event passes downstream to the roster");
}

#[test]
fn send_sync_req_duplicate_connect_requests_once() {
    let mut live: Vec<String> = Vec::new();
    let mut total = 0;
    for _ in 0..3 {
        total += send_sync_req(vec![connected("peer")], &mut live, 1).1.len();
    }
    assert_eq!(total, 1, "one live peer draws exactly one sync request");
}

#[test]
fn reconnect_after_disconnect_requests_again() {
    let mut live: Vec<String> = Vec::new();
    let mut total = send_sync_req(vec![connected("peer")], &mut live, 1).1.len();
    total += send_sync_req(vec![disconnected("peer")], &mut live, 1).1.len();
    total += send_sync_req(vec![connected("peer")], &mut live, 1).1.len();
    assert_eq!(total, 2, "a genuine reconnect draws a fresh sync request");
}

#[test]
fn send_want_join_test_usage() {
    let lobby = ActiveLobby("alpha".to_string());
    let mut live: Vec<String> = Vec::new();
    let (rest, commands) = send_want_join(vec![connected("peer")], &mut live, &lobby);
    assert_eq!(commands.len(), 1);
    assert!(
        commands.iter().any(|command| matches!(command, Command::Send { payload: CursorMsg::WantJoin { .. }, .. })),
        "one live peer draws exactly one join request"
    );
    assert_eq!(rest.len(), 1, "the connect event passes downstream to the roster");
}

#[test]
fn send_want_join_duplicate_connect_requests_once() {
    let lobby = ActiveLobby("alpha".to_string());
    let mut live: Vec<String> = Vec::new();
    let mut total = 0;
    for _ in 0..3 {
        total += send_want_join(vec![connected("peer")], &mut live, &lobby).1.len();
    }
    assert_eq!(total, 1, "one live peer draws exactly one join request");
}

#[test]
fn empty_lobby_requests_nothing() {
    let lobby = ActiveLobby::default();
    let mut live: Vec<String> = Vec::new();
    let (rest, commands) = send_want_join(vec![connected("peer")], &mut live, &lobby);
    assert!(commands.is_empty(), "no join request from the menu");
    assert_eq!(rest.len(), 1);
}
