use clicker::model::{ActiveLobby, Peer, Slot};
use clicker::systems::absorb_click_gossip::absorb_click_gossip;
use clicker::systems::absorb_gossip::{absorb_gossip, CursorTarget};
use clicker::systems::apply_delta::apply_delta;
use clicker::topics::click_topic;
use clicker::wire::{CursorMsg, Event, PendingClicks};

fn peer(name: &str, id: u64) -> Peer {
    Peer { name: name.to_string(), id }
}

fn cursor(owner: u64) -> Slot {
    Slot { owner, player: None, count: 0, reveal: None }
}

#[test]
fn apply_delta_test_usage() {
    let sender = peer("peer", 42);
    let mut slots = vec![cursor(sender.id)];
    let mut pending = PendingClicks::default();
    let events = vec![
        Event::Message { from: sender.clone(), payload: CursorMsg::Click { owner: sender.id, delta: 3 } },
        Event::Message { from: sender.clone(), payload: CursorMsg::Click { owner: 99, delta: 5 } },
    ];
    let rest = apply_delta(events, &mut slots, &mut pending, 99);
    assert_eq!(slots[0].count, 3);
    assert!(rest.is_empty());
}

#[test]
fn test_sender_credited_owner_advisory() {
    let sender = peer("peer", 42);
    let mut slots = vec![cursor(sender.id)];
    let mut pending = PendingClicks::default();
    let events = vec![Event::Message { from: sender.clone(), payload: CursorMsg::Click { owner: 7, delta: 10 } }];
    apply_delta(events, &mut slots, &mut pending, 99);
    assert_eq!(slots[0].count, 10);
}

#[test]
fn test_missing_slot_goes_pending() {
    let mut slots: Vec<Slot> = Vec::new();
    let mut pending = PendingClicks::default();
    let events = vec![Event::Message { from: peer("ghost", 17), payload: CursorMsg::Click { owner: 5, delta: 2 } }];
    apply_delta(events, &mut slots, &mut pending, 99);
    assert_eq!(pending.items.len(), 1);
    assert_eq!(pending.items[0].sender, 17);
    assert_eq!(pending.items[0].owner, 5);
    assert!(!pending.items[0].absolute);
}

#[test]
fn apply_delta_passes_moves_and_sync_on() {
    let sender = peer("peer", 42);
    let mut slots = vec![cursor(sender.id)];
    let mut pending = PendingClicks::default();
    let events = vec![
        Event::Message { from: sender.clone(), payload: CursorMsg::SyncReq { requester: 42 } },
        Event::Message { from: sender.clone(), payload: CursorMsg::PexAsk(vec![1, 2]) },
        Event::Message { from: sender.clone(), payload: CursorMsg::Move { owner: 42, x_bits: 1, y_bits: 2 } },
        Event::PeerConnected(sender.clone()),
    ];
    let rest = apply_delta(events, &mut slots, &mut pending, 99);
    assert_eq!(rest.len(), 3);
    assert_eq!(slots[0].count, 0);
}

fn gossip_click(lobby: &ActiveLobby, from: &Peer, owner: u64, delta: i32) -> Event {
    Event::Gossip {
        topic: click_topic(lobby),
        from: from.clone(),
        data: vec![1],
        decoded: Some(CursorMsg::Click { owner, delta }),
    }
}

#[test]
fn absorb_click_gossip_test_usage() {
    let lobby = ActiveLobby("alpha".to_string());
    let sender = peer("peer-2", 42);
    let mut slots = vec![cursor(sender.id)];
    let mut pending = PendingClicks::default();
    let events = vec![gossip_click(&lobby, &sender, 2, 4)];
    absorb_click_gossip(events, &mut slots, &mut pending, &lobby, 1);
    assert_eq!(slots[0].count, 4);
}

#[test]
fn test_wrong_topic_preserved() {
    let lobby = ActiveLobby("alpha".to_string());
    let mut slots: Vec<Slot> = Vec::new();
    let mut pending = PendingClicks::default();
    let events = vec![Event::Gossip {
        topic: "other".to_string(),
        from: peer("peer-2", 42),
        data: vec![1],
        decoded: Some(CursorMsg::Click { owner: 2, delta: 4 }),
    }];
    let rest = absorb_click_gossip(events, &mut slots, &mut pending, &lobby, 1);
    assert_eq!(rest.len(), 1);
}

#[test]
fn own_click_gossip_is_ignored() {
    let lobby = ActiveLobby("alpha".to_string());
    let me = peer("me", 1);
    let mut slots = vec![cursor(1)];
    let mut pending = PendingClicks::default();
    let rest = absorb_click_gossip(vec![gossip_click(&lobby, &me, 1, 4)], &mut slots, &mut pending, &lobby, 1);
    assert!(rest.is_empty());
    assert_eq!(slots[0].count, 0);
    assert!(pending.items.is_empty());
}

#[test]
fn absorb_gossip_test_usage() {
    let lobby = ActiveLobby("alpha".to_string());
    let sender = peer("peer", 42);
    let mut targets = vec![CursorTarget { owner: sender.id, x_bits: 0f32.to_bits(), y_bits: 0f32.to_bits() }];
    let events = vec![
        Event::Gossip {
            topic: "clicker/alpha/pos".to_string(),
            from: sender.clone(),
            data: vec![1],
            decoded: Some(CursorMsg::Move { owner: sender.id, x_bits: 30f32.to_bits(), y_bits: 40f32.to_bits() }),
        },
        Event::Gossip { topic: "clicker/other/pos".to_string(), from: sender.clone(), data: Vec::new(), decoded: None },
    ];
    let rest = absorb_gossip(events, &mut targets, &lobby, 99);
    assert!((f32::from_bits(targets[0].x_bits) - 30.0).abs() < 0.001);
    assert!((f32::from_bits(targets[0].y_bits) - 40.0).abs() < 0.001);
    assert_eq!(rest.len(), 1);
}

#[test]
fn move_from_another_peer_leaves_other_targets() {
    let lobby = ActiveLobby("alpha".to_string());
    let sender = peer("peer", 42);
    let mut targets = vec![
        CursorTarget { owner: 7, x_bits: 5, y_bits: 6 },
        CursorTarget { owner: 42, x_bits: 0, y_bits: 0 },
    ];
    let events = vec![Event::Gossip {
        topic: "clicker/alpha/pos".to_string(),
        from: sender,
        data: vec![1],
        decoded: Some(CursorMsg::Move { owner: 42, x_bits: 11, y_bits: 12 }),
    }];
    absorb_gossip(events, &mut targets, &lobby, 99);
    assert_eq!(targets[0], CursorTarget { owner: 7, x_bits: 5, y_bits: 6 });
    assert_eq!(targets[1], CursorTarget { owner: 42, x_bits: 11, y_bits: 12 });
}
