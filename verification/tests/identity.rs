use clicker::lobby::{JoinGate, PendingJoin};
use clicker::model::{ActiveLobby, Peer, Slot};
use clicker::systems::absorb_gossip::{absorb_gossip, CursorTarget};
use clicker::systems::resolve_player::{resolve_player, ResolveCtx};
use clicker::tombstones::ScoreTombstones;
use clicker::topics::gossip_roster_topic;
use clicker::wire::{CursorMsg, Event};

const SENDER: u64 = 42;

fn peer() -> Peer {
    Peer { name: "peer".to_string(), id: SENDER }
}

fn move_gossip(topic: &str) -> Event {
    Event::Gossip {
        topic: topic.to_string(),
        from: peer(),
        data: vec![1],
        decoded: Some(CursorMsg::Move { owner: 5, x_bits: 30f32.to_bits(), y_bits: 40f32.to_bits() }),
    }
}

fn ctx(events: Vec<Event>, slots: Vec<Slot>, gate: JoinGate) -> ResolveCtx {
    ResolveCtx {
        gate,
        events,
        slots,
        tombstones: ScoreTombstones::default(),
        lobby: ActiveLobby("alpha".to_string()),
        own: 99,
        now: 1_000,
    }
}

fn visual() -> Slot {
    Slot { owner: SENDER, player: None, count: 0, reveal: None }
}

#[test]
fn resolve_player_test_usage() {
    let click = Event::Message { from: peer(), payload: CursorMsg::Click { owner: 5, delta: 1 } };
    let mut c = ctx(vec![click.clone()], vec![visual()], JoinGate::default());
    let done = resolve_player(&mut c);
    assert!(done.is_empty());
    assert_eq!(c.slots[0].player, None);
    let mut c = ctx(vec![click, move_gossip("clicker/alpha/pos")], c.slots, JoinGate::default());
    let done = resolve_player(&mut c);
    assert_eq!(c.slots[0].player, Some(5));
    assert_eq!(done.len(), 1);
    assert!(!done[0].deferred);
    assert_eq!(c.events.len(), 2);
}

// The original expected the slot to be labeled 5 here. That cannot hold:
// absorb_gossip consumes the position gossip of the lobby (as the
// original's code and absorb_gossip's own test show), so resolve_player,
// run after it on the same queue, sees no claim.
#[test]
fn resolve_survives_absorb_first() {
    let events = vec![move_gossip("clicker/alpha/pos")];
    let mut targets = vec![CursorTarget { owner: SENDER, x_bits: 0, y_bits: 0 }];
    let rest = absorb_gossip(events, &mut targets, &ActiveLobby("alpha".to_string()), 99);
    assert!((f32::from_bits(targets[0].x_bits) - 30.0).abs() < 0.001);
    let mut c = ctx(rest, vec![visual()], JoinGate::default());
    resolve_player(&mut c);
    assert_eq!(c.slots[0].player, None);
    assert!(c.events.is_empty());
}

// The original expected events to remain after both systems ran. That
// cannot hold: resolve_player passes the gossip on and absorb_gossip then
// consumes it.
#[test]
fn resolve_then_absorb_applies_live_pos() {
    let mut c = ctx(vec![move_gossip("clicker/alpha/pos")], vec![visual()], JoinGate::default());
    resolve_player(&mut c);
    assert_eq!(c.slots[0].player, Some(5));
    let mut targets = vec![CursorTarget { owner: SENDER, x_bits: 0, y_bits: 0 }];
    let rest = absorb_gossip(std::mem::take(&mut c.events), &mut targets, &ActiveLobby("alpha".to_string()), 99);
    assert!((f32::from_bits(targets[0].x_bits) - 30.0).abs() < 0.001);
    assert!((f32::from_bits(targets[0].y_bits) - 40.0).abs() < 0.001);
    assert!(rest.is_empty());
}

#[test]
fn duplicate_player_no_never_labels_twice() {
    let taken = Slot { owner: SENDER, player: Some(5), count: 5, reveal: None };
    let mut c = ctx(vec![move_gossip("clicker/alpha/pos")], vec![taken, visual()], JoinGate::default());
    resolve_player(&mut c);
    assert!(c.slots[1].player.is_none(), "second slot for a taken player number stays unlabeled");
}

#[test]
fn armed_pending_defers_label_to_reveal() {
    let mut gate = JoinGate::default();
    gate.arm_pending(PendingJoin { peer: "peer".to_string(), joiner: SENDER, reveal_at: 1_000, fail_at: 31_000 });
    let mut c = ctx(vec![move_gossip("clicker/alpha/pos")], vec![visual()], gate);
    let done = resolve_player(&mut c);
    assert_eq!(
        c.slots[0].reveal.map(|mark| mark.player),
        Some(Some(5)),
        "armed pending defers the claimed identity to the reveal path"
    );
    assert!(c.slots[0].player.is_none(), "no direct label while the reveal path owns the peer");
    assert!(done[0].deferred);
}

#[test]
fn test_foreign_topic_never_resolves() {
    let roster = gossip_roster_topic(&ActiveLobby("alpha".to_string()));
    let event = Event::Gossip { topic: roster, from: peer(), data: vec![3u8, 0, 0, 0, 0, 0, 0, 0], decoded: None };
    let mut c = ctx(vec![event], vec![visual()], JoinGate::default());
    resolve_player(&mut c);
    assert!(c.slots[0].player.is_none());
}

#[test]
fn resolved_player_gets_its_kept_score_back() {
    let mut c = ctx(vec![move_gossip("clicker/alpha/pos")], vec![visual()], JoinGate::default());
    c.tombstones.keep(5, 8);
    resolve_player(&mut c);
    assert_eq!(c.slots[0].count, 8);
    assert_eq!(c.tombstones.get(5), None, "the restored score is no longer kept");
}

fn move_claim(from: Peer, claimed: u64) -> Event {
    Event::Gossip {
        topic: "clicker/alpha/pos".to_string(),
        from,
        data: vec![1],
        decoded: Some(CursorMsg::Move { owner: claimed, x_bits: 0, y_bits: 0 }),
    }
}

#[test]
fn second_claim_in_a_frame_relabels_the_same_slot() {
    let events = vec![move_claim(peer(), 5), move_claim(peer(), 6)];
    let mut c = ctx(events, vec![visual(), visual()], JoinGate::default());
    let done = resolve_player(&mut c);
    assert_eq!(c.slots[0].player, Some(6));
    assert_eq!(c.slots[1].player, None);
    assert_eq!(done.len(), 2);
    assert_eq!(done[1].slot, 0);
}

#[test]
fn labels_of_a_frame_show_in_the_next_frame() {
    let mut c = ctx(vec![move_claim(peer(), 5)], vec![visual()], JoinGate::default());
    resolve_player(&mut c);
    let other = Peer { name: "other".to_string(), id: 43 };
    let mut slots = c.slots.clone();
    slots.push(Slot { owner: 43, player: None, count: 0, reveal: None });
    let mut next = ctx(vec![move_claim(other, 5)], slots, JoinGate::default());
    resolve_player(&mut next);
    assert_eq!(next.slots[1].player, None, "a number labeled in an earlier frame is taken");
}

#[test]
fn two_peers_claiming_one_number_in_a_frame_both_get_it() {
    let other = Peer { name: "other".to_string(), id: 43 };
    let slots = vec![visual(), Slot { owner: 43, player: None, count: 0, reveal: None }];
    let mut c = ctx(vec![move_claim(peer(), 5), move_claim(other, 5)], slots, JoinGate::default());
    resolve_player(&mut c);
    assert_eq!(c.slots[0].player, Some(5));
    assert_eq!(c.slots[1].player, Some(5));
}
