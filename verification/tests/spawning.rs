use clicker::lobby::{JoinGate, JoinPending, PendingJoin};
use clicker::model::{ActiveLobby, PendingReveal, Slot};
use clicker::model::Peer;
use clicker::systems::spawn_ctx::{gate_open, SpawnCtx};
use clicker::systems::spawn_cursor::spawn_cursor;
use clicker::systems::spawn_on_join::{placeholder_slot, spawn_on_join};
use clicker::systems::spawn_on_join_ctx::{held, SpawnOnJoinCtx};
use clicker::systems::spawn_pending_join::{spawn_pending_join, JoinMarker};
use clicker::systems::subscribe_roster::subscribe_roster;
use clicker::wire::Command;

#[test]
fn spawn_ctx_gate_open_test_usage() {
    let ctx = SpawnCtx {
        members: Vec::new(),
        lobby: ActiveLobby("alpha".to_string()),
        own: 1,
        pending: JoinPending::default(),
    };
    assert!(gate_open(&ctx));
    let ctx = SpawnCtx { pending: JoinPending(Some("alpha".to_string())), ..ctx };
    assert!(!gate_open(&ctx));
    assert!(!ctx.gate_open());
}

#[test]
fn spawn_cursor_test_usage() {
    let mut slots: Vec<Slot> = Vec::new();
    spawn_cursor(&mut slots, 7, false);
    assert_eq!(slots.len(), 0);
    spawn_cursor(&mut slots, 7, true);
    assert_eq!(slots, vec![Slot { owner: 7, player: Some(7), count: 0, reveal: None }]);
}

fn join_ctx(members: Vec<Peer>, gate: JoinGate) -> SpawnOnJoinCtx {
    SpawnOnJoinCtx { members, lobby: ActiveLobby("alpha".to_string()), own: 1, gate }
}

fn frames(ctx: &SpawnOnJoinCtx, n: usize) -> Vec<Peer> {
    let mut owners: Vec<u64> = Vec::new();
    let mut all = Vec::new();
    for _ in 0..n {
        for peer in spawn_on_join(&owners, ctx) {
            owners.push(peer.id);
            all.push(peer);
        }
    }
    all
}

fn member() -> Peer {
    Peer { name: "peer".to_string(), id: 42 }
}

#[test]
fn spawn_on_join_test_usage() {
    let ctx = join_ctx(vec![member()], JoinGate::default());
    let spawned = frames(&ctx, 2);
    assert_eq!(spawned.len(), 1);
    assert_eq!(spawned[0], member());
}

#[test]
fn placeholder_has_no_player_no() {
    let ctx = join_ctx(vec![member()], JoinGate::default());
    let spawned = frames(&ctx, 1);
    let slots: Vec<Slot> = spawned.iter().map(placeholder_slot).collect();
    assert_eq!(slots.len(), 1);
    assert_eq!(slots[0].owner, 42);
    assert_eq!(slots.iter().filter(|slot| slot.player.is_some()).count(), 0);
}

#[test]
fn spectate_spawns_while_join_pending() {
    let _loading = JoinPending(Some("alpha".to_string()));
    let ctx = join_ctx(vec![member()], JoinGate::default());
    assert_eq!(frames(&ctx, 2).len(), 1, "spectating joiner renders the room while loading");
}

#[test]
fn absent_peer_not_respawned() {
    let mut gate = JoinGate::default();
    gate.absent.push("peer".to_string());
    let ctx = join_ctx(vec![member()], gate);
    assert_eq!(frames(&ctx, 2).len(), 0, "a peer marked absent is never respawned");
}

#[test]
fn lobby_cap_limits_placeholders() {
    let members: Vec<Peer> = (2..20u64).map(|id| Peer { name: format!("peer-{id}"), id }).collect();
    let ctx = join_ctx(members, JoinGate::default());
    assert_eq!(frames(&ctx, 1).len(), 8);
}

#[test]
fn spawn_on_join_ctx_held_test_usage() {
    let own = 1;
    assert!(held(own, &Vec::new(), &Vec::new(), &"peer-1".to_string(), own), "own is always held");
    assert!(!held(own, &Vec::new(), &Vec::new(), &"peer-2".to_string(), 2));
    let pending = vec![PendingJoin { peer: "peer-2".to_string(), joiner: 2, reveal_at: 0, fail_at: 0 }];
    assert!(held(own, &pending, &Vec::new(), &"peer-2".to_string(), 2));
    assert!(held(own, &pending, &Vec::new(), &"other-peer".to_string(), 2));
    let absent = vec!["peer-3".to_string()];
    assert!(held(own, &Vec::new(), &absent, &"peer-3".to_string(), 3));
    let ctx = join_ctx(Vec::new(), JoinGate { absent, ..JoinGate::default() });
    assert!(ctx.held(&"peer-3".to_string(), 3));
}

fn arm(gate: &mut JoinGate, peer: &str, joiner: u64) {
    gate.arm_pending(PendingJoin { peer: peer.to_string(), joiner, reveal_at: 5_000, fail_at: 30_000 });
}

fn apply(slots: &mut Vec<Slot>, markers: Vec<JoinMarker>) {
    for marker in markers {
        match marker {
            JoinMarker::Regray { slot, reveal } => slots[slot].reveal = Some(reveal),
            JoinMarker::Spawn { owner, reveal } => {
                slots.push(Slot { owner, player: None, count: 0, reveal: Some(reveal) });
            }
        }
    }
}

#[test]
fn spawn_pending_join_test_usage() {
    let mut gate = JoinGate::default();
    arm(&mut gate, "peer-2", 2);
    let mut slots: Vec<Slot> = Vec::new();
    for _ in 0..2 {
        let markers = spawn_pending_join(&slots, &gate, &vec![20], 1);
        apply(&mut slots, markers);
    }
    assert_eq!(slots.iter().filter(|slot| slot.reveal.is_some()).count(), 1, "pending joiner gains a gray marker");
    assert_eq!(slots[0].owner, 20);
}

#[test]
fn existing_own_cursor_is_regrayed_not_duplicated() {
    let mut gate = JoinGate::default();
    arm(&mut gate, "self-1", 1);
    let mut slots = vec![Slot { owner: 1, player: Some(1), count: 7, reveal: None }];
    let markers = spawn_pending_join(&slots, &gate, &vec![77], 1);
    assert_eq!(
        markers,
        vec![JoinMarker::Regray { slot: 0, reveal: PendingReveal { reveal_at: 5_000, fail_at: 30_000, player: Some(1) } }]
    );
    apply(&mut slots, markers);
    assert_eq!(slots.len(), 1, "one cursor, not a duplicate");
}

#[test]
fn already_armed_is_idempotent() {
    let mut gate = JoinGate::default();
    arm(&mut gate, "peer-2", 2);
    let mut slots: Vec<Slot> = Vec::new();
    for _ in 0..2 {
        let markers = spawn_pending_join(&slots, &gate, &vec![20], 1);
        apply(&mut slots, markers);
    }
    assert_eq!(slots.iter().filter(|slot| slot.reveal.is_some()).count(), 1);
}

#[test]
fn subscribe_roster_test_usage() {
    let commands = subscribe_roster(&ActiveLobby("alpha".to_string()));
    assert_eq!(commands.len(), 2);
    assert_eq!(commands[0], Command::Subscribe { topic: "clicker/alpha/roster".to_string() });
    assert_eq!(commands[1], Command::Subscribe { topic: "clicker/alpha/click".to_string() });
}
