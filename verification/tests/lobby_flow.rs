use std::collections::HashMap;

use clicker::lobby::{JoinClock, JoinGate, JoinPending, SyncedPeer};
use clicker::model::{ActiveLobby, Peer, Slot};
use clicker::systems::answer_join::answer_join;
use clicker::systems::decide_join_commit::decide_join_commit;
use clicker::systems::despawn_on_leave::despawn_on_leave;
use clicker::systems::leave_ctx::LeaveCtx;
use clicker::tombstones::ScoreTombstones;
use clicker::wire::{Command, CursorMsg, Event};

fn peer(name: &str, id: u64) -> Peer {
    Peer { name: name.to_string(), id }
}

fn want(room: &str) -> Event {
    Event::Message { from: peer("peer-9", 90), payload: CursorMsg::WantJoin { room: room.to_string() } }
}

fn own_slot() -> Vec<Slot> {
    vec![Slot { owner: 1, player: None, count: 4, reveal: None }]
}

#[test]
fn answer_join_test_usage() {
    let lobby = ActiveLobby("alpha".to_string());
    let (rest, commands) = answer_join(vec![want("alpha")], &lobby, &Vec::new(), 1, &own_slot());
    assert_eq!(commands.len(), 1);
    assert!(
        commands.iter().any(|command| matches!(
            command,
            Command::Send { peer_id, payload }
                if peer_id == "peer-9"
                    && matches!(
                        payload,
                        CursorMsg::Welcome { room, own_score, joining, .. }
                            if room == "alpha" && *own_score == (1, 4) && joining.is_empty()
                    )
        )),
        "join request draws a welcome carrying our own authoritative score"
    );
    assert!(rest.is_empty(), "the join request is consumed");
}

#[test]
fn welcome_never_advertises_the_requester() {
    let lobby = ActiveLobby("alpha".to_string());
    let members = vec!["peer-9".to_string(), "peer-8".to_string()];
    let (_, commands) = answer_join(vec![want("alpha")], &lobby, &members, 1, &own_slot());
    let peers = commands
        .iter()
        .find_map(|command| match command {
            Command::Send { payload: CursorMsg::Welcome { peers, .. }, .. } => Some(peers.clone()),
            _ => None,
        })
        .unwrap_or_default();
    assert!(!peers.contains(&"peer-9".to_string()), "no self echo: {peers:?}");
    assert!(peers.contains(&"peer-8".to_string()));
}

#[test]
fn wrong_room_want_dropped() {
    let lobby = ActiveLobby("alpha".to_string());
    let (rest, commands) = answer_join(vec![want("beta")], &lobby, &Vec::new(), 1, &own_slot());
    assert!(commands.is_empty(), "join request for another room draws no welcome");
    assert!(rest.is_empty());
}

fn gate(expected: Vec<&str>, synced: Vec<&str>) -> JoinGate {
    JoinGate {
        expected: Some(expected.into_iter().map(str::to_string).collect()),
        synced: synced.into_iter().map(|peer| SyncedPeer(peer.to_string())).collect(),
        committed: false,
        pending: Vec::new(),
        absent: Vec::new(),
    }
}

fn clock(now: u64) -> JoinClock {
    JoinClock { clicked_at: Some(now), last_new_peer: None }
}

#[test]
fn decide_join_commit_test_usage() {
    let lobby = ActiveLobby("alpha".to_string());
    let _loading = JoinPending(Some("alpha".to_string()));
    let mut g = gate(vec!["peer-2", "peer-3"], vec!["peer-2", "peer-3"]);
    let command = decide_join_commit(&mut g, &clock(1_000), &lobby, 1, 1_000);
    assert!(g.has_pending(1), "all peers acked, own reveal armed");
    assert!(
        matches!(&command, Some(Command::Publish { payload: CursorMsg::JoinCommit { .. }, .. })),
        "commit is broadcast"
    );
    assert_eq!(g.pending[0].peer, "self-1");
    assert_eq!(g.pending[0].reveal_at, 4_000);
}

#[test]
fn waits_while_a_peer_is_silent() {
    let lobby = ActiveLobby("alpha".to_string());
    let mut g = gate(vec!["peer-2", "peer-3"], vec!["peer-2"]);
    let command = decide_join_commit(&mut g, &clock(1_000), &lobby, 1, 1_000);
    assert_eq!(g.pending.len(), 0);
    assert!(command.is_none(), "no commit while a peer is still silent");
}

#[test]
fn commits_once_not_twice() {
    let lobby = ActiveLobby("alpha".to_string());
    let mut g = gate(vec!["peer-2"], vec!["peer-2"]);
    let first = decide_join_commit(&mut g, &clock(1_000), &lobby, 1, 1_000);
    let second = decide_join_commit(&mut g, &clock(1_000), &lobby, 1, 1_016);
    assert_eq!(first.iter().count() + second.iter().count(), 1, "commit is broadcast once");
}

#[test]
fn commits_after_join_pending_cleared() {
    let lobby = ActiveLobby("alpha".to_string());
    let _cleared = JoinPending::default();
    let mut g = gate(Vec::new(), Vec::new());
    decide_join_commit(&mut g, &clock(1_000), &lobby, 1, 1_000);
    assert!(g.committed, "the commit still fires after the loading gate cleared");
}

#[test]
fn commit_cap_overrides_a_silent_peer() {
    let lobby = ActiveLobby("alpha".to_string());
    let mut g = gate(vec!["peer-2"], Vec::new());
    assert!(decide_join_commit(&mut g, &clock(1_000), &lobby, 1, 10_999).is_none());
    assert!(decide_join_commit(&mut g, &clock(1_000), &lobby, 1, 11_000).is_some());
}

fn leave_ctx(now: u64) -> LeaveCtx {
    LeaveCtx {
        lobby: ActiveLobby("alpha".to_string()),
        own: 1,
        tombstones: ScoreTombstones::default(),
        now,
        absent: HashMap::new(),
    }
}

#[test]
fn despawn_on_leave_test_usage() {
    let slots = vec![
        Slot { owner: 1, player: None, count: 0, reveal: None },
        Slot { owner: 9, player: None, count: 0, reveal: None },
    ];
    let mut ctx = leave_ctx(0);
    let despawned = despawn_on_leave(&slots, &Vec::new(), &mut ctx);
    assert_eq!(despawned, vec![1]);
    assert_eq!(slots.len() - despawned.len(), 1);
}

#[test]
fn labeled_slot_survives_transient_roster_absence() {
    let slots = vec![Slot { owner: 9, player: Some(3), count: 7, reveal: None }];
    let mut ctx = leave_ctx(0);
    let first = despawn_on_leave(&slots, &Vec::new(), &mut ctx);
    assert!(first.is_empty(), "labeled slot survives transient roster absence");
    let mut gone = false;
    for second in 1..=70u64 {
        ctx.now = second * 1_000;
        if !despawn_on_leave(&slots, &Vec::new(), &mut ctx).is_empty() {
            gone = true;
            break;
        }
    }
    assert!(gone, "labeled slot despawned after sustained absence");
    assert_eq!(ctx.tombstones.get(3), Some(7), "the leaver's score is kept");
}

#[test]
fn present_member_keeps_its_cursor() {
    let slots = vec![Slot { owner: 9, player: None, count: 0, reveal: None }];
    let mut ctx = leave_ctx(0);
    let despawned = despawn_on_leave(&slots, &vec![peer("peer-9", 9)], &mut ctx);
    assert!(despawned.is_empty());
}
