use clicker::digest::roster_key;
use clicker::lobby::JoinGate;
use clicker::model::{ActiveLobby, Peer};
use clicker::systems::absorb_join_commit::absorb_join_commit;
use clicker::systems::absorb_roster::{absorb_roster, PeerEntry};
use clicker::topics::gossip_roster_topic;
use clicker::wire::{Command, CursorMsg, Event, RosterEdit};

fn peer(name: &str, id: u64) -> Peer {
    Peer { name: name.to_string(), id }
}

fn commit(from: &str, from_id: u64, room: &str, joiner: u64) -> Event {
    Event::Message {
        from: peer(from, from_id),
        payload: CursorMsg::JoinCommit { room: room.to_string(), joiner, starts_in_ms: 5_000 },
    }
}

#[test]
fn absorb_join_commit_test_usage() {
    let lobby = ActiveLobby("alpha".to_string());
    let mut gate = JoinGate::default();
    let rest = absorb_join_commit(vec![commit("peer-9", 90, "alpha", 9)], &lobby, &mut gate, 1, 1_000);
    assert!(gate.has_pending(9), "commit arms the joiner");
    assert!(rest.is_empty(), "the commit is consumed");
    assert_eq!(gate.pending[0].peer, "peer-9");
    assert_eq!(gate.pending[0].reveal_at, 6_000);
    assert_eq!(gate.pending[0].fail_at, 31_000);
}

#[test]
fn own_commit_ignored() {
    let lobby = ActiveLobby("alpha".to_string());
    let mut gate = JoinGate::default();
    absorb_join_commit(vec![commit("peer-1", 10, "alpha", 1)], &lobby, &mut gate, 1, 1_000);
    assert!(gate.pending.is_empty(), "our own commit is not re-armed from the wire");
}

#[test]
fn wrong_room_commit_dropped() {
    let lobby = ActiveLobby("alpha".to_string());
    let mut gate = JoinGate::default();
    absorb_join_commit(vec![commit("peer-9", 90, "beta", 9)], &lobby, &mut gate, 1, 1_000);
    assert_eq!(gate.pending.len(), 0);
}

#[test]
fn recommit_replaces_the_earlier_pending_join() {
    let lobby = ActiveLobby("alpha".to_string());
    let mut gate = JoinGate::default();
    absorb_join_commit(vec![commit("peer-9", 90, "alpha", 9)], &lobby, &mut gate, 1, 1_000);
    absorb_join_commit(vec![commit("peer-9", 90, "alpha", 9)], &lobby, &mut gate, 1, 2_000);
    assert_eq!(gate.pending.len(), 1);
    assert_eq!(gate.pending[0].reveal_at, 7_000);
}

fn entry(peer_id: &str, updated_at: u64) -> PeerEntry {
    PeerEntry { peer_id: peer_id.to_string(), addrs: vec!["/ip4/127.0.0.1/tcp/4001".to_string()], updated_at }
}

fn roster_gossip(lobby: &ActiveLobby) -> Event {
    Event::Gossip { topic: gossip_roster_topic(lobby), from: peer("peer-2", 20), data: vec![1], decoded: None }
}

#[test]
fn absorb_roster_test_usage() {
    let lobby = ActiveLobby("alpha".to_string());
    let mut dialed: Vec<u64> = Vec::new();
    let mut presence: Vec<String> = Vec::new();
    let states = vec![vec![(3u64, entry("peer-3", u64::MAX))]];
    let (rest, edits, commands) =
        absorb_roster(vec![roster_gossip(&lobby)], &states, &lobby, 1, &Vec::new(), &mut dialed, &mut presence, 1_000);
    assert!(rest.is_empty());
    assert_eq!(commands.len(), 1);
    assert_eq!(edits.len(), 1);
    assert_eq!(
        edits[0],
        RosterEdit::Add { room: "alpha".to_string(), key: roster_key(&"peer-3".to_string()), peer: "peer-3".to_string() }
    );
    let members = vec!["peer-3".to_string()];
    let (_, edits2, commands2) =
        absorb_roster(Vec::new(), &Vec::new(), &lobby, 1, &members, &mut dialed, &mut presence, 1_001);
    assert!(commands2.is_empty());
    assert!(edits2.is_empty());
}

#[test]
fn connected_peer_never_redialed() {
    let lobby = ActiveLobby("alpha".to_string());
    let now = 1_700_000_000u64;
    let mut dialed: Vec<u64> = Vec::new();
    let mut presence: Vec<String> = Vec::new();
    let (_, _, first) = absorb_roster(
        vec![roster_gossip(&lobby)],
        &vec![vec![(3u64, entry("peer-3", now))]],
        &lobby,
        1,
        &Vec::new(),
        &mut dialed,
        &mut presence,
        now,
    );
    assert_eq!(first.len(), 1);
    assert!(matches!(&first[0], Command::Dial { peer_id, .. } if peer_id == "peer-3"));
    let members = vec!["peer-3".to_string()];
    let (rest, _, second) = absorb_roster(
        vec![Event::PeerConnected(peer("peer-3", 30))],
        &vec![Vec::new()],
        &lobby,
        1,
        &members,
        &mut dialed,
        &mut presence,
        now,
    );
    assert_eq!(rest.len(), 1);
    assert!(second.is_empty());
    let (_, _, third) = absorb_roster(
        vec![roster_gossip(&lobby)],
        &vec![vec![(3u64, entry("peer-3", now.saturating_add(100)))]],
        &lobby,
        1,
        &members,
        &mut dialed,
        &mut presence,
        now,
    );
    assert_eq!(first.len() + second.len() + third.len(), 1);
}

#[test]
fn stale_or_own_entries_are_not_dialed() {
    let lobby = ActiveLobby("alpha".to_string());
    let mut dialed: Vec<u64> = Vec::new();
    let mut presence: Vec<String> = Vec::new();
    let (_, edits, commands) = absorb_roster(
        vec![roster_gossip(&lobby)],
        &vec![vec![(1u64, entry("me", 1_000)), (4u64, entry("peer-4", 100))]],
        &lobby,
        1,
        &Vec::new(),
        &mut dialed,
        &mut presence,
        1_000,
    );
    assert!(commands.is_empty());
    assert!(edits.is_empty());
}
