use clicker::digest::roster_key;
use clicker::idset::{contains_name, remove_name};
use clicker::lobby::{JoinGate, PendingJoin};
use clicker::text::{i32_to_string, join_ids, u64_to_string};
use clicker::tombstones::ScoreTombstones;
use clicker::topics::{click_topic, gossip_roster_topic, pos_topic};
use clicker::model::ActiveLobby;

#[test]
fn roster_key_is_the_blake3_digest_of_the_name() {
    let key = roster_key(&"peer-3".to_string());
    assert_eq!(key, *blake3::hash(b"peer-3").as_bytes());
    assert_ne!(key, roster_key(&"peer-4".to_string()));
    assert_ne!(&key[..6], b"peer-3");
}

#[test]
fn decimal_texts() {
    assert_eq!(u64_to_string(0), "0");
    assert_eq!(u64_to_string(18_446_744_073_709_551_615), "18446744073709551615");
    assert_eq!(i32_to_string(-45), "-45");
    assert_eq!(i32_to_string(i32::MIN), "-2147483648");
    assert_eq!(join_ids(&vec![]), "");
    assert_eq!(join_ids(&vec![3, 10, 200]), "3,10,200");
}

#[test]
fn topics_of_a_lobby() {
    let lobby = ActiveLobby("alpha".to_string());
    assert_eq!(pos_topic(&lobby), "clicker/alpha/pos");
    assert_eq!(click_topic(&lobby), "clicker/alpha/click");
    assert_eq!(gossip_roster_topic(&lobby), "clicker/alpha/roster");
}

#[test]
fn keep_then_restore_gives_the_score_back() {
    let mut tombstones = ScoreTombstones::default();
    tombstones.keep(4, 1);
    let before = tombstones.iter().clone();
    tombstones.keep(9, 5);
    assert_eq!(tombstones.get(9), Some(5));
    assert_eq!(tombstones.restore(9), Some(5));
    assert_eq!(*tombstones.iter(), before);
    assert_eq!(tombstones.restore(9), None);
}

#[test]
fn keep_never_lowers_a_kept_score() {
    let mut tombstones = ScoreTombstones::default();
    tombstones.keep(9, 5);
    tombstones.keep(9, 3);
    assert_eq!(tombstones.get(9), Some(5));
    tombstones.keep(9, 8);
    assert_eq!(tombstones.get(9), Some(8));
    assert_eq!(tombstones.iter().len(), 1);
}

#[test]
fn arming_twice_keeps_one_join_per_peer() {
    let mut gate = JoinGate::default();
    gate.arm_pending(PendingJoin { peer: "a".to_string(), joiner: 1, reveal_at: 5, fail_at: 9 });
    gate.arm_pending(PendingJoin { peer: "b".to_string(), joiner: 2, reveal_at: 5, fail_at: 9 });
    gate.arm_pending(PendingJoin { peer: "a".to_string(), joiner: 1, reveal_at: 7, fail_at: 9 });
    assert_eq!(gate.pending.len(), 2);
    assert_eq!(gate.pending[0].peer, "b");
    assert_eq!(gate.pending[1].reveal_at, 7);
    assert!(gate.has_pending(2));
    assert!(!gate.has_pending(3));
}

#[test]
fn due_joins_leave_in_order_and_the_rest_waits() {
    let mut gate = JoinGate::default();
    for (peer, at) in [("a", 5u64), ("b", 50), ("c", 7)] {
        gate.arm_pending(PendingJoin { peer: peer.to_string(), joiner: at, reveal_at: at, fail_at: 100 });
    }
    let due = gate.take_due_pending(10);
    assert_eq!(due.iter().map(|p| p.peer.as_str()).collect::<Vec<_>>(), vec!["a", "c"]);
    assert_eq!(gate.pending.len(), 1);
    assert_eq!(gate.pending[0].peer, "b");
}

#[test]
fn names_are_removed_everywhere() {
    let mut names = vec!["a".to_string(), "b".to_string(), "a".to_string()];
    remove_name(&mut names, &"a".to_string());
    assert_eq!(names, vec!["b".to_string()]);
    assert!(contains_name(&names, &"b".to_string()));
    assert!(!contains_name(&names, &"a".to_string()));
}
