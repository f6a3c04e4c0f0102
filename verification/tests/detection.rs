use group_membership::heartbeat::{
    failure_detection, non_leader_heartbeat_monitor, HeartbeatTable, HEARTBEAT_TIMEOUT,
    SUSPICION_AFTER,
};
use group_membership::identity::UserInfo;
use group_membership::locator::{find_leader, probe_order, LeaderSearch};
use group_membership::view::PeerState;

fn user(name: &str, id: u32) -> UserInfo {
    UserInfo { name: name.to_string(), id }
}

fn abc() -> Vec<UserInfo> {
    vec![user("A", 1), user("B", 2), user("C", 3)]
}

#[test]
fn suspicion_comes_after_twice_the_heartbeat_interval() {
    assert_eq!(SUSPICION_AFTER, 2 * HEARTBEAT_TIMEOUT * 1000);
}

#[test]
fn table_starts_with_every_other_peer_heard_now() {
    let t = HeartbeatTable::new(&abc(), 2, 50);
    assert_eq!(t.last_seen(1), Some(50));
    assert_eq!(t.last_seen(2), None);
    assert_eq!(t.last_seen(3), Some(50));
    assert_eq!(t.last_seen(4), None);
}

#[test]
fn heartbeat_resets_the_timer() {
    let mut t = HeartbeatTable::new(&abc(), 1, 0);
    assert!(!t.is_overdue(2, 6000));
    assert!(t.is_overdue(2, 6001));
    assert_eq!(t.failure_listener("HEARTBEAT:2\n", 6001), Some("ALIVE".to_string()));
    assert_eq!(t.last_seen(2), Some(6001));
    assert!(!t.is_overdue(2, 12001));
    assert!(t.is_overdue(2, 12002));
}

#[test]
fn heartbeat_of_an_unlisted_peer_is_recorded() {
    let mut t = HeartbeatTable::new(&abc(), 1, 0);
    assert_eq!(t.failure_listener("HEARTBEAT:9", 10), Some("ALIVE".to_string()));
    assert_eq!(t.last_seen(9), Some(10));
}

#[test]
fn unreadable_heartbeat_is_answered_and_not_recorded() {
    let mut t = HeartbeatTable::new(&abc(), 1, 0);
    assert_eq!(t.failure_listener("HEARTBEAT:x", 10), Some("ALIVE".to_string()));
    assert_eq!(t.failure_listener("HEARTBEAT:2:3", 10), Some("ALIVE".to_string()));
    assert_eq!(t.last_seen(2), Some(0));
}

#[test]
fn other_datagrams_get_no_answer() {
    let mut t = HeartbeatTable::new(&abc(), 1, 0);
    assert_eq!(t.failure_listener("HEARTBEAT", 10), None);
    assert_eq!(t.failure_listener(" HEARTBEAT:2", 10), None);
    assert_eq!(t.failure_listener("ALIVE", 10), None);
    assert_eq!(t.last_seen(2), Some(0));
}

#[test]
fn clock_that_runs_backwards_raises_no_suspicion() {
    let t = HeartbeatTable::new(&abc(), 1, 10_000);
    assert!(!t.is_overdue(2, 0));
}

#[test]
fn peer_never_heard_is_not_overdue() {
    let t = HeartbeatTable::new(&abc(), 1, 0);
    assert!(!t.is_overdue(1, u64::MAX));
    assert!(!t.is_overdue(8, u64::MAX));
}

#[test]
fn probe_answer_begins_with_alive() {
    assert!(failure_detection("ALIVE", true));
    assert!(failure_detection("ALIVE\n", true));
    assert!(!failure_detection("alive", true));
    assert!(!failure_detection(" ALIVE", true));
    assert!(!failure_detection("HEARTBEAT:1", true));
    assert!(!failure_detection("", true));
}

#[test]
fn answer_of_another_host_does_not_speak_for_the_probed_one() {
    assert!(!failure_detection("ALIVE", false));
    assert!(!failure_detection("HEARTBEAT:1", false));
}

#[test]
fn passive_monitor_reports_overdue_members_of_its_view() {
    let mut t = HeartbeatTable::new(&abc(), 2, 0);
    t.failure_listener("HEARTBEAT:3", 5000);
    let cached = PeerState::from_ids(2, &vec![1, 2, 3]);
    assert!(non_leader_heartbeat_monitor(&cached, &t, 2, 1, 6000).is_empty());
    assert_eq!(
        non_leader_heartbeat_monitor(&cached, &t, 2, 1, 6001),
        vec!["{peer_id: 2, view_id: 0, leader: 1, message:\"peer 1 (leader) unreachable\"}".to_string()]
    );
    assert_eq!(
        non_leader_heartbeat_monitor(&cached, &t, 2, 1, 11001),
        vec![
            "{peer_id: 2, view_id: 0, leader: 1, message:\"peer 1 (leader) unreachable\"}".to_string(),
            "{peer_id: 2, view_id: 0, leader: 1, message:\"peer 3 unreachable\"}".to_string(),
        ]
    );
}

#[test]
fn passive_monitor_passes_over_peers_outside_its_view() {
    let t = HeartbeatTable::new(&abc(), 2, 0);
    let cached = PeerState::from_ids(1, &vec![1, 2]);
    assert_eq!(non_leader_heartbeat_monitor(&cached, &t, 2, 1, 9000).len(), 1);
}

#[test]
fn lowest_reachable_identifier_leads() {
    assert_eq!(find_leader(&abc(), &vec![1, 3]), Some(user("A", 1)));
    assert_eq!(find_leader(&abc(), &vec![3]), Some(user("C", 3)));
    assert_eq!(find_leader(&abc(), &vec![3, 2]), Some(user("B", 2)));
    assert_eq!(find_leader(&abc(), &vec![]), None);
    assert_eq!(find_leader(&abc(), &vec![7]), None);
    assert_eq!(find_leader(&vec![], &vec![1]), None);
}

#[test]
fn leader_does_not_depend_on_registry_order() {
    let shuffled = vec![user("C", 3), user("A", 1), user("B", 2)];
    assert_eq!(find_leader(&shuffled, &vec![1, 2, 3]), Some(user("A", 1)));
    assert_eq!(find_leader(&shuffled, &vec![2, 3]), Some(user("B", 2)));
}

#[test]
fn candidates_are_probed_by_ascending_identifier() {
    let peers = vec![user("d", 4), user("b", 2), user("c", 3), user("a", 1), user("b2", 2)];
    assert_eq!(
        probe_order(&peers),
        vec![user("a", 1), user("b", 2), user("b2", 2), user("c", 3), user("d", 4)]
    );
    assert_eq!(probe_order(&abc()), abc());
    assert!(probe_order(&vec![]).is_empty());
}

#[test]
fn search_moves_on_until_a_candidate_answers() {
    let mut s = LeaderSearch::new(&vec![user("C", 3), user("A", 1), user("B", 2)]);
    assert_eq!(s.current(), Some(user("A", 1)));
    s.failed();
    assert_eq!(s.current(), Some(user("B", 2)));
    assert_eq!(s.current(), Some(user("B", 2)));
    s.failed();
    assert_eq!(s.current(), Some(user("C", 3)));
    s.failed();
    assert_eq!(s.current(), None);
    s.failed();
    assert_eq!(s.current(), None);
}
