use group_membership::report::{unreachable_line, view_change_line};

#[test]
fn view_change_is_reported() {
    assert_eq!(
        view_change_line(2, 1, 1, &vec![1, 2]),
        "{peer_id: 2, view_id: 1, leader: 1, memb_list: [1,2]}"
    );
    assert_eq!(view_change_line(1, 0, 1, &vec![]), "{peer_id: 1, view_id: 0, leader: 1, memb_list: []}");
}

#[test]
fn unreachable_peer_is_reported() {
    assert_eq!(
        unreachable_line(1, 2, 1, 3),
        "{peer_id: 1, view_id: 2, leader: 1, message:\"peer 3 unreachable\"}"
    );
}

#[test]
fn unreachable_leader_is_marked() {
    assert_eq!(
        unreachable_line(2, 0, 1, 1),
        "{peer_id: 2, view_id: 0, leader: 1, message:\"peer 1 (leader) unreachable\"}"
    );
}
