use group_membership::member::{join_reply, JoinError};
use group_membership::view::ViewParseError;

#[test]
fn unanswered_join_reports_the_leader() {
    match join_reply(2, 1, None) {
        Err(JoinError::Unanswered { notice }) => assert_eq!(
            notice,
            "{peer_id: 2, view_id: 0, leader: 1, message:\"peer 1 (leader) unreachable\"}"
        ),
        other => panic!("{:?}", other),
    }
}

#[test]
fn answer_must_announce_a_view() {
    assert_eq!(join_reply(2, 1, Some("")), Err(JoinError::NotNewView));
    assert_eq!(join_reply(2, 1, Some("OK:1:1\n")), Err(JoinError::NotNewView));
    assert_eq!(join_reply(2, 1, Some("NEWVIEW")), Err(JoinError::NotNewView));
}

#[test]
fn announced_view_must_be_readable() {
    assert_eq!(
        join_reply(2, 1, Some("NEWVIEW:1\n")),
        Err(JoinError::Malformed(ViewParseError::ExpectedList))
    );
    assert_eq!(
        join_reply(2, 1, Some("NEWVIEW:x:1,2\n")),
        Err(JoinError::Malformed(ViewParseError::BadViewId))
    );
    assert_eq!(
        join_reply(2, 1, Some("NEWVIEW:1:1,two\n")),
        Err(JoinError::Malformed(ViewParseError::BadListedId))
    );
}

#[test]
fn joiner_adopts_the_announced_view() {
    let j = join_reply(3, 1, Some("  NEWVIEW:2:1,2,3\n")).unwrap();
    assert_eq!(j.member.local_id, 3);
    assert_eq!(j.member.leader, 1);
    assert_eq!(j.member.cached.view_id, 2);
    assert_eq!(j.member.cached.member_ids(), vec![1, 2, 3]);
    assert_eq!(j.report, "{peer_id: 3, view_id: 2, leader: 1, memb_list: [1,2,3]}");
}

#[test]
fn joiner_reads_the_announced_view_in_either_form() {
    let j = join_reply(2, 1, Some("NEWVIEW:view_id=4;membership=a:1,b:2\n")).unwrap();
    assert_eq!(j.member.cached.view_id, 4);
    assert_eq!(j.member.cached.member_ids(), vec![1, 2]);
}
