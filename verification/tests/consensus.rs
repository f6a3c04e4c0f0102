use group_membership::paxos::{
    acceptor_reply, assign_role, fresh_state, is_promise, learn_accept, Assignment, PaxosMessage,
    PaxosState, Role,
};

fn message(kind: &str, value: &str, n: u32) -> PaxosMessage {
    PaxosMessage {
        peer_id: 1,
        action: "sent".to_string(),
        message_type: kind.to_string(),
        message_value: value.to_string(),
        proposal_num: n,
    }
}

#[test]
fn prepare_is_promised_and_echoes_the_value() {
    let mut s = fresh_state();
    let r = acceptor_reply(&mut s, 2, &message("prepare", "X", 1));
    assert_eq!(
        r,
        PaxosMessage {
            peer_id: 2,
            action: "sent".to_string(),
            message_type: "prepare_ack".to_string(),
            message_value: "X".to_string(),
            proposal_num: 1,
        }
    );
    assert!(is_promise(&r));
    assert_eq!(s, PaxosState { promised_proposal: 1, accepted_proposal: None, accepted_value: None });
}

#[test]
fn lower_prepare_is_rejected() {
    let mut s = PaxosState { promised_proposal: 5, accepted_proposal: None, accepted_value: None };
    let r = acceptor_reply(&mut s, 2, &message("prepare", "X", 4));
    assert_eq!(r.message_type, "reject_prepare");
    assert_eq!(r.message_value, "X");
    assert!(!is_promise(&r));
    assert_eq!(s.promised_proposal, 5);
}

#[test]
fn accept_is_taken_at_or_above_the_promise() {
    let mut s = PaxosState { promised_proposal: 3, accepted_proposal: None, accepted_value: None };
    let r = acceptor_reply(&mut s, 2, &message("accept", "Y", 3));
    assert_eq!(r.message_type, "accept_ack");
    assert_eq!(r.message_value, "Y");
    assert_eq!(r.proposal_num, 3);
    assert_eq!(
        s,
        PaxosState {
            promised_proposal: 3,
            accepted_proposal: Some(3),
            accepted_value: Some("Y".to_string()),
        }
    );
}

#[test]
fn lower_accept_is_rejected_and_answered_with_what_is_held() {
    let mut s = PaxosState {
        promised_proposal: 3,
        accepted_proposal: Some(3),
        accepted_value: Some("Y".to_string()),
    };
    let r = acceptor_reply(&mut s, 2, &message("accept", "Z", 2));
    assert_eq!(r.message_type, "reject_accept");
    assert_eq!(r.message_value, "Y");
    assert_eq!(s.accepted_value, Some("Y".to_string()));
    let p = acceptor_reply(&mut s, 2, &message("prepare", "Z", 9));
    assert_eq!(p.message_type, "prepare_ack");
    assert_eq!(p.message_value, "Y");
    assert_eq!(s.promised_proposal, 9);
}

#[test]
fn rejected_accept_without_a_value_answers_nothing() {
    let mut s = PaxosState { promised_proposal: 3, accepted_proposal: None, accepted_value: None };
    let r = acceptor_reply(&mut s, 2, &message("accept", "Z", 2));
    assert_eq!(r.message_value, "");
}

#[test]
fn other_kinds_are_unknown() {
    let mut s = fresh_state();
    let r = acceptor_reply(&mut s, 2, &message("chose", "Z", 2));
    assert_eq!(r.message_type, "unknown");
    assert_eq!(r.message_value, "");
    assert_eq!(s, fresh_state());
}

#[test]
fn proposer_learns_from_higher_acknowledgements() {
    let mut s = fresh_state();
    learn_accept(&mut s, &message("accept_ack", "A", 1));
    assert_eq!(s.accepted_proposal, Some(1));
    assert_eq!(s.accepted_value, Some("A".to_string()));
    learn_accept(&mut s, &message("accept_ack", "B", 1));
    assert_eq!(s.accepted_value, Some("A".to_string()));
    learn_accept(&mut s, &message("reject_accept", "C", 5));
    assert_eq!(s.accepted_value, Some("A".to_string()));
    learn_accept(&mut s, &message("accept_ack", "D", 2));
    assert_eq!(s.accepted_proposal, Some(2));
    assert_eq!(s.accepted_value, Some("D".to_string()));
}

const HOSTS: &str = "peer1:proposer1\npeer2:acceptor1\n\npeer3:acceptor1,acceptor2\npeer4:proposer2, acceptor3\npeer5:learner1\n";

#[test]
fn proposer_finds_its_acceptors() {
    assert_eq!(
        assign_role(HOSTS, "peer1"),
        Assignment {
            id: 1,
            role: Role::Proposer,
            partners: vec!["peer2".to_string(), "peer3".to_string()],
        }
    );
    assert_eq!(
        assign_role(HOSTS, "peer4"),
        Assignment { id: 4, role: Role::Proposer, partners: vec!["peer3".to_string()] }
    );
}

#[test]
fn acceptor_finds_its_proposers() {
    assert_eq!(
        assign_role(HOSTS, "peer3"),
        Assignment {
            id: 3,
            role: Role::Acceptor,
            partners: vec!["peer1".to_string(), "peer4".to_string()],
        }
    );
}

#[test]
fn anyone_else_learns() {
    assert_eq!(
        assign_role(HOSTS, "peer5"),
        Assignment { id: 5, role: Role::Learner, partners: vec![] }
    );
    assert_eq!(
        assign_role(HOSTS, "stranger"),
        Assignment { id: 0, role: Role::Learner, partners: vec![] }
    );
    assert_eq!(assign_role("", "peer1"), Assignment { id: 0, role: Role::Learner, partners: vec![] });
}

#[test]
fn role_without_a_number_does_not_count() {
    assert_eq!(
        assign_role("a:proposer\nb:acceptor", "a"),
        Assignment { id: 1, role: Role::Learner, partners: vec![] }
    );
}

#[test]
fn partners_come_in_ascending_order() {
    let hosts = "zeta:acceptor1\nme:proposer1\nbeta:acceptor1\nalpha:acceptor1\nbet:acceptor1";
    assert_eq!(
        assign_role(hosts, "me").partners,
        vec!["alpha".to_string(), "bet".to_string(), "beta".to_string(), "zeta".to_string()]
    );
}

#[test]
fn lines_without_a_colon_count_but_name_nobody() {
    assert_eq!(assign_role("header\n me : proposer7 \nx:acceptor7", "me").id, 2);
    assert_eq!(assign_role("header\n me : proposer7 \nx:acceptor7", "me").partners, vec!["x".to_string()]);
}
