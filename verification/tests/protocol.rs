use group_membership::heartbeat::{
    conclude_deletion, heartbeat_round, initiate_deletion, leader_heartbeat_monitor,
    HeartbeatTable, PendingRemovals,
};
use group_membership::identity::UserInfo;
use group_membership::leader::{
    join_listener_leader, run_round, JoinHandling, JoinStep, Outcome, PendingRound, Proposal,
    Refusal, ViewStore, LEADER_ID,
};
use group_membership::member::{
    join_reply, join_request, join_start, route_connection, Entry, Handler, Member, Reaction,
};
use group_membership::message::{Message, Operation};
use group_membership::view::PeerState;

fn user(name: &str, id: u32) -> UserInfo {
    UserInfo { name: name.to_string(), id }
}

fn registry() -> Vec<UserInfo> {
    vec![user("host1", 1), user("host2", 2), user("host3", 3)]
}

/// Leader host1 with host2 already in the view, and host2's own state.
fn two_members() -> (ViewStore, Member) {
    let mut store = ViewStore::new(user("host1", 1));
    let line = match store.join(user("host2", 2)) {
        JoinStep::Committed(a) => a.line,
        other => panic!("{:?}", other),
    };
    let joined = join_reply(2, 1, Some(&line)).unwrap();
    (store, joined.member)
}

/// The three processes after host3 has joined as well.
fn three_members() -> (ViewStore, Member, Member) {
    let (mut store, mut host2) = two_members();
    let proposal = match store.join(user("host3", 3)) {
        JoinStep::Proposed(p) => p,
        other => panic!("{:?}", other),
    };
    let mut round = proposal.round;
    let reply = match host2.handle_line(&proposal.request) {
        Reaction::Reply { line, .. } => line,
        other => panic!("{:?}", other),
    };
    round.record(2, Some(&reply));
    let a = match store.resolve(&round) {
        Outcome::Committed(a) => a,
        other => panic!("{:?}", other),
    };
    host2.handle_line(&a.line);
    let host3 = join_reply(3, 1, Some(&a.line)).unwrap().member;
    (store, host2, host3)
}

#[test]
fn leader_starts_with_view_zero() {
    let store = ViewStore::new(user("host1", 1));
    assert_eq!(store.leader(), 1);
    assert_eq!(store.view(), &PeerState { view_id: 0, membership: vec![user("host1", 1)], req_counter: 0 });
}

#[test]
fn first_join_commits_without_a_round() {
    let mut store = ViewStore::new(user("host1", 1));
    assert_eq!(join_request(2), "JOIN:2\n");
    let a = match store.join(user("host2", 2)) {
        JoinStep::Committed(a) => a,
        other => panic!("{:?}", other),
    };
    assert_eq!(a.view_id, 1);
    assert_eq!(a.members, vec![1, 2]);
    assert_eq!(a.line, "NEWVIEW:1:1,2\n");
    assert_eq!(a.reply_to, Some(user("host2", 2)));
    assert!(a.recipients.is_empty());
    assert_eq!(a.report, "{peer_id: 1, view_id: 1, leader: 1, memb_list: [1,2]}");
    assert_eq!(store.view().view_id, 1);
    assert_eq!(store.view().membership, vec![user("host1", 1), user("host2", 2)]);
    assert_eq!(store.view().req_counter, 0);

    let joined = join_reply(2, 1, Some(&a.line)).unwrap();
    assert_eq!(joined.report, "{peer_id: 2, view_id: 1, leader: 1, memb_list: [1,2]}");
    assert_eq!(joined.member.cached.view_id, 1);
    assert_eq!(joined.member.cached.member_ids(), vec![1, 2]);
}

#[test]
fn second_join_runs_a_round_with_the_other_member() {
    let (mut store, mut host2) = two_members();
    let proposal = match store.join(user("host3", 3)) {
        JoinStep::Proposed(p) => p,
        other => panic!("{:?}", other),
    };
    assert_eq!(proposal.request, "REQ:1:1:ADD:3\n");
    assert_eq!(proposal.contacts, vec![user("host2", 2)]);
    assert_eq!(
        proposal.round,
        PendingRound {
            request_id: 1,
            base_view_id: 1,
            operation: Operation::Add,
            target_peer: user("host3", 3),
            responses: vec![],
        }
    );
    assert_eq!(store.view().view_id, 1);
    assert_eq!(store.view().req_counter, 1);

    let mut round = proposal.round;
    let reaction = host2.handle_line(&proposal.request);
    assert_eq!(reaction, Reaction::Reply { line: "OK:1:1\n".to_string(), notice: None });
    round.record(2, Some("OK:1:1\n"));
    assert_eq!(round.responses, vec![2]);

    let a = match store.resolve(&round) {
        Outcome::Committed(a) => a,
        other => panic!("{:?}", other),
    };
    assert_eq!(a.view_id, 2);
    assert_eq!(a.members, vec![1, 2, 3]);
    assert_eq!(a.line, "NEWVIEW:2:1,2,3\n");
    assert_eq!(a.reply_to, Some(user("host3", 3)));
    assert_eq!(a.recipients, vec![user("host2", 2)]);
    assert_eq!(a.report, "{peer_id: 1, view_id: 2, leader: 1, memb_list: [1,2,3]}");
    assert_eq!(store.view().view_id, 2);
    assert_eq!(store.view().member_ids(), vec![1, 2, 3]);

    assert_eq!(
        host2.handle_line(&a.line),
        Reaction::Adopted { report: "{peer_id: 2, view_id: 2, leader: 1, memb_list: [1,2,3]}".to_string() }
    );
    assert_eq!(host2.cached.view_id, 2);
    assert_eq!(host2.cached.member_ids(), vec![1, 2, 3]);
    let host3 = join_reply(3, 1, Some(&a.line)).unwrap();
    assert_eq!(host3.member.cached.view_id, store.view().view_id);
    assert_eq!(host3.member.cached.member_ids(), store.view().member_ids());
}

#[test]
fn silent_member_is_suspected_and_removed() {
    let (mut store, mut host2, _host3) = three_members();
    let mut table = HeartbeatTable::new(&registry(), 1, 0);
    let mut pending = PendingRemovals::new();

    assert_eq!(table.failure_listener("HEARTBEAT:2", 3000), Some("ALIVE".to_string()));
    assert_eq!(table.failure_listener("HEARTBEAT:2", 6000), Some("ALIVE".to_string()));
    let quiet = leader_heartbeat_monitor(store.view(), &table, &mut pending, 1, 1, 6000);
    assert!(quiet.notices.is_empty());
    assert!(quiet.removals.is_empty());

    let report = leader_heartbeat_monitor(store.view(), &table, &mut pending, 1, 1, 6001);
    assert_eq!(
        report.notices,
        vec!["{peer_id: 1, view_id: 2, leader: 1, message:\"peer 3 unreachable\"}".to_string()]
    );
    assert_eq!(report.removals, vec![3]);
    assert!(pending.contains(3));

    let proposal = store.begin_deletion(3).unwrap();
    assert_eq!(proposal.request, "REQ:2:2:DEL:3\n");
    assert_eq!(proposal.contacts, vec![user("host2", 2)]);
    let mut round = proposal.round;
    let reaction = host2.handle_line(&proposal.request);
    assert_eq!(
        reaction,
        Reaction::Reply {
            line: "OK:2:2\n".to_string(),
            notice: Some("{peer_id: 2, view_id: 2, leader: 1, message:\"peer 3 unreachable\"}".to_string()),
        }
    );
    round.record(2, Some("OK:2:2\n"));
    let a = match store.resolve(&round) {
        Outcome::Committed(a) => a,
        other => panic!("{:?}", other),
    };
    pending.settle(3);
    assert_eq!(a.view_id, 3);
    assert_eq!(a.members, vec![1, 2]);
    assert_eq!(a.line, "NEWVIEW:3:1,2\n");
    assert_eq!(a.reply_to, None);
    assert_eq!(a.recipients, vec![user("host2", 2)]);
    assert_eq!(a.report, "{peer_id: 1, view_id: 3, leader: 1, memb_list: [1,2]}");
    assert_eq!(store.view().view_id, 3);
    assert_eq!(store.view().membership, vec![user("host1", 1), user("host2", 2)]);
    assert!(!pending.contains(3));
}

#[test]
fn one_silent_member_aborts_the_round() {
    let (mut store, _host2, _host3) = three_members();
    let before = store.view().duplicate();
    let proposal = match store.join(user("host4", 4)) {
        JoinStep::Proposed(p) => p,
        other => panic!("{:?}", other),
    };
    assert_eq!(proposal.contacts, vec![user("host2", 2), user("host3", 3)]);
    let mut round = proposal.round;
    round.record(2, Some("OK:2:2\n"));
    round.record(3, None);
    assert_eq!(round.responses, vec![2]);
    assert_eq!(store.resolve(&round), Outcome::Aborted);
    assert_eq!(store.view().view_id, before.view_id);
    assert_eq!(store.view().membership, before.membership);
    assert_eq!(store.view().req_counter, before.req_counter + 1);
}

#[test]
fn reply_for_another_round_or_view_does_not_count() {
    let (mut store, _host2) = two_members();
    let proposal = match store.join(user("host3", 3)) {
        JoinStep::Proposed(p) => p,
        other => panic!("{:?}", other),
    };
    let mut round = proposal.round;
    for reply in [
        "OK:2:1\n", "OK:1:2\n", "OK:11:1\n", "OK:1:11\n", "OK:1\n", "NO:1:1\n", "", "REQ:1:1:ADD:3\n",
        "OK:+1:1\n", "OK:1:+1\n", "OK:01:1\n", "OK:1:01\n", "OK:1:1:\n", "OK: 1:1\n", "ok:1:1\n", "OK:1:1 x\n",
    ] {
        round.record(2, Some(reply));
        assert!(round.responses.is_empty(), "{:?}", reply);
    }
    assert_eq!(store.resolve(&round), Outcome::Aborted);
    round.record(2, Some("OK:1:1\n"));
    round.record(2, Some("OK:1:1\n"));
    assert_eq!(round.responses, vec![2]);
    assert!(matches!(store.resolve(&round), Outcome::Committed(_)));
}

#[test]
fn acknowledgement_of_a_stranger_does_not_replace_a_member() {
    let (mut store, _host2) = two_members();
    let proposal = match store.join(user("host3", 3)) {
        JoinStep::Proposed(p) => p,
        other => panic!("{:?}", other),
    };
    let mut round = proposal.round;
    round.record(9, Some("OK:1:1\n"));
    assert_eq!(store.resolve(&round), Outcome::Aborted);
}

#[test]
fn round_of_an_earlier_view_does_not_commit() {
    let (mut store, _host2) = two_members();
    let third = match store.join(user("host3", 3)) {
        JoinStep::Proposed(p) => p,
        other => panic!("{:?}", other),
    };
    let fourth = match store.join(user("host4", 4)) {
        JoinStep::Proposed(p) => p,
        other => panic!("{:?}", other),
    };
    assert_eq!(fourth.round.request_id, 2);
    let mut a = third.round;
    a.record(2, Some("OK:1:1\n"));
    assert!(matches!(store.resolve(&a), Outcome::Committed(_)));
    let mut b = fourth.round;
    b.record(2, Some("OK:2:1\n"));
    b.record(3, Some("OK:2:1\n"));
    assert_eq!(store.resolve(&b), Outcome::Aborted);
    assert_eq!(store.view().member_ids(), vec![1, 2, 3]);
}

#[test]
fn member_that_asks_again_gets_a_round_that_does_not_commit() {
    let (mut store, _host2, _host3) = three_members();
    let proposal = match store.join(user("host2", 2)) {
        JoinStep::Proposed(p) => p,
        other => panic!("{:?}", other),
    };
    assert_eq!(proposal.request, "REQ:2:2:ADD:2\n");
    assert_eq!(proposal.contacts, vec![user("host3", 3)]);
    assert_eq!(store.view().req_counter, 2);
    let round = run_round(proposal, &vec![Some("OK:2:2\n".to_string())]);
    assert_eq!(round.responses, vec![3]);
    assert_eq!(store.resolve(&round), Outcome::Aborted);
    assert_eq!(store.view().view_id, 2);
    assert_eq!(store.view().member_ids(), vec![1, 2, 3]);
    assert_eq!(store.view().req_counter, 2);
}

#[test]
fn leader_that_asks_itself_gets_a_round_too() {
    let (mut store, _host2) = two_members();
    let proposal = match store.join(user("other", 1)) {
        JoinStep::Proposed(p) => p,
        other => panic!("{:?}", other),
    };
    assert_eq!(proposal.contacts, vec![user("host2", 2)]);
    let round = run_round(proposal, &vec![Some("OK:1:1\n".to_string())]);
    assert_eq!(store.resolve(&round), Outcome::Aborted);
    assert_eq!(store.view().member_ids(), vec![1, 2]);
}

#[test]
fn leader_alone_does_not_add_itself() {
    let mut store = ViewStore::new(user("host1", 1));
    assert_eq!(store.join(user("host1", 1)), JoinStep::Refused(Refusal::AlreadyMember));
    assert_eq!(store.view().view_id, 0);
    assert_eq!(store.view().req_counter, 0);
    assert_eq!(store.view().member_ids(), vec![1]);
}

#[test]
fn deletion_is_refused_for_strangers_and_for_the_leader() {
    let (mut store, _host2) = two_members();
    assert_eq!(store.begin_deletion(7), Err(Refusal::NotMember));
    assert_eq!(store.begin_deletion(1), Err(Refusal::LeaderIsPermanent));
    assert_eq!(store.view().req_counter, 0);
}

#[test]
fn last_other_member_is_removed_without_contacts() {
    let (mut store, _host2) = two_members();
    let proposal = store.begin_deletion(2).unwrap();
    assert!(proposal.contacts.is_empty());
    let a = match store.resolve(&proposal.round) {
        Outcome::Committed(a) => a,
        other => panic!("{:?}", other),
    };
    assert_eq!(a.members, vec![1]);
    assert!(a.recipients.is_empty());
    assert_eq!(a.line, "NEWVIEW:2:1\n");
}

#[test]
fn pending_removal_is_not_started_twice() {
    let (store, _host2, _host3) = three_members();
    let table = HeartbeatTable::new(&registry(), 1, 0);
    let mut pending = PendingRemovals::new();
    let first = leader_heartbeat_monitor(store.view(), &table, &mut pending, 1, 1, 7000);
    assert_eq!(first.removals, vec![2, 3]);
    assert_eq!(first.notices.len(), 2);
    let second = leader_heartbeat_monitor(store.view(), &table, &mut pending, 1, 1, 8000);
    assert!(second.removals.is_empty());
    assert_eq!(second.notices.len(), 2);
    pending.settle(3);
    let third = leader_heartbeat_monitor(store.view(), &table, &mut pending, 1, 1, 9000);
    assert_eq!(third.removals, vec![3]);
}

#[test]
fn member_acknowledges_whatever_is_proposed() {
    let mut m = Member { local_id: 2, leader: 1, cached: PeerState::from_ids(1, &vec![1, 2]) };
    assert_eq!(
        m.handle_line("REQ:5:9:ADD:77\n"),
        Reaction::Reply { line: "OK:5:9\n".to_string(), notice: None }
    );
    assert_eq!(
        m.handle_line("REQ:6:9:DEL:1\n"),
        Reaction::Reply {
            line: "OK:6:9\n".to_string(),
            notice: Some("{peer_id: 2, view_id: 9, leader: 1, message:\"peer 1 (leader) unreachable\"}".to_string()),
        }
    );
    assert_eq!(m.cached, PeerState::from_ids(1, &vec![1, 2]));
}

#[test]
fn leader_prints_no_notice_about_its_own_proposal() {
    let mut m = Member { local_id: 1, leader: 1, cached: PeerState::from_ids(1, &vec![1, 2]) };
    assert_eq!(
        m.handle_line("REQ:6:9:DEL:2\n"),
        Reaction::Reply { line: "OK:6:9\n".to_string(), notice: None }
    );
}

#[test]
fn member_passes_over_what_it_cannot_read() {
    let mut m = Member { local_id: 2, leader: 1, cached: PeerState::from_ids(1, &vec![1, 2]) };
    for line in ["", "REQ:1:1:ADD", "NEWVIEW:x:1", "JOIN:3", "OK:1:1", "HEARTBEAT:1", "ALIVE", "hello"] {
        assert_eq!(m.handle_line(line), Reaction::Ignored, "{:?}", line);
        assert_eq!(m.cached, PeerState::from_ids(1, &vec![1, 2]));
    }
}

#[test]
fn view_identifiers_count_the_commits() {
    let mut store = ViewStore::new(user("host1", 1));
    let mut seen = vec![store.view().member_ids()];
    for (step, id) in [(1u32, 2u32), (2, 3), (3, 4)] {
        let name = format!("host{}", id);
        let outcome = match store.join(user(&name, id)) {
            JoinStep::Committed(a) => a,
            JoinStep::Proposed(p) => {
                let mut round = p.round;
                let reply = format!("OK:{}:{}\n", round.request_id, round.base_view_id);
                for peer in &p.contacts {
                    round.record(peer.id, Some(&reply));
                }
                match store.resolve(&round) {
                    Outcome::Committed(a) => a,
                    other => panic!("{:?}", other),
                }
            }
            other => panic!("{:?}", other),
        };
        assert_eq!(outcome.view_id, step);
        assert_eq!(store.view().view_id, step);
        seen.push(store.view().member_ids());
    }
    let proposal = store.begin_deletion(3).unwrap();
    let mut round = proposal.round;
    for peer in &proposal.contacts {
        round.record(peer.id, Some("OK:3:3\n"));
    }
    assert!(matches!(store.resolve(&round), Outcome::Committed(_)));
    assert_eq!(store.view().view_id, 4);
    seen.push(store.view().member_ids());
    assert_eq!(
        seen,
        vec![vec![1], vec![1, 2], vec![1, 2, 3], vec![1, 2, 3, 4], vec![1, 2, 4]]
    );
}

#[test]
fn every_announced_view_is_read_back_by_its_receivers() {
    for (view_id, members) in [(0u32, vec![1u32]), (7, vec![1, 9, 4]), (u32::MAX, vec![u32::MAX, 0])] {
        let line = Message::NewView { view_id, members: members.clone() }.encode_line();
        let mut m = Member { local_id: 9, leader: 1, cached: PeerState::from_ids(0, &vec![]) };
        assert!(matches!(m.handle_line(&line), Reaction::Adopted { .. }));
        assert_eq!(m.cached.view_id, view_id);
        assert_eq!(m.cached.member_ids(), members);
        let j = join_reply(9, 1, Some(&line)).unwrap();
        assert_eq!(j.member.cached.view_id, view_id);
        assert_eq!(j.member.cached.member_ids(), members);
    }
}

#[test]
fn coordinator_reads_the_request_and_looks_up_the_joiner() {
    let mut store = ViewStore::new(user("host1", 1));
    assert_eq!(join_listener_leader(&mut store, "hello\n", &registry()), JoinHandling::Ignored);
    assert_eq!(join_listener_leader(&mut store, "JOIN:x\n", &registry()), JoinHandling::Ignored);
    assert_eq!(join_listener_leader(&mut store, "JOIN:9\n", &registry()), JoinHandling::Unknown(9));
    assert_eq!(store.view().view_id, 0);
    match join_listener_leader(&mut store, "JOIN:2\n", &registry()) {
        JoinHandling::Step(JoinStep::Committed(a)) => {
            assert_eq!(a.reply_to, Some(user("host2", 2)));
            assert_eq!(a.line, "NEWVIEW:1:1,2\n");
        }
        other => panic!("{:?}", other),
    }
    match join_listener_leader(&mut store, "JOIN:2\n", &registry()) {
        JoinHandling::Step(JoinStep::Proposed(p)) => {
            assert_eq!(p.round.request_id, 1);
            assert!(p.contacts.is_empty());
            assert_eq!(store.resolve(&p.round), Outcome::Aborted);
        }
        other => panic!("{:?}", other),
    }
    assert_eq!(store.view().req_counter, 1);
    assert_eq!(store.view().member_ids(), vec![1, 2]);
}

#[test]
fn coordinator_of_removals_settles_what_was_pending() {
    let (mut store, _host2, _host3) = three_members();
    let table = HeartbeatTable::new(&registry(), 1, 0);
    let mut pending = PendingRemovals::new();
    let report = leader_heartbeat_monitor(store.view(), &table, &mut pending, 1, 1, 7000);
    assert_eq!(report.removals, vec![2, 3]);

    let proposal = initiate_deletion(&mut store, &mut pending, 3).unwrap();
    assert!(pending.contains(3));
    assert_eq!(conclude_deletion(&mut store, &mut pending, &proposal.round), Outcome::Aborted);
    assert!(!pending.contains(3));
    assert!(pending.contains(2));
    assert_eq!(store.view().member_ids(), vec![1, 2, 3]);

    assert_eq!(initiate_deletion(&mut store, &mut pending, 8), Err(Refusal::NotMember));
    assert!(pending.contains(2));
    let again = leader_heartbeat_monitor(store.view(), &table, &mut pending, 1, 1, 8000);
    assert_eq!(again.removals, vec![3]);
}

#[test]
fn connections_go_to_the_right_handler() {
    assert_eq!(route_connection("JOIN:", 1, 1), Handler::Coordinator);
    assert_eq!(route_connection("JOIN:", 2, 1), Handler::Dropped);
    assert_eq!(route_connection("REQ:1", 1, 1), Handler::Member);
    assert_eq!(route_connection("NEWVI", 2, 1), Handler::Member);
    assert_eq!(route_connection("JOIN", 1, 1), Handler::Member);
    assert_eq!(route_connection("", 2, 1), Handler::Member);
}

#[test]
fn heartbeat_goes_to_every_other_peer() {
    let (text, peers) = heartbeat_round(&registry(), 2);
    assert_eq!(text, "HEARTBEAT:2");
    assert_eq!(peers, vec![user("host1", 1), user("host3", 3)]);
}

#[test]
fn store_takes_only_a_view_a_leader_can_hold() {
    assert!(ViewStore::with_view(1, PeerState::from_ids(4, &vec![1, 2])).is_some());
    assert!(ViewStore::with_view(3, PeerState::from_ids(4, &vec![1, 2])).is_none());
    assert!(ViewStore::with_view(1, PeerState::from_ids(4, &vec![1, 2, 2])).is_none());
    assert!(ViewStore::with_view(1, PeerState::from_ids(4, &vec![])).is_none());
}

#[test]
fn last_view_identifier_admits_no_change() {
    let last = PeerState { view_id: u32::MAX, membership: vec![user("host1", 1), user("host2", 2)], req_counter: 3 };
    let mut store = ViewStore::with_view(1, last).unwrap();
    assert_eq!(store.join(user("host3", 3)), JoinStep::Refused(Refusal::Exhausted));
    assert_eq!(store.begin_deletion(2), Err(Refusal::Exhausted));
    assert_eq!(store.join(user("host2", 2)), JoinStep::Refused(Refusal::Exhausted));
    let round = PendingRound {
        request_id: 4,
        base_view_id: u32::MAX,
        operation: Operation::Del,
        target_peer: user("host2", 2),
        responses: vec![],
    };
    assert_eq!(store.resolve(&round), Outcome::Aborted);
    assert_eq!(store.view().view_id, u32::MAX);
    assert_eq!(store.view().req_counter, 3);
}

#[test]
fn last_round_number_admits_no_round() {
    let worn = PeerState { view_id: 5, membership: vec![user("host1", 1), user("host2", 2)], req_counter: u32::MAX };
    let mut store = ViewStore::with_view(1, worn).unwrap();
    assert_eq!(store.join(user("host3", 3)), JoinStep::Refused(Refusal::Exhausted));
    assert_eq!(store.begin_deletion(2), Err(Refusal::Exhausted));
}

#[test]
fn round_before_the_last_number_still_runs() {
    let late = PeerState { view_id: u32::MAX - 1, membership: vec![user("host1", 1)], req_counter: u32::MAX - 1 };
    let mut store = ViewStore::with_view(1, late).unwrap();
    match store.join(user("host2", 2)) {
        JoinStep::Committed(a) => assert_eq!(a.line, "NEWVIEW:4294967295:1,2\n"),
        other => panic!("{:?}", other),
    }
}

fn proposal_for_host4(store: &mut ViewStore) -> Proposal {
    match store.join(user("host4", 4)) {
        JoinStep::Proposed(p) => p,
        other => panic!("{:?}", other),
    }
}

#[test]
fn round_commits_when_every_contact_acknowledges() {
    let (mut store, _host2, _host3) = three_members();
    let proposal = proposal_for_host4(&mut store);
    let ok = Some("OK:2:2\n".to_string());
    let round = run_round(proposal, &vec![ok.clone(), ok]);
    assert_eq!(round.responses, vec![2, 3]);
    assert!(matches!(store.resolve(&round), Outcome::Committed(_)));
    assert_eq!(store.view().member_ids(), vec![1, 2, 3, 4]);
}

#[test]
fn round_aborts_when_one_contact_does_not() {
    for replies in [
        vec![Some("OK:2:2\n".to_string()), None],
        vec![None, Some("OK:2:2\n".to_string())],
        vec![Some("OK:2:2\n".to_string()), Some("OK:2:3\n".to_string())],
        vec![Some("OK:2:2\n".to_string()), Some("no".to_string())],
        vec![Some("OK:2:2\n".to_string())],
        vec![],
    ] {
        let (mut store, _host2, _host3) = three_members();
        let proposal = proposal_for_host4(&mut store);
        let round = run_round(proposal, &replies);
        assert_eq!(store.resolve(&round), Outcome::Aborted, "{:?}", replies);
        assert_eq!(store.view().view_id, 2);
        assert_eq!(store.view().member_ids(), vec![1, 2, 3]);
    }
}

#[test]
fn replies_beyond_the_contacts_do_not_count() {
    let (mut store, _host2) = two_members();
    let proposal = match store.join(user("host3", 3)) {
        JoinStep::Proposed(p) => p,
        other => panic!("{:?}", other),
    };
    let round = run_round(proposal, &vec![None, Some("OK:1:1\n".to_string())]);
    assert!(round.responses.is_empty());
}

#[test]
fn acknowledgement_is_told_by_its_text() {
    let (mut store, _host2) = two_members();
    let proposal = match store.join(user("host3", 3)) {
        JoinStep::Proposed(p) => p,
        other => panic!("{:?}", other),
    };
    let mut round = proposal.round;
    round.record(2, Some("  OK:1:1 \r\n"));
    assert_eq!(round.responses, vec![2]);
    assert!(matches!(store.resolve(&round), Outcome::Committed(_)));
}

#[test]
fn removal_does_not_commit_on_another_spelling() {
    let (mut store, _host2, _host3) = three_members();
    let proposal = store.begin_deletion(3).unwrap();
    for reply in ["OK:+2:2\n", "OK:02:2\n", "OK:2:+2\n", "OK:2:002\n"] {
        let mut round = PendingRound {
            request_id: proposal.round.request_id,
            base_view_id: proposal.round.base_view_id,
            operation: Operation::Del,
            target_peer: user("host3", 3),
            responses: vec![],
        };
        round.record(2, Some(reply));
        assert!(round.responses.is_empty(), "{:?}", reply);
        assert_eq!(store.resolve(&round), Outcome::Aborted);
    }
    assert_eq!(store.view().member_ids(), vec![1, 2, 3]);
}

#[test]
fn member_passes_over_an_announcement_in_any_other_form() {
    let mut m = Member { local_id: 2, leader: 1, cached: PeerState::from_ids(1, &vec![1, 2]) };
    for line in ["NEWVIEW:view_id=1;membership=", "NEWVIEW:view_id=4;membership=a:1,b:2", "NEWVIEW:3", "NEWVIEW"] {
        assert_eq!(m.handle_line(line), Reaction::Ignored, "{:?}", line);
        assert_eq!(m.cached, PeerState::from_ids(1, &vec![1, 2]));
    }
}

#[test]
fn first_process_leads_and_the_others_ask() {
    assert_eq!(LEADER_ID, 1);
    match join_start(user("host1", 1)) {
        Entry::Leads(store) => {
            assert_eq!(store.leader(), 1);
            assert_eq!(store.view(), &PeerState::initial(user("host1", 1)));
        }
        Entry::Joins { .. } => panic!("the first process leads"),
    }
    match join_start(user("host3", 3)) {
        Entry::Joins { request } => assert_eq!(request, "JOIN:3\n"),
        Entry::Leads(_) => panic!("only the first process leads"),
    }
}
