use group_membership::identity::UserInfo;
use group_membership::token::{
    get_channel, get_predecessor, get_successor, marker_line, marker_report_line, place_report_line,
    read_marker, read_token, token_line, Capture, MarkerStep, Participant, Startup, StartupStep,
};

fn user(name: &str, id: u32) -> UserInfo {
    UserInfo { name: name.to_string(), id }
}

fn ring() -> Vec<UserInfo> {
    vec![user("a", 1), user("b", 2), user("c", 3)]
}

#[test]
fn neighbours_in_the_ring() {
    assert_eq!(get_predecessor(&user("a", 1), &ring()), Some(user("c", 3)));
    assert_eq!(get_predecessor(&user("b", 2), &ring()), Some(user("a", 1)));
    assert_eq!(get_successor(&user("c", 3), &ring()), Some(user("a", 1)));
    assert_eq!(get_successor(&user("a", 1), &ring()), Some(user("b", 2)));
}

#[test]
fn process_outside_the_ring_has_no_neighbours() {
    assert_eq!(get_predecessor(&user("x", 0), &ring()), None);
    assert_eq!(get_predecessor(&user("x", 5), &ring()), None);
    assert_eq!(get_successor(&user("x", 0), &ring()), Some(user("a", 1)));
    assert_eq!(get_successor(&user("x", 7), &ring()), None);
    assert_eq!(get_successor(&user("x", u32::MAX), &ring()), None);
    assert_eq!(get_predecessor(&user("a", 1), &vec![]), None);
}

#[test]
fn token_and_marker_lines() {
    assert_eq!(token_line(2), "token:2\n");
    assert_eq!(marker_line(2, 7), "marker:2:7\n");
    assert_eq!(read_token("token:2\n"), Some(2));
    assert_eq!(read_token("token:x\n"), Some(0));
    assert_eq!(read_token("token:1:2"), Some(0));
    assert_eq!(read_token("token"), None);
    assert_eq!(read_marker("marker:2:7\n"), Some((2, 7)));
    assert_eq!(read_marker("marker:a:b"), Some((0, 0)));
    assert_eq!(read_marker("marker:2"), None);
    assert_eq!(read_marker("marker:2:7:9"), Some((2, 0)));
}

#[test]
fn token_raises_the_state() {
    let mut p = Participant::new(2, 0, false, 3);
    let (got, state) = p.receive_token(1);
    assert_eq!(got, "{id: 2, sender: 1, receiver: 2, message:\"token\"}");
    assert_eq!(state, "{id: 2, state: 1}");
    assert!(p.has_token);
    assert_eq!(p.recorded, 0);
    let (line, sent) = p.forward_token(3);
    assert_eq!(line, "token:2\n");
    assert_eq!(sent, "{id: 2, sender: 2, receiver: 3, message:\"token\"}");
    assert!(!p.has_token);
    assert_eq!(p.state, 1);
}

#[test]
fn place_is_reported() {
    assert_eq!(place_report_line(1, 1, 3, 2), "{id: 1, state: 1, predecessor: 3, successor: 2}");
}

#[test]
fn first_marker_starts_the_snapshot() {
    let mut p = Participant::new(2, 4, true, 3);
    let step = p.receive_marker(1, 9);
    assert_eq!(
        step,
        MarkerStep::Closed {
            first: Some(Capture { state: 4, has_token: true }),
            report: "{proc_id:2, snapshot_id:9, snapshot:\"channel closed\", channel:\"1-2\", queue:[]}"
                .to_string(),
        }
    );
    assert!(p.snapshot_started);
    assert!(!p.is_complete());
    p.receive_token(1);
    p.receive_token(1);
    assert_eq!(p.recorded, 2);
    assert_eq!(
        p.receive_marker(3, 9),
        MarkerStep::Closed {
            first: None,
            report: "{proc_id:2, snapshot_id:9, snapshot:\"channel closed\", channel:\"3-2\", queue:[token, token]}"
                .to_string(),
        }
    );
    assert_eq!(p.recorded, 0);
    assert!(p.is_complete());
    assert_eq!(p.complete_report(9), "{proc_id:2, snapshot_id:9, snapshot:\"complete\"}");
}

#[test]
fn own_and_repeated_markers_are_passed_over() {
    let mut p = Participant::new(2, 0, false, 3);
    assert_eq!(p.receive_marker(2, 1), MarkerStep::Ignored);
    assert!(!p.snapshot_started);
    assert!(matches!(p.receive_marker(1, 1), MarkerStep::Closed { .. }));
    assert_eq!(p.receive_marker(1, 1), MarkerStep::Ignored);
    assert_eq!(p.closed, vec![1]);
}

#[test]
fn initiator_starts_a_snapshot_of_its_own() {
    let mut p = Participant::new(1, 1, true, 3);
    assert_eq!(p.start_snapshot(5), "{proc_id:1, snapshot_id:5, snapshot:\"started\"}");
    assert!(p.snapshot_started);
    assert_eq!(
        marker_report_line(1, 5, 2, p.capture()),
        "{proc_id:1, snapshot_id:5, sender:1, receiver:2, message:\"marker\", state:1, has_token:\"YES\"}"
    );
    p.forward_token(2);
    assert_eq!(
        marker_report_line(1, 5, 3, p.capture()),
        "{proc_id:1, snapshot_id:5, sender:1, receiver:3, message:\"marker\", state:1, has_token:\"NO\"}"
    );
    assert!(matches!(p.receive_marker(2, 5), MarkerStep::Closed { first: None, .. }));
}

#[test]
fn token_is_not_recorded_before_a_snapshot() {
    let mut p = Participant::new(2, 0, false, 2);
    p.receive_token(1);
    assert_eq!(p.recorded, 0);
}

#[test]
fn process_alone_is_complete_at_once() {
    assert!(Participant::new(1, 0, true, 1).is_complete());
    assert!(Participant::new(1, 0, true, 0).is_complete());
}

#[test]
fn startup_waits_for_every_peer() {
    let peers = vec!["a".to_string(), "b".to_string(), "c".to_string()];
    let mut s = Startup::new(&peers, &"b".to_string());
    assert_eq!(s.online, vec![false, true, false]);
    assert_eq!(s.waiting_for(&peers), vec!["a".to_string(), "c".to_string()]);
    assert!(!s.ready());
    assert_eq!(
        s.failsafe_startup(&peers, "b", "ping:a"),
        StartupStep::Reply { reply: "pong:b".to_string() }
    );
    assert_eq!(s.online, vec![false, true, false]);
    assert_eq!(s.failsafe_startup(&peers, "b", "pong:a"), StartupStep::Marked);
    assert_eq!(s.failsafe_startup(&peers, "b", "pong:z"), StartupStep::Marked);
    assert_eq!(s.failsafe_startup(&peers, "b", "hello"), StartupStep::Unknown);
    assert_eq!(s.online, vec![true, true, false]);
    assert_eq!(s.failsafe_startup(&peers, "b", "pong:c"), StartupStep::Marked);
    assert!(s.ready());
    assert!(s.waiting_for(&peers).is_empty());
}

#[test]
fn channel_is_found_by_its_two_ends() {
    let channels = vec![
        (user("a", 1), user("b", 2)),
        (user("b", 2), user("a", 1)),
        (user("a", 1), user("c", 3)),
        (user("a", 1), user("c", 3)),
    ];
    assert_eq!(get_channel(&channels, &user("b", 2), &user("a", 1)), Some(1));
    assert_eq!(get_channel(&channels, &user("a", 1), &user("c", 3)), Some(2));
    assert_eq!(get_channel(&channels, &user("c", 3), &user("a", 1)), None);
    assert_eq!(get_channel(&channels, &user("a", 2), &user("b", 2)), None);
    assert_eq!(get_channel(&vec![], &user("a", 1), &user("b", 2)), None);
}
