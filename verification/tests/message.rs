use group_membership::message::{Message, Operation};

#[test]
fn each_message_is_written() {
    assert_eq!(Message::Join { id: 2 }.encode(), "JOIN:2");
    assert_eq!(
        Message::Req { req_id: 1, view_id: 1, op: Operation::Add, target: 3 }.encode(),
        "REQ:1:1:ADD:3"
    );
    assert_eq!(
        Message::Req { req_id: 12, view_id: 7, op: Operation::Del, target: 30 }.encode(),
        "REQ:12:7:DEL:30"
    );
    assert_eq!(Message::Ack { req_id: 1, view_id: 1 }.encode(), "OK:1:1");
    assert_eq!(Message::NewView { view_id: 2, members: vec![1, 2, 3] }.encode(), "NEWVIEW:2:1,2,3");
    assert_eq!(Message::NewView { view_id: 0, members: vec![] }.encode(), "NEWVIEW:0:");
    assert_eq!(Message::Heartbeat { sender: 4294967295 }.encode(), "HEARTBEAT:4294967295");
    assert_eq!(Message::Alive.encode(), "ALIVE");
}

#[test]
fn a_line_ends_with_a_line_feed() {
    assert_eq!(Message::Join { id: 10 }.encode_line(), "JOIN:10\n");
    assert_eq!(Message::Ack { req_id: 0, view_id: 100 }.encode_line(), "OK:0:100\n");
}

#[test]
fn each_message_is_read() {
    assert_eq!(Message::decode("JOIN:2\n"), Some(Message::Join { id: 2 }));
    assert_eq!(
        Message::decode("REQ:1:1:ADD:3\n"),
        Some(Message::Req { req_id: 1, view_id: 1, op: Operation::Add, target: 3 })
    );
    assert_eq!(
        Message::decode("REQ:2:2:DEL:3\n"),
        Some(Message::Req { req_id: 2, view_id: 2, op: Operation::Del, target: 3 })
    );
    assert_eq!(Message::decode("OK:1:1\n"), Some(Message::Ack { req_id: 1, view_id: 1 }));
    assert_eq!(
        Message::decode("NEWVIEW:2:1,2,3\n"),
        Some(Message::NewView { view_id: 2, members: vec![1, 2, 3] })
    );
    assert_eq!(Message::decode("HEARTBEAT:3"), Some(Message::Heartbeat { sender: 3 }));
    assert_eq!(Message::decode("ALIVE"), Some(Message::Alive));
}

#[test]
fn written_messages_read_back() {
    let all = vec![
        Message::Join { id: 0 },
        Message::Req { req_id: 4000000000, view_id: 17, op: Operation::Add, target: 5 },
        Message::Req { req_id: 1, view_id: 0, op: Operation::Del, target: 4294967295 },
        Message::Ack { req_id: 9, view_id: 10 },
        Message::NewView { view_id: 3, members: vec![1] },
        Message::NewView { view_id: 3, members: vec![] },
        Message::NewView { view_id: 90, members: vec![7, 1, 100, 0] },
        Message::Heartbeat { sender: 12 },
        Message::Alive,
    ];
    for m in all {
        assert_eq!(Message::decode(&m.encode()), Some(m));
    }
}

#[test]
fn written_lines_read_back() {
    let m = Message::NewView { view_id: 8, members: vec![1, 2] };
    assert_eq!(Message::decode(&m.encode_line()), Some(m));
}

#[test]
fn malformed_lines_are_no_messages() {
    for line in [
        "",
        "JOIN",
        "JOIN:",
        "JOIN:x",
        "JOIN:1:2",
        "JOIN: 1",
        "join:1",
        "REQ:1:1:ADD",
        "REQ:1:1:ADD:3:4",
        "REQ:1:1:MOVE:3",
        "REQ:a:1:ADD:3",
        "REQ:1:1:add:3",
        "OK",
        "OK:1",
        "OK:1:x",
        "OK:1:1:1",
        "NEWVIEW",
        "NEWVIEW:",
        "NEWVIEW:1",
        "NEWVIEW:x:1",
        "NEWVIEW:1:a",
        "HEARTBEAT",
        "HEARTBEAT:",
        "HEARTBEAT:1:2",
        "HEARTBEAT:4294967296",
        " ALIVE",
        "PING:1",
    ] {
        assert_eq!(Message::decode(line), None, "{:?}", line);
    }
}

#[test]
fn anything_that_begins_with_alive_is_an_answer() {
    assert_eq!(Message::decode("ALIVE\n"), Some(Message::Alive));
    assert_eq!(Message::decode("ALIVE and well"), Some(Message::Alive));
}

#[test]
fn surrounding_space_is_trimmed() {
    assert_eq!(Message::decode("  JOIN:5 \r\n"), Some(Message::Join { id: 5 }));
    assert_eq!(Message::decode("\tHEARTBEAT:5\n"), Some(Message::Heartbeat { sender: 5 }));
}

#[test]
fn announced_view_must_be_in_short_form() {
    assert_eq!(Message::decode("NEWVIEW:view_id=4;membership=a:1,b:2"), None);
    assert_eq!(Message::decode("NEWVIEW:view_id=1;membership="), None);
    assert_eq!(Message::decode("NEWVIEW:=;1:2"), None);
}
