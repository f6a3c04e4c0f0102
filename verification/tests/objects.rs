use group_membership::objects::{
    handle_request, holds_object, parse_object_line, parse_request, request_line,
    unreachable_line, Handling, Object, Request,
};

#[test]
fn store_line_names_client_and_object() {
    assert_eq!(parse_object_line("3::9"), Some(Object { client_id: 3, object_id: 9 }));
    assert_eq!(parse_object_line("  12::0\n"), Some(Object { client_id: 12, object_id: 0 }));
    assert_eq!(
        parse_object_line("18446744073709551615::1"),
        Some(Object { client_id: u64::MAX, object_id: 1 })
    );
}

#[test]
fn malformed_store_lines_name_nothing() {
    for line in ["", "3", "3:9", "3::", "::9", "3::9::1", "3:::9", "a::9", "3::b", "3 :: 9", "18446744073709551616::1"] {
        assert_eq!(parse_object_line(line), None, "{:?}", line);
    }
}

#[test]
fn request_is_read_by_its_keys() {
    assert_eq!(
        parse_request("REQUEST: reqID=1, op=STORE, objectID=9, clientID=3\n"),
        Request { op: "STORE".to_string(), object_id: 9, client_id: 3 }
    );
}

#[test]
fn later_parts_override_and_bad_parts_are_passed_over() {
    assert_eq!(
        parse_request("REQUEST:op=A,op=B,objectID=x,clientID=4,clientID,other=1,a=b=c"),
        Request { op: "B".to_string(), object_id: 0, client_id: 4 }
    );
}

#[test]
fn line_without_the_tag_is_the_empty_request() {
    assert_eq!(
        parse_request("op=STORE, objectID=9"),
        Request { op: String::new(), object_id: 0, client_id: 0 }
    );
}

#[test]
fn object_at_or_below_the_node_is_stored_here() {
    assert_eq!(
        handle_request("REQUEST: reqID=1, op=STORE, objectID=9, clientID=3\n", 9, &vec![], Some("n12")),
        Handling::Store {
            object: Object { client_id: 3, object_id: 9 },
            reply: "OBJ STORED: objectID=9, clientID=3, peerID=n9\n".to_string(),
        }
    );
}

#[test]
fn object_above_the_node_goes_on() {
    assert_eq!(
        handle_request("REQUEST: reqID=1, op=STORE, objectID=10, clientID=3\n", 9, &vec![], Some("n12")),
        Handling::Forward { successor: "n12".to_string() }
    );
}

#[test]
fn object_above_a_node_without_successor_is_an_error() {
    assert_eq!(
        handle_request("REQUEST: reqID=1, op=STORE, objectID=9, clientID=3\n", 5, &vec![], None),
        Handling::Answer { reply: "ERROR: No successor to forward request\n".to_string() }
    );
    assert_eq!(
        handle_request("REQUEST: op=RETRIEVE, objectID=9, clientID=3", 5, &vec![], None),
        Handling::Answer { reply: "ERROR: No successor to forward request\n".to_string() }
    );
}

#[test]
fn successor_that_cannot_be_reached_is_an_error() {
    assert_eq!(
        unreachable_line("n12", 3),
        "ERROR: Failed to connect to successor n12 after 3 attempts\n"
    );
}

#[test]
fn object_is_retrieved_if_held() {
    let held = vec![Object { client_id: 3, object_id: 10 }];
    assert_eq!(
        handle_request("REQUEST: reqID=1, op=RETRIEVE, objectID=10, clientID=3\n", 20, &held, None),
        Handling::Answer { reply: "OBJ RETRIEVED: objectID=10, clientID=3, peerID=n20\n".to_string() }
    );
    assert_eq!(
        handle_request("REQUEST: reqID=1, op=RETRIEVE, objectID=10, clientID=4\n", 20, &held, None),
        Handling::Answer { reply: "OBJ NOT FOUND: objectID=10, clientID=4, peerID=n20\n".to_string() }
    );
    assert!(holds_object(&held, Object { client_id: 3, object_id: 10 }));
}

#[test]
fn unknown_operation_is_an_error() {
    assert_eq!(
        handle_request("REQUEST: op=DROP, objectID=1, clientID=1", 5, &vec![], None),
        Handling::Answer { reply: "ERROR: Unknown operation\n".to_string() }
    );
    assert_eq!(
        handle_request("hello", 5, &vec![], Some("n9")),
        Handling::Answer { reply: "ERROR: Unknown operation\n".to_string() }
    );
}

#[test]
fn client_request_is_written_and_read_back() {
    let line = request_line(1, "STORE", 9, 3);
    assert_eq!(line, "REQUEST: reqID=1, op=STORE, objectID=9, clientID=3\n");
    assert_eq!(parse_request(&line), Request { op: "STORE".to_string(), object_id: 9, client_id: 3 });
}
