use group_membership::identity::UserInfo;
use group_membership::view::{PeerState, ViewParseError};

fn user(name: &str, id: u32) -> UserInfo {
    UserInfo { name: name.to_string(), id }
}

#[test]
fn initial_view_holds_the_leader_alone() {
    let v = PeerState::initial(user("host1", 1));
    assert_eq!(v.view_id, 0);
    assert_eq!(v.req_counter, 0);
    assert_eq!(v.membership, vec![user("host1", 1)]);
}

#[test]
fn long_form_is_written() {
    let v = PeerState {
        view_id: 42,
        membership: vec![user("Alice", 1), user("Bob", 2), user("Charlie", 3), user("David", 5)],
        req_counter: 7,
    };
    assert_eq!(v.to_text(), "view_id=42;membership=Alice:1,Bob:2,Charlie:3,David:5");
}

#[test]
fn long_form_of_an_empty_view() {
    let v = PeerState { view_id: 0, membership: vec![], req_counter: 0 };
    assert_eq!(v.to_text(), "view_id=0;membership=");
}

#[test]
fn long_form_is_read() {
    let v = PeerState::from_str("view_id=42;membership=Alice:1,Bob:2,Charlie:3,David:5").unwrap();
    assert_eq!(v.view_id, 42);
    assert_eq!(v.req_counter, 0);
    assert_eq!(
        v.membership,
        vec![user("Alice", 1), user("Bob", 2), user("Charlie", 3), user("David", 5)]
    );
}

#[test]
fn long_form_allows_space_and_empty_entries() {
    let v = PeerState::from_str(" view_id= 7 ; membership=a: 1 ,, b:2,").unwrap();
    assert_eq!(v.view_id, 7);
    assert_eq!(v.membership, vec![user("a", 1), user("b", 2)]);
}

#[test]
fn long_form_written_and_read_back() {
    let v = PeerState { view_id: 9, membership: vec![user("x", 4), user("y", 6)], req_counter: 0 };
    assert_eq!(PeerState::from_str(&v.to_text()), Ok(v));
}

#[test]
fn short_form_is_read() {
    let v = PeerState::from_str("2:1,2,3").unwrap();
    assert_eq!(v.view_id, 2);
    assert_eq!(v.req_counter, 0);
    assert_eq!(v.membership, vec![user("unknown", 1), user("unknown", 2), user("unknown", 3)]);
}

#[test]
fn short_form_allows_space_and_empty_entries() {
    let v = PeerState::from_str(" 5 : 1, ,2 ,").unwrap();
    assert_eq!(v.view_id, 5);
    assert_eq!(v.member_ids(), vec![1, 2]);
}

#[test]
fn short_form_with_no_members() {
    let v = PeerState::from_str("3:").unwrap();
    assert_eq!(v.view_id, 3);
    assert!(v.membership.is_empty());
}

#[test]
fn number_may_carry_a_plus_sign() {
    assert_eq!(PeerState::from_str("+3:+1").unwrap().member_ids(), vec![1]);
}

#[test]
fn each_error_of_the_long_form() {
    assert_eq!(PeerState::from_str("a=1;b;c"), Err(ViewParseError::ExpectedPair));
    assert_eq!(PeerState::from_str("id=1;membership="), Err(ViewParseError::MissingViewId));
    assert_eq!(PeerState::from_str("view_id=x;membership="), Err(ViewParseError::BadViewId));
    assert_eq!(PeerState::from_str("view_id=;membership="), Err(ViewParseError::BadViewId));
    assert_eq!(PeerState::from_str("view_id=1;members="), Err(ViewParseError::MissingMembership));
    assert_eq!(PeerState::from_str("view_id=1;membership=a"), Err(ViewParseError::BadMember));
    assert_eq!(PeerState::from_str("view_id=1;membership=a:1:2"), Err(ViewParseError::BadMember));
    assert_eq!(PeerState::from_str("view_id=1;membership=a:b"), Err(ViewParseError::BadMemberId));
}

#[test]
fn first_bad_entry_decides_the_error() {
    assert_eq!(
        PeerState::from_str("view_id=1;membership=a:x,b"),
        Err(ViewParseError::BadMemberId)
    );
    assert_eq!(
        PeerState::from_str("view_id=1;membership=b,a:x"),
        Err(ViewParseError::BadMember)
    );
}

#[test]
fn each_error_of_the_short_form() {
    assert_eq!(PeerState::from_str("12"), Err(ViewParseError::ExpectedList));
    assert_eq!(PeerState::from_str(""), Err(ViewParseError::ExpectedList));
    assert_eq!(PeerState::from_str("x:1,2"), Err(ViewParseError::BadViewId));
    assert_eq!(PeerState::from_str("1:1,b"), Err(ViewParseError::BadListedId));
    assert_eq!(PeerState::from_str("1:1:2"), Err(ViewParseError::BadListedId));
    assert_eq!(PeerState::from_str("1:-2"), Err(ViewParseError::BadListedId));
}

#[test]
fn view_identifier_must_fit() {
    assert_eq!(PeerState::from_str("4294967295:").unwrap().view_id, u32::MAX);
    assert_eq!(PeerState::from_str("4294967296:"), Err(ViewParseError::BadViewId));
    assert_eq!(
        PeerState::from_str("99999999999999999999999999999999:"),
        Err(ViewParseError::BadViewId)
    );
}

#[test]
fn text_with_only_one_of_the_two_marks_is_short_form() {
    assert_eq!(PeerState::from_str("view_id=1"), Err(ViewParseError::ExpectedList));
    assert_eq!(PeerState::from_str("1;2"), Err(ViewParseError::ExpectedList));
}

#[test]
fn membership_is_tested_by_identifier() {
    let v = PeerState::from_str("1:4,9").unwrap();
    assert!(v.contains(9));
    assert!(!v.contains(1));
}

#[test]
fn view_from_identifiers() {
    let v = PeerState::from_ids(3, &vec![1, 2]);
    assert_eq!(v, PeerState::from_str("3:1,2").unwrap());
}
