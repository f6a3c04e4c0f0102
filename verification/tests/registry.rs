use group_membership::identity::{
    find_user_by_id, find_user_by_name, get_addr, has_duplicate_ids, read_registry, UserInfo,
};

fn registry() -> Vec<UserInfo> {
    vec![
        UserInfo { name: "host1".to_string(), id: 1 },
        UserInfo { name: "host2".to_string(), id: 2 },
        UserInfo { name: "host3".to_string(), id: 3 },
    ]
}

#[test]
fn registry_without_repeats_has_no_duplicates() {
    assert!(!has_duplicate_ids(&registry()));
}

#[test]
fn repeated_identifier_is_found() {
    let mut r = registry();
    r.push(UserInfo { name: "host4".to_string(), id: 2 });
    assert!(has_duplicate_ids(&r));
}

#[test]
fn address_joins_name_and_port() {
    assert_eq!(get_addr(&"host2".to_string(), "8889"), "host2:8889");
}

#[test]
fn lookup_by_identifier() {
    let r = registry();
    assert_eq!(find_user_by_id(&r, 3).map(|u| u.name), Some("host3".to_string()));
    assert!(find_user_by_id(&r, 9).is_none());
}

#[test]
fn lookup_by_name() {
    let r = registry();
    assert_eq!(find_user_by_name(&r, &"host2".to_string()).map(|u| u.id), Some(2));
    assert!(find_user_by_name(&r, &"host9".to_string()).is_none());
}

#[test]
fn first_entry_with_the_identifier_is_found() {
    let r = vec![
        UserInfo { name: "a".to_string(), id: 7 },
        UserInfo { name: "b".to_string(), id: 7 },
    ];
    assert_eq!(find_user_by_id(&r, 7).map(|u| u.name), Some("a".to_string()));
}

#[test]
fn registry_is_read_line_by_line() {
    assert_eq!(read_registry("host1\nhost2\nhost3\n"), registry());
}

#[test]
fn empty_lines_name_nobody_but_count() {
    assert_eq!(
        read_registry("\n  host1 \r\n\n\nhost5"),
        vec![
            UserInfo { name: "host1".to_string(), id: 2 },
            UserInfo { name: "host5".to_string(), id: 5 },
        ]
    );
    assert!(read_registry("").is_empty());
}

#[test]
fn empty_registry_has_no_duplicates() {
    assert!(!has_duplicate_ids(&vec![]));
}
