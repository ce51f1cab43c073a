use umanux::group::{is_groupname_valid, MembershipKind};
use umanux::userlib::LineNumerable;
use umanux::Group;

#[test]
fn group_line_is_written_back_as_read() {
    for line in [
        "teste:x:1002:test,teste",
        "root:x:0:",
        "wheel:*:10:root",
        "grp:$1$hash:4294967295:a,b,c,a",
    ] {
        let group: Group = line.parse().unwrap();
        assert_eq!(group.to_string(), line);
        assert_eq!(group.get_source(), line);
    }
}

#[test]
fn group_fields_are_read() {
    let group: Group = "teste:secret:1002:test,teste".parse().unwrap();
    assert_eq!(group.get_groupname(), Some("teste"));
    assert_eq!(group.get_gid(), Some(1002));
    assert_eq!(group.get_encrypted_password(), Some("secret"));
    assert_eq!(group.get_member_names(), Some(vec!["test", "teste"]));
    assert!(is_groupname_valid("teste"));
    assert!(!is_groupname_valid("Teste"));
}

#[test]
fn empty_names_are_passed_over() {
    let group: Group = "g:x:1:a,,b,".parse().unwrap();
    assert_eq!(group.get_member_names(), Some(vec!["a", "b"]));
    assert_eq!(group.to_string(), "g:x:1:a,b");
}

#[test]
fn members_come_and_go() {
    let mut group: Group = "g:x:1:a,b,a".parse().unwrap();
    group.append_user("a");
    assert_eq!(group.get_member_names(), Some(vec!["a", "b", "a", "a"]));
    // a user whose own group it is stands in the line only where the group lists it
    assert_eq!(group.to_string(), "g:x:1:a,b,a");
    assert!(!group.has_only_member("a"));
    group.remove_member(MembershipKind::Member, "a");
    assert_eq!(group.get_member_names(), Some(vec!["b", "a"]));
    assert_eq!(group.to_string(), "g:x:1:b");
    group.remove_member(MembershipKind::Member, "b");
    assert!(group.has_only_member("a"));
    group.remove_member(MembershipKind::Primary, "a");
    assert_eq!(group.get_member_names(), Some(vec![]));
    assert!(group.has_only_member("a"));
    assert_eq!(group.to_string(), "g:x:1:");
}

#[test]
fn group_remove_in_and_line_number() {
    let mut group: Group = "g:x:1:".parse().unwrap();
    assert_eq!(group.remove_in("f:x:0:\ng:x:1:\nh:x:2:\n"), "f:x:0:\nh:x:2:");
    group.set_line(4);
    assert_eq!(group.to_string(), "g:x:1:");
}
