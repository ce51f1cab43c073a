use std::cmp::Ordering;
use umanux::user::gecos_fields::Gecos;
use umanux::user::passwd_fields::is_username_valid;
use umanux::user::Position;
use umanux::{User, UserLibError};

#[test]
fn test_default_user() {
    // Check if a user can be created.
    let mut pwd = User::default();
    assert_eq!(pwd.get_username().unwrap(), "defaultusername");
    assert_eq!(pwd.get_home_dir().unwrap(), "/");
    assert_eq!(pwd.get_uid(), 1001);
    let npw = pwd.username("test".to_owned()).clone();
    assert_eq!(npw.get_username().unwrap(), "test");
}

#[test]
fn test_new_from_string() {
    // Test if a single line can be parsed and if the resulting struct is populated correctly.
    let fail = "".parse::<User>().err().unwrap();
    assert_eq!(fail, "Failed to parse: not enough elements".into());
    let pwd: User = "testuser:testpassword:1001:1001:testcomment:/home/test:/bin/test"
        .parse()
        .unwrap();
    let pwd2: User = "testuser:testpassword:1001:1001:full Name,004,000342,001-2312,myemail@test.com:/home/test:/bin/test"
        .parse()
        .unwrap();
    assert_eq!(pwd.get_username().unwrap(), "testuser");
    assert_eq!(pwd.get_home_dir().unwrap(), "/home/test");
    assert_eq!(pwd.get_uid(), 1001);
    match pwd.get_gecos().unwrap() {
        Gecos::Simple { comment } => assert_eq!(comment, "testcomment"),
        _ => unreachable!(),
    }
    match pwd2.get_gecos().unwrap() {
        Gecos::Detail {
            full_name,
            room,
            phone_work,
            phone_home,
            other,
        } => {
            assert_eq!(full_name, "full Name");
            assert_eq!(room, "004");
            assert_eq!(phone_work, "000342");
            assert_eq!(phone_home, "001-2312");
            assert_eq!(other.as_ref().unwrap()[0], "myemail@test.com");
        }
        _ => unreachable!(),
    }
}

#[test]
fn user_line_is_written_back_as_read() {
    for line in [
        "testuser:x:1001:1001:,,,,:/home/test:/bin/test",
        "root:x:0:0:root:/root:/bin/bash",
        "a:pw:4294967295:0:full Name,004,000342,001-2312:/:",
        "_apt:x:105:65534::/nonexistent:/usr/sbin/nologin",
        "machine$:*:7:8:a,b,c,d,e,f,g:/h:/s",
    ] {
        let user: User = line.parse().unwrap();
        assert_eq!(user.to_string(), line);
        assert_eq!(user.get_source(), line);
    }
}

#[test]
fn user_line_with_a_padded_number_is_normalized() {
    let user: User = "test:x:+01001:0007::/:/bin/sh".parse().unwrap();
    assert_eq!(user.get_uid(), 1001);
    assert_eq!(user.get_gid(), 7);
    assert_eq!(user.to_string(), "test:x:1001:7::/:/bin/sh");
}

#[test]
fn user_line_with_a_malformed_field_is_refused() {
    let parse = |line: &str| line.parse::<User>().err().unwrap();
    assert_eq!(parse("a:b:c"), "Failed to parse: not enough elements".into());
    assert_eq!(parse("a:b:1:2:c:d:e:f"), "Failed to parse: not enough elements".into());
    assert_eq!(parse("Test:x:1:1::/:/bin/sh"), "Invalid username".into());
    assert_eq!(parse(":x:1:1::/:/bin/sh"), "Invalid username".into());
    assert_eq!(parse("test:x:one:1::/:/bin/sh"), "Invalid uid".into());
    assert_eq!(parse("test:x:4294967296:1::/:/bin/sh"), "Invalid uid".into());
    assert_eq!(parse("test:x:-1:1::/:/bin/sh"), "Invalid uid".into());
    assert_eq!(parse("test:x:1:::/:/bin/sh"), "Invalid gid".into());
    assert_eq!(parse("test:x:1:1:a,b:/:/bin/sh"), "Could not parse the comment field".into());
    assert_eq!(parse("test:x:1:1:a,b,c:/:/bin/sh"), "Could not parse the comment field".into());
}

#[test]
fn user_name_validity() {
    assert!(is_username_valid("test"));
    assert!(is_username_valid("_"));
    assert!(is_username_valid("a-b_c9"));
    assert!(is_username_valid("machine$"));
    assert!(is_username_valid("abcdefghijklmnopqrstuvwxyz012345"));
    assert!(is_username_valid("abcdefghijklmnopqrstuvwxyz01234$"));
    assert!(!is_username_valid("abcdefghijklmnopqrstuvwxyz0123456"));
    assert!(!is_username_valid(""));
    assert!(!is_username_valid("9lives"));
    assert!(!is_username_valid("-dash"));
    assert!(!is_username_valid("$"));
    assert!(!is_username_valid("a$b"));
    assert!(!is_username_valid("Upper"));
    assert!(!is_username_valid("hänno"));
    assert!(!is_username_valid("two words"));
}

#[test]
fn user_builders_change_one_field_each() {
    let mut user = User::default();
    user.uid(7).gid(8).home_dir("/home/x".to_owned()).shell_path("/bin/sh".to_owned());
    assert_eq!(user.to_string(), "defaultusername:x:7:8::/home/x:/bin/sh");
    assert_eq!(user.get_password(), Some("!!"));
    assert!(user.get_shadow().is_some());
    user.username("other".to_owned());
    assert_eq!(user.get_shadow().unwrap().get_username(), "other");
    assert_eq!(
        user.get_shadow().unwrap().to_string(),
        "other:!!:0:0:99999:7:::"
    );
    user.disable_password();
    assert!(user.get_shadow().is_none());
    assert_eq!(user.get_password(), None);
    assert_eq!(user.to_string(), "other:x:7:8::/home/x:/bin/sh");
    assert_eq!(*user.get_position(), Position::NewToFile);
}

#[test]
fn user_remove_in_takes_the_source_line_out() {
    let user: User = "b:x:2:2::/:/bin/sh".parse().unwrap();
    assert_eq!(
        user.remove_in("a:x:1:1::/:/bin/sh\nb:x:2:2::/:/bin/sh\nc:x:3:3::/:/bin/sh\n"),
        "a:x:1:1::/:/bin/sh\nc:x:3:3::/:/bin/sh"
    );
    assert_eq!(user.remove_in("b:x:2:2::/:/bin/sh"), "");
    assert_eq!(user.remove_in("b:x:2:2::/:/bin/sh2\n"), "b:x:2:2::/:/bin/sh2");
    assert_eq!(user.remove_in(""), "");
}

#[test]
fn positions_compare_as_documented() {
    assert_eq!(Position::At(1).partial_cmp(&Position::At(2)), Some(Ordering::Less));
    assert_eq!(Position::At(2).partial_cmp(&Position::At(2)), Some(Ordering::Equal));
    assert_eq!(Position::At(3).partial_cmp(&Position::At(2)), Some(Ordering::Greater));
    assert_eq!(Position::NewToFile.partial_cmp(&Position::At(2)), Some(Ordering::Greater));
    assert_eq!(Position::At(2).partial_cmp(&Position::NewToFile), Some(Ordering::Less));
    assert_eq!(Position::NotInFile.partial_cmp(&Position::At(2)), None);
    assert_eq!(Position::At(2).partial_cmp(&Position::NotAssignedYet), None);
    assert_eq!(Position::NotAssignedYet.partial_cmp(&Position::NotInFile), None);
    assert_eq!(Position::NewToFile.partial_cmp(&Position::NotInFile), None);
    assert_eq!(Position::NewToFile.partial_cmp(&Position::NotAssignedYet), None);
    assert_eq!(Position::NotInFile.partial_cmp(&Position::NewToFile), None);
    assert!(Position::At(1) < Position::NewToFile);
}

#[test]
fn error_in_words() {
    assert_eq!(UserLibError::NotFound.to_string(), "Not found");
    assert_eq!(UserLibError::from("x").to_string(), "x");
    assert_eq!(UserLibError::from("x".to_owned()), UserLibError::Message("x".to_owned()));
    assert_ne!(UserLibError::FilesChanged, UserLibError::FilesRequired);
    assert_ne!(UserLibError::from("x"), UserLibError::from("y"));
}
