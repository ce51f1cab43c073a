use umanux::userlib::files::{Difference, FileContents};
use umanux::{Files, UserLibError};

fn contents() -> FileContents {
    FileContents {
        pwd: "test:x:1001:1001:full Name,004,000342,001-2312,myemail@test.com:/home/test:/bin/test\n".to_owned(),
        shd: "test:!!:18260:0:99999:7:::\n".to_owned(),
        grp: "test:x:1001:\n".to_owned(),
    }
}

#[test]
fn test_replace_a_file() {
    let mut fls = Files::new("passwds", "shadows", "groups", &contents());

    let (mut lpwd, lshd, lgrp) = fls.lock_all_get(contents()).unwrap();
    lpwd.replace_contents("new_content");
    // test that the cache is updated
    assert_eq!(lpwd.get_path().get_old_content(), "new_content");
    // test that the file contains the new data
    assert_eq!(lpwd.get_content(), "new_content\n");
    let written = fls.release(lpwd, lshd, lgrp);
    assert_eq!(written.pwd, "new_content\n");

    let second_lpwd = fls.lock_guarded_passwd(written.pwd).unwrap();
    assert_eq!(second_lpwd.get_path().get_old_content(), "new_content");
}

#[test]
fn files_keep_paths_and_trimmed_snapshots() {
    let fls = Files::new("a/passwd", "a/shadow", "a/group", &contents());
    assert_eq!(fls.get_passwd().get_path(), Some("a/passwd"));
    assert_eq!(fls.get_shadow().get_path(), Some("a/shadow"));
    assert_eq!(fls.get_group().get_path(), Some("a/group"));
    assert_eq!(fls.get_group().get_old_content(), "test:x:1001:");
    assert!(!fls.is_virtual());
    let std = Files::default(&contents());
    assert_eq!(std.get_passwd().get_path(), Some("/etc/passwd"));
    assert_eq!(std.get_shadow().get_path(), Some("/etc/shadow"));
    assert_eq!(std.get_group().get_path(), Some("/etc/group"));
}

#[test]
fn lock_twice_in_a_row() {
    let fls = Files::new("passwd", "shadow", "group", &contents());
    {
        let first = fls.lock_guarded_group("test:x:1001:\n".to_owned()).unwrap();
        assert_eq!(first.get_lockfile(), "group.lock");
        assert_eq!(first.get_content(), "test:x:1001:\n");
    }
    assert!(fls.lock_guarded_group("test:x:1001:\n".to_owned()).is_ok());
    assert!(fls.lock_all_get(contents()).is_ok());
}

#[test]
fn changed_table_is_not_handed_out() {
    let fls = Files::new("passwd", "shadow", "group", &contents());
    assert_eq!(
        fls.lock_guarded_group("test:x:1001:test\n".to_owned()).err().unwrap(),
        UserLibError::FilesChanged
    );
    assert_eq!(
        fls.lock_guarded_shadow(String::new()).err().unwrap(),
        UserLibError::FilesChanged
    );
    let mut changed = contents();
    changed.pwd.push('x');
    assert_eq!(
        fls.lock_all_get(changed).err().unwrap(),
        UserLibError::FilesChanged
    );
    // white space at the ends does not count
    assert!(fls
        .lock_guarded_group("\n  test:x:1001:\t\n\n".to_owned())
        .is_ok());
}

#[test]
fn check_if_dirty_compares_trimmed_text() {
    assert!(Files::check_if_dirty("a\nb", "a\nb\n").is_ok());
    assert!(Files::check_if_dirty(" a\nb\u{3000}", "\u{a0}a\nb\r\n").is_ok());
    assert!(Files::check_if_dirty("", " \n").is_ok());
    assert_eq!(
        Files::check_if_dirty("a\nb", "a\n b").err().unwrap(),
        UserLibError::FilesChanged
    );
    assert_eq!(
        Files::check_if_dirty("a", "a\u{0}").err().unwrap(),
        UserLibError::FilesChanged
    );
}

#[test]
fn append_ends_the_last_line_first() {
    let fls = Files::new("passwd", "shadow", "group", &contents());
    let mut with_newline = fls.lock_guarded_group("test:x:1001:\n".to_owned()).unwrap();
    with_newline.append("more:x:7:".to_owned());
    assert_eq!(with_newline.get_content(), "test:x:1001:\nmore:x:7:\n");
    // the snapshot is left as it was
    assert_eq!(with_newline.get_path().get_old_content(), "test:x:1001:");
    let mut without_newline = fls.lock_guarded_group("test:x:1001:".to_owned()).unwrap();
    without_newline.append("more:x:7:".to_owned());
    assert_eq!(without_newline.get_content(), "test:x:1001:\nmore:x:7:\n");
    let empty = Files::new("passwd", "shadow", "group", &FileContents {
        pwd: String::new(),
        shd: String::new(),
        grp: String::new(),
    });
    let mut nothing = empty.lock_guarded_passwd(String::new()).unwrap();
    nothing.append("a:x:1:1::/:/bin/sh".to_owned());
    assert_eq!(nothing.get_content(), "a:x:1:1::/:/bin/sh\n");
}

#[test]
fn print_difference_counts_the_changed_parts() {
    let fls = Files::new("passwd", "shadow", "group", &FileContents {
        pwd: "a\nb".to_owned(),
        shd: String::new(),
        grp: String::new(),
    });
    let mut guard = fls.lock_guarded_passwd("a\nb".to_owned()).unwrap();
    assert_eq!(guard.print_difference(), (vec![], false));
    guard.append("c".to_owned());
    assert_eq!(
        guard.print_difference(),
        (vec![Difference::Add("c\n".to_owned())], true)
    );
    let mut other = fls.lock_guarded_passwd("a\nb".to_owned()).unwrap();
    other.append("b".to_owned());
    other.append("a".to_owned());
    let (parts, one) = other.print_difference();
    assert!(one);
    assert_eq!(parts, vec![Difference::Add("b\na\n".to_owned())]);
    let unlike = Files::new("passwd", "shadow", "group", &FileContents {
        pwd: "a\nb\nc".to_owned(),
        shd: String::new(),
        grp: String::new(),
    });
    let mut swapped = unlike.lock_guarded_passwd("a\nb\nc".to_owned()).unwrap();
    swapped.replace_contents("a\nx\nc");
    // what was put in place is what the table last held, but for the newline at its end
    assert_eq!(
        swapped.print_difference(),
        (vec![Difference::Add(String::new())], true)
    );
    let mut third = unlike.lock_guarded_passwd("a\nb\nc".to_owned()).unwrap();
    third.append("d".to_owned());
    third.append("e".to_owned());
    assert_eq!(third.print_difference().0.len(), 1);
}
