use umanux::api::{CreateUserArgs, DeleteHome, DeleteUserArgs};
use umanux::group::MembershipKind;
use umanux::userlib::files::FileContents;
use umanux::userlib::Deleted;
use umanux::{Files, UserDBLocal, UserLibError};

const SHADOW_HASH: &str = "$6$u0Hh.9WKRF1Aeu4g$XqoDyL6Re/4ZLNQCGAXlNacxCxbdigexEqzFzkOVPV5Z1H23hlenjW8ZLgq6GQtFURYwenIFpo1c.r4aW9l5S/";

fn delete(
    db: &mut UserDBLocal,
    args: DeleteUserArgs,
    disk: Option<FileContents>,
) -> Result<Deleted, UserLibError> {
    let out = db.delete_user(args, disk)?;
    *db = out.database;
    Ok(out.outcome)
}

fn create(
    db: &mut UserDBLocal,
    args: CreateUserArgs,
    disk: Option<FileContents>,
) -> Result<Option<FileContents>, UserLibError> {
    let out = db.new_user(args, disk)?;
    *db = out.database;
    Ok(out.files)
}

#[test]
fn test_creator_user_db_local() {
    let data = UserDBLocal::import_from_strings("test:x:1002:1002:full Name,004,000342,001-2312,myemail@test.com:/home/test:/bin/test", "test:$6$u0Hh.9WKRF1Aeu4g$XqoDyL6Re/4ZLNQCGAXlNacxCxbdigexEqzFzkOVPV5Z1H23hlenjW8ZLgq6GQtFURYwenIFpo1c.r4aW9l5S/:18260:0:99999:7:::", "teste:x:1002:\nanother:x:1003:test").unwrap();
    assert_eq!(
        data.get_user_by_name("test").unwrap().get_username().unwrap(),
        "test"
    );
    for user in data.get_all_users() {
        let (member_group1, group1) = user.get_groups().first().unwrap();
        let (member_group2, group2) = user.get_groups().get(1).unwrap();

        assert_eq!(*member_group1, MembershipKind::Member);
        assert_eq!(
            data.get_group_by_line(*group1).unwrap().value.get_groupname(),
            Some("another")
        );
        assert_eq!(*member_group2, MembershipKind::Primary);
        assert_eq!(
            data.get_group_by_line(*group2).unwrap().value.get_groupname(),
            Some("teste")
        );
    }
}

#[test]
fn test_user_db_write_implementation() {
    let mut data = UserDBLocal::import_from_strings("test:x:1001:1001:full Name,004,000342,001-2312,myemail@test.com:/home/test:/bin/test", "test:$6$u0Hh.9WKRF1Aeu4g$XqoDyL6Re/4ZLNQCGAXlNacxCxbdigexEqzFzkOVPV5Z1H23hlenjW8ZLgq6GQtFURYwenIFpo1c.r4aW9l5S/:18260:0:99999:7:::", "teste:x:1002:test,test").unwrap();
    let user = "test";

    assert_eq!(data.get_all_users().len(), 1);
    let deleted =
        data.delete_user(DeleteUserArgs::builder().username(user).build().unwrap(), None);
    assert!(deleted.is_ok());
    // the database is as it was until the one that was handed back takes its place
    assert_eq!(data.get_all_users().len(), 1);
    data = deleted.unwrap().database;
    assert!(data
        .delete_user(
            DeleteUserArgs::builder().username(user).build().unwrap(),
            None
        )
        .is_err());
    assert_eq!(data.get_all_users().len(), 0);
}

fn passwd() -> String {
    "test:x:1001:1001:full Name,004,000342,001-2312,myemail@test.com:/home/test:/bin/test\nbergfried:x:1004:1004:,,,:/home/bergfried:/bin/bash\nteste:x:1002:1002:,,,:/home/teste:/bin/bash\n".to_owned()
}

fn shadow() -> String {
    format!(
        "test:{}:18260:0:99999:7:::\nbergfried:{}:18260:0:99999:7:::\nteste:{}:18260:0:99999:7:::\n",
        SHADOW_HASH, SHADOW_HASH, SHADOW_HASH
    )
}

fn group() -> String {
    "root:x:0:\ntest:x:1001:\nteste:x:1002:test,teste\nbergfried:x:1004:test\n".to_owned()
}

fn disk() -> FileContents {
    FileContents {
        pwd: passwd(),
        shd: shadow(),
        grp: group(),
    }
}

fn database() -> UserDBLocal {
    let files = Files::new("passwd", "shadow", "group", &disk());
    UserDBLocal::load_files(files, disk()).unwrap()
}

#[test]
fn load_twice_gives_the_same_answers() {
    let a = UserDBLocal::import_from_strings(&passwd(), &shadow(), &group()).unwrap();
    let b = UserDBLocal::import_from_strings(&passwd(), &shadow(), &group()).unwrap();
    let names = |db: &UserDBLocal| -> Vec<String> {
        db.get_all_users()
            .iter()
            .map(|u| format!("{} {:?}", u.to_string(), u.get_groups()))
            .collect()
    };
    let groups = |db: &UserDBLocal| -> Vec<String> {
        db.get_all_groups()
            .iter()
            .map(|g| format!("{} {} {:?}", g.pos, g.value.to_string(), g.value.get_member_names()))
            .collect()
    };
    assert_eq!(names(&a), names(&b));
    assert_eq!(groups(&a), groups(&b));
    assert_eq!(
        names(&a),
        vec![
            "test:x:1001:1001:full Name,004,000342,001-2312,myemail@test.com:/home/test:/bin/test [(Member, 2), (Member, 3), (Primary, 1)]",
            "teste:x:1002:1002:,,,:/home/teste:/bin/bash [(Member, 2), (Primary, 2)]",
            "bergfried:x:1004:1004:,,,:/home/bergfried:/bin/bash [(Primary, 3)]",
        ]
    );
    assert_eq!(
        groups(&a),
        vec![
            "0 root:x:0: Some([])",
            "1 test:x:1001: Some([\"test\"])",
            "2 teste:x:1002:test,teste Some([\"test\", \"teste\", \"teste\"])",
            "3 bergfried:x:1004:test Some([\"test\", \"bergfried\"])",
        ]
    );
}

#[test]
fn users_hold_their_shadow_records() {
    let db = database();
    let user = db.get_user_by_name("bergfried").unwrap();
    assert_eq!(user.get_password(), Some(SHADOW_HASH));
    assert_eq!(user.get_shadow().unwrap().get_username(), "bergfried");
    assert_eq!(user.to_string(), "bergfried:x:1004:1004:,,,:/home/bergfried:/bin/bash");
}

#[test]
fn primary_edge_needs_exactly_one_group_of_the_number() {
    let none = UserDBLocal::import_from_strings("a:x:1:1::/:/bin/sh", "", "g:x:2:").unwrap();
    assert!(none.get_user_by_name("a").unwrap().get_groups().is_empty());
    let two =
        UserDBLocal::import_from_strings("a:x:1:1::/:/bin/sh", "", "g:x:1:\nh:x:1:a").unwrap();
    assert_eq!(
        two.get_user_by_name("a").unwrap().get_groups(),
        &vec![(MembershipKind::Member, 1)]
    );
    assert_eq!(two.get_group_by_id(1).unwrap().value.get_groupname(), Some("g"));
    assert_eq!(
        two.get_group_by_id(1).unwrap().value.get_member_names(),
        Some(vec![])
    );
    let one = UserDBLocal::import_from_strings("a:x:1:1::/:/bin/sh", "", "g:x:1:").unwrap();
    assert_eq!(
        one.get_user_by_name("a").unwrap().get_groups(),
        &vec![(MembershipKind::Primary, 0)]
    );
    assert_eq!(
        one.get_group_by_id(1).unwrap().value.get_member_names(),
        Some(vec!["a"])
    );
}

#[test]
fn later_record_of_a_name_takes_the_place_of_the_earlier() {
    let db = UserDBLocal::import_from_strings(
        "a:x:1:1::/:/bin/sh\nb:x:2:2::/:/bin/sh\na:x:3:3::/:/bin/sh",
        "",
        "",
    )
    .unwrap();
    assert_eq!(db.get_all_users().len(), 2);
    assert_eq!(db.get_user_by_name("a").unwrap().get_uid(), 3);
    assert_eq!(db.get_user_by_id(3).unwrap().get_username(), Some("a"));
    assert!(db.get_user_by_id(1).is_none());
}

#[test]
fn load_refuses_a_malformed_table() {
    let err = |p: &str, s: &str, g: &str| UserDBLocal::import_from_strings(p, s, g).err().unwrap();
    assert_eq!(
        err("a:x:1:1::/:/bin/sh\nbroken", "", ""),
        "Failed to parse: not enough elements".into()
    );
    assert_eq!(err("", "a:pw:x::::::", ""), "Invalid date".into());
    assert_eq!(err("", "", "g:x:one:"), "Invalid gid".into());
    assert_eq!(err("", "", "g:x:1:Bad"), "Invalid username".into());
    assert_eq!(err("", "", "G:x:1:"), "Invalid groupname".into());
    // the shadow table is read first
    assert_eq!(err("broken", "a:pw:x::::::", "broken"), "Invalid date".into());
    assert_eq!(
        err("a:x:1:1::/:/bin/sh", "b:pw:1::::::", ""),
        "the user b does not exist".into()
    );
}

#[test]
fn load_files_checks_the_tables() {
    let files = Files::new("passwd", "shadow", "group", &disk());
    let mut changed = disk();
    changed.grp.push_str("more:x:7:\n");
    assert_eq!(
        UserDBLocal::load_files(files.clone(), changed).err().unwrap(),
        UserLibError::FilesChanged
    );
    let mut padded = disk();
    padded.pwd.pop();
    padded.pwd.insert(0, ' ');
    assert!(UserDBLocal::load_files(files.clone(), padded).is_err());
    let mut trimmed = disk();
    trimmed.pwd.pop();
    assert!(UserDBLocal::load_files(files.clone(), trimmed).is_ok());
    // the user table is read first
    let broken = FileContents {
        pwd: "broken".to_owned(),
        shd: "a:pw:x::::::".to_owned(),
        grp: String::new(),
    };
    let files = Files::new("passwd", "shadow", "group", &broken);
    assert_eq!(
        UserDBLocal::load_files(files, broken).err().unwrap(),
        "Failed to parse: not enough elements".into()
    );
}

#[test]
fn users_are_listed_by_their_numbers() {
    let db = UserDBLocal::import_from_strings(
        "c:x:3:1::/:/bin/sh\na:x:1:1::/:/bin/sh\nd:x:3:2::/:/bin/sh\nb:x:2:1::/:/bin/sh\ne:x:1:5::/:/bin/sh",
        "",
        "",
    )
    .unwrap();
    let names: Vec<&str> = db
        .get_all_users()
        .iter()
        .map(|u| u.get_username().unwrap())
        .collect();
    assert_eq!(names, vec!["a", "e", "b", "c", "d"]);
    let users = db.get_all_users();
    assert!(users[0] < users[2]);
    assert!(users[0] <= users[1] && users[1] <= users[0]);
    assert!(users[0] != users[1]);
}

#[test]
fn queries() {
    let db = database();
    assert_eq!(db.get_all_users().len(), 3);
    assert_eq!(db.get_all_groups().len(), 4);
    assert_eq!(db.get_user_by_id(1004).unwrap().get_username(), Some("bergfried"));
    assert!(db.get_user_by_id(7).is_none());
    assert!(db.get_user_by_name("norealnameforsure").is_none());
    assert_eq!(db.get_group_by_name("root").unwrap().value.get_gid(), Some(0));
    assert_eq!(db.get_group_by_id(0).unwrap().value.get_groupname(), Some("root"));
    assert!(db.get_group_by_name("norealgroupforsure").is_none());
    assert!(db.get_group_by_id(5).is_none());
    assert!(db.get_group_by_line(9).is_none());
    assert!(db.is_uid_valid_and_free(5));
    assert!(!db.is_uid_valid_and_free(1004));
    assert!(db.is_gid_valid_and_free(5));
    assert!(!db.is_gid_valid_and_free(1004));
    assert!(db.is_username_valid_and_free("free"));
    assert!(!db.is_username_valid_and_free("test"));
    assert!(!db.is_username_valid_and_free("Free"));
    assert!(db.is_groupname_valid_and_free("free"));
    assert!(!db.is_groupname_valid_and_free("root"));
    assert!(!db.is_groupname_valid_and_free("Free"));
    assert!(!db.get_files().unwrap().is_virtual());
}

#[test]
fn delete_group_by_id_takes_every_group_of_the_number() {
    let mut db =
        UserDBLocal::import_from_strings("", "", "g:x:1:\nh:x:2:\ni:x:1:\n").unwrap();
    db.delete_group_by_id(1);
    assert_eq!(db.get_all_groups().len(), 1);
    assert_eq!(db.get_all_groups()[0].value.get_groupname(), Some("h"));
    db.delete_group_by_id(7);
    assert_eq!(db.get_all_groups().len(), 1);
}

#[test]
fn delete_user_whose_own_group_has_another_member() {
    let mut db = database();
    let out = delete(&mut db, DeleteUserArgs::builder().username("bergfried").build().unwrap(),
            Some(disk()),
        )
        .unwrap();
    assert_eq!(out.user.value.get_username(), Some("bergfried"));
    assert_eq!(out.remove_home, None);
    let files = out.files.unwrap();
    assert_eq!(
        files.pwd,
        "test:x:1001:1001:full Name,004,000342,001-2312,myemail@test.com:/home/test:/bin/test\nteste:x:1002:1002:,,,:/home/teste:/bin/bash\n"
    );
    assert_eq!(
        files.shd,
        format!(
            "test:{}:18260:0:99999:7:::\nteste:{}:18260:0:99999:7:::\n",
            SHADOW_HASH, SHADOW_HASH
        )
    );
    // the group listed `test`, which is no member of its own, so it stays
    assert_eq!(
        files.grp,
        "root:x:0:\ntest:x:1001:\nteste:x:1002:test,teste\nbergfried:x:1004:test\n"
    );
    assert!(db.get_user_by_name("bergfried").is_none());
    assert_eq!(
        db.get_group_by_name("bergfried").unwrap().value.get_member_names(),
        Some(vec!["test"])
    );
    // what was written is what the tables are known to hold
    let again = delete(&mut db, DeleteUserArgs::builder().username("teste").build().unwrap(),
        Some(FileContents {
            pwd: files.pwd.clone(),
            shd: files.shd.clone(),
            grp: files.grp.clone(),
        }),
    );
    assert!(again.is_ok());
}

#[test]
fn delete_user_deletes_its_own_group_when_it_was_the_only_member() {
    let p = "solo:x:7:7::/home/solo:/bin/sh\nother:x:8:8::/:/bin/sh\n";
    let g = "solo:x:7:\nshared:x:9:other,solo\nother:x:8:\n";
    let contents = FileContents {
        pwd: p.to_owned(),
        shd: String::new(),
        grp: g.to_owned(),
    };
    let files = Files::new("p", "s", "g", &contents);
    let mut db = UserDBLocal::load_files(files, contents.clone()).unwrap();
    let out = delete(&mut db, DeleteUserArgs::builder()
                .username("solo")
                .delete_home(DeleteHome::Delete)
                .build()
                .unwrap(),
            Some(contents),
        )
        .unwrap();
    assert_eq!(out.remove_home, Some("/home/solo".to_owned()));
    let files = out.files.unwrap();
    assert_eq!(files.pwd, "other:x:8:8::/:/bin/sh\n");
    assert_eq!(files.shd, "");
    assert_eq!(files.grp, "shared:x:9:other\nother:x:8:\n");
    assert!(db.get_group_by_id(7).is_none());
    assert!(db.get_group_by_name("solo").is_none());
    assert_eq!(
        db.get_group_by_name("shared").unwrap().value.get_member_names(),
        Some(vec!["other"])
    );
    assert_eq!(db.get_all_groups().len(), 2);
}

#[test]
fn delete_user_fails_without_change() {
    let mut db = database();
    let unknown = delete(&mut db, DeleteUserArgs::builder().username("nobody").build().unwrap(),
        Some(disk()),
    );
    assert_eq!(unknown.err().unwrap(), UserLibError::NotFound);
    let no_disk = delete(&mut db, DeleteUserArgs::builder().username("test").build().unwrap(),
        None,
    );
    assert_eq!(no_disk.err().unwrap(), UserLibError::FilesRequired);
    let mut changed = disk();
    changed.shd.push_str("x\n");
    let dirty = delete(&mut db, DeleteUserArgs::builder().username("test").build().unwrap(),
        Some(changed),
    );
    assert_eq!(dirty.err().unwrap(), UserLibError::FilesChanged);
    assert_eq!(db.get_all_users().len(), 3);
    assert_eq!(db.get_all_groups().len(), 4);
}

#[test]
fn delete_user_whose_line_stands_twice_is_refused() {
    let contents = FileContents {
        pwd: "a:x:1:1::/:/bin/sh\na:x:1:1::/:/bin/sh\n".to_owned(),
        shd: String::new(),
        grp: String::new(),
    };
    let files = Files::new("p", "s", "g", &contents);
    let mut db = UserDBLocal::load_files(files, contents.clone()).unwrap();
    assert_eq!(db.get_all_users().len(), 1);
    let out = delete(&mut db, DeleteUserArgs::builder().username("a").build().unwrap(),
        Some(contents),
    );
    assert_eq!(out.err().unwrap(), "Failed to delete the user".into());
    assert_eq!(db.get_all_users().len(), 1);
}

#[test]
fn delete_user_made_in_memory() {
    let mut memory = UserDBLocal::import_from_strings(&passwd(), &shadow(), &group()).unwrap();
    create(&mut memory, CreateUserArgs::builder().username("test2").build().unwrap(), None)
        .unwrap();
    let out = delete(&mut memory, DeleteUserArgs::builder().username("test2").build().unwrap(), None)
        .unwrap();
    assert_eq!(out.user.pos, usize::MAX);
    assert_eq!(out.files, None);
    assert_eq!(out.remove_home, None);
    // without files the groups are left as they are
    let gone = delete(&mut memory, DeleteUserArgs::builder().username("teste").build().unwrap(), None)
        .unwrap();
    assert_eq!(gone.user.value.get_gid(), 1002);
    assert_eq!(
        memory.get_group_by_id(1002).unwrap().value.get_member_names(),
        Some(vec!["test", "teste", "teste"])
    );
}

#[test]
fn new_user_adds_one_line_to_each_table() {
    let contents = FileContents {
        pwd: "testuser:x:1001:1001:,,,,:/home/test:/bin/test".to_owned(),
        shd: "testuser:!!:0:0:99999:7:::\n".to_owned(),
        grp: "testuser:x:1001:\n".to_owned(),
    };
    let files = Files::new("p", "s", "g", &contents);
    let mut db = UserDBLocal::load_files(files, contents.clone()).unwrap();
    let out = create(&mut db, CreateUserArgs::builder().username("test2").build().unwrap(),
            Some(contents.clone()),
        )
        .unwrap()
        .unwrap();
    assert_eq!(
        out.pwd,
        "testuser:x:1001:1001:,,,,:/home/test:/bin/test\ntest2:x:1001:1001::/:/bin/nologin\n"
    );
    assert_eq!(
        out.shd,
        "testuser:!!:0:0:99999:7:::\ntest2:!!:0:0:99999:7:::\n"
    );
    assert_eq!(out.grp, "testuser:x:1001:\n");
    let user = db.get_user_by_name("test2").unwrap();
    assert_eq!(user.get_uid(), 1001);
    assert_eq!(user.get_gid(), 1001);
    assert_eq!(user.get_shell_path(), Some("/bin/nologin"));
    // loading what was written shows both users
    let files = Files::new("p", "s", "g", &out);
    let reloaded = UserDBLocal::load_files(files, out.clone()).unwrap();
    let new = reloaded.get_user_by_name("test2").unwrap();
    assert_eq!(new.get_uid(), 1001);
    assert_eq!(new.get_gid(), 1001);
    assert_eq!(new.get_shell_path(), Some("/bin/nologin"));
    assert_eq!(
        reloaded.get_user_by_name("testuser").unwrap().to_string(),
        "testuser:x:1001:1001:,,,,:/home/test:/bin/test"
    );
    assert_eq!(
        out.pwd.lines().next().unwrap(),
        "testuser:x:1001:1001:,,,,:/home/test:/bin/test"
    );
}

#[test]
fn new_user_with_a_taken_name_is_refused() {
    let mut db = database();
    let taken = create(&mut db, CreateUserArgs::builder().username("test").build().unwrap(),
        Some(disk()),
    );
    assert_eq!(
        taken.err().unwrap(),
        "The username test already exists! Aborting!".into()
    );
    assert_eq!(db.get_all_users().len(), 3);
    let mut memory = UserDBLocal::import_from_strings(&passwd(), &shadow(), &group()).unwrap();
    assert_eq!(
        create(&mut memory, CreateUserArgs::builder().username("fresh").build().unwrap(), None)
            .unwrap(),
        None
    );
    assert_eq!(memory.get_all_users().len(), 4);
    assert_eq!(memory.get_all_users()[1].get_username(), Some("fresh"));
    assert!(create(&mut memory, CreateUserArgs::builder().username("fresh").build().unwrap(), None)
        .is_err());
}

#[test]
fn argument_builders() {
    assert_eq!(
        DeleteUserArgs::builder().build().err().unwrap(),
        "`username` must be initialized"
    );
    assert_eq!(
        CreateUserArgs::builder().build().err().unwrap(),
        "`username` must be initialized"
    );
    let args = DeleteUserArgs::builder().username("a").build().unwrap();
    assert_eq!(args.username, "a");
    assert_eq!(args.delete_home, DeleteHome::Keep);
}

#[test]
fn tables_with_carriage_returns_are_read() {
    let db = UserDBLocal::import_from_strings(
        "a:x:1:1::/:/bin/sh\r\nb:x:2:2::/:/bin/sh\r\n",
        "a:pw:1::::::\r\n",
        "g:x:1:\r\nh:x:2:a,b\r\n",
    )
    .unwrap();
    assert_eq!(db.get_all_users().len(), 2);
    assert_eq!(db.get_user_by_name("b").unwrap().get_shell_path(), Some("/bin/sh"));
    assert_eq!(db.get_user_by_name("a").unwrap().get_password(), Some("pw"));
    assert_eq!(db.get_group_by_name("g").unwrap().value.to_string(), "g:x:1:");
    assert_eq!(
        db.get_group_by_name("h").unwrap().value.get_member_names(),
        Some(vec!["a", "b", "b"])
    );
}

#[test]
fn changes_take_effect_when_the_database_is_replaced() {
    let db = database();
    let deletion = db
        .delete_user(
            DeleteUserArgs::builder().username("teste").build().unwrap(),
            Some(disk()),
        )
        .unwrap();
    assert!(db.is_sound());
    assert!(db.get_user_by_name("teste").is_some());
    assert_eq!(db.get_all_groups().len(), 4);
    assert_eq!(
        db.get_files().unwrap().get_group().get_old_content(),
        group().trim()
    );
    assert!(deletion.database.is_sound());
    assert!(deletion.database.get_user_by_name("teste").is_none());
    assert_eq!(deletion.outcome.user.value.get_username(), Some("teste"));
    let creation = db
        .new_user(CreateUserArgs::builder().username("test2").build().unwrap(), Some(disk()))
        .unwrap();
    assert!(db.get_user_by_name("test2").is_none());
    assert!(creation.database.get_user_by_name("test2").is_some());
    assert_eq!(creation.database.get_all_users().len(), 4);
    let copy = db.duplicate();
    assert_eq!(copy.get_all_users(), db.get_all_users());
    assert_eq!(copy.get_all_groups(), db.get_all_groups());
}

#[test]
fn what_a_change_needs_is_known_before_the_tables_are_locked() {
    let with_files = database();
    assert_eq!(with_files.before_delete("test"), Ok(true));
    assert_eq!(with_files.before_delete("nobody"), Err(UserLibError::NotFound));
    assert_eq!(with_files.before_create("nobody"), Ok(true));
    assert_eq!(
        with_files.before_create("test"),
        Err("The username test already exists! Aborting!".into())
    );
    let memory = UserDBLocal::import_from_strings(&passwd(), &shadow(), &group()).unwrap();
    assert_eq!(memory.before_delete("test"), Ok(false));
    assert_eq!(memory.before_create("nobody"), Ok(false));
}
