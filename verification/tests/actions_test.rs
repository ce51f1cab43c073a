use std::rc::Rc;
use umanux::userlib::files::oplog::actions::{AddGroupAction, AddUserAction, DeleteGroupAction};
use umanux::userlib::files::oplog::{ExecutableUnit, ValidatableUnit};
use umanux::userlib::files::FileContents;
use umanux::{Group, User, UserDBLocal};

fn empty() -> FileContents {
    FileContents {
        pwd: String::new(),
        shd: String::new(),
        grp: String::new(),
    }
}

#[test]
fn add_user_action_adds_a_line_to_each_table() {
    let user = Rc::new(User::default());
    let group: Rc<Group> = Rc::new("teste:x:1002:test,teste".parse().unwrap());
    let action = AddUserAction::new(&user, Rc::clone(&group));
    let contents = action.execute(empty()).unwrap();
    assert_eq!(contents.pwd, "defaultusername:x:1001:1001::/:/bin/nologin\n");
    assert_eq!(contents.shd, "defaultusername:!!:0:0:99999:7:::\n");
    assert_eq!(contents.grp, "teste:x:1002:test,teste\n");
    let again = AddUserAction::new(&user, group).execute(contents).unwrap();
    assert_eq!(again.pwd.lines().count(), 2);
    assert_eq!(again.shd.lines().count(), 2);
    assert_eq!(again.grp.lines().count(), 2);
}

#[test]
fn add_user_action_without_a_shadow_record_changes_nothing() {
    let mut user = User::default();
    user.disable_password();
    let group: Rc<Group> = Rc::new("teste:x:1002:".parse().unwrap());
    let action = AddUserAction::new(&Rc::new(user), group);
    assert_eq!(
        action.execute(empty()).err().unwrap(),
        "The user does not have a shadow field but this is required".into()
    );
}

#[test]
fn group_actions_change_the_group_table_alone() {
    let group: Rc<Group> = Rc::new("teste:x:1002:test,teste".parse().unwrap());
    let start = FileContents {
        pwd: "p".to_owned(),
        shd: "s".to_owned(),
        grp: String::new(),
    };
    let added = AddGroupAction::new(Rc::clone(&group)).execute(start).unwrap();
    assert_eq!(added.pwd, "p");
    assert_eq!(added.shd, "s");
    assert_eq!(added.grp, "teste:x:1002:test,teste\n");
    let deleted = DeleteGroupAction::new(Rc::clone(&group)).execute(added).unwrap();
    assert_eq!(deleted.pwd, "p");
    assert_eq!(deleted.shd, "s");
    assert_eq!(deleted.grp, "");
    assert_eq!(
        DeleteGroupAction::new(group).execute(deleted).err().unwrap(),
        "Failed to delete the group".into()
    );
}

#[test]
fn add_user_action_applies_where_the_name_is_free() {
    let db = UserDBLocal::import_from_strings("test:x:1:1::/:/bin/sh", "", "").unwrap();
    let group: Rc<Group> = Rc::new("teste:x:1002:".parse().unwrap());
    let fresh = Rc::new(User::default());
    assert!(AddUserAction::new(&fresh, Rc::clone(&group))
        .validate(empty(), &db)
        .is_ok());
    let taken = Rc::new(User::default().username("test".to_owned()).clone());
    assert_eq!(
        AddUserAction::new(&taken, group).validate(empty(), &db).err().unwrap(),
        "The username test already exists! Aborting!".into()
    );
}
