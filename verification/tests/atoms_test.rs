use std::rc::Rc;
use umanux::userlib::files::oplog::atoms::{
    AddGroupLine, AddPasswdLine, AddShadowLine, DeleteGroupLine, DeletePasswdLine,
    DeleteShadowLine,
};
use umanux::userlib::files::oplog::ExecutableAtom;
use umanux::{Group, User};

#[test]
fn test_add_passwd_line() {
    let content = String::new();
    let first_user = Rc::new(User::default());
    let apl = AddPasswdLine(Rc::clone(&first_user));

    // test first user adding
    let result_first = apl.execute(content).unwrap();
    // verify the number of lines
    assert!(result_first.lines().count() == 1);
    // verify the line content
    assert_eq!(result_first.trim_end(), &first_user.to_string());
    assert_eq!(
        result_first.trim_end(),
        "defaultusername:x:1001:1001::/:/bin/nologin"
    );

    // add a second user
    let apl2 = AddPasswdLine(Rc::clone(&first_user));
    let result_second = apl2.execute(result_first).unwrap();
    // verify the number of lines
    assert!(result_second.lines().count() == 2);
    // verify the line content
    for line in result_second.lines() {
        assert_eq!(line.trim_end(), &first_user.to_string());
    }

    // add a third and different user
    let second_user = Rc::new(User::default().username("hänno".to_string()).clone());
    let apl3 = AddPasswdLine(Rc::clone(&second_user));
    let result_third = apl3.execute(result_second).unwrap();
    // verify the number of lines
    assert!(result_third.lines().count() == 3);
    // verify the line content
    assert_eq!(result_third.lines().next().unwrap(), first_user.to_string());
    assert_eq!(
        result_third.lines().last().unwrap(),
        second_user.to_string()
    );
}

#[test]
fn test_add_shadow_line() {
    let content = String::new();
    let first_user = Rc::new(User::default());
    let apl = AddShadowLine(Rc::clone(&first_user));

    // test first user adding
    let result_first = apl.execute(content).unwrap();
    // verify the number of lines
    assert!(result_first.lines().count() == 1);
    // verify the line content
    assert_eq!(
        result_first.trim_end(),
        &first_user.get_shadow().unwrap().to_string()
    );
    assert_eq!(result_first.trim_end(), "defaultusername:!!:0:0:99999:7:::");

    // add a second user
    let apl2 = AddShadowLine(Rc::clone(&first_user));
    let result_second = apl2.execute(result_first).unwrap();
    // verify the number of lines
    assert!(result_second.lines().count() == 2);
    // verify the line content
    for line in result_second.lines() {
        assert_eq!(
            line.trim_end(),
            &first_user.get_shadow().unwrap().to_string()
        );
    }

    // add a third and different user
    let second_user = Rc::new(User::default().username("hänno".to_string()).clone());
    let apl3 = AddShadowLine(Rc::clone(&second_user));
    let result_third = apl3.execute(result_second).unwrap();
    // verify the number of lines
    assert!(result_third.lines().count() == 3);
    // verify the line content
    assert_eq!(
        result_third.lines().next().unwrap(),
        first_user.get_shadow().unwrap().to_string()
    );
    assert_eq!(
        result_third.lines().last().unwrap(),
        second_user.get_shadow().unwrap().to_string()
    );
}

#[test]
fn test_add_group_line() {
    let content = String::new();
    let line = "teste:x:1002:test,teste";
    let group: Rc<Group> = Rc::new(line.parse().unwrap());
    let apl = AddGroupLine(Rc::clone(&group));

    // test first user adding
    let result_first = apl.execute(content).unwrap();
    // verify the number of lines
    assert!(result_first.lines().count() == 1);
    // verify the line content
    assert_eq!(result_first.trim_end(), group.to_string());
    assert_eq!(result_first.trim_end(), "teste:x:1002:test,teste");

    // add a second user
    let apl2 = AddGroupLine(Rc::clone(&group));
    let result_second = apl2.execute(result_first).unwrap();
    // verify the number of lines
    assert!(result_second.lines().count() == 2);
    // verify the line content
    for line in result_second.lines() {
        assert_eq!(line.trim_end(), group.to_string());
    }

    // add a third and different user
    let second_user: Rc<Group> = Rc::new("haenno:x:1002:test,teste".parse().unwrap());
    let apl3 = AddGroupLine(Rc::clone(&second_user));
    let result_third = apl3.execute(result_second).unwrap();
    // verify the number of lines
    assert!(result_third.lines().count() == 3);
    // verify the line content
    assert_eq!(result_third.lines().next().unwrap(), group.to_string());
    assert_eq!(
        result_third.lines().last().unwrap(),
        second_user.to_string()
    );
}

#[test]
fn test_delete_passwd_line() {
    let content = String::new();
    let first_user = Rc::new(User::default());
    let second_user = Rc::new(User::default().username("hänno".to_string()).clone());

    // Add a user and delete again
    let add_password_line = AddPasswdLine(Rc::clone(&first_user));
    let result_first = add_password_line.execute(content).unwrap();
    let delete_password_line = DeletePasswdLine(Rc::clone(&first_user));
    let result_first = delete_password_line.execute(result_first).unwrap();
    // verify the number of lines
    assert!(result_first.lines().count() == 0);
    // verify the line content
    assert_eq!(result_first, "");

    // delete from within other users
    let content = "defaultusername:x:1001:1001::/:/bin/nologin
defaultusername:x:1001:1001::/:/bin/nologin
hänno:x:1001:1001::/:/bin/nologin
defaultusername:x:1001:1001::/:/bin/nologin"
        .to_string();
    let delete_password_line = DeletePasswdLine(Rc::clone(&second_user));
    let result_second = delete_password_line.execute(content).unwrap();
    // verify the number of lines
    assert_eq!(result_second.lines().count(), 3);
    // verify the line content
    for line in result_second.lines() {
        assert_eq!(line.trim_end(), &first_user.to_string());
    }
    let delete_password_line = DeletePasswdLine(Rc::clone(&second_user));
    let result_third = delete_password_line.execute(result_second);
    assert_eq!(result_third, Err("Failed to delete the user".into()))
}

#[test]
fn test_delete_shadow_line() {
    let content = String::new();
    let first_user = Rc::new(User::default());
    let second_user = Rc::new(User::default().username("hänno".to_string()).clone());

    // Add a user and delete again
    let add_shadow_line = AddShadowLine(Rc::clone(&first_user));
    let result_first = add_shadow_line.execute(content).unwrap();
    let delete_shadow_line = DeleteShadowLine(Rc::clone(&first_user));
    let result_first = delete_shadow_line.execute(result_first).unwrap();
    // verify the number of lines
    assert!(result_first.lines().count() == 0);
    // verify the line content
    assert_eq!(result_first, "");

    // delete from within other users
    let content = "defaultusername:!!:0:0:99999:7:::
defaultusername:!!:0:0:99999:7:::
hänno:!!:0:0:99999:7:::
defaultusername:!!:0:0:99999:7:::"
        .to_string();
    let delete_password_line = DeleteShadowLine(Rc::clone(&second_user));
    let result_second = delete_password_line.execute(content).unwrap();
    // verify the number of lines
    assert_eq!(result_second.lines().count(), 3);
    // verify the line content
    for line in result_second.lines() {
        assert_eq!(
            line.trim_end(),
            &first_user.get_shadow().unwrap().to_string()
        );
    }
    let delete_password_line = DeleteShadowLine(Rc::clone(&second_user));
    let result_third = delete_password_line.execute(result_second);
    assert_eq!(
        result_third,
        Err("Failed to delete the users shadow".into())
    )
}

#[test]
fn test_delete_group_line() {
    let content = String::new();
    let line = "teste:x:1002:test,teste";
    let group: Rc<Group> = Rc::new(line.parse().unwrap());
    let add_group_line = AddGroupLine(Rc::clone(&group));
    let delete_group_line = DeleteGroupLine(Rc::clone(&group));

    // test first user adding
    let result_first = add_group_line.execute(content).unwrap();
    let result_first = delete_group_line.execute(result_first).unwrap();
    // verify the number of lines
    assert!(result_first.lines().count() == 0);
    // verify the line content
    assert_eq!(result_first, "");

    // delete from within other users
    let content = "anders:x:1002:test,teste
anders:x:1002:test,teste
teste:x:1002:test,teste
anders:x:1002:test,teste"
        .to_string();
    let delete_password_line = DeleteGroupLine(Rc::clone(&group));
    let result_second = delete_password_line.execute(content).unwrap();
    // verify the number of lines
    assert_eq!(result_second.lines().count(), 3);
    // verify the line content
    for line in result_second.lines() {
        assert_eq!(line.trim_end(), "anders:x:1002:test,teste");
    }
    let delete_password_line = DeleteGroupLine(Rc::clone(&group));
    let result_third = delete_password_line.execute(result_second);
    assert_eq!(result_third, Err("Failed to delete the group".into()))
}

#[test]
fn delete_group_line_twice() {
    let group: Rc<Group> = Rc::new("teste:x:1002:test,teste".parse().unwrap());
    let once = DeleteGroupLine(Rc::clone(&group))
        .execute("teste:x:1002:test,teste".to_string())
        .unwrap();
    assert_eq!(once, "");
    let twice = DeleteGroupLine(Rc::clone(&group)).execute(once);
    assert_eq!(twice, Err("Failed to delete the group".into()));
}

#[test]
fn delete_line_that_stands_twice_is_refused() {
    let user = Rc::new(User::default());
    let line = user.to_string();
    let content = format!("{}\n{}\n", line, line);
    assert_eq!(
        DeletePasswdLine(Rc::clone(&user)).execute(content),
        Err("Failed to delete the user".into())
    );
}

#[test]
fn shadow_atoms_need_a_shadow_record() {
    let mut plain = User::default();
    plain.disable_password();
    let plain = Rc::new(plain);
    assert_eq!(
        AddShadowLine(Rc::clone(&plain)).execute(String::new()),
        Err("The user does not have a shadow field but this is required".into())
    );
    assert_eq!(
        DeleteShadowLine(Rc::clone(&plain)).execute(String::new()),
        Err("the user has to have a shadow entry".into())
    );
}

#[test]
fn delete_atoms_read_lines_that_end_in_a_carriage_return() {
    let group: Rc<Group> = Rc::new("teste:x:1002:test,teste".parse().unwrap());
    assert_eq!(
        DeleteGroupLine(Rc::clone(&group)).execute("teste:x:1002:test,teste\r\n".to_string()),
        Ok(String::new())
    );
    assert_eq!(
        DeleteGroupLine(Rc::clone(&group))
            .execute("a:x:1:\r\nteste:x:1002:test,teste\r\nb:x:2:\r\n".to_string()),
        Ok("a:x:1:\nb:x:2:".to_string())
    );
    let user = Rc::new(User::default());
    let content = format!("{}\r\n", user.to_string());
    assert_eq!(
        DeletePasswdLine(Rc::clone(&user)).execute(content),
        Ok(String::new())
    );
    let content = format!("{}\r\n", user.get_shadow().unwrap().to_string());
    assert_eq!(
        DeleteShadowLine(Rc::clone(&user)).execute(content),
        Ok(String::new())
    );
}
