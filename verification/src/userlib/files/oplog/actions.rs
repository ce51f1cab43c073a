//! Actions: atoms put together to one change that makes sense, such as
//! adding a user with its group.
use std::rc::Rc;
use vstd::prelude::*;

use crate::error::{ErrorView, UserLibError};
use crate::group::Group;
use crate::user::User;
use crate::userlib::files::oplog::atoms::{AddGroupLine, AddPasswdLine, AddShadowLine};
use crate::userlib::files::oplog::atoms::DeleteGroupLine;
use crate::userlib::files::oplog::{ExecutableAtom, ExecutableUnit, ValidatableUnit};
use crate::userlib::files::{ContentsView, FileContents};
use crate::userlib::link::position_of;
use crate::userlib::{DBView, name_taken, UserDBLocal};

verus! {

/// Calls `Rc::clone`: one more pointer to the same value.
#[verifier::external_body]
fn share<T>(rc: &Rc<T>) -> (r: Rc<T>)
    ensures
        r == *rc,
{
    Rc::clone(rc)
}

/// Adds a user: its line to the user table, the line of its record of the
/// shadow table to that table, and the line of its group to the group
/// table.
pub struct AddUserAction {
    pub pwd: AddPasswdLine,
    pub shd: AddShadowLine,
    pub grp: AddGroupLine,
}

impl AddUserAction {
    /// The action that adds `user` with `group`.
    pub fn new(user: &Rc<User>, group: Rc<Group>) -> (r: Self)
        ensures
            r.pwd.0@ == user@,
            r.shd.0@ == user@,
            r.grp.0@ == group@,
    {
        Self {
            pwd: AddPasswdLine(share(user)),
            shd: AddShadowLine(share(user)),
            grp: AddGroupLine(group),
        }
    }
}

impl ExecutableUnit for AddUserAction {
    open spec fn effect(&self, contents: ContentsView) -> Result<ContentsView, ErrorView> {
        match self.pwd.effect(contents.pwd) {
            Err(e) => Err(e),
            Ok(pwd) => match self.shd.effect(contents.shd) {
                Err(e) => Err(e),
                Ok(shd) => match self.grp.effect(contents.grp) {
                    Err(e) => Err(e),
                    Ok(grp) => Ok(ContentsView { pwd, shd, grp }),
                },
            },
        }
    }

    fn execute(self, contents: FileContents) -> (r: Result<FileContents, UserLibError>) {
        let pwd = match self.pwd.execute(contents.pwd) {
            Ok(t) => t,
            Err(e) => {
                return Err(e);
            },
        };
        let shd = match self.shd.execute(contents.shd) {
            Ok(t) => t,
            Err(e) => {
                return Err(e);
            },
        };
        let grp = match self.grp.execute(contents.grp) {
            Ok(t) => t,
            Err(e) => {
                return Err(e);
            },
        };
        Ok(FileContents { pwd, shd, grp })
    }
}

impl ValidatableUnit for AddUserAction {
    /// The action applies where no user of the database has the name of
    /// the user that it adds.
    open spec fn applies(&self, contents: ContentsView, db: DBView) -> Result<(), ErrorView> {
        if position_of(db.users, self.pwd.0@.username) is Some {
            Err(ErrorView::Message(name_taken(self.pwd.0@.username)))
        } else {
            Ok(())
        }
    }

    fn validate(self, contents: FileContents, db: &UserDBLocal) -> (r: Result<(), UserLibError>) {
        let name = match self.pwd.0.get_username() {
            Some(n) => n,
            None => "",
        };
        if db.get_user_by_name(name).is_some() {
            let mut text = crate::text::chars_of("The username ");
            let n = crate::text::chars_of(name);
            crate::text::push_all(&mut text, &n);
            let tail = crate::text::chars_of(" already exists! Aborting!");
            crate::text::push_all(&mut text, &tail);
            assert(text@ == name_taken(name@));
            Err(UserLibError::Message(crate::text::string_of(&text)))
        } else {
            Ok(())
        }
    }
}

/// Adds a group: its line to the group table.
pub struct AddGroupAction {
    pub grp: AddGroupLine,
}

impl AddGroupAction {
    /// The action for `group`.
    pub fn new(group: Rc<Group>) -> (r: Self)
        ensures
            r.grp.0@ == group@,
    {
        Self { grp: AddGroupLine(group) }
    }
}

impl ExecutableUnit for AddGroupAction {
    open spec fn effect(&self, contents: ContentsView) -> Result<ContentsView, ErrorView> {
        match self.grp.effect(contents.grp) {
            Err(e) => Err(e),
            Ok(grp) => Ok(ContentsView { grp, ..contents }),
        }
    }

    fn execute(self, contents: FileContents) -> (r: Result<FileContents, UserLibError>) {
        match self.grp.execute(contents.grp) {
            Ok(grp) => Ok(FileContents { pwd: contents.pwd, shd: contents.shd, grp }),
            Err(e) => Err(e),
        }
    }
}

/// Deletes a group: takes its line out of the group table.
pub struct DeleteGroupAction {
    pub grp: DeleteGroupLine,
}

impl DeleteGroupAction {
    /// The action for `group`.
    pub fn new(group: Rc<Group>) -> (r: Self)
        ensures
            r.grp.0@ == group@,
    {
        Self { grp: DeleteGroupLine(group) }
    }
}

impl ExecutableUnit for DeleteGroupAction {
    open spec fn effect(&self, contents: ContentsView) -> Result<ContentsView, ErrorView> {
        match self.grp.effect(contents.grp) {
            Err(e) => Err(e),
            Ok(grp) => Ok(ContentsView { grp, ..contents }),
        }
    }

    fn execute(self, contents: FileContents) -> (r: Result<FileContents, UserLibError>) {
        match self.grp.execute(contents.grp) {
            Ok(grp) => Ok(FileContents { pwd: contents.pwd, shd: contents.shd, grp }),
            Err(e) => Err(e),
        }
    }
}

} // verus!
