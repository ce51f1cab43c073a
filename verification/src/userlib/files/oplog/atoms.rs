//! The smallest changes to the text of a table: one line more, one line
//! less. An atom checks nothing but its own effect; it makes sense only as
//! a part of an action.
use std::rc::Rc;
use vstd::prelude::*;

use crate::error::{ErrorView, UserLibError};
use crate::group::Group;
use crate::text::{chars_of, line_count, push_all, strike_line, string_of, without_line};
use crate::user::User;
use crate::userlib::files::oplog::{ExecutableAtom, text_result};

verus! {

/// `content` with `line` and a newline after it.
pub open spec fn with_line(content: Seq<char>, line: Seq<char>) -> Seq<char> {
    (content + line).push('\n')
}

/// `content` without its one line that is `line`; the error that says
/// `failure` where it does not have exactly one such line.
pub open spec fn less_line(content: Seq<char>, line: Seq<char>, failure: Seq<char>) -> Result<
    Seq<char>,
    ErrorView,
> {
    if line_count(content, line) == 1 {
        Ok(without_line(content, line))
    } else {
        Err(ErrorView::Message(failure))
    }
}

/// Adds `line` and a newline to `content`.
fn add_line(content: String, line: &Vec<char>) -> (r: String)
    ensures
        r@ == with_line(content@, line@),
{
    let mut chars = chars_of(content.as_str());
    push_all(&mut chars, line);
    chars.push('\n');
    string_of(&chars)
}

/// Takes the one line that is `line` out of `content`.
fn delete_line(content: String, line: &Vec<char>, failure: &str) -> (r: Result<String, UserLibError>)
    ensures
        text_result(r) == less_line(content@, line@, failure@),
{
    let chars = chars_of(content.as_str());
    let (rest, count) = strike_line(&chars, line);
    if count == 1 {
        Ok(string_of(&rest))
    } else {
        Err(UserLibError::message(failure))
    }
}

/// Adds the line of a user to the user table.
pub struct AddPasswdLine(pub Rc<User>);

impl ExecutableAtom for AddPasswdLine {
    open spec fn effect(&self, content: Seq<char>) -> Result<Seq<char>, ErrorView> {
        Ok(with_line(content, self.0@.line()))
    }

    fn execute(self, content: String) -> (r: Result<String, UserLibError>) {
        let selfline = self.0.line_chars();
        Ok(add_line(content, &selfline))
    }
}

/// Adds the line of a user's record of the shadow table to that table.
/// Fails where the user holds no such record.
pub struct AddShadowLine(pub Rc<User>);

impl ExecutableAtom for AddShadowLine {
    open spec fn effect(&self, content: Seq<char>) -> Result<Seq<char>, ErrorView> {
        match self.0@.shadow() {
            Some(s) => Ok(with_line(content, s.line())),
            None => Err(
                ErrorView::Message("The user does not have a shadow field but this is required"@),
            ),
        }
    }

    fn execute(self, content: String) -> (r: Result<String, UserLibError>) {
        match self.0.get_shadow() {
            Some(shadow) => {
                let selfline = shadow.line_chars();
                Ok(add_line(content, &selfline))
            },
            None => Err(
                UserLibError::message("The user does not have a shadow field but this is required"),
            ),
        }
    }
}

/// Adds the line of a group to the group table.
pub struct AddGroupLine(pub Rc<Group>);

impl ExecutableAtom for AddGroupLine {
    open spec fn effect(&self, content: Seq<char>) -> Result<Seq<char>, ErrorView> {
        Ok(with_line(content, self.0@.line()))
    }

    fn execute(self, content: String) -> (r: Result<String, UserLibError>) {
        let selfline = self.0.line_chars();
        Ok(add_line(content, &selfline))
    }
}

/// Takes the line of a user out of the user table. Fails unless the table
/// has exactly one such line.
pub struct DeletePasswdLine(pub Rc<User>);

impl ExecutableAtom for DeletePasswdLine {
    open spec fn effect(&self, content: Seq<char>) -> Result<Seq<char>, ErrorView> {
        less_line(content, self.0@.line(), "Failed to delete the user"@)
    }

    fn execute(self, content: String) -> (r: Result<String, UserLibError>) {
        let selfline = self.0.line_chars();
        delete_line(content, &selfline, "Failed to delete the user")
    }
}

/// Takes the line of a user's record of the shadow table out of that
/// table. Fails where the user holds no such record, and unless the table
/// has exactly one such line.
pub struct DeleteShadowLine(pub Rc<User>);

impl ExecutableAtom for DeleteShadowLine {
    open spec fn effect(&self, content: Seq<char>) -> Result<Seq<char>, ErrorView> {
        match self.0@.shadow() {
            Some(s) => less_line(content, s.line(), "Failed to delete the users shadow"@),
            None => Err(ErrorView::Message("the user has to have a shadow entry"@)),
        }
    }

    fn execute(self, content: String) -> (r: Result<String, UserLibError>) {
        match self.0.get_shadow() {
            Some(shadow) => {
                let selfline = shadow.line_chars();
                delete_line(content, &selfline, "Failed to delete the users shadow")
            },
            None => Err(UserLibError::message("the user has to have a shadow entry")),
        }
    }
}

/// Takes the line of a group out of the group table. Fails unless the
/// table has exactly one such line.
pub struct DeleteGroupLine(pub Rc<Group>);

impl ExecutableAtom for DeleteGroupLine {
    open spec fn effect(&self, content: Seq<char>) -> Result<Seq<char>, ErrorView> {
        less_line(content, self.0@.line(), "Failed to delete the group"@)
    }

    fn execute(self, content: String) -> (r: Result<String, UserLibError>) {
        let selfline = self.0.line_chars();
        delete_line(content, &selfline, "Failed to delete the group")
    }
}

} // verus!
