//! Changes to the text of the tables, small and composed.
//!
//! An atom adds one line to the text of one table, or takes one out. An
//! action puts atoms together to one change of the three tables, which
//! takes effect as a whole or not at all. Nothing here looks at the
//! database: whether a change makes sense is for the caller to say, or for
//! `validate` where an action has it.
pub mod actions;
pub mod atoms;

use vstd::prelude::*;

use crate::error::{ErrorView, UserLibError};
use crate::userlib::files::{ContentsView, FileContents};
use crate::userlib::{DBView, UserDBLocal};

verus! {

/// The outcome of a change to the text of one table, as a mathematical
/// value.
pub open spec fn text_result(r: Result<String, UserLibError>) -> Result<Seq<char>, ErrorView> {
    match r {
        Ok(s) => Ok(s@),
        Err(e) => Err(e@),
    }
}

/// The outcome of a change to the text of the three tables, as a
/// mathematical value.
pub open spec fn contents_result(r: Result<FileContents, UserLibError>) -> Result<
    ContentsView,
    ErrorView,
> {
    match r {
        Ok(c) => Ok(c@),
        Err(e) => Err(e@),
    }
}

/// The outcome of a check, as a mathematical value.
pub open spec fn check_result(r: Result<(), UserLibError>) -> Result<(), ErrorView> {
    match r {
        Ok(()) => Ok(()),
        Err(e) => Err(e@),
    }
}

/// A change of one line in the text of one table.
pub trait ExecutableAtom: Sized {
    /// What the text of the table is after the change.
    spec fn effect(&self, content: Seq<char>) -> Result<Seq<char>, ErrorView>;

    /// Makes the change.
    fn execute(self, content: String) -> (r: Result<String, UserLibError>)
        ensures
            text_result(r) == self.effect(content@),
    ;
}

/// A change of the three tables that is made of atoms.
pub trait ExecutableUnit: Sized {
    /// What the text of the tables is after the change.
    spec fn effect(&self, contents: ContentsView) -> Result<ContentsView, ErrorView>;

    /// Makes the change: every atom takes effect, or the first error is
    /// all that comes of it.
    fn execute(self, contents: FileContents) -> (r: Result<FileContents, UserLibError>)
        ensures
            contents_result(r) == self.effect(contents@),
    ;
}

/// A change that can tell whether it applies to a database.
pub trait ValidatableUnit: Sized {
    /// Whether the change applies to the database.
    spec fn applies(&self, contents: ContentsView, db: DBView) -> Result<(), ErrorView>;

    /// Tells whether the change applies to the database.
    fn validate(self, contents: FileContents, db: &UserDBLocal) -> (r: Result<(), UserLibError>)
        ensures
            check_result(r) == self.applies(contents@, db@),
    ;
}

} // verus!
