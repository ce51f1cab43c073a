//! The errors that the library reports.
use vstd::prelude::*;
use vstd::std_specs::cmp::PartialEqSpecImpl;
use vstd::std_specs::convert::FromSpecImpl;

use crate::text::same_text;

verus! {

/// Why an operation on the identity database failed.
#[derive(Debug)]
pub enum UserLibError {
    /// No user or group of that name or number exists.
    NotFound,
    /// A table changed on disk since this process last read or wrote it.
    FilesChanged,
    /// The operation needs the three tables as files, and the text that
    /// they hold, and has not got them.
    FilesRequired,
    /// Another process holds the lock on a table.
    AlreadyLocked,
    /// Anything else, in words: a malformed record, a line that could not be
    /// removed, a failed step of the locking.
    Message(String),
}

/// An error as a mathematical value.
pub enum ErrorView {
    NotFound,
    FilesChanged,
    FilesRequired,
    AlreadyLocked,
    Message(Seq<char>),
}

impl View for UserLibError {
    type V = ErrorView;

    open spec fn view(&self) -> ErrorView {
        match self {
            UserLibError::NotFound => ErrorView::NotFound,
            UserLibError::FilesChanged => ErrorView::FilesChanged,
            UserLibError::FilesRequired => ErrorView::FilesRequired,
            UserLibError::AlreadyLocked => ErrorView::AlreadyLocked,
            UserLibError::Message(m) => ErrorView::Message(m@),
        }
    }
}

impl UserLibError {
    /// The error that says `text`.
    pub fn message(text: &str) -> (e: UserLibError)
        ensures
            e@ == ErrorView::Message(text@),
    {
        UserLibError::Message(text.to_owned())
    }

    /// The error in words.
    pub fn to_string(&self) -> (s: String)
        ensures
            s@ == match self@ {
                ErrorView::NotFound => "Not found"@,
                ErrorView::FilesChanged => "The file has been modified by another process. Abort to avoid corruption."@,
                ErrorView::FilesRequired => "The tables are required as files, and are missing."@,
                ErrorView::AlreadyLocked => "The file is locked by another process."@,
                ErrorView::Message(m) => m,
            },
    {
        match self {
            UserLibError::NotFound => "Not found".to_owned(),
            UserLibError::FilesChanged => "The file has been modified by another process. Abort to avoid corruption.".to_owned(),
            UserLibError::FilesRequired => "The tables are required as files, and are missing.".to_owned(),
            UserLibError::AlreadyLocked => "The file is locked by another process.".to_owned(),
            UserLibError::Message(m) => m.clone(),
        }
    }
}

impl PartialEq for UserLibError {
    /// Two errors are the same where they are of one kind and say the same.
    fn eq(&self, other: &Self) -> (r: bool) {
        match (self, other) {
            (UserLibError::NotFound, UserLibError::NotFound) => true,
            (UserLibError::FilesChanged, UserLibError::FilesChanged) => true,
            (UserLibError::FilesRequired, UserLibError::FilesRequired) => true,
            (UserLibError::AlreadyLocked, UserLibError::AlreadyLocked) => true,
            (UserLibError::Message(a), UserLibError::Message(b)) => same_text(
                a.as_str(),
                b.as_str(),
            ),
            _ => false,
        }
    }
}

impl PartialEqSpecImpl for UserLibError {
    open spec fn obeys_eq_spec() -> bool {
        true
    }

    open spec fn eq_spec(&self, other: &Self) -> bool {
        self@ == other@
    }
}

impl From<&str> for UserLibError {
    /// The error that says `text`.
    fn from(text: &str) -> (e: UserLibError)
        ensures
            e@ == ErrorView::Message(text@),
    {
        UserLibError::message(text)
    }
}

/// What `from` makes of a string slice is said by the contract of `from`
/// itself, over the view: no string is named here that the error would
/// hold.
impl FromSpecImpl<&str> for UserLibError {
    open spec fn obeys_from_spec() -> bool {
        false
    }

    open spec fn from_spec(text: &str) -> UserLibError {
        arbitrary()
    }
}

impl From<String> for UserLibError {
    /// The error that says `text`.
    fn from(text: String) -> (e: UserLibError) {
        UserLibError::Message(text)
    }
}

impl FromSpecImpl<String> for UserLibError {
    open spec fn obeys_from_spec() -> bool {
        true
    }

    open spec fn from_spec(text: String) -> UserLibError {
        UserLibError::Message(text)
    }
}

} // verus!
