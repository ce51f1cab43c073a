//! What a caller hands to the operations that change the database.
use vstd::prelude::*;

verus! {

/// Whether the home directory of a deleted user is to be removed.
#[derive(Debug, PartialEq, Eq, Structural, Clone, Copy)]
pub enum DeleteHome {
    Delete,
    Keep,
}

/// What `delete_user` is to do.
#[derive(Debug, Clone)]
pub struct DeleteUserArgs<'a> {
    pub username: &'a str,
    pub delete_home: DeleteHome,
}

/// Collects what `delete_user` is to do.
#[derive(Debug, Clone)]
pub struct DeleteUserArgsBuilder<'a> {
    pub username: Option<&'a str>,
    pub delete_home: Option<DeleteHome>,
}

impl<'a> DeleteUserArgs<'a> {
    /// Begins with nothing said.
    #[must_use]
    pub fn builder() -> (r: DeleteUserArgsBuilder<'a>)
        ensures
            r.username is None,
            r.delete_home is None,
    {
        DeleteUserArgsBuilder { username: None, delete_home: None }
    }
}

impl<'a> DeleteUserArgsBuilder<'a> {
    /// Names the user.
    pub fn username(&mut self, username: &'a str) -> (ret: &mut Self)
        ensures
            ret.username == Some(username),
            ret.delete_home == old(self).delete_home,
            *final(self) == *final(ret),
    {
        self.username = Some(username);
        self
    }

    /// Says whether the home directory is to be removed.
    pub fn delete_home(&mut self, delete_home: DeleteHome) -> (ret: &mut Self)
        ensures
            ret.username == old(self).username,
            ret.delete_home == Some(delete_home),
            *final(self) == *final(ret),
    {
        self.delete_home = Some(delete_home);
        self
    }

    /// The arguments: the name that was given, and whether to remove the
    /// home directory, which is kept unless that was asked for. Fails where
    /// no name was given.
    pub fn build(&self) -> (r: Result<DeleteUserArgs<'a>, String>)
        ensures
            match self.username {
                Some(name) => r is Ok && r->Ok_0.username == name && r->Ok_0.delete_home == (
                match self.delete_home {
                    Some(d) => d,
                    None => DeleteHome::Keep,
                }),
                None => r is Err && r->Err_0@ == "`username` must be initialized"@,
            },
    {
        match self.username {
            Some(username) => Ok(
                DeleteUserArgs {
                    username,
                    delete_home: match self.delete_home {
                        Some(d) => d,
                        None => DeleteHome::Keep,
                    },
                },
            ),
            None => Err("`username` must be initialized".to_owned()),
        }
    }
}

/// What `new_user` is to do.
#[derive(Debug, Clone)]
pub struct CreateUserArgs<'a> {
    pub username: &'a str,
}

/// Collects what `new_user` is to do.
#[derive(Debug, Clone)]
pub struct CreateUserArgsBuilder<'a> {
    pub username: Option<&'a str>,
}

impl<'a> CreateUserArgs<'a> {
    /// Begins with nothing said.
    #[must_use]
    pub fn builder() -> (r: CreateUserArgsBuilder<'a>)
        ensures
            r.username is None,
    {
        CreateUserArgsBuilder { username: None }
    }
}

impl<'a> CreateUserArgsBuilder<'a> {
    /// Names the user.
    pub fn username(&mut self, username: &'a str) -> (ret: &mut Self)
        ensures
            ret.username == Some(username),
            *final(self) == *final(ret),
    {
        self.username = Some(username);
        self
    }

    /// The arguments. Fails where no name was given.
    pub fn build(&self) -> (r: Result<CreateUserArgs<'a>, String>)
        ensures
            match self.username {
                Some(name) => r is Ok && r->Ok_0.username == name,
                None => r is Err && r->Err_0@ == "`username` must be initialized"@,
            },
    {
        match self.username {
            Some(username) => Ok(CreateUserArgs { username }),
            None => Err("`username` must be initialized".to_owned()),
        }
    }
}

} // verus!
