//! A record of the user table.
pub mod gecos_fields;
pub mod passwd_fields;
pub mod position;
pub mod shadow_fields;

use vstd::prelude::*;

use crate::error::{ErrorView, UserLibError};
use crate::group::MembershipKind;
use crate::number::{decimal, decimal_chars, is_canonical_decimal, lemma_value_decimal, parse_u32};
use crate::number::u32_of;
use crate::text::{chars_of, join, join_chars, lemma_join_split, split, split_chars, string_of};
use crate::text::views;
use crate::user::gecos_fields::{Gecos, GecosView, lemma_gecos_round_trip, parse_gecos};
use crate::user::passwd_fields::{name_valid, Password, PasswordView, valid_name};
use crate::user::shadow_fields::{Shadow, ShadowView};
use crate::userlib::{LineNumerable, Numbered, NumberedView};

pub use crate::user::position::Position;

verus! {

/// A record (line) of the user table.
#[derive(Debug, PartialEq, Eq, Clone)]
pub struct User {
    source: String,
    pos: Position,
    username: String,
    password: Password,
    uid: u32,
    gid: u32,
    gecos: Gecos,
    home_dir: String,
    shell_path: String,
    groups: Vec<(MembershipKind, usize)>,
}

/// A record of the user table as a mathematical value. `groups` holds, for
/// each group that the user belongs to, how it does and the number of the
/// line of the group table that the group was read from.
pub struct UserView {
    pub source: Seq<char>,
    pub pos: Position,
    pub username: Seq<char>,
    pub password: PasswordView,
    pub uid: u32,
    pub gid: u32,
    pub gecos: GecosView,
    pub home_dir: Seq<char>,
    pub shell_path: Seq<char>,
    pub groups: Seq<(MembershipKind, usize)>,
}

impl View for User {
    type V = UserView;

    closed spec fn view(&self) -> UserView {
        UserView {
            source: self.source@,
            pos: self.pos,
            username: self.username@,
            password: self.password@,
            uid: self.uid,
            gid: self.gid,
            gecos: self.gecos@,
            home_dir: self.home_dir@,
            shell_path: self.shell_path@,
            groups: self.groups@,
        }
    }
}

impl UserView {
    /// The seven fields of the record's line.
    pub open spec fn fields(self) -> Seq<Seq<char>> {
        seq![
            self.username,
            self.password.text(),
            decimal(self.uid as nat),
            decimal(self.gid as nat),
            self.gecos.text(),
            self.home_dir,
            self.shell_path,
        ]
    }

    /// The record as a line of the user table.
    pub open spec fn line(self) -> Seq<char> {
        join(self.fields(), ':')
    }

    /// The record under another name. The record of the shadow table that
    /// it holds, if any, goes by the new name too.
    pub open spec fn renamed(self, name: Seq<char>) -> UserView {
        UserView {
            username: name,
            password: match self.password {
                PasswordView::Shadow(s) => PasswordView::Shadow(
                    NumberedView { pos: s.pos, value: ShadowView { username: name, ..s.value } },
                ),
                p => p,
            },
            ..self
        }
    }

    /// The record of the shadow table that the user holds, if any.
    pub open spec fn shadow(self) -> Option<ShadowView> {
        match self.password {
            PasswordView::Shadow(s) => Some(s.value),
            _ => None,
        }
    }
}

/// The record of a new user named `defaultusername`: numbers 1001, no
/// comment, `/` for a home, no shell to log in with, and a record of the
/// shadow table to go with it.
pub open spec fn default_user() -> UserView {
    UserView {
        source: Seq::<char>::empty(),
        pos: Position::NewToFile,
        username: "defaultusername"@,
        password: PasswordView::Shadow(
            NumberedView {
                pos: usize::MAX,
                value: ShadowView {
                    source: Seq::<char>::empty(),
                    username: "defaultusername"@,
                    password: "!!"@,
                    last_change: Some(0i64),
                    earliest_change: Some(0i64),
                    latest_change: Some(8_639_913_600i64),
                    warn_period: Some(7i64),
                    deactivated: None,
                    deactivated_since: None,
                    extensions: None,
                },
            },
        ),
        uid: 1001,
        gid: 1001,
        gecos: GecosView::Simple { comment: Seq::<char>::empty() },
        home_dir: "/"@,
        shell_path: "/bin/nologin"@,
        groups: Seq::<(MembershipKind, usize)>::empty(),
    }
}

/// The outcome of a line that is malformed, in words.
pub open spec fn message(text: Seq<char>) -> Result<UserView, ErrorView> {
    Err(ErrorView::Message(text))
}

/// What a line of the user table denotes: seven fields between colons, a
/// valid user name, any password, two numbers, a comment field, and any
/// home and shell. The first field that is malformed gives the error.
pub open spec fn parse_user(line: Seq<char>) -> Result<UserView, ErrorView> {
    let f = split(line, ':');
    if f.len() != 7 {
        message("Failed to parse: not enough elements"@)
    } else if !name_valid(f[0]) {
        message("Invalid username"@)
    } else if u32_of(f[2]) is None {
        message("Invalid uid"@)
    } else if u32_of(f[3]) is None {
        message("Invalid gid"@)
    } else {
        match parse_gecos(f[4]) {
            Err(e) => Err(e),
            Ok(gecos) => Ok(
                UserView {
                    source: line,
                    pos: Position::NotAssignedYet,
                    username: f[0],
                    password: PasswordView::Encrypted(f[1]),
                    uid: u32_of(f[2])->Some_0,
                    gid: u32_of(f[3])->Some_0,
                    gecos,
                    home_dir: f[5],
                    shell_path: f[6],
                    groups: Seq::<(MembershipKind, usize)>::empty(),
                },
            ),
        }
    }
}

/// Whether `line` is a line of the user table with its two numbers written
/// in the shortest way: no plus sign, no leading zero.
pub open spec fn is_well_formed_user_line(line: Seq<char>) -> bool {
    let f = split(line, ':');
    &&& parse_user(line) is Ok
    &&& is_canonical_decimal(f[2])
    &&& is_canonical_decimal(f[3])
}

/// Every well-formed line of the user table is written back as it was
/// read.
pub proof fn lemma_user_round_trip(line: Seq<char>)
    requires
        is_well_formed_user_line(line),
    ensures
        parse_user(line)->Ok_0.line() == line,
{
    let f = split(line, ':');
    let u = parse_user(line)->Ok_0;
    lemma_join_split(line, ':');
    assert(f[2][0] != '+');
    assert(f[3][0] != '+');
    lemma_value_decimal(f[2]);
    lemma_value_decimal(f[3]);
    lemma_gecos_round_trip(f[4]);
    assert(u.fields() == f);
}

/// The result of reading a line, as a mathematical value.
pub open spec fn user_result(r: Result<User, UserLibError>) -> Result<UserView, ErrorView> {
    match r {
        Ok(u) => Ok(u@),
        Err(e) => Err(e@),
    }
}

impl User {
    /// Reads a line of the user table.
    pub fn parse_line(line: &str) -> (r: Result<User, UserLibError>)
        ensures
            user_result(r) == parse_user(line@),
    {
        let chars = chars_of(line);
        let f = split_chars(&chars, ':');
        if f.len() != 7 {
            return Err(UserLibError::message("Failed to parse: not enough elements"));
        }
        assert(forall|i: int| 0 <= i < 7 ==> (#[trigger] views(f@)[i]) == f@[i]@);
        if !valid_name(&f[0]) {
            return Err(UserLibError::message("Invalid username"));
        }
        let uid = match parse_u32(&f[2]) {
            Some(uid) => uid,
            None => {
                return Err(UserLibError::message("Invalid uid"));
            },
        };
        let gid = match parse_u32(&f[3]) {
            Some(gid) => gid,
            None => {
                return Err(UserLibError::message("Invalid gid"));
            },
        };
        let gecos = match Gecos::parse(&f[4]) {
            Ok(gecos) => gecos,
            Err(e) => {
                return Err(e);
            },
        };
        Ok(
            User {
                source: line.to_owned(),
                pos: Position::NotAssignedYet,
                username: string_of(&f[0]),
                password: Password::Encrypted(string_of(&f[1])),
                uid,
                gid,
                gecos,
                home_dir: string_of(&f[5]),
                shell_path: string_of(&f[6]),
                groups: Vec::new(),
            },
        )
    }

    /// A copy of the record.
    pub fn duplicate(&self) -> (r: User)
        ensures
            r@ == self@,
    {
        let mut groups: Vec<(MembershipKind, usize)> = Vec::new();
        let mut i: usize = 0;
        while i < self.groups.len()
            invariant
                i <= self.groups.len(),
                groups@ == self.groups@.take(i as int),
            decreases self.groups.len() - i,
        {
            groups.push(self.groups[i]);
            i += 1;
        }
        assert(self.groups@.take(self.groups.len() as int) == self.groups@);
        User {
            source: self.source.clone(),
            pos: match self.pos {
                Position::At(n) => Position::At(n),
                Position::NotInFile => Position::NotInFile,
                Position::NewToFile => Position::NewToFile,
                Position::NotAssignedYet => Position::NotAssignedYet,
            },
            username: self.username.clone(),
            password: self.password.duplicate(),
            uid: self.uid,
            gid: self.gid,
            gecos: self.gecos.duplicate(),
            home_dir: self.home_dir.clone(),
            shell_path: self.shell_path.clone(),
            groups,
        }
    }

    /// The record of the shadow table that the user holds, if any.
    #[must_use]
    pub fn get_shadow(&self) -> (r: Option<&Shadow>)
        ensures
            match self@.shadow() {
                Some(s) => r is Some && r->Some_0@ == s,
                None => r is None,
            },
    {
        match &self.password {
            Password::Encrypted(_) | Password::Disabled => None,
            Password::Shadow(s) => Some(&s.value),
        }
    }

    /// `content` without the lines that are this record's source line.
    #[must_use]
    pub fn remove_in(&self, content: &str) -> (r: String)
        ensures
            r@ == crate::text::without_line(content@, self@.source),
    {
        crate::text::remove_line(content, self.source.as_str())
    }

    /// Renames the user, and with it the record of the shadow table.
    pub fn username(&mut self, name: String) -> (ret: &mut Self)
        ensures
            ret@ == old(self)@.renamed(name@),
            *final(self) == *final(ret),
    {
        let copy = name.clone();
        self.username = name;
        match &mut self.password {
            Password::Shadow(s) => {
                s.value.set_username(copy);
            },
            _ => {},
        }
        self
    }

    /// Takes the passphrase away, and with it the record of the shadow
    /// table.
    pub fn disable_password(&mut self) -> (ret: &mut Self)
        ensures
            ret@ == (UserView { password: PasswordView::Disabled, ..old(self)@ }),
            *final(self) == *final(ret),
    {
        self.password = Password::Disabled;
        self
    }

    /// Gives the user another number.
    pub fn uid(&mut self, uid: u32) -> (ret: &mut Self)
        ensures
            ret@ == (UserView { uid, ..old(self)@ }),
            *final(self) == *final(ret),
    {
        self.uid = uid;
        self
    }

    /// Gives the user another group number.
    pub fn gid(&mut self, gid: u32) -> (ret: &mut Self)
        ensures
            ret@ == (UserView { gid, ..old(self)@ }),
            *final(self) == *final(ret),
    {
        self.gid = gid;
        self
    }

    /// Gives the user another home directory.
    pub fn home_dir(&mut self, path: String) -> (ret: &mut Self)
        ensures
            ret@ == (UserView { home_dir: path@, ..old(self)@ }),
            *final(self) == *final(ret),
    {
        self.home_dir = path;
        self
    }

    /// Gives the user another shell.
    pub fn shell_path(&mut self, path: String) -> (ret: &mut Self)
        ensures
            ret@ == (UserView { shell_path: path@, ..old(self)@ }),
            *final(self) == *final(ret),
    {
        self.shell_path = path;
        self
    }

    /// Records that the user belongs to the group read from line `group`
    /// of the group table.
    pub fn add_group(&mut self, group_type: MembershipKind, group: usize) -> (ret: &mut Self)
        ensures
            ret@ == (UserView { groups: old(self)@.groups.push((group_type, group)), ..old(self)@ }),
            *final(self) == *final(ret),
    {
        self.groups.push((group_type, group));
        self
    }

    /// The edges of the user: for each group that it belongs to, how it
    /// does and the line of the group table that the group was read from.
    #[must_use]
    pub fn get_groups(&self) -> (r: &Vec<(MembershipKind, usize)>)
        ensures
            r@ == self@.groups,
    {
        &self.groups
    }

    /// Puts the record of the shadow table in the place of the password.
    pub fn set_shadow(&mut self, shadow: Numbered<Shadow>)
        ensures
            final(self)@ == (UserView { password: PasswordView::Shadow(shadow@), ..old(self)@ }),
    {
        self.password = Password::Shadow(shadow);
    }

    /// The name of the user.
    #[must_use]
    pub fn get_username(&self) -> (r: Option<&str>)
        ensures
            r is Some,
            r->Some_0@ == self@.username,
    {
        Some(self.username.as_str())
    }

    /// The hashed passphrase: the user's own, or that of the record of the
    /// shadow table.
    #[must_use]
    pub fn get_password(&self) -> (r: Option<&str>)
        ensures
            match self@.password {
                PasswordView::Encrypted(p) => r is Some && r->Some_0@ == p,
                PasswordView::Shadow(s) => r is Some && r->Some_0@ == s.value.password,
                PasswordView::Disabled => r is None,
            },
    {
        match &self.password {
            Password::Encrypted(p) => Some(p.as_str()),
            Password::Shadow(s) => Some(s.value.get_password()),
            Password::Disabled => None,
        }
    }

    /// The number of the user.
    #[must_use]
    pub fn get_uid(&self) -> (r: u32)
        ensures
            r == self@.uid,
    {
        self.uid
    }

    /// The group number of the user.
    #[must_use]
    pub fn get_gid(&self) -> (r: u32)
        ensures
            r == self@.gid,
    {
        self.gid
    }

    /// The comment field.
    #[must_use]
    pub fn get_gecos(&self) -> (r: Option<&Gecos>)
        ensures
            r is Some,
            r->Some_0@ == self@.gecos,
    {
        Some(&self.gecos)
    }

    /// The home directory.
    #[must_use]
    pub fn get_home_dir(&self) -> (r: Option<&str>)
        ensures
            r is Some,
            r->Some_0@ == self@.home_dir,
    {
        Some(self.home_dir.as_str())
    }

    /// The shell.
    #[must_use]
    pub fn get_shell_path(&self) -> (r: Option<&str>)
        ensures
            r is Some,
            r->Some_0@ == self@.shell_path,
    {
        Some(self.shell_path.as_str())
    }

    /// The line that the record was read from; empty for a record that was
    /// not read from a table.
    #[must_use]
    pub fn get_source(&self) -> (r: &str)
        ensures
            r@ == self@.source,
    {
        self.source.as_str()
    }

    /// Where the record stands in the user table.
    #[must_use]
    pub fn get_position(&self) -> (r: &Position)
        ensures
            *r == self@.pos,
    {
        &self.pos
    }

    /// The characters of the record as a line of the user table.
    pub fn line_chars(&self) -> (out: Vec<char>)
        ensures
            out@ == self@.line(),
    {
        let mut f: Vec<Vec<char>> = Vec::new();
        f.push(chars_of(self.username.as_str()));
        f.push(self.password.chars());
        f.push(decimal_chars(self.uid as u64));
        f.push(decimal_chars(self.gid as u64));
        f.push(self.gecos.chars());
        f.push(chars_of(self.home_dir.as_str()));
        f.push(chars_of(self.shell_path.as_str()));
        assert(views(f@) == self@.fields());
        join_chars(&f, ':')
    }

    /// The record as a line of the user table.
    pub fn to_string(&self) -> (s: String)
        ensures
            s@ == self@.line(),
    {
        let chars = self.line_chars();
        string_of(&chars)
    }
}

impl Default for User {
    fn default() -> (u: User)
        ensures
            u@ == default_user(),
    {
        User {
            source: String::new(),
            pos: Position::NewToFile,
            username: "defaultusername".to_owned(),
            password: Password::Shadow(
                Numbered { pos: usize::MAX, value: Shadow::new_entry("defaultusername") },
            ),
            uid: 1001,
            gid: 1001,
            gecos: Gecos::Simple { comment: String::new() },
            home_dir: "/".to_owned(),
            shell_path: "/bin/nologin".to_owned(),
            groups: Vec::new(),
        }
    }
}

impl LineNumerable for User {
    fn set_line(&mut self, position: u32) -> (ret: &mut Self)
        ensures
            ret@ == (UserView { pos: Position::At(position), ..old(self)@ }),
            *final(self) == *final(ret),
    {
        self.pos = Position::At(position);
        self
    }
}

impl std::str::FromStr for User {
    type Err = UserLibError;

    fn from_str(line: &str) -> (r: Result<User, UserLibError>)
        ensures
            user_result(r) == parse_user(line@),
    {
        User::parse_line(line)
    }
}

} // verus!
