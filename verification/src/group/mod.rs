//! A record of the group table.
use vstd::prelude::*;

use crate::error::{ErrorView, UserLibError};
use crate::number::{decimal, decimal_chars, is_canonical_decimal, lemma_value_decimal, parse_u32};
use crate::number::u32_of;
use crate::text::{chars_of, join, join_chars, lemma_join_split, same_chars, split, split_chars};
use crate::text::{string_of, views};
use crate::user::passwd_fields::{name_valid, Password, PasswordView, valid_name};
use crate::userlib::LineNumerable;

verus! {

/// How a user belongs to a group.
#[derive(Debug, PartialEq, Eq, Structural, Clone, Copy, PartialOrd, Ord)]
pub enum MembershipKind {
    /// The group is the user's own: its number is the user's group number.
    Primary,
    /// The group lists the user's name.
    Member,
}

/// One member of a group.
#[derive(Debug, PartialEq, Eq, Clone)]
pub struct Membership {
    kind: MembershipKind,
    username: String,
}

/// A member of a group as a mathematical value.
pub struct MembershipView {
    pub kind: MembershipKind,
    pub username: Seq<char>,
}

impl View for Membership {
    type V = MembershipView;

    closed spec fn view(&self) -> MembershipView {
        MembershipView { kind: self.kind, username: self.username@ }
    }
}

/// The views of the members of a group.
pub closed spec fn member_views(members: Seq<Membership>) -> Seq<MembershipView> {
    Seq::new(members.len(), |i: int| members[i]@)
}

/// Whether `name` is a valid name of a group.
pub fn is_groupname_valid(name: &str) -> (r: bool)
    ensures
        r == name_valid(name@),
{
    let chars = chars_of(name);
    valid_name(&chars)
}

/// A record (line) of the group table.
#[derive(Debug, PartialEq, Eq, Clone)]
pub struct Group {
    source: String,
    pos: u32,
    groupname: String,
    password: Password,
    gid: u32,
    members: Vec<Membership>,
}

/// A record of the group table as a mathematical value.
pub struct GroupView {
    pub source: Seq<char>,
    pub pos: u32,
    pub groupname: Seq<char>,
    pub password: PasswordView,
    pub gid: u32,
    pub members: Seq<MembershipView>,
}

impl View for Group {
    type V = GroupView;

    closed spec fn view(&self) -> GroupView {
        GroupView {
            source: self.source@,
            pos: self.pos,
            groupname: self.groupname@,
            password: self.password@,
            gid: self.gid,
            members: member_views(self.members@),
        }
    }
}

/// The names of the members of the given kind, in their order.
pub open spec fn names_of_kind(members: Seq<MembershipView>, kind: MembershipKind) -> Seq<Seq<char>>
    decreases members.len(),
{
    if members.len() == 0 {
        Seq::<Seq<char>>::empty()
    } else if members.last().kind == kind {
        names_of_kind(members.drop_last(), kind).push(members.last().username)
    } else {
        names_of_kind(members.drop_last(), kind)
    }
}

/// The names of all members, in their order.
pub open spec fn member_names(members: Seq<MembershipView>) -> Seq<Seq<char>> {
    Seq::new(members.len(), |i: int| members[i].username)
}

/// The members without those of kind `kind` named `username`.
pub open spec fn without_member(
    members: Seq<MembershipView>,
    kind: MembershipKind,
    username: Seq<char>,
) -> Seq<MembershipView>
    decreases members.len(),
{
    if members.len() == 0 {
        Seq::<MembershipView>::empty()
    } else if members.last().kind == kind && members.last().username == username {
        without_member(members.drop_last(), kind, username)
    } else {
        without_member(members.drop_last(), kind, username).push(members.last())
    }
}

/// Whether every member is named `username`.
pub open spec fn only_member(members: Seq<MembershipView>, username: Seq<char>) -> bool {
    forall|i: int| 0 <= i < members.len() ==> (#[trigger] members[i]).username == username
}

impl GroupView {
    /// The four fields of the record's line. The last holds the names that
    /// the group lists; a user whose own group it is stands there only if
    /// the group lists the name as well.
    pub open spec fn fields(self) -> Seq<Seq<char>> {
        seq![
            self.groupname,
            self.password.text(),
            decimal(self.gid as nat),
            join(names_of_kind(self.members, MembershipKind::Member), ','),
        ]
    }

    /// The record as a line of the group table.
    pub open spec fn line(self) -> Seq<char> {
        join(self.fields(), ':')
    }
}

/// The pieces that are not empty, in their order.
pub open spec fn filled(pieces: Seq<Seq<char>>) -> Seq<Seq<char>>
    decreases pieces.len(),
{
    if pieces.len() == 0 {
        Seq::<Seq<char>>::empty()
    } else if pieces.last().len() == 0 {
        filled(pieces.drop_last())
    } else {
        filled(pieces.drop_last()).push(pieces.last())
    }
}

/// The names as members that the group lists.
pub open spec fn listed(names: Seq<Seq<char>>) -> Seq<MembershipView> {
    Seq::new(
        names.len(),
        |i: int| MembershipView { kind: MembershipKind::Member, username: names[i] },
    )
}

/// Whether every name is a valid user name.
pub open spec fn all_names_valid(names: Seq<Seq<char>>) -> bool {
    forall|i: int| 0 <= i < names.len() ==> name_valid(#[trigger] names[i])
}

/// The outcome of a line that is malformed, in words.
pub open spec fn message(text: Seq<char>) -> Result<GroupView, ErrorView> {
    Err(ErrorView::Message(text))
}

/// What a line of the group table denotes: four fields between colons, a
/// valid group name, any password, a group number, and the names of the
/// members between commas, where empty names are passed over. The first
/// field that is malformed gives the error.
pub open spec fn parse_group(line: Seq<char>) -> Result<GroupView, ErrorView> {
    let f = split(line, ':');
    if f.len() != 4 {
        message("Failed to parse: not enough elements"@)
    } else if !name_valid(f[0]) {
        message("Invalid groupname"@)
    } else if u32_of(f[2]) is None {
        message("Invalid gid"@)
    } else if !all_names_valid(filled(split(f[3], ','))) {
        message("Invalid username"@)
    } else {
        Ok(
            GroupView {
                source: line,
                pos: 0,
                groupname: f[0],
                password: PasswordView::Encrypted(f[1]),
                gid: u32_of(f[2])->Some_0,
                members: listed(filled(split(f[3], ','))),
            },
        )
    }
}

/// Whether `line` is a line of the group table with its number written in
/// the shortest way and no empty name between two commas.
pub open spec fn is_well_formed_group_line(line: Seq<char>) -> bool {
    let f = split(line, ':');
    &&& parse_group(line) is Ok
    &&& is_canonical_decimal(f[2])
    &&& f[3].len() == 0 || filled(split(f[3], ',')) == split(f[3], ',')
}

/// The names that a group lists are the names that it was read with.
pub proof fn lemma_listed_names(names: Seq<Seq<char>>)
    ensures
        names_of_kind(listed(names), MembershipKind::Member) == names,
    decreases names.len(),
{
    if names.len() > 0 {
        lemma_listed_names(names.drop_last());
        assert(listed(names).drop_last() == listed(names.drop_last()));
        assert(names.drop_last().push(names.last()) == names);
    }
}

/// Every well-formed line of the group table is written back as it was
/// read.
pub proof fn lemma_group_round_trip(line: Seq<char>)
    requires
        is_well_formed_group_line(line),
    ensures
        parse_group(line)->Ok_0.line() == line,
{
    let f = split(line, ':');
    let g = parse_group(line)->Ok_0;
    lemma_join_split(line, ':');
    assert(f[2][0] != '+');
    lemma_value_decimal(f[2]);
    let pieces = split(f[3], ',');
    lemma_listed_names(filled(pieces));
    lemma_join_split(f[3], ',');
    if f[3].len() == 0 {
        assert(pieces == seq![Seq::<char>::empty()]);
        assert(pieces.drop_last() == Seq::<Seq<char>>::empty());
        assert(filled(pieces.drop_last()) == Seq::<Seq<char>>::empty());
        assert(filled(pieces) == Seq::<Seq<char>>::empty());
    }
    assert(g.fields() == f);
}

/// The result of reading a line, as a mathematical value.
pub open spec fn group_result(r: Result<Group, UserLibError>) -> Result<GroupView, ErrorView> {
    match r {
        Ok(g) => Ok(g@),
        Err(e) => Err(e@),
    }
}

/// Reads the names of the members of a group.
fn parse_members_list(field: &Vec<char>) -> (r: Option<Vec<Membership>>)
    ensures
        match r {
            Some(m) => all_names_valid(filled(split(field@, ','))) && member_views(m@) == listed(
                filled(split(field@, ',')),
            ),
            None => !all_names_valid(filled(split(field@, ','))),
        },
{
    let pieces = split_chars(field, ',');
    let mut members: Vec<Membership> = Vec::new();
    let mut i: usize = 0;
    while i < pieces.len()
        invariant
            i <= pieces.len(),
            views(pieces@) == split(field@, ','),
            all_names_valid(filled(views(pieces@).take(i as int))),
            member_views(members@) == listed(filled(views(pieces@).take(i as int))),
        decreases pieces.len() - i,
    {
        let ghost upto = views(pieces@).take(i + 1);
        let ghost before = filled(views(pieces@).take(i as int));
        assert(upto.drop_last() == views(pieces@).take(i as int));
        assert(upto.last() == pieces@[i as int]@);
        if pieces[i].len() > 0 {
            if !valid_name(&pieces[i]) {
                proof {
                    let all = views(pieces@);
                    lemma_filled_prefix(all, i + 1);
                    let k = filled(upto).len() - 1;
                    assert(filled(upto)[k] == pieces@[i as int]@);
                    assert(filled(all)[k] == filled(upto)[k]);
                    assert(!name_valid(filled(all)[k]));
                }
                return None;
            }
            let ghost old_members = member_views(members@);
            members.push(
                Membership { kind: MembershipKind::Member, username: string_of(&pieces[i]) },
            );
            assert(member_views(members@) == old_members.push(
                MembershipView { kind: MembershipKind::Member, username: pieces@[i as int]@ },
            ));
            assert(member_views(members@) == listed(before.push(pieces@[i as int]@)));
        }
        i += 1;
    }
    assert(views(pieces@).take(pieces.len() as int) == views(pieces@));
    Some(members)
}

/// The filled pieces of a prefix begin the filled pieces of the whole.
pub proof fn lemma_filled_prefix(pieces: Seq<Seq<char>>, k: int)
    requires
        0 <= k <= pieces.len(),
    ensures
        filled(pieces.take(k)).len() <= filled(pieces).len(),
        forall|j: int| 0 <= j < filled(pieces.take(k)).len() ==> filled(pieces)[j] == filled(
            pieces.take(k),
        )[j],
    decreases pieces.len() - k,
{
    if k == pieces.len() {
        assert(pieces.take(k) == pieces);
    } else {
        lemma_filled_prefix(pieces.drop_last(), k);
        assert(pieces.drop_last().take(k) == pieces.take(k));
    }
}

impl Group {
    /// Reads a line of the group table.
    pub fn parse_line(line: &str) -> (r: Result<Group, UserLibError>)
        ensures
            group_result(r) == parse_group(line@),
    {
        let chars = chars_of(line);
        let f = split_chars(&chars, ':');
        if f.len() != 4 {
            return Err(UserLibError::message("Failed to parse: not enough elements"));
        }
        assert(forall|i: int| 0 <= i < 4 ==> (#[trigger] views(f@)[i]) == f@[i]@);
        if !valid_name(&f[0]) {
            return Err(UserLibError::message("Invalid groupname"));
        }
        let gid = match parse_u32(&f[2]) {
            Some(gid) => gid,
            None => {
                return Err(UserLibError::message("Invalid gid"));
            },
        };
        let members = match parse_members_list(&f[3]) {
            Some(members) => members,
            None => {
                return Err(UserLibError::message("Invalid username"));
            },
        };
        Ok(
            Group {
                source: line.to_owned(),
                pos: 0,
                groupname: string_of(&f[0]),
                password: Password::Encrypted(string_of(&f[1])),
                gid,
                members,
            },
        )
    }

    /// A copy of the record.
    pub fn duplicate(&self) -> (r: Group)
        ensures
            r@ == self@,
    {
        let mut members: Vec<Membership> = Vec::new();
        let mut i: usize = 0;
        while i < self.members.len()
            invariant
                i <= self.members.len(),
                member_views(members@) == member_views(self.members@).take(i as int),
            decreases self.members.len() - i,
        {
            let ghost before = member_views(members@);
            let m = &self.members[i];
            members.push(Membership { kind: m.kind, username: m.username.clone() });
            assert(member_views(members@) == before.push(self.members@[i as int]@));
            i += 1;
        }
        assert(member_views(self.members@).take(self.members.len() as int) == member_views(
            self.members@,
        ));
        Group {
            source: self.source.clone(),
            pos: self.pos,
            groupname: self.groupname.clone(),
            password: self.password.duplicate(),
            gid: self.gid,
            members,
        }
    }

    /// Whether every member is named `username`: whether the group is
    /// empty once that user has left.
    pub fn has_only_member(&self, username: &str) -> (r: bool)
        ensures
            r == only_member(self@.members, username@),
    {
        let name = chars_of(username);
        let mut i: usize = 0;
        while i < self.members.len()
            invariant
                i <= self.members.len(),
                name@ == username@,
                forall|j: int| 0 <= j < i ==> (#[trigger] member_views(self.members@)[j]).username
                    == username@,
            decreases self.members.len() - i,
        {
            let named = chars_of(self.members[i].username.as_str());
            if !same_chars(&named, &name) {
                assert(member_views(self.members@)[i as int].username != username@);
                return false;
            }
            i += 1;
        }
        true
    }

    /// The name of the group.
    pub fn get_groupname(&self) -> (r: Option<&str>)
        ensures
            r is Some,
            r->Some_0@ == self@.groupname,
    {
        Some(self.groupname.as_str())
    }

    /// The names of all members: those that the group lists and those
    /// whose own group it is.
    pub fn get_member_names(&self) -> (r: Option<Vec<&str>>)
        ensures
            r is Some,
            r->Some_0@.len() == self@.members.len(),
            forall|i: int| 0 <= i < self@.members.len() ==> (#[trigger] r->Some_0@[i])@
                == self@.members[i].username,
    {
        let mut names: Vec<&str> = Vec::new();
        let mut i: usize = 0;
        while i < self.members.len()
            invariant
                i <= self.members.len(),
                names@.len() == i,
                forall|j: int| 0 <= j < i ==> (#[trigger] names@[j])@ == self.members@[j].username@,
            decreases self.members.len() - i,
        {
            names.push(self.members[i].username.as_str());
            i += 1;
        }
        Some(names)
    }

    /// The hashed passphrase, where the group has one.
    pub fn get_encrypted_password(&self) -> (r: Option<&str>)
        ensures
            match self@.password {
                PasswordView::Encrypted(p) => r is Some && r->Some_0@ == p,
                PasswordView::Shadow(s) => r is Some && r->Some_0@ == s.value.password,
                PasswordView::Disabled => r is None,
            },
    {
        match &self.password {
            Password::Encrypted(p) => Some(p.as_str()),
            Password::Shadow(s) => Some(s.value.get_password()),
            Password::Disabled => None,
        }
    }

    /// The number of the group.
    pub fn get_gid(&self) -> (r: Option<u32>)
        ensures
            r == Some(self@.gid),
    {
        Some(self.gid)
    }

    /// The line that the record was read from.
    pub fn get_source(&self) -> (r: &str)
        ensures
            r@ == self@.source,
    {
        self.source.as_str()
    }

    /// `content` without the lines that are this record's source line.
    pub fn remove_in(&self, content: &str) -> (r: String)
        ensures
            r@ == crate::text::without_line(content@, self@.source),
    {
        crate::text::remove_line(content, self.source.as_str())
    }

    /// Adds `username` as a member whose own group this is.
    pub fn append_user(&mut self, username: &str)
        ensures
            final(self)@ == (GroupView {
                members: old(self)@.members.push(
                    MembershipView { kind: MembershipKind::Primary, username: username@ },
                ),
                ..old(self)@
            }),
    {
        let ghost before = member_views(self.members@);
        self.members.push(Membership { kind: MembershipKind::Primary, username: username.to_owned() });
        assert(member_views(self.members@) == before.push(
            MembershipView { kind: MembershipKind::Primary, username: username@ },
        ));
    }

    /// Takes out the members of kind `kind` named `username`.
    pub fn remove_member(&mut self, kind: MembershipKind, username: &str)
        ensures
            final(self)@ == (GroupView {
                members: without_member(old(self)@.members, kind, username@),
                ..old(self)@
            }),
    {
        let name = chars_of(username);
        let mut kept: Vec<Membership> = Vec::new();
        let mut i: usize = 0;
        while i < self.members.len()
            invariant
                i <= self.members.len(),
                name@ == username@,
                member_views(kept@) == without_member(
                    member_views(self.members@).take(i as int),
                    kind,
                    username@,
                ),
            decreases self.members.len() - i,
        {
            let ghost upto = member_views(self.members@).take(i + 1);
            assert(upto.drop_last() == member_views(self.members@).take(i as int));
            assert(upto.last() == self.members@[i as int]@);
            let m = &self.members[i];
            let named = chars_of(m.username.as_str());
            if !(m.kind == kind && same_chars(&named, &name)) {
                let ghost before = member_views(kept@);
                kept.push(Membership { kind: m.kind, username: m.username.clone() });
                assert(member_views(kept@) == before.push(self.members@[i as int]@));
            }
            i += 1;
        }
        assert(member_views(self.members@).take(self.members.len() as int) == member_views(
            self.members@,
        ));
        self.members = kept;
    }

    /// The characters of the record as a line of the group table.
    pub fn line_chars(&self) -> (out: Vec<char>)
        ensures
            out@ == self@.line(),
    {
        let mut names: Vec<Vec<char>> = Vec::new();
        let mut i: usize = 0;
        while i < self.members.len()
            invariant
                i <= self.members.len(),
                views(names@) == names_of_kind(
                    member_views(self.members@).take(i as int),
                    MembershipKind::Member,
                ),
            decreases self.members.len() - i,
        {
            let ghost upto = member_views(self.members@).take(i + 1);
            assert(upto.drop_last() == member_views(self.members@).take(i as int));
            assert(upto.last() == self.members@[i as int]@);
            let m = &self.members[i];
            if m.kind == MembershipKind::Member {
                let ghost before = views(names@);
                names.push(chars_of(m.username.as_str()));
                assert(views(names@) == before.push(m.username@));
            }
            i += 1;
        }
        assert(member_views(self.members@).take(self.members.len() as int) == member_views(
            self.members@,
        ));
        let mut f: Vec<Vec<char>> = Vec::new();
        f.push(chars_of(self.groupname.as_str()));
        f.push(self.password.chars());
        f.push(decimal_chars(self.gid as u64));
        f.push(join_chars(&names, ','));
        assert(views(f@) == self@.fields());
        join_chars(&f, ':')
    }

    /// The record as a line of the group table.
    pub fn to_string(&self) -> (s: String)
        ensures
            s@ == self@.line(),
    {
        let chars = self.line_chars();
        string_of(&chars)
    }
}

impl LineNumerable for Group {
    fn set_line(&mut self, position: u32) -> (ret: &mut Self)
        ensures
            ret@ == (GroupView { pos: position, ..old(self)@ }),
            *final(self) == *final(ret),
    {
        self.pos = position;
        self
    }
}

impl std::str::FromStr for Group {
    type Err = UserLibError;

    fn from_str(line: &str) -> (r: Result<Group, UserLibError>)
        ensures
            group_result(r) == parse_group(line@),
    {
        Group::parse_line(line)
    }
}

} // verus!
