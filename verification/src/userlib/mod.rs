//! The identity database: the three tables, cross-referenced in memory.
pub mod change;
pub mod consistency;
pub mod files;
pub mod link;
pub mod numbered;
pub mod query;
pub mod reload;
pub mod table;

use vstd::prelude::*;

use crate::api::{CreateUserArgs, DeleteHome, DeleteUserArgs};
use crate::error::{ErrorView, UserLibError};
use crate::group::{Group, GroupView, is_groupname_valid, MembershipKind};
use crate::text::{chars_of, join, join_chars, line_chars, lines, same_text, strike_line, string_of};
use crate::text::views;
use crate::user::passwd_fields::{is_username_valid, name_valid};
use crate::user::shadow_fields::{Shadow, ShadowView};
use crate::user::{User, UserView};
use crate::userlib::files::{ContentsView, FileContents, Files, FilesView, GuardView};
use crate::userlib::files::LockedFileGuard;
use crate::userlib::change::{left_by, lemma_drop_edges_positions, lemma_drop_edges_prefix};
use crate::userlib::change::{lemma_pos_place, lemma_pos_prefix, lemma_unique_pushed};
use crate::userlib::change::lemma_unique_removed;
use crate::userlib::query::{lemma_gid_prefix, lemma_group_prefix, lemma_placed, lemma_uid_prefix};
use crate::userlib::query::lemma_without_gid;
use crate::userlib::link::{deduplicated, find_user, gid_count, gid_place, Groups, groups_to_users};
use crate::userlib::link::{lemma_position_of, lemma_with_shadows_names, linked_groups};
use crate::userlib::link::{linked_users, names, names_unique, position_of, positions_unique};
use crate::userlib::link::{shadow_to_users, user_vec_to_list, UserList, Users, with_shadows};

pub use crate::userlib::change::{created, deleted, disk_view, drop_edge, drop_edges, group_lines};
pub use crate::userlib::change::{handles, name_taken, new_record, pos_place, struck, struck_shadow};
pub use crate::userlib::change::{Deleted, DeletedView};
pub use crate::userlib::numbered::{Numbered, NumberedView};
pub use crate::userlib::query::{by_uid, group_place, uid_place, user_values, user_views};
pub use crate::userlib::query::without_gid;
pub use crate::userlib::table::{numbered, numbered_views, string_to, table_of, table_result};
pub use crate::userlib::table::FromLine;

verus! {

/// A record that can be told the number of its line.
pub trait LineNumerable {
    /// Tells the record the number of its line.
    fn set_line(&mut self, position: u32) -> &mut Self;
}

/// The identity database of a system: its users and its groups, and the
/// three tables that they were read from, where there are any.
#[derive(Debug)]
pub struct UserDBLocal {
    source_files: Option<Files>,
    users: UserList,
    groups: Vec<Numbered<Group>>,
}

/// The database as a mathematical value.
pub struct DBView {
    pub source_files: Option<FilesView>,
    pub users: Users,
    pub groups: Groups,
}

impl View for UserDBLocal {
    type V = DBView;

    closed spec fn view(&self) -> DBView {
        DBView {
            source_files: match self.source_files {
                Some(f) => Some(f@),
                None => None,
            },
            users: numbered_views(self.users@),
            groups: numbered_views(self.groups@),
        }
    }
}

/// The users and groups that the records of the three tables make up: one
/// user per name, each holding its record of the shadow table and linked
/// with its groups.
pub open spec fn assembled(
    users: Users,
    shadows: Seq<NumberedView<ShadowView>>,
    groups: Groups,
) -> Result<DBView, ErrorView> {
    match with_shadows(deduplicated(users), shadows) {
        Err(e) => Err(e),
        Ok(us) => Ok(
            DBView {
                source_files: None,
                users: linked_users(us, groups),
                groups: linked_groups(us, groups),
            },
        ),
    }
}

/// The database that the text of the three tables denotes. Where more than
/// one table is malformed, the shadow table gives the error before the
/// user table, and the user table before the group table.
pub open spec fn imported(passwd: Seq<char>, shadow: Seq<char>, group: Seq<char>) -> Result<
    DBView,
    ErrorView,
> {
    match table_of::<Shadow>(shadow) {
        Err(e) => Err(e),
        Ok(shadows) => match table_of::<User>(passwd) {
            Err(e) => Err(e),
            Ok(users) => match table_of::<Group>(group) {
                Err(e) => Err(e),
                Ok(groups) => assembled(users, shadows, groups),
            },
        },
    }
}

/// The database that the three tables denote, which hold `disk` now. All
/// three need a file behind them, and none may have changed since it was
/// last read or written. Where more than one table is malformed, the user
/// table gives the error before the shadow table, and the shadow table
/// before the group table.
pub open spec fn loaded(files: FilesView, disk: ContentsView) -> Result<DBView, ErrorView> {
    if files.is_virtual() {
        Err(ErrorView::FilesRequired)
    } else if !files.unchanged(disk) {
        Err(ErrorView::FilesChanged)
    } else {
        match table_of::<User>(disk.pwd) {
            Err(e) => Err(e),
            Ok(users) => match table_of::<Shadow>(disk.shd) {
                Err(e) => Err(e),
                Ok(shadows) => match table_of::<Group>(disk.grp) {
                    Err(e) => Err(e),
                    Ok(groups) => match assembled(users, shadows, groups) {
                        Err(e) => Err(e),
                        Ok(db) => Ok(DBView { source_files: Some(files), ..db }),
                    },
                },
            },
        }
    }
}

/// The outcome of making a database, as a mathematical value.
pub open spec fn db_result(r: Result<UserDBLocal, UserLibError>) -> Result<DBView, ErrorView> {
    match r {
        Ok(db) => Ok(db@),
        Err(e) => Err(e@),
    }
}

/// Linking users with groups changes no name.
pub proof fn lemma_linked_names(users: Users, groups: Groups)
    ensures
        names(linked_users(users, groups)) == names(users),
{
}

/// Linking users with groups leaves each group on its line.
pub proof fn lemma_linked_positions(users: Users, groups: Groups)
    requires
        positions_unique(groups),
    ensures
        positions_unique(linked_groups(users, groups)),
{
    let linked = linked_groups(users, groups);
    assert forall|i: int, j: int| 0 <= i < j < linked.len() implies (#[trigger] linked[i]).pos != (
    #[trigger] linked[j]).pos by {
        assert(linked[i].pos == groups[i].pos);
        assert(linked[j].pos == groups[j].pos);
    }
}

/// Whether no two users have the same name depends on the names alone.
pub proof fn lemma_unique_names(a: Users, b: Users)
    requires
        names(a) == names(b),
        names_unique(a),
    ensures
        names_unique(b),
{
    assert(a.len() == names(a).len());
    assert(b.len() == names(b).len());
    assert forall|i: int, j: int| 0 <= i < j < b.len() implies (#[trigger] b[i]).value.username != (
    #[trigger] b[j]).value.username by {
        assert(names(a)[i] == a[i].value.username);
        assert(names(a)[j] == a[j].value.username);
        assert(names(b)[i] == b[i].value.username);
        assert(names(b)[j] == b[j].value.username);
    }
}

/// What `delete_user` hands back: the database as it is to be once the
/// tables are written, and what is to be done for it.
#[derive(Debug)]
pub struct Deletion {
    pub database: UserDBLocal,
    pub outcome: Deleted,
}

impl View for Deletion {
    type V = (DBView, DeletedView);

    open spec fn view(&self) -> (DBView, DeletedView) {
        (self.database@, self.outcome@)
    }
}

/// What `new_user` hands back: the database as it is to be once the
/// tables are written, and what the tables are to hold; `None` for a
/// database without files, where nothing is to be written.
#[derive(Debug)]
pub struct Creation {
    pub database: UserDBLocal,
    pub files: Option<FileContents>,
}

impl View for Creation {
    type V = (DBView, Option<ContentsView>);

    open spec fn view(&self) -> (DBView, Option<ContentsView>) {
        (self.database@, disk_view(self.files))
    }
}

impl UserDBLocal {
    /// Whether the database is sound: no two users have the same name,
    /// and no two groups were read from the same line.
    pub open spec fn wf(&self) -> bool {
        names_unique(self@.users) && positions_unique(self@.groups)
    }

    /// Puts the records of the three tables together.
    fn assemble(
        users: Vec<Numbered<User>>,
        shadows: Vec<Numbered<Shadow>>,
        groups: Vec<Numbered<Group>>,
    ) -> (r: Result<Self, UserLibError>)
        requires
            positions_unique(numbered_views(groups@)),
        ensures
            db_result(r) == assembled(
                numbered_views(users@),
                numbered_views(shadows@),
                numbered_views(groups@),
            ),
            r matches Ok(db) ==> db.wf(),
    {
        let mut users = user_vec_to_list(users);
        let mut groups = groups;
        let ghost unique = numbered_views(users@);
        let ghost g0 = numbered_views(groups@);
        match shadow_to_users(&mut users, shadows) {
            Ok(()) => {},
            Err(e) => {
                return Err(e);
            },
        }
        let ghost merged = numbered_views(users@);
        proof {
            lemma_with_shadows_names(unique, numbered_views(shadows@));
            lemma_unique_names(unique, merged);
        }
        groups_to_users(&mut users, &mut groups);
        proof {
            lemma_linked_names(merged, g0);
            lemma_unique_names(merged, linked_users(merged, g0));
            lemma_linked_positions(merged, g0);
        }
        Ok(Self { source_files: None, users, groups })
    }

    /// Makes the database that the text of the three tables denotes. It
    /// has no files behind it.
    pub fn import_from_strings(passwd_content: &str, shadow_content: &str, group_content: &str) -> (r:
        Result<Self, UserLibError>)
        ensures
            db_result(r) == imported(passwd_content@, shadow_content@, group_content@),
            r matches Ok(db) ==> db.wf(),
    {
        let shadow_entries: Vec<Numbered<Shadow>> = match string_to::<Shadow>(shadow_content) {
            Ok(v) => v,
            Err(e) => {
                return Err(e);
            },
        };
        let users: Vec<Numbered<User>> = match string_to::<User>(passwd_content) {
            Ok(v) => v,
            Err(e) => {
                return Err(e);
            },
        };
        let groups: Vec<Numbered<Group>> = match string_to::<Group>(group_content) {
            Ok(v) => v,
            Err(e) => {
                return Err(e);
            },
        };
        Self::assemble(users, shadow_entries, groups)
    }

    /// Makes the database that the three tables denote, which hold `disk`
    /// now: the text that the caller has read under the locks.
    pub fn load_files(files: Files, disk: FileContents) -> (r: Result<Self, UserLibError>)
        ensures
            db_result(r) == loaded(files@, disk@),
            r matches Ok(db) ==> db.wf(),
    {
        let (locked_p, locked_s, locked_g) = match files.lock_all_get(disk) {
            Ok(guards) => guards,
            Err(e) => {
                return Err(e);
            },
        };
        let users: Vec<Numbered<User>> = match string_to::<User>(locked_p.get_content()) {
            Ok(v) => v,
            Err(e) => {
                return Err(e);
            },
        };
        let passwds: Vec<Numbered<Shadow>> = match string_to::<Shadow>(locked_s.get_content()) {
            Ok(v) => v,
            Err(e) => {
                return Err(e);
            },
        };
        let groups: Vec<Numbered<Group>> = match string_to::<Group>(locked_g.get_content()) {
            Ok(v) => v,
            Err(e) => {
                return Err(e);
            },
        };
        match Self::assemble(users, passwds, groups) {
            Ok(db) => Ok(Self { source_files: Some(files), users: db.users, groups: db.groups }),
            Err(e) => Err(e),
        }
    }

    /// The tables behind the database, where there are any.
    pub fn get_files(&self) -> (r: Option<&Files>)
        ensures
            match self@.source_files {
                Some(f) => r is Some && r->Some_0@ == f,
                None => r is None,
            },
    {
        match &self.source_files {
            Some(f) => Some(f),
            None => None,
        }
    }

    /// Takes out every group with the number `gid`.
    pub fn delete_group_by_id(&mut self, gid: u32)
        ensures
            final(self)@ == (DBView { groups: without_gid(old(self)@.groups, gid), ..old(self)@ }),
            old(self).wf() ==> final(self).wf(),
    {
        proof {
            lemma_without_gid(self@.groups, gid);
        }
        let ghost all = numbered_views(self.groups@);
        let mut kept: Vec<Numbered<Group>> = Vec::new();
        let mut i: usize = 0;
        assert(all.take(0) == Seq::<NumberedView<GroupView>>::empty());
        assert(numbered_views(kept@) == Seq::<NumberedView<GroupView>>::empty());
        while i < self.groups.len()
            invariant
                i <= self.groups.len(),
                all == numbered_views(self.groups@),
                *self == *old(self),
                numbered_views(kept@) == without_gid(all.take(i as int), gid),
            decreases self.groups.len() - i,
        {
            let ghost upto = all.take(i + 1);
            assert(upto.drop_last() == all.take(i as int));
            assert(upto.last() == self.groups@[i as int]@);
            let g = &self.groups[i];
            let same = match g.value.get_gid() {
                Some(n) => n == gid,
                None => false,
            };
            if !same {
                let ghost before = numbered_views(kept@);
                kept.push(Numbered { pos: g.pos, value: g.value.duplicate() });
                assert(numbered_views(kept@) == before.push(g@));
            }
            i += 1;
        }
        assert(all.take(self.groups.len() as int) == all);
        self.groups = kept;
    }

    /// All users, ordered by their numbers; users of one number stand in
    /// the order of the user table, a user made since after them.
    pub fn get_all_users(&self) -> (r: Vec<&User>)
        ensures
            user_views(r@) == by_uid(user_values(self@.users)),
            r@.len() == self@.users.len(),
    {
        let ghost all = user_values(numbered_views(self.users@));
        let mut res: Vec<&User> = Vec::new();
        let mut i: usize = 0;
        assert(all.take(0) == Seq::<UserView>::empty());
        assert(user_views(res@) == Seq::<UserView>::empty());
        while i < self.users.len()
            invariant
                i <= self.users.len(),
                all == user_values(numbered_views(self.users@)),
                res@.len() == i,
                user_views(res@) == by_uid(all.take(i as int)),
            decreases self.users.len() - i,
        {
            let user = &self.users[i].value;
            let ghost upto = all.take(i + 1);
            assert(upto.drop_last() == all.take(i as int));
            assert(upto.last() == user@);
            let ghost before = user_views(res@);
            let mut k: usize = res.len();
            while k > 0 && res[k - 1].get_uid() > user.get_uid()
                invariant
                    k <= res.len(),
                    before == user_views(res@),
                    forall|j: int| k <= j < res.len() ==> (#[trigger] before[j]).uid > user@.uid,
                decreases k,
            {
                k -= 1;
            }
            proof {
                lemma_placed(before, user@, k as int);
            }
            res.insert(k, user);
            assert(user_views(res@) == before.insert(k as int, user@));
            i += 1;
        }
        assert(all.take(self.users.len() as int) == all);
        res
    }

    /// The user named `name`.
    pub fn get_user_by_name(&self, name: &str) -> (r: Option<&User>)
        ensures
            match position_of(self@.users, name@) {
                Some(i) => r is Some && r->Some_0@ == self@.users[i].value,
                None => r is None,
            },
    {
        proof {
            lemma_position_of(self@.users, name@);
        }
        match find_user(&self.users, name) {
            Some(i) => Some(&self.users[i].value),
            None => None,
        }
    }

    /// The first user with the number `uid`.
    pub fn get_user_by_id(&self, uid: u32) -> (r: Option<&User>)
        ensures
            match uid_place(self@.users, uid) {
                Some(i) => r is Some && r->Some_0@ == self@.users[i].value,
                None => r is None,
            },
    {
        let ghost all = numbered_views(self.users@);
        let mut i: usize = 0;
        while i < self.users.len()
            invariant
                i <= self.users.len(),
                all == numbered_views(self.users@),
                uid_place(all.take(i as int), uid) is None,
            decreases self.users.len() - i,
        {
            let ghost upto = all.take(i + 1);
            assert(upto.drop_last() == all.take(i as int));
            assert(upto.last() == self.users@[i as int]@);
            if self.users[i].value.get_uid() == uid {
                proof {
                    lemma_uid_prefix(all, uid, i + 1);
                }
                return Some(&self.users[i].value);
            }
            i += 1;
        }
        assert(all.take(self.users.len() as int) == all);
        None
    }

    /// All groups, in the order of the group table.
    pub fn get_all_groups(&self) -> (r: Vec<&Numbered<Group>>)
        ensures
            r@.len() == self@.groups.len(),
            forall|i: int| 0 <= i < r@.len() ==> (#[trigger] r@[i])@ == self@.groups[i],
    {
        let mut res: Vec<&Numbered<Group>> = Vec::new();
        let mut i: usize = 0;
        while i < self.groups.len()
            invariant
                i <= self.groups.len(),
                res@.len() == i,
                forall|j: int| 0 <= j < i ==> (#[trigger] res@[j])@ == self.groups@[j]@,
            decreases self.groups.len() - i,
        {
            res.push(&self.groups[i]);
            i += 1;
        }
        res
    }

    /// The first group named `name`.
    pub fn get_group_by_name(&self, name: &str) -> (r: Option<&Numbered<Group>>)
        ensures
            match group_place(self@.groups, name@) {
                Some(i) => r is Some && r->Some_0@ == self@.groups[i],
                None => r is None,
            },
    {
        let ghost all = numbered_views(self.groups@);
        let mut i: usize = 0;
        while i < self.groups.len()
            invariant
                i <= self.groups.len(),
                all == numbered_views(self.groups@),
                group_place(all.take(i as int), name@) is None,
            decreases self.groups.len() - i,
        {
            let ghost upto = all.take(i + 1);
            assert(upto.drop_last() == all.take(i as int));
            assert(upto.last() == self.groups@[i as int]@);
            let found = match self.groups[i].value.get_groupname() {
                Some(n) => same_text(n, name),
                None => false,
            };
            if found {
                proof {
                    lemma_group_prefix(all, name@, i + 1);
                }
                return Some(&self.groups[i]);
            }
            i += 1;
        }
        assert(all.take(self.groups.len() as int) == all);
        None
    }

    /// The first group with the number `id`.
    pub fn get_group_by_id(&self, id: u32) -> (r: Option<&Numbered<Group>>)
        ensures
            if gid_count(self@.groups, id) > 0 {
                r is Some && r->Some_0@ == self@.groups[gid_place(self@.groups, id)]
            } else {
                r is None
            },
    {
        let ghost all = numbered_views(self.groups@);
        let mut i: usize = 0;
        while i < self.groups.len()
            invariant
                i <= self.groups.len(),
                all == numbered_views(self.groups@),
                gid_count(all.take(i as int), id) == 0,
            decreases self.groups.len() - i,
        {
            let ghost upto = all.take(i + 1);
            assert(upto.drop_last() == all.take(i as int));
            assert(upto.last() == self.groups@[i as int]@);
            let found = match self.groups[i].value.get_gid() {
                Some(n) => n == id,
                None => false,
            };
            if found {
                proof {
                    lemma_gid_prefix(all, id, i + 1);
                }
                return Some(&self.groups[i]);
            }
            i += 1;
        }
        assert(all.take(self.groups.len() as int) == all);
        None
    }

    /// The group that was read from line `pos` of the group table: the
    /// group that an edge of a user speaks of.
    pub fn get_group_by_line(&self, pos: usize) -> (r: Option<&Numbered<Group>>)
        ensures
            match pos_place(self@.groups, pos) {
                Some(i) => r is Some && r->Some_0@ == self@.groups[i],
                None => r is None,
            },
    {
        proof {
            lemma_pos_place(self@.groups, pos);
        }
        match find_group_at(&self.groups, pos) {
            Some(i) => Some(&self.groups[i]),
            None => None,
        }
    }

    /// Whether no user has the number `uid`.
    pub fn is_uid_valid_and_free(&self, uid: u32) -> (r: bool)
        ensures
            r == uid_place(self@.users, uid) is None,
    {
        self.get_user_by_id(uid).is_none()
    }

    /// Whether `name` is a valid user name that no user has.
    pub fn is_username_valid_and_free(&self, name: &str) -> (r: bool)
        ensures
            r == (name_valid(name@) && position_of(self@.users, name@) is None),
    {
        let valid = is_username_valid(name);
        let free = self.get_user_by_name(name).is_none();
        valid && free
    }

    /// Whether no group has the number `gid`.
    pub fn is_gid_valid_and_free(&self, gid: u32) -> (r: bool)
        ensures
            r == (gid_count(self@.groups, gid) == 0),
    {
        self.get_group_by_id(gid).is_none()
    }

    /// Whether `name` is a valid group name that no group has.
    pub fn is_groupname_valid_and_free(&self, name: &str) -> (r: bool)
        ensures
            r == (name_valid(name@) && group_place(self@.groups, name@) is None),
    {
        let valid = is_groupname_valid(name);
        let free = self.get_group_by_name(name).is_none();
        valid && free
    }
}

/// The error for a user name that is taken.
fn taken(username: &str) -> (e: UserLibError)
    ensures
        e@ == ErrorView::Message(name_taken(username@)),
{
    let mut text = chars_of("The username ");
    let name = chars_of(username);
    crate::text::push_all(&mut text, &name);
    let tail = chars_of(" already exists! Aborting!");
    crate::text::push_all(&mut text, &tail);
    assert(text@ == name_taken(username@));
    UserLibError::Message(string_of(&text))
}

/// Takes the one line of the table that is `line` out of it.
fn strike(guard: &mut LockedFileGuard, line: &str, failure: &str) -> (r: Result<(), UserLibError>)
    ensures
        match r {
            Ok(()) => struck(old(guard)@, line@, failure@) == Ok::<GuardView, ErrorView>(
                final(guard)@,
            ),
            Err(e) => struck(old(guard)@, line@, failure@) == Err::<GuardView, ErrorView>(e@)
                && final(guard)@ == old(guard)@,
        },
{
    let content = chars_of(guard.get_content());
    let l = chars_of(line);
    let (rest, count) = strike_line(&content, &l);
    if count == 1 {
        let text = string_of(&rest);
        guard.replace_contents(text.as_str());
        Ok(())
    } else {
        Err(UserLibError::message(failure))
    }
}

/// A copy of the groups.
fn duplicate_groups(groups: &Vec<Numbered<Group>>) -> (r: Vec<Numbered<Group>>)
    ensures
        numbered_views(r@) == numbered_views(groups@),
{
    let mut r: Vec<Numbered<Group>> = Vec::new();
    let mut i: usize = 0;
    while i < groups.len()
        invariant
            i <= groups.len(),
            r@.len() == i,
            forall|j: int| 0 <= j < i ==> (#[trigger] r@[j])@ == groups@[j]@,
        decreases groups.len() - i,
    {
        r.push(Numbered { pos: groups[i].pos, value: groups[i].value.duplicate() });
        i += 1;
    }
    r
}

/// Writes the group table anew from the groups.
fn write_group_lines(groups: &Vec<Numbered<Group>>, locked_g: &mut LockedFileGuard)
    ensures
        final(locked_g)@ == old(locked_g)@.replaced(
            join(group_lines(numbered_views(groups@)), '\n'),
        ),
{
    let mut ls: Vec<Vec<char>> = Vec::new();
    let mut i: usize = 0;
    while i < groups.len()
        invariant
            i <= groups.len(),
            ls@.len() == i,
            forall|j: int| 0 <= j < i ==> (#[trigger] ls@[j])@ == groups@[j]@.value.line(),
        decreases groups.len() - i,
    {
        ls.push(groups[i].value.line_chars());
        i += 1;
    }
    assert(views(ls@) == group_lines(numbered_views(groups@)));
    let content = string_of(&join_chars(&ls, '\n'));
    locked_g.replace_contents(content.as_str());
}

/// The place of the first group that was read from line `pos`.
fn find_group_at(groups: &Vec<Numbered<Group>>, pos: usize) -> (r: Option<usize>)
    ensures
        match r {
            Some(i) => pos_place(numbered_views(groups@), pos) == Some(i as int),
            None => pos_place(numbered_views(groups@), pos) is None,
        },
{
    let ghost all = numbered_views(groups@);
    let mut i: usize = 0;
    while i < groups.len()
        invariant
            i <= groups.len(),
            all == numbered_views(groups@),
            pos_place(all.take(i as int), pos) is None,
        decreases groups.len() - i,
    {
        let ghost upto = all.take(i + 1);
        assert(upto.drop_last() == all.take(i as int));
        assert(upto.last() == groups@[i as int]@);
        if groups[i].pos == pos {
            proof {
                lemma_pos_prefix(all, pos, i + 1);
            }
            return Some(i);
        }
        i += 1;
    }
    assert(all.take(groups.len() as int) == all);
    None
}

/// Lets the user named `username` leave the group that was read from
/// line `pos`.
fn drop_membership(
    groups: &mut Vec<Numbered<Group>>,
    locked_g: &mut LockedFileGuard,
    kind: MembershipKind,
    pos: usize,
    username: &str,
) -> (r: Result<(), UserLibError>)
    ensures
        match r {
            Ok(()) => drop_edge(
                (numbered_views(old(groups)@), old(locked_g)@),
                kind,
                pos,
                username@,
            ) == Ok::<(Groups, GuardView), ErrorView>(
                (numbered_views(final(groups)@), final(locked_g)@),
            ),
            Err(e) => drop_edge(
                (numbered_views(old(groups)@), old(locked_g)@),
                kind,
                pos,
                username@,
            ) == Err::<(Groups, GuardView), ErrorView>(e@),
        },
{
    let ghost before = numbered_views(groups@);
    proof {
        lemma_pos_place(before, pos);
    }
    let i = match find_group_at(groups, pos) {
        Some(i) => i,
        None => {
            return Ok(());
        },
    };
    if kind == MembershipKind::Primary && groups[i].value.has_only_member(username) {
        match UserDBLocal::delete_from_group(&groups[i], locked_g) {
            Ok(()) => {},
            Err(e) => {
                return Err(e);
            },
        }
        groups.remove(i);
        assert(numbered_views(groups@) == before.remove(i as int));
        Ok(())
    } else {
        groups[i].value.remove_member(kind, username);
        assert(numbered_views(groups@) == before.update(
            i as int,
            left_by(before[i as int], kind, username@),
        ));
        write_group_lines(groups, locked_g);
        Ok(())
    }
}

impl UserDBLocal {
    /// Takes the user's source line out of the user table. Fails, and
    /// changes nothing, where the table does not have exactly one such
    /// line.
    pub fn delete_from_passwd(user: &User, locked_p: &mut LockedFileGuard) -> (r: Result<
        (),
        UserLibError,
    >)
        ensures
            match r {
                Ok(()) => struck(old(locked_p)@, user@.source, "Failed to delete the user"@) == Ok::<
                    GuardView,
                    ErrorView,
                >(final(locked_p)@),
                Err(e) => struck(old(locked_p)@, user@.source, "Failed to delete the user"@) == Err::<
                    GuardView,
                    ErrorView,
                >(e@) && final(locked_p)@ == old(locked_p)@,
            },
    {
        strike(locked_p, user.get_source(), "Failed to delete the user")
    }

    /// Takes the source line of the user's record of the shadow table out
    /// of that table, where the user holds such a record. Fails, and
    /// changes nothing, where the table does not have exactly one such
    /// line.
    pub fn delete_from_shadow(user: &User, locked_s: &mut LockedFileGuard) -> (r: Result<
        (),
        UserLibError,
    >)
        ensures
            match r {
                Ok(()) => struck_shadow(old(locked_s)@, user@.shadow()) == Ok::<
                    GuardView,
                    ErrorView,
                >(final(locked_s)@),
                Err(e) => struck_shadow(old(locked_s)@, user@.shadow()) == Err::<
                    GuardView,
                    ErrorView,
                >(e@) && final(locked_s)@ == old(locked_s)@,
            },
    {
        match user.get_shadow() {
            Some(shadow) => strike(locked_s, shadow.get_source(), "Failed to delete the users shadow"),
            None => Ok(()),
        }
    }

    /// Takes the group's source line out of the group table. Fails, and
    /// changes nothing, where the table does not have exactly one such
    /// line.
    pub fn delete_from_group(group: &Numbered<Group>, locked_g: &mut LockedFileGuard) -> (r:
        Result<(), UserLibError>)
        ensures
            match r {
                Ok(()) => struck(
                    old(locked_g)@,
                    group@.value.source,
                    "Failed to delete the group"@,
                ) == Ok::<GuardView, ErrorView>(final(locked_g)@),
                Err(e) => struck(
                    old(locked_g)@,
                    group@.value.source,
                    "Failed to delete the group"@,
                ) == Err::<GuardView, ErrorView>(e@) && final(locked_g)@ == old(locked_g)@,
            },
    {
        strike(locked_g, group.value.get_source(), "Failed to delete the group")
    }

    /// Writes the group table anew: the lines of the groups, in their
    /// order.
    pub fn write_groups(&self, locked_g: &mut LockedFileGuard)
        ensures
            final(locked_g)@ == old(locked_g)@.replaced(join(group_lines(self@.groups), '\n')),
    {
        write_group_lines(&self.groups, locked_g)
    }

    /// A copy of the database.
    pub fn duplicate(&self) -> (r: Self)
        ensures
            r@ == self@,
    {
        let mut users: UserList = Vec::new();
        let mut i: usize = 0;
        while i < self.users.len()
            invariant
                i <= self.users.len(),
                users@.len() == i,
                forall|j: int| 0 <= j < i ==> (#[trigger] users@[j])@ == self.users@[j]@,
            decreases self.users.len() - i,
        {
            users.push(Numbered { pos: self.users[i].pos, value: self.users[i].value.duplicate() });
            i += 1;
        }
        assert(numbered_views(users@) == numbered_views(self.users@));
        Self {
            source_files: match &self.source_files {
                Some(f) => Some(f.duplicate()),
                None => None,
            },
            users,
            groups: duplicate_groups(&self.groups),
        }
    }

    /// Whether the database is sound.
    pub fn is_sound(&self) -> (r: bool)
        ensures
            r == self.wf(),
    {
        let ghost us = numbered_views(self.users@);
        let mut i: usize = 0;
        while i < self.users.len()
            invariant
                i <= self.users.len(),
                us == numbered_views(self.users@),
                forall|a: int, b: int|
                    0 <= a < b < i ==> (#[trigger] us[a]).value.username != (
                    #[trigger] us[b]).value.username,
            decreases self.users.len() - i,
        {
            let name = match self.users[i].value.get_username() {
                Some(n) => n,
                None => "",
            };
            let mut j: usize = 0;
            while j < i
                invariant
                    j <= i < self.users.len(),
                    us == numbered_views(self.users@),
                    name@ == us[i as int].value.username,
                    forall|a: int| 0 <= a < j ==> (#[trigger] us[a]).value.username != name@,
                decreases i - j,
            {
                let same = match self.users[j].value.get_username() {
                    Some(n) => same_text(n, name),
                    None => false,
                };
                if same {
                    assert(us[j as int].value.username == us[i as int].value.username);
                    return false;
                }
                j += 1;
            }
            i += 1;
        }
        let ghost gs = numbered_views(self.groups@);
        let mut i: usize = 0;
        while i < self.groups.len()
            invariant
                i <= self.groups.len(),
                gs == numbered_views(self.groups@),
                names_unique(us),
                us == numbered_views(self.users@),
                forall|a: int, b: int|
                    0 <= a < b < i ==> (#[trigger] gs[a]).pos != (#[trigger] gs[b]).pos,
            decreases self.groups.len() - i,
        {
            let mut j: usize = 0;
            while j < i
                invariant
                    j <= i < self.groups.len(),
                    gs == numbered_views(self.groups@),
                    forall|a: int| 0 <= a < j ==> (#[trigger] gs[a]).pos != gs[i as int].pos,
                decreases i - j,
            {
                if self.groups[j].pos == self.groups[i].pos {
                    assert(gs[j as int].pos == gs[i as int].pos);
                    return false;
                }
                j += 1;
            }
            i += 1;
        }
        true
    }

    /// Whether a user named `username` can be deleted, before any table is
    /// locked: `NotFound` where there is no such user; else whether the
    /// database has files, whose text `delete_user` then needs.
    pub fn before_delete(&self, username: &str) -> (r: Result<bool, UserLibError>)
        ensures
            match r {
                Ok(files) => position_of(self@.users, username@) is Some && files
                    == self@.source_files is Some,
                Err(e) => position_of(self@.users, username@) is None && e@ == ErrorView::NotFound,
            },
    {
        match find_user(&self.users, username) {
            Some(_) => Ok(self.source_files.is_some()),
            None => Err(UserLibError::NotFound),
        }
    }

    /// Whether a user named `username` can be made, before any table is
    /// locked: an error where a user has the name; else whether the
    /// database has files, whose text `new_user` then needs.
    pub fn before_create(&self, username: &str) -> (r: Result<bool, UserLibError>)
        ensures
            match r {
                Ok(files) => position_of(self@.users, username@) is None && files
                    == self@.source_files is Some,
                Err(e) => position_of(self@.users, username@) is Some && e@ == ErrorView::Message(
                    name_taken(username@),
                ),
            },
    {
        match find_user(&self.users, username) {
            Some(_) => Err(taken(username)),
            None => Ok(self.source_files.is_some()),
        }
    }

    /// Deletes the user named `args.username`: says what the database is
    /// to be, and what is to be done for it, and leaves this database as
    /// it is. For a database with files, `disk` is the text of the three
    /// tables that the caller has read under the locks. The caller writes
    /// what is handed back, and puts the database that is handed back in
    /// the place of this one when every table is written. Where the
    /// outcome is an error, there is nothing to write.
    pub fn delete_user(&self, args: DeleteUserArgs, disk: Option<FileContents>) -> (r: Result<
        Deletion,
        UserLibError,
    >)
        requires
            self.wf(),
        ensures
            match r {
                Ok(out) => deleted(self@, args.username@, args.delete_home, disk_view(disk)) == Ok::<
                    (DBView, DeletedView),
                    ErrorView,
                >(out@) && out.database.wf(),
                Err(e) => deleted(self@, args.username@, args.delete_home, disk_view(disk)) == Err::<
                    (DBView, DeletedView),
                    ErrorView,
                >(e@),
            },
    {
        let mut database = self.duplicate();
        match database.delete_user_here(args, disk) {
            Ok(outcome) => Ok(Deletion { database, outcome }),
            Err(e) => Err(e),
        }
    }

    /// Makes a new user named `args.username`, with the record of a new
    /// user otherwise: says what the database is to be, and what the
    /// tables are to hold, and leaves this database as it is. For a
    /// database with files, `disk` is the text of the three tables that
    /// the caller has read under the locks. The caller writes what is
    /// handed back, and puts the database that is handed back in the place
    /// of this one when every table is written. Where the outcome is an
    /// error, there is nothing to write.
    ///
    /// The tables are recorded as last holding what they held before the
    /// lines were added: a database with files is to be loaded anew before
    /// its tables are changed again.
    pub fn new_user(&self, args: CreateUserArgs, disk: Option<FileContents>) -> (r: Result<
        Creation,
        UserLibError,
    >)
        requires
            self.wf(),
        ensures
            match r {
                Ok(out) => created(self@, args.username@, disk_view(disk)) == Ok::<
                    (DBView, Option<ContentsView>),
                    ErrorView,
                >(out@) && out.database.wf(),
                Err(e) => created(self@, args.username@, disk_view(disk)) == Err::<
                    (DBView, Option<ContentsView>),
                    ErrorView,
                >(e@),
            },
    {
        let mut database = self.duplicate();
        match database.new_user_here(args, disk) {
            Ok(files) => Ok(Creation { database, files }),
            Err(e) => Err(e),
        }
    }

    /// Deletes the user named `args.username` from this database.
    #[verifier::loop_isolation(false)]
    fn delete_user_here(&mut self, args: DeleteUserArgs, disk: Option<FileContents>) -> (r: Result<
        Deleted,
        UserLibError,
    >)
        requires
            old(self).wf(),
        ensures
            final(self).wf(),
            match r {
                Ok(out) => deleted(
                    old(self)@,
                    args.username@,
                    args.delete_home,
                    disk_view(disk),
                ) == Ok::<(DBView, DeletedView), ErrorView>((final(self)@, out@)),
                Err(e) => deleted(old(self)@, args.username@, args.delete_home, disk_view(disk))
                    == Err::<(DBView, DeletedView), ErrorView>(e@) && final(self)@ == old(self)@,
            },
    {
        let ghost db = self@;
        proof {
            lemma_position_of(db.users, args.username@);
        }
        let idx = match find_user(&self.users, args.username) {
            Some(i) => i,
            None => {
                return Err(UserLibError::NotFound);
            },
        };
        if self.source_files.is_none() {
            let user = self.users.remove(idx);
            proof {
                assert(numbered_views(self.users@) == db.users.remove(idx as int));
                lemma_unique_removed(db.users, idx as int);
            }
            return Ok(Deleted { user, files: None, remove_home: None });
        }
        let d = match disk {
            Some(d) => d,
            None => {
                return Err(UserLibError::FilesRequired);
            },
        };
        let (mut locked_p, mut locked_s, mut locked_g) = match &self.source_files {
            Some(files) => match files.lock_all_get(d) {
                Ok(guards) => guards,
                Err(e) => {
                    return Err(e);
                },
            },
            None => {
                return Err(UserLibError::FilesRequired);
            },
        };
        let ghost locked = handles(db.source_files, disk_view(disk))->Ok_0;
        assert(locked == (locked_p@, locked_s@, locked_g@));
        match Self::delete_from_passwd(&self.users[idx].value, &mut locked_p) {
            Ok(()) => {},
            Err(e) => {
                return Err(e);
            },
        }
        match Self::delete_from_shadow(&self.users[idx].value, &mut locked_s) {
            Ok(()) => {},
            Err(e) => {
                return Err(e);
            },
        }
        let mut groups = duplicate_groups(&self.groups);
        let ghost edges = db.users[idx as int].value.groups;
        let n = self.users[idx].value.get_groups().len();
        let mut e: usize = 0;
        assert(edges.take(0) == Seq::<(MembershipKind, usize)>::empty());
        while e < n
            invariant
                e <= n,
                idx < self.users.len(),
                *self == *old(self),
                db == self@,
                edges == db.users[idx as int].value.groups,
                n == edges.len(),
                drop_edges((db.groups, locked.2), edges.take(e as int), args.username@) == Ok::<
                    (Groups, GuardView),
                    ErrorView,
                >((numbered_views(groups@), locked_g@)),
            decreases n - e,
        {
            let edge = self.users[idx].value.get_groups()[e];
            let ghost upto = edges.take(e + 1);
            assert(upto.drop_last() == edges.take(e as int));
            assert(upto.last() == edge);
            match drop_membership(&mut groups, &mut locked_g, edge.0, edge.1, args.username) {
                Ok(()) => {},
                Err(err) => {
                    proof {
                        lemma_drop_edges_prefix(
                            (db.groups, locked.2),
                            edges,
                            args.username@,
                            e + 1,
                        );
                    }
                    return Err(err);
                },
            }
            e += 1;
        }
        assert(edges.take(n as int) == edges);
        proof {
            lemma_drop_edges_positions((db.groups, locked.2), edges, args.username@);
        }
        self.groups = groups;
        let user = self.users.remove(idx);
        proof {
            assert(numbered_views(self.users@) == db.users.remove(idx as int));
            lemma_unique_removed(db.users, idx as int);
        }
        let remove_home = match args.delete_home {
            DeleteHome::Delete => match user.value.get_home_dir() {
                Some(h) => Some(h.to_owned()),
                None => None,
            },
            DeleteHome::Keep => None,
        };
        let files = match &mut self.source_files {
            Some(files) => Some(files.release(locked_p, locked_s, locked_g)),
            None => None,
        };
        Ok(Deleted { user, files, remove_home })
    }

    /// Makes a new user named `args.username` in this database.
    fn new_user_here(&mut self, args: CreateUserArgs, disk: Option<FileContents>) -> (r: Result<
        Option<FileContents>,
        UserLibError,
    >)
        requires
            old(self).wf(),
        ensures
            final(self).wf(),
            match r {
                Ok(out) => created(old(self)@, args.username@, disk_view(disk)) == Ok::<
                    (DBView, Option<ContentsView>),
                    ErrorView,
                >((final(self)@, disk_view(out))),
                Err(e) => created(old(self)@, args.username@, disk_view(disk)) == Err::<
                    (DBView, Option<ContentsView>),
                    ErrorView,
                >(e@) && final(self)@ == old(self)@,
            },
    {
        let ghost db = self@;
        if find_user(&self.users, args.username).is_some() {
            return Err(taken(args.username));
        }
        let mut new_user = User::default();
        new_user.username(args.username.to_owned());
        assert(new_user@ == new_record(args.username@).value);
        let files = if self.source_files.is_some() {
            let d = match disk {
                Some(d) => d,
                None => {
                    return Err(UserLibError::FilesRequired);
                },
            };
            let (mut locked_p, mut locked_s, locked_g) = match &self.source_files {
                Some(files) => match files.lock_all_get(d) {
                    Ok(guards) => guards,
                    Err(e) => {
                        return Err(e);
                    },
                },
                None => {
                    return Err(UserLibError::FilesRequired);
                },
            };
            locked_p.append(new_user.to_string());
            match new_user.get_shadow() {
                Some(shadow) => {
                    locked_s.append(shadow.to_string());
                },
                None => {},
            }
            match &mut self.source_files {
                Some(files) => Some(files.release(locked_p, locked_s, locked_g)),
                None => None,
            }
        } else {
            None
        };
        let ghost record = new_record(args.username@);
        self.users.push(Numbered { pos: usize::MAX, value: new_user });
        proof {
            assert(numbered_views(self.users@) == db.users.push(record));
            lemma_unique_pushed(db.users, record);
        }
        Ok(files)
    }
}

} // verus!
