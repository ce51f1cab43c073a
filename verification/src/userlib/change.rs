//! What deleting and creating a user does to the database and to the text
//! of the three tables.
use vstd::prelude::*;

use crate::api::DeleteHome;
use crate::error::ErrorView;
use crate::group::{GroupView, MembershipKind, MembershipView, names_of_kind, only_member};
use crate::group::without_member;
use crate::number::{decimal, lemma_decimal_value};
use crate::text::{ends_in_cr, join, lemma_join_free, lemma_join_last, lemma_lines_of_ended};
use crate::text::lemma_lines_with_one_more;
use crate::text::{lemma_struck_line_is_gone, line_count, lines, without_line};
use crate::user::shadow_fields::ShadowView;
use crate::user::{default_user, User, UserView};
use crate::userlib::files::{appended, ContentsView, ended, FileContents, FilesView, guard_of};
use crate::userlib::files::GuardView;
use crate::userlib::link::{Edges, Groups, lemma_position_of, names_unique, position_of};
use crate::userlib::link::{positions_unique, Users};
use crate::userlib::numbered::{Numbered, NumberedView};
use crate::userlib::DBView;

verus! {

/// The handle once the one line of the table that is `line` is taken out;
/// the error that says `failure` where the table does not have exactly one
/// such line.
pub open spec fn struck(guard: GuardView, line: Seq<char>, failure: Seq<char>) -> Result<
    GuardView,
    ErrorView,
> {
    if line_count(guard.content, line) == 1 {
        Ok(guard.replaced(without_line(guard.content, line)))
    } else {
        Err(ErrorView::Message(failure))
    }
}

/// The handle on the shadow table once the record of a deleted user is
/// taken out, where the user holds one.
pub open spec fn struck_shadow(guard: GuardView, shadow: Option<ShadowView>) -> Result<
    GuardView,
    ErrorView,
> {
    match shadow {
        Some(s) => struck(guard, s.source, "Failed to delete the users shadow"@),
        None => Ok(guard),
    }
}

/// The lines of the groups, in their order.
pub open spec fn group_lines(groups: Groups) -> Seq<Seq<char>> {
    Seq::new(groups.len(), |i: int| groups[i].value.line())
}

/// The place of the first group that was read from line `pos` of the
/// group table, if there is one.
pub open spec fn pos_place(groups: Groups, pos: usize) -> Option<int>
    decreases groups.len(),
{
    if groups.len() == 0 {
        None
    } else {
        match pos_place(groups.drop_last(), pos) {
            Some(i) => Some(i),
            None => if groups.last().pos == pos {
                Some(groups.len() - 1)
            } else {
                None
            },
        }
    }
}

/// The place of a line is the place of the first group that was read
/// from it; there is none where no group was.
pub proof fn lemma_pos_place(groups: Groups, pos: usize)
    ensures
        match pos_place(groups, pos) {
            Some(i) => {
                &&& 0 <= i < groups.len()
                &&& groups[i].pos == pos
                &&& forall|j: int| 0 <= j < i ==> (#[trigger] groups[j]).pos != pos
            },
            None => forall|j: int| 0 <= j < groups.len() ==> (#[trigger] groups[j]).pos != pos,
        },
    decreases groups.len(),
{
    if groups.len() > 0 {
        lemma_pos_place(groups.drop_last(), pos);
        assert(forall|j: int| 0 <= j < groups.len() - 1 ==> groups.drop_last()[j] == groups[j]);
    }
}

/// A group of a line among the first groups is the first such group among
/// them all.
pub proof fn lemma_pos_prefix(groups: Groups, pos: usize, k: int)
    requires
        0 <= k <= groups.len(),
        pos_place(groups.take(k), pos) is Some,
    ensures
        pos_place(groups, pos) == pos_place(groups.take(k), pos),
    decreases groups.len() - k,
{
    if k == groups.len() {
        assert(groups.take(k) == groups);
    } else {
        assert(groups.drop_last().take(k) == groups.take(k));
        lemma_pos_prefix(groups.drop_last(), pos, k);
    }
}

/// `group` without the members of kind `kind` named `name`.
pub open spec fn left_by(group: NumberedView<GroupView>, kind: MembershipKind, name: Seq<char>)
    -> NumberedView<GroupView> {
    NumberedView {
        pos: group.pos,
        value: GroupView {
            members: without_member(group.value.members, kind, name),
            ..group.value
        },
    }
}

/// The groups and the group table once the user named `name` has left the
/// group that was read from line `pos`.
///
/// Where the group is the user's own and has no member but the user, the
/// group goes: its source line is taken out of the table, and the group out
/// of the list. Otherwise the user is taken out of the group's members of
/// kind `kind`, and the table is written anew from the groups. An edge to
/// a group that is not there changes nothing.
pub open spec fn drop_edge(
    state: (Groups, GuardView),
    kind: MembershipKind,
    pos: usize,
    name: Seq<char>,
) -> Result<(Groups, GuardView), ErrorView> {
    match pos_place(state.0, pos) {
        None => Ok(state),
        Some(i) => {
            let group = state.0[i];
            if kind == MembershipKind::Primary && only_member(group.value.members, name) {
                match struck(state.1, group.value.source, "Failed to delete the group"@) {
                    Err(e) => Err(e),
                    Ok(guard) => Ok((state.0.remove(i), guard)),
                }
            } else {
                let groups = state.0.update(i, left_by(group, kind, name));
                Ok((groups, state.1.replaced(join(group_lines(groups), '\n'))))
            }
        },
    }
}

/// The groups and the group table once the user named `name` has left
/// the groups of all its edges, one after the other.
pub open spec fn drop_edges(state: (Groups, GuardView), edges: Edges, name: Seq<char>) -> Result<
    (Groups, GuardView),
    ErrorView,
>
    decreases edges.len(),
{
    if edges.len() == 0 {
        Ok(state)
    } else {
        match drop_edges(state, edges.drop_last(), name) {
            Err(e) => Err(e),
            Ok(front) => drop_edge(front, edges.last().0, edges.last().1, name),
        }
    }
}

/// Groups that a user has left were still read from different lines.
pub proof fn lemma_drop_edge_positions(
    state: (Groups, GuardView),
    kind: MembershipKind,
    pos: usize,
    name: Seq<char>,
)
    requires
        positions_unique(state.0),
        drop_edge(state, kind, pos, name) is Ok,
    ensures
        positions_unique(drop_edge(state, kind, pos, name)->Ok_0.0),
{
    lemma_pos_place(state.0, pos);
    let after = drop_edge(state, kind, pos, name)->Ok_0.0;
    match pos_place(state.0, pos) {
        None => {},
        Some(i) => {
            assert forall|a: int, b: int| 0 <= a < b < after.len() implies (#[trigger] after[a]).pos
                != (#[trigger] after[b]).pos by {
                if after.len() == state.0.len() {
                    assert(after[a].pos == state.0[a].pos);
                    assert(after[b].pos == state.0[b].pos);
                } else {
                    let x = if a < i {
                        a
                    } else {
                        a + 1
                    };
                    let y = if b < i {
                        b
                    } else {
                        b + 1
                    };
                    assert(after[a] == state.0[x]);
                    assert(after[b] == state.0[y]);
                }
            }
        },
    }
}

/// Groups that a user has left, edge by edge, were still read from
/// different lines.
pub proof fn lemma_drop_edges_positions(state: (Groups, GuardView), edges: Edges, name: Seq<char>)
    requires
        positions_unique(state.0),
        drop_edges(state, edges, name) is Ok,
    ensures
        positions_unique(drop_edges(state, edges, name)->Ok_0.0),
    decreases edges.len(),
{
    if edges.len() > 0 {
        lemma_drop_edges_positions(state, edges.drop_last(), name);
        lemma_drop_edge_positions(
            drop_edges(state, edges.drop_last(), name)->Ok_0,
            edges.last().0,
            edges.last().1,
            name,
        );
    }
}

/// An error in leaving the groups of the first edges is the error in
/// leaving the groups of them all.
pub proof fn lemma_drop_edges_prefix(
    state: (Groups, GuardView),
    edges: Edges,
    name: Seq<char>,
    k: int,
)
    requires
        0 <= k <= edges.len(),
        drop_edges(state, edges.take(k), name) is Err,
    ensures
        drop_edges(state, edges, name) == drop_edges(state, edges.take(k), name),
    decreases edges.len() - k,
{
    if k == edges.len() {
        assert(edges.take(k) == edges);
    } else {
        assert(edges.drop_last().take(k) == edges.take(k));
        lemma_drop_edges_prefix(state, edges.drop_last(), name, k);
    }
}

/// What is to be done when a user is deleted.
#[derive(Debug)]
pub struct Deleted {
    /// The user that was deleted.
    pub user: Numbered<User>,
    /// What the three tables are to hold from now on; `None` for a
    /// database without files, where nothing is to be written.
    pub files: Option<FileContents>,
    /// The home directory that is to be removed, if that was asked for.
    pub remove_home: Option<String>,
}

/// What is to be done when a user is deleted, as a mathematical value.
pub struct DeletedView {
    pub user: NumberedView<UserView>,
    pub files: Option<ContentsView>,
    pub remove_home: Option<Seq<char>>,
}

impl View for Deleted {
    type V = DeletedView;

    open spec fn view(&self) -> DeletedView {
        DeletedView {
            user: self.user@,
            files: match self.files {
                Some(f) => Some(f@),
                None => None,
            },
            remove_home: match self.remove_home {
                Some(h) => Some(h@),
                None => None,
            },
        }
    }
}

/// The text of the tables that was handed over, as a mathematical value.
pub open spec fn disk_view(disk: Option<FileContents>) -> Option<ContentsView> {
    match disk {
        Some(d) => Some(d@),
        None => None,
    }
}

/// The handles on the three tables behind a database, which hold `disk`.
pub open spec fn handles(files: Option<FilesView>, disk: Option<ContentsView>) -> Result<
    (GuardView, GuardView, GuardView),
    ErrorView,
> {
    match (files, disk) {
        (Some(f), Some(d)) => if f.is_virtual() {
            Err(ErrorView::FilesRequired)
        } else if !f.unchanged(d) {
            Err(ErrorView::FilesChanged)
        } else {
            Ok((guard_of(f.passwd, d.pwd), guard_of(f.shadow, d.shd), guard_of(f.group, d.grp)))
        },
        _ => Err(ErrorView::FilesRequired),
    }
}

/// The tables behind a database once the three handles are given back.
pub open spec fn released(p: GuardView, s: GuardView, g: GuardView) -> Option<FilesView> {
    Some(FilesView { passwd: p.path, shadow: s.path, group: g.path })
}

/// What the handles say that the tables hold.
pub open spec fn written(p: GuardView, s: GuardView, g: GuardView) -> Option<ContentsView> {
    Some(ContentsView { pwd: p.content, shd: s.content, grp: g.content })
}

/// The database without the user named `name`, and what is handed back.
///
/// A database without files loses the user and nothing else. A database
/// with files needs the text `disk` of its tables, none of which may have
/// changed. The user's source line leaves the user table, the source line
/// of its record of the shadow table leaves the shadow table, and the user
/// leaves its groups, edge by edge; then the user leaves the database.
/// Where any step fails, the error is all that comes of it.
pub open spec fn deleted(
    db: DBView,
    name: Seq<char>,
    delete_home: DeleteHome,
    disk: Option<ContentsView>,
) -> Result<(DBView, DeletedView), ErrorView> {
    match position_of(db.users, name) {
        None => Err(ErrorView::NotFound),
        Some(i) => {
            let user = db.users[i];
            if db.source_files is None {
                Ok(
                    (
                        DBView { users: db.users.remove(i), ..db },
                        DeletedView { user, files: None, remove_home: None },
                    ),
                )
            } else {
                match handles(db.source_files, disk) {
                    Err(e) => Err(e),
                    Ok(locked) => match struck(
                        locked.0,
                        user.value.source,
                        "Failed to delete the user"@,
                    ) {
                        Err(e) => Err(e),
                        Ok(p) => match struck_shadow(locked.1, user.value.shadow()) {
                            Err(e) => Err(e),
                            Ok(s) => match drop_edges(
                                (db.groups, locked.2),
                                user.value.groups,
                                name,
                            ) {
                                Err(e) => Err(e),
                                Ok(left) => Ok(
                                    (
                                        DBView {
                                            source_files: released(p, s, left.1),
                                            users: db.users.remove(i),
                                            groups: left.0,
                                        },
                                        DeletedView {
                                            user,
                                            files: written(p, s, left.1),
                                            remove_home: if delete_home == DeleteHome::Delete {
                                                Some(user.value.home_dir)
                                            } else {
                                                None
                                            },
                                        },
                                    ),
                                ),
                            },
                        },
                    },
                }
            }
        },
    }
}

/// The message of the error for a user name that is taken.
pub open spec fn name_taken(name: Seq<char>) -> Seq<char> {
    "The username "@ + name + " already exists! Aborting!"@
}

/// The record of a new user named `name`.
pub open spec fn new_record(name: Seq<char>) -> NumberedView<UserView> {
    NumberedView { pos: usize::MAX, value: default_user().renamed(name) }
}

/// The handle on the shadow table once the record of a new user stands in
/// it, where the user holds one.
pub open spec fn appended_shadow(guard: GuardView, shadow: Option<ShadowView>) -> GuardView {
    match shadow {
        Some(s) => guard.appended(s.line()),
        None => guard,
    }
}

/// The database with a new user named `name`, and what the tables are to
/// hold from now on.
///
/// A name that a user has is refused. A database without files gains the
/// user and nothing else. A database with files needs the text `disk` of
/// its tables, none of which may have changed; the user's line is added to
/// the user table, and the line of its record of the shadow table to the
/// shadow table.
pub open spec fn created(db: DBView, name: Seq<char>, disk: Option<ContentsView>) -> Result<
    (DBView, Option<ContentsView>),
    ErrorView,
> {
    if position_of(db.users, name) is Some {
        Err(ErrorView::Message(name_taken(name)))
    } else if db.source_files is None {
        Ok((DBView { users: db.users.push(new_record(name)), ..db }, None))
    } else {
        match handles(db.source_files, disk) {
            Err(e) => Err(e),
            Ok(locked) => {
                let p = locked.0.appended(new_record(name).value.line());
                let s = appended_shadow(locked.1, new_record(name).value.shadow());
                Ok(
                    (
                        DBView {
                            source_files: released(p, s, locked.2),
                            users: db.users.push(new_record(name)),
                            groups: db.groups,
                        },
                        written(p, s, locked.2),
                    ),
                )
            },
        }
    }
}

/// The users without one of them still have no name twice.
pub proof fn lemma_unique_removed(users: Users, i: int)
    requires
        names_unique(users),
        0 <= i < users.len(),
    ensures
        names_unique(users.remove(i)),
{
    let rest = users.remove(i);
    assert forall|a: int, b: int| 0 <= a < b < rest.len() implies (#[trigger] rest[a]).value.username
        != (#[trigger] rest[b]).value.username by {
        let x = if a < i {
            a
        } else {
            a + 1
        };
        let y = if b < i {
            b
        } else {
            b + 1
        };
        assert(rest[a] == users[x]);
        assert(rest[b] == users[y]);
    }
}

/// The users with one more, whose name none of them has, still have no
/// name twice.
pub proof fn lemma_unique_pushed(users: Users, user: NumberedView<UserView>)
    requires
        names_unique(users),
        position_of(users, user.value.username) is None,
    ensures
        names_unique(users.push(user)),
{
    lemma_position_of(users, user.value.username);
    let more = users.push(user);
    assert forall|a: int, b: int| 0 <= a < b < more.len() implies (#[trigger] more[a]).value.username
        != (#[trigger] more[b]).value.username by {
        assert(more[a] == users[a]);
        if b < users.len() {
            assert(more[b] == users[b]);
        }
    }
}

/// Whether every group that was read from line `pos` has no member but
/// the user named `name`.
pub open spec fn sole_at(groups: Groups, pos: usize, name: Seq<char>) -> bool {
    forall|j: int|
        0 <= j < groups.len() && (#[trigger] groups[j]).pos == pos ==> only_member(
            groups[j].value.members,
            name,
        )
}

/// Whether no group was read from line `pos`.
pub open spec fn absent(groups: Groups, pos: usize) -> bool {
    forall|j: int| 0 <= j < groups.len() ==> (#[trigger] groups[j]).pos != pos
}

/// Whether a group with the source line `source` was read from line
/// `pos`.
pub open spec fn present(groups: Groups, pos: usize, source: Seq<char>) -> bool {
    exists|j: int|
        0 <= j < groups.len() && (#[trigger] groups[j]).pos == pos && groups[j].value.source
            == source
}

/// Whether no group that was read from line `pos` lists the name `name`.
pub open spec fn unlisted(groups: Groups, pos: usize, name: Seq<char>) -> bool {
    forall|j: int|
        0 <= j < groups.len() && (#[trigger] groups[j]).pos == pos ==> !names_of_kind(
            groups[j].value.members,
            MembershipKind::Member,
        ).contains(name)
}

/// A group that has no member but one user has none but that user when
/// the user has left it.
pub proof fn lemma_only_member_left(
    members: Seq<MembershipView>,
    kind: MembershipKind,
    name: Seq<char>,
    only: Seq<char>,
)
    requires
        only_member(members, only),
    ensures
        only_member(without_member(members, kind, name), only),
    decreases members.len(),
{
    if members.len() > 0 {
        let front = members.drop_last();
        assert(forall|i: int| 0 <= i < front.len() ==> front[i] == members[i]);
        lemma_only_member_left(front, kind, name, only);
        let left = without_member(members, kind, name);
        assert forall|i: int| 0 <= i < left.len() implies (#[trigger] left[i]).username == only by {
            if i < without_member(front, kind, name).len() {
                assert(left[i] == without_member(front, kind, name)[i]);
            } else {
                assert(left[i] == members[members.len() - 1]);
            }
        }
    }
}

/// A group does not list a user that has left it as a listed member; a
/// user that has left a group as its own group is listed as before.
pub proof fn lemma_left_is_unlisted(
    members: Seq<MembershipView>,
    kind: MembershipKind,
    name: Seq<char>,
)
    ensures
        kind == MembershipKind::Member ==> !names_of_kind(
            without_member(members, kind, name),
            MembershipKind::Member,
        ).contains(name),
        kind == MembershipKind::Primary ==> names_of_kind(
            without_member(members, kind, name),
            MembershipKind::Member,
        ) == names_of_kind(members, MembershipKind::Member),
    decreases members.len(),
{
    if members.len() > 0 {
        let front = members.drop_last();
        lemma_left_is_unlisted(front, kind, name);
        let last = members.last();
        let left = without_member(members, kind, name);
        let before = names_of_kind(without_member(front, kind, name), MembershipKind::Member);
        if !(last.kind == kind && last.username == name) {
            assert(left.drop_last() == without_member(front, kind, name));
            assert(left.last() == last);
            if kind == MembershipKind::Member && last.kind == MembershipKind::Member {
                let names = before.push(last.username);
                if names.contains(name) {
                    let k = choose|k: int| 0 <= k < names.len() && names[k] == name;
                    if k < before.len() {
                        assert(before[k] == name);
                    }
                }
            }
        }
    }
}

/// One step of a user's leaving its groups, seen from the groups of one
/// line: a group without other members stays without them, or goes; it
/// goes where the step is for the user's own group of that line.
pub proof fn lemma_step_own_group(
    state: (Groups, GuardView),
    kind: MembershipKind,
    pos: usize,
    name: Seq<char>,
    p: usize,
)
    requires
        positions_unique(state.0),
        sole_at(state.0, p, name),
        drop_edge(state, kind, pos, name) is Ok,
    ensures
        sole_at(drop_edge(state, kind, pos, name)->Ok_0.0, p, name),
        absent(state.0, p) ==> absent(drop_edge(state, kind, pos, name)->Ok_0.0, p),
        kind == MembershipKind::Primary && pos == p ==> absent(
            drop_edge(state, kind, pos, name)->Ok_0.0,
            p,
        ),
{
    lemma_pos_place(state.0, pos);
    let after = drop_edge(state, kind, pos, name)->Ok_0.0;
    match pos_place(state.0, pos) {
        None => {},
        Some(i) => {
            let group = state.0[i];
            if kind == MembershipKind::Primary && only_member(group.value.members, name) {
                assert(after == state.0.remove(i));
                assert forall|j: int| 0 <= j < after.len() implies {
                    &&& (#[trigger] after[j]).pos == p ==> only_member(after[j].value.members, name)
                    &&& absent(state.0, p) ==> after[j].pos != p
                    &&& pos == p ==> after[j].pos != p
                } by {
                    let k = if j < i {
                        j
                    } else {
                        j + 1
                    };
                    assert(after[j] == state.0[k]);
                }
            } else {
                assert(after == state.0.update(i, left_by(group, kind, name)));
                assert forall|j: int| 0 <= j < after.len() implies {
                    &&& (#[trigger] after[j]).pos == p ==> only_member(after[j].value.members, name)
                    &&& absent(state.0, p) ==> after[j].pos != p
                } by {
                    if j == i {
                        if group.pos == p {
                            lemma_only_member_left(group.value.members, kind, name, name);
                        }
                    } else {
                        assert(after[j] == state.0[j]);
                    }
                }
            }
        },
    }
}

/// A user's leaving its groups, seen from the groups of one line: a group
/// without other members goes where one of the edges is to the user's own
/// group of that line.
pub proof fn lemma_own_group_goes(
    state: (Groups, GuardView),
    edges: Edges,
    name: Seq<char>,
    p: usize,
)
    requires
        positions_unique(state.0),
        sole_at(state.0, p, name),
        drop_edges(state, edges, name) is Ok,
    ensures
        sole_at(drop_edges(state, edges, name)->Ok_0.0, p, name),
        absent(state.0, p) ==> absent(drop_edges(state, edges, name)->Ok_0.0, p),
        edges.contains((MembershipKind::Primary, p)) ==> absent(
            drop_edges(state, edges, name)->Ok_0.0,
            p,
        ),
    decreases edges.len(),
{
    if edges.len() > 0 {
        let front = edges.drop_last();
        lemma_own_group_goes(state, front, name, p);
        lemma_drop_edges_positions(state, front, name);
        let mid = drop_edges(state, front, name)->Ok_0;
        lemma_step_own_group(mid, edges.last().0, edges.last().1, name, p);
        if edges.contains((MembershipKind::Primary, p)) {
            let k = choose|k: int| 0 <= k < edges.len() && edges[k] == (MembershipKind::Primary, p);
            if k < front.len() {
                assert(front[k] == edges[k]);
            }
        }
    }
}

/// One step of a user's leaving its groups, seen from the groups of one
/// line: a group stays unless the step is for the user's own group of
/// that line; no group comes to list the user; and the group of that line
/// does not list the user after the step where the step is for that line
/// and the group stays.
pub proof fn lemma_step_member(
    state: (Groups, GuardView),
    kind: MembershipKind,
    pos: usize,
    name: Seq<char>,
    p: usize,
    source: Seq<char>,
)
    requires
        positions_unique(state.0),
        drop_edge(state, kind, pos, name) is Ok,
    ensures
        present(state.0, p, source) && !(kind == MembershipKind::Primary && pos == p) ==> present(
            drop_edge(state, kind, pos, name)->Ok_0.0,
            p,
            source,
        ),
        unlisted(state.0, p, name) ==> unlisted(drop_edge(state, kind, pos, name)->Ok_0.0, p, name),
        kind == MembershipKind::Member && pos == p ==> unlisted(
            drop_edge(state, kind, pos, name)->Ok_0.0,
            p,
            name,
        ),
{
    lemma_pos_place(state.0, pos);
    let after = drop_edge(state, kind, pos, name)->Ok_0.0;
    match pos_place(state.0, pos) {
        None => {},
        Some(i) => {
            let group = state.0[i];
            lemma_left_is_unlisted(group.value.members, kind, name);
            if kind == MembershipKind::Primary && only_member(group.value.members, name) {
                assert(after == state.0.remove(i));
                assert forall|j: int|
                    0 <= j < after.len() && unlisted(state.0, p, name) && (#[trigger] after[j]).pos
                        == p implies !names_of_kind(
                    after[j].value.members,
                    MembershipKind::Member,
                ).contains(name) by {
                    let k = if j < i {
                        j
                    } else {
                        j + 1
                    };
                    assert(after[j] == state.0[k]);
                }
                if present(state.0, p, source) && pos != p {
                    let j = choose|j: int|
                        0 <= j < state.0.len() && (#[trigger] state.0[j]).pos == p
                            && state.0[j].value.source == source;
                    let k = if j < i {
                        j
                    } else {
                        j - 1
                    };
                    assert(after[k] == state.0[j]);
                }
            } else {
                assert(after == state.0.update(i, left_by(group, kind, name)));
                assert forall|j: int|
                    0 <= j < after.len() && (#[trigger] after[j]).pos == p && (unlisted(
                        state.0,
                        p,
                        name,
                    ) || (kind == MembershipKind::Member && pos == p)) implies !names_of_kind(
                    after[j].value.members,
                    MembershipKind::Member,
                ).contains(name) by {
                    if j != i {
                        assert(after[j] == state.0[j]);
                    }
                }
                if present(state.0, p, source) {
                    let j = choose|j: int|
                        0 <= j < state.0.len() && (#[trigger] state.0[j]).pos == p
                            && state.0[j].value.source == source;
                    assert(after[j].pos == p && after[j].value.source == source);
                }
            }
        },
    }
}

/// A user's leaving its groups, seen from the groups of one line that is
/// not the line of the user's own group: the group stays, and does not
/// list the user after an edge of membership to it.
pub proof fn lemma_member_leaves(
    state: (Groups, GuardView),
    edges: Edges,
    name: Seq<char>,
    p: usize,
    source: Seq<char>,
)
    requires
        positions_unique(state.0),
        drop_edges(state, edges, name) is Ok,
        !edges.contains((MembershipKind::Primary, p)),
    ensures
        present(state.0, p, source) ==> present(drop_edges(state, edges, name)->Ok_0.0, p, source),
        unlisted(state.0, p, name) || edges.contains((MembershipKind::Member, p)) ==> unlisted(
            drop_edges(state, edges, name)->Ok_0.0,
            p,
            name,
        ),
    decreases edges.len(),
{
    if edges.len() > 0 {
        let front = edges.drop_last();
        assert(!front.contains((MembershipKind::Primary, p))) by {
            if front.contains((MembershipKind::Primary, p)) {
                let k = choose|k: int|
                    0 <= k < front.len() && front[k] == (MembershipKind::Primary, p);
                assert(edges[k] == front[k]);
            }
        }
        lemma_member_leaves(state, front, name, p, source);
        lemma_drop_edges_positions(state, front, name);
        let mid = drop_edges(state, front, name)->Ok_0;
        assert(edges[edges.len() - 1] == edges.last());
        lemma_step_member(mid, edges.last().0, edges.last().1, name, p, source);
        if edges.contains((MembershipKind::Member, p)) {
            let k = choose|k: int| 0 <= k < edges.len() && edges[k] == (MembershipKind::Member, p);
            if k < front.len() {
                assert(front[k] == edges[k]);
            }
        }
    }
}

/// The edges of the user named `name`.
pub open spec fn edges_of(db: DBView, name: Seq<char>) -> Edges {
    db.users[position_of(db.users, name)->Some_0].value.groups
}

/// Deleting a user deletes the user's own group where the user was its
/// only member.
///
/// Of a database with files, whose groups were read from different lines:
/// where the deleted user has an edge to its own group of line `p`, and
/// no group of that line has a member but the user, no group of that line
/// is left.
pub proof fn lemma_delete_user_own_group(
    db: DBView,
    name: Seq<char>,
    delete_home: DeleteHome,
    disk: Option<ContentsView>,
    p: usize,
)
    requires
        positions_unique(db.groups),
        db.source_files is Some,
        deleted(db, name, delete_home, disk) is Ok,
        edges_of(db, name).contains((MembershipKind::Primary, p)),
        sole_at(db.groups, p, name),
    ensures
        absent(deleted(db, name, delete_home, disk)->Ok_0.0.groups, p),
{
    let locked = handles(db.source_files, disk)->Ok_0;
    lemma_own_group_goes((db.groups, locked.2), edges_of(db, name), name, p);
}

/// A deleted user is no user any more: of a database in which no two
/// users have the same name, with files or without, no user has the name
/// after a user of that name was deleted, and the other users are left as
/// they were.
pub proof fn lemma_delete_user_removes_user(
    db: DBView,
    name: Seq<char>,
    delete_home: DeleteHome,
    disk: Option<ContentsView>,
)
    requires
        names_unique(db.users),
        deleted(db, name, delete_home, disk) is Ok,
    ensures
        position_of(deleted(db, name, delete_home, disk)->Ok_0.0.users, name) is None,
        deleted(db, name, delete_home, disk)->Ok_0.0.users == db.users.remove(
            position_of(db.users, name)->Some_0,
        ),
        deleted(db, name, delete_home, disk)->Ok_0.1.user == db.users[position_of(
            db.users,
            name,
        )->Some_0],
{
    lemma_position_of(db.users, name);
    let i = position_of(db.users, name)->Some_0;
    let rest = db.users.remove(i);
    lemma_position_of(rest, name);
    if position_of(rest, name) is Some {
        let k = position_of(rest, name)->Some_0;
        let j = if k < i {
            k
        } else {
            k + 1
        };
        assert(rest[k] == db.users[j]);
    }
}

/// The groups and the group table when the user named `name` has left the
/// groups of all its edges but the last.
pub open spec fn before_last_edge(db: DBView, name: Seq<char>, disk: Option<ContentsView>) -> (
    Groups,
    GuardView,
) {
    drop_edges(
        (db.groups, handles(db.source_files, disk)->Ok_0.2),
        edges_of(db, name).drop_last(),
        name,
    )->Ok_0
}

/// Deleting a user takes the line of the user's own group out of the group
/// table where the user was its only member.
///
/// Of a database with files, whose groups were read from different lines:
/// where the last edge of the deleted user is to its own group of line
/// `p`, no edge before it is, and the group of that line has no member
/// but the user, no line of the group table that is to be written is the
/// source line of that group. This holds of a source line that is not
/// empty, and of a group table that, when the user has left the groups of
/// its other edges, has no line made of the source line and a carriage
/// return.
pub proof fn lemma_delete_user_own_group_line(
    db: DBView,
    name: Seq<char>,
    delete_home: DeleteHome,
    disk: Option<ContentsView>,
    p: usize,
    source: Seq<char>,
)
    requires
        positions_unique(db.groups),
        db.source_files is Some,
        deleted(db, name, delete_home, disk) is Ok,
        edges_of(db, name).len() > 0,
        edges_of(db, name).last() == (MembershipKind::Primary, p),
        !edges_of(db, name).drop_last().contains((MembershipKind::Primary, p)),
        present(db.groups, p, source),
        sole_at(db.groups, p, name),
        source.len() > 0,
        line_count(before_last_edge(db, name, disk).1.content, source.push('\r')) == 0,
    ensures
        deleted(db, name, delete_home, disk)->Ok_0.1.files is Some,
        line_count(deleted(db, name, delete_home, disk)->Ok_0.1.files->Some_0.grp, source) == 0,
{
    let locked = handles(db.source_files, disk)->Ok_0;
    let edges = edges_of(db, name);
    let front = edges.drop_last();
    let start = (db.groups, locked.2);
    let mid = drop_edges(start, front, name)->Ok_0;
    lemma_member_leaves(start, front, name, p, source);
    lemma_own_group_goes(start, front, name, p);
    lemma_drop_edges_positions(start, front, name);
    lemma_pos_place(mid.0, p);
    let j = choose|j: int|
        0 <= j < mid.0.len() && (#[trigger] mid.0[j]).pos == p && mid.0[j].value.source == source;
    let i = pos_place(mid.0, p)->Some_0;
    assert(i == j);
    lemma_struck_line_is_gone(mid.1.content, source);
}

/// Deleting a user takes the user out of the groups that list it.
///
/// Of a database with files, whose groups were read from different lines:
/// where the deleted user has an edge of membership to the group of line
/// `p`, and no edge to that line as to its own group, the group of that
/// line is left, and does not list the user.
pub proof fn lemma_delete_user_member(
    db: DBView,
    name: Seq<char>,
    delete_home: DeleteHome,
    disk: Option<ContentsView>,
    p: usize,
    source: Seq<char>,
)
    requires
        positions_unique(db.groups),
        db.source_files is Some,
        deleted(db, name, delete_home, disk) is Ok,
        edges_of(db, name).contains((MembershipKind::Member, p)),
        !edges_of(db, name).contains((MembershipKind::Primary, p)),
        present(db.groups, p, source),
    ensures
        present(deleted(db, name, delete_home, disk)->Ok_0.0.groups, p, source),
        unlisted(deleted(db, name, delete_home, disk)->Ok_0.0.groups, p, name),
{
    let locked = handles(db.source_files, disk)->Ok_0;
    lemma_member_leaves((db.groups, locked.2), edges_of(db, name), name, p, source);
}

/// After a step in which a user leaves a group that stays, the group table
/// holds the lines of the groups: in their order, with a newline between
/// neighbours and one at the end.
pub proof fn lemma_step_writes_groups(
    state: (Groups, GuardView),
    kind: MembershipKind,
    pos: usize,
    name: Seq<char>,
)
    requires
        pos_place(state.0, pos) is Some,
        !(kind == MembershipKind::Primary && only_member(
            state.0[pos_place(state.0, pos)->Some_0].value.members,
            name,
        )),
    ensures
        drop_edge(state, kind, pos, name) is Ok,
        drop_edge(state, kind, pos, name)->Ok_0.1.content == join(
            group_lines(drop_edge(state, kind, pos, name)->Ok_0.0),
            '\n',
        ).push('\n'),
        drop_edge(state, kind, pos, name)->Ok_0.0.len() == state.0.len(),
{
    lemma_pos_place(state.0, pos);
}

/// A table that has changed is not touched: where one of the tables does
/// not hold what it last held, no handle is given out, no user is deleted
/// and none is made, and nothing is to be written.
pub proof fn lemma_changed_tables_are_refused(
    db: DBView,
    name: Seq<char>,
    delete_home: DeleteHome,
    disk: ContentsView,
)
    requires
        db.source_files is Some,
        !db.source_files->Some_0.is_virtual(),
        !db.source_files->Some_0.unchanged(disk),
    ensures
        handles(db.source_files, Some(disk)) == Err::<(GuardView, GuardView, GuardView), ErrorView>(
            ErrorView::FilesChanged,
        ),
        position_of(db.users, name) is Some ==> deleted(db, name, delete_home, Some(disk)) == Err::<
            (DBView, DeletedView),
            ErrorView,
        >(ErrorView::FilesChanged),
        position_of(db.users, name) is None ==> created(db, name, Some(disk)) == Err::<
            (DBView, Option<ContentsView>),
            ErrorView,
        >(ErrorView::FilesChanged),
        crate::userlib::loaded(db.source_files->Some_0, disk) == Err::<DBView, ErrorView>(
            ErrorView::FilesChanged,
        ),
{
}

/// A name that a user has is refused, whatever the tables hold: nothing
/// changes and nothing is to be written.
pub proof fn lemma_taken_name_is_refused(db: DBView, name: Seq<char>, disk: Option<ContentsView>)
    requires
        position_of(db.users, name) is Some,
    ensures
        created(db, name, disk) == Err::<(DBView, Option<ContentsView>), ErrorView>(
            ErrorView::Message(name_taken(name)),
        ),
{
}

/// The decimal text of a number holds no newline.
pub proof fn lemma_decimal_free(n: nat)
    ensures
        !decimal(n).contains('\n'),
{
    lemma_decimal_value(n);
    if decimal(n).contains('\n') {
        let k = choose|k: int| 0 <= k < decimal(n).len() && decimal(n)[k] == '\n';
        assert(crate::number::is_digit(decimal(n)[k]));
    }
}

/// The lines of the record of a new user hold no newline where the name
/// holds none.
pub proof fn lemma_new_record_lines(name: Seq<char>)
    requires
        !name.contains('\n'),
    ensures
        !new_record(name).value.line().contains('\n'),
        !ends_in_cr(new_record(name).value.line()),
        new_record(name).value.shadow() is Some,
        !new_record(name).value.shadow()->Some_0.line().contains('\n'),
        !ends_in_cr(new_record(name).value.shadow()->Some_0.line()),
{
    let user = new_record(name).value;
    let shadow = user.shadow()->Some_0;
    lemma_decimal_free(1001);
    lemma_decimal_free(0);
    lemma_decimal_free(99999);
    lemma_decimal_free(7);
    reveal_strlit("/");
    reveal_strlit("/bin/nologin");
    reveal_strlit("!!");
    let empty = Seq::<char>::empty();
    assert(!"/"@.contains('\n')) by {
        if "/"@.contains('\n') {
            let k = choose|k: int| 0 <= k < "/"@.len() && "/"@[k] == '\n';
        }
    }
    assert(!"/bin/nologin"@.contains('\n')) by {
        if "/bin/nologin"@.contains('\n') {
            let k = choose|k: int| 0 <= k < "/bin/nologin"@.len() && "/bin/nologin"@[k] == '\n';
        }
    }
    assert(!"!!"@.contains('\n')) by {
        if "!!"@.contains('\n') {
            let k = choose|k: int| 0 <= k < "!!"@.len() && "!!"@[k] == '\n';
        }
    }
    assert(!seq!['x'].contains('\n')) by {
        if seq!['x'].contains('\n') {
            let k = choose|k: int| 0 <= k < seq!['x'].len() && seq!['x'][k] == '\n';
        }
    }
    assert(!empty.contains('\n'));
    assert(8_639_913_600int / 86400 == 99999);
    lemma_join_free(user.fields(), ':', '\n');
    lemma_join_free(shadow.fields(), ':', '\n');
    lemma_join_last(user.fields(), ':');
    lemma_join_last(shadow.fields(), ':');
    assert("/bin/nologin"@.last() == 'n');
}

/// Making a user with a fresh name adds one line to the user table and one
/// to the shadow table, and leaves the group table as it is.
///
/// Of a database with files, and a name without a newline: the user table
/// that is to be written is the one that was read, ended by a newline if
/// it was not, then the line of the new user and a newline. Its lines are
/// the lines that it had and the line of the new user, where it did not
/// end in a carriage return. The same holds of the shadow table and the
/// line of the user's record there.
pub proof fn lemma_new_user_adds_one_line(db: DBView, name: Seq<char>, disk: ContentsView)
    requires
        db.source_files is Some,
        created(db, name, Some(disk)) is Ok,
        !name.contains('\n'),
    ensures
        ({
            let after = created(db, name, Some(disk))->Ok_0;
            let user = new_record(name).value;
            &&& after.0.users == db.users.push(new_record(name))
            &&& after.0.groups == db.groups
            &&& after.1 is Some
            &&& user.shadow() is Some
            &&& after.1->Some_0.pwd == appended(disk.pwd, user.line())
            &&& after.1->Some_0.pwd.last() == '\n'
            &&& !ends_in_cr(disk.pwd) ==> lines(after.1->Some_0.pwd) == lines(disk.pwd).push(
                user.line(),
            )
            &&& after.1->Some_0.shd == appended(disk.shd, user.shadow()->Some_0.line())
            &&& after.1->Some_0.shd.last() == '\n'
            &&& !ends_in_cr(disk.shd) ==> lines(after.1->Some_0.shd) == lines(disk.shd).push(
                user.shadow()->Some_0.line(),
            )
            &&& after.1->Some_0.grp == disk.grp
        }),
{
    let user = new_record(name).value;
    lemma_new_record_lines(name);
    lemma_lines_appended(disk.pwd, user.line());
    lemma_lines_appended(disk.shd, user.shadow()->Some_0.line());
}

/// A text with one more line added has the lines that it had and that
/// line, where the line holds no newline and neither the line nor the text
/// ends in a carriage return.
pub proof fn lemma_lines_appended(content: Seq<char>, line: Seq<char>)
    requires
        !line.contains('\n'),
        !ends_in_cr(line),
    ensures
        !ends_in_cr(content) ==> lines(appended(content, line)) == lines(content).push(line),
        appended(content, line).last() == '\n',
{
    if !ends_in_cr(content) {
        lemma_lines_appended_plain(content, line);
    }
}

/// The same, for a text that does not end in a carriage return.
proof fn lemma_lines_appended_plain(content: Seq<char>, line: Seq<char>)
    requires
        !line.contains('\n'),
        !ends_in_cr(line),
        !ends_in_cr(content),
    ensures
        lines(appended(content, line)) == lines(content).push(line),
{
    lemma_lines_with_one_more(ended(content), line);
    if content.len() > 0 && content.last() != '\n' {
        lemma_lines_of_ended(content);
    }
}

} // verus!
