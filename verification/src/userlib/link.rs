//! How the records of the three tables are brought together: one record
//! per user name, the records of the shadow table with their users, and
//! the users with their groups.
use vstd::prelude::*;

use crate::error::{ErrorView, UserLibError};
use crate::group::{Group, GroupView, member_names, MembershipKind, MembershipView};
use crate::text::{chars_of, occurrences, push_all, same_text, string_of};
use crate::user::passwd_fields::PasswordView;
use crate::user::shadow_fields::{Shadow, ShadowView};
use crate::user::{User, UserView};
use crate::userlib::numbered::{Numbered, NumberedView};
use crate::userlib::numbered_views;

verus! {

/// The users of a database.
pub type UserList = Vec<Numbered<User>>;

/// The users of a database as a mathematical value.
pub type Users = Seq<NumberedView<UserView>>;

/// The groups of a database as a mathematical value.
pub type Groups = Seq<NumberedView<GroupView>>;

/// The place of the first user named `name`, if there is one.
pub open spec fn position_of(users: Users, name: Seq<char>) -> Option<int>
    decreases users.len(),
{
    if users.len() == 0 {
        None
    } else {
        match position_of(users.drop_last(), name) {
            Some(i) => Some(i),
            None => if users.last().value.username == name {
                Some(users.len() - 1)
            } else {
                None
            },
        }
    }
}

/// Whether no two users have the same name.
pub open spec fn names_unique(users: Users) -> bool {
    forall|i: int, j: int|
        0 <= i < j < users.len() ==> (#[trigger] users[i]).value.username != (
        #[trigger] users[j]).value.username
}

/// Whether no two groups were read from the same line.
pub open spec fn positions_unique(groups: Groups) -> bool {
    forall|i: int, j: int|
        0 <= i < j < groups.len() ==> (#[trigger] groups[i]).pos != (#[trigger] groups[j]).pos
}

/// The user names, in the order of the users.
pub open spec fn names(users: Users) -> Seq<Seq<char>> {
    Seq::new(users.len(), |i: int| users[i].value.username)
}

/// The place of a name is the place of the first user of that name;
/// there is none where no user has the name.
pub proof fn lemma_position_of(users: Users, name: Seq<char>)
    ensures
        match position_of(users, name) {
            Some(i) => {
                &&& 0 <= i < users.len()
                &&& users[i].value.username == name
                &&& forall|j: int| 0 <= j < i ==> (#[trigger] users[j]).value.username != name
            },
            None => forall|j: int| 0 <= j < users.len() ==> (#[trigger] users[j]).value.username
                != name,
        },
    decreases users.len(),
{
    if users.len() > 0 {
        lemma_position_of(users.drop_last(), name);
        assert(forall|j: int| 0 <= j < users.len() - 1 ==> users.drop_last()[j] == users[j]);
    }
}

/// The place of a name depends on the names alone.
pub proof fn lemma_position_names(a: Users, b: Users, name: Seq<char>)
    requires
        names(a) == names(b),
    ensures
        position_of(a, name) == position_of(b, name),
    decreases a.len(),
{
    assert(a.len() == names(a).len());
    assert(b.len() == names(b).len());
    if a.len() > 0 {
        assert(names(a.drop_last()) == names(a).drop_last());
        assert(names(b.drop_last()) == names(b).drop_last());
        lemma_position_names(a.drop_last(), b.drop_last(), name);
        assert(a.last().value.username == names(a)[a.len() - 1]);
        assert(b.last().value.username == names(b)[b.len() - 1]);
    }
}

/// The place of the first user named `name`, if there is one.
pub fn find_user(users: &UserList, name: &str) -> (r: Option<usize>)
    ensures
        match r {
            Some(i) => position_of(numbered_views(users@), name@) == Some(i as int),
            None => position_of(numbered_views(users@), name@) is None,
        },
{
    let mut i: usize = 0;
    let ghost all = numbered_views(users@);
    while i < users.len()
        invariant
            i <= users.len(),
            all == numbered_views(users@),
            position_of(all.take(i as int), name@) is None,
        decreases users.len() - i,
    {
        let ghost upto = all.take(i + 1);
        assert(upto.drop_last() == all.take(i as int));
        assert(upto.last() == users@[i as int]@);
        let found = match users[i].value.get_username() {
            Some(n) => same_text(n, name),
            None => false,
        };
        if found {
            proof {
                lemma_position_prefix(all, name@, i + 1);
            }
            return Some(i);
        }
        i += 1;
    }
    assert(all.take(users.len() as int) == all);
    None
}

/// A name found among the first users is found at the same place among
/// them all.
pub proof fn lemma_position_prefix(users: Users, name: Seq<char>, k: int)
    requires
        0 <= k <= users.len(),
        position_of(users.take(k), name) is Some,
    ensures
        position_of(users, name) == position_of(users.take(k), name),
    decreases users.len() - k,
{
    if k == users.len() {
        assert(users.take(k) == users);
    } else {
        assert(users.drop_last().take(k) == users.take(k));
        lemma_position_prefix(users.drop_last(), name, k);
    }
}

/// One record per user name: a record takes the place of an earlier
/// record of the same name.
pub open spec fn deduplicated(users: Users) -> Users
    decreases users.len(),
{
    if users.len() == 0 {
        users
    } else {
        let front = deduplicated(users.drop_last());
        match position_of(front, users.last().value.username) {
            Some(i) => front.update(i, users.last()),
            None => front.push(users.last()),
        }
    }
}

/// Where one record is kept per name, no two users have the same name.
pub proof fn lemma_deduplicated_unique(users: Users)
    ensures
        names_unique(deduplicated(users)),
    decreases users.len(),
{
    if users.len() > 0 {
        let front = deduplicated(users.drop_last());
        lemma_deduplicated_unique(users.drop_last());
        lemma_position_of(front, users.last().value.username);
    }
}

/// Keeps one record per user name: a record takes the place of an
/// earlier record of the same name.
pub fn user_vec_to_list(users: Vec<Numbered<User>>) -> (list: UserList)
    ensures
        numbered_views(list@) == deduplicated(numbered_views(users@)),
        names_unique(numbered_views(list@)),
{
    let mut list: UserList = Vec::new();
    let ghost all = numbered_views(users@);
    let ghost mut done: int = 0;
    assert(all.take(0) == Seq::<NumberedView<UserView>>::empty());
    assert(numbered_views(list@) == Seq::<NumberedView<UserView>>::empty());
    for user in it: users
        invariant
            0 <= done <= all.len(),
            done == it.index(),
            it.seq() == users@,
            all == numbered_views(users@),
            numbered_views(list@) == deduplicated(all.take(done)),
    {
        let ghost upto = all.take(done + 1);
        assert(upto.drop_last() == all.take(done));
        assert(upto.last() == user@);
        let ghost before = numbered_views(list@);
        let place = match user.value.get_username() {
            Some(n) => find_user(&list, n),
            None => None,
        };
        match place {
            Some(i) => {
                proof {
                    lemma_position_of(before, user@.value.username);
                }
                list[i] = user;
                assert(numbered_views(list@) == before.update(i as int, user@));
            },
            None => {
                list.push(user);
                assert(numbered_views(list@) == before.push(user@));
            },
        }
        proof {
            done = done + 1;
        }
    }
    assert(all.take(all.len() as int) == all);
    proof {
        lemma_deduplicated_unique(all);
    }
    list
}

/// The message of the error for a record of the shadow table whose user
/// the user table does not have.
pub open spec fn missing_user(name: Seq<char>) -> Seq<char> {
    "the user "@ + name + " does not exist"@
}

/// `user` holding the record `shadow` of the shadow table.
pub open spec fn holding(user: NumberedView<UserView>, shadow: NumberedView<ShadowView>)
    -> NumberedView<UserView> {
    NumberedView {
        pos: user.pos,
        value: UserView { password: PasswordView::Shadow(shadow), ..user.value },
    }
}

/// The users, each holding the last record of the shadow table that goes
/// by its name. A record whose user the user table does not have gives
/// the error.
pub open spec fn with_shadows(users: Users, shadows: Seq<NumberedView<ShadowView>>) -> Result<
    Users,
    ErrorView,
>
    decreases shadows.len(),
{
    if shadows.len() == 0 {
        Ok(users)
    } else {
        match with_shadows(users, shadows.drop_last()) {
            Err(e) => Err(e),
            Ok(front) => match position_of(front, shadows.last().value.username) {
                None => Err(ErrorView::Message(missing_user(shadows.last().value.username))),
                Some(i) => Ok(front.update(i, holding(front[i], shadows.last()))),
            },
        }
    }
}

/// Giving the users their records of the shadow table changes no name.
pub proof fn lemma_with_shadows_names(users: Users, shadows: Seq<NumberedView<ShadowView>>)
    requires
        with_shadows(users, shadows) is Ok,
    ensures
        names(with_shadows(users, shadows)->Ok_0) == names(users),
    decreases shadows.len(),
{
    if shadows.len() > 0 {
        lemma_with_shadows_names(users, shadows.drop_last());
        let front = with_shadows(users, shadows.drop_last())->Ok_0;
        lemma_position_of(front, shadows.last().value.username);
        let i = position_of(front, shadows.last().value.username)->Some_0;
        let after = front.update(i, holding(front[i], shadows.last()));
        assert(names(after) == names(front));
    }
}

/// An error with the first records is the error with them all.
pub proof fn lemma_with_shadows_prefix(
    users: Users,
    shadows: Seq<NumberedView<ShadowView>>,
    k: int,
)
    requires
        0 <= k <= shadows.len(),
        with_shadows(users, shadows.take(k)) is Err,
    ensures
        with_shadows(users, shadows) == with_shadows(users, shadows.take(k)),
    decreases shadows.len() - k,
{
    if k == shadows.len() {
        assert(shadows.take(k) == shadows);
    } else {
        assert(shadows.drop_last().take(k) == shadows.take(k));
        lemma_with_shadows_prefix(users, shadows.drop_last(), k);
    }
}

/// Gives each user the record of the shadow table that goes by its name.
pub fn shadow_to_users(users: &mut UserList, shadow: Vec<Numbered<Shadow>>) -> (r: Result<
    (),
    UserLibError,
>)
    ensures
        match r {
            Ok(()) => with_shadows(numbered_views(old(users)@), numbered_views(shadow@)) == Ok::<
                Users,
                ErrorView,
            >(numbered_views(final(users)@)),
            Err(e) => with_shadows(numbered_views(old(users)@), numbered_views(shadow@)) == Err::<
                Users,
                ErrorView,
            >(e@),
        },
{
    let ghost start = numbered_views(users@);
    let ghost all = numbered_views(shadow@);
    let ghost mut done: int = 0;
    assert(all.take(0) == Seq::<NumberedView<ShadowView>>::empty());
    for pass in it: shadow
        invariant
            0 <= done <= all.len(),
            done == it.index(),
            it.seq() == shadow@,
            all == numbered_views(shadow@),
            start == numbered_views(old(users)@),
            with_shadows(start, all.take(done)) == Ok::<Users, ErrorView>(numbered_views(users@)),
    {
        let ghost upto = all.take(done + 1);
        assert(upto.drop_last() == all.take(done));
        assert(upto.last() == pass@);
        let ghost before = numbered_views(users@);
        match find_user(users, pass.value.get_username()) {
            Some(i) => {
                proof {
                    lemma_position_of(before, pass@.value.username);
                }
                users[i].value.set_shadow(pass);
                assert(numbered_views(users@) == before.update(
                    i as int,
                    holding(before[i as int], pass@),
                ));
            },
            None => {
                let mut text = chars_of("the user ");
                let name = chars_of(pass.value.get_username());
                push_all(&mut text, &name);
                let tail = chars_of(" does not exist");
                push_all(&mut text, &tail);
                proof {
                    assert(text@ == missing_user(pass@.value.username));
                    assert(with_shadows(start, upto) == Err::<Users, ErrorView>(
                        ErrorView::Message(missing_user(pass@.value.username)),
                    ));
                    lemma_with_shadows_prefix(start, all, done + 1);
                }
                return Err(UserLibError::Message(string_of(&text)));
            },
        }
        proof {
            done = done + 1;
        }
    }
    assert(all.take(all.len() as int) == all);
    Ok(())
}

/// The edges of a user as a mathematical value: for each group that the
/// user belongs to, how it does and the line that the group was read from.
pub type Edges = Seq<(MembershipKind, usize)>;

/// One edge to the group for each time that `name` stands among the first
/// `k` names that the group lists.
pub open spec fn edges_within(name: Seq<char>, group: NumberedView<GroupView>, k: int) -> Edges {
    Seq::new(
        occurrences(member_names(group.value.members).take(k), name),
        |i: int| (MembershipKind::Member, group.pos),
    )
}

/// The edges of the user named `name` to the groups that list the name:
/// group by group in the order of the table, one edge for each time that
/// the group lists the name.
pub open spec fn member_edges(name: Seq<char>, groups: Groups) -> Edges
    decreases groups.len(),
{
    if groups.len() == 0 {
        Seq::<(MembershipKind, usize)>::empty()
    } else {
        member_edges(name, groups.drop_last()) + edges_within(
            name,
            groups.last(),
            groups.last().value.members.len() as int,
        )
    }
}

/// How many groups have the number `gid`.
pub open spec fn gid_count(groups: Groups, gid: u32) -> nat
    decreases groups.len(),
{
    if groups.len() == 0 {
        0
    } else if groups.last().value.gid == gid {
        gid_count(groups.drop_last(), gid) + 1
    } else {
        gid_count(groups.drop_last(), gid)
    }
}

/// The place of the first group with the number `gid`, where there is one.
pub open spec fn gid_place(groups: Groups, gid: u32) -> int
    decreases groups.len(),
{
    if groups.len() == 0 {
        0
    } else if gid_count(groups.drop_last(), gid) > 0 {
        gid_place(groups.drop_last(), gid)
    } else {
        groups.len() - 1
    }
}

/// The edge of a user with the group number `gid` to the group of that
/// number, where exactly one group has it.
pub open spec fn primary_edges(gid: u32, groups: Groups) -> Edges {
    if gid_count(groups, gid) == 1 {
        seq![(MembershipKind::Primary, groups[gid_place(groups, gid)].pos)]
    } else {
        Seq::<(MembershipKind, usize)>::empty()
    }
}

/// The users with the group number `gid`, as members of their own group.
pub open spec fn own_members(users: Users, gid: u32) -> Seq<MembershipView>
    decreases users.len(),
{
    if users.len() == 0 {
        Seq::<MembershipView>::empty()
    } else if users.last().value.gid == gid {
        own_members(users.drop_last(), gid).push(
            MembershipView {
                kind: MembershipKind::Primary,
                username: users.last().value.username,
            },
        )
    } else {
        own_members(users.drop_last(), gid)
    }
}

/// `user` with further edges after those it has.
pub open spec fn with_edges(user: NumberedView<UserView>, extra: Edges) -> NumberedView<UserView> {
    NumberedView {
        pos: user.pos,
        value: UserView { groups: user.value.groups + extra, ..user.value },
    }
}

/// `group` with further members after those it has.
pub open spec fn with_members(group: NumberedView<GroupView>, extra: Seq<MembershipView>)
    -> NumberedView<GroupView> {
    NumberedView {
        pos: group.pos,
        value: GroupView { members: group.value.members + extra, ..group.value },
    }
}

/// A user with its edges: first to the groups that list its name, then to
/// the group whose number is its group number, where exactly one group has
/// that number.
pub open spec fn linked_user(user: NumberedView<UserView>, groups: Groups) -> NumberedView<
    UserView,
> {
    with_edges(
        user,
        member_edges(user.value.username, groups) + primary_edges(user.value.gid, groups),
    )
}

/// The members that a group gains: the users whose group number is the
/// group's, where no other group has that number.
pub open spec fn gained(group: NumberedView<GroupView>, users: Users, groups: Groups) -> Seq<
    MembershipView,
> {
    if gid_count(groups, group.value.gid) == 1 {
        own_members(users, group.value.gid)
    } else {
        Seq::<MembershipView>::empty()
    }
}

/// The users with their edges to the groups.
pub open spec fn linked_users(users: Users, groups: Groups) -> Users {
    Seq::new(users.len(), |i: int| linked_user(users[i], groups))
}

/// The groups with the users whose own groups they are.
pub open spec fn linked_groups(users: Users, groups: Groups) -> Groups {
    Seq::new(groups.len(), |i: int| with_members(groups[i], gained(groups[i], users, groups)))
}

/// Where a group has the number, the place of the number is the place of
/// the first such group; where exactly one has it, that is the only one.
pub proof fn lemma_gid_count(groups: Groups, gid: u32)
    ensures
        gid_count(groups, gid) > 0 ==> 0 <= gid_place(groups, gid) < groups.len() && groups[gid_place(
            groups,
            gid,
        )].value.gid == gid,
        gid_count(groups, gid) == 0 ==> forall|i: int|
            0 <= i < groups.len() ==> (#[trigger] groups[i]).value.gid != gid,
        gid_count(groups, gid) == 1 ==> forall|i: int|
            0 <= i < groups.len() && (#[trigger] groups[i]).value.gid == gid ==> i == gid_place(
                groups,
                gid,
            ),
    decreases groups.len(),
{
    if groups.len() > 0 {
        lemma_gid_count(groups.drop_last(), gid);
        assert(forall|i: int| 0 <= i < groups.len() - 1 ==> groups.drop_last()[i] == groups[i]);
    }
}

/// The first group with the number `gid` and how many groups have it.
fn find_gid(groups: &Vec<Numbered<Group>>, gid: u32) -> (r: (usize, usize))
    ensures
        r.0 == gid_count(numbered_views(groups@), gid),
        r.0 > 0 ==> r.1 == gid_place(numbered_views(groups@), gid),
{
    let ghost all = numbered_views(groups@);
    let mut count: usize = 0;
    let mut place: usize = 0;
    let mut m: usize = 0;
    while m < groups.len()
        invariant
            m <= groups.len(),
            all == numbered_views(groups@),
            count == gid_count(all.take(m as int), gid),
            count <= m,
            count > 0 ==> place == gid_place(all.take(m as int), gid),
        decreases groups.len() - m,
    {
        let ghost upto = all.take(m + 1);
        assert(upto.drop_last() == all.take(m as int));
        assert(upto.last() == groups@[m as int]@);
        let same = match groups[m].value.get_gid() {
            Some(g) => g == gid,
            None => false,
        };
        if same {
            if count == 0 {
                place = m;
            }
            count += 1;
        }
        m += 1;
    }
    assert(all.take(groups.len() as int) == all);
    (count, place)
}

/// Links the users with their groups: each user gets an edge to every
/// group that lists its name and to the group whose number is its group
/// number, and that group gets the user as a member.
pub fn groups_to_users(users: &mut UserList, groups: &mut Vec<Numbered<Group>>)
    requires
        names_unique(numbered_views(old(users)@)),
    ensures
        numbered_views(final(users)@) == linked_users(
            numbered_views(old(users)@),
            numbered_views(old(groups)@),
        ),
        numbered_views(final(groups)@) == linked_groups(
            numbered_views(old(users)@),
            numbered_views(old(groups)@),
        ),
{
    let ghost u0 = numbered_views(users@);
    let ghost g0 = numbered_views(groups@);
    // The groups that list a user's name.
    let mut i: usize = 0;
    assert(g0.take(0) == Seq::<NumberedView<GroupView>>::empty());
    assert forall|k: int| 0 <= k < u0.len() implies (#[trigger] numbered_views(users@)[k])
        == with_edges(u0[k], member_edges(u0[k].value.username, g0.take(0))) by {
        assert(u0[k].value.groups + Seq::<(MembershipKind, usize)>::empty() == u0[k].value.groups);
    }
    while i < groups.len()
        invariant
            i <= groups.len(),
            g0 == numbered_views(groups@),
            u0.len() == users.len(),
            names_unique(u0),
            names(numbered_views(users@)) == names(u0),
            forall|k: int|
                0 <= k < u0.len() ==> (#[trigger] numbered_views(users@)[k]) == with_edges(
                    u0[k],
                    member_edges(u0[k].value.username, g0.take(i as int)),
                ),
        decreases groups.len() - i,
    {
        let group = &groups[i];
        let pos = group.pos;
        let listed = match group.value.get_member_names() {
            Some(l) => l,
            None => Vec::new(),
        };
        let ghost g = g0[i as int];
        let ghost all_names = member_names(g.value.members);
        let ghost upto = g0.take(i + 1);
        assert(upto.drop_last() == g0.take(i as int));
        assert(upto.last() == g);
        assert(all_names.take(0) == Seq::<Seq<char>>::empty());
        assert forall|k: int| 0 <= k < u0.len() implies (#[trigger] numbered_views(users@)[k])
            == with_edges(
            u0[k],
            member_edges(u0[k].value.username, g0.take(i as int)) + edges_within(
                u0[k].value.username,
                g,
                0,
            ),
        ) by {
            assert(member_edges(u0[k].value.username, g0.take(i as int)) + edges_within(
                u0[k].value.username,
                g,
                0,
            ) == member_edges(u0[k].value.username, g0.take(i as int)));
        }
        let mut j: usize = 0;
        while j < listed.len()
            invariant
                j <= listed.len(),
                i < groups.len(),
                g0.len() == groups.len(),
                g == g0[i as int],
                pos == g.pos,
                all_names == member_names(g.value.members),
                listed@.len() == all_names.len(),
                forall|q: int| 0 <= q < listed@.len() ==> (#[trigger] listed@[q])@ == all_names[q],
                u0.len() == users.len(),
                names_unique(u0),
                names(numbered_views(users@)) == names(u0),
                forall|k: int|
                    0 <= k < u0.len() ==> (#[trigger] numbered_views(users@)[k]) == with_edges(
                        u0[k],
                        member_edges(u0[k].value.username, g0.take(i as int)) + edges_within(
                            u0[k].value.username,
                            g,
                            j as int,
                        ),
                    ),
            decreases listed.len() - j,
        {
            let name = listed[j];
            let ghost before = numbered_views(users@);
            let ghost first = all_names.take(j + 1);
            assert(first.drop_last() == all_names.take(j as int));
            assert(first.last() == name@);
            proof {
                lemma_position_names(before, u0, name@);
                lemma_position_of(u0, name@);
            }
            match find_user(users, name) {
                Some(k0) => {
                    users[k0].value.add_group(MembershipKind::Member, pos);
                    let ghost after = numbered_views(users@);
                    assert(names(after) == names(u0)) by {
                        assert forall|k: int| 0 <= k < u0.len() implies names(after)[k] == names(
                            u0,
                        )[k] by {
                            assert(names(before)[k] == names(u0)[k]);
                            if k != k0 {
                                assert(after[k] == before[k]);
                            }
                        }
                    }
                    assert forall|k: int| 0 <= k < u0.len() implies (#[trigger] after[k])
                        == with_edges(
                        u0[k],
                        member_edges(u0[k].value.username, g0.take(i as int)) + edges_within(
                            u0[k].value.username,
                            g,
                            j + 1,
                        ),
                    ) by {
                        let old_edges = member_edges(u0[k].value.username, g0.take(i as int))
                            + edges_within(u0[k].value.username, g, j as int);
                        let new_edges = member_edges(u0[k].value.username, g0.take(i as int))
                            + edges_within(u0[k].value.username, g, j + 1);
                        if k == k0 {
                            assert(edges_within(u0[k].value.username, g, j + 1) == edges_within(
                                u0[k].value.username,
                                g,
                                j as int,
                            ).push((MembershipKind::Member, pos)));
                            assert(new_edges == old_edges.push((MembershipKind::Member, pos)));
                            assert(before[k] == with_edges(u0[k], old_edges));
                            assert((u0[k].value.groups + old_edges).push(
                                (MembershipKind::Member, pos),
                            ) == u0[k].value.groups + new_edges);
                        } else {
                            assert(after[k] == before[k]);
                            assert(u0[k].value.username != name@);
                            assert(edges_within(u0[k].value.username, g, j + 1) == edges_within(
                                u0[k].value.username,
                                g,
                                j as int,
                            ));
                        }
                    }
                },
                None => {
                    assert forall|k: int| 0 <= k < u0.len() implies edges_within(
                        u0[k].value.username,
                        g,
                        j + 1,
                    ) == edges_within(u0[k].value.username, g, j as int) by {
                        assert(u0[k].value.username != name@);
                    }
                },
            }
            j += 1;
        }
        assert(all_names.take(listed.len() as int) == all_names);
        assert(all_names.len() == g.value.members.len());
        assert forall|k: int| 0 <= k < u0.len() implies (#[trigger] numbered_views(users@)[k])
            == with_edges(u0[k], member_edges(u0[k].value.username, g0.take(i + 1))) by {
            assert(member_edges(u0[k].value.username, upto) == member_edges(
                u0[k].value.username,
                g0.take(i as int),
            ) + edges_within(u0[k].value.username, g, g.value.members.len() as int));
        }
        i += 1;
    }
    assert(g0.take(groups.len() as int) == g0);
    // The group whose number is a user's group number.
    let mut k: usize = 0;
    assert(u0.take(0) == Seq::<NumberedView<UserView>>::empty());
    assert forall|m: int| 0 <= m < g0.len() implies (#[trigger] numbered_views(groups@)[m])
        == with_members(g0[m], gained(g0[m], u0.take(0), g0)) by {
        assert(g0[m].value.members + Seq::<MembershipView>::empty() == g0[m].value.members);
    }
    while k < users.len()
        invariant
            k <= users.len(),
            u0.len() == users.len(),
            g0.len() == groups.len(),
            forall|q: int|
                0 <= q < k ==> (#[trigger] numbered_views(users@)[q]) == linked_user(u0[q], g0),
            forall|q: int|
                k <= q < u0.len() ==> (#[trigger] numbered_views(users@)[q]) == with_edges(
                    u0[q],
                    member_edges(u0[q].value.username, g0),
                ),
            forall|m: int|
                0 <= m < g0.len() ==> (#[trigger] numbered_views(groups@)[m]) == with_members(
                    g0[m],
                    gained(g0[m], u0.take(k as int), g0),
                ),
        decreases users.len() - k,
    {
        let gid = users[k].value.get_gid();
        let ghost user = u0[k as int];
        let ghost upto = u0.take(k + 1);
        assert(upto.drop_last() == u0.take(k as int));
        assert(upto.last() == user);
        let ghost groups_before = numbered_views(groups@);
        let ghost users_before = numbered_views(users@);
        assert(users_before[k as int].value.gid == user.value.gid);
        proof {
            lemma_same_gids(groups_before, g0, gid);
            lemma_gid_count(g0, gid);
        }
        let found = find_gid(groups, gid);
        if found.0 == 1 {
            let place = found.1;
            let pos = groups[place].pos;
            assert(groups_before[place as int].pos == g0[place as int].pos);
            let name = match users[k].value.get_username() {
                Some(n) => n.to_owned(),
                None => String::new(),
            };
            groups[place].value.append_user(name.as_str());
            users[k].value.add_group(MembershipKind::Primary, pos);
            let ghost edge = (MembershipKind::Primary, pos);
            let ghost member = MembershipView {
                kind: MembershipKind::Primary,
                username: user.value.username,
            };
            assert forall|q: int| 0 <= q < u0.len() && q != k implies (#[trigger] numbered_views(
                users@,
            )[q]) == users_before[q] by {}
            assert(numbered_views(users@)[k as int] == linked_user(user, g0)) by {
                let base = member_edges(user.value.username, g0);
                assert(primary_edges(gid, g0) == seq![edge]);
                assert((user.value.groups + base).push(edge) == user.value.groups + (base
                    + seq![edge]));
            }
            assert forall|m: int| 0 <= m < g0.len() implies (#[trigger] numbered_views(groups@)[m])
                == with_members(g0[m], gained(g0[m], upto, g0)) by {
                let had = gained(g0[m], u0.take(k as int), g0);
                if m == place {
                    assert(gained(g0[m], upto, g0) == had.push(member));
                    assert((g0[m].value.members + had).push(member) == g0[m].value.members
                        + had.push(member));
                } else {
                    assert(numbered_views(groups@)[m] == groups_before[m]);
                    if gid_count(g0, g0[m].value.gid) == 1 {
                        assert(g0[m].value.gid != gid);
                    }
                }
            }
        } else {
            assert(numbered_views(users@)[k as int] == linked_user(user, g0)) by {
                let base = member_edges(user.value.username, g0);
                assert(base + Seq::<(MembershipKind, usize)>::empty() == base);
            }
            assert forall|m: int| 0 <= m < g0.len() implies (#[trigger] numbered_views(groups@)[m])
                == with_members(g0[m], gained(g0[m], upto, g0)) by {
                if gid_count(g0, g0[m].value.gid) == 1 {
                    assert(g0[m].value.gid != gid);
                }
            }
        }
        k += 1;
    }
    assert(u0.take(users.len() as int) == u0);
    assert(numbered_views(users@) == linked_users(u0, g0));
    assert(numbered_views(groups@) == linked_groups(u0, g0));
}

/// Groups that have gained members have the numbers that they had.
pub proof fn lemma_same_gids(a: Groups, b: Groups, gid: u32)
    requires
        a.len() == b.len(),
        forall|m: int| 0 <= m < a.len() ==> (#[trigger] a[m]).value.gid == b[m].value.gid,
    ensures
        gid_count(a, gid) == gid_count(b, gid),
        gid_place(a, gid) == gid_place(b, gid),
    decreases a.len(),
{
    if a.len() > 0 {
        assert(forall|m: int| 0 <= m < a.len() - 1 ==> a.drop_last()[m] == a[m]);
        assert(forall|m: int| 0 <= m < a.len() - 1 ==> b.drop_last()[m] == b[m]);
        lemma_same_gids(a.drop_last(), b.drop_last(), gid);
    }
}

} // verus!
