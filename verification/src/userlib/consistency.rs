//! What holds of every database that was read from the text of its tables.
use vstd::prelude::*;

use crate::error::ErrorView;
use crate::group::{Group, GroupView, lemma_listed_names, listed, member_names, MembershipKind};
use crate::group::{MembershipView, names_of_kind, parse_group};
use crate::text::lemma_occurrences_contains;
use crate::user::shadow_fields::ShadowView;
use crate::user::{parse_user, User, UserView};
use crate::userlib::link::{deduplicated, Edges, edges_within, gained, gid_count, gid_place, Groups};
use crate::userlib::link::{lemma_gid_count, lemma_position_of, lemma_same_gids, member_edges};
use crate::userlib::link::{own_members, primary_edges, Users, with_shadows};
use crate::userlib::numbered::NumberedView;
use crate::userlib::{assembled, DBView, FromLine, imported, loaded, numbered, table_of};

verus! {

/// How many of the edges are to the user's own group.
pub open spec fn primary_count(edges: Edges) -> nat
    decreases edges.len(),
{
    if edges.len() == 0 {
        0
    } else if edges.last().0 == MembershipKind::Primary {
        primary_count(edges.drop_last()) + 1
    } else {
        primary_count(edges.drop_last())
    }
}

/// The records of a table stand in the order of its lines, each with the
/// number of its line and as its line denotes it.
pub proof fn lemma_numbered<T: FromLine>(ls: Seq<Seq<char>>)
    requires
        numbered::<T>(ls) is Ok,
    ensures
        numbered::<T>(ls)->Ok_0.len() == ls.len(),
        forall|i: int|
            0 <= i < ls.len() ==> T::parsed(ls[i]) == Ok::<T::V, ErrorView>(
                (#[trigger] numbered::<T>(ls)->Ok_0[i]).value,
            ),
        forall|i: int|
            0 <= i < ls.len() && i <= usize::MAX ==> (#[trigger] numbered::<T>(ls)->Ok_0[i]).pos
                == i,
    decreases ls.len(),
{
    if ls.len() > 0 {
        lemma_numbered::<T>(ls.drop_last());
        let front = numbered::<T>(ls.drop_last())->Ok_0;
        let all = numbered::<T>(ls)->Ok_0;
        assert forall|i: int| 0 <= i < ls.len() implies T::parsed(ls[i]) == Ok::<T::V, ErrorView>(
            (#[trigger] all[i]).value,
        ) && (i <= usize::MAX ==> all[i].pos == i) by {
            if i < ls.len() - 1 {
                assert(all[i] == front[i]);
                assert(ls.drop_last()[i] == ls[i]);
            }
        }
    }
}

/// Every record that is kept for its name is one of the records.
pub proof fn lemma_deduplicated_members(users: Users)
    ensures
        forall|i: int|
            0 <= i < deduplicated(users).len() ==> users.contains(#[trigger] deduplicated(users)[i]),
    decreases users.len(),
{
    if users.len() > 0 {
        let front = users.drop_last();
        lemma_deduplicated_members(front);
        let before = deduplicated(front);
        let after = deduplicated(users);
        lemma_position_of(before, users.last().value.username);
        assert forall|i: int| 0 <= i < after.len() implies users.contains(#[trigger] after[i]) by {
            if after[i] == users.last() {
                assert(users[users.len() - 1] == after[i]);
            } else {
                assert(after[i] == before[i]);
                assert(front.contains(before[i]));
                let k = choose|k: int| 0 <= k < front.len() && front[k] == before[i];
                assert(users[k] == before[i]);
            }
        }
    }
}

/// Giving the users their records of the shadow table changes neither
/// their number, nor their names, nor their group numbers, nor their edges.
pub proof fn lemma_with_shadows_keeps(users: Users, shadows: Seq<NumberedView<ShadowView>>)
    requires
        with_shadows(users, shadows) is Ok,
    ensures
        with_shadows(users, shadows)->Ok_0.len() == users.len(),
        forall|i: int|
            0 <= i < users.len() ==> {
                let after = #[trigger] with_shadows(users, shadows)->Ok_0[i];
                &&& after.value.username == users[i].value.username
                &&& after.value.gid == users[i].value.gid
                &&& after.value.groups == users[i].value.groups
            },
    decreases shadows.len(),
{
    if shadows.len() > 0 {
        lemma_with_shadows_keeps(users, shadows.drop_last());
        let front = with_shadows(users, shadows.drop_last())->Ok_0;
        lemma_position_of(front, shadows.last().value.username);
    }
}

/// The edges to the groups that list a name are edges of membership, and
/// there is one to a line exactly where a group of that line lists the
/// name.
pub proof fn lemma_member_edges(name: Seq<char>, groups: Groups, kind: MembershipKind, pos: usize)
    ensures
        member_edges(name, groups).contains((kind, pos)) <==> kind == MembershipKind::Member && (
        exists|m: int|
            0 <= m < groups.len() && (#[trigger] groups[m]).pos == pos && member_names(
                groups[m].value.members,
            ).contains(name)),
        primary_count(member_edges(name, groups)) == 0,
    decreases groups.len(),
{
    if groups.len() > 0 {
        let front = groups.drop_last();
        let last = groups.last();
        lemma_member_edges(name, front, kind, pos);
        let names = member_names(last.value.members);
        let here = edges_within(name, last, last.value.members.len() as int);
        assert(names.take(last.value.members.len() as int) == names);
        lemma_occurrences_contains(names, name);
        let all = member_edges(name, front) + here;
        assert(here.contains((kind, pos)) <==> kind == MembershipKind::Member && pos == last.pos
            && names.contains(name)) by {
            if here.contains((kind, pos)) {
                let k = choose|k: int| 0 <= k < here.len() && here[k] == (kind, pos);
            }
            if kind == MembershipKind::Member && pos == last.pos && names.contains(name) {
                assert(here[0] == (kind, pos));
            }
        }
        assert(all.contains((kind, pos)) <==> member_edges(name, front).contains((kind, pos))
            || here.contains((kind, pos))) by {
            if all.contains((kind, pos)) {
                let k = choose|k: int| 0 <= k < all.len() && all[k] == (kind, pos);
                if k < member_edges(name, front).len() {
                    assert(member_edges(name, front)[k] == (kind, pos));
                } else {
                    assert(here[k - member_edges(name, front).len()] == (kind, pos));
                }
            }
            if member_edges(name, front).contains((kind, pos)) {
                let k = choose|k: int|
                    0 <= k < member_edges(name, front).len() && member_edges(name, front)[k] == (
                        kind,
                        pos,
                    );
                assert(all[k] == (kind, pos));
            }
            if here.contains((kind, pos)) {
                let k = choose|k: int| 0 <= k < here.len() && here[k] == (kind, pos);
                assert(all[member_edges(name, front).len() + k] == (kind, pos));
            }
        }
        if exists|m: int|
            0 <= m < groups.len() && (#[trigger] groups[m]).pos == pos && member_names(
                groups[m].value.members,
            ).contains(name) {
            let m = choose|m: int|
                0 <= m < groups.len() && (#[trigger] groups[m]).pos == pos && member_names(
                    groups[m].value.members,
                ).contains(name);
            if m < front.len() {
                assert(front[m] == groups[m]);
            }
        }
        if exists|m: int|
            0 <= m < front.len() && (#[trigger] front[m]).pos == pos && member_names(
                front[m].value.members,
            ).contains(name) {
            let m = choose|m: int|
                0 <= m < front.len() && (#[trigger] front[m]).pos == pos && member_names(
                    front[m].value.members,
                ).contains(name);
            assert(groups[m] == front[m]);
        }
        if kind == MembershipKind::Member && pos == last.pos && names.contains(name) {
            assert(groups[groups.len() - 1] == last);
        }
        lemma_primary_count_sum(member_edges(name, front), here);
        lemma_primary_count_none(here);
    }
}

/// Edges of membership alone hold no edge to a user's own group.
pub proof fn lemma_primary_count_none(edges: Edges)
    requires
        forall|i: int| 0 <= i < edges.len() ==> (#[trigger] edges[i]).0 == MembershipKind::Member,
    ensures
        primary_count(edges) == 0,
    decreases edges.len(),
{
    if edges.len() > 0 {
        assert(forall|i: int| 0 <= i < edges.len() - 1 ==> edges.drop_last()[i] == edges[i]);
        lemma_primary_count_none(edges.drop_last());
    }
}

/// Edges after edges hold as many edges to a user's own group as both
/// together.
pub proof fn lemma_primary_count_sum(a: Edges, b: Edges)
    ensures
        primary_count(a + b) == primary_count(a) + primary_count(b),
    decreases b.len(),
{
    if b.len() == 0 {
        assert(a + b == a);
    } else {
        assert((a + b).drop_last() == a + b.drop_last());
        assert((a + b).last() == b.last());
        lemma_primary_count_sum(a, b.drop_last());
    }
}

/// The names that a group lists are still the names that it lists when it
/// has gained the users whose own group it is.
pub proof fn lemma_listed_after_gain(members: Seq<MembershipView>, users: Users, gid: u32)
    ensures
        names_of_kind(members + own_members(users, gid), MembershipKind::Member) == names_of_kind(
            members,
            MembershipKind::Member,
        ),
    decreases users.len(),
{
    if users.len() == 0 {
        assert(members + own_members(users, gid) == members);
    } else {
        lemma_listed_after_gain(members, users.drop_last(), gid);
        if users.last().value.gid == gid {
            let own = own_members(users.drop_last(), gid);
            let one = MembershipView {
                kind: MembershipKind::Primary,
                username: users.last().value.username,
            };
            assert(members + own.push(one) == (members + own).push(one));
            assert((members + own).push(one).drop_last() == members + own);
        }
    }
}

/// The names of members that a group lists, where it has no other
/// members, are the names of its members.
pub proof fn lemma_listed_member_names(names: Seq<Seq<char>>)
    ensures
        member_names(listed(names)) == names,
{
}

/// What holds of the users and groups that the text of the user table and
/// of the group table make up, whatever the shadow table holds, where the
/// group table has no more lines than a machine can count.
///
/// A user has an edge of membership to a group exactly where the group
/// lists the user's name. A user has one edge to its own group where
/// exactly one group has the user's group number, and that edge is to that
/// group; otherwise it has no such edge.
pub proof fn lemma_cross_reference(
    passwd: Seq<char>,
    shadows: Seq<NumberedView<ShadowView>>,
    group: Seq<char>,
    k: int,
    m: int,
)
    requires
        table_of::<User>(passwd) is Ok,
        table_of::<Group>(group) is Ok,
        crate::text::lines(group).len() <= usize::MAX,
        assembled(table_of::<User>(passwd)->Ok_0, shadows, table_of::<Group>(group)->Ok_0) is Ok,
        0 <= k < assembled(
            table_of::<User>(passwd)->Ok_0,
            shadows,
            table_of::<Group>(group)->Ok_0,
        )->Ok_0.users.len(),
        0 <= m < assembled(
            table_of::<User>(passwd)->Ok_0,
            shadows,
            table_of::<Group>(group)->Ok_0,
        )->Ok_0.groups.len(),
    ensures
        ({
            let db = assembled(
                table_of::<User>(passwd)->Ok_0,
                shadows,
                table_of::<Group>(group)->Ok_0,
            )->Ok_0;
            let user = db.users[k].value;
            let own = gid_place(db.groups, user.gid);
            &&& user.groups.contains((MembershipKind::Member, db.groups[m].pos)) <==> names_of_kind(
                db.groups[m].value.members,
                MembershipKind::Member,
            ).contains(user.username)
            &&& gid_count(db.groups, user.gid) == 1 ==> {
                &&& primary_count(user.groups) == 1
                &&& 0 <= own < db.groups.len()
                &&& db.groups[own].value.gid == user.gid
                &&& user.groups.contains((MembershipKind::Primary, db.groups[own].pos))
            }
            &&& gid_count(db.groups, user.gid) != 1 ==> primary_count(user.groups) == 0
        }),
{
    let read = table_of::<User>(passwd)->Ok_0;
    let g0 = table_of::<Group>(group)->Ok_0;
    let db = assembled(read, shadows, g0)->Ok_0;
    let unique = deduplicated(read);
    let us = with_shadows(unique, shadows)->Ok_0;
    let user = db.users[k].value;
    let name = user.username;
    let gid = user.gid;
    // The users were read without edges.
    lemma_numbered::<User>(crate::text::lines(passwd));
    lemma_deduplicated_members(read);
    lemma_with_shadows_keeps(unique, shadows);
    assert(us[k].value.groups.len() == 0) by {
        assert(us[k].value.groups == unique[k].value.groups);
        assert(read.contains(unique[k]));
        let j = choose|j: int| 0 <= j < read.len() && read[j] == unique[k];
        assert(parse_user(crate::text::lines(passwd)[j]) == Ok::<UserView, ErrorView>(
            read[j].value,
        ));
    }
    assert(db.users[k] == crate::userlib::link::linked_user(us[k], g0));
    let edges = member_edges(name, g0) + primary_edges(gid, g0);
    assert(user.groups == edges) by {
        assert(us[k].value.groups + edges == edges);
    }
    // The groups were read from lines of their own, with the members that they list.
    lemma_numbered::<Group>(crate::text::lines(group));
    assert(db.groups[m] == crate::userlib::link::with_members(g0[m], gained(g0[m], us, g0)));
    let as_read = g0[m].value.members;
    assert(parse_group(crate::text::lines(group)[m]) == Ok::<GroupView, ErrorView>(g0[m].value));
    let field = crate::text::split(crate::text::lines(group)[m], ':')[3];
    let listed_names = crate::group::filled(crate::text::split(field, ','));
    assert(as_read == listed(listed_names));
    lemma_listed_names(listed_names);
    lemma_listed_member_names(listed_names);
    assert(names_of_kind(db.groups[m].value.members, MembershipKind::Member) == listed_names) by {
        if gid_count(g0, g0[m].value.gid) == 1 {
            lemma_listed_after_gain(as_read, us, g0[m].value.gid);
        } else {
            assert(as_read + Seq::<MembershipView>::empty() == as_read);
        }
    }
    // The numbers of the groups are as they were read.
    assert forall|i: int| 0 <= i < db.groups.len() implies (#[trigger] db.groups[i]).value.gid
        == g0[i].value.gid by {}
    lemma_same_gids(db.groups, g0, gid);
    lemma_gid_count(g0, gid);
    let pos = db.groups[m].pos;
    lemma_member_edges(name, g0, MembershipKind::Member, pos);
    lemma_primary_count_sum(member_edges(name, g0), primary_edges(gid, g0));
    assert(edges.contains((MembershipKind::Member, pos)) <==> member_edges(name, g0).contains(
        (MembershipKind::Member, pos),
    )) by {
        if edges.contains((MembershipKind::Member, pos)) {
            let i = choose|i: int| 0 <= i < edges.len() && edges[i] == (MembershipKind::Member, pos);
            if i < member_edges(name, g0).len() {
                assert(member_edges(name, g0)[i] == (MembershipKind::Member, pos));
            } else {
                assert(primary_edges(gid, g0)[i - member_edges(name, g0).len()] == (
                    MembershipKind::Member,
                    pos,
                ));
            }
        }
        if member_edges(name, g0).contains((MembershipKind::Member, pos)) {
            let i = choose|i: int|
                0 <= i < member_edges(name, g0).len() && member_edges(name, g0)[i] == (
                    MembershipKind::Member,
                    pos,
                );
            assert(edges[i] == (MembershipKind::Member, pos));
        }
    }
    assert(member_edges(name, g0).contains((MembershipKind::Member, pos)) <==> listed_names.contains(
        name,
    )) by {
        if member_edges(name, g0).contains((MembershipKind::Member, pos)) {
            let j = choose|j: int|
                0 <= j < g0.len() && (#[trigger] g0[j]).pos == pos && member_names(
                    g0[j].value.members,
                ).contains(name);
            assert(j == m);
        }
        if listed_names.contains(name) {
            assert(g0[m].pos == pos && member_names(g0[m].value.members).contains(name));
        }
    }
    if gid_count(g0, gid) == 1 {
        let own = gid_place(g0, gid);
        let edge = (MembershipKind::Primary, g0[own].pos);
        assert(primary_edges(gid, g0) == seq![edge]);
        assert(primary_count(seq![edge]) == 1) by {
            assert(seq![edge].drop_last() == Seq::<(MembershipKind, usize)>::empty());
            assert(primary_count(Seq::<(MembershipKind, usize)>::empty()) == 0);
            assert(seq![edge].last() == edge);
        }
        assert(edges[member_edges(name, g0).len() as int] == edge);
        assert(db.groups[own].pos == g0[own].pos);
    }
}

/// Reading the same text twice gives the same database: every query has
/// the same answer of both.
pub proof fn lemma_import_twice(
    first: DBView,
    second: DBView,
    passwd: Seq<char>,
    shadow: Seq<char>,
    group: Seq<char>,
)
    requires
        imported(passwd, shadow, group) == Ok::<DBView, ErrorView>(first),
        imported(passwd, shadow, group) == Ok::<DBView, ErrorView>(second),
    ensures
        first == second,
{
}

/// Reading the same tables twice, while they hold the same text, gives the
/// same database.
pub proof fn lemma_load_twice(
    first: DBView,
    second: DBView,
    files: crate::userlib::files::FilesView,
    disk: crate::userlib::files::ContentsView,
)
    requires
        loaded(files, disk) == Ok::<DBView, ErrorView>(first),
        loaded(files, disk) == Ok::<DBView, ErrorView>(second),
    ensures
        first == second,
{
}

} // verus!
