//! What the queries on a database speak of: the place of a user or a group
//! by name or number, and the order in which users are listed.
use vstd::prelude::*;

use crate::user::{User, UserView};
use crate::userlib::link::{gid_count, gid_place, Groups, positions_unique, Users};

verus! {

/// The users without the numbers of their lines.
pub open spec fn user_values(users: Users) -> Seq<UserView> {
    Seq::new(users.len(), |i: int| users[i].value)
}

/// The views of the users that a list refers to.
pub open spec fn user_views(users: Seq<&User>) -> Seq<UserView> {
    Seq::new(users.len(), |i: int| users[i]@)
}

/// Users that are ordered by their numbers, with one more in its place:
/// after every user whose number is not beyond its own.
pub open spec fn placed(ordered: Seq<UserView>, user: UserView) -> Seq<UserView>
    decreases ordered.len(),
{
    if ordered.len() == 0 || ordered.last().uid <= user.uid {
        ordered.push(user)
    } else {
        placed(ordered.drop_last(), user).push(ordered.last())
    }
}

/// The users ordered by their numbers; users of one number keep their
/// order.
pub open spec fn by_uid(users: Seq<UserView>) -> Seq<UserView>
    decreases users.len(),
{
    if users.len() == 0 {
        users
    } else {
        placed(by_uid(users.drop_last()), users.last())
    }
}

/// The place of a user among users ordered by their numbers is behind
/// the last user whose number is not beyond its own.
pub proof fn lemma_placed(ordered: Seq<UserView>, user: UserView, k: int)
    requires
        0 <= k <= ordered.len(),
        forall|j: int| k <= j < ordered.len() ==> (#[trigger] ordered[j]).uid > user.uid,
        k == 0 || ordered[k - 1].uid <= user.uid,
    ensures
        placed(ordered, user) == ordered.insert(k, user),
    decreases ordered.len(),
{
    if ordered.len() == 0 || ordered.last().uid <= user.uid {
        assert(k == ordered.len()) by {
            if k < ordered.len() {
                assert(ordered[ordered.len() - 1].uid > user.uid);
            }
        }
        assert(ordered.insert(k, user) == ordered.push(user));
    } else {
        let front = ordered.drop_last();
        assert(k < ordered.len());
        assert(forall|j: int| k <= j < front.len() ==> front[j] == ordered[j]);
        if k > 0 {
            assert(front[k - 1] == ordered[k - 1]);
        }
        lemma_placed(front, user, k);
        assert(front.insert(k, user).push(ordered.last()) == ordered.insert(k, user));
    }
}

/// The users ordered by their numbers are the same users, each as often
/// as before, and no number comes before a lesser one.
pub proof fn lemma_by_uid(users: Seq<UserView>)
    ensures
        by_uid(users).to_multiset() == users.to_multiset(),
        forall|i: int, j: int|
            0 <= i < j < by_uid(users).len() ==> (#[trigger] by_uid(users)[i]).uid <= (
            #[trigger] by_uid(users)[j]).uid,
    decreases users.len(),
{
    if users.len() > 0 {
        let front = users.drop_last();
        lemma_by_uid(front);
        lemma_placed_ordered(by_uid(front), users.last());
        assert(front.push(users.last()) == users);
        vstd::seq_lib::to_multiset_build(front, users.last());
    }
}

/// Placing a user among ordered users keeps them ordered, and adds that
/// user and no other.
pub proof fn lemma_placed_ordered(ordered: Seq<UserView>, user: UserView)
    requires
        forall|i: int, j: int|
            0 <= i < j < ordered.len() ==> (#[trigger] ordered[i]).uid <= (#[trigger] ordered[j]).uid,
    ensures
        placed(ordered, user).len() == ordered.len() + 1,
        placed(ordered, user).to_multiset() == ordered.to_multiset().insert(user),
        forall|i: int, j: int|
            0 <= i < j < placed(ordered, user).len() ==> (#[trigger] placed(ordered, user)[i]).uid <= (
            #[trigger] placed(ordered, user)[j]).uid,
        forall|i: int|
            0 <= i < placed(ordered, user).len() ==> (#[trigger] placed(ordered, user)[i]) == user
                || ordered.contains(placed(ordered, user)[i]),
    decreases ordered.len(),
{
    let all = placed(ordered, user);
    if ordered.len() == 0 || ordered.last().uid <= user.uid {
        vstd::seq_lib::to_multiset_build(ordered, user);
        assert forall|i: int, j: int| 0 <= i < j < all.len() implies (#[trigger] all[i]).uid <= (
        #[trigger] all[j]).uid by {
            if j == all.len() - 1 {
                if i < ordered.len() {
                    assert(all[i] == ordered[i]);
                    assert(ordered[i].uid <= ordered[ordered.len() - 1].uid);
                }
            } else {
                assert(all[i] == ordered[i]);
                assert(all[j] == ordered[j]);
            }
        }
        assert forall|i: int| 0 <= i < all.len() implies (#[trigger] all[i]) == user
            || ordered.contains(all[i]) by {
            if i < ordered.len() {
                assert(all[i] == ordered[i]);
            }
        }
    } else {
        let front = ordered.drop_last();
        assert(forall|i: int| 0 <= i < front.len() ==> front[i] == ordered[i]);
        lemma_placed_ordered(front, user);
        let inner = placed(front, user);
        assert(front.push(ordered.last()) == ordered);
        vstd::seq_lib::to_multiset_build(front, ordered.last());
        vstd::seq_lib::to_multiset_build(inner, ordered.last());
        assert(all.to_multiset() =~= ordered.to_multiset().insert(user));
        assert forall|i: int, j: int| 0 <= i < j < all.len() implies (#[trigger] all[i]).uid <= (
        #[trigger] all[j]).uid by {
            if j == all.len() - 1 {
                assert(all[i] == inner[i]);
                if inner[i] != user {
                    assert(front.contains(inner[i]));
                    let q = choose|q: int| 0 <= q < front.len() && front[q] == inner[i];
                    assert(ordered[q].uid <= ordered[ordered.len() - 1].uid);
                }
            } else {
                assert(all[i] == inner[i]);
                assert(all[j] == inner[j]);
            }
        }
        assert forall|i: int| 0 <= i < all.len() implies (#[trigger] all[i]) == user
            || ordered.contains(all[i]) by {
            if i < inner.len() {
                assert(all[i] == inner[i]);
                if inner[i] != user {
                    assert(front.contains(inner[i]));
                    let q = choose|q: int| 0 <= q < front.len() && front[q] == inner[i];
                    assert(ordered[q] == inner[i]);
                }
            } else {
                assert(all[i] == ordered[ordered.len() - 1]);
            }
        }
    }
}

/// The place of the first user with the number `uid`, if there is one.
pub open spec fn uid_place(users: Users, uid: u32) -> Option<int>
    decreases users.len(),
{
    if users.len() == 0 {
        None
    } else {
        match uid_place(users.drop_last(), uid) {
            Some(i) => Some(i),
            None => if users.last().value.uid == uid {
                Some(users.len() - 1)
            } else {
                None
            },
        }
    }
}

/// The place of the first group named `name`, if there is one.
pub open spec fn group_place(groups: Groups, name: Seq<char>) -> Option<int>
    decreases groups.len(),
{
    if groups.len() == 0 {
        None
    } else {
        match group_place(groups.drop_last(), name) {
            Some(i) => Some(i),
            None => if groups.last().value.groupname == name {
                Some(groups.len() - 1)
            } else {
                None
            },
        }
    }
}

/// The groups whose number is not `gid`, in their order.
pub open spec fn without_gid(groups: Groups, gid: u32) -> Groups
    decreases groups.len(),
{
    if groups.len() == 0 {
        groups
    } else if groups.last().value.gid == gid {
        without_gid(groups.drop_last(), gid)
    } else {
        without_gid(groups.drop_last(), gid).push(groups.last())
    }
}

/// The place of a number is the place of the first user of that number;
/// there is none where no user has the number.
pub proof fn lemma_uid_place(users: Users, uid: u32)
    ensures
        match uid_place(users, uid) {
            Some(i) => {
                &&& 0 <= i < users.len()
                &&& users[i].value.uid == uid
                &&& forall|j: int| 0 <= j < i ==> (#[trigger] users[j]).value.uid != uid
            },
            None => forall|j: int| 0 <= j < users.len() ==> (#[trigger] users[j]).value.uid != uid,
        },
    decreases users.len(),
{
    if users.len() > 0 {
        lemma_uid_place(users.drop_last(), uid);
        assert(forall|j: int| 0 <= j < users.len() - 1 ==> users.drop_last()[j] == users[j]);
    }
}

/// The place of a group name is the place of the first group of that
/// name; there is none where no group has the name.
pub proof fn lemma_group_place(groups: Groups, name: Seq<char>)
    ensures
        match group_place(groups, name) {
            Some(i) => {
                &&& 0 <= i < groups.len()
                &&& groups[i].value.groupname == name
                &&& forall|j: int| 0 <= j < i ==> (#[trigger] groups[j]).value.groupname != name
            },
            None => forall|j: int|
                0 <= j < groups.len() ==> (#[trigger] groups[j]).value.groupname != name,
        },
    decreases groups.len(),
{
    if groups.len() > 0 {
        lemma_group_place(groups.drop_last(), name);
        assert(forall|j: int| 0 <= j < groups.len() - 1 ==> groups.drop_last()[j] == groups[j]);
    }
}

/// A user of a number among the first users is the first such user among
/// them all.
pub proof fn lemma_uid_prefix(users: Users, uid: u32, k: int)
    requires
        0 <= k <= users.len(),
        uid_place(users.take(k), uid) is Some,
    ensures
        uid_place(users, uid) == uid_place(users.take(k), uid),
    decreases users.len() - k,
{
    if k == users.len() {
        assert(users.take(k) == users);
    } else {
        assert(users.drop_last().take(k) == users.take(k));
        lemma_uid_prefix(users.drop_last(), uid, k);
    }
}

/// A group of a name among the first groups is the first such group among
/// them all.
pub proof fn lemma_group_prefix(groups: Groups, name: Seq<char>, k: int)
    requires
        0 <= k <= groups.len(),
        group_place(groups.take(k), name) is Some,
    ensures
        group_place(groups, name) == group_place(groups.take(k), name),
    decreases groups.len() - k,
{
    if k == groups.len() {
        assert(groups.take(k) == groups);
    } else {
        assert(groups.drop_last().take(k) == groups.take(k));
        lemma_group_prefix(groups.drop_last(), name, k);
    }
}

/// The groups without those of one number were still read from different
/// lines, and each of them is one of the groups.
pub proof fn lemma_without_gid(groups: Groups, gid: u32)
    ensures
        forall|i: int|
            0 <= i < without_gid(groups, gid).len() ==> groups.contains(
                #[trigger] without_gid(groups, gid)[i],
            ),
        positions_unique(groups) ==> positions_unique(without_gid(groups, gid)),
    decreases groups.len(),
{
    if groups.len() > 0 {
        let front = groups.drop_last();
        lemma_without_gid(front, gid);
        let kept = without_gid(groups, gid);
        assert forall|i: int| 0 <= i < kept.len() implies groups.contains(#[trigger] kept[i]) by {
            if i < without_gid(front, gid).len() {
                let g = without_gid(front, gid)[i];
                assert(front.contains(g));
                let k = choose|k: int| 0 <= k < front.len() && front[k] == g;
                assert(groups[k] == g);
            } else {
                assert(kept[i] == groups[groups.len() - 1]);
            }
        }
        if positions_unique(groups) {
            assert(positions_unique(front)) by {
                assert forall|i: int, j: int| 0 <= i < j < front.len() implies (
                #[trigger] front[i]).pos != (#[trigger] front[j]).pos by {
                    assert(front[i] == groups[i]);
                    assert(front[j] == groups[j]);
                }
            }
            if groups.last().value.gid != gid {
                assert forall|i: int, j: int| 0 <= i < j < kept.len() implies (
                #[trigger] kept[i]).pos != (#[trigger] kept[j]).pos by {
                    if j == kept.len() - 1 {
                        let g = without_gid(front, gid)[i];
                        assert(kept[i] == g);
                        assert(front.contains(g));
                        let k = choose|k: int| 0 <= k < front.len() && front[k] == g;
                        assert(groups[k] == g);
                        assert(groups[groups.len() - 1] == kept[j]);
                    } else {
                        assert(kept[i] == without_gid(front, gid)[i]);
                        assert(kept[j] == without_gid(front, gid)[j]);
                    }
                }
            }
        }
    }
}

/// A group with the number `gid` among the first groups is the first such
/// group among them all.
pub proof fn lemma_gid_prefix(groups: Groups, gid: u32, k: int)
    requires
        0 < k <= groups.len(),
        gid_count(groups.take(k - 1), gid) == 0,
        groups[k - 1].value.gid == gid,
    ensures
        gid_count(groups, gid) > 0,
        gid_place(groups, gid) == k - 1,
    decreases groups.len() - k,
{
    if k == groups.len() {
        assert(groups.drop_last() == groups.take(k - 1));
    } else {
        assert(groups.drop_last().take(k - 1) == groups.take(k - 1));
        lemma_gid_prefix(groups.drop_last(), gid, k);
    }
}

} // verus!
