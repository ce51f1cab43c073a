//! What holds of a database that is read again after a user was made.
use vstd::prelude::*;

use crate::error::ErrorView;
use crate::group::Group;
use crate::number::{decimal, is_digit, lemma_decimal_is_read};
use crate::text::{ends_in_cr, lemma_split_join, lines, split};
use crate::user::gecos_fields::GecosView;
use crate::user::passwd_fields::{name_valid, PasswordView};
use crate::user::shadow_fields::{parse_shadow, Shadow, ShadowView};
use crate::user::{parse_user, Position, User, UserView};
use crate::userlib::change::{created, lemma_new_user_adds_one_line, new_record};
use crate::userlib::files::{ContentsView, FilesView};
use crate::userlib::link::{deduplicated, holding, lemma_position_names, lemma_position_of};
use crate::userlib::link::{lemma_with_shadows_names, linked_users, names, position_of, with_shadows};
use crate::userlib::link::Users;
use crate::userlib::numbered::NumberedView;
use crate::userlib::{loaded, numbered, table_of, DBView};

verus! {

/// A valid name holds no colon and no newline, and does not end in a
/// carriage return.
pub proof fn lemma_valid_name_is_plain(name: Seq<char>)
    requires
        name_valid(name),
    ensures
        !name.contains(':'),
        !name.contains('\n'),
        !ends_in_cr(name),
{
    assert forall|k: int| 0 <= k < name.len() implies name[k] != ':' && name[k] != '\n' && name[k]
        != '\r' by {
        if k == 0 {
        } else if k < name.len() - 1 {
        } else {
            assert(name[k] == name.last());
        }
    }
    if name.contains(':') {
        let k = choose|k: int| 0 <= k < name.len() && name[k] == ':';
    }
    if name.contains('\n') {
        let k = choose|k: int| 0 <= k < name.len() && name[k] == '\n';
    }
    assert(name.last() == name[name.len() - 1]);
}

/// The record that the line of a new user named `name` is read as: the
/// new record, with its line as its source, with no line number yet, and
/// with the mark of the shadow table for a passphrase.
pub open spec fn user_read_back(name: Seq<char>) -> UserView {
    UserView {
        source: new_record(name).value.line(),
        pos: Position::NotAssignedYet,
        password: PasswordView::Encrypted(seq!['x']),
        ..new_record(name).value
    }
}

/// The record that the line of a new user's record of the shadow table is
/// read as: that record, with its line as its source.
pub open spec fn shadow_read_back(name: Seq<char>) -> ShadowView {
    ShadowView {
        source: new_record(name).value.shadow()->Some_0.line(),
        ..new_record(name).value.shadow()->Some_0
    }
}

/// The line of a new user is read back as that user, and the line of its
/// record of the shadow table as that record, where the name is valid.
pub proof fn lemma_new_record_is_read_back(name: Seq<char>)
    requires
        name_valid(name),
    ensures
        parse_user(new_record(name).value.line()) == Ok::<UserView, ErrorView>(user_read_back(name)),
        new_record(name).value.shadow() is Some,
        parse_shadow(new_record(name).value.shadow()->Some_0.line()) == Ok::<ShadowView, ErrorView>(
            shadow_read_back(name),
        ),
{
    let user = new_record(name).value;
    let shadow = user.shadow()->Some_0;
    lemma_valid_name_is_plain(name);
    lemma_decimal_is_read(0);
    lemma_decimal_is_read(7);
    lemma_decimal_is_read(1001);
    lemma_decimal_is_read(99999);
    reveal_strlit("/");
    reveal_strlit("/bin/nologin");
    reveal_strlit("!!");
    let empty = Seq::<char>::empty();
    assert(!"/"@.contains(':')) by {
        if "/"@.contains(':') {
            let k = choose|k: int| 0 <= k < "/"@.len() && "/"@[k] == ':';
        }
    }
    assert(!"/bin/nologin"@.contains(':')) by {
        if "/bin/nologin"@.contains(':') {
            let k = choose|k: int| 0 <= k < "/bin/nologin"@.len() && "/bin/nologin"@[k] == ':';
        }
    }
    assert(!"!!"@.contains(':')) by {
        if "!!"@.contains(':') {
            let k = choose|k: int| 0 <= k < "!!"@.len() && "!!"@[k] == ':';
        }
    }
    assert(!seq!['x'].contains(':')) by {
        if seq!['x'].contains(':') {
            let k = choose|k: int| 0 <= k < seq!['x'].len() && seq!['x'][k] == ':';
        }
    }
    assert(!empty.contains(':'));
    assert(8_639_913_600int / 86400 == 99999);
    assert(99999 * 86400 == 8_639_913_600int);
    // the user
    let f = user.fields();
    assert(!is_digit(':'));
    assert(!decimal(0).contains(':'));
    assert(!decimal(7).contains(':'));
    assert(!decimal(1001).contains(':'));
    assert(!decimal(99999).contains(':'));
    assert forall|i: int| 0 <= i < f.len() implies !(#[trigger] f[i]).contains(':') by {
        assert(f[0] == name);
        assert(f[1] == seq!['x']);
        assert(f[2] == decimal(1001));
        assert(f[3] == decimal(1001));
        assert(f[4] == empty);
        assert(f[5] == "/"@);
        assert(f[6] == "/bin/nologin"@);
    }
    lemma_split_join(f, ':');
    assert(split(user.line(), ':') == f);
    assert(split(empty, ',') == seq![empty]);
    assert(crate::number::u32_of(f[2]) == Some(1001u32));
    assert(crate::number::u32_of(f[3]) == Some(1001u32));
    assert(crate::user::gecos_fields::parse_gecos(f[4]) == Ok::<GecosView, ErrorView>(
        GecosView::Simple { comment: empty },
    ));
    // its record of the shadow table
    let g = shadow.fields();
    assert(0int / 86400 == 0);
    assert forall|i: int| 0 <= i < g.len() implies !(#[trigger] g[i]).contains(':') by {
        assert(g[0] == name);
        assert(g[1] == "!!"@);
        assert(g[2] == decimal(0));
        assert(g[3] == decimal(0));
        assert(g[4] == decimal(99999));
        assert(g[5] == decimal(7));
        assert(g[6] == empty);
        assert(g[7] == empty);
        assert(g[8] == empty);
    }
    lemma_split_join(g, ':');
    assert(split(shadow.line(), ':') == g);
    assert(crate::number::i64_of(decimal(0)) == Some(0i64));
    assert(crate::number::i64_of(decimal(7)) == Some(7i64));
    assert(crate::number::i64_of(decimal(99999)) == Some(99999i64));
    assert(crate::user::shadow_fields::date_of(g[2]) == Some(Some(0i64)));
    assert(crate::user::shadow_fields::date_of(g[3]) == Some(Some(0i64)));
    assert(crate::user::shadow_fields::date_of(g[4]) == Some(Some(8_639_913_600i64)));
    assert(crate::user::shadow_fields::duration_of(g[5]) == Some(Some(7i64)));
    assert(crate::user::shadow_fields::duration_of(g[6]) == Some(None::<i64>));
    assert(crate::user::shadow_fields::duration_of(g[7]) == Some(None::<i64>));
    assert(crate::user::shadow_fields::extension_of(g[8]) == Some(None::<u64>));
}

/// A table with one more line is read as the records that it held and the
/// record of that line.
pub proof fn lemma_numbered_one_more<T: crate::userlib::FromLine>(
    ls: Seq<Seq<char>>,
    line: Seq<char>,
)
    requires
        numbered::<T>(ls) is Ok,
        T::parsed(line) is Ok,
    ensures
        numbered::<T>(ls.push(line)) is Ok,
        numbered::<T>(ls.push(line))->Ok_0.len() == numbered::<T>(ls)->Ok_0.len() + 1,
        numbered::<T>(ls.push(line))->Ok_0.drop_last() == numbered::<T>(ls)->Ok_0,
        numbered::<T>(ls.push(line))->Ok_0.last().value == T::parsed(line)->Ok_0,
{
    assert(ls.push(line).drop_last() == ls);
}

/// Users with one more, whose name none of them has, hold the records of
/// the shadow table that they held, and the one more holds none of them.
pub proof fn lemma_with_shadows_one_more(
    users: Users,
    shadows: Seq<NumberedView<ShadowView>>,
    user: NumberedView<UserView>,
)
    requires
        with_shadows(users, shadows) is Ok,
        position_of(users, user.value.username) is None,
    ensures
        with_shadows(users.push(user), shadows) == Ok::<Users, ErrorView>(
            with_shadows(users, shadows)->Ok_0.push(user),
        ),
    decreases shadows.len(),
{
    if shadows.len() > 0 {
        let rest = shadows.drop_last();
        lemma_with_shadows_one_more(users, rest, user);
        let front = with_shadows(users, rest)->Ok_0;
        let more = front.push(user);
        let name = shadows.last().value.username;
        assert(more.drop_last() == front);
        lemma_position_of(front, name);
        let i = position_of(front, name)->Some_0;
        assert(position_of(more, name) == Some(i));
        assert(more.update(i, holding(more[i], shadows.last())) == front.update(
            i,
            holding(front[i], shadows.last()),
        ).push(user));
    }
}

/// A database that is read again after a user was made shows the user,
/// and the users that it had as they were.
///
/// Of a database that was read from tables which held `disk`, and in
/// which a user with the valid name `name` was made: when the tables hold
/// what was to be written and are read again, the users that the
/// database had are there as they were, and after them stands the new
/// user, with the numbers, the home and the shell of a new record. This
/// holds of a user table and a shadow table that did not end in a carriage
/// return.
pub proof fn lemma_new_user_is_read_again(
    files: FilesView,
    disk: ContentsView,
    db: DBView,
    name: Seq<char>,
    again: FilesView,
)
    requires
        loaded(files, disk) == Ok::<DBView, ErrorView>(db),
        created(db, name, Some(disk)) is Ok,
        name_valid(name),
        !ends_in_cr(disk.pwd),
        !ends_in_cr(disk.shd),
        !again.is_virtual(),
        again.unchanged(created(db, name, Some(disk))->Ok_0.1->Some_0),
    ensures
        ({
            let out = created(db, name, Some(disk))->Ok_0.1->Some_0;
            let read = loaded(again, out);
            &&& read is Ok
            &&& read->Ok_0.users.len() == db.users.len() + 1
            &&& forall|j: int| 0 <= j < db.users.len() ==> read->Ok_0.users[j] == #[trigger] db.users[j]
            &&& position_of(read->Ok_0.users, name) == Some(db.users.len() as int)
            &&& read->Ok_0.users.last().value.username == name
            &&& read->Ok_0.users.last().value.uid == 1001
            &&& read->Ok_0.users.last().value.gid == 1001
            &&& read->Ok_0.users.last().value.home_dir == "/"@
            &&& read->Ok_0.users.last().value.shell_path == "/bin/nologin"@
            &&& read->Ok_0.users.last().value.shadow() is Some
            &&& lines(out.pwd).drop_last() == lines(disk.pwd)
        }),
{
    let out = created(db, name, Some(disk))->Ok_0.1->Some_0;
    let record = new_record(name).value;
    lemma_valid_name_is_plain(name);
    lemma_new_user_adds_one_line(db, name, disk);
    lemma_new_record_is_read_back(name);
    let users0 = table_of::<User>(disk.pwd)->Ok_0;
    let shadows0 = table_of::<Shadow>(disk.shd)->Ok_0;
    let groups0 = table_of::<Group>(disk.grp)->Ok_0;
    // the tables that were written, line by line
    lemma_numbered_one_more::<User>(lines(disk.pwd), record.line());
    lemma_numbered_one_more::<Shadow>(lines(disk.shd), record.shadow()->Some_0.line());
    assert(lines(disk.pwd).push(record.line()).drop_last() == lines(disk.pwd));
    let users1 = table_of::<User>(out.pwd)->Ok_0;
    let shadows1 = table_of::<Shadow>(out.shd)->Ok_0;
    let new_user = users1.last();
    let new_shadow = shadows1.last();
    assert(users1 == users0.push(new_user));
    assert(shadows1 == shadows0.push(new_shadow));
    assert(shadows1.drop_last() == shadows0);
    assert(users1.drop_last() == users0);
    // one record per name
    let unique = deduplicated(users0);
    let held = with_shadows(unique, shadows0)->Ok_0;
    lemma_with_shadows_names(unique, shadows0);
    assert(names(db.users) == names(held));
    lemma_position_names(db.users, held, name);
    lemma_position_names(held, unique, name);
    assert(deduplicated(users1) == unique.push(new_user));
    // the records of the shadow table
    lemma_with_shadows_one_more(unique, shadows0, new_user);
    let more = held.push(new_user);
    assert(more.drop_last() == held);
    lemma_position_of(held, name);
    assert(position_of(more, name) == Some(held.len() as int));
    let all = more.update(held.len() as int, holding(new_user, new_shadow));
    assert(with_shadows(unique.push(new_user), shadows1) == Ok::<Users, ErrorView>(all));
    // the users with their groups
    let read = loaded(again, out)->Ok_0;
    assert(read.users == linked_users(all, groups0));
    assert forall|j: int| 0 <= j < db.users.len() implies read.users[j] == #[trigger] db.users[j] by {
        assert(all[j] == held[j]);
    }
    assert(names(read.users) == names(all));
    lemma_position_names(read.users, all, name);
    assert(all.drop_last() == held);
    assert(position_of(all, name) == Some(held.len() as int));
}

} // verus!
