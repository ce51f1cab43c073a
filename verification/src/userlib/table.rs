//! Reading a table: one record from each line.
use vstd::prelude::*;

use crate::error::{ErrorView, UserLibError};
use crate::group::{Group, GroupView, parse_group};
use crate::text::{chars_of, line_chars, lines, string_of, views};
use crate::user::shadow_fields::{parse_shadow, Shadow, ShadowView};
use crate::user::{parse_user, User, UserView};
use crate::userlib::numbered::{Numbered, NumberedView};

verus! {

/// A record that is read from one line of its table.
pub trait FromLine: View + Clone + Sized {
    /// What a line of the table denotes.
    spec fn parsed(line: Seq<char>) -> Result<Self::V, ErrorView>;

    /// Reads a line of the table.
    fn from_line(line: &str) -> (r: Result<Self, UserLibError>)
        ensures
            match r {
                Ok(v) => Self::parsed(line@) == Ok::<Self::V, ErrorView>(v@),
                Err(e) => Self::parsed(line@) == Err::<Self::V, ErrorView>(e@),
            },
    ;
}

impl FromLine for User {
    open spec fn parsed(line: Seq<char>) -> Result<UserView, ErrorView> {
        parse_user(line)
    }

    fn from_line(line: &str) -> (r: Result<Self, UserLibError>) {
        User::parse_line(line)
    }
}

impl FromLine for Shadow {
    open spec fn parsed(line: Seq<char>) -> Result<ShadowView, ErrorView> {
        parse_shadow(line)
    }

    fn from_line(line: &str) -> (r: Result<Self, UserLibError>) {
        Shadow::parse_line(line)
    }
}

impl FromLine for Group {
    open spec fn parsed(line: Seq<char>) -> Result<GroupView, ErrorView> {
        parse_group(line)
    }

    fn from_line(line: &str) -> (r: Result<Self, UserLibError>) {
        Group::parse_line(line)
    }
}

/// The views of a vector of numbered records.
pub open spec fn numbered_views<T: View + Clone>(v: Seq<Numbered<T>>) -> Seq<NumberedView<T::V>> {
    Seq::new(v.len(), |i: int| v[i]@)
}

/// The records that the lines denote, each with the number of its line,
/// counted from 0. The first line that is malformed gives the error.
pub open spec fn numbered<T: FromLine>(ls: Seq<Seq<char>>) -> Result<
    Seq<NumberedView<T::V>>,
    ErrorView,
>
    decreases ls.len(),
{
    if ls.len() == 0 {
        Ok(Seq::<NumberedView<T::V>>::empty())
    } else {
        match numbered::<T>(ls.drop_last()) {
            Err(e) => Err(e),
            Ok(front) => match T::parsed(ls.last()) {
                Err(e) => Err(e),
                Ok(value) => Ok(front.push(NumberedView { pos: (ls.len() - 1) as usize, value })),
            },
        }
    }
}

/// The records that a table holds, line by line.
pub open spec fn table_of<T: FromLine>(source: Seq<char>) -> Result<
    Seq<NumberedView<T::V>>,
    ErrorView,
> {
    numbered::<T>(lines(source))
}

/// The outcome of reading a table, as a mathematical value.
pub open spec fn table_result<T: FromLine>(r: Result<Vec<Numbered<T>>, UserLibError>) -> Result<
    Seq<NumberedView<T::V>>,
    ErrorView,
> {
    match r {
        Ok(v) => Ok(numbered_views(v@)),
        Err(e) => Err(e@),
    }
}

/// Reads a table line by line. The whole table is refused where one line
/// is malformed.
pub fn string_to<T: FromLine>(source: &str) -> (r: Result<Vec<Numbered<T>>, UserLibError>)
    ensures
        table_result(r) == table_of::<T>(source@),
        r matches Ok(v) ==> forall|i: int| 0 <= i < v@.len() ==> (#[trigger] v@[i]).pos == i,
{
    let chars = chars_of(source);
    let ls = line_chars(&chars);
    let mut out: Vec<Numbered<T>> = Vec::new();
    let mut i: usize = 0;
    assert(views(ls@).take(0) == Seq::<Seq<char>>::empty());
    assert(numbered_views(out@) == Seq::<NumberedView<T::V>>::empty());
    while i < ls.len()
        invariant
            i <= ls.len(),
            views(ls@) == lines(source@),
            numbered::<T>(views(ls@).take(i as int)) == Ok::<Seq<NumberedView<T::V>>, ErrorView>(
                numbered_views(out@),
            ),
            out@.len() == i,
            forall|k: int| 0 <= k < i ==> (#[trigger] out@[k]).pos == k,
        decreases ls.len() - i,
    {
        let ghost upto = views(ls@).take(i + 1);
        assert(upto.drop_last() == views(ls@).take(i as int));
        assert(upto.last() == ls@[i as int]@);
        let line = string_of(&ls[i]);
        match T::from_line(line.as_str()) {
            Ok(value) => {
                let ghost before = numbered_views(out@);
                out.push(Numbered { pos: i, value });
                assert(numbered_views(out@) == before.push(
                    NumberedView { pos: i, value: value@ },
                ));
            },
            Err(e) => {
                proof {
                    lemma_numbered_prefix::<T>(views(ls@), i + 1);
                }
                return Err(e);
            },
        }
        i += 1;
    }
    assert(views(ls@).take(ls.len() as int) == views(ls@));
    Ok(out)
}

/// An error in reading the first lines is the error in reading them all.
pub proof fn lemma_numbered_prefix<T: FromLine>(ls: Seq<Seq<char>>, k: int)
    requires
        0 <= k <= ls.len(),
        numbered::<T>(ls.take(k)) is Err,
    ensures
        numbered::<T>(ls) == numbered::<T>(ls.take(k)),
    decreases ls.len() - k,
{
    if k == ls.len() {
        assert(ls.take(k) == ls);
    } else {
        assert(ls.drop_last().take(k) == ls.take(k));
        lemma_numbered_prefix::<T>(ls.drop_last(), k);
    }
}

} // verus!
