//! The comment field of a record of the user table.
use vstd::prelude::*;

use crate::error::{ErrorView, UserLibError};
use crate::text::{chars_of, join, join_chars, lemma_join_split, lemma_split_len, push_all, split};
use crate::text::{split_chars, string_of, string_views, views};

verus! {

/// The comment field of a user: either free text, or a full name, a room
/// and two telephone numbers, with further entries after them.
#[derive(Debug, PartialEq, Eq, Clone)]
pub enum Gecos {
    Detail {
        full_name: String,
        room: String,
        phone_work: String,
        phone_home: String,
        other: Option<Vec<String>>,
    },
    Simple { comment: String },
}

/// A comment field as a mathematical value.
pub enum GecosView {
    Detail {
        full_name: Seq<char>,
        room: Seq<char>,
        phone_work: Seq<char>,
        phone_home: Seq<char>,
        other: Option<Seq<Seq<char>>>,
    },
    Simple { comment: Seq<char> },
}

impl View for Gecos {
    type V = GecosView;

    open spec fn view(&self) -> GecosView {
        match self {
            Gecos::Detail { full_name, room, phone_work, phone_home, other } => GecosView::Detail {
                full_name: full_name@,
                room: room@,
                phone_work: phone_work@,
                phone_home: phone_home@,
                other: match other {
                    Some(o) => Some(string_views(o@)),
                    None => None,
                },
            },
            Gecos::Simple { comment } => GecosView::Simple { comment: comment@ },
        }
    }
}

impl GecosView {
    /// The field as a line of the user table holds it: the free text, or the
    /// four entries with commas between them and, where there are further
    /// entries, a comma and those with commas between them.
    pub open spec fn text(self) -> Seq<char> {
        match self {
            GecosView::Simple { comment } => comment,
            GecosView::Detail { full_name, room, phone_work, phone_home, other } => {
                let fixed = join(seq![full_name, room, phone_work, phone_home], ',');
                match other {
                    None => fixed,
                    Some(o) => fixed.push(',') + join(o, ','),
                }
            },
        }
    }
}

/// The message of the error for a comment field of two or three entries.
pub open spec fn gecos_error() -> Seq<char> {
    "Could not parse the comment field"@
}

/// What a comment field denotes. One entry is free text; four or more are
/// the detailed form; two or three are malformed.
pub open spec fn parse_gecos(field: Seq<char>) -> Result<GecosView, ErrorView> {
    let v = split(field, ',');
    if v.len() > 3 {
        Ok(
            GecosView::Detail {
                full_name: v[0],
                room: v[1],
                phone_work: v[2],
                phone_home: v[3],
                other: if v.len() == 4 {
                    None
                } else {
                    Some(v.skip(4))
                },
            },
        )
    } else if v.len() == 1 {
        Ok(GecosView::Simple { comment: v[0] })
    } else {
        Err(ErrorView::Message(gecos_error()))
    }
}

/// Joining two runs of pieces, neither of them empty, joins each and puts a
/// separator between them.
pub proof fn lemma_join_concat(a: Seq<Seq<char>>, b: Seq<Seq<char>>, sep: char)
    requires
        a.len() >= 1,
        b.len() >= 1,
    ensures
        join(a + b, sep) == join(a, sep).push(sep) + join(b, sep),
    decreases b.len(),
{
    let all = a + b;
    assert(all.last() == b.last());
    if b.len() == 1 {
        assert(all.drop_last() == a);
    } else {
        assert(all.drop_last() == a + b.drop_last());
        lemma_join_concat(a, b.drop_last(), sep);
        assert(join(all, sep) == join(a + b.drop_last(), sep).push(sep) + b.last());
        assert(join(b, sep) == join(b.drop_last(), sep).push(sep) + b.last());
        assert(join(all, sep) == join(a, sep).push(sep) + join(b, sep));
    }
}

/// A comment field that parses is written back as it was read.
pub proof fn lemma_gecos_round_trip(field: Seq<char>)
    requires
        parse_gecos(field) is Ok,
    ensures
        parse_gecos(field)->Ok_0.text() == field,
{
    let v = split(field, ',');
    lemma_join_split(field, ',');
    lemma_split_len(field, ',');
    if v.len() > 3 {
        let fixed = seq![v[0], v[1], v[2], v[3]];
        assert(fixed == v.take(4));
        if v.len() == 4 {
            assert(v.take(4) == v);
        } else {
            lemma_join_concat(v.take(4), v.skip(4), ',');
            assert(v.take(4) + v.skip(4) == v);
        }
    } else {
        assert(v.len() == 1);
    }
}

impl Gecos {
    /// A copy of the field.
    pub fn duplicate(&self) -> (r: Gecos)
        ensures
            r@ == self@,
    {
        match self {
            Gecos::Simple { comment } => Gecos::Simple { comment: comment.clone() },
            Gecos::Detail { full_name, room, phone_work, phone_home, other } => {
                let other = match other {
                    None => None,
                    Some(o) => {
                        let mut copy: Vec<String> = Vec::new();
                        let mut i: usize = 0;
                        while i < o.len()
                            invariant
                                i <= o.len(),
                                copy@.len() == i,
                                forall|j: int| 0 <= j < i ==> (#[trigger] copy@[j])@ == o@[j]@,
                            decreases o.len() - i,
                        {
                            copy.push(o[i].clone());
                            i += 1;
                        }
                        assert(string_views(copy@) == string_views(o@));
                        Some(copy)
                    },
                };
                Gecos::Detail {
                    full_name: full_name.clone(),
                    room: room.clone(),
                    phone_work: phone_work.clone(),
                    phone_home: phone_home.clone(),
                    other,
                }
            },
        }
    }

    /// Reads a comment field.
    pub fn parse(field: &Vec<char>) -> (r: Result<Gecos, UserLibError>)
        ensures
            match r {
                Ok(g) => parse_gecos(field@) == Ok::<GecosView, ErrorView>(g@),
                Err(e) => parse_gecos(field@) == Err::<GecosView, ErrorView>(e@),
            },
    {
        let v = split_chars(field, ',');
        if v.len() > 3 {
            let other = if v.len() == 4 {
                None
            } else {
                let mut rest: Vec<String> = Vec::new();
                let mut i: usize = 4;
                while i < v.len()
                    invariant
                        4 <= i <= v.len(),
                        string_views(rest@) == views(v@).subrange(4, i as int),
                    decreases v.len() - i,
                {
                    let ghost before = string_views(rest@);
                    rest.push(string_of(&v[i]));
                    assert(string_views(rest@) == before.push(v@[i as int]@));
                    i += 1;
                }
                assert(views(v@).subrange(4, v.len() as int) == views(v@).skip(4));
                Some(rest)
            };
            Ok(
                Gecos::Detail {
                    full_name: string_of(&v[0]),
                    room: string_of(&v[1]),
                    phone_work: string_of(&v[2]),
                    phone_home: string_of(&v[3]),
                    other,
                },
            )
        } else if v.len() == 1 {
            Ok(Gecos::Simple { comment: string_of(&v[0]) })
        } else {
            Err(UserLibError::message("Could not parse the comment field"))
        }
    }

    /// The characters of the field as a line of the user table holds it.
    pub fn chars(&self) -> (out: Vec<char>)
        ensures
            out@ == self@.text(),
    {
        match self {
            Gecos::Simple { comment } => chars_of(comment.as_str()),
            Gecos::Detail { full_name, room, phone_work, phone_home, other } => {
                let mut fixed: Vec<Vec<char>> = Vec::new();
                fixed.push(chars_of(full_name.as_str()));
                fixed.push(chars_of(room.as_str()));
                fixed.push(chars_of(phone_work.as_str()));
                fixed.push(chars_of(phone_home.as_str()));
                assert(views(fixed@) == seq![full_name@, room@, phone_work@, phone_home@]);
                let mut out = join_chars(&fixed, ',');
                match other {
                    None => {},
                    Some(o) => {
                        let mut rest: Vec<Vec<char>> = Vec::new();
                        let mut i: usize = 0;
                        while i < o.len()
                            invariant
                                i <= o.len(),
                                views(rest@) == string_views(o@).take(i as int),
                            decreases o.len() - i,
                        {
                            let ghost before = views(rest@);
                            rest.push(chars_of(o[i].as_str()));
                            assert(views(rest@) == before.push(o@[i as int]@));
                            i += 1;
                        }
                        assert(string_views(o@).take(o.len() as int) == string_views(o@));
                        out.push(',');
                        let tail = join_chars(&rest, ',');
                        push_all(&mut out, &tail);
                    },
                }
                out
            },
        }
    }

    /// The full name, where the field has the detailed form.
    pub fn get_full_name(&self) -> (r: Option<&str>)
        ensures
            match self@ {
                GecosView::Simple { .. } => r is None,
                GecosView::Detail { full_name, .. } => r is Some && r->Some_0@ == full_name,
            },
    {
        match self {
            Gecos::Simple { .. } => None,
            Gecos::Detail { full_name, .. } => Some(full_name.as_str()),
        }
    }

    /// The room, where the field has the detailed form.
    pub fn get_room(&self) -> (r: Option<&str>)
        ensures
            match self@ {
                GecosView::Simple { .. } => r is None,
                GecosView::Detail { room, .. } => r is Some && r->Some_0@ == room,
            },
    {
        match self {
            Gecos::Simple { .. } => None,
            Gecos::Detail { room, .. } => Some(room.as_str()),
        }
    }

    /// The telephone number at work, where the field has the detailed form.
    pub fn get_phone_work(&self) -> (r: Option<&str>)
        ensures
            match self@ {
                GecosView::Simple { .. } => r is None,
                GecosView::Detail { phone_work, .. } => r is Some && r->Some_0@ == phone_work,
            },
    {
        match self {
            Gecos::Simple { .. } => None,
            Gecos::Detail { phone_work, .. } => Some(phone_work.as_str()),
        }
    }

    /// The telephone number at home, where the field has the detailed form.
    pub fn get_phone_home(&self) -> (r: Option<&str>)
        ensures
            match self@ {
                GecosView::Simple { .. } => r is None,
                GecosView::Detail { phone_home, .. } => r is Some && r->Some_0@ == phone_home,
            },
    {
        match self {
            Gecos::Simple { .. } => None,
            Gecos::Detail { phone_home, .. } => Some(phone_home.as_str()),
        }
    }

    /// The further entries, where the field has the detailed form and
    /// there are any.
    pub fn get_other(&self) -> (r: Option<&Vec<String>>)
        ensures
            match self@ {
                GecosView::Simple { .. } => r is None,
                GecosView::Detail { other, .. } => match other {
                    None => r is None,
                    Some(o) => r is Some && string_views(r->Some_0@) == o,
                },
            },
    {
        match self {
            Gecos::Simple { .. } => None,
            Gecos::Detail { other, .. } => match other {
                None => None,
                Some(o) => Some(o),
            },
        }
    }
}

} // verus!
