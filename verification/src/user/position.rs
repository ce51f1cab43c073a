//! Where a record of the user table stands in its file.
use std::cmp::Ordering;
use vstd::prelude::*;
use vstd::std_specs::cmp::PartialOrdSpecImpl;

use crate::user::User;

verus! {

/// The place of a user in the user table.
#[derive(Debug, PartialEq, Eq, Structural, Clone)]
pub enum Position {
    /// The record is the line of that number.
    At(u32),
    /// The record has no file behind it, on purpose.
    NotInFile,
    /// The record is new and stands on no line yet.
    NewToFile,
    /// The record was read, and its line number was not set yet.
    NotAssignedYet,
}

/// How two positions compare. Two lines compare as their numbers do. A new
/// record comes after a record on a line, and a record on a line before a
/// new one. Any other two positions do not compare.
pub open spec fn position_order(a: Position, b: Position) -> Option<Ordering> {
    match (a, b) {
        (Position::At(n), Position::At(o)) => Some(
            if n < o {
                Ordering::Less
            } else if n == o {
                Ordering::Equal
            } else {
                Ordering::Greater
            },
        ),
        (Position::NewToFile, Position::At(_)) => Some(Ordering::Greater),
        (Position::At(_), Position::NewToFile) => Some(Ordering::Less),
        _ => None,
    }
}

impl PartialOrd for Position {
    /// How the position compares with `other`, where the two compare.
    fn partial_cmp(&self, other: &Self) -> (r: Option<Ordering>) {
        match (self, other) {
            (Position::At(n), Position::At(o)) => Some(
                if *n < *o {
                    Ordering::Less
                } else if *n == *o {
                    Ordering::Equal
                } else {
                    Ordering::Greater
                },
            ),
            (Position::NewToFile, Position::At(_)) => Some(Ordering::Greater),
            (Position::At(_), Position::NewToFile) => Some(Ordering::Less),
            _ => None,
        }
    }
}

impl PartialOrdSpecImpl for Position {
    open spec fn obeys_partial_cmp_spec() -> bool {
        true
    }

    open spec fn partial_cmp_spec(&self, other: &Self) -> Option<Ordering> {
        position_order(*self, *other)
    }
}

/// How two numbers compare.
pub open spec fn number_order(a: u32, b: u32) -> Ordering {
    if a < b {
        Ordering::Less
    } else if a == b {
        Ordering::Equal
    } else {
        Ordering::Greater
    }
}

impl PartialOrd for User {
    /// Users compare as their numbers do.
    fn partial_cmp(&self, other: &Self) -> (r: Option<Ordering>) {
        let a = self.get_uid();
        let b = other.get_uid();
        Some(
            if a < b {
                Ordering::Less
            } else if a == b {
                Ordering::Equal
            } else {
                Ordering::Greater
            },
        )
    }
}

impl PartialOrdSpecImpl for User {
    open spec fn obeys_partial_cmp_spec() -> bool {
        true
    }

    open spec fn partial_cmp_spec(&self, other: &Self) -> Option<Ordering> {
        Some(number_order(self@.uid, other@.uid))
    }
}

} // verus!
