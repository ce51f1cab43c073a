//! Records with the number of their line.
use std::cmp::Ordering;
use vstd::prelude::*;
use vstd::std_specs::cmp::PartialOrdSpecImpl;

verus! {

/// A value together with the number of the line that it was read from.
#[derive(Debug, Eq, PartialEq, Clone)]
pub struct Numbered<T> where T: Clone {
    pub pos: usize,
    pub value: T,
}

/// A numbered value as a mathematical value.
pub struct NumberedView<V> {
    pub pos: usize,
    pub value: V,
}

impl<T: Clone + View> View for Numbered<T> {
    type V = NumberedView<T::V>;

    open spec fn view(&self) -> NumberedView<T::V> {
        NumberedView { pos: self.pos, value: self.value@ }
    }
}

impl<T: Clone> std::ops::Deref for Numbered<T> {
    type Target = T;

    fn deref(&self) -> (r: &T)
        ensures
            *r == self.value,
    {
        &self.value
    }
}

impl<T: Clone> std::ops::DerefMut for Numbered<T> {
    fn deref_mut(&mut self) -> (r: &mut T)
        ensures
            *r == old(self).value,
            *final(self) == (Numbered { pos: old(self).pos, value: *final(r) }),
    {
        &mut self.value
    }
}

/// How two line numbers compare.
pub open spec fn line_order(a: usize, b: usize) -> Ordering {
    if a < b {
        Ordering::Less
    } else if a == b {
        Ordering::Equal
    } else {
        Ordering::Greater
    }
}

impl<T: Clone + PartialEq> PartialOrd for Numbered<T> {
    /// Numbered values compare as the numbers of their lines do.
    fn partial_cmp(&self, other: &Self) -> (r: Option<Ordering>) {
        Some(
            if self.pos < other.pos {
                Ordering::Less
            } else if self.pos == other.pos {
                Ordering::Equal
            } else {
                Ordering::Greater
            },
        )
    }
}

impl<T: Clone + PartialEq> PartialOrdSpecImpl for Numbered<T> {
    open spec fn obeys_partial_cmp_spec() -> bool {
        true
    }

    open spec fn partial_cmp_spec(&self, other: &Self) -> Option<Ordering> {
        Some(line_order(self.pos, other.pos))
    }
}

} // verus!
