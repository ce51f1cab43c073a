//! How two texts differ.
use vstd::prelude::*;

verus! {

/// A part of a comparison of two texts.
#[derive(Debug, Clone, PartialEq, Eq)]
pub enum Difference {
    /// What both texts hold.
    Same(String),
    /// What only the second text holds.
    Add(String),
    /// What only the first text holds.
    Rem(String),
}

/// A part of a comparison as a mathematical value.
pub enum DifferenceView {
    Same(Seq<char>),
    Add(Seq<char>),
    Rem(Seq<char>),
}

impl View for Difference {
    type V = DifferenceView;

    open spec fn view(&self) -> DifferenceView {
        match self {
            Difference::Same(s) => DifferenceView::Same(s@),
            Difference::Add(s) => DifferenceView::Add(s@),
            Difference::Rem(s) => DifferenceView::Rem(s@),
        }
    }
}

/// The views of the parts of a comparison.
pub open spec fn difference_views(diffs: Seq<Difference>) -> Seq<DifferenceView> {
    Seq::new(diffs.len(), |i: int| diffs[i]@)
}

/// The parts that the crate `difference` finds when it compares `orig`
/// with `edit`, both split at `split`: in the order of the texts, with
/// neighbours of one kind merged into one part.
pub uninterp spec fn changeset_diffs(orig: Seq<char>, edit: Seq<char>, split: Seq<char>) -> Seq<DifferenceView>;

/// Calls `Changeset::new` of the crate `difference` and hands back its
/// field `diffs`, each part as a `Difference` of this library. The crate
/// finds a longest common subsequence of the pieces of the two texts and
/// reads the parts off it; what it finds depends on the three texts alone.
#[verifier::external_body]
pub(crate) fn changeset(orig: &str, edit: &str, split: &str) -> (r: Vec<Difference>)
    ensures
        difference_views(r@) == changeset_diffs(orig@, edit@, split@),
{
    difference::Changeset::new(orig, edit, split).diffs.into_iter().map(
        |d| match d {
            difference::Difference::Same(s) => Difference::Same(s),
            difference::Difference::Add(s) => Difference::Add(s),
            difference::Difference::Rem(s) => Difference::Rem(s),
        },
    ).collect()
}

/// The parts that are not common to both texts, in their order.
pub open spec fn changed(diffs: Seq<DifferenceView>) -> Seq<DifferenceView>
    decreases diffs.len(),
{
    if diffs.len() == 0 {
        diffs
    } else if diffs.last() is Same {
        changed(diffs.drop_last())
    } else {
        changed(diffs.drop_last()).push(diffs.last())
    }
}

/// Keeps the parts that are not common to both texts.
pub fn changed_parts(diffs: Vec<Difference>) -> (r: Vec<Difference>)
    ensures
        difference_views(r@) == changed(difference_views(diffs@)),
{
    let ghost all = difference_views(diffs@);
    let ghost mut done: int = 0;
    let mut kept: Vec<Difference> = Vec::new();
    assert(all.take(0) == Seq::<DifferenceView>::empty());
    assert(difference_views(kept@) == Seq::<DifferenceView>::empty());
    for d in it: diffs
        invariant
            0 <= done <= all.len(),
            done == it.index(),
            it.seq() == diffs@,
            all == difference_views(diffs@),
            difference_views(kept@) == changed(all.take(done)),
    {
        let ghost upto = all.take(done + 1);
        assert(upto.drop_last() == all.take(done));
        assert(upto.last() == d@);
        match d {
            Difference::Same(_) => {},
            other => {
                let ghost before = difference_views(kept@);
                kept.push(other);
                assert(difference_views(kept@) == before.push(d@));
            },
        }
        proof {
            done = done + 1;
        }
    }
    assert(all.take(all.len() as int) == all);
    kept
}

} // verus!
