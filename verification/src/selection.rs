//! The host's selection, modelled as plain values: an ordered, non-empty
//! sequence of ranges over a document, with one range designated primary.

use vstd::prelude::*;

verus! {

/// One selection range: `anchor` is where the selection started, `head` is
/// where the cursor stands. Either end may come first.
#[derive(Clone, Copy, PartialEq, Eq, Structural, Debug)]
pub struct Range {
    pub anchor: usize,
    pub head: usize,
}

/// The mathematical value of a [`Selection`].
pub struct SelectionModel {
    pub ranges: Seq<Range>,
    pub primary_index: usize,
}

/// An ordered set of ranges with a designated primary range.
#[derive(Clone, Debug)]
pub struct Selection {
    pub ranges: Vec<Range>,
    pub primary_index: usize,
}

impl View for Selection {
    type V = SelectionModel;

    open spec fn view(&self) -> SelectionModel {
        SelectionModel { ranges: self.ranges@, primary_index: self.primary_index }
    }
}

impl Selection {
    /// A selection always holds at least one range, and its primary index
    /// names one of them.
    pub open spec fn wf(self) -> bool {
        self.ranges@.len() >= 1 && self.primary_index < self.ranges@.len()
    }

    /// Builds a selection from its ranges and the index of the primary range.
    pub fn new(ranges: Vec<Range>, primary_index: usize) -> (r: Selection)
        requires
            ranges@.len() >= 1,
            primary_index < ranges@.len(),
        ensures
            r@.ranges == ranges@,
            r@.primary_index == primary_index,
            r.wf(),
    {
        Selection { ranges, primary_index }
    }
}

} // verus!
