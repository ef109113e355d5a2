//! One bookmark: a path plus the spans of the selection to restore, and the
//! codec between spans and the host's selection ranges.

use vstd::prelude::*;
use crate::selection::{Range, Selection, SelectionModel};

verus! {

/// One stored selection range: `start` is the anchor, `end` the head.
#[derive(Clone, Copy, PartialEq, Eq, Structural, Debug)]
pub struct Span {
    pub start: usize,
    pub end: usize,
}

/// The mathematical value of a [`File`].
pub struct FileModel {
    pub path: Seq<char>,
    pub spans: Seq<Span>,
}

/// One bookmarked location: a path (relative to the project root when the
/// file lies under it) and the non-empty spans of its saved selection.
#[derive(Clone, Debug)]
pub struct File {
    pub path: String,
    pub spans: Vec<Span>,
}

/// The span that stores one selection range.
pub open spec fn span_of_range(r: Range) -> Span {
    Span { start: r.anchor, end: r.head }
}

/// The selection range a stored span restores.
pub open spec fn range_of_span(s: Span) -> Range {
    Range { anchor: s.start, head: s.end }
}

/// The stored spans of a selection's ranges, in range order.
pub open spec fn spans_of_ranges(rs: Seq<Range>) -> Seq<Span> {
    rs.map_values(|r: Range| span_of_range(r))
}

/// The selection a record restores: one range per span, in span order, with
/// the primary range fixed at index 0.
pub open spec fn selection_of_spans(spans: Seq<Span>) -> SelectionModel {
    SelectionModel { ranges: spans.map_values(|s: Span| range_of_span(s)), primary_index: 0 }
}

/// The record that bookmarks `path` with selection `sel`.
pub open spec fn record_of(path: Seq<char>, sel: SelectionModel) -> FileModel {
    FileModel { path: path, spans: spans_of_ranges(sel.ranges) }
}

impl View for File {
    type V = FileModel;

    open spec fn view(&self) -> FileModel {
        FileModel { path: self.path@, spans: self.spans@ }
    }
}

impl File {
    /// A record always holds at least one span: it was built from a
    /// selection, and a selection always has at least one range.
    pub open spec fn wf(self) -> bool {
        self.spans@.len() >= 1
    }

    /// Builds a record bookmarking `path` with the given selection's ranges,
    /// one span per range, in range order. `path` is stored as given: the
    /// caller normalizes it first.
    pub fn new(path: String, selection: &Selection) -> (r: File)
        requires
            selection.wf(),
        ensures
            r@ == record_of(path@, selection@),
            r.wf(),
    {
        let mut spans: Vec<Span> = Vec::new();
        let n = selection.ranges.len();
        let mut i: usize = 0;
        while i < n
            invariant
                i <= n,
                n == selection.ranges@.len(),
                spans@ == spans_of_ranges(selection.ranges@.take(i as int)),
            decreases n - i,
        {
            let r = selection.ranges[i];
            spans.push(Span { start: r.anchor, end: r.head });
            proof {
                assert(selection.ranges@.take(i + 1).drop_last() =~= selection.ranges@.take(
                    i as int,
                ));
                assert(spans@ =~= spans_of_ranges(selection.ranges@.take(i + 1)));
            }
            i += 1;
        }
        proof {
            assert(selection.ranges@.take(n as int) =~= selection.ranges@);
        }
        File { path, spans }
    }

    /// Replaces the stored spans wholesale from the given selection; the path
    /// is left untouched.
    pub fn update_selection(&mut self, selection: &Selection)
        requires
            selection.wf(),
        ensures
            final(self)@.path == old(self)@.path,
            final(self)@.spans == spans_of_ranges(selection@.ranges),
            final(self).wf(),
    {
        let mut spans: Vec<Span> = Vec::new();
        let n = selection.ranges.len();
        let mut i: usize = 0;
        while i < n
            invariant
                i <= n,
                n == selection.ranges@.len(),
                spans@ == spans_of_ranges(selection.ranges@.take(i as int)),
            decreases n - i,
        {
            let r = selection.ranges[i];
            spans.push(Span { start: r.anchor, end: r.head });
            proof {
                assert(selection.ranges@.take(i + 1).drop_last() =~= selection.ranges@.take(
                    i as int,
                ));
                assert(spans@ =~= spans_of_ranges(selection.ranges@.take(i + 1)));
            }
            i += 1;
        }
        proof {
            assert(selection.ranges@.take(n as int) =~= selection.ranges@);
        }
        self.spans = spans;
    }

    /// Rebuilds the selection this record restores: one range per span, in
    /// span order, primary range at index 0.
    pub fn as_selection(&self) -> (r: Selection)
        requires
            self.wf(),
        ensures
            r@ == selection_of_spans(self@.spans),
            r.wf(),
    {
        let mut ranges: Vec<Range> = Vec::new();
        let n = self.spans.len();
        let mut i: usize = 0;
        while i < n
            invariant
                i <= n,
                n == self.spans@.len(),
                ranges@ == self.spans@.take(i as int).map_values(|s: Span| range_of_span(s)),
            decreases n - i,
        {
            let s = self.spans[i];
            ranges.push(Range { anchor: s.start, head: s.end });
            proof {
                assert(self.spans@.take(i + 1).drop_last() =~= self.spans@.take(i as int));
                assert(ranges@ =~= self.spans@.take(i + 1).map_values(
                    |s: Span| range_of_span(s),
                ));
            }
            i += 1;
        }
        proof {
            assert(self.spans@.take(n as int) =~= self.spans@);
        }
        Selection::new(ranges, 0)
    }
}

/// Law: rebuilding a selection from the record that stored it gives back the
/// same ranges in the same order, with the primary range at index 0. Holds
/// for every selection with at least one range.
pub proof fn lemma_selection_round_trip(path: Seq<char>, sel: SelectionModel)
    ensures
        selection_of_spans(record_of(path, sel).spans).ranges =~= sel.ranges,
        selection_of_spans(record_of(path, sel).spans).primary_index == 0,
{
    let rt = selection_of_spans(record_of(path, sel).spans).ranges;
    assert forall|i: int| 0 <= i < sel.ranges.len() implies rt[i] == sel.ranges[i] by {
        assert(rt[i] == range_of_span(span_of_range(sel.ranges[i])));
    }
}

} // verus!
