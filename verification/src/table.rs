//! A project's slot table: a sparse mapping from user-chosen integer indices
//! to records, held sorted by index so a listing comes out in ascending
//! order whatever the order of insertion.

use vstd::prelude::*;
use crate::record::{File, FileModel, spans_of_ranges};
use crate::selection::Selection;

verus! {

/// Whether the table holds a record at index `k`.
pub open spec fn has_slot(t: Seq<(usize, FileModel)>, k: usize) -> bool {
    exists|j: int| 0 <= j < t.len() && t[j].0 == k
}

/// The record the table holds at index `k` (meaningful when `has_slot`).
pub open spec fn slot_at(t: Seq<(usize, FileModel)>, k: usize) -> FileModel {
    t[choose|j: int| 0 <= j < t.len() && t[j].0 == k].1
}

/// Whether the table's entries are sorted by strictly increasing index; this
/// also makes every index occur at most once.
pub open spec fn sorted_by_index(t: Seq<(usize, FileModel)>) -> bool {
    forall|i: int, j: int| 0 <= i < j < t.len() ==> t[i].0 < t[j].0
}

/// Whether some record of the table bookmarks `path`.
pub open spec fn has_path(t: Seq<(usize, FileModel)>, path: Seq<char>) -> bool {
    exists|j: int| 0 <= j < t.len() && t[j].1.path == path
}

/// At a sorted table's entry `i`, lookup by that entry's index finds exactly
/// that entry.
pub proof fn lemma_slot_at_entry(t: Seq<(usize, FileModel)>, k: usize, i: int)
    requires
        sorted_by_index(t),
        0 <= i < t.len(),
        t[i].0 == k,
    ensures
        has_slot(t, k),
        slot_at(t, k) == t[i].1,
{
    assert(has_slot(t, k));
    let j = choose|j: int| 0 <= j < t.len() && t[j].0 == k;
    if j < i {
        assert(t[j].0 < t[i].0);
    } else if i < j {
        assert(t[i].0 < t[j].0);
    }
}

/// Law: a sorted table is canonical: two sorted tables that hold the same
/// records at the same indices are the same sequence. A listing therefore
/// comes out sorted by index ascending, and depends only on which records
/// stand at which indices, never on the order they were inserted in.
pub proof fn lemma_table_canonical(t1: Seq<(usize, FileModel)>, t2: Seq<(usize, FileModel)>)
    requires
        sorted_by_index(t1),
        sorted_by_index(t2),
        forall|k: usize| #[trigger] has_slot(t1, k) == has_slot(t2, k),
        forall|k: usize| has_slot(t1, k) ==> #[trigger] slot_at(t1, k) == slot_at(t2, k),
    ensures
        t1 == t2,
    decreases t1.len(),
{
    if t1.len() == 0 {
        if t2.len() > 0 {
            assert(has_slot(t2, t2[0].0));
            assert(has_slot(t1, t2[0].0));
            let j = choose|j: int| 0 <= j < t1.len() && t1[j].0 == t2[0].0;
            assert(false);
        }
        assert(t1 =~= t2);
    } else {
        assert(has_slot(t1, t1[0].0));
        assert(has_slot(t2, t1[0].0));
        if t2.len() == 0 {
            let j = choose|j: int| 0 <= j < t2.len() && t2[j].0 == t1[0].0;
            assert(false);
        }
        assert(has_slot(t2, t2[0].0));
        assert(has_slot(t1, t2[0].0));
        let j2 = choose|j: int| 0 <= j < t2.len() && t2[j].0 == t1[0].0;
        let j1 = choose|j: int| 0 <= j < t1.len() && t1[j].0 == t2[0].0;
        if j2 > 0 {
            assert(t2[0].0 < t2[j2].0);
        }
        if j1 > 0 {
            assert(t1[0].0 < t1[j1].0);
        }
        assert(t1[0].0 == t2[0].0);
        lemma_slot_at_entry(t1, t1[0].0, 0);
        lemma_slot_at_entry(t2, t1[0].0, 0);
        assert(t1[0].1 == t2[0].1);
        let u1 = t1.drop_first();
        let u2 = t2.drop_first();
        assert forall|a: int, b: int| 0 <= a < b < u1.len() implies u1[a].0 < u1[b].0 by {
            assert(t1[a + 1].0 < t1[b + 1].0);
        }
        assert forall|a: int, b: int| 0 <= a < b < u2.len() implies u2[a].0 < u2[b].0 by {
            assert(t2[a + 1].0 < t2[b + 1].0);
        }
        assert forall|k: usize| #[trigger] has_slot(u1, k) == has_slot(u2, k) by {
            if has_slot(u1, k) {
                let j = choose|j: int| 0 <= j < u1.len() && u1[j].0 == k;
                assert(t1[j + 1].0 == k);
                assert(t1[0].0 < t1[j + 1].0);
                assert(has_slot(t1, k));
                assert(has_slot(t2, k));
                let l = choose|l: int| 0 <= l < t2.len() && t2[l].0 == k;
                assert(l != 0);
                assert(u2[l - 1].0 == k);
            }
            if has_slot(u2, k) {
                let j = choose|j: int| 0 <= j < u2.len() && u2[j].0 == k;
                assert(t2[j + 1].0 == k);
                assert(t2[0].0 < t2[j + 1].0);
                assert(has_slot(t2, k));
                assert(has_slot(t1, k));
                let l = choose|l: int| 0 <= l < t1.len() && t1[l].0 == k;
                assert(l != 0);
                assert(u1[l - 1].0 == k);
            }
        }
        assert forall|k: usize| has_slot(u1, k) implies #[trigger] slot_at(u1, k) == slot_at(
            u2,
            k,
        ) by {
            let j = choose|j: int| 0 <= j < u1.len() && u1[j].0 == k;
            assert(t1[j + 1].0 == k);
            assert(t1[0].0 < t1[j + 1].0);
            lemma_slot_at_entry(t1, k, j + 1);
            lemma_slot_at_entry(u1, k, j);
            assert(has_slot(t2, k));
            let l = choose|l: int| 0 <= l < t2.len() && t2[l].0 == k;
            assert(l != 0);
            lemma_slot_at_entry(t2, k, l);
            assert(u2[l - 1].0 == k);
            lemma_slot_at_entry(u2, k, l - 1);
        }
        lemma_table_canonical(u1, u2);
        assert forall|i: int| 0 <= i < t1.len() implies t1[i] == t2[i] by {
            if i > 0 {
                assert(t1[i] == u1[i - 1]);
                assert(t2[i] == u2[i - 1]);
            }
        }
        assert(t1 =~= t2);
    }
}

/// One project's table of bookmarks.
#[derive(Clone, Debug)]
pub struct Project {
    pub files: Vec<(usize, File)>,
}

impl View for Project {
    type V = Seq<(usize, FileModel)>;

    open spec fn view(&self) -> Seq<(usize, FileModel)> {
        self.files@.map_values(|e: (usize, File)| (e.0, e.1@))
    }
}

impl Project {
    /// Entries are sorted by strictly increasing index, and every record
    /// holds at least one span.
    pub open spec fn wf(self) -> bool {
        sorted_by_index(self@) && (forall|j: int|
            0 <= j < self@.len() ==> self@[j].1.spans.len() >= 1)
    }

    /// An empty table.
    pub fn new() -> (r: Project)
        ensures
            r@ =~= Seq::<(usize, FileModel)>::empty(),
            r.wf(),
    {
        Project { files: Vec::new() }
    }

    /// Looks up the record at `index`, if any.
    pub fn get(&self, index: usize) -> (r: Option<&File>)
        requires
            self.wf(),
        ensures
            match r {
                Some(f) => has_slot(self@, index) && f@ == slot_at(self@, index) && f.wf(),
                None => !has_slot(self@, index),
            },
    {
        let n = self.files.len();
        let mut i: usize = 0;
        while i < n
            invariant
                self.wf(),
                i <= n,
                n == self.files@.len(),
                forall|j: int| 0 <= j < i ==> self@[j].0 != index,
            decreases n - i,
        {
            if self.files[i].0 == index {
                proof {
                    lemma_slot_at_entry(self@, index, i as int);
                }
                return Some(&self.files[i].1);
            }
            i += 1;
        }
        None
    }

    /// Inserts or overwrites the record at `index`; every other slot is left
    /// as it was.
    pub fn set(&mut self, index: usize, file: File)
        requires
            old(self).wf(),
            file.wf(),
        ensures
            final(self).wf(),
            has_slot(final(self)@, index),
            slot_at(final(self)@, index) == file@,
            forall|k: usize|
                k != index ==> #[trigger] has_slot(final(self)@, k) == has_slot(old(self)@, k),
            forall|k: usize|
                k != index && has_slot(old(self)@, k) ==> #[trigger] slot_at(final(self)@, k)
                    == slot_at(old(self)@, k),
    {
        let ghost t0 = self@;
        let n = self.files.len();
        let mut pos: usize = 0;
        while pos < n && self.files[pos].0 < index
            invariant
                self.wf(),
                self@ == t0,
                pos <= n,
                n == self.files@.len(),
                forall|j: int| 0 <= j < pos ==> self@[j].0 < index,
            decreases n - pos,
        {
            pos += 1;
        }
        if pos < n && self.files[pos].0 == index {
            let _ = self.files.remove(pos);
        }
        self.files.insert(pos, (index, file));
        proof {
            let t = self@;
            if pos < t0.len() && t0[pos as int].0 == index {
                assert(t =~= t0.update(pos as int, (index, file@)));
                assert forall|i: int, j: int| 0 <= i < j < t.len() implies t[i].0 < t[j].0 by {
                    assert(t0[i].0 < t0[j].0);
                }
                lemma_slot_at_entry(t, index, pos as int);
                assert forall|k: usize| k != index implies #[trigger] has_slot(t, k) == has_slot(
                    t0,
                    k,
                ) by {
                    if has_slot(t, k) {
                        let j = choose|j: int| 0 <= j < t.len() && t[j].0 == k;
                        assert(t0[j].0 == k);
                    }
                    if has_slot(t0, k) {
                        let j = choose|j: int| 0 <= j < t0.len() && t0[j].0 == k;
                        assert(t[j].0 == k);
                    }
                }
                assert forall|k: usize| k != index && has_slot(t0, k) implies #[trigger] slot_at(
                    t,
                    k,
                ) == slot_at(t0, k) by {
                    let j = choose|j: int| 0 <= j < t0.len() && t0[j].0 == k;
                    lemma_slot_at_entry(t0, k, j);
                    assert(t[j].0 == k);
                    lemma_slot_at_entry(t, k, j);
                }
            } else {
                assert(t =~= t0.insert(pos as int, (index, file@)));
                assert(pos < t.len() && t[pos as int].0 == index);
                assert forall|i: int, j: int| 0 <= i < j < t.len() implies t[i].0 < t[j].0 by {
                    if j < pos {
                        assert(t0[i].0 < t0[j].0);
                    } else if pos < i {
                        assert(t0[i - 1].0 < t0[j - 1].0);
                        assert(t0[pos as int].0 > index);
                    } else if i < pos && j == pos {
                        assert(t0[i].0 < index);
                    } else if i < pos && j > pos {
                        assert(t0[i].0 < index);
                        if j - 1 == pos {
                            assert(t0[pos as int].0 > index);
                        } else {
                            assert(t0[pos as int].0 > index);
                            assert(t0[pos as int].0 < t0[j - 1].0);
                        }
                    } else if i == pos {
                        assert(t0[j - 1].0 >= t0[pos as int].0);
                        assert(t0[pos as int].0 > index);
                    }
                }
                lemma_slot_at_entry(t, index, pos as int);
                assert forall|k: usize| k != index implies #[trigger] has_slot(t, k) == has_slot(
                    t0,
                    k,
                ) by {
                    if has_slot(t, k) {
                        let j = choose|j: int| 0 <= j < t.len() && t[j].0 == k;
                        if j < pos {
                            assert(t0[j].0 == k);
                        } else {
                            assert(t0[j - 1].0 == k);
                        }
                    }
                    if has_slot(t0, k) {
                        let j = choose|j: int| 0 <= j < t0.len() && t0[j].0 == k;
                        if j < pos {
                            assert(t[j].0 == k);
                        } else {
                            assert(t[j + 1].0 == k);
                        }
                    }
                }
                assert forall|k: usize| k != index && has_slot(t0, k) implies #[trigger] slot_at(
                    t,
                    k,
                ) == slot_at(t0, k) by {
                    let j = choose|j: int| 0 <= j < t0.len() && t0[j].0 == k;
                    lemma_slot_at_entry(t0, k, j);
                    if j < pos {
                        assert(t[j].0 == k);
                        lemma_slot_at_entry(t, k, j);
                    } else {
                        assert(t[j + 1].0 == k);
                        lemma_slot_at_entry(t, k, j + 1);
                    }
                }
            }
        }
    }

    /// Removes and returns the record at `index`, if any; every other slot
    /// is left as it was.
    pub fn remove(&mut self, index: usize) -> (r: Option<File>)
        requires
            old(self).wf(),
        ensures
            final(self).wf(),
            match r {
                Some(f) => has_slot(old(self)@, index) && f@ == slot_at(old(self)@, index)
                    && !has_slot(final(self)@, index),
                None => !has_slot(old(self)@, index) && final(self)@ == old(self)@,
            },
            forall|k: usize|
                k != index ==> #[trigger] has_slot(final(self)@, k) == has_slot(old(self)@, k),
            forall|k: usize|
                k != index && has_slot(old(self)@, k) ==> #[trigger] slot_at(final(self)@, k)
                    == slot_at(old(self)@, k),
    {
        let ghost t0 = self@;
        let n = self.files.len();
        let mut i: usize = 0;
        while i < n
            invariant
                self.wf(),
                self@ == t0,
                t0 == old(self)@,
                i <= n,
                n == self.files@.len(),
                forall|j: int| 0 <= j < i ==> self@[j].0 != index,
            decreases n - i,
        {
            if self.files[i].0 == index {
                proof {
                    lemma_slot_at_entry(t0, index, i as int);
                }
                let e = self.files.remove(i);
                proof {
                    let t = self@;
                    assert(t =~= t0.remove(i as int));
                    assert forall|a: int, b: int| 0 <= a < b < t.len() implies t[a].0 < t[b].0 by {
                        if b < i {
                            assert(t0[a].0 < t0[b].0);
                        } else if a < i {
                            assert(t0[a].0 < t0[b + 1].0);
                        } else {
                            assert(t0[a + 1].0 < t0[b + 1].0);
                        }
                    }
                    assert forall|k: usize| k != index implies #[trigger] has_slot(t, k)
                        == has_slot(t0, k) by {
                        if has_slot(t, k) {
                            let j = choose|j: int| 0 <= j < t.len() && t[j].0 == k;
                            if j < i {
                                assert(t0[j].0 == k);
                            } else {
                                assert(t0[j + 1].0 == k);
                            }
                        }
                        if has_slot(t0, k) {
                            let j = choose|j: int| 0 <= j < t0.len() && t0[j].0 == k;
                            if j < i {
                                assert(t[j].0 == k);
                            } else {
                                assert(j != i);
                                assert(t[j - 1].0 == k);
                            }
                        }
                    }
                    assert forall|k: usize| k != index && has_slot(t0, k) implies #[trigger]
                        slot_at(t, k) == slot_at(t0, k) by {
                        let j = choose|j: int| 0 <= j < t0.len() && t0[j].0 == k;
                        lemma_slot_at_entry(t0, k, j);
                        if j < i {
                            assert(t[j].0 == k);
                            lemma_slot_at_entry(t, k, j);
                        } else {
                            assert(j != i);
                            assert(t[j - 1].0 == k);
                            lemma_slot_at_entry(t, k, j - 1);
                        }
                    }
                    assert(!has_slot(t, index)) by {
                        if has_slot(t, index) {
                            let j = choose|j: int| 0 <= j < t.len() && t[j].0 == index;
                            if j < i {
                                assert(t0[j].0 == index);
                                assert(false);
                            } else {
                                assert(t0[j + 1].0 == index);
                                assert(t0[i as int].0 < t0[j + 1].0);
                                assert(false);
                            }
                        }
                    }
                }
                return Some(e.1);
            }
            i += 1;
        }
        None
    }

    /// Replaces the spans of the first record (in index order) that
    /// bookmarks `path`; a table without such a record is left unchanged.
    pub fn update_path(&mut self, path: &String, selection: &Selection) -> (r: bool)
        requires
            old(self).wf(),
            selection.wf(),
        ensures
            final(self).wf(),
            !has_path(old(self)@, path@) ==> !r && final(self)@ == old(self)@,
            has_path(old(self)@, path@) ==> r,
            r ==> exists|j: int|
                #![auto]
                0 <= j < old(self)@.len() && old(self)@[j].1.path == path@ && (forall|l: int|
                    0 <= l < j ==> old(self)@[l].1.path != path@) && final(self)@ == old(self)@.update(
                    j,
                    (
                        old(self)@[j].0,
                        FileModel {
                            path: old(self)@[j].1.path,
                            spans: spans_of_ranges(selection@.ranges),
                        },
                    ),
                ),
    {
        let ghost t0 = self@;
        let n = self.files.len();
        let mut i: usize = 0;
        while i < n
            invariant
                self.wf(),
                self@ == t0,
                t0 == old(self)@,
                i <= n,
                n == self.files@.len(),
                selection.wf(),
                forall|j: int| 0 <= j < i ==> self@[j].1.path != path@,
            decreases n - i,
        {
            let matches_here = self.files[i].1.path == *path;
            if matches_here {
                let (k, mut f) = self.files.remove(i);
                f.update_selection(selection);
                self.files.insert(i, (k, f));
                proof {
                    let t = self@;
                    assert(t =~= t0.update(
                        i as int,
                        (
                            t0[i as int].0,
                            FileModel {
                                path: t0[i as int].1.path,
                                spans: spans_of_ranges(selection@.ranges),
                            },
                        ),
                    ));
                    assert forall|a: int, b: int| 0 <= a < b < t.len() implies t[a].0 < t[b].0 by {
                        assert(t0[a].0 < t0[b].0);
                    }
                }
                return true;
            }
            i += 1;
        }
        false
    }
}

} // verus!
