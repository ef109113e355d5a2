//! The store: a table of projects keyed by working directory, each owning a
//! slot table of bookmarks. The whole store is the unit the host loads from
//! and saves to its backing file.

use vstd::prelude::*;
use crate::record::{File, FileModel, spans_of_ranges};
use crate::selection::Selection;
use crate::table::{Project, has_slot, slot_at, has_path};

verus! {

/// The mathematical value of a [`Store`]: project roots with their tables.
pub type StoreModel = Seq<(Seq<char>, Seq<(usize, FileModel)>)>;

/// Whether the store holds a project rooted at `root`.
pub open spec fn has_root(s: StoreModel, root: Seq<char>) -> bool {
    exists|j: int| 0 <= j < s.len() && s[j].0 == root
}

/// The table of the project rooted at `root` (meaningful when `has_root`).
pub open spec fn table_at(s: StoreModel, root: Seq<char>) -> Seq<(usize, FileModel)> {
    s[choose|j: int| 0 <= j < s.len() && s[j].0 == root].1
}

/// Whether no two projects share a root.
pub open spec fn roots_unique(s: StoreModel) -> bool {
    forall|i: int, j: int| 0 <= i < j < s.len() ==> s[i].0 != s[j].0
}

/// At a store's entry `i`, lookup by that entry's root finds exactly that
/// entry.
pub proof fn lemma_root_at_entry(s: StoreModel, root: Seq<char>, i: int)
    requires
        roots_unique(s),
        0 <= i < s.len(),
        s[i].0 == root,
    ensures
        has_root(s, root),
        table_at(s, root) == s[i].1,
{
    assert(has_root(s, root));
    let j = choose|j: int| 0 <= j < s.len() && s[j].0 == root;
    if j != i {
        assert(s[i].0 != s[j].0 || s[j].0 != s[i].0);
    }
}

/// Replacing one entry of a store in place, keeping its root, preserves
/// root uniqueness, puts the new table under that root, and moves no other
/// project.
pub proof fn lemma_store_update_entry(
    s0: StoreModel,
    s: StoreModel,
    pos: int,
    root: Seq<char>,
    t: Seq<(usize, FileModel)>,
)
    requires
        roots_unique(s0),
        0 <= pos < s0.len(),
        s0[pos].0 == root,
        s == s0.update(pos, (root, t)),
    ensures
        roots_unique(s),
        has_root(s, root),
        table_at(s, root) == t,
        forall|r: Seq<char>| r != root ==> #[trigger] has_root(s, r) == has_root(s0, r),
        forall|r: Seq<char>|
            r != root && has_root(s0, r) ==> #[trigger] table_at(s, r) == table_at(s0, r),
{
    assert forall|i: int, j: int| 0 <= i < j < s.len() implies s[i].0 != s[j].0 by {
        assert(s0[i].0 != s0[j].0);
    }
    lemma_root_at_entry(s, root, pos);
    assert forall|r: Seq<char>| r != root implies #[trigger] has_root(s, r) == has_root(s0, r) by {
        if has_root(s, r) {
            let j = choose|j: int| 0 <= j < s.len() && s[j].0 == r;
            assert(s0[j].0 == r);
        }
        if has_root(s0, r) {
            let j = choose|j: int| 0 <= j < s0.len() && s0[j].0 == r;
            assert(s[j].0 == r);
        }
    }
    assert forall|r: Seq<char>| r != root && has_root(s0, r) implies #[trigger] table_at(s, r)
        == table_at(s0, r) by {
        let j = choose|j: int| 0 <= j < s0.len() && s0[j].0 == r;
        lemma_root_at_entry(s0, r, j);
        assert(s[j].0 == r);
        lemma_root_at_entry(s, r, j);
    }
}

/// Appending a fresh project with an empty table preserves root uniqueness,
/// puts the empty table under the new root, and moves no other project.
pub proof fn lemma_store_push_entry(s0: StoreModel, s: StoreModel, root: Seq<char>)
    requires
        roots_unique(s0),
        !has_root(s0, root),
        s == s0.push((root, Seq::<(usize, FileModel)>::empty())),
    ensures
        roots_unique(s),
        has_root(s, root),
        table_at(s, root) == Seq::<(usize, FileModel)>::empty(),
        forall|r: Seq<char>| r != root ==> #[trigger] has_root(s, r) == has_root(s0, r),
        forall|r: Seq<char>|
            r != root && has_root(s0, r) ==> #[trigger] table_at(s, r) == table_at(s0, r),
{
    assert forall|i: int, j: int| 0 <= i < j < s.len() implies s[i].0 != s[j].0 by {
        if j < s0.len() {
            assert(s0[i].0 != s0[j].0);
        } else {
            assert(s0[i].0 != root);
        }
    }
    lemma_root_at_entry(s, root, s0.len() as int);
    assert forall|r: Seq<char>| r != root implies #[trigger] has_root(s, r) == has_root(s0, r) by {
        if has_root(s, r) {
            let j = choose|j: int| 0 <= j < s.len() && s[j].0 == r;
            assert(s0[j].0 == r);
        }
        if has_root(s0, r) {
            let j = choose|j: int| 0 <= j < s0.len() && s0[j].0 == r;
            assert(s[j].0 == r);
        }
    }
    assert forall|r: Seq<char>| r != root && has_root(s0, r) implies #[trigger] table_at(s, r)
        == table_at(s0, r) by {
        let j = choose|j: int| 0 <= j < s0.len() && s0[j].0 == r;
        lemma_root_at_entry(s0, r, j);
        assert(s[j].0 == r);
        lemma_root_at_entry(s, r, j);
    }
}

/// How `set_file` changes a store: the record lands at `index` under
/// `root`, and nothing else moves.
pub open spec fn set_transition(
    pre: StoreModel,
    post: StoreModel,
    root: Seq<char>,
    index: usize,
    f: FileModel,
) -> bool {
    &&& has_root(post, root)
    &&& has_slot(table_at(post, root), index)
    &&& slot_at(table_at(post, root), index) == f
    &&& forall|k: usize|
        k != index ==> #[trigger] has_slot(table_at(post, root), k) == (has_root(pre, root)
            && has_slot(table_at(pre, root), k))
    &&& forall|k: usize|
        k != index && has_root(pre, root) && has_slot(table_at(pre, root), k)
            ==> #[trigger] slot_at(table_at(post, root), k) == slot_at(table_at(pre, root), k)
    &&& forall|r: Seq<char>| r != root ==> #[trigger] has_root(post, r) == has_root(pre, r)
    &&& forall|r: Seq<char>|
        r != root && has_root(pre, r) ==> #[trigger] table_at(post, r) == table_at(pre, r)
}

/// How `remove_file` changes a store: at most the slot at `index` under
/// `root` goes away, and nothing else moves.
pub open spec fn remove_transition(
    pre: StoreModel,
    post: StoreModel,
    root: Seq<char>,
    index: usize,
) -> bool {
    &&& has_root(post, root) == has_root(pre, root)
    &&& has_root(pre, root) ==> !has_slot(table_at(post, root), index)
    &&& forall|k: usize|
        has_root(pre, root) && k != index ==> #[trigger] has_slot(table_at(post, root), k)
            == has_slot(table_at(pre, root), k)
    &&& forall|k: usize|
        has_root(pre, root) && k != index && has_slot(table_at(pre, root), k)
            ==> #[trigger] slot_at(table_at(post, root), k) == slot_at(table_at(pre, root), k)
    &&& forall|r: Seq<char>| r != root ==> #[trigger] has_root(post, r) == has_root(pre, r)
    &&& forall|r: Seq<char>|
        r != root && has_root(pre, r) ==> #[trigger] table_at(post, r) == table_at(pre, r)
}

/// The store of every project's bookmarks.
#[derive(Clone, Debug)]
pub struct Store {
    pub projects: Vec<(String, Project)>,
}

impl View for Store {
    type V = StoreModel;

    open spec fn view(&self) -> StoreModel {
        self.projects@.map_values(|e: (String, Project)| (e.0@, e.1@))
    }
}

/// Relies on std::path::Path::exists: whether the path names an entry that
/// exists on disk at the time of the call. Nothing is promised of the
/// result: it depends on the state of the filesystem.
#[verifier::external_body]
fn path_exists(path: &String) -> bool {
    std::path::Path::new(path.as_str()).exists()
}

/// Keeps a looked-up record only while its path is live: a stale record is
/// filtered to nothing.
pub fn filter_live<'a>(entry: Option<&'a File>, live: bool) -> (r: Option<&'a File>)
    ensures
        r == if live {
            entry
        } else {
            None::<&'a File>
        },
{
    if live {
        entry
    } else {
        None
    }
}

impl Store {
    /// No two projects share a root, and every table is well-formed.
    pub open spec fn wf(self) -> bool {
        roots_unique(self@) && (forall|j: int|
            0 <= j < self.projects@.len() ==> (#[trigger] self.projects@[j].1).wf())
    }

    /// An empty store: what the host starts from when no backing file
    /// exists yet.
    pub fn new() -> (r: Store)
        ensures
            r@ =~= Seq::<(Seq<char>, Seq<(usize, FileModel)>)>::empty(),
            r.wf(),
    {
        Store { projects: Vec::new() }
    }

    /// The position of the project rooted at `cwd`, if any.
    pub(crate) fn find_root(&self, cwd: &String) -> (r: Option<usize>)
        requires
            self.wf(),
        ensures
            match r {
                Some(pos) => pos < self.projects@.len() && self@[pos as int].0 == cwd@,
                None => !has_root(self@, cwd@),
            },
    {
        let n = self.projects.len();
        let mut i: usize = 0;
        while i < n
            invariant
                i <= n,
                n == self.projects@.len(),
                forall|j: int| 0 <= j < i ==> self@[j].0 != cwd@,
            decreases n - i,
        {
            if self.projects[i].0 == *cwd {
                return Some(i);
            }
            i += 1;
        }
        None
    }

    /// The position of the project rooted at `cwd`, inserting an empty one
    /// if absent.
    fn project_pos(&mut self, cwd: &String) -> (pos: usize)
        requires
            old(self).wf(),
        ensures
            final(self).wf(),
            pos < final(self).projects@.len(),
            final(self)@[pos as int].0 == cwd@,
            has_root(final(self)@, cwd@),
            table_at(final(self)@, cwd@) == final(self)@[pos as int].1,
            has_root(old(self)@, cwd@) ==> final(self)@ == old(self)@,
            !has_root(old(self)@, cwd@) ==> final(self)@ == old(self)@.push(
                (cwd@, Seq::<(usize, FileModel)>::empty()),
            ),
            forall|r: Seq<char>| r != cwd@ ==> #[trigger] has_root(final(self)@, r) == has_root(old(self)@, r),
            forall|r: Seq<char>|
                r != cwd@ && has_root(old(self)@, r) ==> #[trigger] table_at(final(self)@, r)
                    == table_at(old(self)@, r),
    {
        match self.find_root(cwd) {
            Some(pos) => {
                proof {
                    lemma_root_at_entry(self@, cwd@, pos as int);
                }
                pos
            },
            None => {
                let pos = self.projects.len();
                self.projects.push((cwd.clone(), Project::new()));
                proof {
                    assert(self@ =~= old(self)@.push((cwd@, Seq::<(usize, FileModel)>::empty())));
                    lemma_store_push_entry(old(self)@, self@, cwd@);
                }
                pos
            },
        }
    }

    /// The table of the project rooted at `cwd`, inserting an empty one if
    /// absent: the accessor every operation goes through.
    pub fn project(&mut self, cwd: &String) -> (p: &Project)
        requires
            old(self).wf(),
        ensures
            final(self).wf(),
            p.wf(),
            has_root(final(self)@, cwd@),
            p@ == table_at(final(self)@, cwd@),
            has_root(old(self)@, cwd@) ==> final(self)@ == old(self)@,
            !has_root(old(self)@, cwd@) ==> final(self)@ == old(self)@.push(
                (cwd@, Seq::<(usize, FileModel)>::empty()),
            ),
    {
        let pos = self.project_pos(cwd);
        &self.projects[pos].1
    }

    /// Inserts or overwrites the record at `index` in the current project's
    /// table, creating the project if it is new.
    pub fn set_file(&mut self, cwd: &String, index: usize, file: File)
        requires
            old(self).wf(),
            file.wf(),
        ensures
            final(self).wf(),
            set_transition(old(self)@, final(self)@, cwd@, index, file@),
    {
        let ghost s0 = self@;
        let pos = self.project_pos(cwd);
        let ghost s1 = self@;
        let (root, mut table) = self.projects.remove(pos);
        table.set(index, file);
        self.projects.insert(pos, (root, table));
        proof {
            assert(self@ =~= s1.update(pos as int, (cwd@, table@)));
            lemma_store_update_entry(s1, self@, pos as int, cwd@, table@);
            assert(table_at(s1, cwd@) == s1[pos as int].1);
        }
    }

    /// Removes and returns the record at `index` in the current project's
    /// table, if any; a store without that project or slot is unchanged.
    pub fn remove_file(&mut self, cwd: &String, index: usize) -> (r: Option<File>)
        requires
            old(self).wf(),
        ensures
            final(self).wf(),
            remove_transition(old(self)@, final(self)@, cwd@, index),
            match r {
                Some(f) => has_root(old(self)@, cwd@) && has_slot(
                    table_at(old(self)@, cwd@),
                    index,
                ) && f@ == slot_at(table_at(old(self)@, cwd@), index),
                None => final(self)@ == old(self)@ && !(has_root(old(self)@, cwd@) && has_slot(
                    table_at(old(self)@, cwd@),
                    index,
                )),
            },
    {
        let ghost s0 = self@;
        let pos = match self.find_root(cwd) {
            None => {
                return None;
            },
            Some(pos) => pos,
        };
        proof {
            lemma_root_at_entry(s0, cwd@, pos as int);
        }
        let (root, mut table) = self.projects.remove(pos);
        let r = table.remove(index);
        self.projects.insert(pos, (root, table));
        proof {
            assert(self@ =~= s0.update(pos as int, (cwd@, table@)));
            lemma_store_update_entry(s0, self@, pos as int, cwd@, table@);
            if r is None {
                assert(table@ == s0[pos as int].1);
                assert(self@ =~= s0);
            }
        }
        r
    }


    /// Replaces the spans of the first record (in index order) of the
    /// current project that bookmarks `path`; a store without that project
    /// or such a record is unchanged. Returns whether anything changed.
    pub fn update_path(&mut self, cwd: &String, path: &String, selection: &Selection) -> (r: bool)
        requires
            old(self).wf(),
            selection.wf(),
        ensures
            final(self).wf(),
            !(has_root(old(self)@, cwd@) && has_path(table_at(old(self)@, cwd@), path@)) ==> !r
                && final(self)@ == old(self)@,
            (has_root(old(self)@, cwd@) && has_path(table_at(old(self)@, cwd@), path@)) ==> r,
            r ==> has_root(old(self)@, cwd@) && has_root(final(self)@, cwd@) && (exists|j: int|
                #![auto]
                {
                    &&& 0 <= j < table_at(old(self)@, cwd@).len()
                    &&& table_at(old(self)@, cwd@)[j].1.path == path@
                    &&& (forall|l: int|
                        0 <= l < j ==> table_at(old(self)@, cwd@)[l].1.path != path@)
                    &&& table_at(final(self)@, cwd@) == table_at(old(self)@, cwd@).update(
                        j,
                        (
                            table_at(old(self)@, cwd@)[j].0,
                            FileModel {
                                path: table_at(old(self)@, cwd@)[j].1.path,
                                spans: spans_of_ranges(selection@.ranges),
                            },
                        ),
                    )
                }),
            forall|r2: Seq<char>|
                r2 != cwd@ ==> #[trigger] has_root(final(self)@, r2) == has_root(old(self)@, r2),
            forall|r2: Seq<char>|
                r2 != cwd@ && has_root(old(self)@, r2) ==> #[trigger] table_at(final(self)@, r2)
                    == table_at(old(self)@, r2),
            has_root(final(self)@, cwd@) == has_root(old(self)@, cwd@),
    {
        let ghost s0 = self@;
        let pos = match self.find_root(cwd) {
            None => {
                return false;
            },
            Some(pos) => pos,
        };
        proof {
            lemma_root_at_entry(s0, cwd@, pos as int);
        }
        let (root, mut table) = self.projects.remove(pos);
        let changed = table.update_path(path, selection);
        self.projects.insert(pos, (root, table));
        proof {
            assert(self@ =~= s0.update(pos as int, (cwd@, table@)));
            lemma_store_update_entry(s0, self@, pos as int, cwd@, table@);
            if !changed {
                assert(table@ == s0[pos as int].1);
                assert(self@ =~= s0);
            }
        }
        changed
    }

    /// Looks up the record at `index` in the current project's table,
    /// without the liveness check.
    pub fn entry(&self, cwd: &String, index: usize) -> (r: Option<&File>)
        requires
            self.wf(),
        ensures
            match r {
                Some(f) => has_root(self@, cwd@) && has_slot(table_at(self@, cwd@), index) && f@
                    == slot_at(table_at(self@, cwd@), index) && f.wf(),
                None => !(has_root(self@, cwd@) && has_slot(table_at(self@, cwd@), index)),
            },
    {
        match self.find_root(cwd) {
            None => None,
            Some(pos) => {
                proof {
                    lemma_root_at_entry(self@, cwd@, pos as int);
                }
                self.projects[pos].1.get(index)
            },
        }
    }

    /// Looks up the record at `index` in the current project's table, then
    /// filters it out when its path no longer exists on disk. Nothing is
    /// persisted: this is a read-time liveness check only, so a returned
    /// record is always the stored one, and a missing slot is never
    /// invented.
    pub fn file(&self, cwd: &String, index: usize) -> (r: Option<&File>)
        requires
            self.wf(),
        ensures
            match r {
                Some(f) => has_root(self@, cwd@) && has_slot(table_at(self@, cwd@), index) && f@
                    == slot_at(table_at(self@, cwd@), index) && f.wf(),
                None => true,
            },
            !(has_root(self@, cwd@) && has_slot(table_at(self@, cwd@), index)) ==> r is None,
    {
        match self.entry(cwd, index) {
            None => None,
            Some(f) => {
                let live = path_exists(&f.path);
                filter_live(Some(f), live)
            },
        }
    }
}

impl Default for Store {
    /// The empty store.
    fn default() -> (r: Store)
        ensures
            r@ =~= Seq::<(Seq<char>, Seq<(usize, FileModel)>)>::empty(),
            r.wf(),
    {
        Store::new()
    }
}

/// Law: a store bootstrapped in place of a missing backing file holds no
/// project at all, so every operation on it behaves as on an empty table:
/// lookups find nothing and a first `set` creates the project.
pub proof fn lemma_empty_store_has_no_root(root: Seq<char>)
    ensures
        !has_root(Seq::<(Seq<char>, Seq<(usize, FileModel)>)>::empty(), root),
{
}

/// Law: setting a slot twice keeps only the second record: after
/// `set(i, a)` then `set(i, b)`, index `i` holds exactly `b`, and every
/// other slot of the project is as it was at the start.
pub proof fn lemma_set_overwrites(
    s0: StoreModel,
    s1: StoreModel,
    s2: StoreModel,
    root: Seq<char>,
    i: usize,
    a: FileModel,
    b: FileModel,
)
    requires
        set_transition(s0, s1, root, i, a),
        set_transition(s1, s2, root, i, b),
    ensures
        has_slot(table_at(s2, root), i),
        slot_at(table_at(s2, root), i) == b,
        forall|k: usize|
            k != i ==> #[trigger] has_slot(table_at(s2, root), k) == (has_root(s0, root)
                && has_slot(table_at(s0, root), k)),
        forall|k: usize|
            k != i && has_root(s0, root) && has_slot(table_at(s0, root), k) ==> #[trigger] slot_at(
                table_at(s2, root),
                k,
            ) == slot_at(table_at(s0, root), k),
{
}

/// Law: projects are isolated: bookmarks made under two different working
/// directories land in two different tables, and the later one leaves the
/// earlier table untouched.
pub proof fn lemma_project_isolation(
    s0: StoreModel,
    s1: StoreModel,
    s2: StoreModel,
    root1: Seq<char>,
    root2: Seq<char>,
    i1: usize,
    i2: usize,
    f1: FileModel,
    f2: FileModel,
)
    requires
        root1 != root2,
        set_transition(s0, s1, root1, i1, f1),
        set_transition(s1, s2, root2, i2, f2),
    ensures
        has_slot(table_at(s2, root1), i1),
        slot_at(table_at(s2, root1), i1) == f1,
        has_slot(table_at(s2, root2), i2),
        slot_at(table_at(s2, root2), i2) == f2,
        table_at(s2, root1) == table_at(s1, root1),
{
}

} // verus!
