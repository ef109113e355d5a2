//! The user-facing operations: thin orchestration over the store, the record
//! codec and the path helper. Each takes the store the host loaded, the
//! current working directory, and what the host reports of the active
//! document, and returns plain values for the host to act on: a status
//! message, a location to open, or a listing to display.

use vstd::prelude::*;
use crate::errors::HarpoonError;
use crate::numeral::{index, dec_str_of, usize_string, valid_index, spec_index};
use crate::paths::{get_relative_path, rel_of};
use crate::record::{File, FileModel, record_of, selection_of_spans, spans_of_ranges};
use crate::selection::Selection;
use crate::store::{Store, has_root, table_at, set_transition, remove_transition};
use crate::table::{has_slot, slot_at, has_path, sorted_by_index};

verus! {

/// The status line after a successful `set`.
pub open spec fn added_message(path: Seq<char>, index: usize) -> Seq<char> {
    "'"@ + path + "' added to #"@ + dec_str_of(index as nat)
}

/// The status line after a successful `remove`.
pub open spec fn removed_message(path: Seq<char>, index: usize) -> Seq<char> {
    "'"@ + path + "' removed from #"@ + dec_str_of(index as nat)
}

/// The informational error when `remove` finds nothing at the index.
pub open spec fn not_found_message(index: usize) -> Seq<char> {
    "No file assigned to #"@ + dec_str_of(index as nat)
}

/// One line of a listing: the index, a separator, and the record's path.
pub open spec fn line_of(e: (usize, FileModel)) -> Seq<char> {
    dec_str_of(e.0 as nat) + ". "@ + e.1.path + "\n"@
}

/// The rendered listing of a table, one line per entry, in table order.
pub open spec fn listing_of(t: Seq<(usize, FileModel)>) -> Seq<char>
    decreases t.len(),
{
    if t.len() == 0 {
        Seq::empty()
    } else {
        listing_of(t.drop_last()) + line_of(t.last())
    }
}

/// Law: a listing depends only on which records stand at which indices,
/// never on the order they were inserted in: two well-formed tables holding
/// the same slots render the same listing.
pub proof fn lemma_listing_canonical(t1: Seq<(usize, FileModel)>, t2: Seq<(usize, FileModel)>)
    requires
        sorted_by_index(t1),
        sorted_by_index(t2),
        forall|k: usize| #[trigger] has_slot(t1, k) == has_slot(t2, k),
        forall|k: usize| has_slot(t1, k) ==> #[trigger] slot_at(t1, k) == slot_at(t2, k),
    ensures
        listing_of(t1) == listing_of(t2),
{
    crate::table::lemma_table_canonical(t1, t2);
}

/// What `remove` reports: the status line for a removed record, after which
/// the store must be saved, or the informational error for an empty slot,
/// after which it must not.
pub enum RemoveOutcome {
    Removed(String),
    NotFound(String),
}

/// Bookmarks the active document under the given index: requires an index
/// argument and a document with a backing path, normalizes the path against
/// the working directory, and inserts or overwrites the slot. On success the
/// caller persists the store and shows the returned status line.
pub fn set(
    store: &mut Store,
    cwd: &String,
    doc_path: Option<&String>,
    selection: &Selection,
    arg: Option<&String>,
) -> (r: Result<String, HarpoonError>)
    requires
        old(store).wf(),
        selection.wf(),
    ensures
        final(store).wf(),
        match arg {
            None => r == Err::<String, HarpoonError>(HarpoonError::MissingArgument)
                && final(store)@ == old(store)@,
            Some(s) => if !valid_index(s@) {
                r == Err::<String, HarpoonError>(HarpoonError::InvalidIndex)
                    && final(store)@ == old(store)@
            } else {
                match doc_path {
                    None => r == Err::<String, HarpoonError>(HarpoonError::NoBackingPath)
                        && final(store)@ == old(store)@,
                    Some(p) => (r matches Ok(m) && m@ == added_message(
                        rel_of(p@, cwd@),
                        spec_index(s@),
                    )) && set_transition(
                        old(store)@,
                        final(store)@,
                        cwd@,
                        spec_index(s@),
                        record_of(rel_of(p@, cwd@), selection@),
                    ),
                }
            },
        },
{
    let idx = match index(arg) {
        Err(e) => {
            return Err(e);
        },
        Ok(i) => i,
    };
    let p = match doc_path {
        None => {
            return Err(HarpoonError::NoBackingPath);
        },
        Some(p) => p,
    };
    let rel = get_relative_path(p, cwd);
    let file = File::new(rel.clone(), selection);
    store.set_file(cwd, idx, file);
    let mut m = String::from_str("'");
    m.append(rel.as_str());
    m.append("' added to #");
    m.append(usize_string(idx).as_str());
    proof {
        assert(m@ =~= added_message(rel@, idx));
    }
    Ok(m)
}

/// Looks up the given index in the current project: on a hit whose path
/// still exists on disk, returns the path to open and the selection to
/// restore; an empty slot or a stale path yields nothing to do. The store
/// is not changed and nothing is persisted.
pub fn get(store: &Store, cwd: &String, arg: Option<&String>) -> (r: Result<
    Option<(String, Selection)>,
    HarpoonError,
>)
    requires
        store.wf(),
    ensures
        match arg {
            None => r == Err::<Option<(String, Selection)>, HarpoonError>(
                HarpoonError::MissingArgument,
            ),
            Some(s) => if !valid_index(s@) {
                r == Err::<Option<(String, Selection)>, HarpoonError>(HarpoonError::InvalidIndex)
            } else {
                &&& r is Ok
                &&& (!(has_root(store@, cwd@) && has_slot(table_at(store@, cwd@), spec_index(s@)))
                    ==> r == Ok::<Option<(String, Selection)>, HarpoonError>(None))
                &&& (match r {
                    Ok(Some(t)) => {
                        &&& has_root(store@, cwd@)
                        &&& has_slot(table_at(store@, cwd@), spec_index(s@))
                        &&& t.0@ == slot_at(table_at(store@, cwd@), spec_index(s@)).path
                        &&& t.1@ == selection_of_spans(
                            slot_at(table_at(store@, cwd@), spec_index(s@)).spans,
                        )
                        &&& t.1.wf()
                    },
                    _ => true,
                })
            },
        },
{
    let idx = match index(arg) {
        Err(e) => {
            return Err(e);
        },
        Ok(i) => i,
    };
    match store.file(cwd, idx) {
        None => Ok(None),
        Some(f) => {
            let sel = f.as_selection();
            Ok(Some((f.path.clone(), sel)))
        },
    }
}

/// Evicts the given index from the current project: a removed record yields
/// its status line, after which the caller persists the store; an empty slot
/// yields the informational error and leaves the store untouched.
pub fn remove(store: &mut Store, cwd: &String, arg: Option<&String>) -> (r: Result<
    RemoveOutcome,
    HarpoonError,
>)
    requires
        old(store).wf(),
    ensures
        final(store).wf(),
        match arg {
            None => r == Err::<RemoveOutcome, HarpoonError>(HarpoonError::MissingArgument)
                && final(store)@ == old(store)@,
            Some(s) => if !valid_index(s@) {
                r == Err::<RemoveOutcome, HarpoonError>(HarpoonError::InvalidIndex)
                    && final(store)@ == old(store)@
            } else {
                if has_root(old(store)@, cwd@) && has_slot(
                    table_at(old(store)@, cwd@),
                    spec_index(s@),
                ) {
                    &&& remove_transition(old(store)@, final(store)@, cwd@, spec_index(s@))
                    &&& (r matches Ok(o) && o matches RemoveOutcome::Removed(m) && m@
                        == removed_message(
                        slot_at(table_at(old(store)@, cwd@), spec_index(s@)).path,
                        spec_index(s@),
                    ))
                } else {
                    &&& final(store)@ == old(store)@
                    &&& (r matches Ok(o) && o matches RemoveOutcome::NotFound(m) && m@
                        == not_found_message(spec_index(s@)))
                }
            },
        },
{
    let idx = match index(arg) {
        Err(e) => {
            return Err(e);
        },
        Ok(i) => i,
    };
    match store.remove_file(cwd, idx) {
        Some(f) => {
            let mut m = String::from_str("'");
            m.append(f.path.as_str());
            m.append("' removed from #");
            m.append(usize_string(idx).as_str());
            proof {
                assert(m@ =~= removed_message(f.path@, idx));
            }
            Ok(RemoveOutcome::Removed(m))
        },
        None => {
            let mut m = String::from_str("No file assigned to #");
            m.append(usize_string(idx).as_str());
            proof {
                assert(m@ =~= not_found_message(idx));
            }
            Ok(RemoveOutcome::NotFound(m))
        },
    }
}

/// Refreshes the selection of an already-bookmarked document: normalizes the
/// active document's path and replaces the spans of the first record (in
/// index order) of the current project that bookmarks it. Returns whether
/// anything changed; only then does the caller persist the store. A pathless
/// document, an unknown project or an unbookmarked path is a silent no-op.
pub fn update(
    store: &mut Store,
    cwd: &String,
    doc_path: Option<&String>,
    selection: &Selection,
) -> (r: bool)
    requires
        old(store).wf(),
        selection.wf(),
    ensures
        final(store).wf(),
        match doc_path {
            None => !r && final(store)@ == old(store)@,
            Some(p) => {
                &&& (!(has_root(old(store)@, cwd@) && has_path(
                    table_at(old(store)@, cwd@),
                    rel_of(p@, cwd@),
                )) ==> !r && final(store)@ == old(store)@)
                &&& ((has_root(old(store)@, cwd@) && has_path(
                    table_at(old(store)@, cwd@),
                    rel_of(p@, cwd@),
                )) ==> r)
                &&& (r ==> has_root(old(store)@, cwd@) && has_root(final(store)@, cwd@) && (exists|
                    j: int,
                |
                    #![auto]
                    {
                        &&& 0 <= j < table_at(old(store)@, cwd@).len()
                        &&& table_at(old(store)@, cwd@)[j].1.path == rel_of(p@, cwd@)
                        &&& (forall|l: int|
                            0 <= l < j ==> table_at(old(store)@, cwd@)[l].1.path != rel_of(
                                p@,
                                cwd@,
                            ))
                        &&& table_at(final(store)@, cwd@) == table_at(old(store)@, cwd@).update(
                            j,
                            (
                                table_at(old(store)@, cwd@)[j].0,
                                FileModel {
                                    path: table_at(old(store)@, cwd@)[j].1.path,
                                    spans: spans_of_ranges(selection@.ranges),
                                },
                            ),
                        )
                    }))
                &&& (forall|r2: Seq<char>|
                    r2 != cwd@ ==> #[trigger] has_root(final(store)@, r2) == has_root(
                        old(store)@,
                        r2,
                    ))
                &&& (forall|r2: Seq<char>|
                    r2 != cwd@ && has_root(old(store)@, r2) ==> #[trigger] table_at(
                        final(store)@,
                        r2,
                    ) == table_at(old(store)@, r2))
                &&& has_root(final(store)@, cwd@) == has_root(old(store)@, cwd@)
            },
        },
{
    let p = match doc_path {
        None => {
            return false;
        },
        Some(p) => p,
    };
    let rel = get_relative_path(p, cwd);
    store.update_path(cwd, &rel, selection)
}

/// Renders the current project's bookmarks, one line per slot in ascending
/// index order, for the host to display. A store without this project
/// renders as the empty listing. Nothing is filtered and nothing persisted.
pub fn list(store: &Store, cwd: &String) -> (r: String)
    requires
        store.wf(),
    ensures
        has_root(store@, cwd@) ==> r@ == listing_of(table_at(store@, cwd@)) && sorted_by_index(
            table_at(store@, cwd@),
        ),
        !has_root(store@, cwd@) ==> r@ == Seq::<char>::empty(),
{
    let pos = match store.find_root(cwd) {
        None => {
            return String::new();
        },
        Some(pos) => pos,
    };
    proof {
        crate::store::lemma_root_at_entry(store@, cwd@, pos as int);
        assert(store.projects@[pos as int].1.wf());
    }
    let p = &store.projects[pos].1;
    let mut out = String::new();
    let n = p.files.len();
    let mut i: usize = 0;
    while i < n
        invariant
            i <= n,
            n == p.files@.len(),
            out@ == listing_of(p@.take(i as int)),
        decreases n - i,
    {
        out.append(usize_string(p.files[i].0).as_str());
        out.append(". ");
        out.append(p.files[i].1.path.as_str());
        out.append("\n");
        proof {
            assert(p@.take(i + 1).drop_last() =~= p@.take(i as int));
            assert(p@.take(i + 1).last() == p@[i as int]);
            assert(out@ =~= listing_of(p@.take(i + 1)));
        }
        i += 1;
    }
    proof {
        assert(p@.take(n as int) =~= p@);
    }
    out
}

} // verus!
