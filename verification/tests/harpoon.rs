use harpoon::errors::HarpoonError;
use harpoon::numeral::{index, usize_string};
use harpoon::ops::{self, get, list, remove, update, RemoveOutcome};
use harpoon::paths::get_relative_path;
use harpoon::record::{File, Span};
use harpoon::selection::{Range, Selection};
use harpoon::store::Store;

fn sel(ranges: &[(usize, usize)]) -> Selection {
    Selection::new(
        ranges
            .iter()
            .map(|&(anchor, head)| Range { anchor, head })
            .collect(),
        0,
    )
}

fn s(text: &str) -> String {
    String::from(text)
}

#[test]
fn selection_round_trip() {
    let selection = sel(&[(3, 7), (10, 4), (0, 0)]);
    let record = File::new(s("a.txt"), &selection);
    assert_eq!(
        record.spans,
        vec![
            Span { start: 3, end: 7 },
            Span { start: 10, end: 4 },
            Span { start: 0, end: 0 }
        ]
    );
    let back = record.as_selection();
    assert_eq!(back.ranges, selection.ranges);
    assert_eq!(back.primary_index, 0);
}

#[test]
fn update_selection_keeps_path() {
    let mut record = File::new(s("a.txt"), &sel(&[(3, 7)]));
    record.update_selection(&sel(&[(1, 2), (5, 5)]));
    assert_eq!(record.path, "a.txt");
    assert_eq!(
        record.spans,
        vec![Span { start: 1, end: 2 }, Span { start: 5, end: 5 }]
    );
}

#[test]
fn index_parses_decimal() {
    assert_eq!(index(Some(&s("0"))), Ok(0));
    assert_eq!(index(Some(&s("1"))), Ok(1));
    assert_eq!(index(Some(&s("120"))), Ok(120));
}

#[test]
fn index_rejects_bad_arguments() {
    assert_eq!(index(None), Err(HarpoonError::MissingArgument));
    assert_eq!(index(Some(&s(""))), Err(HarpoonError::InvalidIndex));
    assert_eq!(index(Some(&s("abc"))), Err(HarpoonError::InvalidIndex));
    assert_eq!(index(Some(&s("12x"))), Err(HarpoonError::InvalidIndex));
    assert_eq!(index(Some(&s("-1"))), Err(HarpoonError::InvalidIndex));
    assert_eq!(index(Some(&s("1.5"))), Err(HarpoonError::InvalidIndex));
    assert_eq!(
        index(Some(&s("999999999999999999999999999999"))),
        Err(HarpoonError::InvalidIndex)
    );
}

#[test]
fn error_messages() {
    assert_eq!(HarpoonError::MissingArgument.message(), "index not provided");
    assert_eq!(
        HarpoonError::InvalidIndex.message(),
        "index must be an integer"
    );
    assert_eq!(
        HarpoonError::NoBackingPath.message(),
        "current document has no path"
    );
}

#[test]
fn numerals_render() {
    assert_eq!(usize_string(0), "0");
    assert_eq!(usize_string(7), "7");
    assert_eq!(usize_string(10), "10");
    assert_eq!(usize_string(120), "120");
    assert_eq!(usize_string(90210), "90210");
}

#[test]
fn relative_path_inside_cwd() {
    assert_eq!(get_relative_path(&s("/proj/a.txt"), &s("/proj")), "a.txt");
    assert_eq!(
        get_relative_path(&s("/proj/src/b.rs"), &s("/proj")),
        "src/b.rs"
    );
}

#[test]
fn relative_path_outside_cwd() {
    assert_eq!(
        get_relative_path(&s("/other/a.txt"), &s("/proj")),
        "/other/a.txt"
    );
    assert_eq!(get_relative_path(&s("/proj"), &s("/proj")), "/proj");
    assert_eq!(get_relative_path(&s("/projx/a"), &s("/proj")), "/projx/a");
    assert_eq!(get_relative_path(&s("a.txt"), &s("")), "a.txt");
}

#[test]
fn set_errors() {
    let mut store = Store::new();
    let cwd = s("/proj");
    let selection = sel(&[(3, 7)]);
    assert_eq!(
        ops::set(&mut store, &cwd, Some(&s("/proj/a.txt")), &selection, None),
        Err(HarpoonError::MissingArgument)
    );
    assert_eq!(
        ops::set(
            &mut store,
            &cwd,
            Some(&s("/proj/a.txt")),
            &selection,
            Some(&s("one"))
        ),
        Err(HarpoonError::InvalidIndex)
    );
    assert_eq!(
        ops::set(&mut store, &cwd, None, &selection, Some(&s("1"))),
        Err(HarpoonError::NoBackingPath)
    );
    assert_eq!(list(&store, &cwd), "");
}

#[test]
fn get_and_remove_argument_errors() {
    let store = Store::new();
    let cwd = s("/proj");
    assert!(matches!(
        get(&store, &cwd, None),
        Err(HarpoonError::MissingArgument)
    ));
    assert!(matches!(
        get(&store, &cwd, Some(&s("x"))),
        Err(HarpoonError::InvalidIndex)
    ));
    let mut store = store;
    assert!(matches!(
        remove(&mut store, &cwd, None),
        Err(HarpoonError::MissingArgument)
    ));
    assert!(matches!(
        remove(&mut store, &cwd, Some(&s("x"))),
        Err(HarpoonError::InvalidIndex)
    ));
}

#[test]
fn empty_store_behaves_as_empty() {
    let mut store = Store::new();
    let cwd = s("/proj");
    assert!(matches!(get(&store, &cwd, Some(&s("1"))), Ok(None)));
    match remove(&mut store, &cwd, Some(&s("4"))) {
        Ok(RemoveOutcome::NotFound(m)) => assert_eq!(m, "No file assigned to #4"),
        other => panic!("unexpected outcome: {:?}", other.is_ok()),
    }
    assert_eq!(list(&store, &cwd), "");
    assert!(!update(&mut store, &cwd, Some(&s("/proj/a.txt")), &sel(&[(1, 1)])));
}

#[test]
fn set_then_list_and_stale_get() {
    let mut store = Store::new();
    let cwd = s("/proj");
    let selection = sel(&[(3, 7)]);
    let msg = ops::set(
        &mut store,
        &cwd,
        Some(&s("/proj/a.txt")),
        &selection,
        Some(&s("1")),
    )
    .unwrap();
    assert_eq!(msg, "'a.txt' added to #1");
    // The stored path "a.txt" names nothing on disk, so `get` filters the
    // record out as stale...
    assert!(matches!(get(&store, &cwd, Some(&s("1"))), Ok(None)));
    // ...while `list` does not filter and still shows the slot.
    assert_eq!(list(&store, &cwd), "1. a.txt\n");
    // Removing returns the record and empties the table.
    match remove(&mut store, &cwd, Some(&s("1"))) {
        Ok(RemoveOutcome::Removed(m)) => assert_eq!(m, "'a.txt' removed from #1"),
        _ => panic!("expected a removed record"),
    }
    assert_eq!(list(&store, &cwd), "");
}

#[test]
fn get_returns_live_record() {
    let mut store = Store::new();
    let cwd = s("/proj");
    // "/" is outside the working directory, so it is stored as given, and it
    // certainly exists on disk.
    let selection = sel(&[(3, 7)]);
    ops::set(&mut store, &cwd, Some(&s("/")), &selection, Some(&s("2"))).unwrap();
    let (path, restored) = get(&store, &cwd, Some(&s("2"))).unwrap().unwrap();
    assert_eq!(path, "/");
    assert_eq!(restored.ranges, vec![Range { anchor: 3, head: 7 }]);
    assert_eq!(restored.primary_index, 0);
}

#[test]
fn overwrite_keeps_only_second_record() {
    let mut store = Store::new();
    let cwd = s("/proj");
    ops::set(&mut store, &cwd, Some(&s("/")), &sel(&[(3, 7)]), Some(&s("1"))).unwrap();
    ops::set(
        &mut store,
        &cwd,
        Some(&s("/")),
        &sel(&[(1, 2), (5, 5)]),
        Some(&s("1")),
    )
    .unwrap();
    assert_eq!(list(&store, &cwd), "1. /\n");
    let (_, restored) = get(&store, &cwd, Some(&s("1"))).unwrap().unwrap();
    assert_eq!(
        restored.ranges,
        vec![Range { anchor: 1, head: 2 }, Range { anchor: 5, head: 5 }]
    );
}

#[test]
fn projects_are_isolated() {
    let mut store = Store::new();
    let cwd1 = s("/proj/one");
    let cwd2 = s("/proj/two");
    ops::set(
        &mut store,
        &cwd1,
        Some(&s("/proj/one/a.txt")),
        &sel(&[(1, 1)]),
        Some(&s("1")),
    )
    .unwrap();
    ops::set(
        &mut store,
        &cwd2,
        Some(&s("/proj/two/a.txt")),
        &sel(&[(2, 2)]),
        Some(&s("1")),
    )
    .unwrap();
    // The same relative path is bookmarked under both roots, independently.
    assert_eq!(list(&store, &cwd1), "1. a.txt\n");
    assert_eq!(list(&store, &cwd2), "1. a.txt\n");
    match remove(&mut store, &cwd1, Some(&s("1"))) {
        Ok(RemoveOutcome::Removed(_)) => {},
        _ => panic!("expected a removed record"),
    }
    assert_eq!(list(&store, &cwd1), "");
    assert_eq!(list(&store, &cwd2), "1. a.txt\n");
}

#[test]
fn list_is_sorted_by_index() {
    let mut store = Store::new();
    let cwd = s("/proj");
    for (slot, name) in [("5", "/proj/e.txt"), ("2", "/proj/b.txt"), ("9", "/proj/i.txt")] {
        ops::set(
            &mut store,
            &cwd,
            Some(&s(name)),
            &sel(&[(0, 0)]),
            Some(&s(slot)),
        )
        .unwrap();
    }
    assert_eq!(list(&store, &cwd), "2. b.txt\n5. e.txt\n9. i.txt\n");
}

#[test]
fn update_replaces_spans_of_bookmarked_path() {
    let mut store = Store::new();
    let cwd = s("/proj");
    ops::set(&mut store, &cwd, Some(&s("/")), &sel(&[(3, 7)]), Some(&s("1"))).unwrap();
    assert!(update(&mut store, &cwd, Some(&s("/")), &sel(&[(8, 9)])));
    let (_, restored) = get(&store, &cwd, Some(&s("1"))).unwrap().unwrap();
    assert_eq!(restored.ranges, vec![Range { anchor: 8, head: 9 }]);
}

#[test]
fn update_ignores_unbookmarked_path() {
    let mut store = Store::new();
    let cwd = s("/proj");
    ops::set(&mut store, &cwd, Some(&s("/")), &sel(&[(3, 7)]), Some(&s("1"))).unwrap();
    assert!(!update(
        &mut store,
        &cwd,
        Some(&s("/proj/other.txt")),
        &sel(&[(8, 9)])
    ));
    assert!(!update(&mut store, &cwd, None, &sel(&[(8, 9)])));
    let (_, restored) = get(&store, &cwd, Some(&s("1"))).unwrap().unwrap();
    assert_eq!(restored.ranges, vec![Range { anchor: 3, head: 7 }]);
}

#[test]
fn remove_only_touches_its_slot() {
    let mut store = Store::new();
    let cwd = s("/proj");
    ops::set(&mut store, &cwd, Some(&s("/proj/a.txt")), &sel(&[(0, 0)]), Some(&s("1"))).unwrap();
    ops::set(&mut store, &cwd, Some(&s("/proj/b.txt")), &sel(&[(0, 0)]), Some(&s("2"))).unwrap();
    match remove(&mut store, &cwd, Some(&s("1"))) {
        Ok(RemoveOutcome::Removed(m)) => assert_eq!(m, "'a.txt' removed from #1"),
        _ => panic!("expected a removed record"),
    }
    assert_eq!(list(&store, &cwd), "2. b.txt\n");
    match remove(&mut store, &cwd, Some(&s("1"))) {
        Ok(RemoveOutcome::NotFound(m)) => assert_eq!(m, "No file assigned to #1"),
        _ => panic!("expected an empty slot"),
    }
}

#[test]
fn numeral_round_trip() {
    for n in [0usize, 7, 9, 10, 99, 120, 1234567] {
        assert_eq!(index(Some(&usize_string(n))), Ok(n));
    }
}

#[test]
fn store_set_get_remove_file() {
    let mut store = Store::new();
    let cwd = s("/proj");
    store.set_file(
        &cwd,
        3,
        File { path: s("/"), spans: vec![Span { start: 1, end: 2 }] },
    );
    let found = store.file(&cwd, 3).expect("a live record");
    assert_eq!(found.path, "/");
    assert_eq!(found.spans, vec![Span { start: 1, end: 2 }]);
    assert!(store.file(&cwd, 9).is_none());
    let removed = store.remove_file(&cwd, 3).expect("the stored record");
    assert_eq!(removed.path, "/");
    assert!(store.remove_file(&cwd, 3).is_none());
}

#[test]
fn file_filters_stale_entry_does_not() {
    let mut store = Store::new();
    let cwd = s("/proj");
    store.set_file(
        &cwd,
        1,
        File {
            path: s("/no/such/path/on/any/disk"),
            spans: vec![Span { start: 0, end: 0 }],
        },
    );
    // The liveness check filters the record out of `file`...
    assert!(store.file(&cwd, 1).is_none());
    // ...but the table still holds it.
    assert!(store.entry(&cwd, 1).is_some());
}

#[test]
fn project_upserts_an_empty_table() {
    let mut store = Store::new();
    {
        let table = store.project(&s("/proj"));
        assert!(table.files.is_empty());
    }
    assert_eq!(store.projects.len(), 1);
    assert_eq!(store.projects[0].0, "/proj");
}

#[test]
fn index_accepts_leading_plus() {
    assert_eq!(index(Some(&s("+5"))), Ok(5));
    assert_eq!(index(Some(&s("+0"))), Ok(0));
    assert_eq!(index(Some(&s("+120"))), Ok(120));
    // What usize parsing rejects, this rejects too.
    assert_eq!(index(Some(&s("+"))), Err(HarpoonError::InvalidIndex));
    assert_eq!(index(Some(&s("++5"))), Err(HarpoonError::InvalidIndex));
    assert_eq!(index(Some(&s("5+"))), Err(HarpoonError::InvalidIndex));
    assert_eq!(index(Some(&s("+5x"))), Err(HarpoonError::InvalidIndex));
}

#[test]
fn set_accepts_leading_plus_index() {
    let mut store = Store::new();
    let cwd = s("/proj");
    let msg = ops::set(
        &mut store,
        &cwd,
        Some(&s("/proj/a.txt")),
        &sel(&[(3, 7)]),
        Some(&s("+1")),
    )
    .unwrap();
    assert_eq!(msg, "'a.txt' added to #1");
    assert_eq!(list(&store, &cwd), "1. a.txt\n");
    match remove(&mut store, &cwd, Some(&s("+1"))) {
        Ok(RemoveOutcome::Removed(m)) => assert_eq!(m, "'a.txt' removed from #1"),
        _ => panic!("expected a removed record"),
    }
}
