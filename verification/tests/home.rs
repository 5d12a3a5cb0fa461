//! The screen that lists what was opened.

use cheap_note::home::{
    row_of, scan, visible_indices, Article, Choice, Home, RecentsDelegate,
};
use cheap_note::recent::{Found, Recent, Stamp, Summary};

/// An entry whose folder is named after its title.
fn entry(title: &str, document: Option<&str>, source: Option<&str>) -> Recent {
    Recent::note(
        format!("C:/notes/{title}"),
        source.map(String::from),
        String::from(title),
        document.map(str::to_string),
        1_000,
    )
}

/// A search keeps the notes it names, whichever part of the row it was.
#[test]
fn a_search_keeps_what_it_names() {
    let placed = Recent::note(
        String::from("C:/notes/chapter-3-9f2a1c44"),
        Some(String::from("C:/docs/chapter-3.pdf")),
        String::from("chapter-3"),
        Some(String::from("chapter-3.pdf")),
        1_000,
    );
    let blank = Recent::note(
        String::from("C:/notes/blank-1712345678901"),
        None,
        String::from("Blank sheet"),
        None,
        1_000,
    );

    assert!(cheap_note::home::matches(&placed, ""));
    assert!(cheap_note::home::matches(&placed, "chap"), "the name");
    assert!(cheap_note::home::matches(&placed, "CHAP"), "and it is not case-sensitive");
    assert!(cheap_note::home::matches(&placed, "docs"), "the file it came from");
    assert!(
        cheap_note::home::matches(&placed, "9f2a1c44"),
        "the folder's own name, digest and all"
    );
    assert!(cheap_note::home::matches(&blank, "blank sheet"));
    assert!(!cheap_note::home::matches(&blank, "chapter"));
    assert!(
        !cheap_note::home::matches(&blank, "cheap-note"),
        "the words a row says when there is no file must not match every row"
    );
}

/// A query keeps the entries it matches, in the order they were given, and an empty query keeps
/// everything.
#[test]
fn a_query_keeps_the_entries_it_matches_in_order() {
    let entries = vec![
        entry("chapter-3", Some("chapter-3.pdf"), None),
        entry("notes", None, None),
        entry("chapter-4", Some("chapter-4.pdf"), None),
    ];

    assert_eq!(visible_indices(&entries, ""), vec![0, 1, 2]);
    assert_eq!(visible_indices(&entries, "chapter"), vec![0, 2]);
    assert_eq!(visible_indices(&entries, "4"), vec![2]);
    assert_eq!(
        visible_indices(&entries, "nothing"),
        Vec::<usize>::new(),
        "a query that matches nothing keeps nothing"
    );
}

/// A scan reads only the notes that changed.
#[test]
fn a_scan_reads_only_the_notes_that_changed() {
    let first = Stamp { mtime_ms: 1, len: 10 };
    let second = Stamp { mtime_ms: 2, len: 20 };
    let known = vec![Some(first), Some(second)];

    assert_eq!(scan(&Vec::new(), &Vec::new()), Vec::<usize>::new());
    assert_eq!(
        scan(&known, &vec![Some(first), Some(second)]),
        Vec::<usize>::new(),
        "a note that has not been written in is not opened"
    );
    let written = Stamp { mtime_ms: 3, len: 30 };
    assert_eq!(
        scan(&known, &vec![Some(written), Some(second)]),
        vec![0],
        "one note changed"
    );
    assert_eq!(
        scan(&vec![None], &vec![Some(first)]),
        vec![0],
        "a note nothing is known of is read"
    );
    assert_eq!(
        scan(&vec![Some(first)], &vec![None]),
        Vec::<usize>::new(),
        "a note without a database has nothing to read"
    );
}

/// A row says what the note is, where it came from, what is in it and when it was opened.
#[test]
fn a_row_says_what_the_note_is() {
    let mut placed = entry("chapter-3", Some("chapter-3.pdf"), Some("C:/docs/chapter-3.pdf"));
    placed.summary = Summary { pages: 2, strokes: 3, sheet: None };
    placed.stamp = Some(Stamp { mtime_ms: 1, len: 1 });
    let row = row_of(&placed, 1_000);
    assert_eq!(row.name, "chapter-3");
    assert_eq!(row.origin, "C:/docs/chapter-3.pdf");
    assert_eq!(row.counts, "2 pages · 3 strokes");
    assert_eq!(row.age, "just now");
    assert!(row.about_document);

    let mut gone = entry("blank", None, None);
    gone.gone = true;
    let row = row_of(&gone, 1_000);
    assert!(row.origin.contains("written in cheap-note"), "{}", row.origin);
    assert!(row.origin != "written in cheap-note", "a note that is gone says so");
    assert!(!row.about_document);
}

/// Choosing a row opens what it shows, and the other choice forgets it.
#[test]
fn choosing_a_row_opens_or_forgets_it() {
    let mut list = RecentsDelegate::new(vec![
        entry("chapter-3", None, None),
        entry("notes", None, None),
    ]);
    assert_eq!(list.items_count(), 2);
    assert!(list.confirm(false).is_none(), "no row is highlighted");
    assert!(!list.is_selected(0));
    list.perform_search("notes");
    assert_eq!(list.items_count(), 1);
    list.set_selected_index(Some(0));
    assert!(list.is_selected(0), "the highlighted row");
    assert!(!list.is_selected(1), "and no other");
    match list.confirm(false) {
        Some(Choice::Open(entry)) => assert_eq!(entry.title, "notes"),
        other => panic!("{other:?}"),
    }
    match list.confirm(true) {
        Some(Choice::Forget(entry)) => assert_eq!(entry.title, "notes"),
        other => panic!("{other:?}"),
    }
    assert_eq!(list.reveal_folder("C:/notes/chapter-3"), None, "not showing");
    list.perform_search("");
    assert_eq!(list.reveal_folder("C:/notes/chapter-3"), Some(0));
    assert_eq!(list.selected_entry().map(|entry| entry.title.as_str()), Some("chapter-3"));
    list.perform_search("zebra");
    assert_eq!(list.items_count(), 0);
    assert_eq!(list.empty_text("C:/notes").0, "Nothing matches \u{201c}zebra\u{201d}");
}

/// The screen opens in front, learns what a scan saw, and says so.
#[test]
fn the_screen_learns_what_a_scan_saw() {
    let mut home = Home::open(None);
    assert!(home.is_open());
    assert_eq!(home.caption(), "nothing has been opened yet");
    home.record(entry("chapter-3", None, None));
    home.begin_scan();
    assert!(home.is_scanning());
    assert!(home.status().starts_with("1 note   \u{b7}   reading notes\u{2026}"), "{}", home.status());
    let changed = home.scanned(
        &vec![true],
        &vec![Found { folder: String::from("C:/notes/blank-17"), written_ms: Some(9) }],
        &vec![Article {
            folder: String::from("C:/notes/chapter-3"),
            stamp: Stamp { mtime_ms: 4, len: 5 },
            summary: Summary { pages: 1, strokes: 1, sheet: None },
        }],
        2_000,
    );
    assert!(changed);
    assert!(!home.is_scanning());
    assert_eq!(home.entries().len(), 2);
    assert_eq!(home.entries()[0].counts(), "1 page · 1 stroke");
    assert_eq!(home.entries()[1].title, "Blank sheet");
    home.leave();
    assert!(!home.is_open());
    home.show();
    assert!(home.is_open());
    home.forget("C:/notes/chapter-3");
    assert_eq!(home.entries().len(), 1);
}
