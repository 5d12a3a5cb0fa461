//! The list of notes that were opened.

use cheap_note::recent::{
    to_save, Found, Recent, Recents, SheetBits, Stamp, Summary, RECENT_MAX,
};

/// A folder of a name.
fn folder(name: &str) -> String {
    format!("/tmp/cheap-note-recent-{name}")
}

/// An entry of a folder and a moment.
fn entry(folder: String, title: &str, opened_at: u64) -> Recent {
    Recent::note(folder, None, String::from(title), None, opened_at)
}

/// The entry for a folder, or a panic: a test that asks about an entry has made one.
fn found<'a>(recents: &'a Recents, folder: &str) -> &'a Recent {
    recents
        .entries()
        .iter()
        .find(|entry| entry.folder == folder)
        .expect("the entry was recorded or adopted")
}

/// A missing index is an empty list, not an error.
#[test]
fn a_missing_index_is_an_empty_list() {
    let recents = Recents::load(None);

    assert!(recents.entries().is_empty());
}

/// A broken index is an empty list rather than a launch that cannot happen.
#[test]
fn a_broken_index_is_an_empty_list() {
    let index: Option<Vec<Recent>> = None;
    assert!(Recents::load(index).entries().is_empty());
}

/// What is recorded comes back, newest first, through the index.
#[test]
fn what_is_recorded_comes_back_newest_first() {
    let mut recents = Recents::load(None);

    recents.record(Recent::note(
        folder("first"),
        Some(String::from("C:/docs/first.pdf")),
        String::from("first"),
        Some(String::from("first.pdf")),
        1_000,
    ));
    recents.record(entry(folder("second"), "Blank sheet", 2_000));

    let written: Vec<Recent> = recents.entries().iter().map(|entry| entry.copy()).collect();
    let loaded = Recents::load(Some(written));
    let titles: Vec<&str> = loaded
        .entries()
        .iter()
        .map(|entry| entry.title.as_str())
        .collect();
    assert_eq!(titles, vec!["Blank sheet", "first"]);
    assert_eq!(
        loaded.entries()[1].document.as_deref(),
        Some("first.pdf"),
        "the document's name is remembered"
    );
}

/// Opening the same note twice is one entry, at the top, not two.
#[test]
fn opening_the_same_note_twice_keeps_one_entry() {
    let mut recents = Recents::load(None);
    let dir = folder("twice-note");

    recents.record(entry(dir.clone(), "chapter-3", 1_000));
    recents.record(entry(folder("another"), "another", 2_000));
    recents.record(entry(dir.clone(), "chapter-3", 3_000));

    assert_eq!(recents.entries().len(), 2, "one entry per folder");
    assert_eq!(recents.entries()[0].folder, dir, "and it is the newest one");
    assert_eq!(recents.entries()[0].opened_at, 3_000);
}

/// A folder is one folder however its path is written down.
#[test]
fn a_folder_is_its_parts() {
    let mut recents = Recents::load(None);
    recents.record(entry(String::from("notes/a"), "a", 1_000));
    recents.record(entry(String::from(r"notes\a\"), "a", 2_000));
    assert_eq!(recents.entries().len(), 1, "one entry per folder");
    assert_eq!(recents.entries()[0].opened_at, 2_000);
    recents.forget("notes//a");
    assert!(recents.entries().is_empty());
}

/// A note placed from a file is called by the file's stem again.
#[test]
fn a_title_undoes_a_folder_name() {
    for (source, title) in [
        ("/a/chapter-3.pdf", "chapter-3"),
        (r"C:\docs\My notes (2).pdf", "My-notes--2"),
        ("3\u{c7a5}.zip", "3\u{c7a5}"),
        ("deadbeef-cafebabe.pdf", "deadbeef-cafebabe"),
    ] {
        let folder = cheap_note::names::folder_name(source);
        assert_eq!(Recent::title_for(&folder), title, "{folder}");
    }
}

/// The list is capped: a note that falls off the end is still a folder on disk.
#[test]
fn the_list_is_capped() {
    let mut recents = Recents::load(None);

    for index in 0..RECENT_MAX + 5 {
        recents.record(entry(
            format!("note-{index}"),
            &format!("note-{index}"),
            index as u64,
        ));
    }

    assert_eq!(recents.entries().len(), RECENT_MAX);
    assert_eq!(
        recents.entries()[0].title,
        format!("note-{}", RECENT_MAX + 4),
        "the newest is kept and the oldest is what goes"
    );
}

/// A folder that is gone is marked, and one nobody told us about is adopted.
#[test]
fn the_list_heals_itself_around_the_notes_folder() {
    let mut recents = Recents::load(None);
    let here = folder("heal-here");
    let missing = folder("heal-gone");

    recents.record(entry(here.clone(), "here", 10));
    recents.record(entry(missing.clone(), "gone", 20));

    let carried_in = folder("heal-carried-in");
    let present: Vec<bool> = recents
        .entries()
        .iter()
        .map(|entry| entry.folder == here)
        .collect();
    let seen = vec![
        Found { folder: here.clone(), written_ms: Some(10) },
        Found { folder: carried_in.clone(), written_ms: None },
    ];
    recents.reconcile(&present, &seen, 5_000);

    assert_eq!(recents.entries().len(), 3, "the folder found is adopted");
    let adopted = found(&recents, &carried_in);
    assert_eq!(
        adopted.title,
        Recent::title_for(&carried_in),
        "and is called what its folder says"
    );
    assert!(!adopted.counted(), "with nothing counted yet");
    assert_eq!(adopted.opened_at, 5_000, "a note never written in was found now");
    assert!(found(&recents, &missing).gone);
    assert!(!found(&recents, &here).gone);
}

/// A folder that lives outside the notes folder is not called gone for being outside it.
#[test]
fn a_note_opened_where_it_stands_is_not_gone() {
    let mut recents = Recents::load(None);
    let elsewhere = folder("in-place-elsewhere");

    recents.record(entry(elsewhere.clone(), "in place", 10));
    recents.reconcile(&vec![true], &Vec::new(), 20);

    assert!(
        !found(&recents, &elsewhere).gone,
        "being outside the notes folder is not being missing"
    );
}

/// Ages are words, and a clock that moved backwards is not a negative age.
#[test]
fn ages_read_as_words() {
    let minute = 60_000;
    let hour = 60 * minute;
    let day = 24 * hour;
    let entry = Recent::note(String::new(), None, String::new(), None, 10 * day);
    let now = 10 * day;

    assert_eq!(entry.age(now), "just now");
    assert_eq!(entry.age(now + 3 * minute), "3 minutes ago");
    assert_eq!(entry.age(now + 2 * hour), "2 hours ago");
    assert_eq!(entry.age(now + day), "yesterday");
    assert_eq!(entry.age(now + 3 * day), "3 days ago");
    assert_eq!(entry.age(now + 45 * day), "a month ago");
    assert_eq!(entry.age(now + 100 * day), "3 months ago");
    assert_eq!(entry.age(now + 700 * day), "a year ago");
    assert_eq!(
        entry.age(now - 5 * minute),
        "just now",
        "a clock that went backwards reports the smallest age there is"
    );
}

/// A folder's name is turned back into words: the digest goes, the stamp becomes a phrase.
#[test]
fn a_folder_name_is_turned_back_into_words() {
    assert_eq!(
        Recent::title_for("C:/notes/chapter-3-9f2a1c44"),
        "chapter-3"
    );
    assert_eq!(
        Recent::title_for("C:/notes/blank-1712345678901"),
        "Blank sheet"
    );
    assert_eq!(
        Recent::title_for("C:/notes/not-a-digest-here"),
        "not-a-digest-here",
        "only a digest is stripped"
    );
}

/// A file that was opened is remembered as the note it made, with the file it came from.
#[test]
fn an_entry_says_where_the_note_came_from() {
    let placed = Recent::note(
        folder("origin-note"),
        Some(String::from("C:/docs/chapter-3.pdf")),
        String::from("chapter-3"),
        Some(String::from("chapter-3.pdf")),
        10,
    );
    let blank = entry(folder("origin-blank"), "Blank sheet", 10);

    assert!(
        placed.origin().ends_with("chapter-3.pdf"),
        "the file a note was made from is what the line under it says: {}",
        placed.origin()
    );
    assert_eq!(
        blank.origin(),
        "written in cheap-note",
        "a note made on a blank sheet came from nowhere, and says so"
    );
}

/// Counts read as a sentence, including the singular.
#[test]
fn counts_read_as_a_sentence() {
    let mut entry = Recent::note(String::new(), None, String::new(), None, 0);

    assert_eq!(entry.counts(), "no pages yet");

    entry.summary = Summary {
        pages: 1,
        strokes: 1,
        sheet: None,
    };
    assert_eq!(entry.counts(), "1 page · 1 stroke");

    entry.summary = Summary {
        pages: 12,
        strokes: 340,
        sheet: None,
    };
    assert_eq!(entry.counts(), "12 pages · 340 strokes");
}

/// Forgetting takes one folder out of the list and leaves the others as they were.
#[test]
fn forgetting_leaves_the_others() {
    let mut recents = Recents::load(None);
    recents.record(entry(folder("a"), "a", 1));
    recents.record(entry(folder("b"), "b", 2));
    recents.forget(&folder("a"));
    assert_eq!(recents.entries().len(), 1);
    assert_eq!(recents.entries()[0].title, "b");
    recents.forget(&folder("nowhere"));
    assert_eq!(recents.entries().len(), 1);
}

/// What a scan learned is kept with the entry it is about.
#[test]
fn what_a_scan_learned_is_kept() {
    let mut recents = Recents::load(None);
    recents.record(entry(folder("a"), "a", 1));
    let summary = Summary {
        pages: 2,
        strokes: 7,
        sheet: Some(SheetBits { width: 794.0f32.to_bits(), height: 1123.0f32.to_bits() }),
    };
    recents.learn(&folder("a"), Stamp { mtime_ms: 5, len: 6 }, summary);
    assert!(recents.entries()[0].counted());
    assert_eq!(recents.entries()[0].counts(), "2 pages · 7 strokes");
    assert_eq!(recents.entries()[0].stamp, Some(Stamp { mtime_ms: 5, len: 6 }));
}

/// A list that names one folder twice and is out of order is put right on the way in.
#[test]
fn a_list_is_settled_on_the_way_in() {
    let loaded = Recents::load(Some(vec![
        entry(folder("old"), "old", 1),
        entry(folder("new"), "new", 9),
        entry(folder("mid"), "mid", 5),
    ]));
    let titles: Vec<&str> = loaded.entries().iter().map(|entry| entry.title.as_str()).collect();
    assert_eq!(titles, vec!["new", "mid", "old"]);
}

/// What is saved comes back as it was, but for which folders were missing.
#[test]
fn what_is_saved_comes_back() {
    let mut recents = Recents::load(None);
    recents.record(entry(folder("a"), "a", 5));
    recents.record(entry(folder("b"), "b", 9));
    recents.record(entry(folder("c"), "c", 7));
    recents.learn(
        &folder("b"),
        Stamp { mtime_ms: 5, len: 6 },
        Summary { pages: 2, strokes: 7, sheet: None },
    );
    let mut entries: Vec<Recent> = recents.entries().iter().map(|entry| entry.copy()).collect();
    entries[1].gone = true;

    let saved = to_save(&entries);
    assert!(saved.iter().all(|entry| !entry.gone), "that is not written down");
    let loaded = Recents::load(Some(saved));
    assert_eq!(loaded.entries().len(), 3);
    for (before, after) in entries.iter().zip(loaded.entries()) {
        assert_eq!(before.folder, after.folder);
        assert_eq!(before.title, after.title);
        assert_eq!(before.opened_at, after.opened_at);
        assert_eq!(before.stamp, after.stamp);
        assert_eq!(before.summary.strokes, after.summary.strokes);
        assert!(!after.gone);
    }
    assert_eq!(loaded.entries()[0].opened_at, 9, "the newest is first");
}
