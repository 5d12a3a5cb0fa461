//! Names of files and folders, and the clocks the screen is paced by.

use cheap_note::clock::{
    checkpoint_due, pdf_render_due, status_due, CHECKPOINT_NANOS, CHECKPOINT_QUIET_NANOS,
    PDF_QUIET_NANOS, STATUS_NANOS,
};
use cheap_note::names::{file_label, file_stem, folder_name, note_stem};
use cheap_note::note::{placed_from, Placing};
use cheap_note::paths::same_path;
use cheap_note::raster::quantise_width;

/// A millisecond, in nanoseconds.
const MILLI: u64 = 1_000_000;

/// A second, in nanoseconds.
const SECOND: u64 = 1_000_000_000;

/// A width in fractions, as the ladder takes it: rounded up.
fn whole(wanted: f32) -> Option<u32> {
    (wanted.is_finite() && wanted > 0.0).then_some(wanted.ceil() as u32)
}

/// A message about a file names the file, not its whole path.
#[test]
fn a_file_is_labelled_by_its_name() {
    assert_eq!(file_label(r"C:\notes\chapter-3.zip"), "chapter-3.zip");
    assert_eq!(file_label("note.zip"), "note.zip");
}

/// A name a person gave a note becomes a file name.
#[test]
fn a_note_s_name_becomes_a_file_name() {
    assert_eq!(file_stem("3\u{c7a5} \u{c694}\u{c57d}"), "3\u{c7a5} \u{c694}\u{c57d}");
    assert_eq!(file_stem("  chapter   3  "), "chapter 3");
    assert_eq!(file_stem("a/b\\c:d*e?f\"g<h>i|j"), "a-b-c-d-e-f-g-h-i-j");
    assert_eq!(file_stem("report."), "report", "a trailing dot is dropped");
    assert_eq!(file_stem("..."), "", "and a name that was only dots is nothing");
    assert_eq!(
        file_stem("\u{2026}"),
        "\u{2026}",
        "a character a file system is happy with is left alone"
    );
    assert_eq!(file_stem(""), "");
    assert_eq!(
        file_stem(&"\u{c7a5}".repeat(80)).chars().count(),
        64,
        "a long name is cut by characters, so a Korean one is not halved"
    );
}

/// A dot or a space at either end goes, however they alternate, and whatever the cut uncovers.
#[test]
fn no_dot_and_no_space_is_left_at_either_end() {
    assert_eq!(file_stem(".hidden"), "hidden");
    assert_eq!(file_stem(". . .hidden"), "hidden");
    assert_eq!(file_stem(" ..\t..name.. . "), "name");
    assert_eq!(file_stem("v1.2 final"), "v1.2 final", "a dot inside stays");
    assert_eq!(file_stem(". ."), "");
    let long = format!("{}. {}", "a".repeat(63), "b".repeat(9));
    assert_eq!(file_stem(&long), "a".repeat(63), "the cut leaves no dot behind");
    assert_eq!(file_stem("a\u{7}b\u{85}\u{3000}c"), "a b c", "control characters and wide spaces");
}

/// A prefix is no part of a path, and has no name.
#[test]
fn a_prefix_has_no_name() {
    assert_eq!(file_label("C:x.pdf"), "x.pdf");
    assert_eq!(file_label(r"\\server\share\x.pdf"), "x.pdf");
    assert_eq!(file_label(r"\\server\share"), r"\\server\share", "a share has no name");
    assert_eq!(file_label(r"\\?\C:\notes\x.pdf"), "x.pdf");
    assert_eq!(file_label(r"\\?\UNC\server\share"), r"\\?\UNC\server\share");
    assert_eq!(file_label(r"\\server"), "server", "a server without a share is no prefix");
    assert_eq!(file_label("C:"), "C:");
    assert_eq!(file_label("/notes/./"), "notes");
}

/// Two texts are one path when their parts are the same.
#[test]
fn a_path_is_its_parts() {
    assert!(same_path("a", "a/"));
    assert!(same_path(r"C:\notes\a", "c:/notes//./a/"));
    assert!(same_path(r"\\server\share", "//server/share/"));
    assert!(!same_path("a", "A"));
    assert!(!same_path("a", "/a"));
    assert!(!same_path("a", "./a"), "a leading dot is a part");
    assert!(!same_path("a/b/..", "a"), "going up is a part");
    assert!(!same_path("C:a", "D:a"));
    assert!(!same_path("C:a", "a"));
    assert!(!same_path(r"\\server\share\a", r"\\server\other\a"));
}

/// A folder's name has no separator, dot, colon or space in it, whatever the file is called.
#[test]
fn a_folder_name_is_allowed() {
    let name = folder_name("/notes/a b.c:d e…f.pdf");
    assert!(name.chars().all(|c| c.is_alphanumeric() || c == '-' || c == '_'), "{name}");
    assert!(name.starts_with("a-b-c-d-e-f-"), "{name}");
}

/// A note from one path is placed in a folder of its own, and the same path twice is the same
/// folder: importing a note again updates the working copy rather than making a second one.
#[test]
fn a_note_is_placed_where_its_source_says() {
    let one = folder_name("/notes/chapter-3.pdf");
    let again = folder_name("/notes/chapter-3.pdf");
    let two = folder_name("/other/chapter-3.pdf");

    assert_eq!(one, again);
    assert_ne!(one, two, "two files of one name are two notes");
    assert!(
        one.starts_with("chapter-3-"),
        "the name says which file it came from: {one}"
    );
    assert!(one
        .chars()
        .all(|character| character != ' ' && character != '/'));
}

/// A folder's name is the stem and the digest of the path, to the letter.
#[test]
fn a_folder_is_named_to_the_letter() {
    // FNV-1a of the one byte `a`, in its low 32 bits.
    assert_eq!(folder_name("a"), "a-8601ec8c");
    assert!(folder_name("my notes (2).pdf").starts_with("my-notes--2-"));
}

/// The file a note is offered to be written out under: its name, its document's, or neither.
#[test]
fn a_note_is_offered_under_its_name() {
    assert_eq!(note_stem("3\u{c7a5} \u{c694}\u{c57d}", Some("chapter-3.pdf")), "3\u{c7a5} \u{c694}\u{c57d}");
    assert_eq!(note_stem("", Some("chapter-3.pdf")), "chapter-3");
    assert_eq!(note_stem("", Some(".pdf")), ".pdf");
    assert_eq!(note_stem("", None), "note");
}

/// What is placed is decided by what the source is.
#[test]
fn what_is_placed_is_decided_by_what_it_is() {
    assert_eq!(placed_from("/notes/here.zip", true).ok(), Some(Placing::Open));
    assert_eq!(placed_from("/notes/here.ZIP", false).ok(), Some(Placing::Unpack));
    assert_eq!(placed_from("/notes/here.Pdf", false).ok(), Some(Placing::Start));
    let refusal = placed_from("/notes/here.txt", false).expect_err("a text is no note");
    assert_eq!(
        refusal.message(),
        "the note file could not be read or written: /notes/here.txt is neither a note, a note zip, nor a PDF"
    );
    assert!(placed_from("/notes/here", false).is_err());
}

/// A page's bitmap width is quantised onto the ladder, so that a zoom which changes the width by a
/// pixel does not invalidate a bitmap that cost milliseconds to make.
#[test]
fn a_page_is_rendered_on_the_ladder() {
    // The rungs themselves, and everything between them rounded up to the next one.
    assert_eq!(quantise_width(whole(100.0)), 1_024);
    assert_eq!(quantise_width(whole(1_024.0)), 1_024);
    assert_eq!(quantise_width(whole(1_025.0)), 1_536, "just past a rung is the next rung");
    assert_eq!(quantise_width(whole(1_500.0)), 1_536);
    assert_eq!(quantise_width(whole(2_000.0)), 2_304);
    assert_eq!(quantise_width(whole(3_000.0)), 3_456);

    assert_eq!(quantise_width(whole(1_024.4)), 1_536, "the least past a rung is past it");

    // Past the top rung it stops growing: the page is magnified rather than resolved.
    assert_eq!(quantise_width(whole(9_999.0)), 3_456);

    // A window that reports nonsense still asks for something renderable.
    assert_eq!(quantise_width(whole(0.0)), 1_024);
    assert_eq!(quantise_width(whole(-10.0)), 1_024);
    assert_eq!(quantise_width(whole(f32::NAN)), 1_024);
}

/// The whole zoom range is covered by a handful of rasterisations, which is the point of the
/// ladder: a pinch across a PDF must not re-render the page on every event.
#[test]
fn a_whole_pinch_needs_only_a_few_rasterisations() {
    let paper_width = 720.0;
    let mut widths = Vec::new();

    // 5% to 1600%, in the steps a gesture would actually produce.
    let mut zoom = 0.05f32;
    while zoom <= 16.0 {
        let width = quantise_width(whole(paper_width * zoom * 2.0));
        if widths.last() != Some(&width) {
            widths.push(width);
        }
        zoom *= 1.25f32.powf(0.1);
    }

    assert_eq!(
        widths,
        vec![1_024, 1_536, 2_304, 3_456],
        "one rasterisation per rung, and no more"
    );
}

/// A page is rasterised when the pen stops, not while it is writing.
#[test]
fn a_page_render_waits_for_the_pen_to_stop() {
    let now = 100 * SECOND;

    assert!(!pdf_render_due(now, now), "the pen has just laid ink");
    assert!(
        !pdf_render_due(now, now + PDF_QUIET_NANOS - MILLI),
        "a pause inside a word is not the end of writing"
    );
    assert!(
        pdf_render_due(now, now + PDF_QUIET_NANOS),
        "and a hand that has stopped is one to spend a render on"
    );
    assert!(
        !pdf_render_due(now + SECOND, now),
        "a clock that goes backwards must not force a render either"
    );
}

/// The status line is rebuilt on a clock, not on every frame.
#[test]
fn the_status_line_is_not_rebuilt_every_frame() {
    let built = 100 * SECOND;

    assert!(!status_due(built, built), "a line just built is not rebuilt");
    assert!(
        !status_due(built, built + 4 * MILLI),
        "not even on a 240 Hz panel"
    );
    assert!(
        !status_due(built, built + STATUS_NANOS - MILLI),
        "not just before the interval is up"
    );
    assert!(
        status_due(built, built + STATUS_NANOS),
        "due once the interval has passed"
    );
    assert!(
        status_due(built, built + 5 * SECOND),
        "and still due long after"
    );
}

/// A clock that appears to go backwards must not make the line rebuilt on every wake.
#[test]
fn a_clock_that_goes_backwards_does_not_force_rebuilds() {
    let now = 100 * SECOND;

    assert!(!status_due(now + SECOND, now));
}

/// The log is folded back when the pen has been still and it has not been done for a while.
#[test]
fn the_log_is_folded_back_when_nothing_happens() {
    let long = CHECKPOINT_NANOS + CHECKPOINT_QUIET_NANOS;
    assert!(checkpoint_due(0, 0, long));
    assert!(!checkpoint_due(long, 0, long), "the pen is moving");
    assert!(!checkpoint_due(0, long, long), "it was done a moment ago");
}
