//! A note as one file.

use cheap_note::archive::{Archive, Parcel};
use cheap_note::bundle::{
    invalid_notes, notes_in, notes_of, read, Bundle, Document, InkedPage, NotesFile,
    PageFile, FORMAT, NOTES_ENTRY,
};
use cheap_note::ink::{InkDocument, InkPoint, Stroke};
use cheap_note::legacy;
use cheap_note::note::{
    attachment_entry, document_label, migrate, pack, placed_from, report_message,
    start_on_document, unpack, unpack_entry, Attachment, Placing, Report, Step, StoreStep, Unpacked,
    ATTACHMENTS, NOTE_DB, NOTE_PDF,
};
use cheap_note::pages::Page;
use cheap_note::recent::SheetBits;
use cheap_note::zips::{Entry, Method};

type Ink = InkDocument<f32, u8>;

/// A page holding `count` one-point strokes, spaced out so they are distinguishable.
fn page_of(count: usize) -> Ink {
    Ink::from_strokes(
        (0..count)
            .map(|index| {
                let x = index as f32 * 10.0;
                Stroke::new(InkPoint::new(x, x, 3.0), Stroke::<f32>::DEFAULT_COLOR)
            })
            .collect(),
    )
}

/// A sheet of a size.
fn sheet(width: f32, height: f32) -> Option<SheetBits> {
    Some(SheetBits { width: width.to_bits(), height: height.to_bits() })
}

/// The bytes of an archive with these entries.
fn archive_of(entries: &[(&str, &[u8])]) -> Vec<u8> {
    let parcels: Vec<Parcel> = entries
        .iter()
        .map(|(name, bytes)| Parcel {
            name: String::from(*name),
            bytes: bytes.to_vec(),
            method: Method::Deflated,
            what: String::from("the entry"),
        })
        .collect();
    cheap_note::archive::pack("test.zip", &parcels).expect("an archive")
}

/// An open archive.
fn opened(path: &str, bytes: Vec<u8>) -> Archive {
    Archive::open(path, bytes).expect("an archive")
}

/// What an empty `notes.json` of a format says.
fn notes_file(format: u32) -> NotesFile<f32> {
    NotesFile {
        format,
        page: 0,
        sheet: None,
        document: None,
        layout: Vec::new(),
        pages: Vec::new(),
    }
}

/// A PDF that is not one, since nothing here parses it.
fn a_pdf() -> Vec<u8> {
    b"%PDF-1.4 not really".to_vec()
}

/// The whole round trip: ink in, ink out, on the pages it was written on.
#[test]
fn a_note_round_trips_through_a_file() {
    let bundle = Bundle {
        document: Some(Document { name: String::from("page.pdf"), bytes: a_pdf() }),
        pages: vec![
            InkedPage { page: 0, ink: page_of(3) },
            InkedPage { page: 4, ink: page_of(2) },
        ],
        page: 4,
        sheet: sheet(794.0, 1123.0),
        layout: vec![Page::Document(0), Page::Blank, Page::Document(1), Page::Blank],
    };

    let notes = notes_of(&bundle);
    assert_eq!(notes.format, FORMAT);
    let json = b"the ink, in words".to_vec();
    let bytes = cheap_note::bundle::write("round-trip.zip", &json, &bundle.document).expect("the note is written");
    assert_ne!(bytes, json);

    let mut archive = opened("round-trip.zip", bytes);
    assert_eq!(notes_in("round-trip.zip", &mut archive).expect("the notes"), json);
    let read_back: Bundle<f32, u8> =
        read("round-trip.zip", &mut archive, notes).expect("the note is read");

    assert_eq!(read_back.page, 4, "the page that was open");
    assert_eq!(read_back.sheet, sheet(794.0, 1123.0));
    assert_eq!(
        read_back.layout,
        vec![Page::Document(0), Page::Blank, Page::Document(1), Page::Blank],
        "the page list comes back in reading order, inserted pages and all"
    );
    assert_eq!(read_back.pages.len(), 2, "two pages were written on");
    assert_eq!(read_back.pages[0].page, 0);
    assert_eq!(read_back.pages[0].ink.stroke_count(), 3);
    assert_eq!(read_back.pages[1].page, 4);
    assert_eq!(read_back.pages[1].ink.stroke_count(), 2);
    assert_eq!(read_back.pages[1].ink.finished()[1].points[0].x, 10.0);

    let document = read_back.document.expect("the document came back");
    assert_eq!(
        document.name, "page.pdf",
        "the name the document was saved under comes back with it"
    );
    assert_eq!(document.bytes, a_pdf());
}

/// A note written before the page list existed still reads.
#[test]
fn a_note_from_before_the_page_list_still_reads() {
    let mut archive = opened("old.zip", archive_of(&[(NOTES_ENTRY, b"{}")]));
    let notes = NotesFile {
        page: 1,
        pages: vec![PageFile { page: 1, strokes: Vec::new() }],
        ..notes_file(1)
    };
    let bundle: Bundle<f32, u8> = read("old.zip", &mut archive, notes).expect("it reads");
    assert!(bundle.layout.is_empty(), "there was no list to read");
    assert_eq!(bundle.page, 1);
}

/// A loaded stroke can be taken back.
#[test]
fn a_loaded_stroke_can_be_erased() {
    let bundle = Bundle {
        document: None,
        pages: vec![InkedPage { page: 0, ink: page_of(1) }],
        page: 0,
        layout: vec![Page::Blank],
        sheet: sheet(794.0, 1123.0),
    };
    let bytes = cheap_note::bundle::write("erase.zip", b"[]", &bundle.document).expect("the note is written");
    let mut archive = opened("erase.zip", bytes);
    let mut read_back: Bundle<f32, u8> =
        read("erase.zip", &mut archive, notes_of(&bundle)).expect("the note is read");
    let page = &mut read_back.pages[0].ink;

    let point = page.finished()[0].points[0];
    assert_eq!((point.x, point.y), (0.0, 0.0), "the stroke knows where it is");
    assert!(page.undo(), "and it can be taken back");
    assert_eq!(page.stroke_count(), 0);
}

/// A note written without a PDF is a valid file, not a broken one.
#[test]
fn a_note_without_a_document_is_a_note_on_a_blank_sheet() {
    let bundle = Bundle {
        document: None,
        pages: vec![InkedPage { page: 0, ink: page_of(1) }],
        page: 0,
        sheet: sheet(595.0, 842.0),
        layout: vec![Page::Blank],
    };
    let bytes = cheap_note::bundle::write("no-document.zip", b"{}", &bundle.document).expect("the note is written");
    let mut archive = opened("no-document.zip", bytes);
    let read_back: Bundle<f32, u8> =
        read("no-document.zip", &mut archive, notes_of(&bundle)).expect("the note is read");
    assert!(read_back.document.is_none());
    assert_eq!(read_back.pages.len(), 1);
}

/// A zip that is not a note is refused by name, rather than half-read.
#[test]
fn bundle_a_foreign_zip_is_refused() {
    let mut archive = opened("foreign.zip", archive_of(&[("something-else.txt", b"hello")]));
    let error = notes_in("foreign.zip", &mut archive).expect_err("a foreign zip is refused");
    let message = error.message();
    assert!(
        message.contains(NOTES_ENTRY),
        "the error names what was missing: {message}"
    );
    assert!(message.ends_with("it holds no notes.json: it was not written by this app"));
}

/// A note from a newer build is refused rather than silently reinterpreted.
#[test]
fn bundle_a_newer_note_format_is_refused() {
    let mut archive = opened("newer.zip", archive_of(&[(NOTES_ENTRY, b"{}")]));
    let result: Result<Bundle<f32, u8>, _> =
        read("newer.zip", &mut archive, notes_file(FORMAT + 1));
    let message = result.expect_err("a newer format is refused").message();
    assert!(
        message.contains("newer version"),
        "the error explains itself: {message}"
    );
    assert!(message.ends_with("(note format 3, this build writes 2)"), "{message}");
}

/// An old note is read: its pages, its document, and the page that was open.
#[test]
fn an_old_note_is_read_for_migration() {
    let mut archive = opened(
        "read.zip",
        archive_of(&[(NOTES_ENTRY, b"{}"), ("document.pdf", &a_pdf())]),
    );
    let mut line = Stroke::new(InkPoint::new(1.0, 2.0, 3.0), 1776415);
    line.points.push(InkPoint::new(4.0, 5.0, 6.0));
    let notes = NotesFile {
        page: 1,
        sheet: sheet(794.0, 1123.0),
        document: Some(String::from("chapter-3.pdf")),
        layout: vec![Page::Document(0), Page::Blank],
        pages: vec![PageFile { page: 0, strokes: vec![line] }],
        ..notes_file(2)
    };

    let note = legacy::read("read.zip", &mut archive, notes).expect("an old note is read");
    assert_eq!(note.page, 1);
    assert_eq!(note.sheet, sheet(794.0, 1123.0));
    assert_eq!(note.layout, vec![Page::Document(0), Page::Blank]);
    assert_eq!(note.pages.len(), 1);
    assert_eq!(note.pages[0].page, 0);
    assert_eq!(note.pages[0].strokes.len(), 1);
    assert_eq!(note.pages[0].strokes[0].points.len(), 2);

    let document = note.document.expect("the document came back");
    assert_eq!(document.name, "chapter-3.pdf");
    assert_eq!(document.bytes, b"%PDF-1.4 not really");
}

/// A note written before the page list existed still reads, listless.
#[test]
fn a_note_from_before_the_page_list_reads() {
    let mut archive = opened("format-1.zip", archive_of(&[(NOTES_ENTRY, b"{}")]));
    assert!(legacy::notes_in("format-1.zip", &mut archive).is_ok());
    let note = legacy::read("format-1.zip", &mut archive, notes_file(1))
        .expect("the oldest note reads");
    assert_eq!(note.page, 0);
    assert!(note.layout.is_empty(), "there is no list to have");
    assert!(note.document.is_none(), "and no document");
}

/// A zip that is not a note is refused by name, rather than half-read.
#[test]
fn legacy_a_foreign_zip_is_refused() {
    let mut archive = opened("foreign.zip", archive_of(&[("something-else.txt", b"hello")]));
    let message = legacy::notes_in("foreign.zip", &mut archive)
        .expect_err("a foreign zip is refused")
        .message();
    assert!(message.contains(NOTES_ENTRY), "{message}");
    assert!(message.contains("and no note database"), "{message}");
}

/// A note from a newer build is refused rather than silently reinterpreted.
#[test]
fn legacy_a_newer_note_format_is_refused() {
    let mut archive = opened("newer.zip", archive_of(&[(NOTES_ENTRY, b"{}")]));
    let message = legacy::read("newer.zip", &mut archive, notes_file(FORMAT + 1))
        .expect_err("a newer format is refused")
        .message();
    assert!(message.contains("newer version"), "{message}");
    assert!(message.contains("this build reads 2"), "{message}");
}

/// A document without a name of its own is named after the file it came in.
#[test]
fn a_nameless_document_is_named_after_its_file() {
    let bytes = archive_of(&[(NOTES_ENTRY, b"{}"), ("document.pdf", &a_pdf())]);
    let mut archive = opened("C:/docs/chapter-3.zip", bytes);
    let note = legacy::read("C:/docs/chapter-3.zip", &mut archive, notes_file(2)).expect("a note");
    assert_eq!(note.document.expect("a document").name, "chapter-3.pdf");
}

/// Bytes that are no archive are refused.
#[test]
fn what_is_no_archive_is_refused() {
    let error = Archive::open("broken.zip", b"not a zip at all".to_vec()).expect_err("no zip");
    let message = error.message();
    assert!(
        message.contains("broken.zip is not a zip file this app can read: "),
        "{message}"
    );
    let error = invalid_notes("broken.zip", "expected value at line 1 column 1");
    assert!(error.message().ends_with(
        "the ink in broken.zip is not valid: expected value at line 1 column 1"
    ));
}

/// What a note folder holds travels as one file and comes back whole.
#[test]
fn a_note_travels_as_one_file() {
    let database = vec![7u8; 4096];
    let carried = pack("chapter-3.zip", database.clone(), Some(a_pdf()), Vec::new())
        .expect("the note is written out");
    let mut archive = opened("chapter-3.zip", carried);
    match unpack("chapter-3.zip", &mut archive) {
        Unpacked::Note(arrived) => {
            assert!(arrived.failure.is_none());
            assert_eq!(arrived.steps.len(), 2);
            match &arrived.steps[0] {
                Step::File { parts, bytes } => {
                    assert_eq!(parts, &vec![String::from(NOTE_DB)]);
                    assert_eq!(bytes, &database);
                }
                other => panic!("{other:?}"),
            }
            match &arrived.steps[1] {
                Step::File { parts, bytes } => {
                    assert_eq!(parts, &vec![String::from(NOTE_PDF)]);
                    assert_eq!(bytes, &a_pdf());
                }
                other => panic!("{other:?}"),
            }
        }
        other => panic!("{other:?}"),
    }
}

/// Anything in the attachments folder is carried with the note.
#[test]
fn attachments_travel_with_the_note() {
    let carried = pack(
        "carried.zip",
        vec![1, 2, 3],
        None,
        vec![Attachment {
            name: String::from(r"images\diagram.txt"),
            bytes: b"a diagram".to_vec(),
        }],
    )
    .expect("the note is written out");
    let mut archive = opened("carried.zip", carried);
    assert_eq!(archive.len(), 2);
    match unpack("carried.zip", &mut archive) {
        Unpacked::Note(arrived) => match &arrived.steps[1] {
            Step::File { parts, bytes } => {
                let wanted: Vec<String> =
                    [ATTACHMENTS, "images", "diagram.txt"].iter().map(|part| part.to_string()).collect();
                assert_eq!(parts, &wanted);
                assert_eq!(bytes, b"a diagram", "the attachment came back");
            }
            other => panic!("{other:?}"),
        },
        other => panic!("{other:?}"),
    }
    assert_eq!(attachment_entry("a.txt"), "attachments/a.txt");
}

/// A zip with no database is an old note, and one with neither is refused.
#[test]
fn note_a_foreign_zip_is_refused() {
    let mut archive = opened("other.zip", archive_of(&[("something-else.txt", b"hello")]));
    assert!(matches!(unpack("other.zip", &mut archive), Unpacked::Migrate));
    let error = legacy::notes_in("other.zip", &mut archive).expect_err("a foreign zip is refused");
    assert!(error.message().contains("notes.json"), "{}", error.message());
}

/// An entry that leads outside the note is refused, and what came before it is still unpacked.
#[test]
fn an_entry_that_leads_outside_is_refused() {
    let bytes = archive_of(&[
        (NOTE_DB, b"the note"),
        ("../../elsewhere.txt", b"outside"),
        (NOTE_PDF, b"never reached"),
    ]);
    let mut archive = opened("strange.zip", bytes);
    match unpack("strange.zip", &mut archive) {
        Unpacked::Note(arrived) => {
            assert_eq!(arrived.steps.len(), 1);
            let message = arrived.failure.expect("a refusal").message();
            assert!(
                message.ends_with(
                    "strange.zip holds an entry that points outside the note: ../../elsewhere.txt"
                ),
                "{message}"
            );
        }
        other => panic!("{other:?}"),
    }
}

/// Every way out of the note is refused: with either separator, from further in, through a drive, and
/// behind a prefix that switches the separators off.
#[test]
fn no_name_leads_outside() {
    for name in [
        r"..\..\somewhere",
        "attachments/../../somewhere",
        "attachments/c:somewhere",
        r"\\?\x\../../somewhere",
        "attachments/some\0where",
    ] {
        let bytes = archive_of(&[(NOTE_DB, b"the note"), (name, b"outside")]);
        let mut archive = opened("strange.zip", bytes);
        match unpack("strange.zip", &mut archive) {
            Unpacked::Note(arrived) => {
                assert_eq!(arrived.steps.len(), 1, "{name}");
                let message = arrived.failure.expect("a refusal").message();
                assert!(message.contains("an entry that points outside the note"), "{message}");
            }
            other => panic!("{other:?}"),
        }
    }
}

/// A name may go up as long as it stays inside, and leads where it says.
#[test]
fn a_name_leads_where_it_says() {
    for (name, wanted) in [
        ("attachments/./images/../diagram.txt", vec!["attachments", "diagram.txt"]),
        (r"attachments\\images\a b.txt", vec!["attachments", "images", "a b.txt"]),
        ("/attachments/1:30.txt", vec!["attachments", "1:30.txt"]),
        ("attachments/Ünïcode … v1.2.TXT", vec!["attachments", "Ünïcode … v1.2.TXT"]),
    ] {
        let bytes = archive_of(&[(NOTE_DB, b"the note"), (name, b"inside")]);
        let mut archive = opened("kept.zip", bytes);
        match unpack("kept.zip", &mut archive) {
            Unpacked::Note(arrived) => {
                assert!(arrived.failure.is_none(), "{name}");
                match &arrived.steps[1] {
                    Step::File { parts, bytes } => {
                        assert_eq!(parts, &wanted, "{name}");
                        assert_eq!(bytes, b"inside");
                    }
                    other => panic!("{other:?}"),
                }
            }
            other => panic!("{other:?}"),
        }
    }
}

/// What each entry becomes, and each way it can fail.
#[test]
fn an_entry_becomes_a_step_or_a_refusal() {
    let folder = Entry {
        name: String::from("attachments/"),
        parts: Some(vec![String::from("attachments")]),
        is_folder: true,
        content: Ok(Vec::new()),
    };
    match unpack_entry("a.zip", Ok(folder)).expect("a folder") {
        Step::Folder { parts } => assert_eq!(parts, vec![String::from("attachments")]),
        other => panic!("{other:?}"),
    }
    let damaged = Entry {
        name: String::from("note.db"),
        parts: Some(vec![String::from("note.db")]),
        is_folder: false,
        content: Err(String::from("Invalid checksum")),
    };
    let message = unpack_entry("a.zip", Ok(damaged)).expect_err("damaged").message();
    assert!(message.ends_with("a.zip could not be read: Invalid checksum"), "{message}");
    let message = unpack_entry("a.zip", Err(String::from("encrypted"))).expect_err("shut").message();
    assert!(message.ends_with("a.zip holds an entry it could not open: encrypted"), "{message}");
}

/// What is compressed already is stored, and everything else is deflated.
#[test]
fn what_is_compressed_already_is_stored() {
    let document = Some(Document { name: String::from("a.pdf"), bytes: a_pdf() });
    let parcels = cheap_note::bundle::parcels(b"{}", &document);
    let kept: Vec<(&str, Method)> =
        parcels.iter().map(|parcel| (parcel.name.as_str(), parcel.method)).collect();
    assert_eq!(kept, vec![(NOTES_ENTRY, Method::Deflated), ("document.pdf", Method::Stored)]);
    assert_eq!(parcels[1].bytes, a_pdf());

    let attachment = Attachment { name: String::from("a.txt"), bytes: vec![1] };
    let parcels = cheap_note::note::parcels(vec![7], Some(a_pdf()), vec![attachment]);
    let kept: Vec<(&str, Method)> =
        parcels.iter().map(|parcel| (parcel.name.as_str(), parcel.method)).collect();
    assert_eq!(
        kept,
        vec![
            (NOTE_DB, Method::Stored),
            (NOTE_PDF, Method::Stored),
            ("attachments/a.txt", Method::Deflated),
        ]
    );
}

/// Two files of one name cannot be packed, and the refusal says what could not be written.
#[test]
fn two_files_of_one_name_are_refused() {
    let twice = || Attachment { name: String::from("a.txt"), bytes: vec![1] };
    let error = pack("twice.zip", vec![1], None, vec![twice(), twice()]).expect_err("twice");
    assert!(
        error.message().contains("the note could not be written: "),
        "{}",
        error.message()
    );
}

/// A note started on a document remembers what the document was called.
#[test]
fn a_note_starts_on_a_document() {
    assert_eq!(document_label("C:/docs/chapter-3.pdf"), "chapter-3.pdf");
    assert_eq!(document_label(""), "source.pdf");
}

/// What the writer reports is what the status line says.
#[test]
fn a_report_is_said_in_words() {
    assert_eq!(
        report_message(&Report::Written(String::from("C:/docs/chapter-3.zip"))),
        "wrote chapter-3.zip"
    );
    assert_eq!(report_message(&Report::Failed(String::from("the disk is full"))), "the disk is full");
}

/// A note written by the old build is migrated rather than lost.
#[test]
fn an_old_note_is_migrated_into_a_store() {
    let path = "old.zip";
    assert!(matches!(placed_from(path, false), Ok(Placing::Unpack)));

    let bytes = archive_of(&[("notes.json", b"the ink"), ("document.pdf", &a_pdf())]);
    let mut archive = opened(path, bytes);
    assert!(
        matches!(unpack(path, &mut archive), Unpacked::Migrate),
        "a zip without a database is an old note"
    );
    assert_eq!(legacy::notes_in(path, &mut archive).expect("the notes"), b"the ink".to_vec());

    let mut stroke = Stroke::new(InkPoint::new(1.0f32, 2.0, 3.0), 1776415);
    stroke.points.push(InkPoint::new(4.0, 5.0, 6.0));
    let notes = NotesFile {
        format: 2,
        page: 1,
        sheet: sheet(595.0, 842.0),
        document: Some(String::from("old.pdf")),
        layout: vec![Page::Blank],
        pages: vec![PageFile { page: 0, strokes: vec![stroke] }],
    };
    let old = legacy::read(path, &mut archive, notes).expect("the old note is read");
    let steps = migrate(old);

    assert_eq!(steps.len(), 6);
    match &steps[0] {
        StoreStep::Rewrite { page, strokes } => {
            assert_eq!(*page, 0);
            assert_eq!(strokes.len(), 1);
            assert_eq!(strokes[0].points.len(), 2);
            assert_eq!(strokes[0].points[1].x, 4.0);
            assert_eq!(strokes[0].color, 1776415);
        }
        other => panic!("the ink is written first: {other:?}"),
    }
    match &steps[1] {
        StoreStep::PutDocument(document) => {
            assert_eq!(document.name, "old.pdf");
            assert_eq!(document.bytes, a_pdf());
        }
        other => panic!("the document comes along: {other:?}"),
    }
    assert!(matches!(&steps[2], StoreStep::SetSheet(written) if *written == sheet(595.0, 842.0)));
    assert!(matches!(&steps[3], StoreStep::SetLayout(layout) if *layout == vec![Page::Blank]));
    assert!(matches!(&steps[4], StoreStep::SetOpenPage(1)));
    assert!(matches!(&steps[5], StoreStep::Checkpoint));
}

/// A note started on a document holds the document under its own name, and nothing else.
#[test]
fn a_started_note_holds_its_document() {
    let steps = start_on_document::<f32>("C:/docs/chapter-3.pdf", a_pdf());

    assert_eq!(steps.len(), 2);
    match &steps[0] {
        StoreStep::PutDocument(document) => {
            assert_eq!(document.name, "chapter-3.pdf");
            assert_eq!(document.bytes, a_pdf());
        }
        other => panic!("the document comes first: {other:?}"),
    }
    assert!(matches!(&steps[1], StoreStep::Checkpoint));
}

/// An entry may have a name as long as the format can say.
#[test]
fn a_long_name_is_kept() {
    let name = "n".repeat(6000);
    let bytes = archive_of(&[("first", b"1".as_slice()), (name.as_str(), b"2".as_slice())]);
    let mut archive = opened("test.zip", bytes);
    assert_eq!(archive.named(&name), Some(Ok(b"2".to_vec())));
}
