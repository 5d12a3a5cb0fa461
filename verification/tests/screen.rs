//! What the application says and decides around the sheet.

use cheap_note::bar::{
    bar_handle, click_names, command_row, frame_is_due, front, page_pill, sheet_row, title_chip,
    zoom_steps, Front, Shown, TitleChip,
};
use cheap_note::clock::PDF_QUIET_NANOS;
use cheap_note::commands::{
    ask_note_name, home_key, note_key, open_entry, open_or_place, pen_draws, Command, Naming, Opening,
};
use cheap_note::error::AppError;
use cheap_note::ink::{InkStats, Tool};
use cheap_note::messages::{
    added_page, axes_part, blank_folder, compose_status, deleted_page, forgot, keep_name,
    list_unwritten, note_title, opened, suggested_file, window_title, writing, SheetWords, Status,
};
use cheap_note::home::{scans_again, Article};
use cheap_note::pdf::{file_title, page_image, renderable, PageCache, MISMATCH};
use cheap_note::pdfium::{
    bitmap_unavailable, document_unreadable, is_sideways, library_unavailable, page_missing,
    page_unloadable, pixels, quarter_turns, render_flags, symbol_missing, Call, Format, Progress,
    Slices,
};
use cheap_note::pen::{status, PenInbox};
use cheap_note::raster::{Frame, PageRequest, Pump, Serve};
use cheap_note::recent::{Stamp, Summary};

/// A batch arrives with the readings in it, and an empty queue has not waited for anything.
#[test]
fn a_batch_reports_how_long_it_waited() {
    let mut inbox = PenInbox::default();
    inbox.push(&[1, 2], 100);

    let batch = inbox.take(107);
    assert_eq!(batch.samples, vec![1, 2]);
    assert_eq!(batch.waited, 7, "queued just now");

    assert!(inbox.take(200).samples.is_empty(), "the queue is drained");
    assert_eq!(inbox.take(300).waited, 0, "nothing queued is nothing waited");
}

/// The wait is measured from the newest reading.
#[test]
fn the_wait_is_measured_from_the_newest_reading() {
    let mut inbox = PenInbox::default();

    inbox.push(&['a'], 0);
    inbox.push(&['b'], 20_000_000);

    let batch = inbox.take(20_000_001);
    assert_eq!(batch.waited, 1, "the newest reading arrived just now");
    assert_eq!(batch.samples, vec!['a', 'b'], "and both come out, oldest first");
    inbox.push(&['c'], 50);
    assert_eq!(inbox.take(40).waited, 0, "a clock that went backwards has not waited");
}

/// The pen says whether it is attached.
#[test]
fn the_pen_says_whether_it_is_attached() {
    assert_eq!(status(None), "pen attached");
    assert_eq!(status(Some("no digitizer")), "drawing with the mouse: no digitizer");
}

/// The arrows turn the page and Escape leaves the note, unless a name is being typed.
#[test]
fn the_keyboard_belongs_to_the_name_while_it_is_typed() {
    assert_eq!(note_key("left", false, false), Some(Command::PreviousPage));
    assert_eq!(note_key("right", false, false), Some(Command::NextPage));
    assert_eq!(note_key("escape", false, false), Some(Command::ShowHome));
    assert_eq!(note_key("left", false, true), None);
    assert_eq!(note_key("right", false, true), None);
    assert_eq!(note_key("escape", false, true), Some(Command::StopNaming));
    assert_eq!(note_key("n", true, true), Some(Command::NewSheet));
    assert_eq!(note_key("o", true, false), Some(Command::Open));
    assert_eq!(note_key("s", true, false), Some(Command::Save));
    assert_eq!(note_key("left", true, false), None);
    assert_eq!(note_key("n", false, false), None);
    assert_eq!(home_key("s", true, false, false), Some(Command::Save));
    assert_eq!(home_key("escape", false, false, true), Some(Command::StopNaming));
    assert_eq!(home_key("escape", false, true, true), None);
    assert_eq!(home_key("escape", false, false, false), None);
}

/// A note that exists is opened rather than placed over.
#[test]
fn an_existing_note_is_opened() {
    assert_eq!(open_or_place(true, true), Opening::Existing);
    assert_eq!(open_or_place(true, false), Opening::Place);
    assert_eq!(open_or_place(false, true), Opening::Place);
    assert_eq!(open_entry("/n/a", true, None, false).ok(), Some(Opening::Existing));
    assert_eq!(open_entry("/n/a", true, Some("/d/a.pdf"), true).ok(), Some(Opening::Existing));
    assert_eq!(open_entry("/n/a", false, Some("/d/a.pdf"), true).ok(), Some(Opening::Place));
    assert_eq!(
        open_entry("/n/a", false, Some("/d/a.pdf"), false).expect_err("gone").message(),
        "a.pdf is gone, and so is the note it was written on"
    );
    assert_eq!(
        open_entry("/n/a", false, None, false).expect_err("gone").message(),
        "the note in /n/a is gone"
    );
}

/// The sentences the application says.
#[test]
fn what_is_said() {
    assert_eq!(window_title(false, ""), "cheap-note");
    assert_eq!(window_title(true, "3\u{c7a5}"), "cheap-note", "the list is in front");
    assert_eq!(window_title(false, "3\u{c7a5}"), "3\u{c7a5} \u{2014} cheap-note");
    assert_eq!(suggested_file("", Some("chapter-3.pdf")), "chapter-3.zip");
    assert_eq!(blank_folder(1712345678901), "blank-1712345678901");
    assert_eq!(added_page(true, 1, 3), "added a page before this one (2 of 3)");
    assert_eq!(added_page(false, 2, 3), "added a page after this one (3 of 3)");
    assert_eq!(deleted_page(true, 3), "deleted a page (2 left)");
    assert_eq!(deleted_page(true, 1), "deleted a page (1 left)");
    assert_eq!(deleted_page(false, 1), "a note keeps at least one page");
    assert_eq!(writing("/d/chapter-3.zip"), "writing chapter-3.zip");
    assert_eq!(forgot("notes", "/n/a"), "forgot notes \u{2014} the note is still in /n/a");
    assert_eq!(
        list_unwritten("disk full"),
        "the list of recent notes could not be written: disk full"
    );
    assert_eq!(opened("/d/a.pdf", &None, 12, 3), "opened a.pdf (12 strokes on 3 pages)");
    let sheets = SheetWords {
        written: String::from("595\u{d7}842"),
        here: String::from("794\u{d7}1123"),
    };
    assert_eq!(
        opened("/d/a.pdf", &Some(sheets), 12, 3),
        "opened a.pdf \u{2014} written on a 595\u{d7}842 sheet, this one is 794\u{d7}1123"
    );
}

/// A note is called what it was named, then what its document or its folder is called.
#[test]
fn a_note_is_called_what_it_was_named() {
    assert_eq!(note_title(Some("mine"), Some("a.pdf"), "/n/a-9f2a1c44"), "mine");
    assert_eq!(note_title(None, Some("chapter.3.pdf"), "/n/a-9f2a1c44"), "chapter.3");
    assert_eq!(note_title(None, Some(".pdf"), "/n/a-9f2a1c44"), ".pdf");
    assert_eq!(note_title(None, None, "/n/chapter-3-9f2a1c44"), "chapter-3");
    let named = keep_name("/n/chapter-3-9f2a1c44", "mine", None);
    assert_eq!(named.shown, "mine");
    assert_eq!(named.message, "named mine");
    let cleared = keep_name("/n/chapter-3-9f2a1c44", "", None);
    assert_eq!(cleared.shown, "chapter-3");
    assert_eq!(cleared.message, "chapter-3 has no name of its own again");
    let unlisted = keep_name("/n/a", "mine", Some("disk full"));
    assert_eq!(
        unlisted.message,
        "the name was kept, but the list could not be written: disk full"
    );
}

/// The status line says what is worth saying, in order.
#[test]
fn the_status_line_says_what_is_worth_saying() {
    let mut line = Status {
        file: String::from("a.pdf"),
        page: 0,
        pages: 0,
        pen: vec![String::from("pen attached")],
        pointer_hooked: true,
        lean: None,
        strokes: 2,
        ink: InkStats {
            readings: 9,
            kept_points: 5,
            resampled: 3,
            off_paper: 0,
            erased_strokes: 0,
        },
        resampled: String::from("38"),
        cache: None,
        zoom: String::from("100"),
        timings: String::from("calm"),
        message: String::new(),
    };
    let between = "   \u{b7}   ";
    assert_eq!(
        compose_status(true, &line),
        ["a.pdf  page 1/1", "pen attached", "ink 2 strokes, 5 points (3 resampled, 38%)", "view 100%", "calm"]
            .join(between)
    );
    line.pointer_hooked = false;
    line.lean = Some(String::from("12\u{b0}"));
    line.ink.off_paper = 4;
    line.cache = Some(String::from("2 pages"));
    line.message = String::from("saved");
    line.pen.push(axes_part(&vec![String::from("pressure"), String::from("tilt")]));
    assert_eq!(
        compose_status(true, &line),
        [
            "a.pdf  page 1/1",
            "pen attached",
            "pen: pressure+tilt",
            "no pointer hook",
            "lean 12\u{b0}",
            "ink 2 strokes, 5 points (3 resampled, 38%)",
            "4 off the sheet",
            "2 pages",
            "view 100%",
            "calm",
            "saved"
        ]
        .join(between)
    );
    assert_eq!(compose_status(false, &line), "");
    assert_eq!(axes_part(&Vec::new()), "pen: position only");
}

/// A page is rendered once per width.
#[test]
fn a_page_is_rendered_once_per_width() {
    let mut cache = PageCache::new(300);
    assert_eq!(cache.look_up(0, 300), None::<&char>);
    cache.keep(0, 'a');
    cache.keep(1, 'b');
    assert_eq!(cache.look_up(0, 300), Some(&'a'));
    assert_eq!(cache.look_up(1, 300), Some(&'b'));
    assert_eq!(cache.look_up(0, 600), None);
    assert_eq!(cache.look_up(0, 300), None, "what was rendered before is gone");
}

/// A document has a name and pages, or says why not.
#[test]
fn a_document_has_a_name_and_pages() {
    assert_eq!(file_title(Some("C:/docs/a.pdf")), "a.pdf");
    assert_eq!(file_title(None), "untitled page");
    assert!(renderable(Some(3), 2).is_ok());
    assert_eq!(renderable(Some(3), 3).expect_err("past").message(), "page 3 is past the end");
    assert_eq!(renderable(None, 0).expect_err("none").message(), "no PDF is open");
}

/// A render is started, carried on with, and over.
#[test]
fn a_render_is_done_in_slices() {
    let mut slices = Slices::new();
    assert_eq!(slices.next(), Call::Start);
    assert!(matches!(slices.answered(1, 0), Progress::Unfinished));
    assert_eq!(slices.next(), Call::Continue);
    assert!(matches!(slices.answered(2, 0), Progress::Finished));
    assert_eq!(slices.next(), Call::Nothing);

    let mut failing = Slices::new();
    failing.next();
    match failing.answered(3, 7) {
        Progress::Failed(said) => assert_eq!(said, "Pdfium could not render the page (error 7)"),
        other => panic!("{other:?}"),
    }
    assert!(failing.settled);
    match Slices::new().answered(-4, 0) {
        Progress::Failed(said) => assert_eq!(said, "Pdfium returned -4 for a progressive render"),
        other => panic!("{other:?}"),
    }
    match Slices::new().unavailable() {
        Progress::Failed(said) => assert_eq!(said, "the Pdfium library is not available"),
        other => panic!("{other:?}"),
    }
}

/// Rows are copied without their padding, and grey becomes BGRA.
#[test]
fn pixels_are_copied_row_by_row() {
    let buffer = [1u8, 2, 3, 4, 99, 5, 6, 7, 8, 99];
    let page = pixels(1, 2, 5, Some(&buffer), Format::Bgra).expect("pixels");
    assert_eq!((page.width, page.height), (1, 2));
    assert_eq!(page.bgra, vec![1, 2, 3, 4, 5, 6, 7, 8]);
    let grey = pixels(2, 1, 4, Some(&[10, 20, 99, 99]), Format::Grayscale).expect("pixels");
    assert_eq!(grey.bgra, vec![10, 10, 10, 0xff, 20, 20, 20, 0xff]);
    assert!(pixels(0, 1, 4, Some(&buffer), Format::Bgra).is_none());
    assert!(pixels(1, 1, 4, None, Format::Bgra).is_none());
    assert_eq!(Format::Bgra.code(), 4);
    assert_eq!(Format::Grayscale.code(), 1);
    assert_eq!(render_flags(true), 1);
    assert_eq!(render_flags(false), 0);
    assert_eq!([quarter_turns(-1), quarter_turns(2), quarter_turns(9)], [0, 2, 3]);
    assert!(is_sideways(1) && is_sideways(3) && !is_sideways(2));
}

/// What is said when a document or the library does not work.
#[test]
fn a_document_that_does_not_work_says_so() {
    let prefix = "the PDF document could not be read: ";
    assert_eq!(
        document_unreadable("a.pdf", 3).message(),
        format!("{prefix}a.pdf could not be read (Pdfium error 3)")
    );
    assert_eq!(
        page_missing(4, "a.pdf", 2, 1).message(),
        format!("{prefix}page 5 of a.pdf was not found: it has 2 pages, and Pdfium reports error 1")
    );
    assert_eq!(
        page_unloadable(0, "a.pdf", 6).message(),
        format!("{prefix}page 1 of a.pdf could not be loaded (Pdfium error 6)")
    );
    assert_eq!(
        bitmap_unavailable(10, 20, 1).message(),
        format!("{prefix}a 10\u{d7}20 bitmap could not be allocated for page 2")
    );
    let missing = "the Pdfium library could not be loaded: ";
    assert_eq!(
        library_unavailable(&Vec::new()).message(),
        format!("{missing}pdfium.dll was not found next to the executable, in the working directory, or in vendor/lib")
    );
    assert_eq!(
        library_unavailable(&vec![String::from("a: no"), String::from("b: no")]).message(),
        format!("{missing}a: no; b: no")
    );
    assert_eq!(
        symbol_missing("FPDF_LoadPage").message(),
        format!("{missing}FPDF_LoadPage is missing from this build of pdfium.dll")
    );
    assert_eq!(
        AppError::Pen(String::from("no tablet")).message(),
        "pen input is unavailable: no tablet"
    );
    assert_eq!(
        AppError::IndexIo(String::from("denied")).message(),
        "the index of opened notes could not be accessed: denied"
    );
    assert_eq!(
        AppError::IndexFormat(String::from("no JSON")).message(),
        "the index of opened notes is not valid: no JSON"
    );
}

/// A frame never waits for a render, and a render never runs while the pen moves.
#[test]
fn a_render_waits_for_its_turn() {
    let mut pump = Pump::new();
    assert_eq!(pump.frame(None, true, 2304, false, false, None), Frame::Nothing);
    assert_eq!(pump.frame(Some(4), false, 2304, false, false, None), Frame::Nothing);
    let wanted = PageRequest { page: 4, pixels: 2304, grayscale: true };
    assert_eq!(
        pump.frame(Some(4), true, 2304, true, false, Some(wanted)),
        Frame::Preview(PageRequest { page: 4, pixels: 1024, grayscale: true })
    );
    assert_eq!(pump.pending, Some(wanted));
    assert_eq!(pump.serve(10, 10), Serve::Nothing, "the pen is moving");
    assert_eq!(pump.serve(10, 10 + PDF_QUIET_NANOS), Serve::Begin(wanted));
    assert_eq!(pump.serve(10, 10 + PDF_QUIET_NANOS), Serve::Advance);
    assert!(!pump.advanced(&Progress::Unfinished));

    let sharper = PageRequest { pixels: 3456, ..wanted };
    assert_eq!(pump.frame(Some(4), true, 3456, true, true, Some(sharper)), Frame::Cached);
    assert_eq!(pump.cancelled, 1, "the request that was replaced is counted");
    assert_eq!(pump.serve(10, 10 + PDF_QUIET_NANOS), Serve::Begin(sharper));
    assert!(pump.advanced(&Progress::Finished));
    assert_eq!(pump.pending, None);
    assert_eq!(pump.serve(0, 0), Serve::Nothing);

    pump.plan(wanted, Some(wanted));
    assert_eq!(pump.serve(0, PDF_QUIET_NANOS), Serve::Begin(wanted));
    pump.plan(wanted, None);
    assert_eq!(pump.serve(0, 0), Serve::Abandon, "nobody is waiting for it");
    pump.plan(wanted, Some(wanted));
    assert_eq!(pump.serve(0, PDF_QUIET_NANOS), Serve::Begin(wanted));
    pump.refused();
    assert_eq!(pump.serve(0, PDF_QUIET_NANOS), Serve::Nothing, "it is not tried again");
    assert!(pump.advanced(&Progress::Failed(String::from("no"))));
}

/// The pen draws only where a person can see what it draws, and a half-typed name is left alone.
#[test]
fn the_pen_draws_on_a_sheet_that_is_in_front() {
    assert!(pen_draws(false, false));
    assert!(!pen_draws(true, false), "a name is being typed");
    assert!(!pen_draws(false, true), "the list is in front");

    assert_eq!(ask_note_name(true, true), Naming::Busy);
    assert_eq!(ask_note_name(false, false), Naming::NoNote);
    assert_eq!(ask_note_name(false, true), Naming::Ask);
}

/// A scan that took in folders nobody had mentioned is followed by one that reads their counts.
#[test]
fn a_scan_that_adopts_is_followed_by_another() {
    let read = vec![Article {
        folder: String::from("C:/notes/first"),
        stamp: Stamp { mtime_ms: 1, len: 2 },
        summary: Summary::default(),
    }];

    assert!(scans_again(true, &Vec::new()));
    assert!(!scans_again(false, &Vec::new()));
    assert!(!scans_again(true, &read), "the counts that were read are the last change");
}

/// A bitmap's pixels are taken over when there are enough of them for its size.
#[test]
fn a_bitmap_is_taken_over_when_it_fits() {
    let pixels: Vec<u8> = (0..24).collect();

    let page = page_image(3, 2, pixels.clone()).expect("six pixels of four bytes");
    assert_eq!((page.width, page.height), (3, 2));
    assert_eq!(page.bytes, pixels);

    let error = page_image(3, 3, pixels.clone()).expect_err("nine pixels need more");
    assert_eq!(error.message(), MISMATCH);

    let nothing = page_image(-1, 5, Vec::new()).expect("a negative size is no pixels at all");
    assert_eq!((nothing.width, nothing.height), (0, 5));
    assert!(nothing.bytes.is_empty());
}

/// The bar marks what is in use, and a command that cannot act says so.
#[test]
fn the_bar_says_what_can_act() {
    let shown = Shown { toolbar: true, status: false, tilt_cursor: true };
    let row = command_row(Tool::Eraser, true, false, shown);

    let tools: Vec<(&str, bool)> = row.tools.iter().map(|tool| (tool.id, tool.active)).collect();
    assert_eq!(tools, vec![("tool-pen", false), ("tool-eraser", true)]);
    let actions: Vec<(&str, bool)> =
        row.actions.iter().map(|action| (action.id, action.enabled)).collect();
    assert_eq!(
        actions,
        vec![
            ("home", true),
            ("undo", true),
            ("redo", false),
            ("clear", true),
            ("open-note", true),
            ("save-note", true)
        ]
    );
    let switches: Vec<bool> = row.switches.iter().map(|switch| switch.active).collect();
    assert_eq!(switches, vec![true, false, true]);

    let sheet = sheet_row(0xFA_F3_E3, 0xDC_26_26, true);
    assert_eq!(sheet.paper_in_use, vec![false, true, false, false, false, false]);
    assert_eq!(sheet.ink_in_use, vec![false, false, true, false, false, false]);
    assert!(sheet.grayscale.active);
    assert_eq!(sheet.pages[2].label, "Delete this page");
}

/// Two controls that shared an element id would share their hover and press state.
#[test]
fn every_control_of_the_window_has_its_own_element_id() {
    let row = command_row(
        Tool::Pen,
        true,
        true,
        Shown { toolbar: true, status: true, tilt_cursor: true },
    );
    let sheet = sheet_row(0, 0, false);
    let pill = page_pill(0, 1);

    let mut ids: Vec<&str> = Vec::new();
    for control in row.tools.iter().chain(&row.actions).chain(&row.switches).chain(&sheet.pages) {
        ids.push(control.id);
    }
    for control in zoom_steps().iter() {
        ids.push(control.id);
    }
    for swatch in sheet.papers.iter().chain(&sheet.inks) {
        ids.push(swatch.id);
    }
    ids.push(pill.previous.id);
    ids.push(pill.next.id);
    ids.push(sheet.grayscale.id);
    ids.push(bar_handle().id);

    let count = ids.len();
    ids.sort();
    ids.dedup();
    assert_eq!(ids.len(), count);
    assert_eq!(count, 2 + 6 + 3 + 3 + 2 + 12 + 4);
}

/// The page pill counts from one, and never counts to nothing.
#[test]
fn the_page_pill_counts_from_one() {
    assert_eq!(page_pill(0, 0).text, "1 / 1");
    assert_eq!(page_pill(11, 340).text, "12 / 340");
}

/// A hidden bar leaves a way back.
#[test]
fn the_bar_can_be_brought_back() {
    let hidden = Shown { toolbar: false, status: false, tilt_cursor: true };
    assert_eq!(front(true, hidden), Front::Home);

    match front(false, hidden) {
        Front::Sheet(around) => {
            assert!(!around.bar && around.handle && !around.status);
            assert!(around.page && around.zoom, "a view zoomed into a corner still has a way out");
        }
        Front::Home => panic!("the sheet is in front"),
    }
}

/// A name is edited where it is read, and only when it is asked for.
#[test]
fn a_title_is_a_field_while_it_is_typed() {
    assert_eq!(title_chip(true, "chapter"), TitleChip::Field);
    assert_eq!(title_chip(false, "chapter"), TitleChip::Name);
    assert_eq!(title_chip(false, ""), TitleChip::Untitled);
    assert!(!click_names(1) && click_names(2) && click_names(3));
    assert!(frame_is_due(true, false) && frame_is_due(false, true) && !frame_is_due(false, false));
}
