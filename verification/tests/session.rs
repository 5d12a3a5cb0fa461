//! An open note: what is handed to it, and when.

use cheap_note::clock::BATCH_NANOS;
use cheap_note::ink::{InkDocument, InkPoint, PenPhase, Place, Reading, Stroke, Tool};
use cheap_note::note::Job;
use cheap_note::pages::Page;
use cheap_note::session::{Batch, Closing, Session, BATCH_STROKES};

type Desk = Session<i32, ()>;

/// A reading at a place.
fn reading(phase: PenPhase, x: i32, eraser: bool) -> Reading<i32, ()> {
    Reading {
        sample: (),
        phase,
        id: 7,
        eraser,
        inverted: false,
        on_paper: true,
        place: Place { x, y: 0 },
        smoothed: Place { x, y: 0 },
        near: false,
        settled: false,
        pressed: Some(3),
        unpressed: 2,
    }
}

/// Writes one stroke that starts at `x`.
fn draw(desk: &mut Desk, x: i32) {
    let none = vec![false; 1000];
    desk.consume(&reading(PenPhase::Down, x, false), 5, &none);
    desk.consume(&reading(PenPhase::Up, x + 1, false), 5, &none);
}

/// Erases the strokes that start at one of these places.
fn erase(desk: &mut Desk, xs: &[i32]) {
    let hits: Vec<bool> = desk
        .ink()
        .current()
        .finished()
        .iter()
        .map(|stroke| xs.contains(&stroke.points[0].x))
        .collect();
    desk.consume(&reading(PenPhase::Down, 0, true), 5, &hits);
    desk.consume(&reading(PenPhase::Up, 0, true), 5, &hits);
}

/// Where the strokes of the page start.
fn starts(desk: &Desk) -> Vec<i32> {
    desk.ink().current().finished().iter().map(|stroke| stroke.points[0].x).collect()
}

/// What a note stores of a page once a batch is done.
fn store(stored: &mut Vec<i32>, desk: &Desk, batch: Batch) {
    match desk.job(batch) {
        Some(Job::Append { strokes, .. }) => {
            stored.extend(strokes.iter().map(|stroke| stroke.points[0].x))
        }
        Some(Job::Rewrite { strokes, .. }) => {
            *stored = strokes.iter().map(|stroke| stroke.points[0].x).collect()
        }
        _ => {}
    }
}

/// A note with one page in it, written to from the start.
fn written() -> Desk {
    let mut desk = Desk::new(0);
    desk.note_made(0);
    desk
}

/// The first stroke makes the note.
#[test]
fn the_first_stroke_makes_the_note() {
    let mut desk = Desk::new(0);
    assert_eq!(desk.persist(0, false), Batch::Nothing);
    draw(&mut desk, 1);
    assert_eq!(desk.persist(0, false), Batch::MakeNote);
    desk.note_made(10);
    assert_eq!(desk.saved_at(), 10);
    assert!(!desk.needs_load(), "the page in hand is the note's");
    assert_eq!(desk.persist(10, false), Batch::Nothing, "the clock has just started");
    assert_eq!(desk.persist(10 + BATCH_NANOS, false), Batch::Append { page: 0, from: 0 });
}

/// A batch, not a write per stroke.
#[test]
fn ink_is_handed_over_in_batches() {
    let mut desk = written();
    draw(&mut desk, 1);
    assert_eq!(desk.persist(1, false), Batch::Nothing);
    for x in 2..=(BATCH_STROKES as i32) {
        draw(&mut desk, x);
    }
    assert_eq!(
        desk.persist(1, false),
        Batch::Append { page: 0, from: 0 },
        "a full batch does not wait for the clock"
    );
    assert_eq!(desk.persist(2 * BATCH_NANOS, false), Batch::Nothing, "and nothing is left");
    draw(&mut desk, 900);
    assert_eq!(
        desk.persist(2 * BATCH_NANOS, false),
        Batch::Append { page: 0, from: BATCH_STROKES }
    );
}

/// A page whose ink went down is written again.
#[test]
fn a_page_whose_ink_went_down_is_written_again() {
    let mut desk = written();
    draw(&mut desk, 1);
    draw(&mut desk, 2);
    assert_eq!(desk.persist(BATCH_NANOS, false), Batch::Append { page: 0, from: 0 });
    assert_eq!(desk.undo(BATCH_NANOS), Some(Batch::Rewrite { page: 0 }), "and at once");
    assert_eq!(desk.redo(BATCH_NANOS), Some(Batch::Append { page: 0, from: 1 }));
    assert_eq!(desk.clear(BATCH_NANOS), Some(Batch::Rewrite { page: 0 }));
    assert_eq!(desk.clear(BATCH_NANOS), None, "there is nothing to clear");
    assert_eq!(desk.undo(BATCH_NANOS), None);
    assert_eq!(desk.redo(BATCH_NANOS), None);
}

/// Whatever is done to a page, closing it leaves the note holding exactly its ink.
#[test]
fn closing_a_page_loses_nothing() {
    let mut desk = written();
    let mut stored = Vec::new();
    for x in 1..=3 {
        draw(&mut desk, x * 10);
    }
    let batch = desk.persist(BATCH_NANOS, false);
    store(&mut stored, &desk, batch);
    assert_eq!(stored, vec![10, 20, 30]);

    // One of them is erased and another drawn before the clock comes round: as many as before.
    erase(&mut desk, &[10]);
    draw(&mut desk, 40);
    assert_eq!(starts(&desk), vec![20, 30, 40]);
    let closing = desk.close_page(BATCH_NANOS + 1);
    assert_eq!(closing, Closing { batch: Batch::Rewrite { page: 0 }, compact: true });
    store(&mut stored, &desk, closing.batch);
    assert_eq!(stored, starts(&desk));

    // Ink that has not waited long enough goes out too.
    draw(&mut desk, 50);
    let closing = desk.close_page(BATCH_NANOS + 2);
    assert_eq!(closing, Closing { batch: Batch::Append { page: 0, from: 3 }, compact: true });
    store(&mut stored, &desk, closing.batch);
    assert_eq!(stored, starts(&desk));
}

/// Erasing what the note does not have yet is no reason to write the page again.
#[test]
fn erasing_fresh_ink_is_not_a_rewrite() {
    let mut desk = written();
    draw(&mut desk, 10);
    assert_eq!(desk.persist(BATCH_NANOS, false), Batch::Append { page: 0, from: 0 });
    draw(&mut desk, 20);
    draw(&mut desk, 30);
    erase(&mut desk, &[20]);
    assert_eq!(desk.persist(BATCH_NANOS, true), Batch::Append { page: 0, from: 1 });
}

/// A page nothing was written on is not folded into chunks.
#[test]
fn an_untouched_page_is_not_folded() {
    let mut desk = written();
    assert_eq!(desk.close_page(0), Closing { batch: Batch::Nothing, compact: false });
    let mut blank = Desk::new(0);
    draw(&mut blank, 1);
    assert_eq!(blank.close_page(0), Closing { batch: Batch::MakeNote, compact: false });
}

/// A note is opened on the page that was open, with nothing read yet.
#[test]
fn a_note_is_opened_where_it_was_left() {
    let mut desk = Desk::adopt(vec![Page::Document(0), Page::Blank], 1, &vec![0, 3], 2, 77);
    assert_eq!(desk.page_total(), 4, "the list covers the ink");
    assert_eq!(desk.page_index(), 2);
    assert_eq!(desk.saved_at(), 77);
    assert!(desk.needs_load());
    desk.page_loaded(2, vec![Stroke::new(InkPoint::new(1, 1, 1), 0)], 1);
    assert!(!desk.needs_load());
    assert_eq!(starts(&desk), vec![1]);
    assert_eq!(desk.persist(u64::MAX, true), Batch::Nothing, "the note has it already");

    let beyond = Desk::adopt(Vec::new(), 0, &Vec::new(), 9, 0);
    assert_eq!(beyond.page_total(), 1);
    assert_eq!(beyond.page_index(), 0);
}

/// Pages are turned one at a time, and not past either end.
#[test]
fn pages_are_turned_one_at_a_time() {
    let mut desk = Desk::adopt(Vec::new(), 3, &Vec::new(), 0, 0);
    assert_eq!(desk.previous_page(), None);
    assert_eq!(desk.next_page(), Some(1));
    desk.turn_to(2);
    assert_eq!(desk.next_page(), None);
    assert_eq!(desk.previous_page(), Some(1));
}

/// What is known of a page moves with it when one is added, and adding is undone by deleting.
#[test]
fn the_ledger_moves_with_its_page() {
    let mut desk = Desk::adopt(Vec::new(), 2, &Vec::new(), 1, 0);
    desk.page_loaded(1, vec![Stroke::new(InkPoint::new(9, 9, 9), 0)], 1);
    assert_eq!(desk.add_page(true), 1);
    assert_eq!(desk.page_total(), 3);
    assert_eq!(desk.page_index(), 1);
    assert!(desk.needs_load(), "nothing is known of the page that was added");
    assert_eq!(desk.pages().layout(), &[Page::Document(0), Page::Blank, Page::Document(1)]);
    desk.turn_to(2);
    assert!(!desk.needs_load(), "the page that moved is still loaded");
    assert_eq!(starts(&desk), vec![9]);
    desk.turn_to(1);
    assert_eq!(desk.delete_page(), Some(1));
    assert_eq!(desk.page_total(), 2);
    assert!(!desk.needs_load());
    assert_eq!(starts(&desk), vec![9], "the page that followed is shown");
    assert_eq!(desk.delete_page(), Some(0));
    assert_eq!(desk.delete_page(), None, "the only page is kept");
    assert_eq!(desk.page_total(), 1);
}

/// The tool in hand is the page's.
#[test]
fn the_tool_in_hand_is_kept() {
    let mut desk = written();
    desk.set_mode(Tool::Eraser);
    assert_eq!(desk.ink().current().mode(), Tool::Eraser);
}

/// A batch of readings is written to the page in front of the reader, and erasing in it what the note
/// has been handed is noticed.
#[test]
fn a_batch_reaches_the_page_in_front_of_the_reader() {
    let readings = [
        (PenPhase::Down, 4, false),
        (PenPhase::Up, 5, false),
        (PenPhase::Down, 8, false),
        (PenPhase::Up, 9, false),
    ];
    let measure = |ink: &InkDocument<i32, (PenPhase, i32, bool)>,
                   sample: &(PenPhase, i32, bool)| {
        let (phase, x, eraser) = *sample;
        let reading = Reading {
            sample: *sample,
            phase,
            id: 7,
            eraser,
            inverted: false,
            on_paper: true,
            place: Place { x, y: 0 },
            smoothed: Place { x, y: 0 },
            near: false,
            settled: false,
            pressed: Some(3),
            unpressed: 2,
        };
        let mut hits: Vec<bool> =
            ink.finished().iter().map(|stroke| stroke.points[0].x == x).collect();
        hits.extend(ink.open().map(|stroke| stroke.points[0].x == x));
        (reading, hits)
    };
    let mut desk: Session<i32, (PenPhase, i32, bool)> = Session::new(0);
    desk.note_made(0);
    assert!(desk.consume_batch(&readings, 5, measure));
    assert_eq!(desk.ink().current().finished().len(), 2);
    assert_eq!(desk.persist(1, true), Batch::Append { page: 0, from: 0 });

    assert!(desk.consume_batch(&[(PenPhase::Down, 4, true), (PenPhase::Up, 4, true)], 5, measure));
    assert_eq!(desk.ink().current().finished().len(), 1);
    assert_eq!(desk.persist(2, true), Batch::Rewrite { page: 0 });
    assert!(!desk.consume_batch(&[], 5, measure));
}
