//! The ink model, fed with readings of a pen over a sheet.

use cheap_note::ink::{InkDocument, PenPhase, Place, Reading, Stroke};
use cheap_note::notes::Notes;
use std::sync::Arc;

/// One reading of a pen, in physical pixels.
#[derive(Clone, Copy, Debug, PartialEq)]
struct Sample {
    phase: PenPhase,
    id: u32,
    x: f32,
    y: f32,
    pressure: Option<f32>,
    eraser: bool,
}

/// How a reading becomes a place on the sheet.
#[derive(Clone, Copy, Debug)]
struct Transform {
    scale: f32,
    zoom: f32,
    origin: (f32, f32),
    paper: (f32, f32),
}

/// What the line looks like.
#[derive(Clone, Copy, Debug)]
struct Settings {
    ink_color: u32,
    resample_spacing: f32,
    min_width: f32,
    max_width: f32,
    no_pressure_width: f32,
    erase_radius: f32,
}

type Page = InkDocument<f32, Sample>;

fn settings() -> Settings {
    Settings {
        ink_color: 0x1C_1C_1E,
        resample_spacing: 0.75,
        min_width: 1.0,
        max_width: 4.5,
        no_pressure_width: 2.0,
        erase_radius: 14.0,
    }
}

fn id() -> Transform {
    Transform { scale: 1.0, zoom: 1.0, origin: (0.0, 0.0), paper: (0.0, 0.0) }
}

fn papered() -> Transform {
    Transform { paper: (595.0, 842.0), ..id() }
}

fn reading(id: u32, phase: PenPhase, x: f32, y: f32, pressure: Option<f32>) -> Sample {
    Sample { phase, id, x, y, pressure, eraser: false }
}

fn has_paper(t: &Transform) -> bool {
    t.paper.0 > 0.0 && t.paper.1 > 0.0
}

fn on_paper(t: &Transform, (x, y): (f32, f32)) -> bool {
    !has_paper(t) || ((0.0..=t.paper.0).contains(&x) && (0.0..=t.paper.1).contains(&y))
}

fn onto_paper(t: &Transform, (x, y): (f32, f32)) -> (f32, f32) {
    if has_paper(t) {
        (x.clamp(0.0, t.paper.0), y.clamp(0.0, t.paper.1))
    } else {
        (x, y)
    }
}

fn squared(x0: f32, y0: f32, x1: f32, y1: f32) -> f32 {
    (x1 - x0) * (x1 - x0) + (y1 - y0) * (y1 - y0)
}

fn to_segment(x: f32, y: f32, from: (f32, f32), to: (f32, f32)) -> f32 {
    let (dx, dy) = (to.0 - from.0, to.1 - from.1);
    let length = dx * dx + dy * dy;
    if length <= f32::EPSILON {
        return squared(x, y, from.0, from.1);
    }
    let t = (((x - from.0) * dx + (y - from.1) * dy) / length).clamp(0.0, 1.0);
    squared(x, y, from.0 + t * dx, from.1 + t * dy)
}

fn hits(stroke: &Stroke<f32>, x: f32, y: f32, radius: f32) -> bool {
    if stroke.points.len() == 1 {
        return squared(x, y, stroke.points[0].x, stroke.points[0].y) <= radius * radius;
    }
    stroke.points.windows(2).any(|pair| {
        to_segment(x, y, (pair[0].x, pair[0].y), (pair[1].x, pair[1].y)) <= radius * radius
    })
}

fn width_for(s: &Settings, pressure: f32) -> f32 {
    s.min_width + pressure.clamp(0.0, 1.0) * (s.max_width - s.min_width)
}

/// What is measured of a reading against a page, and which strokes of it an eraser there touches.
fn measured(
    ink: &Page,
    sample: &Sample,
    t: &Transform,
    s: &Settings,
) -> (Reading<f32, Sample>, Vec<bool>) {
    let mapped =
        ((sample.x / t.scale - t.origin.0) / t.zoom, (sample.y / t.scale - t.origin.1) / t.zoom);
    let (x, y) = onto_paper(t, mapped);
    let near = ink.open().and_then(|open| open.points.last()).is_some_and(|last| {
        squared(last.x, last.y, x, y) < s.resample_spacing * s.resample_spacing
    });
    let settled = ink.last_erase().is_some_and(|last| {
        let step = s.erase_radius * 0.5;
        squared(last.x, last.y, x, y) < step * step
    });
    let mut touched: Vec<bool> =
        ink.finished().iter().map(|stroke| hits(stroke, x, y, s.erase_radius)).collect();
    if let Some(open) = ink.open() {
        touched.push(hits(open, x, y, s.erase_radius));
    }
    let contact = sample.phase == PenPhase::Down || sample.phase == PenPhase::Move;
    let reading = Reading {
        sample: *sample,
        phase: sample.phase,
        id: sample.id,
        eraser: sample.eraser,
        inverted: false,
        on_paper: on_paper(t, mapped),
        place: Place { x, y },
        smoothed: Place { x, y },
        near,
        settled,
        pressed: sample.pressure.filter(|_| contact).map(|pressure| width_for(s, pressure)),
        unpressed: s.no_pressure_width,
    };
    (reading, touched)
}

/// Feeds readings to a page, measuring each of them against the page as it is.
fn consume(ink: &mut Page, samples: &[Sample], t: &Transform, s: &Settings) -> bool {
    ink.consume_batch(samples, s.ink_color, |page: &Page, sample: &Sample| {
        measured(page, sample, t, s)
    })
}

/// A page of `count` two-point strokes, each 10 px apart.
fn page_with(count: usize) -> Page {
    let mut ink = Page::default();
    let s = settings();

    for index in 0..count {
        let x = (index % 40) as f32 * 10.0;
        let y = (index / 40) as f32 * 10.0;
        consume(&mut ink, &[reading(7, PenPhase::Down, x, y, Some(0.5))], &id(), &s);
        consume(&mut ink, &[reading(7, PenPhase::Up, x + 4.0, y, None)], &id(), &s);
    }

    ink
}

/// The pages that hold ink, in page order.
fn inked(notes: &mut Notes<f32, Sample>) -> Vec<usize> {
    let here = notes.page();
    let mut pages = Vec::new();
    for page in 0..10 {
        notes.go_to(page);
        if !notes.current().is_blank() {
            pages.push(page);
        }
    }
    notes.go_to(here);
    pages
}

/// One stroke written on the page the notes are on, starting at `x`.
fn write(notes: &mut Notes<f32, Sample>, s: &Settings, x: f32) {
    let ink = notes.current_mut();
    consume(ink, &[reading(7, PenPhase::Down, x, x, Some(0.5))], &id(), s);
    consume(ink, &[reading(7, PenPhase::Up, x + 4.0, x, None)], &id(), s);
}

/// The edges are what make a stroke: a down, positions, and an up.
#[test]
fn a_down_and_up_make_one_stroke() {
    let mut ink = Page::default();
    let s = settings();

    consume(&mut ink, &[reading(7, PenPhase::Down, 10.0, 10.0, Some(0.5))], &id(), &s);
    consume(&mut ink, &[reading(7, PenPhase::Move, 14.0, 10.0, Some(0.5))], &id(), &s);
    consume(&mut ink, &[reading(7, PenPhase::Up, 18.0, 10.0, None)], &id(), &s);

    assert_eq!(ink.stroke_count(), 1);
    assert!(ink.open().is_none(), "the lift closed the stroke");
    let stroke = &ink.finished()[0];
    assert_eq!(stroke.points.len(), 3, "down, move and the lift");
    assert_eq!(stroke.points[2].x, 18.0, "the lift is the last point");
}

/// Each stroke keeps the pen it was written with.
#[test]
fn a_stroke_keeps_the_colour_it_was_written_in() {
    let mut ink = Page::default();
    let mut s = settings();

    s.ink_color = 0xDC_26_26;
    consume(&mut ink, &[reading(7, PenPhase::Down, 10.0, 10.0, Some(0.5))], &id(), &s);
    consume(&mut ink, &[reading(7, PenPhase::Up, 18.0, 10.0, None)], &id(), &s);

    s.ink_color = 0x1D_4E_D8;
    consume(&mut ink, &[reading(7, PenPhase::Down, 10.0, 40.0, Some(0.5))], &id(), &s);
    consume(&mut ink, &[reading(7, PenPhase::Up, 18.0, 40.0, None)], &id(), &s);

    assert_eq!(ink.finished().len(), 2);
    assert_eq!(ink.finished()[0].color, 0xDC_26_26, "the red line stays red");
    assert_eq!(ink.finished()[1].color, 0x1D_4E_D8, "the blue line is blue");
}

/// A cancel ends the stroke but does not add the position it carries.
#[test]
fn a_cancel_ends_the_stroke_without_its_position() {
    let mut ink = Page::default();
    let s = settings();

    consume(&mut ink, &[reading(7, PenPhase::Down, 10.0, 10.0, Some(0.5))], &id(), &s);
    consume(&mut ink, &[reading(7, PenPhase::Move, 20.0, 10.0, Some(0.5))], &id(), &s);
    consume(&mut ink, &[reading(7, PenPhase::Cancel, 999.0, 999.0, None)], &id(), &s);

    assert_eq!(ink.stroke_count(), 1);
    assert_eq!(ink.finished()[0].points.len(), 2);
    assert_eq!(
        ink.finished()[0].points.last().unwrap().x,
        20.0,
        "the cancel position is not ink"
    );
}

/// A reading from another pointer does not extend the open stroke.
#[test]
fn a_second_pointer_does_not_extend_the_open_stroke() {
    let mut ink = Page::default();
    let s = settings();

    consume(&mut ink, &[reading(7, PenPhase::Down, 10.0, 10.0, Some(0.5))], &id(), &s);
    consume(&mut ink, &[reading(9, PenPhase::Move, 500.0, 10.0, Some(0.5))], &id(), &s);
    consume(&mut ink, &[reading(7, PenPhase::Up, 20.0, 10.0, None)], &id(), &s);

    assert_eq!(ink.stroke_count(), 1);
    let xs: Vec<f32> = ink.finished()[0].points.iter().map(|p| p.x).collect();
    assert_eq!(xs, [10.0, 20.0], "the second pointer's reading is not ink here");
}

/// Hover readings move a cursor but never lay ink, and a stray lift closes nothing.
#[test]
fn hovering_lays_no_ink() {
    let mut ink = Page::default();
    let s = settings();

    let changed = consume(
        &mut ink,
        &[
            reading(7, PenPhase::Enter, 0.0, 0.0, None),
            reading(7, PenPhase::Hover, 10.0, 0.0, None),
            reading(7, PenPhase::Up, 20.0, 0.0, None),
        ],
        &id(),
        &s,
    );

    assert_eq!(ink.stroke_count(), 0);
    assert!(ink.is_blank());
    assert!(!changed, "and there is nothing to repaint");
    assert_eq!(ink.stats().readings, 3, "though every reading is counted");
}

/// A nib that comes down beside the page draws nothing.
#[test]
fn a_nib_that_comes_down_off_the_paper_draws_nothing() {
    let mut ink = Page::default();
    let s = settings();
    let t = papered();

    consume(&mut ink, &[reading(7, PenPhase::Down, 900.0, 400.0, Some(0.5))], &t, &s);
    consume(&mut ink, &[reading(7, PenPhase::Move, 300.0, 400.0, Some(0.5))], &t, &s);
    consume(&mut ink, &[reading(7, PenPhase::Up, 300.0, 400.0, None)], &t, &s);

    assert_eq!(ink.stroke_count(), 0, "the desk is not paper");
    assert!(ink.open().is_none());
    assert_eq!(ink.stats().off_paper, 1, "and the nib that landed there is counted");
}

/// A line that leaves the paper is pulled back to its edge, rather than drawn beside it.
#[test]
fn a_line_that_leaves_the_paper_stops_at_its_edge() {
    let mut ink = Page::default();
    let s = settings();
    let t = papered();

    consume(&mut ink, &[reading(7, PenPhase::Down, 100.0, 100.0, Some(0.5))], &t, &s);
    // Past the right edge by 300 px, then back on the page at the same height.
    consume(&mut ink, &[reading(7, PenPhase::Move, 900.0, 100.0, Some(0.5))], &t, &s);
    consume(&mut ink, &[reading(7, PenPhase::Move, 400.0, 100.0, Some(0.5))], &t, &s);
    consume(&mut ink, &[reading(7, PenPhase::Up, 400.0, 100.0, None)], &t, &s);

    let strokes = ink.finished();
    assert_eq!(strokes.len(), 1);
    let xs: Vec<f32> = strokes[0].points.iter().map(|p| p.x).collect();

    assert!(
        strokes[0].points.iter().all(|p| on_paper(&t, (p.x, p.y))),
        "every point of it is on the paper: {xs:?}"
    );
    assert!(
        xs.contains(&t.paper.0),
        "the reading past the edge came back as the edge itself: {xs:?}"
    );
    assert_eq!(
        ink.stats().off_paper,
        1,
        "the one reading past the edge is counted"
    );
}

/// A pen with no pressure sensor draws at the constant width, not at zero.
#[test]
fn a_pen_with_no_sensor_draws_a_constant_width() {
    let mut ink = Page::default();
    let s = settings();

    consume(&mut ink, &[reading(7, PenPhase::Down, 0.0, 0.0, None)], &id(), &s);
    consume(&mut ink, &[reading(7, PenPhase::Move, 20.0, 0.0, None)], &id(), &s);
    consume(&mut ink, &[reading(7, PenPhase::Up, 40.0, 0.0, None)], &id(), &s);

    for point in &ink.finished()[0].points {
        assert_eq!(point.width, s.no_pressure_width);
    }
}

/// The resampler drops points that are too close, but never the lift.
#[test]
fn the_resampler_keeps_the_lift_and_drops_the_clutter() {
    let mut ink = Page::default();
    let s = Settings { resample_spacing: 10.0, ..settings() };

    consume(&mut ink, &[reading(7, PenPhase::Down, 0.0, 0.0, Some(0.5))], &id(), &s);
    for step in 1..=9 {
        // Each reading is 1 px from the last: all of them are below the spacing.
        consume(
            &mut ink,
            &[reading(7, PenPhase::Move, step as f32, 0.0, Some(0.5))],
            &id(),
            &s,
        );
    }
    consume(&mut ink, &[reading(7, PenPhase::Up, 9.5, 0.0, None)], &id(), &s);

    let stroke = &ink.finished()[0];
    assert_eq!(stroke.points.len(), 2, "the down and the lift");
    assert_eq!(
        stroke.points[1].x, 9.5,
        "the stroke ends where the pen lifted"
    );
    assert!(
        ink.stats().resampled >= 8,
        "the clutter was counted, not drawn"
    );
}

/// Undo removes the most recent stroke and nothing else.
#[test]
fn undo_removes_the_most_recent_stroke() {
    let mut ink = page_with(3);
    assert_eq!(ink.stroke_count(), 3);

    assert!(ink.can_undo(), "there is something to take back");
    assert!(ink.undo());
    assert_eq!(ink.stroke_count(), 2);
    assert!(ink.undo());
    assert!(ink.undo());
    assert!(!ink.undo(), "there is nothing left to undo");
    assert!(ink.is_blank());
    assert!(!ink.can_undo(), "and the interface can say so beforehand");
}

/// Redo puts back exactly what undo took away, in the order they went, and never doubles back
/// further than the undos reached.
#[test]
fn redo_puts_back_what_undo_took_away() {
    let mut ink = page_with(3);
    assert!(!ink.can_redo(), "nothing has been taken back yet");

    ink.undo();
    ink.undo();
    assert_eq!(ink.stroke_count(), 1);
    assert!(ink.can_redo());

    assert!(ink.redo());
    assert_eq!(ink.stroke_count(), 2);
    assert_eq!(
        ink.finished()[1].points[0].x,
        10.0,
        "the stroke that came back is the one that went"
    );

    assert!(ink.redo());
    assert_eq!(ink.stroke_count(), 3);
    assert!(!ink.redo(), "and there is nothing left to put forward");
    assert!(!ink.can_redo());
}

/// A stroke drawn after an undo is a new drawing: what was taken back is not put forward again.
#[test]
fn a_stroke_drawn_after_an_undo_ends_the_branch() {
    let mut ink = page_with(2);
    let s = settings();

    ink.undo();
    assert!(ink.can_redo());

    consume(&mut ink, &[reading(7, PenPhase::Down, 900.0, 0.0, Some(0.5))], &id(), &s);
    consume(&mut ink, &[reading(7, PenPhase::Up, 940.0, 0.0, None)], &id(), &s);

    assert!(
        !ink.can_redo(),
        "the new stroke ended the branch the undo left"
    );
    assert!(!ink.redo(), "and there is nothing to put forward");
    assert_eq!(ink.stroke_count(), 2, "the page is what was drawn on it");
}

/// The stroke under the nib is not history: undo takes the stroke before it and leaves the pen's own
/// line — and the pen — exactly as they were.
#[test]
fn undo_leaves_the_line_under_the_nib_alone() {
    let mut ink = page_with(1);
    let s = settings();

    consume(&mut ink, &[reading(7, PenPhase::Down, 500.0, 0.0, Some(0.5))], &id(), &s);
    consume(&mut ink, &[reading(7, PenPhase::Move, 600.0, 0.0, Some(0.5))], &id(), &s);
    assert!(ink.open().is_some(), "the pen is drawing");

    assert!(ink.undo());
    assert_eq!(ink.stroke_count(), 1, "the finished stroke was taken back");
    assert_eq!(
        ink.open().map(|open| open.points.len()),
        Some(2),
        "the line being drawn was not touched"
    );

    // The stroke keeps growing: an undo must not leave the model thinking the pen was lifted.
    consume(&mut ink, &[reading(7, PenPhase::Move, 700.0, 0.0, Some(0.5))], &id(), &s);
    assert_eq!(
        ink.open().map(|open| open.points.len()),
        Some(3),
        "the pen went on drawing"
    );

    consume(&mut ink, &[reading(7, PenPhase::Up, 700.0, 0.0, None)], &id(), &s);
    assert_eq!(
        ink.stroke_count(),
        1,
        "the stroke the pen was drawing was finished on the page"
    );
    assert!(ink.open().is_none());
}

/// With nothing finished on the page there is nothing to take back, even while the pen is down.
#[test]
fn a_page_with_no_finished_stroke_has_nothing_to_undo() {
    let mut ink = Page::default();
    let s = settings();

    consume(&mut ink, &[reading(7, PenPhase::Down, 10.0, 10.0, Some(0.5))], &id(), &s);

    assert!(!ink.can_undo());
    assert!(!ink.undo(), "the pen's own line is not history");
    assert!(ink.open().is_some(), "and it is still there");
}

/// Erasing is a change of its own, so it ends the branch an undo left open.
#[test]
fn erasing_ends_the_branch() {
    let mut ink = page_with(2);
    let s = settings();

    ink.undo();
    assert!(ink.can_redo());
    assert_eq!(ink.stroke_count(), 1);

    // The eraser nib passes over the stroke that is still there.
    let mut eraser = reading(7, PenPhase::Down, 0.0, 0.0, None);
    eraser.eraser = true;
    consume(&mut ink, &[eraser], &id(), &s);

    assert_eq!(ink.stroke_count(), 0, "the stroke the eraser touched is gone");
    assert!(!ink.can_redo(), "and the eraser ended the branch");
}

/// Clearing says the page holds nothing, in both directions.
#[test]
fn clearing_ends_both_directions() {
    let mut ink = page_with(3);

    ink.undo();
    assert!(ink.can_undo() && ink.can_redo());

    ink.clear();
    assert!(ink.is_blank());
    assert!(!ink.can_undo());
    assert!(
        !ink.can_redo(),
        "nothing can be put back onto an emptied page"
    );
}

/// Turning the page and turning back keeps a page's redo, even though the page itself is empty: a
/// page turn is not an edit.
#[test]
fn a_page_turn_keeps_what_can_be_redone() {
    let mut notes = Notes::new();
    let s = settings();

    let ink = notes.current_mut();
    consume(ink, &[reading(7, PenPhase::Down, 10.0, 10.0, Some(0.5))], &id(), &s);
    consume(ink, &[reading(7, PenPhase::Up, 30.0, 30.0, None)], &id(), &s);
    ink.undo();
    assert!(notes.current().is_blank(), "the page it was drawn on is empty again");

    notes.go_to(1);
    notes.go_to(0);

    assert!(notes.current().can_redo(), "the way back survived the page turn");
    assert!(notes.current_mut().redo());
    assert_eq!(notes.current().stroke_count(), 1);
    assert_eq!(
        inked(&mut notes),
        vec![0],
        "and the page counts as written on again"
    );
}

/// Physical pixels are divided by the window's scale exactly once.
#[test]
fn ink_the_dpi_scale_is_applied_once() {
    let mut ink = Page::default();
    let s = settings();
    let scaled = Transform { scale: 1.5, ..id() };

    consume(&mut ink, &[reading(7, PenPhase::Down, 150.0, 90.0, Some(0.5))], &scaled, &s);
    consume(&mut ink, &[reading(7, PenPhase::Up, 300.0, 180.0, None)], &scaled, &s);

    assert_eq!(ink.finished()[0].points[0].x, 100.0);
    assert_eq!(ink.finished()[0].points[1].y, 120.0);
}

/// The eraser removes the strokes it passes over and leaves the rest alone.
#[test]
fn the_eraser_removes_only_what_it_touches() {
    let mut ink = Page::default();
    let s = settings();

    consume(&mut ink, &[reading(7, PenPhase::Down, 0.0, 0.0, Some(0.5))], &id(), &s);
    consume(&mut ink, &[reading(7, PenPhase::Up, 40.0, 0.0, None)], &id(), &s);
    consume(&mut ink, &[reading(7, PenPhase::Down, 500.0, 0.0, Some(0.5))], &id(), &s);
    consume(&mut ink, &[reading(7, PenPhase::Up, 540.0, 0.0, None)], &id(), &s);
    assert_eq!(ink.stroke_count(), 2);

    // The eraser nib touches the first stroke only.
    let mut eraser = reading(7, PenPhase::Down, 20.0, 0.0, None);
    eraser.eraser = true;
    consume(&mut ink, &[eraser], &id(), &s);

    assert_eq!(ink.stroke_count(), 1);
    assert_eq!(ink.finished()[0].points[0].x, 500.0);
    assert_eq!(ink.stats().erased_strokes, 1);
}

/// Ink belongs to the paper, not to the window: a reading becomes the place on the sheet that the
/// reader sees the nib at.
#[test]
fn ink_lands_where_the_sheet_is_drawn() {
    let mut ink = Page::default();
    let s = settings();

    // A sheet drawn at 2x, its top-left corner 100 px into the window.
    let sheet = Transform { zoom: 2.0, origin: (100.0, 60.0), ..id() };
    consume(&mut ink, &[reading(7, PenPhase::Down, 300.0, 160.0, Some(0.5))], &sheet, &s);

    let point = ink.open().expect("a stroke").points[0];
    assert_eq!((point.x, point.y), (100.0, 50.0), "(300-100)/2, (160-60)/2");

    // The same reading on a sheet at its own size, drawn at the origin, is the reading.
    let mut flat = Page::default();
    consume(&mut flat, &[reading(7, PenPhase::Down, 300.0, 160.0, Some(0.5))], &id(), &s);
    let point = flat.open().expect("a stroke").points[0];
    assert_eq!((point.x, point.y), (300.0, 160.0));
}

/// Ending a stroke must not copy the page's ink: the pointers are the assertion.
#[test]
fn ending_a_stroke_does_not_copy_the_page() {
    let mut ink = Page::default();
    let s = settings();

    let mut before: Vec<Arc<Stroke<f32>>> = Vec::new();
    for index in 0..64 {
        let x = index as f32 * 10.0;
        consume(&mut ink, &[reading(7, PenPhase::Down, x, 0.0, Some(0.5))], &id(), &s);
        consume(&mut ink, &[reading(7, PenPhase::Up, x + 4.0, 0.0, None)], &id(), &s);

        if index < 63 {
            before = ink.finished().iter().map(Arc::clone).collect();
        }
    }

    assert_eq!(ink.finished().len(), 64);
    assert_eq!(before.len(), 63);
    assert!(
        before.iter().zip(ink.finished()).all(|(held, now)| Arc::ptr_eq(held, now)),
        "the first sixty-three strokes are the same allocations they were"
    );
}

/// A reading that erases nothing must not copy the page's ink.
#[test]
fn erasing_blank_paper_does_not_copy_the_page() {
    let mut ink = page_with(200);
    let s = settings();

    let before: Vec<Arc<Stroke<f32>>> = ink.finished().iter().map(Arc::clone).collect();

    let mut eraser = reading(7, PenPhase::Move, 0.0, 0.0, None);
    eraser.eraser = true;
    consume(&mut ink, &[eraser], &id(), &s);

    assert!(
        before.iter().zip(ink.finished()).all(|(held, now)| Arc::ptr_eq(held, now)),
        "no stroke was copied for a reading that touched nothing"
    );
    assert_eq!(ink.finished().len(), 200);
}

/// Ink stays on the page it was written on.
#[test]
fn ink_stays_on_the_page_it_was_written_on() {
    let mut notes = Notes::new();
    let s = settings();

    let ink = notes.current_mut();
    consume(ink, &[reading(7, PenPhase::Down, 10.0, 10.0, Some(0.5))], &id(), &s);
    consume(ink, &[reading(7, PenPhase::Up, 30.0, 30.0, None)], &id(), &s);

    assert_eq!(notes.current().stroke_count(), 1, "page one has the stroke");

    notes.go_to(1);
    assert!(notes.current().is_blank(), "page two is empty");
    assert_eq!(notes.current().stroke_count(), 0);

    let ink = notes.current_mut();
    consume(ink, &[reading(7, PenPhase::Down, 50.0, 50.0, Some(0.5))], &id(), &s);
    consume(ink, &[reading(7, PenPhase::Up, 70.0, 70.0, None)], &id(), &s);
    assert_eq!(notes.current().stroke_count(), 1, "page two has its own stroke");

    notes.go_to(0);
    assert_eq!(notes.current().stroke_count(), 1, "page one still has exactly its own");
    assert_eq!(inked(&mut notes), vec![0, 1], "and both pages are written on");

    let first = notes.current().finished()[0].points[0];
    assert_eq!((first.x, first.y), (10.0, 10.0), "page one's stroke is its own");
}

/// A page that was written on and left keeps its ink; a page that was never touched stays out of the
/// note.
#[test]
fn a_page_keeps_its_ink_and_a_blank_page_is_not_kept() {
    let mut notes = Notes::new();
    let s = settings();

    notes.go_to(3);
    assert!(notes.current().is_blank());
    let ink = notes.current_mut();
    consume(ink, &[reading(7, PenPhase::Down, 5.0, 5.0, Some(0.5))], &id(), &s);
    consume(ink, &[reading(7, PenPhase::Up, 9.0, 9.0, None)], &id(), &s);

    // Visiting pages that are not written on must not invent pages.
    notes.go_to(1);
    notes.go_to(2);
    notes.go_to(3);
    assert_eq!(inked(&mut notes), vec![3], "only the page with ink");
    assert_eq!(notes.current().stroke_count(), 1, "and its ink came back with it");
    assert_eq!(
        inked(&mut notes).last().map_or(1, |page| page + 1),
        4,
        "pages 0..=3 exist for turning"
    );
}

/// Inserting a page renames the pages after it, and the ink moves with the names.
#[test]
fn inserting_a_page_moves_the_ink_with_the_names() {
    let mut notes = Notes::new();
    let s = settings();

    // Page 0 and page 2 written on, page 1 left alone.
    write(&mut notes, &s, 1.0);
    notes.go_to(2);
    write(&mut notes, &s, 50.0);
    assert_eq!(inked(&mut notes), vec![0, 2]);

    // A page is inserted where page 1 was, and the reader turns to it.
    notes.insert_at(1);
    notes.go_to(1);

    assert!(notes.current().is_blank(), "the inserted page has no ink");
    assert_eq!(
        inked(&mut notes),
        vec![0, 3],
        "the page that was at 2 is now at 3"
    );

    notes.go_to(3);
    assert_eq!(notes.current().stroke_count(), 1, "and its ink moved with it");
    assert_eq!(notes.current().finished()[0].points[0].x, 50.0);
}

/// Deleting a page takes its ink with it, and shows the page that followed.
#[test]
fn deleting_a_page_takes_its_ink_and_shows_the_next_one() {
    let mut notes = Notes::new();
    let s = settings();

    write(&mut notes, &s, 1.0);
    notes.go_to(1);
    write(&mut notes, &s, 20.0);
    notes.go_to(2);
    write(&mut notes, &s, 40.0);
    assert_eq!(inked(&mut notes), vec![0, 1, 2]);

    // The page being shown is the one deleted: the reader lands on what followed it.
    notes.remove_at(1);

    assert_eq!(inked(&mut notes), vec![0, 1]);
    assert_eq!(notes.current().stroke_count(), 1, "the page that followed is on screen");
    assert_eq!(
        notes.current().finished()[0].points[0].x,
        40.0,
        "and it is the page that followed, not the one deleted"
    );

    // Deleting a page before the one being read keeps the reader on the same ink.
    notes.go_to(1);
    notes.remove_at(0);
    assert_eq!(notes.current().stroke_count(), 1);
    assert_eq!(notes.current().finished()[0].points[0].x, 40.0);
}

/// Deleting the page being read shows the page that followed it.
#[test]
fn deleting_the_page_being_read_shows_the_next_one() {
    let mut notes = Notes::new();
    let s = settings();

    write(&mut notes, &s, 1.0);
    notes.go_to(1);
    write(&mut notes, &s, 20.0);
    notes.go_to(2);
    write(&mut notes, &s, 40.0);
    notes.go_to(1);

    notes.remove_at(1);
    assert_eq!(notes.page(), 1);
    assert_eq!(notes.current().finished()[0].points[0].x, 40.0);
    assert_eq!(inked(&mut notes), vec![0, 1]);
}

/// The last page there can be is deleted like another.
#[test]
fn deleting_the_last_page_there_can_be() {
    let mut notes = Notes::new();
    let s = settings();

    write(&mut notes, &s, 1.0);
    notes.go_to(usize::MAX);
    write(&mut notes, &s, 20.0);
    notes.go_to(0);

    notes.remove_at(usize::MAX);
    assert_eq!(notes.page(), 0);
    assert_eq!(notes.current().finished()[0].points[0].x, 1.0);
    notes.go_to(usize::MAX);
    assert!(notes.current().is_blank());
}

/// Reading a note back puts each page's ink where it was written, and the page that was open is the
/// page on screen.
#[test]
fn putting_pages_back_restores_a_note() {
    let mut notes = Notes::new();

    // Two pages read out of the note, and the pen is turned to the second of them.
    notes.go_to(5);
    notes.put_page(5, page_with(4));
    notes.put_page(2, page_with(3));

    assert_eq!(
        notes.current().stroke_count(),
        4,
        "the page that was open is the one on screen"
    );
    assert_eq!(inked(&mut notes), vec![2, 5]);

    notes.go_to(2);
    assert_eq!(
        notes.current().stroke_count(),
        3,
        "and the other page is where it was read from"
    );
}

/// A down whose lift never arrived is kept when the next one comes.
#[test]
fn a_lost_lift_does_not_lose_the_line() {
    let mut ink = Page::default();
    let s = settings();
    consume(&mut ink, &[reading(7, PenPhase::Down, 10.0, 10.0, Some(0.5))], &id(), &s);
    consume(&mut ink, &[reading(7, PenPhase::Move, 60.0, 10.0, Some(0.5))], &id(), &s);
    consume(&mut ink, &[reading(9, PenPhase::Down, 200.0, 10.0, Some(1.0))], &id(), &s);
    assert_eq!(ink.finished().len(), 1);
    assert_eq!(ink.finished()[0].points.len(), 2);
    assert_eq!(ink.open().expect("the new line").points[0].width, 4.5);
    assert_eq!(ink.last_sample().map(|sample| sample.id), Some(9));
}

/// How readings are batched does not matter.
#[test]
fn batching_does_not_matter() {
    let s = settings();
    let readings = [
        reading(7, PenPhase::Hover, 1.0, 1.0, None),
        reading(7, PenPhase::Down, 10.0, 10.0, Some(0.5)),
        reading(7, PenPhase::Move, 20.0, 12.0, Some(0.6)),
        reading(9, PenPhase::Move, 90.0, 90.0, Some(0.6)),
        reading(7, PenPhase::Up, 30.0, 14.0, None),
        reading(7, PenPhase::Down, 50.0, 50.0, Some(0.5)),
        reading(7, PenPhase::Leave, 60.0, 60.0, None),
    ];
    let mut whole = Page::default();
    let changed = consume(&mut whole, &readings, &id(), &s);
    for at in 0..=readings.len() {
        let mut split = Page::default();
        let first = consume(&mut split, &readings[..at], &id(), &s);
        let second = consume(&mut split, &readings[at..], &id(), &s);
        assert_eq!(changed, first || second);
        assert_eq!(split.finished(), whole.finished());
        assert_eq!(split.stats().readings, readings.len() as u64);
        assert_eq!(split.stats().kept_points, whole.stats().kept_points);
        assert_eq!(split.last_sample().map(|sample| sample.phase), Some(PenPhase::Leave));
    }
}

/// A batch is what its readings are one by one, and an empty one changes nothing.
#[test]
fn a_batch_is_its_readings() {
    let s = settings();
    let readings = [
        reading(7, PenPhase::Down, 10.0, 10.0, Some(0.5)),
        reading(7, PenPhase::Move, 20.0, 12.0, Some(0.6)),
        reading(7, PenPhase::Up, 30.0, 14.0, None),
        Sample { eraser: true, ..reading(7, PenPhase::Down, 20.0, 12.0, None) },
        reading(7, PenPhase::Hover, 20.0, 12.0, None),
    ];
    let mut whole = Page::default();
    assert!(consume(&mut whole, &readings, &id(), &s));
    assert!(!consume(&mut whole, &[], &id(), &s));

    let mut one_by_one = Page::default();
    let mut changed = false;
    for sample in &readings {
        let (reading, touched) = measured(&one_by_one, sample, &id(), &s);
        changed |= one_by_one.consume(&reading, s.ink_color, &touched);
    }
    assert!(changed);
    assert_eq!(whole.finished().len(), 0, "the line was rubbed out");
    assert_eq!(whole.finished(), one_by_one.finished());
    assert_eq!(whole.stats().readings, 5);
    assert_eq!(whole.stats().erased_strokes, 1);
    assert_eq!(one_by_one.stats().erased_strokes, 1);
}
