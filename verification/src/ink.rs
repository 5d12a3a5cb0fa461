//! The ink model: readings in, strokes out.
//!
//! A pen reading is a point in time; a stroke is a line the user drew. Turning the first into the
//! second is what this module does:
//!
//! * **Edges decide the stroke.** `Down` begins one, `Up` ends it, and `Cancel`/`Leave` end it
//!   without adding the position they carry.
//! * **Readings belong to a pointer.** A reading from the wrong pointer must not extend the open
//!   stroke.
//! * **Any new ink ends the redo branch**, and so does an erase that removed something.
//! * **The stroke under the nib is not history**: undo leaves it exactly where it is.
//!
//! The geometry — where a reading lands, how near it is to the last point, which strokes the eraser
//! touches — is measured by the caller, in whatever unit the caller draws in, and handed over with
//! the reading.

use std::sync::Arc;
use vstd::prelude::*;

verus! {

/// One point of a stroke: a position and the width the pen drew it at.
///
/// The unit of the three values is the caller's: a window keeps logical pixels, a note file keeps
/// fixed-point units (see [`crate::chunk`]).
#[derive(Clone, Copy, Debug, PartialEq, Eq)]
pub struct InkPoint<T> {
    /// Horizontal position.
    pub x: T,
    /// Vertical position.
    pub y: T,
    /// The full stroke width at this point.
    pub width: T,
}

impl<T> InkPoint<T> {
    /// A point at the given position and width.
    pub fn new(x: T, y: T, width: T) -> (point: Self)
        ensures
            point == (InkPoint { x, y, width }),
    {
        InkPoint { x, y, width }
    }
}

/// A position on the sheet.
#[derive(Clone, Copy, Debug, PartialEq, Eq)]
pub struct Place<T> {
    /// Horizontal position.
    pub x: T,
    /// Vertical position.
    pub y: T,
}

/// What a stroke is, mathematically: its points, oldest first, and its colour.
#[verifier::ext_equal]
pub ghost struct Line<T> {
    pub points: Seq<InkPoint<T>>,
    pub color: u32,
}

/// A finished or in-progress line of ink.
#[derive(Clone, Debug, PartialEq)]
pub struct Stroke<T> {
    /// The positions, oldest first.
    pub points: Vec<InkPoint<T>>,
    /// The colour this stroke was written in, as `0xRRGGBB`.
    ///
    /// Per stroke, not per page: picking up a different pen must not repaint what the others wrote.
    pub color: u32,
}

impl<T> View for Stroke<T> {
    type V = Line<T>;

    open spec fn view(&self) -> Line<T> {
        Line { points: self.points@, color: self.color }
    }
}

/// The lines a run of strokes holds, in order.
pub open spec fn lines_of<T>(strokes: Seq<Stroke<T>>) -> Seq<Line<T>> {
    Seq::new(strokes.len(), |i: int| strokes[i]@)
}

/// The lines a run of shared strokes holds, in order.
pub open spec fn shared_lines<T>(strokes: Seq<Arc<Stroke<T>>>) -> Seq<Line<T>> {
    Seq::new(strokes.len(), |i: int| strokes[i]@)
}

impl<T> Stroke<T> {
    /// The colour of a stroke nobody chose one for.
    pub const DEFAULT_COLOR: u32 = 0x1B_1B_1F;

    /// A stroke beginning at one point.
    pub fn new(point: InkPoint<T>, color: u32) -> (stroke: Self)
        ensures
            stroke@ == (Line { points: seq![point], color }),
    {
        let mut points: Vec<InkPoint<T>> = Vec::new();
        points.push(point);
        assert(points@ =~= seq![point]);
        Stroke { points, color }
    }

    /// Whether this stroke has nothing to draw.
    pub fn is_empty(&self) -> (empty: bool)
        ensures
            empty == (self@.points.len() == 0),
    {
        self.points.len() == 0
    }
}

impl<T: Copy> Stroke<T> {
    /// A stroke of its own with the same points and colour.
    pub fn copied(&self) -> (copy: Self)
        ensures
            copy@ == self@,
    {
        let mut points: Vec<InkPoint<T>> = Vec::new();
        let mut i: usize = 0;
        while i < self.points.len()
            invariant
                i <= self.points@.len(),
                points@ == self.points@.take(i as int),
            decreases self.points@.len() - i,
        {
            points.push(self.points[i]);
            i = i + 1;
        }
        assert(self.points@.take(i as int) =~= self.points@);
        Stroke { points, color: self.color }
    }
}

/// Copies of shared strokes, from one of them on.
pub fn copied_from<T: Copy>(strokes: &Vec<Arc<Stroke<T>>>, from: usize) -> (copies: Vec<Stroke<T>>)
    requires
        from <= strokes@.len(),
    ensures
        lines_of(copies@) == shared_lines(strokes@).skip(from as int),
{
    let mut copies: Vec<Stroke<T>> = Vec::new();
    let mut i: usize = from;
    while i < strokes.len()
        invariant
            from <= i <= strokes@.len(),
            lines_of(copies@) == shared_lines(strokes@).subrange(from as int, i as int),
        decreases strokes@.len() - i,
    {
        let ghost held = copies@;
        copies.push(strokes[i].copied());
        assert(lines_of(held).len() == held.len());
        assert(lines_of(copies@) =~= lines_of(held).push(strokes@[i as int]@));
        i = i + 1;
        assert(lines_of(copies@) =~= shared_lines(strokes@).subrange(from as int, i as int));
    }
    assert(shared_lines(strokes@).subrange(from as int, i as int) =~= shared_lines(strokes@).skip(
        from as int,
    ));
    copies
}

/// What a stroke does to the page.
#[derive(Clone, Copy, Debug, PartialEq, Eq, Structural)]
pub enum Tool {
    /// Draw ink.
    Pen,
    /// Remove the strokes the nib passes near.
    Eraser,
}

/// Counters for the status bar.
#[derive(Clone, Copy, Debug, PartialEq, Eq, Structural)]
pub struct InkStats {
    /// Readings offered to the model.
    pub readings: u64,
    /// Points that became ink after the first of their stroke.
    pub kept_points: u64,
    /// Points dropped because they were too close to the previous kept point.
    pub resampled: u64,
    /// Readings that were not on the paper: a nib that came down beside the sheet, or a line pulled
    /// back to its edge.
    pub off_paper: u64,
    /// Strokes the eraser removed.
    pub erased_strokes: u64,
}

impl Default for InkStats {
    fn default() -> (stats: Self)
        ensures
            stats == no_stats(),
    {
        InkStats { readings: 0, kept_points: 0, resampled: 0, off_paper: 0, erased_strokes: 0 }
    }
}

/// Counters of a model that has done nothing yet.
pub open spec fn no_stats() -> InkStats {
    InkStats { readings: 0, kept_points: 0, resampled: 0, off_paper: 0, erased_strokes: 0 }
}

/// Where a pen is in its contact with the digitizer.
#[derive(Clone, Copy, Debug, PartialEq, Eq, Structural)]
pub enum PenPhase {
    /// Nothing is happening.
    Idle,
    /// The pen came into range.
    Enter,
    /// The pen is in range and not touching.
    Hover,
    /// The nib touched the surface.
    Down,
    /// The nib moved along the surface.
    Move,
    /// The nib left the surface.
    Up,
    /// The system took the contact away.
    Cancel,
    /// The pen went out of range.
    Leave,
}

/// One pen reading, and what was measured about it.
#[derive(Clone, Copy, Debug)]
pub struct Reading<T, S> {
    /// The reading as the pen reported it.
    pub sample: S,
    /// What the pen was doing.
    pub phase: PenPhase,
    /// The pointer the reading belongs to.
    pub id: u32,
    /// Whether the pen says its eraser is in use.
    pub eraser: bool,
    /// Whether the pen is turned over.
    pub inverted: bool,
    /// Whether the reading landed on the paper.
    pub on_paper: bool,
    /// Where the reading lands on the sheet, pulled back to the paper's edge if it was off it.
    pub place: Place<T>,
    /// That place after smoothing against the last point of the open stroke.
    pub smoothed: Place<T>,
    /// Whether the smoothed place is nearer to the last point of the open stroke than the spacing
    /// points are kept at.
    pub near: bool,
    /// Whether the place is within half the eraser's radius of where it last erased.
    pub settled: bool,
    /// The width the applied force draws at, for a pen that is pressing and has a sensor.
    pub pressed: Option<T>,
    /// The width a pen without a sensor draws at.
    pub unpressed: T,
}

// ---------------------------------------------------------------------------------------------
// One page of ink
// ---------------------------------------------------------------------------------------------

/// What a page of ink is, mathematically.
#[verifier::ext_equal]
pub ghost struct PageInk<T, S> {
    /// The strokes the pen has finished, oldest first.
    pub finished: Seq<Line<T>>,
    /// The strokes taken back, newest last.
    pub undone: Seq<Line<T>>,
    /// The stroke being drawn.
    pub open: Option<Line<T>>,
    /// The pointer that is down.
    pub active_pointer: Option<u32>,
    /// What that pointer does.
    pub active_tool: Tool,
    /// The tool the toolbar has selected.
    pub mode: Tool,
    /// The last reading consumed.
    pub last_sample: Option<S>,
    /// Where the eraser last looked for ink.
    pub last_erase: Option<Place<T>>,
    /// What the model has done.
    pub stats: InkStats,
}

impl<T, S> PageInk<T, S> {
    /// A page with nothing on it.
    pub open spec fn blank() -> Self {
        PageInk {
            finished: seq![],
            undone: seq![],
            open: None,
            active_pointer: None,
            active_tool: Tool::Pen,
            mode: Tool::Pen,
            last_sample: None,
            last_erase: None,
            stats: no_stats(),
        }
    }

    /// Whether the page has no ink at all.
    pub open spec fn is_blank(self) -> bool {
        self.finished.len() == 0 && self.open is None
    }

    /// Whether the page is worth keeping when it is turned: it has ink, or ink that can come back.
    pub open spec fn is_kept(self) -> bool {
        !self.is_blank() || self.undone.len() > 0
    }

    /// How many strokes the page holds, finished or open.
    pub open spec fn stroke_count(self) -> nat {
        self.finished.len() + if self.open is Some {
            1nat
        } else {
            0
        }
    }

    /// A stroke under the nib has at least the point it began at.
    pub open spec fn wf(self) -> bool {
        self.open matches Some(line) ==> line.points.len() > 0
    }

    /// The page with its most recent finished stroke taken back.
    pub open spec fn after_undo(self) -> Self {
        if self.finished.len() == 0 {
            self
        } else {
            PageInk {
                finished: self.finished.drop_last(),
                undone: self.undone.push(self.finished.last()),
                last_erase: None,
                ..self
            }
        }
    }

    /// The page with the most recently undone stroke put back.
    pub open spec fn after_redo(self) -> Self {
        if self.undone.len() == 0 {
            self
        } else {
            PageInk {
                finished: self.finished.push(self.undone.last()),
                undone: self.undone.drop_last(),
                last_erase: None,
                ..self
            }
        }
    }

    /// The page with every stroke gone, in both directions.
    pub open spec fn after_clear(self) -> Self {
        PageInk {
            finished: seq![],
            undone: seq![],
            open: None,
            active_pointer: None,
            last_erase: None,
            ..self
        }
    }

    /// The page with the open stroke finished, which ends the redo branch.
    pub open spec fn after_lift(self) -> Self {
        match self.open {
            Some(line) => if line.points.len() > 0 {
                PageInk {
                    finished: self.finished.push(line),
                    undone: seq![],
                    open: None,
                    active_pointer: None,
                    ..self
                }
            } else {
                PageInk { open: None, active_pointer: None, ..self }
            },
            None => PageInk { active_pointer: None, ..self },
        }
    }

    /// The page with a point added to the open stroke, unless the resampler drops it.
    ///
    /// A pen that reports no force keeps the width of the point before.
    pub open spec fn after_point(self, reading: Reading<T, S>, force: bool) -> Self {
        match self.open {
            Some(line) => if !force && reading.near && line.points.len() > 0 {
                PageInk {
                    stats: InkStats { resampled: (self.stats.resampled + 1) as u64, ..self.stats },
                    ..self
                }
            } else {
                let width = match reading.pressed {
                    Some(width) => width,
                    None => if line.points.len() > 0 {
                        line.points.last().width
                    } else {
                        reading.unpressed
                    },
                };
                let point = InkPoint { x: reading.smoothed.x, y: reading.smoothed.y, width };
                PageInk {
                    open: Some(Line { points: line.points.push(point), ..line }),
                    stats: InkStats {
                        kept_points: (self.stats.kept_points + 1) as u64,
                        ..self.stats
                    },
                    ..self
                }
            },
            None => self,
        }
    }

    /// The page after the eraser passed, given which of its finished strokes the nib touches.
    ///
    /// A nib that has barely moved since it last looked does not look again. Touching nothing
    /// changes no ink; touching something removes exactly what was touched and ends the redo branch.
    pub open spec fn after_erase(self, reading: Reading<T, S>, hits: Seq<bool>) -> Self {
        if self.last_erase is Some && reading.settled {
            self
        } else {
            let left = spared(self.finished, hits);
            let looked = PageInk { last_erase: Some(reading.place), ..self };
            if left.len() == self.finished.len() {
                looked
            } else {
                PageInk {
                    finished: left,
                    undone: seq![],
                    stats: InkStats {
                        erased_strokes: (self.stats.erased_strokes + self.finished.len()
                            - left.len()) as u64,
                        ..self.stats
                    },
                    ..looked
                }
            }
        }
    }

    /// The page with a reading beside the paper counted.
    pub open spec fn after_off_paper(self, off: bool) -> Self {
        if off {
            PageInk {
                stats: InkStats { off_paper: (self.stats.off_paper + 1) as u64, ..self.stats },
                ..self
            }
        } else {
            self
        }
    }

    /// What the nib of a reading does: the pen's own state wins over the toolbar.
    pub open spec fn tool_for(self, reading: Reading<T, S>) -> Tool {
        if self.mode == Tool::Eraser || reading.eraser || reading.inverted {
            Tool::Eraser
        } else {
            Tool::Pen
        }
    }

    /// The page after a nib came down.
    ///
    /// Whatever the previous pointer left open is finished. A nib that comes down beside the paper
    /// opens nothing.
    pub open spec fn after_down(self, reading: Reading<T, S>, color: u32, hits: Seq<bool>) -> Self {
        let lifted = self.after_lift();
        if !reading.on_paper {
            lifted.after_off_paper(true)
        } else {
            let tool = lifted.tool_for(reading);
            let taken = PageInk {
                active_pointer: Some(reading.id),
                active_tool: tool,
                ..lifted
            };
            match tool {
                Tool::Eraser => PageInk { last_erase: None, ..taken }.after_erase(reading, hits),
                Tool::Pen => {
                    let width = match reading.pressed {
                        Some(width) => width,
                        None => reading.unpressed,
                    };
                    let point = InkPoint { x: reading.place.x, y: reading.place.y, width };
                    PageInk { open: Some(Line { points: seq![point], color }), ..taken }
                },
            }
        }
    }

    /// Whether a reading may touch the page: a `Down` always does, and the other edges only for the
    /// pointer that is down.
    pub open spec fn heeds(self, reading: Reading<T, S>) -> bool {
        match reading.phase {
            PenPhase::Down => true,
            PenPhase::Move | PenPhase::Up | PenPhase::Cancel | PenPhase::Leave => {
                self.active_pointer == Some(reading.id)
            },
            PenPhase::Idle | PenPhase::Enter | PenPhase::Hover => false,
        }
    }

    /// The page after a reading it heeds.
    pub open spec fn after_edge(self, reading: Reading<T, S>, color: u32, hits: Seq<bool>) -> Self {
        match reading.phase {
            PenPhase::Down => self.after_down(reading, color, hits),
            PenPhase::Move => {
                let counted = self.after_off_paper(!reading.on_paper);
                match self.active_tool {
                    Tool::Eraser => counted.after_erase(reading, hits),
                    Tool::Pen => counted.after_point(reading, false),
                }
            },
            PenPhase::Up => {
                let counted = self.after_off_paper(!reading.on_paper);
                match self.active_tool {
                    Tool::Eraser => counted.after_lift(),
                    Tool::Pen => counted.after_point(reading, true).after_lift(),
                }
            },
            PenPhase::Cancel | PenPhase::Leave => self.after_lift(),
            PenPhase::Idle | PenPhase::Enter | PenPhase::Hover => self,
        }
    }

    /// The page after any reading: it is counted and remembered, and heeded or not.
    pub open spec fn after_reading(
        self,
        reading: Reading<T, S>,
        color: u32,
        hits: Seq<bool>,
    ) -> Self {
        let counted = PageInk {
            stats: InkStats { readings: (self.stats.readings + 1) as u64, ..self.stats },
            ..self
        };
        let done = if self.heeds(reading) {
            counted.after_edge(reading, color, hits)
        } else {
            counted
        };
        PageInk { last_sample: Some(reading.sample), ..done }
    }

    /// Whether one more reading can be counted.
    pub open spec fn can_count(self) -> bool {
        &&& self.stats.readings < u64::MAX
        &&& self.stats.kept_points < u64::MAX
        &&& self.stats.resampled < u64::MAX
        &&& self.stats.off_paper < u64::MAX
        &&& self.stats.erased_strokes + self.stroke_count() <= u64::MAX
    }

    /// Whether so many more readings can be counted.
    pub open spec fn can_count_many(self, more: nat) -> bool {
        &&& self.stats.readings + more <= u64::MAX
        &&& self.stats.kept_points + more <= u64::MAX
        &&& self.stats.resampled + more <= u64::MAX
        &&& self.stats.off_paper + more <= u64::MAX
        &&& self.stats.erased_strokes + self.stroke_count() + more <= u64::MAX
    }

    /// The page after readings with what was measured of each, in order.
    pub open spec fn after_all(self, fed: Seq<(Reading<T, S>, Seq<bool>)>, color: u32) -> Self
        decreases fed.len(),
    {
        if fed.len() == 0 {
            self
        } else {
            self.after_all(fed.drop_last(), color).after_reading(
                fed.last().0,
                color,
                fed.last().1,
            )
        }
    }

    /// Whether any of some readings changes something.
    pub open spec fn heeds_any(self, fed: Seq<(Reading<T, S>, Seq<bool>)>, color: u32) -> bool
        decreases fed.len(),
    {
        if fed.len() == 0 {
            false
        } else {
            self.heeds_any(fed.drop_last(), color) || self.after_all(fed.drop_last(), color).heeds(
                fed.last().0,
            )
        }
    }

    /// The page after a batch of readings, in order. `measure` is what is measured of a reading against
    /// the page it finds: the reading itself, and which strokes an eraser there touches.
    pub open spec fn after_batch(
        self,
        samples: Seq<S>,
        color: u32,
        measure: spec_fn(Self, S) -> (Reading<T, S>, Seq<bool>),
    ) -> Self
        decreases samples.len(),
    {
        if samples.len() == 0 {
            self
        } else {
            let before = self.after_batch(samples.drop_last(), color, measure);
            let (reading, hits) = measure(before, samples.last());
            before.after_reading(reading, color, hits)
        }
    }

    /// Whether any reading of a batch changes something.
    pub open spec fn heeds_batch(
        self,
        samples: Seq<S>,
        color: u32,
        measure: spec_fn(Self, S) -> (Reading<T, S>, Seq<bool>),
    ) -> bool
        decreases samples.len(),
    {
        if samples.len() == 0 {
            false
        } else {
            let before = self.after_batch(samples.drop_last(), color, measure);
            self.heeds_batch(samples.drop_last(), color, measure) || before.heeds(
                measure(before, samples.last()).0,
            )
        }
    }
}

/// Whether this was measured of a reading against a page: `measure` may answer so of a document that
/// holds that page.
pub open spec fn is_measured<T, S, F: Fn(&InkDocument<T, S>, &S) -> (Reading<T, S>, Vec<bool>)>(
    measure: F,
    page: PageInk<T, S>,
    sample: S,
    fed: (Reading<T, S>, Seq<bool>),
) -> bool {
    exists|ink: InkDocument<T, S>, answer: (Reading<T, S>, Vec<bool>)|
        #![trigger call_ensures(measure, (&ink, &sample), answer)]
        call_ensures(measure, (&ink, &sample), answer) && ink@ == page && answer.0 == fed.0
            && answer.1@ == fed.1
}

/// Whether this was measured of a batch of readings, each against the page that those before it left.
pub open spec fn are_measured<T, S, F: Fn(&InkDocument<T, S>, &S) -> (Reading<T, S>, Vec<bool>)>(
    measure: F,
    page: PageInk<T, S>,
    samples: Seq<S>,
    fed: Seq<(Reading<T, S>, Seq<bool>)>,
    color: u32,
) -> bool {
    &&& fed.len() == samples.len()
    &&& forall|i: int|
        0 <= i < fed.len() ==> is_measured(
            measure,
            page.after_all(fed.take(i), color),
            samples[i],
            #[trigger] fed[i],
        )
}

/// The lines the nib does not touch, in order.
pub open spec fn spared<T>(lines: Seq<Line<T>>, hits: Seq<bool>) -> Seq<Line<T>>
    decreases lines.len(),
{
    if lines.len() == 0 {
        seq![]
    } else {
        let before = spared(lines.drop_last(), hits);
        if hits[lines.len() - 1] {
            before
        } else {
            before.push(lines.last())
        }
    }
}

/// Whether the nib touches one of the first `n` lines.
pub open spec fn touches(hits: Seq<bool>, n: int) -> bool {
    exists|i: int| 0 <= i < n && #[trigger] hits[i]
}

/// Says whether the nib touches one of the first `n` lines.
pub fn touched(hits: &Vec<bool>, n: usize) -> (touched: bool)
    requires
        n <= hits@.len(),
    ensures
        touched == touches(hits@, n as int),
{
    let mut i: usize = 0;
    while i < n
        invariant
            i <= n <= hits@.len(),
            !touches(hits@, i as int),
        decreases n - i,
    {
        if hits[i] {
            assert(hits@[i as int]);
            return true;
        }
        proof {
            if touches(hits@, i + 1) {
                let j = choose|j: int| 0 <= j < i + 1 && #[trigger] hits@[j];
                assert(0 <= j < i && hits@[j]);
            }
        }
        i = i + 1;
    }
    false
}

/// Nothing is spared that was not there, and nothing is lost unless something was touched.
pub proof fn spared_counts<T>(lines: Seq<Line<T>>, hits: Seq<bool>)
    requires
        lines.len() <= hits.len(),
    ensures
        spared(lines, hits).len() <= lines.len(),
        spared(lines, hits).len() == lines.len() <==> !touches(hits, lines.len() as int),
        !touches(hits, lines.len() as int) ==> spared(lines, hits) == lines,
    decreases lines.len(),
{
    if lines.len() > 0 {
        let n = lines.len() as int;
        spared_counts(lines.drop_last(), hits);
        if hits[n - 1] {
            assert(touches(hits, n));
        } else {
            assert(touches(hits, n) == touches(hits, n - 1)) by {
                if touches(hits, n) {
                    let i = choose|i: int| 0 <= i < n && #[trigger] hits[i];
                    assert(0 <= i < n - 1 && hits[i]);
                }
                if touches(hits, n - 1) {
                    let i = choose|i: int| 0 <= i < n - 1 && #[trigger] hits[i];
                    assert(0 <= i < n && hits[i]);
                }
            }
            assert(lines.drop_last().push(lines.last()) =~= lines);
        }
    } else {
        assert(lines =~= seq![]);
    }
}

/// The page's ink: the strokes that are finished, and the one being drawn.
///
/// Readings arrive in the order the digitizer produced them. The pointer id on each is what decides
/// whether it may extend the open stroke: a second stylus, a finger, or a pen that came back after
/// losing its lift must not be glued onto the line the first pen is drawing.
#[derive(Debug)]
pub struct InkDocument<T, S> {
    finished: Vec<Arc<Stroke<T>>>,
    undone: Vec<Arc<Stroke<T>>>,
    open: Option<Stroke<T>>,
    active_pointer: Option<u32>,
    active_tool: Tool,
    mode: Tool,
    last_sample: Option<S>,
    last_erase: Option<Place<T>>,
    stats: InkStats,
}

impl<T, S> View for InkDocument<T, S> {
    type V = PageInk<T, S>;

    closed spec fn view(&self) -> PageInk<T, S> {
        PageInk {
            finished: shared_lines(self.finished@),
            undone: shared_lines(self.undone@),
            open: match self.open {
                Some(stroke) => Some(stroke@),
                None => None,
            },
            active_pointer: self.active_pointer,
            active_tool: self.active_tool,
            mode: self.mode,
            last_sample: self.last_sample,
            last_erase: self.last_erase,
            stats: self.stats,
        }
    }
}

impl<T, S> Default for InkDocument<T, S> {
    fn default() -> (page: Self)
        ensures
            page@ == PageInk::<T, S>::blank(),
    {
        let page: InkDocument<T, S> = InkDocument {
            finished: Vec::new(),
            undone: Vec::new(),
            open: None,
            active_pointer: None,
            active_tool: Tool::Pen,
            mode: Tool::Pen,
            last_sample: None,
            last_erase: None,
            stats: InkStats {
                readings: 0,
                kept_points: 0,
                resampled: 0,
                off_paper: 0,
                erased_strokes: 0,
            },
        };
        assert(page@ =~= PageInk::<T, S>::blank());
        page
    }
}

impl<T: Copy, S: Copy> InkDocument<T, S> {
    /// An empty page.
    pub fn blank() -> (page: Self)
        ensures
            page@ == PageInk::<T, S>::blank(),
    {
        InkDocument::default()
    }

    /// The finished strokes, oldest first.
    pub fn finished(&self) -> (strokes: &Vec<Arc<Stroke<T>>>)
        ensures
            shared_lines(strokes@) == self@.finished,
    {
        &self.finished
    }

    /// The stroke being drawn right now, if any.
    pub fn open(&self) -> (stroke: Option<&Stroke<T>>)
        ensures
            match stroke {
                Some(stroke) => self@.open == Some(stroke@),
                None => self@.open is None,
            },
    {
        match &self.open {
            Some(stroke) => Some(stroke),
            None => None,
        }
    }

    /// The tool the toolbar has selected.
    pub fn mode(&self) -> (mode: Tool)
        ensures
            mode == self@.mode,
    {
        self.mode
    }

    /// Selects the tool an ordinary nib uses.
    pub fn set_mode(&mut self, mode: Tool)
        ensures
            final(self)@ == (PageInk { mode, ..old(self)@ }),
    {
        self.mode = mode;
    }

    /// The counters behind the status bar.
    pub fn stats(&self) -> (stats: InkStats)
        ensures
            stats == self@.stats,
    {
        self.stats
    }

    /// The last reading consumed, whatever it did.
    pub fn last_sample(&self) -> (sample: Option<S>)
        ensures
            sample == self@.last_sample,
    {
        self.last_sample
    }

    /// Where the eraser last looked for ink.
    pub fn last_erase(&self) -> (place: Option<Place<T>>)
        ensures
            place == self@.last_erase,
    {
        self.last_erase
    }

    /// Whether the page has no ink at all.
    pub fn is_blank(&self) -> (blank: bool)
        ensures
            blank == self@.is_blank(),
    {
        self.finished.len() == 0 && self.open.is_none()
    }

    /// How many strokes the page holds, finished or open.
    pub fn stroke_count(&self) -> (count: usize)
        requires
            self@.stroke_count() <= usize::MAX,
        ensures
            count == self@.stroke_count(),
    {
        if self.open.is_some() {
            self.finished.len() + 1
        } else {
            self.finished.len()
        }
    }

    /// Removes the most recent finished stroke, and nothing else.
    ///
    /// The stroke the pen is still drawing is not touched: it is not history yet. Returns whether
    /// there was a stroke to take back.
    pub fn undo(&mut self) -> (undone: bool)
        ensures
            final(self)@ == old(self)@.after_undo(),
            undone == (old(self)@.finished.len() > 0),
    {
        match self.finished.pop() {
            Some(stroke) => {
                self.undone.push(stroke);
                self.last_erase = None;
                assert(self@ =~= old(self)@.after_undo());
                true
            },
            None => {
                assert(self@ =~= old(self)@);
                false
            },
        }
    }

    /// Puts back the stroke the most recent [`Self::undo`] took away.
    pub fn redo(&mut self) -> (redone: bool)
        ensures
            final(self)@ == old(self)@.after_redo(),
            redone == (old(self)@.undone.len() > 0),
    {
        match self.undone.pop() {
            Some(stroke) => {
                self.finished.push(stroke);
                self.last_erase = None;
                assert(self@ =~= old(self)@.after_redo());
                true
            },
            None => {
                assert(self@ =~= old(self)@);
                false
            },
        }
    }

    /// Whether [`Self::undo`] would do anything.
    pub fn can_undo(&self) -> (can: bool)
        ensures
            can == (self@.finished.len() > 0),
    {
        self.finished.len() > 0
    }

    /// Whether [`Self::redo`] would do anything.
    pub fn can_redo(&self) -> (can: bool)
        ensures
            can == (self@.undone.len() > 0),
    {
        self.undone.len() > 0
    }

    /// Removes every stroke, in both directions.
    pub fn clear(&mut self)
        ensures
            final(self)@ == old(self)@.after_clear(),
    {
        self.finished.clear();
        self.undone.clear();
        self.open = None;
        self.active_pointer = None;
        self.last_erase = None;
        assert(self@ =~= old(self)@.after_clear());
    }

    /// A page holding strokes that came from somewhere else, such as a saved note.
    pub fn from_strokes(strokes: Vec<Stroke<T>>) -> (page: Self)
        ensures
            page@ == (PageInk { finished: lines_of(strokes@), ..PageInk::<T, S>::blank() }),
    {
        let mut page: InkDocument<T, S> = InkDocument::default();
        let ghost lines = lines_of(strokes@);
        let mut finished: Vec<Arc<Stroke<T>>> = Vec::new();
        for stroke in iter: strokes
            invariant
                iter.seq() == strokes@,
                lines == lines_of(strokes@),
                shared_lines(finished@) == lines.take(iter.index()),
        {
            let ghost held = finished@;
            finished.push(Arc::new(stroke));
            assert(shared_lines(held).len() == held.len());
            assert(stroke@ == lines[iter.index() as int]);
            assert(shared_lines(finished@) =~= shared_lines(held).push(stroke@));
            assert(shared_lines(finished@) =~= lines.take(iter.index() + 1));
        }
        page.finished = finished;
        assert(page@ =~= (PageInk { finished: lines, ..PageInk::<T, S>::blank() }));
        page
    }

    /// Feeds a batch of pen readings to the model, in order.
    ///
    /// `measure` says what is measured of a reading against the page it finds, and which strokes of it
    /// an eraser there touches. Returns whether anything changed.
    pub fn consume_batch<F: Fn(&InkDocument<T, S>, &S) -> (Reading<T, S>, Vec<bool>)>(
        &mut self,
        samples: &[S],
        color: u32,
        measure: F,
    ) -> (changed: bool)
        requires
            old(self)@.can_count_many(samples@.len()),
            forall|ink: InkDocument<T, S>, sample: S|
                #![trigger call_requires(measure, (&ink, &sample))]
                call_requires(measure, (&ink, &sample)),
            forall|ink: InkDocument<T, S>, sample: S, answer: (Reading<T, S>, Vec<bool>)|
                #![trigger call_ensures(measure, (&ink, &sample), answer)]
                call_ensures(measure, (&ink, &sample), answer) ==> answer.1@.len()
                    >= ink@.stroke_count(),
        ensures
            exists|fed: Seq<(Reading<T, S>, Seq<bool>)>|
                #![trigger old(self)@.after_all(fed, color)]
                are_measured(measure, old(self)@, samples@, fed, color) && final(self)@
                    == old(self)@.after_all(fed, color) && changed == old(self)@.heeds_any(
                    fed,
                    color,
                ),
    {
        let mut changed: bool = false;
        let ghost page = self@;
        let ghost mut fed: Seq<(Reading<T, S>, Seq<bool>)> = seq![];
        let mut index: usize = 0;
        while index < samples.len()
            invariant
                index <= samples@.len(),
                page == old(self)@,
                self@.can_count_many((samples@.len() - index) as nat),
                forall|ink: InkDocument<T, S>, sample: S|
                    #![trigger call_requires(measure, (&ink, &sample))]
                    call_requires(measure, (&ink, &sample)),
                forall|ink: InkDocument<T, S>, sample: S, answer: (Reading<T, S>, Vec<bool>)|
                    #![trigger call_ensures(measure, (&ink, &sample), answer)]
                    call_ensures(measure, (&ink, &sample), answer) ==> answer.1@.len()
                        >= ink@.stroke_count(),
                are_measured(measure, page, samples@.take(index as int), fed, color),
                self@ == page.after_all(fed, color),
                changed == page.heeds_any(fed, color),
            decreases samples@.len() - index,
        {
            let ghost before = *self;
            let (reading, hits) = measure(&*self, &samples[index]);
            proof {
                counting_goes_on(self@, reading, color, hits@, (samples@.len() - index) as nat);
            }
            let heeded: bool = self.consume(&reading, color, &hits);
            changed = changed || heeded;
            proof {
                let sample = samples@[index as int];
                assert(call_ensures(measure, (&before, &sample), (reading, hits)));
                assert(is_measured(measure, before@, sample, (reading, hits@)));
                one_more_is_measured(
                    measure,
                    page,
                    samples@.take(index as int),
                    fed,
                    color,
                    sample,
                    (reading, hits@),
                );
                assert(samples@.take(index as int).push(sample) =~= samples@.take(index + 1));
                assert(fed.push((reading, hits@)).drop_last() =~= fed);
                fed = fed.push((reading, hits@));
            }
            index = index + 1;
        }
        assert(samples@.take(index as int) =~= samples@);
        assert(old(self)@.after_all(fed, color) == self@);
        changed
    }

    /// Feeds one pen reading to the model.
    ///
    /// `color` is the ink in hand, which is stamped into a stroke the moment its nib goes down.
    /// `hits` says, for each stroke of the page — the finished ones in order, then the one being
    /// drawn — whether the eraser at the reading's place touches it.
    ///
    /// Returns whether anything changed, which is what the caller uses to decide whether a repaint
    /// is worth scheduling.
    pub fn consume(&mut self, reading: &Reading<T, S>, color: u32, hits: &Vec<bool>) -> (changed:
        bool)
        requires
            old(self)@.can_count(),
            hits@.len() >= old(self)@.stroke_count(),
        ensures
            final(self)@ == old(self)@.after_reading(*reading, color, hits@),
            changed == old(self)@.heeds(*reading),
    {
        let mut changed: bool = false;
        self.stats.readings = self.stats.readings + 1;
        let ghost counted = self@;
        assert(counted =~= (PageInk {
            stats: InkStats {
                readings: (old(self)@.stats.readings + 1) as u64,
                ..old(self)@.stats
            },
            ..old(self)@
        }));
        match reading.phase {
            PenPhase::Down => {
                self.nib_down(reading, color, hits);
                changed = true;
            },
            PenPhase::Move => {
                if self.owned_by(reading.id) {
                    self.count_off_paper(!reading.on_paper);
                    match self.active_tool {
                        Tool::Eraser => self.erase_at(reading, hits),
                        Tool::Pen => self.push_point(reading, false),
                    }
                    changed = true;
                }
            },
            PenPhase::Up => {
                if self.owned_by(reading.id) {
                    self.count_off_paper(!reading.on_paper);
                    match self.active_tool {
                        Tool::Eraser => {},
                        // The lift is where the pen left the paper, so it is the stroke's last
                        // point regardless of what the resampler would prefer.
                        Tool::Pen => self.push_point(reading, true),
                    }
                    self.finish_open();
                    changed = true;
                }
            },
            PenPhase::Cancel | PenPhase::Leave => {
                if self.owned_by(reading.id) {
                    // The position these phases carry is not ink: the stroke ends wherever it
                    // actually got to.
                    self.finish_open();
                    changed = true;
                }
            },
            // Hover readings move a preview cursor but never lay ink.
            PenPhase::Idle | PenPhase::Enter | PenPhase::Hover => {},
        }
        let ghost done = self@;
        self.last_sample = Some(reading.sample);
        assert(self@ =~= (PageInk { last_sample: Some(reading.sample), ..done }));
        changed
    }

    /// Whether a pointer is the one that is down.
    fn owned_by(&self, id: u32) -> (owned: bool)
        ensures
            owned == (self@.active_pointer == Some(id)),
    {
        match self.active_pointer {
            Some(active) => active == id,
            None => false,
        }
    }

    /// Counts a reading that landed beside the paper.
    fn count_off_paper(&mut self, off: bool)
        requires
            old(self)@.stats.off_paper < u64::MAX,
        ensures
            final(self)@ == old(self)@.after_off_paper(off),
    {
        if off {
            self.stats.off_paper = self.stats.off_paper + 1;
        }
        assert(self@ =~= old(self)@.after_off_paper(off));
    }

    /// Begins whatever a nib that came down does.
    fn nib_down(&mut self, reading: &Reading<T, S>, color: u32, hits: &Vec<bool>)
        requires
            old(self)@.stats.off_paper < u64::MAX,
            old(self)@.stats.erased_strokes + old(self)@.stroke_count() <= u64::MAX,
            hits@.len() >= old(self)@.stroke_count(),
        ensures
            final(self)@ == old(self)@.after_down(*reading, color, hits@),
    {
        // A `Down` closes whatever the previous pointer left open: the ink the user drew is kept,
        // and an `Up` that never arrived is no reason to lose it.
        self.finish_open();
        let ghost lifted = self@;
        if !reading.on_paper {
            self.count_off_paper(true);
            return ;
        }
        let tool: Tool = if self.mode == Tool::Eraser || reading.eraser || reading.inverted {
            Tool::Eraser
        } else {
            Tool::Pen
        };
        self.active_pointer = Some(reading.id);
        self.active_tool = tool;
        let ghost taken = self@;
        assert(taken =~= (PageInk {
            active_pointer: Some(reading.id),
            active_tool: tool,
            ..lifted
        }));
        match tool {
            Tool::Eraser => {
                self.last_erase = None;
                assert(self@ =~= (PageInk { last_erase: None, ..taken }));
                self.erase_at(reading, hits);
            },
            Tool::Pen => {
                let width: T = match reading.pressed {
                    Some(width) => width,
                    None => reading.unpressed,
                };
                let point: InkPoint<T> = InkPoint::new(reading.place.x, reading.place.y, width);
                self.open = Some(Stroke::new(point, color));
                assert(self@ =~= (PageInk {
                    open: Some(Line { points: seq![point], color }),
                    ..taken
                }));
            },
        }
    }

    /// Ends the open stroke, keeping it if it has any ink.
    fn finish_open(&mut self)
        ensures
            final(self)@ == old(self)@.after_lift(),
    {
        match self.open.take() {
            Some(stroke) => {
                if !stroke.is_empty() {
                    self.finished.push(Arc::new(stroke));
                    // A stroke drawn after an undo makes the drawing a new one rather than a
                    // shortened one, so what was taken back is no longer something to put forward.
                    self.undone.clear();
                }
            },
            None => {},
        }
        self.active_pointer = None;
        assert(self@ =~= old(self)@.after_lift());
    }

    /// Adds a point to the open stroke, after the resampler had its say.
    ///
    /// `force` bypasses the resampler and is used for the lift, which is the stroke's end.
    fn push_point(&mut self, reading: &Reading<T, S>, force: bool)
        requires
            old(self)@.stats.resampled < u64::MAX,
            old(self)@.stats.kept_points < u64::MAX,
        ensures
            final(self)@ == old(self)@.after_point(*reading, force),
    {
        match self.open.take() {
            Some(mut stroke) => {
                let count: usize = stroke.points.len();
                if !force && reading.near && count > 0 {
                    self.stats.resampled = self.stats.resampled + 1;
                    self.open = Some(stroke);
                } else {
                    // The lift reports no applied force, so the width of the point before is used
                    // again rather than letting the stroke change width in its last pixel.
                    let width: T = match reading.pressed {
                        Some(width) => width,
                        None => if count > 0 {
                            stroke.points[count - 1].width
                        } else {
                            reading.unpressed
                        },
                    };
                    let ghost before = stroke@;
                    stroke.points.push(
                        InkPoint::new(reading.smoothed.x, reading.smoothed.y, width),
                    );
                    self.stats.kept_points = self.stats.kept_points + 1;
                    self.open = Some(stroke);
                }
            },
            None => {},
        }
        assert(self@ =~= old(self)@.after_point(*reading, force));
    }

    /// Removes the finished strokes the eraser nib passes over.
    fn erase_at(&mut self, reading: &Reading<T, S>, hits: &Vec<bool>)
        requires
            hits@.len() >= old(self)@.finished.len(),
            old(self)@.stats.erased_strokes + old(self)@.finished.len() <= u64::MAX,
        ensures
            final(self)@ == old(self)@.after_erase(*reading, hits@),
    {
        // A slow drag revisits the same few pixels for many readings; rescanning every stroke for
        // each of them is wasted work.
        if self.last_erase.is_some() && reading.settled {
            return ;
        }
        let ghost lines = self@.finished;
        proof {
            spared_counts(lines, hits@);
        }
        self.last_erase = Some(reading.place);
        let ghost looked = self@;
        assert(looked =~= (PageInk { last_erase: Some(reading.place), ..old(self)@ }));
        let before: usize = self.finished.len();
        let mut kept: Vec<Arc<Stroke<T>>> = Vec::new();
        let mut strokes: Vec<Arc<Stroke<T>>> = Vec::new();
        std::mem::swap(&mut strokes, &mut self.finished);
        let mut index: usize = 0;
        for stroke in iter: strokes
            invariant
                iter.seq() == strokes@,
                lines == shared_lines(strokes@),
                lines.len() == before,
                hits@.len() >= lines.len(),
                index == iter.index(),
                shared_lines(kept@) == spared(lines.take(index as int), hits@),
        {
            proof {
                assert(lines.take(index + 1).drop_last() =~= lines.take(index as int));
                assert(lines.take(index + 1).last() == lines[index as int]);
            }
            if !hits[index] {
                let ghost held = kept@;
                kept.push(stroke);
                assert(shared_lines(kept@) =~= shared_lines(held).push(lines[index as int]));
            }
            index = index + 1;
        }
        assert(lines.take(lines.len() as int) =~= lines);
        let left: usize = kept.len();
        assert(left == shared_lines(kept@).len());
        self.finished = kept;
        if left < before {
            self.stats.erased_strokes = self.stats.erased_strokes + (before - left) as u64;
            // Erasing is a change of its own, so it ends the redo branch exactly as new ink does.
            self.undone.clear();
        }
        assert(self@ =~= old(self)@.after_erase(*reading, hits@));
    }
}

// ---------------------------------------------------------------------------------------------
// What the model promises
// ---------------------------------------------------------------------------------------------

/// Redo puts back exactly what undo took away: the page is as it was, and the eraser looks afresh.
pub proof fn redo_puts_back<T, S>(page: PageInk<T, S>)
    requires
        page.finished.len() > 0,
    ensures
        page.after_undo().after_redo() == (PageInk { last_erase: None, ..page }),
{
    assert(page.after_undo().after_redo() =~= (PageInk { last_erase: None, ..page }));
}

/// Undo takes away exactly what redo put back.
pub proof fn undo_takes_back<T, S>(page: PageInk<T, S>)
    requires
        page.undone.len() > 0,
    ensures
        page.after_redo().after_undo() == (PageInk { last_erase: None, ..page }),
{
    assert(page.after_redo().after_undo() =~= (PageInk { last_erase: None, ..page }));
}

/// Neither undo nor redo touches the stroke under the nib, or the pointer drawing it.
pub proof fn history_leaves_the_nib_alone<T, S>(page: PageInk<T, S>)
    ensures
        page.after_undo().open == page.open,
        page.after_undo().active_pointer == page.active_pointer,
        page.after_undo().active_tool == page.active_tool,
        page.after_redo().open == page.open,
        page.after_redo().active_pointer == page.active_pointer,
        page.after_redo().active_tool == page.active_tool,
{
}

/// Undo and redo only move ink between the page and what can be put back: together they are the
/// same lines throughout.
pub proof fn history_loses_nothing<T, S>(page: PageInk<T, S>)
    ensures
        page.after_undo().finished + page.after_undo().undone.reverse() == page.finished
            + page.undone.reverse(),
        page.after_redo().finished + page.after_redo().undone.reverse() == page.finished
            + page.undone.reverse(),
{
    assert(page.after_undo().finished + page.after_undo().undone.reverse() =~= page.finished
        + page.undone.reverse());
    assert(page.after_redo().finished + page.after_redo().undone.reverse() =~= page.finished
        + page.undone.reverse());
}

/// Clearing ends both directions: nothing is left to see, to undo or to redo.
pub proof fn clearing_ends_both_directions<T, S>(page: PageInk<T, S>)
    ensures
        page.after_clear().is_blank(),
        !page.after_clear().is_kept(),
        page.after_clear().after_undo() == page.after_clear(),
        page.after_clear().after_redo() == page.after_clear(),
{
}

/// Any new ink ends the redo branch: a finished stroke leaves nothing to put forward.
pub proof fn new_ink_ends_the_branch<T, S>(page: PageInk<T, S>)
    requires
        page.open is Some,
        page.wf(),
    ensures
        page.after_lift().undone.len() == 0,
        page.after_lift().finished == page.finished.push(page.open->0),
{
}

/// An erase that removed something ends the redo branch; one that touched nothing changes no ink.
pub proof fn erasing_ends_the_branch<T, S>(page: PageInk<T, S>, reading: Reading<T, S>, hits: Seq<bool>)
    requires
        hits.len() >= page.finished.len(),
    ensures
        page.after_erase(reading, hits).finished != page.finished ==> page.after_erase(
            reading,
            hits,
        ).undone.len() == 0,
        !touches(hits, page.finished.len() as int) ==> page.after_erase(reading, hits).finished
            == page.finished && page.after_erase(reading, hits).undone == page.undone,
        page.after_erase(reading, hits).open == page.open,
{
    spared_counts(page.finished, hits);
}

/// The eraser removes only what it touches, and all of it.
pub proof fn the_eraser_is_exact<T>(lines: Seq<Line<T>>, hits: Seq<bool>)
    requires
        hits.len() >= lines.len(),
    ensures
        forall|i: int|
            #![trigger lines[i]]
            0 <= i < lines.len() && !hits[i] ==> spared(lines, hits).contains(lines[i]),
        forall|k: int|
            0 <= k < spared(lines, hits).len() ==> exists|i: int|
                0 <= i < lines.len() && !hits[i] && lines[i] == #[trigger] spared(lines, hits)[k],
    decreases lines.len(),
{
    if lines.len() > 0 {
        let n = lines.len() - 1;
        let before = spared(lines.drop_last(), hits);
        let all = spared(lines, hits);
        the_eraser_is_exact(lines.drop_last(), hits);
        assert forall|i: int|
            #![trigger lines[i]]
            0 <= i < lines.len() && !hits[i] implies all.contains(lines[i]) by {
            if i < n {
                assert(lines.drop_last()[i] == lines[i]);
                let k = choose|k: int| 0 <= k < before.len() && before[k] == lines[i];
                assert(all[k] == lines[i]);
            } else {
                assert(all[before.len() as int] == lines[i]);
            }
        }
        assert forall|k: int| 0 <= k < all.len() implies exists|i: int|
            0 <= i < lines.len() && !hits[i] && lines[i] == #[trigger] all[k] by {
            if k < before.len() {
                let i = choose|i: int|
                    0 <= i < lines.drop_last().len() && !hits[i] && lines.drop_last()[i]
                        == #[trigger] before[k];
                assert(lines[i] == all[k]);
            } else {
                assert(lines[n] == all[k]);
            }
        }
    }
}

/// A reading from a pointer that is not down leaves the ink alone, whatever its phase.
pub proof fn a_second_pointer_draws_nothing<T, S>(
    page: PageInk<T, S>,
    reading: Reading<T, S>,
    color: u32,
    hits: Seq<bool>,
)
    requires
        reading.phase != PenPhase::Down,
        page.active_pointer != Some(reading.id),
    ensures
        page.after_reading(reading, color, hits) == (PageInk {
            last_sample: Some(reading.sample),
            stats: InkStats { readings: (page.stats.readings + 1) as u64, ..page.stats },
            ..page
        }),
{
}

/// Hovering lays no ink: a pen that does not touch changes nothing but what was last seen of it.
pub proof fn hovering_lays_no_ink<T, S>(
    page: PageInk<T, S>,
    reading: Reading<T, S>,
    color: u32,
    hits: Seq<bool>,
)
    requires
        reading.phase == PenPhase::Hover || reading.phase == PenPhase::Enter || reading.phase
            == PenPhase::Idle,
    ensures
        page.after_reading(reading, color, hits) == (PageInk {
            last_sample: Some(reading.sample),
            stats: InkStats { readings: (page.stats.readings + 1) as u64, ..page.stats },
            ..page
        }),
{
}

/// A nib that comes down beside the paper draws nothing: what was open is finished, and nothing is
/// begun.
pub proof fn a_nib_off_the_paper_draws_nothing<T, S>(
    page: PageInk<T, S>,
    reading: Reading<T, S>,
    color: u32,
    hits: Seq<bool>,
)
    requires
        reading.phase == PenPhase::Down,
        !reading.on_paper,
    ensures
        page.after_reading(reading, color, hits).open is None,
        page.after_reading(reading, color, hits).active_pointer is None,
        page.after_reading(reading, color, hits).finished == page.after_lift().finished,
        page.after_reading(reading, color, hits).stats.off_paper == (page.stats.off_paper
            + 1) as u64,
{
}

/// A cancelled stroke ends where it got to: the position the cancel carries is not ink.
pub proof fn a_cancel_adds_no_point<T, S>(
    page: PageInk<T, S>,
    reading: Reading<T, S>,
    color: u32,
    hits: Seq<bool>,
)
    requires
        reading.phase == PenPhase::Cancel || reading.phase == PenPhase::Leave,
        page.active_pointer == Some(reading.id),
        page.open is Some,
        page.wf(),
    ensures
        page.after_reading(reading, color, hits).finished == page.finished.push(page.open->0),
        page.after_reading(reading, color, hits).open is None,
{
}

/// The lift is always the stroke's last point, however near it is to the one before.
pub proof fn the_lift_is_kept<T, S>(
    page: PageInk<T, S>,
    reading: Reading<T, S>,
    color: u32,
    hits: Seq<bool>,
)
    requires
        reading.phase == PenPhase::Up,
        page.active_pointer == Some(reading.id),
        page.active_tool == Tool::Pen,
        page.open is Some,
    ensures
        ({
            let line = page.after_reading(reading, color, hits).finished.last();
            &&& line.points.drop_last() == page.open->0.points
            &&& line.points.last().x == reading.smoothed.x
            &&& line.points.last().y == reading.smoothed.y
            &&& line.color == page.open->0.color
        }),
        page.after_reading(reading, color, hits).finished.drop_last() == page.finished,
{
    let line = page.after_reading(reading, color, hits).finished.last();
    assert(line.points.drop_last() =~= page.open->0.points);
    assert(page.after_reading(reading, color, hits).finished.drop_last() =~= page.finished);
}

/// A stroke keeps the colour it was begun in: no reading recolours the stroke under the nib, or any
/// stroke that was finished before it.
pub proof fn ink_keeps_its_colour<T, S>(
    page: PageInk<T, S>,
    reading: Reading<T, S>,
    color: u32,
    hits: Seq<bool>,
)
    requires
        reading.phase != PenPhase::Down,
        page.open is Some,
        page.after_reading(reading, color, hits).open is Some,
    ensures
        page.after_reading(reading, color, hits).open->0.color == page.open->0.color,
{
}

/// A pen that reports no force draws a constant width: each point it adds is as wide as the last.
pub proof fn a_pen_without_a_sensor_draws_one_width<T, S>(
    page: PageInk<T, S>,
    reading: Reading<T, S>,
    force: bool,
)
    requires
        reading.pressed is None,
        page.open is Some,
        page.wf(),
    ensures
        page.after_point(reading, force).open->0.points.last().width
            == page.open->0.points.last().width,
{
}

/// A point is where the smoothed nib is and as wide as the force there draws: a `Move` of the pointer that
/// is down adds it to the stroke under the nib, in that stroke's colour, and touches nothing else. A pen
/// that reports no force draws as wide as before.
pub proof fn a_move_draws_a_point<T, S>(
    page: PageInk<T, S>,
    reading: Reading<T, S>,
    color: u32,
    hits: Seq<bool>,
)
    requires
        reading.phase == PenPhase::Move,
        page.active_pointer == Some(reading.id),
        page.active_tool == Tool::Pen,
        page.open is Some,
        page.wf(),
        page.can_count(),
        !reading.near,
    ensures
        ({
            let after = page.after_reading(reading, color, hits);
            let points = page.open->0.points;
            &&& after.open is Some
            &&& after.open->0.color == page.open->0.color
            &&& after.open->0.points.len() == points.len() + 1
            &&& forall|i: int| 0 <= i < points.len() ==> after.open->0.points[i] == #[trigger] points[i]
            &&& after.open->0.points.last().x == reading.smoothed.x
            &&& after.open->0.points.last().y == reading.smoothed.y
            &&& reading.pressed matches Some(width) ==> after.open->0.points.last().width == width
            &&& reading.pressed is None ==> after.open->0.points.last().width == points.last().width
            &&& after.finished == page.finished
            &&& after.undone == page.undone
            &&& after.active_pointer == page.active_pointer
            &&& after.stats.kept_points == page.stats.kept_points + 1
            &&& after.stats.resampled == page.stats.resampled
            &&& after.stats.erased_strokes == page.stats.erased_strokes
        }),
{
}

/// A `Move` that has hardly left the last point is not drawn: the stroke under the nib stays as it is,
/// and the reading is counted among those dropped.
pub proof fn a_near_move_draws_nothing<T, S>(
    page: PageInk<T, S>,
    reading: Reading<T, S>,
    color: u32,
    hits: Seq<bool>,
)
    requires
        reading.phase == PenPhase::Move,
        page.active_pointer == Some(reading.id),
        page.active_tool == Tool::Pen,
        page.open is Some,
        page.wf(),
        page.can_count(),
        reading.near,
    ensures
        ({
            let after = page.after_reading(reading, color, hits);
            &&& after.open == page.open
            &&& after.finished == page.finished
            &&& after.undone == page.undone
            &&& after.active_pointer == page.active_pointer
            &&& after.stats.kept_points == page.stats.kept_points
            &&& after.stats.resampled == page.stats.resampled + 1
        }),
{
}

/// Lifting the nib ends the stroke with the point the pen left the paper at, as wide as the force there
/// draws, or as wide as before where no force is reported: the stroke is the newest of the page, nothing is
/// under the nib, and nothing is left to put forward.
pub proof fn a_lift_ends_the_stroke<T, S>(
    page: PageInk<T, S>,
    reading: Reading<T, S>,
    color: u32,
    hits: Seq<bool>,
)
    requires
        reading.phase == PenPhase::Up,
        page.active_pointer == Some(reading.id),
        page.active_tool == Tool::Pen,
        page.open is Some,
        page.wf(),
        page.can_count(),
    ensures
        ({
            let after = page.after_reading(reading, color, hits);
            let points = page.open->0.points;
            let line = after.finished.last();
            &&& after.open is None
            &&& after.active_pointer is None
            &&& after.undone.len() == 0
            &&& after.finished.len() == page.finished.len() + 1
            &&& forall|i: int|
                0 <= i < page.finished.len() ==> after.finished[i] == #[trigger] page.finished[i]
            &&& line.color == page.open->0.color
            &&& line.points.len() == points.len() + 1
            &&& forall|i: int| 0 <= i < points.len() ==> line.points[i] == #[trigger] points[i]
            &&& line.points.last().x == reading.smoothed.x
            &&& line.points.last().y == reading.smoothed.y
            &&& reading.pressed matches Some(width) ==> line.points.last().width == width
            &&& reading.pressed is None ==> line.points.last().width == points.last().width
            &&& after.stats.kept_points == page.stats.kept_points + 1
            &&& after.stats.resampled == page.stats.resampled
        }),
{
}

/// A nib that comes down on the paper to draw begins a stroke there, in the ink in hand and as wide as the
/// force draws, or as wide as a pen without a sensor draws. What was still under another nib is finished
/// first, and the pointer is the one that is down from then on.
pub proof fn coming_down_begins_a_stroke<T, S>(
    page: PageInk<T, S>,
    reading: Reading<T, S>,
    color: u32,
    hits: Seq<bool>,
)
    requires
        reading.phase == PenPhase::Down,
        reading.on_paper,
        page.mode == Tool::Pen,
        !reading.eraser,
        !reading.inverted,
        page.wf(),
        page.can_count(),
    ensures
        ({
            let after = page.after_reading(reading, color, hits);
            &&& after.open is Some
            &&& after.open->0.color == color
            &&& after.open->0.points.len() == 1
            &&& after.open->0.points[0].x == reading.place.x
            &&& after.open->0.points[0].y == reading.place.y
            &&& reading.pressed matches Some(width) ==> after.open->0.points[0].width == width
            &&& reading.pressed is None ==> after.open->0.points[0].width == reading.unpressed
            &&& after.active_pointer == Some(reading.id)
            &&& after.active_tool == Tool::Pen
            &&& page.open is None ==> after.finished == page.finished && after.undone == page.undone
            &&& page.open matches Some(line) ==> after.finished == page.finished.push(line)
                && after.undone.len() == 0
            &&& after.stats.erased_strokes == page.stats.erased_strokes
        }),
{
}

/// Whether some lines are just those of a page that the nib does not touch, in their order.
pub open spec fn are_the_untouched<T>(
    lines: Seq<Line<T>>,
    hits: Seq<bool>,
    left: Seq<Line<T>>,
) -> bool {
    exists|kept: Seq<int>| #[trigger] picks_the_untouched(lines, hits, left, kept)
}

/// Whether some lines are those at some places, going up, and the places are just those the nib does not
/// touch.
pub open spec fn picks_the_untouched<T>(
    lines: Seq<Line<T>>,
    hits: Seq<bool>,
    left: Seq<Line<T>>,
    kept: Seq<int>,
) -> bool {
    &&& kept.len() == left.len()
    &&& forall|k: int|
        0 <= k < kept.len() ==> 0 <= (#[trigger] kept[k]) < lines.len() && !hits[kept[k]] && left[k]
            == lines[kept[k]]
    &&& forall|k: int, l: int| 0 <= k < l < kept.len() ==> (#[trigger] kept[k]) < (#[trigger] kept[l])
    &&& forall|i: int| 0 <= i < lines.len() && !(#[trigger] hits[i]) ==> kept.contains(i)
}

/// What the eraser spares is what it does not touch, each in its order.
pub proof fn what_is_spared_is_untouched<T>(lines: Seq<Line<T>>, hits: Seq<bool>)
    requires
        hits.len() >= lines.len(),
    ensures
        are_the_untouched(lines, hits, spared(lines, hits)),
    decreases lines.len(),
{
    let left = spared(lines, hits);
    if lines.len() == 0 {
        assert(picks_the_untouched(lines, hits, left, seq![]));
    } else {
        let n = lines.len() - 1;
        let rest = lines.drop_last();
        what_is_spared_is_untouched(rest, hits);
        let before = choose|kept: Seq<int>|
            picks_the_untouched(rest, hits, spared(rest, hits), kept);
        let kept = if hits[n] {
            before
        } else {
            before.push(n)
        };
        assert forall|k: int| 0 <= k < kept.len() implies 0 <= (#[trigger] kept[k]) < lines.len()
            && !hits[kept[k]] && left[k] == lines[kept[k]] by {
            if k < before.len() {
                assert(before[k] == kept[k]);
            }
        }
        assert forall|k: int, l: int| 0 <= k < l < kept.len() implies (#[trigger] kept[k])
            < (#[trigger] kept[l]) by {
            assert(before[k] == kept[k]);
            if l < before.len() {
                assert(before[l] == kept[l]);
            }
        }
        assert forall|i: int| 0 <= i < lines.len() && !(#[trigger] hits[i]) implies kept.contains(
            i,
        ) by {
            if i < n {
                assert(before.contains(i));
                let k = choose|k: int| 0 <= k < before.len() && before[k] == i;
                assert(kept[k] == i);
            } else {
                assert(kept[before.len() as int] == i);
            }
        }
        assert(picks_the_untouched(lines, hits, left, kept));
    }
}

/// A nib that comes down on the paper erases exactly where the toolbar's eraser is in hand or the pen says
/// its own is: it opens no stroke, and leaves of the page's strokes those it does not touch.
pub proof fn coming_down_erases<T, S>(
    page: PageInk<T, S>,
    reading: Reading<T, S>,
    color: u32,
    hits: Seq<bool>,
)
    requires
        reading.phase == PenPhase::Down,
        reading.on_paper,
        page.wf(),
        page.can_count(),
        hits.len() >= page.stroke_count(),
    ensures
        ({
            let after = page.after_reading(reading, color, hits);
            let lines = match page.open {
                Some(line) => page.finished.push(line),
                None => page.finished,
            };
            &&& after.active_pointer == Some(reading.id)
            &&& after.active_tool == Tool::Eraser <==> page.mode == Tool::Eraser || reading.eraser
                || reading.inverted
            &&& after.open is None <==> page.mode == Tool::Eraser || reading.eraser || reading.inverted
            &&& page.mode == Tool::Eraser || reading.eraser || reading.inverted ==> {
                &&& are_the_untouched(lines, hits, after.finished)
                &&& after.stats.erased_strokes == page.stats.erased_strokes + lines.len()
                    - after.finished.len()
                &&& after.finished.len() < lines.len() ==> after.undone.len() == 0
                &&& after.last_erase == Some(reading.place)
            }
        }),
{
    let lines = match page.open {
        Some(line) => page.finished.push(line),
        None => page.finished,
    };
    what_is_spared_is_untouched(lines, hits);
    spared_counts(lines, hits);
}

/// Moving the eraser leaves of the page's strokes those it does not touch, unless it has hardly moved since
/// it last looked, when it leaves them all. It draws nothing.
pub proof fn moving_the_eraser_erases<T, S>(
    page: PageInk<T, S>,
    reading: Reading<T, S>,
    color: u32,
    hits: Seq<bool>,
)
    requires
        reading.phase == PenPhase::Move,
        page.active_pointer == Some(reading.id),
        page.active_tool == Tool::Eraser,
        page.can_count(),
        hits.len() >= page.stroke_count(),
    ensures
        ({
            let after = page.after_reading(reading, color, hits);
            &&& after.open == page.open
            &&& after.active_pointer == page.active_pointer
            &&& after.stats.kept_points == page.stats.kept_points
            &&& after.stats.erased_strokes == page.stats.erased_strokes + page.finished.len()
                - after.finished.len()
            &&& page.last_erase is Some && reading.settled ==> after.finished == page.finished
                && after.undone == page.undone && after.last_erase == page.last_erase
            &&& page.last_erase is None || !reading.settled ==> are_the_untouched(
                page.finished,
                hits,
                after.finished,
            ) && after.last_erase == Some(reading.place)
            &&& after.finished.len() < page.finished.len() ==> after.undone.len() == 0
            &&& after.finished == page.finished ==> after.undone == page.undone
        }),
{
    what_is_spared_is_untouched(page.finished, hits);
    spared_counts(page.finished, hits);
}

/// Lifting the eraser, or losing it, erases nothing and draws nothing: the pointer is let go.
pub proof fn lifting_the_eraser_changes_nothing<T, S>(
    page: PageInk<T, S>,
    reading: Reading<T, S>,
    color: u32,
    hits: Seq<bool>,
)
    requires
        reading.phase == PenPhase::Up || reading.phase == PenPhase::Cancel || reading.phase
            == PenPhase::Leave,
        page.active_pointer == Some(reading.id),
        page.active_tool == Tool::Eraser,
        page.open is None,
    ensures
        ({
            let after = page.after_reading(reading, color, hits);
            &&& after.finished == page.finished
            &&& after.undone == page.undone
            &&& after.open is None
            &&& after.active_pointer is None
            &&& after.stats.erased_strokes == page.stats.erased_strokes
            &&& after.stats.kept_points == page.stats.kept_points
        }),
{
}

/// A stroke whose pointer is lost ends where it got to, as the newest of the page, and nothing is left to
/// put forward. So does one that a nib coming down beside the paper finds open.
pub proof fn a_lost_stroke_is_kept<T, S>(
    page: PageInk<T, S>,
    reading: Reading<T, S>,
    color: u32,
    hits: Seq<bool>,
)
    requires
        page.open is Some,
        page.wf(),
        (reading.phase == PenPhase::Cancel || reading.phase == PenPhase::Leave)
            && page.active_pointer == Some(reading.id) || reading.phase == PenPhase::Down
            && !reading.on_paper,
    ensures
        ({
            let after = page.after_reading(reading, color, hits);
            &&& after.finished == page.finished.push(page.open->0)
            &&& after.undone.len() == 0
            &&& after.open is None
            &&& after.active_pointer is None
            &&& after.stats.kept_points == page.stats.kept_points
            &&& after.stats.erased_strokes == page.stats.erased_strokes
        }),
{
}

/// A nib that comes down beside the paper where nothing is open leaves the ink as it is, and is not down.
pub proof fn a_nib_beside_the_paper_is_not_down<T, S>(
    page: PageInk<T, S>,
    reading: Reading<T, S>,
    color: u32,
    hits: Seq<bool>,
)
    requires
        page.open is None,
        reading.phase == PenPhase::Down,
        !reading.on_paper,
    ensures
        ({
            let after = page.after_reading(reading, color, hits);
            &&& after.finished == page.finished
            &&& after.undone == page.undone
            &&& after.open is None
            &&& after.active_pointer is None
        }),
{
}

/// Every reading is counted and remembered, and leaves the toolbar as it is. One that is not on the paper
/// is counted as such where it could have drawn.
pub proof fn every_reading_is_counted<T, S>(
    page: PageInk<T, S>,
    reading: Reading<T, S>,
    color: u32,
    hits: Seq<bool>,
)
    requires
        page.can_count(),
    ensures
        ({
            let after = page.after_reading(reading, color, hits);
            let draws = reading.phase == PenPhase::Down || (reading.phase == PenPhase::Move
                || reading.phase == PenPhase::Up) && page.active_pointer == Some(reading.id);
            &&& after.stats.readings == page.stats.readings + 1
            &&& after.last_sample == Some(reading.sample)
            &&& after.mode == page.mode
            &&& draws && !reading.on_paper ==> after.stats.off_paper == page.stats.off_paper + 1
            &&& !draws || reading.on_paper ==> after.stats.off_paper == page.stats.off_paper
            &&& reading.phase != PenPhase::Down ==> after.active_tool == page.active_tool
        }),
{
}

/// A repaint is worth it for a nib that comes down, and for what the pointer that is down does until it is
/// gone; for nothing else.
pub proof fn only_the_nib_that_is_down_is_heeded<T, S>(page: PageInk<T, S>, reading: Reading<T, S>)
    ensures
        reading.phase == PenPhase::Down ==> page.heeds(reading),
        page.heeds(reading) && reading.phase != PenPhase::Down ==> page.active_pointer == Some(
            reading.id,
        ),
        page.active_pointer == Some(reading.id) && (reading.phase == PenPhase::Move || reading.phase
            == PenPhase::Up || reading.phase == PenPhase::Cancel || reading.phase
            == PenPhase::Leave) ==> page.heeds(reading),
        reading.phase == PenPhase::Hover || reading.phase == PenPhase::Enter || reading.phase
            == PenPhase::Idle ==> !page.heeds(reading),
{
}

/// Undo takes the newest stroke of the page, and redo the one taken last; where there is none, nothing
/// changes. Neither counts anything, or changes the tool in hand or what was last read.
pub proof fn history_moves_one_stroke<T, S>(page: PageInk<T, S>)
    ensures
        page.finished.len() > 0 ==> page.after_undo().finished.push(page.finished.last())
            == page.finished && page.after_undo().undone == page.undone.push(page.finished.last()),
        page.undone.len() > 0 ==> page.after_redo().finished == page.finished.push(
            page.undone.last(),
        ) && page.after_redo().undone.push(page.undone.last()) == page.undone,
        page.finished.len() == 0 ==> page.after_undo() == page,
        page.undone.len() == 0 ==> page.after_redo() == page,
        page.after_undo().stats == page.stats,
        page.after_undo().mode == page.mode,
        page.after_undo().last_sample == page.last_sample,
        page.after_redo().stats == page.stats,
        page.after_redo().mode == page.mode,
        page.after_redo().last_sample == page.last_sample,
{
    if page.finished.len() > 0 {
        assert(page.after_undo().finished.push(page.finished.last()) =~= page.finished);
    }
    if page.undone.len() > 0 {
        assert(page.after_redo().undone.push(page.undone.last()) =~= page.undone);
    }
}

/// Clearing takes every stroke and the one under the nib, and lets the nib go. What was counted, the tool
/// in hand and what was last read stay.
pub proof fn clearing_takes_only_the_ink<T, S>(page: PageInk<T, S>)
    ensures
        page.after_clear().finished.len() == 0,
        page.after_clear().undone.len() == 0,
        page.after_clear().open is None,
        page.after_clear().active_pointer is None,
        page.after_clear().stats == page.stats,
        page.after_clear().mode == page.mode,
        page.after_clear().last_sample == page.last_sample,
{
}

/// A new page holds nothing, draws with the pen, and has counted nothing.
pub proof fn a_new_page_is_empty<T, S>()
    ensures
        PageInk::<T, S>::blank().finished.len() == 0,
        PageInk::<T, S>::blank().undone.len() == 0,
        PageInk::<T, S>::blank().open is None,
        PageInk::<T, S>::blank().active_pointer is None,
        PageInk::<T, S>::blank().mode == Tool::Pen,
        PageInk::<T, S>::blank().last_sample is None,
        PageInk::<T, S>::blank().last_erase is None,
        PageInk::<T, S>::blank().stats.readings == 0,
        PageInk::<T, S>::blank().stats.kept_points == 0,
        PageInk::<T, S>::blank().stats.resampled == 0,
        PageInk::<T, S>::blank().stats.off_paper == 0,
        PageInk::<T, S>::blank().stats.erased_strokes == 0,
{
}

/// A page is blank just where it has no stroke, finished or under the nib, and its strokes are counted so.
/// It is kept where it has a stroke or one can come back.
pub proof fn a_blank_page_has_no_stroke<T, S>(page: PageInk<T, S>)
    ensures
        page.is_blank() <==> page.stroke_count() == 0,
        page.open is None ==> page.stroke_count() == page.finished.len(),
        page.open is Some ==> page.stroke_count() == page.finished.len() + 1,
        page.is_kept() <==> page.stroke_count() > 0 || page.undone.len() > 0,
{
}

/// A stroke under the nib always has a point, whatever is read.
pub proof fn the_nib_always_has_a_point<T, S>(
    page: PageInk<T, S>,
    reading: Reading<T, S>,
    color: u32,
    hits: Seq<bool>,
)
    requires
        page.wf(),
    ensures
        page.after_reading(reading, color, hits).wf(),
        page.after_undo().wf(),
        page.after_redo().wf(),
        page.after_clear().wf(),
{
}

/// A reading leaves as many to be counted as there were, but one.
pub(crate) proof fn counting_goes_on<T, S>(
    page: PageInk<T, S>,
    reading: Reading<T, S>,
    color: u32,
    hits: Seq<bool>,
    more: nat,
)
    requires
        more > 0,
        page.can_count_many(more),
        hits.len() >= page.stroke_count(),
    ensures
        page.can_count(),
        page.after_reading(reading, color, hits).can_count_many((more - 1) as nat),
{
    spared_counts(page.finished, hits);
    spared_counts(page.after_lift().finished, hits);
}

/// What was measured of a batch, with what was measured of one reading more against the page it left,
/// is what was measured of the longer batch.
pub(crate) proof fn one_more_is_measured<
    T,
    S,
    F: Fn(&InkDocument<T, S>, &S) -> (Reading<T, S>, Vec<bool>),
>(
    measure: F,
    page: PageInk<T, S>,
    samples: Seq<S>,
    fed: Seq<(Reading<T, S>, Seq<bool>)>,
    color: u32,
    sample: S,
    one: (Reading<T, S>, Seq<bool>),
)
    requires
        are_measured(measure, page, samples, fed, color),
        is_measured(measure, page.after_all(fed, color), sample, one),
    ensures
        are_measured(measure, page, samples.push(sample), fed.push(one), color),
{
    let next = fed.push(one);
    assert forall|i: int| 0 <= i < next.len() implies is_measured(
        measure,
        page.after_all(next.take(i), color),
        samples.push(sample)[i],
        #[trigger] next[i],
    ) by {
        assert(next.take(i) =~= fed.take(i));
        if i < fed.len() {
            assert(next[i] == fed[i]);
        } else {
            assert(fed.take(i) =~= fed);
        }
    }
}

/// What a batch does is what its readings do: where what is measured of a reading depends on it and on
/// the page alone, feeding a batch is the fold of its readings.
pub proof fn a_batch_is_its_readings<
    T,
    S,
    F: Fn(&InkDocument<T, S>, &S) -> (Reading<T, S>, Vec<bool>),
>(
    measure: F,
    measured: spec_fn(PageInk<T, S>, S) -> (Reading<T, S>, Seq<bool>),
    page: PageInk<T, S>,
    samples: Seq<S>,
    fed: Seq<(Reading<T, S>, Seq<bool>)>,
    color: u32,
)
    requires
        are_measured(measure, page, samples, fed, color),
        forall|ink: InkDocument<T, S>, sample: S, answer: (Reading<T, S>, Vec<bool>)|
            #![trigger call_ensures(measure, (&ink, &sample), answer)]
            call_ensures(measure, (&ink, &sample), answer) ==> measured(ink@, sample) == (
                answer.0,
                answer.1@,
            ),
    ensures
        page.after_all(fed, color) == page.after_batch(samples, color, measured),
        page.heeds_any(fed, color) == page.heeds_batch(samples, color, measured),
    decreases fed.len(),
{
    if fed.len() > 0 {
        let rest = fed.drop_last();
        let n = rest.len() as int;
        assert forall|i: int| 0 <= i < rest.len() implies is_measured(
            measure,
            page.after_all(rest.take(i), color),
            samples.drop_last()[i],
            #[trigger] rest[i],
        ) by {
            assert(rest.take(i) =~= fed.take(i));
            assert(rest[i] == fed[i]);
        }
        a_batch_is_its_readings(measure, measured, page, samples.drop_last(), rest, color);
        assert(fed.take(n) =~= rest);
        assert(is_measured(measure, page.after_all(fed.take(n), color), samples[n], fed[n]));
        assert(measured(page.after_all(rest, color), samples[n]) == fed[n]);
    }
}

/// How readings are batched does not matter: one batch does what its two halves do one after the other,
/// and changes something exactly when one of them does.
pub proof fn batching_does_not_matter<T, S>(
    page: PageInk<T, S>,
    first: Seq<S>,
    second: Seq<S>,
    color: u32,
    measure: spec_fn(PageInk<T, S>, S) -> (Reading<T, S>, Seq<bool>),
)
    ensures
        page.after_batch(first + second, color, measure) == page.after_batch(
            first,
            color,
            measure,
        ).after_batch(second, color, measure),
        page.heeds_batch(first + second, color, measure) == (page.heeds_batch(first, color, measure)
            || page.after_batch(first, color, measure).heeds_batch(second, color, measure)),
    decreases second.len(),
{
    if second.len() == 0 {
        assert(first + second =~= first);
    } else {
        let rest = second.drop_last();
        batching_does_not_matter(page, first, rest, color, measure);
        assert((first + second).drop_last() =~= first + rest);
        assert((first + second).last() == second.last());
    }
}

/// Feeding readings in one batch or in two comes to the same page and the same answer, where what is
/// measured of a reading depends on it and on the page alone.
pub proof fn splitting_a_batch_changes_nothing<
    T,
    S,
    F: Fn(&InkDocument<T, S>, &S) -> (Reading<T, S>, Vec<bool>),
>(
    measure: F,
    measured: spec_fn(PageInk<T, S>, S) -> (Reading<T, S>, Seq<bool>),
    page: PageInk<T, S>,
    first: Seq<S>,
    second: Seq<S>,
    whole: Seq<(Reading<T, S>, Seq<bool>)>,
    one: Seq<(Reading<T, S>, Seq<bool>)>,
    two: Seq<(Reading<T, S>, Seq<bool>)>,
    color: u32,
)
    requires
        are_measured(measure, page, first + second, whole, color),
        are_measured(measure, page, first, one, color),
        are_measured(measure, page.after_all(one, color), second, two, color),
        forall|ink: InkDocument<T, S>, sample: S, answer: (Reading<T, S>, Vec<bool>)|
            #![trigger call_ensures(measure, (&ink, &sample), answer)]
            call_ensures(measure, (&ink, &sample), answer) ==> measured(ink@, sample) == (
                answer.0,
                answer.1@,
            ),
    ensures
        page.after_all(whole, color) == page.after_all(one, color).after_all(two, color),
        page.heeds_any(whole, color) == (page.heeds_any(one, color) || page.after_all(
            one,
            color,
        ).heeds_any(two, color)),
{
    a_batch_is_its_readings(measure, measured, page, first + second, whole, color);
    a_batch_is_its_readings(measure, measured, page, first, one, color);
    a_batch_is_its_readings(
        measure,
        measured,
        page.after_all(one, color),
        second,
        two,
        color,
    );
    batching_does_not_matter(page, first, second, color, measured);
}

/// Every reading of a batch is counted, and the last one fed is the last one known, whatever its phase.
pub proof fn a_batch_is_counted<T, S>(
    page: PageInk<T, S>,
    samples: Seq<S>,
    color: u32,
    measure: spec_fn(PageInk<T, S>, S) -> (Reading<T, S>, Seq<bool>),
)
    requires
        page.stats.readings + samples.len() <= u64::MAX,
        forall|ink: PageInk<T, S>, sample: S| (#[trigger] measure(ink, sample)).0.sample == sample,
    ensures
        page.after_batch(samples, color, measure).stats.readings == page.stats.readings
            + samples.len(),
        samples.len() > 0 ==> page.after_batch(samples, color, measure).last_sample == Some(
            samples.last(),
        ),
    decreases samples.len(),
{
    if samples.len() > 0 {
        let rest = samples.drop_last();
        a_batch_is_counted(page, rest, color, measure);
        let before = page.after_batch(rest, color, measure);
        let (reading, hits) = measure(before, samples.last());
        assert(reading.sample == samples.last());
    }
}

/// Strokes are lines of the same points, in the same order, and of the same colour, one for one.
pub proof fn a_stroke_is_its_points_and_its_colour<T>(
    strokes: Seq<Stroke<T>>,
    shared: Seq<Arc<Stroke<T>>>,
    i: int,
)
    ensures
        lines_of(strokes).len() == strokes.len(),
        shared_lines(shared).len() == shared.len(),
        0 <= i < strokes.len() ==> lines_of(strokes)[i].points == strokes[i].points@ && lines_of(
            strokes,
        )[i].color == strokes[i].color,
        0 <= i < shared.len() ==> shared_lines(shared)[i].points == shared[i].points@ && shared_lines(
            shared,
        )[i].color == shared[i].color,
{
}

/// The nib touches one of the first lines exactly where it touches one by one of them.
pub proof fn touching_is_touching_one(hits: Seq<bool>, n: int)
    requires
        0 <= n < hits.len(),
    ensures
        !touches(hits, 0),
        touches(hits, n + 1) <==> touches(hits, n) || hits[n],
{
    if touches(hits, n + 1) && !hits[n] {
        let i = choose|i: int| 0 <= i < n + 1 && #[trigger] hits[i];
        assert(0 <= i < n && hits[i]);
    }
    if touches(hits, n) {
        let i = choose|i: int| 0 <= i < n && #[trigger] hits[i];
        assert(0 <= i < n + 1 && hits[i]);
    }
    if hits[n] {
        assert(0 <= n < n + 1 && hits[n]);
    }
}

} // verus!
