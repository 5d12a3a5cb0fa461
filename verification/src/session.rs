//! An open note: its pages, its ink, and what of the ink has been handed to the note.
//!
//! The ink is handed over in batches, on a clock, and a page whose ink went down is written again
//! rather than appended to. What has to be done is answered, not done: the caller holds the writer.

use crate::clock::{has_passed, passed, BATCH_NANOS};
use crate::ink::{
    are_measured, copied_from, counting_goes_on, is_measured, lines_of, one_more_is_measured,
    shared_lines, spared, spared_counts, touched, touches, InkDocument, Line, PageInk, PenPhase,
    Reading, Stroke, Tool,
};
use crate::note::Job;
use crate::notes::{close_up, moved_apart, moved_together, spread, Book, Notes};
use crate::pages::{extended, insert_place, listed_pages, Page, Pages};
use std::collections::BTreeMap;
use vstd::prelude::*;

verus! {

broadcast use {
    vstd::laws_cmp::group_laws_cmp,
    vstd::std_specs::btree::group_btree_axioms,
};

/// How much ink may wait in memory before it is handed over early.
pub const BATCH_STROKES: usize = 200;

/// What is known of one page of the note.
#[derive(Clone, Copy, Debug, PartialEq, Eq, Structural)]
pub struct Ledger {
    /// How many strokes of the page the note has been handed.
    pub saved: usize,
    /// Whether the page has to be written again, because it is no longer a longer version of what
    /// the note holds.
    pub rewritten: bool,
    /// Whether the page has been read out of the note.
    pub loaded: bool,
}

/// What is known of a page nothing has been done with.
pub open spec fn no_ledger() -> Ledger {
    Ledger { saved: 0, rewritten: false, loaded: false }
}

/// What has to be done with the ink of the page in front of the reader.
#[derive(Clone, Copy, Debug, PartialEq, Eq, Structural)]
pub enum Batch {
    /// Nothing.
    Nothing,
    /// There is ink and no note to put it in: a note has to be made first.
    MakeNote,
    /// The finished strokes from this one on are added to the page.
    Append {
        /// The page.
        page: usize,
        /// The first stroke the note does not have.
        from: usize,
    },
    /// The page is written again from scratch.
    Rewrite {
        /// The page.
        page: usize,
    },
}

/// What has to be done with a page that is being closed.
#[derive(Clone, Copy, Debug, PartialEq, Eq, Structural)]
pub struct Closing {
    /// What has to be done with its ink, first.
    pub batch: Batch,
    /// Whether the page is then folded into chunks.
    pub compact: bool,
}

/// What an open note is, mathematically.
#[verifier::ext_equal]
pub ghost struct Desk<T, S> {
    /// What each page shows.
    pub pages: Seq<Page>,
    /// The ink, and the page being written on.
    pub ink: Book<T, S>,
    /// What is known of each page.
    pub ledger: Map<int, Ledger>,
    /// When ink was last handed over.
    pub saved_at: u64,
    /// Whether there is a note to hand ink to.
    pub writing: bool,
}

impl<T, S> Desk<T, S> {
    /// There is a page in front of the reader, and nothing is known of pages there are not.
    pub open spec fn wf(self) -> bool {
        &&& self.ink.wf()
        &&& 0 <= self.ink.page < self.pages.len()
        &&& forall|p: int| #[trigger] self.ink.pages.contains_key(p) ==> p < self.pages.len()
        &&& forall|p: int| #[trigger] self.ledger.contains_key(p) ==> 0 <= p < self.pages.len()
    }

    /// The ink in front of the reader.
    pub open spec fn current(self) -> PageInk<T, S> {
        self.ink.pages[self.ink.page]
    }

    /// What is known of a page.
    pub open spec fn known(self, page: int) -> Ledger {
        if self.ledger.contains_key(page) {
            self.ledger[page]
        } else {
            no_ledger()
        }
    }

    /// What is known of the page in front of the reader.
    pub open spec fn here(self) -> Ledger {
        self.known(self.ink.page)
    }

    /// How many strokes of the page the note does not have.
    pub open spec fn waiting(self) -> int {
        if self.current().finished.len() > self.here().saved {
            self.current().finished.len() - self.here().saved
        } else {
            0
        }
    }

    /// Whether the page has to be written again: its ink went down since it was handed over.
    pub open spec fn is_rewritten(self) -> bool {
        self.here().rewritten || self.current().finished.len() < self.here().saved
    }

    /// Whether ink is due to be handed over: a batch is full, or there is something to hand over and
    /// it has waited long enough or must not wait.
    pub open spec fn is_due(self, now: u64, flush: bool) -> bool {
        let stale = has_passed(self.saved_at, now, BATCH_NANOS);
        ||| self.waiting() >= BATCH_STROKES
        ||| (self.waiting() > 0 || self.is_rewritten()) && (flush || stale)
    }

    /// What has to be done with the ink.
    pub open spec fn batch(self, now: u64, flush: bool) -> Batch {
        if !self.writing {
            if self.current().is_blank() {
                Batch::Nothing
            } else {
                Batch::MakeNote
            }
        } else if !self.is_due(now, flush) {
            Batch::Nothing
        } else if self.is_rewritten() {
            Batch::Rewrite { page: self.ink.page as usize }
        } else {
            Batch::Append { page: self.ink.page as usize, from: self.here().saved }
        }
    }

    /// The note once what has to be done with its ink is done.
    pub open spec fn after_persist(self, now: u64, flush: bool) -> Self {
        if !self.writing {
            self
        } else if !self.is_due(now, flush) {
            Desk {
                ledger: self.ledger.insert(
                    self.ink.page,
                    Ledger { rewritten: self.is_rewritten(), ..self.here() },
                ),
                ..self
            }
        } else {
            Desk {
                ledger: self.ledger.insert(
                    self.ink.page,
                    Ledger {
                        saved: self.current().finished.len() as usize,
                        rewritten: false,
                        ..self.here()
                    },
                ),
                saved_at: now,
                ..self
            }
        }
    }

    /// Whether a page that is being closed is folded into chunks: the note has ink of it.
    pub open spec fn compacts(self, now: u64) -> bool {
        let done = self.after_persist(now, true);
        self.writing && (done.here().rewritten || done.here().saved > 0)
    }

    /// The note with the page in front of the reader closed.
    pub open spec fn after_close(self, now: u64) -> Self {
        let done = self.after_persist(now, true);
        Desk {
            ledger: done.ledger.insert(
                self.ink.page,
                Ledger { rewritten: false, ..done.here() },
            ),
            ..done
        }
    }

    /// The note with the page in front of the reader changed.
    pub open spec fn with_current(self, ink: PageInk<T, S>) -> Self {
        Desk {
            ink: Book { pages: self.ink.pages.insert(self.ink.page, ink), ..self.ink },
            ..self
        }
    }

    /// Whether what a note stores of the page in front of the reader is what the ledger says it is:
    /// the strokes it has been handed, unless the page is known to need writing again.
    pub open spec fn keeps(self, stored: Seq<Line<T>>) -> bool {
        self.here().rewritten || (self.here().saved <= self.current().finished.len() && stored
            == self.current().finished.take(self.here().saved as int))
    }

    /// What a note that stored these lines of the page in front of the reader stores once a batch is
    /// done.
    pub open spec fn stored_after(self, stored: Seq<Line<T>>, batch: Batch) -> Seq<Line<T>> {
        match batch {
            Batch::Nothing | Batch::MakeNote => stored,
            Batch::Append { page, from } => stored + self.current().finished.skip(from as int),
            Batch::Rewrite { page } => self.current().finished,
        }
    }

    /// How many strokes of the page in front of the reader the note has been handed.
    pub open spec fn handed(self) -> int {
        if self.here().saved < self.current().finished.len() {
            self.here().saved as int
        } else {
            self.current().finished.len() as int
        }
    }

    /// The note after a pen reading.
    ///
    /// A page that lost a stroke the note has been handed has to be written again, however many
    /// strokes are on it afterwards.
    pub open spec fn after_reading(
        self,
        reading: Reading<T, S>,
        color: u32,
        hits: Seq<bool>,
    ) -> Self {
        let next = self.current().after_reading(reading, color, hits);
        let done = self.with_current(next);
        if next.stats.erased_strokes != self.current().stats.erased_strokes && touches(
            hits,
            self.handed(),
        ) {
            Desk {
                ledger: self.ledger.insert(
                    self.ink.page,
                    Ledger { rewritten: true, ..self.here() },
                ),
                ..done
            }
        } else {
            done
        }
    }

    /// The note after pen readings with what was measured of each, in order.
    pub open spec fn after_all(self, fed: Seq<(Reading<T, S>, Seq<bool>)>, color: u32) -> Self
        decreases fed.len(),
    {
        if fed.len() == 0 {
            self
        } else {
            self.after_all(fed.drop_last(), color).after_reading(
                fed.last().0,
                color,
                fed.last().1,
            )
        }
    }

    /// The note turned to a page.
    pub open spec fn after_turn(self, page: int) -> Self {
        Desk { ink: self.ink.after_turn(page), ..self }
    }

    /// The note with a page read out of it: what it held is what has been handed to it.
    pub open spec fn after_load(self, page: int, lines: Seq<Line<T>>, written: usize) -> Self {
        Desk {
            ink: self.ink.after_put(page, PageInk { finished: lines, ..PageInk::blank() }),
            ledger: self.ledger.insert(
                page,
                Ledger { saved: written, loaded: true, ..self.known(page) },
            ),
            ..self
        }
    }

    /// The note with a blank page made at a place, and turned to.
    pub open spec fn after_add(self, at: int) -> Self {
        Desk {
            pages: self.pages.insert(at, Page::Blank),
            ink: self.ink.after_insert(at).after_turn(at),
            ledger: moved_apart(self.ledger, at),
            ..self
        }
    }

    /// The page shown once the page in front of the reader is deleted: the one that followed it, or
    /// the last.
    pub open spec fn shown_after_delete(self) -> int {
        if self.ink.page < self.pages.len() - 1 {
            self.ink.page
        } else {
            self.pages.len() - 2
        }
    }

    /// The note without the page in front of the reader, turned to the page shown instead.
    pub open spec fn after_delete(self) -> Self {
        Desk {
            pages: self.pages.remove(self.ink.page),
            ink: self.ink.after_remove(self.ink.page).after_turn(self.shown_after_delete()),
            ledger: moved_together(self.ledger.remove(self.ink.page), self.ink.page),
            ..self
        }
    }

    /// The note a saved one is opened as.
    pub open spec fn opened(pages: Seq<Page>, page: int, saved_at: u64) -> Self {
        Desk {
            pages,
            ink: Book::new().after_turn(page),
            ledger: Map::empty(),
            saved_at,
            writing: true,
        }
    }
}

/// An open note: its pages, its ink, and what of the ink has been handed to the note.
#[derive(Debug)]
pub struct Session<T, S> {
    pages: Pages,
    ink: Notes<T, S>,
    ledger: BTreeMap<usize, Ledger>,
    saved_at: u64,
    writing: bool,
}

/// What is known of pages, by page number.
pub open spec fn ledger_of(ledger: Map<usize, Ledger>) -> Map<int, Ledger> {
    Map::new(
        |p: int| 0 <= p <= usize::MAX && ledger.contains_key(p as usize),
        |p: int| ledger[p as usize],
    )
}

impl<T, S> View for Session<T, S> {
    type V = Desk<T, S>;

    closed spec fn view(&self) -> Desk<T, S> {
        Desk {
            pages: self.pages@,
            ink: self.ink@,
            ledger: ledger_of(self.ledger@),
            saved_at: self.saved_at,
            writing: self.writing,
        }
    }
}

impl<T, S> Session<T, S> {
    /// The note is in order, and so is its ink.
    pub closed spec fn wf(&self) -> bool {
        &&& self@.wf()
        &&& self.ink.wf()
    }

    /// What is in order on the inside is in order to a reader.
    pub proof fn is_in_order(&self)
        requires
            self.wf(),
        ensures
            self@.wf(),
    {
    }
}

impl<T: Copy, S: Copy> Session<T, S> {
    /// A blank sheet: a note that does not exist until the first stroke.
    pub fn new(saved_at: u64) -> (session: Self)
        ensures
            session.wf(),
            session@.wf(),
            session@ == (Desk {
                pages: seq![Page::Blank],
                ink: Book::<T, S>::new(),
                ledger: Map::<int, Ledger>::empty().insert(
                    0int,
                    Ledger { loaded: true, ..no_ledger() },
                ),
                saved_at,
                writing: false,
            }),
    {
        let mut ledger: BTreeMap<usize, Ledger> = BTreeMap::new();
        ledger.insert(0, Ledger { saved: 0, rewritten: false, loaded: true });
        let session: Session<T, S> = Session {
            pages: Pages::default(),
            ink: Notes::new(),
            ledger,
            saved_at,
            writing: false,
        };
        assert(session@.ledger =~= Map::<int, Ledger>::empty().insert(
            0int,
            Ledger { loaded: true, ..no_ledger() },
        ));
        session
    }

    /// The note a saved one is opened as: its pages, and the page that was open in front of the
    /// reader, with nothing read yet.
    ///
    /// `written` are the pages the note holds ink of, in order; the page list covers all of them.
    pub fn adopt(
        layout: Vec<Page>,
        document_pages: usize,
        written: &Vec<usize>,
        open_page: usize,
        saved_at: u64,
    ) -> (session: Self)
        requires
            written@.len() > 0 ==> written@.last() < usize::MAX,
        ensures
            session.wf(),
            session@.wf(),
            ({
                let ink_pages = if written@.len() > 0 {
                    written@.last() + 1
                } else {
                    1
                };
                let pages = extended(
                    listed_pages(
                        if layout@.len() > 0 {
                            Some(layout@)
                        } else {
                            None
                        },
                        document_pages as nat,
                    ),
                    ink_pages as nat,
                );
                let page = if open_page < pages.len() {
                    open_page as int
                } else {
                    pages.len() - 1
                };
                session@ == Desk::<T, S>::opened(pages, page, saved_at)
            }),
    {
        let ink_pages: usize = if written.len() > 0 {
            written[written.len() - 1] + 1
        } else {
            1
        };
        let listed: Option<Vec<Page>> = if layout.len() > 0 {
            Some(layout)
        } else {
            None
        };
        let pages: Pages = Pages::restore(listed, document_pages, ink_pages);
        let page: usize = pages.clamp(open_page);
        let mut ink: Notes<T, S> = Notes::new();
        ink.go_to(page);
        let session: Session<T, S> = Session {
            pages,
            ink,
            ledger: BTreeMap::new(),
            saved_at,
            writing: true,
        };
        assert(session@.ledger =~= Map::<int, Ledger>::empty());
        session
    }

    /// What each page shows.
    pub fn pages(&self) -> (pages: &Pages)
        ensures
            pages@ == self@.pages,
    {
        &self.pages
    }

    /// The ink, and the page being written on.
    pub fn ink(&self) -> (ink: &Notes<T, S>)
        ensures
            ink@ == self@.ink,
    {
        &self.ink
    }

    /// Which page is in front of the reader.
    pub fn page_index(&self) -> (page: usize)
        ensures
            page == self@.ink.page,
    {
        self.ink.page()
    }

    /// When ink was last handed over.
    pub fn saved_at(&self) -> (saved_at: u64)
        ensures
            saved_at == self@.saved_at,
    {
        self.saved_at
    }

    /// How many pages there are to move between.
    pub fn page_total(&self) -> (total: usize)
        ensures
            total == self@.pages.len(),
    {
        self.pages.len()
    }

    /// Feeds one pen reading to the page in front of the reader: see [`InkDocument::consume`].
    pub fn consume(&mut self, reading: &Reading<T, S>, color: u32, hits: &Vec<bool>) -> (changed:
        bool)
        requires
            old(self).wf(),
            old(self)@.current().can_count(),
            hits@.len() >= old(self)@.current().stroke_count(),
        ensures
            final(self).wf(),
            final(self)@.wf(),
            final(self)@ == old(self)@.after_reading(*reading, color, hits@),
            changed == old(self)@.current().heeds(*reading),
    {
        let page: usize = self.ink.page();
        let known: Ledger = self.known(page);
        let ghost before = self@;
        let count: usize = self.ink.current().finished().len();
        assert(count == before.current().finished.len());
        let handed: usize = if known.saved < count {
            known.saved
        } else {
            count
        };
        let erased_before: u64 = self.ink.current().stats().erased_strokes;
        let changed: bool = self.ink.current_mut().consume(reading, color, hits);
        let erased_after: u64 = self.ink.current().stats().erased_strokes;
        let ghost next = before.current().after_reading(*reading, color, hits@);
        assert(self@ =~= before.with_current(next));
        if erased_before != erased_after && touched(hits, handed) {
            self.ledger.insert(page, Ledger { rewritten: true, ..known });
            assert(self@.ledger =~= before.ledger.insert(
                before.ink.page,
                Ledger { rewritten: true, ..before.here() },
            ));
        }
        changed
    }

    /// Feeds a batch of pen readings to the page in front of the reader: see
    /// [`InkDocument::consume_batch`].
    pub fn consume_batch<F: Fn(&InkDocument<T, S>, &S) -> (Reading<T, S>, Vec<bool>)>(
        &mut self,
        samples: &[S],
        color: u32,
        measure: F,
    ) -> (changed: bool)
        requires
            old(self).wf(),
            old(self)@.current().can_count_many(samples@.len()),
            forall|ink: InkDocument<T, S>, sample: S|
                #![trigger call_requires(measure, (&ink, &sample))]
                call_requires(measure, (&ink, &sample)),
            forall|ink: InkDocument<T, S>, sample: S, answer: (Reading<T, S>, Vec<bool>)|
                #![trigger call_ensures(measure, (&ink, &sample), answer)]
                call_ensures(measure, (&ink, &sample), answer) ==> answer.1@.len()
                    >= ink@.stroke_count(),
        ensures
            final(self).wf(),
            final(self)@.wf(),
            exists|fed: Seq<(Reading<T, S>, Seq<bool>)>|
                #![trigger old(self)@.after_all(fed, color)]
                are_measured(measure, old(self)@.current(), samples@, fed, color) && final(self)@
                    == old(self)@.after_all(fed, color) && changed
                    == old(self)@.current().heeds_any(fed, color),
    {
        let mut changed: bool = false;
        let ghost start = self@;
        let ghost page = self@.current();
        let ghost mut fed: Seq<(Reading<T, S>, Seq<bool>)> = seq![];
        let mut index: usize = 0;
        while index < samples.len()
            invariant
                index <= samples@.len(),
                self.wf(),
                start == old(self)@,
                page == start.current(),
                self@.current().can_count_many((samples@.len() - index) as nat),
                forall|ink: InkDocument<T, S>, sample: S|
                    #![trigger call_requires(measure, (&ink, &sample))]
                    call_requires(measure, (&ink, &sample)),
                forall|ink: InkDocument<T, S>, sample: S, answer: (Reading<T, S>, Vec<bool>)|
                    #![trigger call_ensures(measure, (&ink, &sample), answer)]
                    call_ensures(measure, (&ink, &sample), answer) ==> answer.1@.len()
                        >= ink@.stroke_count(),
                are_measured(measure, page, samples@.take(index as int), fed, color),
                self@ == start.after_all(fed, color),
                self@.current() == page.after_all(fed, color),
                changed == page.heeds_any(fed, color),
            decreases samples@.len() - index,
        {
            let ink: &InkDocument<T, S> = self.ink.current();
            let ghost before = *ink;
            let (reading, hits) = measure(ink, &samples[index]);
            proof {
                counting_goes_on(before@, reading, color, hits@, (samples@.len() - index) as nat);
            }
            let heeded: bool = self.consume(&reading, color, &hits);
            changed = changed || heeded;
            proof {
                let sample = samples@[index as int];
                assert(call_ensures(measure, (&before, &sample), (reading, hits)));
                assert(is_measured(measure, before@, sample, (reading, hits@)));
                one_more_is_measured(
                    measure,
                    page,
                    samples@.take(index as int),
                    fed,
                    color,
                    sample,
                    (reading, hits@),
                );
                assert(samples@.take(index as int).push(sample) =~= samples@.take(index + 1));
                assert(fed.push((reading, hits@)).drop_last() =~= fed);
                fed = fed.push((reading, hits@));
            }
            index = index + 1;
        }
        assert(samples@.take(index as int) =~= samples@);
        assert(old(self)@.after_all(fed, color) == self@);
        changed
    }

    /// Selects the tool an ordinary nib uses.
    pub fn set_mode(&mut self, mode: Tool)
        requires
            old(self).wf(),
        ensures
            final(self).wf(),
            final(self)@.wf(),
            final(self)@ == old(self)@.with_current(PageInk { mode, ..old(self)@.current() }),
    {
        self.ink.current_mut().set_mode(mode);
        assert(self@ =~= old(self)@.with_current(PageInk { mode, ..old(self)@.current() }));
    }

    /// Takes back the last stroke, and says what has to be done about it: an undo is a deliberate
    /// act, so the note is told at once rather than on the batch clock.
    ///
    /// Answers nothing when there was no stroke to take back.
    pub fn undo(&mut self, now: u64) -> (batch: Option<Batch>)
        requires
            old(self).wf(),
        ensures
            final(self).wf(),
            final(self)@.wf(),
            old(self)@.current().finished.len() == 0 ==> batch is None && final(self)@
                == old(self)@,
            old(self)@.current().finished.len() > 0 ==> {
                let undone = old(self)@.with_current(old(self)@.current().after_undo());
                &&& batch == Some(undone.batch(now, true))
                &&& final(self)@ == undone.after_persist(now, true)
            },
    {
        let ghost before = self@;
        if self.ink.current_mut().undo() {
            assert(self@ =~= before.with_current(before.current().after_undo()));
            Some(self.persist(now, true))
        } else {
            assert(self@ =~= before);
            None
        }
    }

    /// Puts back the stroke the last undo took away, and says what has to be done about it.
    ///
    /// Answers nothing when there was no stroke to put back.
    pub fn redo(&mut self, now: u64) -> (batch: Option<Batch>)
        requires
            old(self).wf(),
        ensures
            final(self).wf(),
            final(self)@.wf(),
            old(self)@.current().undone.len() == 0 ==> batch is None && final(self)@
                == old(self)@,
            old(self)@.current().undone.len() > 0 ==> {
                let redone = old(self)@.with_current(old(self)@.current().after_redo());
                &&& batch == Some(redone.batch(now, true))
                &&& final(self)@ == redone.after_persist(now, true)
            },
    {
        let ghost before = self@;
        if self.ink.current_mut().redo() {
            assert(self@ =~= before.with_current(before.current().after_redo()));
            Some(self.persist(now, true))
        } else {
            assert(self@ =~= before);
            None
        }
    }

    /// Removes every stroke of the page, and says what has to be done about it.
    ///
    /// Answers nothing when there was no stroke to remove.
    pub fn clear(&mut self, now: u64) -> (batch: Option<Batch>)
        requires
            old(self).wf(),
        ensures
            final(self).wf(),
            final(self)@.wf(),
            old(self)@.current().is_blank() ==> batch is None && final(self)@ == old(self)@,
            !old(self)@.current().is_blank() ==> {
                let cleared = old(self)@.with_current(old(self)@.current().after_clear());
                &&& batch == Some(cleared.batch(now, true))
                &&& final(self)@ == cleared.after_persist(now, true)
            },
    {
        if self.ink.current().is_blank() {
            return None;
        }
        self.ink.current_mut().clear();
        Some(self.persist(now, true))
    }

    /// Says that a note was made for the ink: from now on it is handed over.
    pub fn note_made(&mut self, now: u64)
        requires
            old(self).wf(),
        ensures
            final(self).wf(),
            final(self)@.wf(),
            final(self)@ == (Desk {
                writing: true,
                saved_at: now,
                ledger: old(self)@.ledger.insert(
                    old(self)@.ink.page,
                    Ledger { loaded: true, ..old(self)@.here() },
                ),
                ..old(self)@
            }),
    {
        let page: usize = self.ink.page();
        let known: Ledger = self.known(page);
        self.ledger.insert(page, Ledger { loaded: true, ..known });
        self.writing = true;
        self.saved_at = now;
        assert(self@.ledger =~= old(self)@.ledger.insert(
            old(self)@.ink.page,
            Ledger { loaded: true, ..old(self)@.here() },
        ));
    }

    /// What is known of a page.
    fn known(&self, page: usize) -> (known: Ledger)
        ensures
            known == self@.known(page as int),
    {
        match self.ledger.get(&page) {
            Some(known) => *known,
            None => Ledger { saved: 0, rewritten: false, loaded: false },
        }
    }

    /// Says what has to be done with the ink the pen laid, on the batch clock.
    ///
    /// A batch, not a write per stroke: the ink goes out when [`BATCH_STROKES`] strokes are waiting
    /// or the batch clock has run out, whichever comes first. A page whose ink went down is written
    /// again, not appended to. `flush` is for the moments the ink has to be in the note now.
    pub fn persist(&mut self, now: u64, flush: bool) -> (batch: Batch)
        requires
            old(self).wf(),
        ensures
            final(self).wf(),
            final(self)@.wf(),
            batch == old(self)@.batch(now, flush),
            final(self)@ == old(self)@.after_persist(now, flush),
    {
        if !self.writing {
            return if self.ink.current().is_blank() {
                Batch::Nothing
            } else {
                Batch::MakeNote
            };
        }
        let page: usize = self.ink.page();
        let count: usize = self.ink.current().finished().len();
        assert(count == self@.current().finished.len());
        let known: Ledger = self.known(page);
        let sent: usize = known.saved;
        let rewrite: bool = known.rewritten || count < sent;
        let waiting: usize = if count > sent {
            count - sent
        } else {
            0
        };
        let stale: bool = passed(self.saved_at, now, BATCH_NANOS);
        let due: bool = waiting >= BATCH_STROKES || ((waiting > 0 || rewrite) && (flush || stale));
        if !due {
            self.ledger.insert(page, Ledger { rewritten: rewrite, ..known });
            assert(self@.ledger =~= old(self)@.after_persist(now, flush).ledger);
            return Batch::Nothing;
        }
        self.ledger.insert(page, Ledger { saved: count, rewritten: false, ..known });
        self.saved_at = now;
        assert(self@.ledger =~= old(self)@.after_persist(now, flush).ledger);
        if rewrite {
            Batch::Rewrite { page }
        } else {
            Batch::Append { page, from: sent }
        }
    }

    /// The job that does a batch of the page in front of the reader, with copies of the ink it is
    /// about.
    pub fn job(&self, batch: Batch) -> (job: Option<Job<T>>)
        requires
            self.wf(),
            batch matches Batch::Append { page, from } ==> page == self@.ink.page && from
                <= self@.current().finished.len(),
            batch matches Batch::Rewrite { page } ==> page == self@.ink.page,
        ensures
            match batch {
                Batch::Nothing | Batch::MakeNote => job is None,
                Batch::Append { page, from } => job matches Some(Job::Append { page: on, strokes })
                    && on == page && lines_of(strokes@) == self@.current().finished.skip(
                    from as int,
                ),
                Batch::Rewrite { page } => job matches Some(Job::Rewrite { page: on, strokes })
                    && on == page && lines_of(strokes@) == self@.current().finished,
            },
    {
        let finished = self.ink.current().finished();
        assert(finished@.len() == shared_lines(finished@).len());
        match batch {
            Batch::Nothing | Batch::MakeNote => None,
            Batch::Append { page, from } => {
                Some(Job::Append { page, strokes: copied_from(finished, from) })
            },
            Batch::Rewrite { page } => {
                assert(shared_lines(finished@).skip(0) =~= shared_lines(finished@));
                Some(Job::Rewrite { page, strokes: copied_from(finished, 0) })
            },
        }
    }

    /// Says what has to be done with the page in front of the reader, which is being closed: what it
    /// still owes the note, and whether its ink is then folded into chunks.
    pub fn close_page(&mut self, now: u64) -> (closing: Closing)
        requires
            old(self).wf(),
        ensures
            final(self).wf(),
            final(self)@.wf(),
            closing.batch == old(self)@.batch(now, true),
            closing.compact == old(self)@.compacts(now),
            final(self)@ == old(self)@.after_close(now),
    {
        let batch: Batch = self.persist(now, true);
        let page: usize = self.ink.page();
        let known: Ledger = self.known(page);
        let ghost done = self@;
        self.ledger.insert(page, Ledger { rewritten: false, ..known });
        assert(self@.ledger =~= done.ledger.insert(
            done.ink.page,
            Ledger { rewritten: false, ..done.here() },
        ));
        Closing { batch, compact: self.writing && (known.rewritten || known.saved > 0) }
    }

    /// Turns to a page. The page being left has been closed.
    pub fn turn_to(&mut self, page: usize)
        requires
            old(self).wf(),
            page < old(self)@.pages.len(),
        ensures
            final(self).wf(),
            final(self)@.wf(),
            final(self)@ == old(self)@.after_turn(page as int),
    {
        self.ink.go_to(page);
        proof {
            turning_keeps_order(old(self)@, page as int);
        }
    }

    /// Whether the page in front of the reader has to be read out of the note.
    pub fn needs_load(&self) -> (load: bool)
        requires
            self.wf(),
        ensures
            load == !self@.here().loaded,
    {
        !self.known(self.ink.page()).loaded
    }

    /// The page before the one in front of the reader, if there is one.
    pub fn previous_page(&self) -> (page: Option<usize>)
        requires
            self.wf(),
        ensures
            page == (if self@.ink.page > 0 {
                Some((self@.ink.page - 1) as usize)
            } else {
                None
            }),
    {
        let page: usize = self.ink.page();
        if page > 0 {
            Some(page - 1)
        } else {
            None
        }
    }

    /// The page after the one in front of the reader, if there is one.
    pub fn next_page(&self) -> (page: Option<usize>)
        requires
            self.wf(),
        ensures
            page == (if self@.ink.page + 1 < self@.pages.len() {
                Some((self@.ink.page + 1) as usize)
            } else {
                None
            }),
    {
        let page: usize = self.ink.page();
        if page < self.pages.len() - 1 {
            Some(page + 1)
        } else {
            None
        }
    }

    /// Takes in a page that was read out of the note, and how many strokes the note holds of it.
    pub fn page_loaded(&mut self, page: usize, strokes: Vec<Stroke<T>>, written: usize)
        requires
            old(self).wf(),
            page < old(self)@.pages.len(),
        ensures
            final(self).wf(),
            final(self)@.wf(),
            final(self)@ == old(self)@.after_load(page as int, lines_of(strokes@), written),
    {
        let known: Ledger = self.known(page);
        self.ink.put_page(page, InkDocument::from_strokes(strokes));
        self.ledger.insert(page, Ledger { saved: written, loaded: true, ..known });
        assert(self@.ledger =~= old(self)@.ledger.insert(
            page as int,
            Ledger { saved: written, loaded: true, ..old(self)@.known(page as int) },
        ));
    }

    /// Adds a blank page before or after the one in front of the reader, and turns to it.
    ///
    /// The page in front of the reader has been closed. What has been handed to the note is renamed
    /// with its pages, so the next append is still measured against the right page.
    pub fn add_page(&mut self, before: bool) -> (at: usize)
        requires
            old(self).wf(),
            old(self)@.pages.len() < usize::MAX,
        ensures
            final(self).wf(),
            final(self)@.wf(),
            at == insert_place(old(self)@.pages.len(), old(self)@.ink.page as nat, before),
            final(self)@ == old(self)@.after_add(at as int),
    {
        let page: usize = self.ink.page();
        let at: usize = self.pages.insert(page, before);
        self.ink.insert_at(at);
        let mut ledger: BTreeMap<usize, Ledger> = BTreeMap::new();
        std::mem::swap(&mut ledger, &mut self.ledger);
        let ghost all = ledger@;
        proof {
            assert forall|k: usize| #[trigger] all.contains_key(k) implies k < usize::MAX by {
                assert(old(self)@.ledger.contains_key(k as int));
            }
        }
        self.ledger = spread(ledger, at);
        self.ink.go_to(at);
        assert(self@.ledger =~= moved_apart(old(self)@.ledger, at as int));
        proof {
            adding_keeps_order(old(self)@, at as int);
        }
        at
    }

    /// Deletes the page in front of the reader and the ink written on it, and turns to the page that
    /// followed it. The only page there is is kept.
    ///
    /// The page has been closed. Returns the page turned to, or nothing when the page was kept.
    pub fn delete_page(&mut self) -> (show: Option<usize>)
        requires
            old(self).wf(),
        ensures
            final(self).wf(),
            final(self)@.wf(),
            show is None <==> old(self)@.pages.len() <= 1,
            show is None ==> final(self)@ == old(self)@,
            show matches Some(page) ==> page == old(self)@.shown_after_delete() && final(self)@
                == old(self)@.after_delete(),
    {
        let page: usize = self.ink.page();
        let total: usize = self.pages.len();
        assert(page < total);
        match self.pages.remove(page) {
            None => None,
            Some(show) => {
                let mut ledger: BTreeMap<usize, Ledger> = BTreeMap::new();
                std::mem::swap(&mut ledger, &mut self.ledger);
                ledger.remove(&page);
                self.ledger = close_up(ledger, page);
                self.ink.remove_at(page);
                self.ink.go_to(show);
                assert(self@.ledger =~= old(self)@.after_delete().ledger);
                proof {
                    deleting_keeps_order(old(self)@);
                }
                Some(show)
            },
        }
    }
}

/// A page's ink is never only in memory for long, and never in the note twice: once a batch is done
/// the note still holds what the ledger says, and a batch that must not wait leaves the note holding
/// exactly the ink of the page.
pub proof fn handing_over_keeps_the_ink<T, S>(
    desk: Desk<T, S>,
    stored: Seq<Line<T>>,
    now: u64,
    flush: bool,
)
    requires
        desk.wf(),
        desk.writing,
        desk.current().finished.len() <= usize::MAX,
        desk.keeps(stored) || desk.is_rewritten(),
    ensures
        ({
            let done = desk.after_persist(now, flush);
            let held = desk.stored_after(stored, desk.batch(now, flush));
            &&& done.keeps(held)
            &&& done.current() == desk.current()
            &&& flush || desk.is_due(now, flush) ==> {
                &&& held == desk.current().finished
                &&& done.here().saved == desk.current().finished.len()
                &&& !done.here().rewritten
            }
        }),
{
    let finished = desk.current().finished;
    let saved = desk.here().saved as int;
    if !desk.is_rewritten() {
        assert(finished.take(saved) + finished.skip(saved) =~= finished);
        assert(desk.waiting() == 0 ==> finished.take(saved) =~= finished);
    }
    assert(finished.take(finished.len() as int) =~= finished);
}

/// Closing a page leaves the note holding exactly its ink: nothing is lost by leaving a page.
pub proof fn closing_loses_nothing<T, S>(desk: Desk<T, S>, stored: Seq<Line<T>>, now: u64)
    requires
        desk.wf(),
        desk.writing,
        desk.current().finished.len() <= usize::MAX,
        desk.keeps(stored),
    ensures
        desk.stored_after(stored, desk.batch(now, true)) == desk.current().finished,
        desk.after_close(now).here().saved == desk.current().finished.len(),
        desk.after_close(now).keeps(desk.current().finished),
{
    handing_over_keeps_the_ink(desk, stored, now, true);
}

/// Taking strokes back, putting them back and clearing the page reach the note at once.
pub proof fn history_reaches_the_note<T, S>(desk: Desk<T, S>, stored: Seq<Line<T>>, now: u64)
    requires
        desk.wf(),
        desk.writing,
        desk.current().finished.len() < usize::MAX,
        desk.keeps(stored),
    ensures
        ({
            let undone = desk.with_current(desk.current().after_undo());
            undone.stored_after(stored, undone.batch(now, true)) == undone.current().finished
        }),
        ({
            let redone = desk.with_current(desk.current().after_redo());
            redone.stored_after(stored, redone.batch(now, true)) == redone.current().finished
        }),
        ({
            let cleared = desk.with_current(desk.current().after_clear());
            cleared.stored_after(stored, cleared.batch(now, true)) == cleared.current().finished
        }),
{
    let saved = desk.here().saved as int;
    let undone = desk.with_current(desk.current().after_undo());
    assert(undone.keeps(stored) || undone.is_rewritten()) by {
        if !undone.is_rewritten() {
            assert(undone.current().finished.take(saved) =~= desk.current().finished.take(saved));
        }
    }
    handing_over_keeps_the_ink(undone, stored, now, true);
    let redone = desk.with_current(desk.current().after_redo());
    assert(redone.keeps(stored)) by {
        if !desk.here().rewritten {
            assert(redone.current().finished.take(saved) =~= desk.current().finished.take(saved));
        }
    }
    handing_over_keeps_the_ink(redone, stored, now, true);
    let cleared = desk.with_current(desk.current().after_clear());
    assert(cleared.keeps(stored) || cleared.is_rewritten()) by {
        if !cleared.is_rewritten() {
            assert(cleared.current().finished.take(saved) =~= desk.current().finished.take(saved));
        }
    }
    handing_over_keeps_the_ink(cleared, stored, now, true);
}

/// The ledger stays right whatever the pen does: drawing only adds to what the note has been handed,
/// and erasing any of it is noticed.
pub proof fn writing_keeps_the_ledger_right<T, S>(
    desk: Desk<T, S>,
    stored: Seq<Line<T>>,
    reading: Reading<T, S>,
    color: u32,
    hits: Seq<bool>,
)
    requires
        desk.wf(),
        desk.keeps(stored),
        desk.current().can_count(),
        hits.len() >= desk.current().stroke_count(),
    ensures
        desk.after_reading(reading, color, hits).keeps(stored),
{
    let before = desk.current();
    let after = before.after_reading(reading, color, hits);
    let saved = desk.here().saved as int;
    if !desk.here().rewritten {
        let lifted = before.after_lift();
        if reading.phase == PenPhase::Down {
            spared_begins_alike(lifted.finished, hits, saved);
            spared_counts(lifted.finished, hits);
            assert(lifted.finished.take(saved) =~= before.finished.take(saved));
        } else {
            spared_begins_alike(before.finished, hits, saved);
            spared_counts(before.finished, hits);
        }
        if after.stats.erased_strokes == before.stats.erased_strokes || !touches(hits, saved) {
            assert(after.finished.take(saved) =~= before.finished.take(saved));
        }
    }
}

/// Where the nib touches none of the first `n` lines, what is spared begins with them.
proof fn spared_begins_alike<T>(lines: Seq<Line<T>>, hits: Seq<bool>, n: int)
    requires
        0 <= n <= lines.len() <= hits.len(),
    ensures
        !touches(hits, n) ==> spared(lines, hits).len() >= n && spared(lines, hits).take(n)
            == lines.take(n),
    decreases lines.len(),
{
    spared_counts(lines.take(n), hits);
    if n < lines.len() {
        let shorter = lines.drop_last();
        spared_begins_alike(shorter, hits, n);
        assert(shorter.take(n) =~= lines.take(n));
        if !touches(hits, n) {
            assert(spared(lines, hits).take(n) =~= spared(shorter, hits).take(n));
        }
    } else {
        assert(lines.take(n) =~= lines);
        if !touches(hits, n) {
            assert(spared(lines, hits).take(n) =~= lines.take(n));
        }
    }
}

/// Reading a page out of the note leaves the ledger right.
pub proof fn loading_keeps_the_ledger_right<T, S>(desk: Desk<T, S>, lines: Seq<Line<T>>)
    requires
        desk.wf(),
        lines.len() <= usize::MAX,
    ensures
        desk.after_load(desk.ink.page, lines, lines.len() as usize).keeps(lines),
{
    assert(lines.take(lines.len() as int) =~= lines);
}

/// What has been handed to the note of a page is renamed with the page when one is added, and
/// nothing is known of the page that was added.
pub proof fn adding_moves_the_ledger<T, S>(desk: Desk<T, S>, at: int, page: int)
    requires
        desk.wf(),
        0 <= at <= desk.pages.len(),
        0 <= page < desk.pages.len(),
    ensures
        desk.after_add(at).known(if page < at {
            page
        } else {
            page + 1
        }) == desk.known(page),
        desk.after_add(at).known(at) == no_ledger(),
        desk.after_add(at).ink.page == at,
{
}

/// What has been handed to the note of every other page is renamed with it when a page is deleted.
pub proof fn deleting_moves_the_ledger<T, S>(desk: Desk<T, S>, page: int)
    requires
        desk.wf(),
        desk.pages.len() > 1,
        0 <= page < desk.pages.len(),
        page != desk.ink.page,
    ensures
        desk.after_delete().known(if page < desk.ink.page {
            page
        } else {
            page - 1
        }) == desk.known(page),
{
}

/// Deleting the page that was just added puts the pages and what is known of them back.
pub proof fn deleting_undoes_adding<T, S>(desk: Desk<T, S>, at: int)
    requires
        desk.wf(),
        0 <= at <= desk.pages.len(),
    ensures
        desk.after_add(at).after_delete().pages == desk.pages,
        desk.after_add(at).after_delete().ledger == desk.ledger,
{
    assert(desk.after_add(at).after_delete().pages =~= desk.pages);
    assert(desk.after_add(at).after_delete().ledger =~= desk.ledger);
}

/// Turning to a page leaves a note in order.
pub proof fn turning_keeps_order<T, S>(desk: Desk<T, S>, page: int)
    requires
        desk.wf(),
        0 <= page < desk.pages.len(),
    ensures
        desk.after_turn(page).wf(),
{
}

/// Adding a page leaves a note in order.
pub proof fn adding_keeps_order<T, S>(desk: Desk<T, S>, at: int)
    requires
        desk.wf(),
        0 <= at <= desk.pages.len(),
    ensures
        desk.after_add(at).wf(),
{
}

/// Deleting a page leaves a note in order.
pub proof fn deleting_keeps_order<T, S>(desk: Desk<T, S>)
    requires
        desk.wf(),
        desk.pages.len() > 1,
    ensures
        desk.after_delete().wf(),
{
}

/// Ink with nowhere to go asks for a note to be made, and a blank page asks for nothing.
pub proof fn ink_without_a_note_asks_for_one<T, S>(desk: Desk<T, S>, now: u64, flush: bool)
    requires
        !desk.writing,
    ensures
        desk.current().finished.len() > 0 || desk.current().open is Some ==> desk.batch(now, flush)
            == Batch::MakeNote,
        desk.current().finished.len() == 0 && desk.current().open is None ==> desk.batch(now, flush)
            == Batch::Nothing,
        desk.after_persist(now, flush) == desk,
{
}

/// The strokes the note has not been handed are appended to it, from the first of them on: at once where
/// they must not wait or two hundred of them have come together, and else after half a second.
pub proof fn new_strokes_are_appended<T, S>(desk: Desk<T, S>, now: u64, flush: bool)
    requires
        desk.wf(),
        desk.writing,
        desk.ledger.contains_key(desk.ink.page),
        !desk.ledger[desk.ink.page].rewritten,
        desk.ledger[desk.ink.page].saved < desk.current().finished.len() <= usize::MAX,
    ensures
        ({
            let saved = desk.ledger[desk.ink.page].saved;
            let waiting = desk.current().finished.len() - saved;
            let due = flush || waiting >= 200 || now >= desk.saved_at + 500_000_000;
            let after = desk.after_persist(now, flush);
            &&& due ==> desk.batch(now, flush) == Batch::Append {
                page: desk.ink.page as usize,
                from: saved,
            }
            &&& due ==> after.ledger[desk.ink.page].saved == desk.current().finished.len()
                && !after.ledger[desk.ink.page].rewritten && after.saved_at == now
            &&& !due ==> desk.batch(now, flush) == Batch::Nothing
            &&& !due ==> after.ledger[desk.ink.page].saved == saved
                && !after.ledger[desk.ink.page].rewritten && after.saved_at == desk.saved_at
        }),
{
}

/// A page that lost ink the note has been handed is written again: at once where it must not wait, and else
/// after half a second; and it is remembered until then.
pub proof fn a_page_that_lost_ink_is_written_again<T, S>(desk: Desk<T, S>, now: u64, flush: bool)
    requires
        desk.wf(),
        desk.writing,
        desk.ledger.contains_key(desk.ink.page),
        desk.ledger[desk.ink.page].rewritten || desk.current().finished.len()
            < desk.ledger[desk.ink.page].saved,
        desk.current().finished.len() <= usize::MAX,
    ensures
        ({
            let after = desk.after_persist(now, flush);
            &&& flush || now >= desk.saved_at + 500_000_000 ==> desk.batch(now, flush)
                == Batch::Rewrite { page: desk.ink.page as usize }
            &&& desk.batch(now, flush) is Rewrite ==> after.ledger[desk.ink.page].saved
                == desk.current().finished.len() && !after.ledger[desk.ink.page].rewritten
                && after.saved_at == now
            &&& !(desk.batch(now, flush) is Rewrite) ==> desk.batch(now, flush) == Batch::Nothing
                && after.ledger[desk.ink.page].rewritten && after.saved_at == desk.saved_at
            &&& !flush && now < desk.saved_at + 500_000_000 && desk.current().finished.len()
                <= desk.ledger[desk.ink.page].saved ==> desk.batch(now, flush) == Batch::Nothing
        }),
{
}

/// A page the note has all the ink of asks for nothing.
pub proof fn a_page_in_the_note_asks_for_nothing<T, S>(desk: Desk<T, S>, now: u64, flush: bool)
    requires
        desk.wf(),
        desk.writing,
        desk.ledger.contains_key(desk.ink.page),
        !desk.ledger[desk.ink.page].rewritten,
        desk.ledger[desk.ink.page].saved == desk.current().finished.len(),
    ensures
        desk.batch(now, flush) == Batch::Nothing,
        desk.after_persist(now, flush).saved_at == desk.saved_at,
        desk.after_persist(now, flush).ledger[desk.ink.page] == desk.ledger[desk.ink.page],
{
}

/// Handing ink over touches nothing of the ink, the pages, or what is known of another page.
pub proof fn handing_over_touches_one_page<T, S>(desk: Desk<T, S>, now: u64, flush: bool, page: int)
    ensures
        desk.after_persist(now, flush).pages == desk.pages,
        desk.after_persist(now, flush).ink == desk.ink,
        desk.after_persist(now, flush).writing == desk.writing,
        page != desk.ink.page ==> desk.after_persist(now, flush).known(page) == desk.known(page),
        desk.after_persist(now, flush).here().loaded == desk.here().loaded,
        desk.after_close(now).pages == desk.pages,
        desk.after_close(now).ink == desk.ink,
        page != desk.ink.page ==> desk.after_close(now).known(page) == desk.known(page),
        desk.after_close(now).here().loaded == desk.here().loaded,
{
}

/// A page that is closed has all its ink in the note, and what the note holds of it is folded together
/// exactly where that is anything.
pub proof fn a_closed_page_is_folded<T, S>(desk: Desk<T, S>, now: u64)
    requires
        desk.wf(),
        desk.ledger.contains_key(desk.ink.page),
        desk.current().finished.len() <= usize::MAX,
    ensures
        desk.writing ==> (desk.compacts(now) <==> desk.current().finished.len() > 0),
        !desk.writing ==> !desk.compacts(now),
        desk.writing ==> desk.after_close(now).here().saved == desk.current().finished.len(),
        !desk.after_close(now).here().rewritten,
{
}

/// What the pen does is done to the page in front of the reader, and to no other: the pages, what is known of
/// the others, and the clock stay as they are.
pub proof fn the_pen_writes_on_the_page_in_front<T, S>(
    desk: Desk<T, S>,
    reading: Reading<T, S>,
    color: u32,
    hits: Seq<bool>,
    page: int,
)
    requires
        desk.wf(),
    ensures
        ({
            let after = desk.after_reading(reading, color, hits);
            &&& after.ink.page == desk.ink.page
            &&& after.current() == desk.current().after_reading(reading, color, hits)
            &&& page != desk.ink.page ==> after.ink.ink_on(page) == desk.ink.ink_on(page)
            &&& after.pages == desk.pages
            &&& after.saved_at == desk.saved_at
            &&& after.writing == desk.writing
            &&& page != desk.ink.page ==> after.known(page) == desk.known(page)
            &&& after.here().saved == desk.here().saved
            &&& after.here().loaded == desk.here().loaded
        }),
{
}

/// Changing the page in front of the reader changes nothing else.
pub proof fn one_page_is_changed<T, S>(desk: Desk<T, S>, ink: PageInk<T, S>, page: int)
    ensures
        desk.with_current(ink).current() == ink,
        desk.with_current(ink).ink.page == desk.ink.page,
        page != desk.ink.page ==> desk.with_current(ink).ink.ink_on(page) == desk.ink.ink_on(page),
        desk.with_current(ink).pages == desk.pages,
        desk.with_current(ink).ledger == desk.ledger,
        desk.with_current(ink).saved_at == desk.saved_at,
        desk.with_current(ink).writing == desk.writing,
{
}

/// Turning to a page puts it in front of the reader, with the ink that is on it; the pages, what is known of
/// them, and the clock stay as they are.
pub proof fn turning_shows_the_page<T, S>(desk: Desk<T, S>, page: int)
    requires
        desk.wf(),
    ensures
        desk.after_turn(page).ink.page == page,
        desk.after_turn(page).current() == desk.ink.ink_on(page),
        desk.after_turn(page).pages == desk.pages,
        desk.after_turn(page).ledger == desk.ledger,
        desk.after_turn(page).saved_at == desk.saved_at,
        desk.after_turn(page).writing == desk.writing,
{
}

/// A page that is read out of the note has the strokes the note holds, and is known to be read; every other
/// page keeps its ink and what is known of it, and the reader stays where they are.
pub proof fn a_loaded_page_has_its_strokes<T, S>(
    desk: Desk<T, S>,
    page: int,
    lines: Seq<Line<T>>,
    written: usize,
    other: int,
)
    requires
        desk.wf(),
        0 <= page,
    ensures
        ({
            let after = desk.after_load(page, lines, written);
            &&& after.ink.ink_on(page).finished == lines
            &&& after.ink.ink_on(page).open is None
            &&& after.ink.ink_on(page).undone.len() == 0
            &&& after.known(page).saved == written
            &&& after.known(page).loaded
            &&& after.known(page).rewritten == desk.known(page).rewritten
            &&& other != page ==> after.ink.ink_on(other) == desk.ink.ink_on(other)
            &&& other != page ==> after.known(other) == desk.known(other)
            &&& after.ink.page == desk.ink.page
            &&& after.pages == desk.pages
            &&& after.saved_at == desk.saved_at
            &&& after.writing == desk.writing
        }),
{
    assert(lines.len() == 0 ==> lines =~= seq![]);
}

/// A page that is added is blank and in front of the reader, and every other page shows what it showed and
/// has the ink it had, under its new number.
pub proof fn an_added_page_is_blank<T, S>(desk: Desk<T, S>, at: int, page: int)
    requires
        desk.wf(),
        0 <= at <= desk.pages.len(),
        0 <= page < desk.pages.len(),
    ensures
        ({
            let after = desk.after_add(at);
            let renamed = if page < at {
                page
            } else {
                page + 1
            };
            &&& after.pages.len() == desk.pages.len() + 1
            &&& after.pages[at] == Page::Blank
            &&& after.pages[renamed] == desk.pages[page]
            &&& after.ink.page == at
            &&& after.current().finished.len() == 0
            &&& after.current().open is None
            &&& after.ink.ink_on(renamed).finished == desk.ink.ink_on(page).finished
            &&& after.ink.ink_on(renamed).undone == desk.ink.ink_on(page).undone
            &&& after.ink.ink_on(renamed).open == desk.ink.ink_on(page).open
            &&& after.saved_at == desk.saved_at
            &&& after.writing == desk.writing
        }),
{
    crate::notes::inserting_keeps_order(desk.ink, at);
    crate::notes::turning_changes_no_ink(desk.ink.after_insert(at), at, at);
    let renamed = if page < at {
        page
    } else {
        page + 1
    };
    crate::notes::turning_changes_no_ink(desk.ink.after_insert(at), at, renamed);
}

/// The page in front of the reader is deleted with its ink; every other page shows what it showed and has the
/// ink it had, under its new number, and the page that followed is in front of the reader, or the last.
pub proof fn a_deleted_page_is_gone<T, S>(desk: Desk<T, S>, page: int)
    requires
        desk.wf(),
        desk.pages.len() > 1,
        0 <= page < desk.pages.len(),
        page != desk.ink.page,
    ensures
        ({
            let after = desk.after_delete();
            let renamed = if page < desk.ink.page {
                page
            } else {
                page - 1
            };
            &&& after.pages.len() == desk.pages.len() - 1
            &&& after.pages[renamed] == desk.pages[page]
            &&& after.ink.ink_on(renamed).finished == desk.ink.ink_on(page).finished
            &&& after.ink.ink_on(renamed).undone == desk.ink.ink_on(page).undone
            &&& after.ink.ink_on(renamed).open == desk.ink.ink_on(page).open
            &&& after.ink.page == desk.shown_after_delete()
            &&& desk.ink.page + 1 < desk.pages.len() ==> desk.shown_after_delete() == desk.ink.page
            &&& desk.ink.page + 1 == desk.pages.len() ==> desk.shown_after_delete() == desk.ink.page
                - 1
            &&& after.saved_at == desk.saved_at
            &&& after.writing == desk.writing
        }),
{
    crate::notes::removing_keeps_order(desk.ink, desk.ink.page);
    let renamed = if page < desk.ink.page {
        page
    } else {
        page - 1
    };
    crate::notes::turning_changes_no_ink(
        desk.ink.after_remove(desk.ink.page),
        desk.shown_after_delete(),
        renamed,
    );
}

/// A note is opened with its pages, the page it was left at in front of the reader and blank until it is
/// read, nothing known of any page, and a note to hand ink to.
pub proof fn an_opened_note_is_unread<T, S>(pages: Seq<Page>, page: int, saved_at: u64, other: int)
    ensures
        ({
            let desk = Desk::<T, S>::opened(pages, page, saved_at);
            &&& desk.pages == pages
            &&& desk.ink.page == page
            &&& desk.current().finished.len() == 0
            &&& desk.ink.ink_on(other).finished.len() == 0
            &&& !desk.ledger.contains_key(other)
            &&& !desk.known(other).loaded
            &&& desk.known(other).saved == 0
            &&& !desk.known(other).rewritten
            &&& desk.saved_at == saved_at
            &&& desk.writing
        }),
{
}

/// What is known of a page is what was noted of it; of a page nothing was done with, the note has been handed
/// nothing and has not been asked.
pub proof fn what_is_known_is_what_was_noted<T, S>(desk: Desk<T, S>, page: int)
    ensures
        desk.ledger.contains_key(page) ==> desk.known(page) == desk.ledger[page],
        !desk.ledger.contains_key(page) ==> desk.known(page).saved == 0 && !desk.known(
            page,
        ).rewritten && !desk.known(page).loaded,
        desk.here() == desk.known(desk.ink.page),
        desk.current() == desk.ink.pages[desk.ink.page],
{
}

/// Readings are taken one after the other: none of them leaves the note as it is, and one more is taken after
/// those before it.
pub proof fn readings_are_taken_in_order<T, S>(
    desk: Desk<T, S>,
    fed: Seq<(Reading<T, S>, Seq<bool>)>,
    reading: Reading<T, S>,
    hits: Seq<bool>,
    color: u32,
)
    ensures
        desk.after_all(seq![], color) == desk,
        desk.after_all(fed.push((reading, hits)), color) == desk.after_all(fed, color).after_reading(
            reading,
            color,
            hits,
        ),
{
    assert(fed.push((reading, hits)).drop_last() =~= fed);
}

} // verus!
