//! Which page is rendered, how wide, and when: never inside a frame, and never while the pen moves.

use crate::clock::{pdf_render_due, has_passed, PDF_QUIET_NANOS};
use crate::pdfium::Progress;
use vstd::prelude::*;

verus! {

/// The widths a page is rendered at, narrowest first.
pub const PDF_PIXEL_WIDTHS: [u32; 4] = [1024, 1536, 2304, 3456];

/// The width a page is rendered at when one is wanted: the smallest on the ladder that covers it, or
/// the largest.
pub open spec fn rung_for(wanted: Option<u32>) -> u32 {
    match wanted {
        None => 1024,
        Some(wanted) => if wanted <= 1024 {
            1024
        } else if wanted <= 1536 {
            1536
        } else if wanted <= 2304 {
            2304
        } else {
            3456
        },
    }
}

/// The rungs of the ladder, one by one.
proof fn the_rungs()
    ensures
        PDF_PIXEL_WIDTHS@[0] == 1024,
        PDF_PIXEL_WIDTHS@[1] == 1536,
        PDF_PIXEL_WIDTHS@[2] == 2304,
        PDF_PIXEL_WIDTHS@[3] == 3456,
{
}

/// The width a page is rendered at: the smallest on the ladder that is at least the width wanted, or
/// the largest one.
///
/// The width wanted is in whole pixels, and missing where it is no positive number.
pub fn quantise_width(wanted: Option<u32>) -> (width: u32)
    ensures
        width == rung_for(wanted),
{
    let asked: u32 = match wanted {
        Some(asked) => asked,
        None => return PDF_PIXEL_WIDTHS[0],
    };
    let mut i: usize = 0;
    while i < 4
        invariant
            i <= 4,
            wanted == Some(asked),
            forall|j: int| 0 <= j < i ==> PDF_PIXEL_WIDTHS@[j] < asked,
        decreases 4 - i,
    {
        if PDF_PIXEL_WIDTHS[i] >= asked {
            proof {
                the_rungs();
                assert(i == 0 || i == 1 || i == 2 || i == 3);
                assert(i > 0 ==> PDF_PIXEL_WIDTHS@[i - 1] < asked);
            }
            return PDF_PIXEL_WIDTHS[i];
        }
        i = i + 1;
    }
    proof {
        the_rungs();
        assert(PDF_PIXEL_WIDTHS@[3] < asked);
    }
    PDF_PIXEL_WIDTHS[3]
}

/// A page is rendered on the ladder: at least as wide as it is wanted, up to the widest rung, and no
/// narrower rung would do.
pub proof fn a_page_is_rendered_on_the_ladder(wanted: u32, rung: int)
    requires
        0 <= rung < 4,
    ensures
        PDF_PIXEL_WIDTHS@.contains(rung_for(Some(wanted))),
        rung_for(Some(wanted)) >= wanted || rung_for(Some(wanted)) == PDF_PIXEL_WIDTHS@[3],
        PDF_PIXEL_WIDTHS@[rung] >= wanted ==> rung_for(Some(wanted)) <= PDF_PIXEL_WIDTHS@[rung],
{
    the_rungs();
    assert(rung == 0 || rung == 1 || rung == 2 || rung == 3);
}

/// A page, the width to render it at, and whether in grey.
#[derive(Clone, Copy, Debug, PartialEq, Eq, Structural)]
pub struct PageRequest {
    /// The page of the document.
    pub page: usize,
    /// The width, in pixels.
    pub pixels: u32,
    /// Whether it is rendered in grey.
    pub grayscale: bool,
}

/// What a frame shows of the page in front of the reader.
#[derive(Clone, Copy, Debug, PartialEq, Eq, Structural)]
pub enum Frame {
    /// Nothing: the page is blank, or no document is open.
    Nothing,
    /// What the cache has.
    Cached,
    /// The cheapest rung, which has to be rendered now: the cache has nothing at all.
    Preview(PageRequest),
}

/// What a wake of the pump does for the page that is owed.
#[derive(Clone, Copy, Debug, PartialEq, Eq, Structural)]
pub enum Serve {
    /// Nothing.
    Nothing,
    /// The job in hand is dropped: nobody is waiting for it.
    Abandon,
    /// A job is begun, once the one in hand, if any, is dropped.
    Begin(PageRequest),
    /// The job in hand is carried on with.
    Advance,
}

/// What the view waits for and what is being rendered.
#[derive(Clone, Copy, Debug, PartialEq, Eq, Structural)]
pub struct Pump {
    /// What the view is waiting for.
    pub pending: Option<PageRequest>,
    /// What the job in hand renders.
    pub job: Option<PageRequest>,
    /// How many requests were dropped before they were begun.
    pub cancelled: u64,
}

impl Pump {
    /// Nothing is wanted and nothing is rendered.
    pub fn new() -> (pump: Self)
        ensures
            pump == (Pump { pending: None, job: None, cancelled: 0 }),
    {
        Pump { pending: None, job: None, cancelled: 0 }
    }

    /// The pump once what the view waits for is recorded.
    pub open spec fn after_plan(self, wanted: PageRequest, owed: Option<PageRequest>) -> Self {
        Pump {
            pending: owed,
            cancelled: if self.pending is Some && self.pending != Some(wanted) && self.cancelled
                < u64::MAX {
                (self.cancelled + 1) as u64
            } else {
                self.cancelled
            },
            ..self
        }
    }

    /// Records what the view is waiting for, and counts a request that was dropped for it.
    ///
    /// `owed` is what of the wish the cache does not have.
    pub fn plan(&mut self, wanted: PageRequest, owed: Option<PageRequest>)
        ensures
            *final(self) == old(self).after_plan(wanted, owed),
    {
        let dropped: bool = match self.pending {
            Some(pending) => pending != wanted,
            None => false,
        };
        if dropped && self.cancelled < u64::MAX {
            self.cancelled = self.cancelled + 1;
        }
        self.pending = owed;
    }

    /// The wish of a frame: the page at a rung, in grey or not.
    pub open spec fn wish(page: usize, pixels: u32, grayscale: bool) -> PageRequest {
        PageRequest { page, pixels, grayscale }
    }

    /// What a frame shows of the page in front of the reader, and what is planned for it.
    ///
    /// A frame never waits for a render: it shows what the cache has, whatever rung that is. Only
    /// when the cache has nothing at all is the cheapest rung rendered there and then. A blank page
    /// has no picture, whatever is open, and ends a render that is in hand. `cached` says whether the
    /// cache has any rung of the page, and `owed` what of the wish it does not have once the frame is
    /// drawn.
    pub fn frame(
        &mut self,
        document_page: Option<usize>,
        loaded: bool,
        pixels: u32,
        grayscale: bool,
        cached: bool,
        owed: Option<PageRequest>,
    ) -> (frame: Frame)
        ensures
            match document_page {
                None => frame == Frame::Nothing && *final(self) == (Pump {
                    pending: None,
                    job: None,
                    ..*old(self)
                }),
                Some(page) => if !loaded {
                    frame == Frame::Nothing && *final(self) == *old(self)
                } else {
                    &&& *final(self) == old(self).after_plan(
                        Self::wish(page, pixels, grayscale),
                        owed,
                    )
                    &&& frame == (if cached {
                        Frame::Cached
                    } else {
                        Frame::Preview(Self::wish(page, PDF_PIXEL_WIDTHS@[0], grayscale))
                    })
                },
            },
    {
        let page: usize = match document_page {
            Some(page) => page,
            None => {
                self.job = None;
                self.pending = None;
                return Frame::Nothing;
            },
        };
        if !loaded {
            return Frame::Nothing;
        }
        self.plan(PageRequest { page, pixels, grayscale }, owed);
        if cached {
            Frame::Cached
        } else {
            Frame::Preview(PageRequest { page, pixels: PDF_PIXEL_WIDTHS[0], grayscale })
        }
    }

    /// What a wake of the pump does.
    pub open spec fn serving(self, last_ink_at: u64, now: u64) -> Serve {
        match self.pending {
            None => if self.job is Some {
                Serve::Abandon
            } else {
                Serve::Nothing
            },
            Some(request) => if !has_passed(last_ink_at, now, PDF_QUIET_NANOS) {
                Serve::Nothing
            } else if self.job == Some(request) {
                Serve::Advance
            } else {
                Serve::Begin(request)
            },
        }
    }

    /// The pump after a wake: the job in hand is the one that was begun, or the one that was carried
    /// on with, or none.
    pub open spec fn after_serve(self, last_ink_at: u64, now: u64) -> Self {
        match self.serving(last_ink_at, now) {
            Serve::Nothing | Serve::Advance => self,
            Serve::Abandon => Pump { job: None, ..self },
            Serve::Begin(request) => Pump { job: Some(request), ..self },
        }
    }

    /// What a wake of the pump does.
    ///
    /// It waits for the pen to stop. A job for another page or another rung is work for a view that
    /// is gone, and starting one has a wake of its own.
    pub fn serve(&mut self, last_ink_at: u64, now: u64) -> (serve: Serve)
        ensures
            serve == old(self).serving(last_ink_at, now),
            *final(self) == old(self).after_serve(last_ink_at, now),
    {
        let request: PageRequest = match self.pending {
            Some(request) => request,
            None => {
                let busy: bool = self.job.is_some();
                self.job = None;
                return if busy {
                    Serve::Abandon
                } else {
                    Serve::Nothing
                };
            },
        };
        if !pdf_render_due(last_ink_at, now) {
            return Serve::Nothing;
        }
        let same: bool = match self.job {
            Some(job) => job == request,
            None => false,
        };
        if same {
            Serve::Advance
        } else {
            self.job = Some(request);
            Serve::Begin(request)
        }
    }

    /// Says that the job could not be begun: the request is dropped rather than tried on every wake.
    pub fn refused(&mut self)
        ensures
            *final(self) == (Pump { pending: None, job: None, ..*old(self) }),
    {
        self.pending = None;
        self.job = None;
    }

    /// Takes in what a slice of the job did, and says whether there is something new to show: a page,
    /// or why there is none.
    pub fn advanced(&mut self, progress: &Progress) -> (news: bool)
        ensures
            news == !(*progress is Unfinished),
            *final(self) == (if *progress is Unfinished {
                *old(self)
            } else {
                Pump { pending: None, job: None, ..*old(self) }
            }),
    {
        match progress {
            Progress::Unfinished => false,
            Progress::Finished | Progress::Failed(_) => {
                self.pending = None;
                self.job = None;
                true
            },
        }
    }
}

/// Only what the view is waiting for is ever rendered: once the pen is still, a wake of the pump
/// leaves no job in hand but one for the pending request.
pub proof fn only_what_is_wanted_is_rendered(pump: Pump, last_ink_at: u64, now: u64)
    requires
        has_passed(last_ink_at, now, PDF_QUIET_NANOS),
    ensures
        pump.after_serve(last_ink_at, now).job == pump.pending,
        pump.after_serve(last_ink_at, now).pending == pump.pending,
{
}

/// No rendering is done while the pen moves.
pub proof fn the_pen_comes_first(pump: Pump, last_ink_at: u64, now: u64)
    requires
        !has_passed(last_ink_at, now, PDF_QUIET_NANOS),
    ensures
        pump.serving(last_ink_at, now) == Serve::Nothing || pump.serving(last_ink_at, now)
            == Serve::Abandon,
{
}

/// The rungs go up by half each, from the cheapest, and a page nobody wants at a width is rendered at that
/// one.
pub proof fn the_ladder_goes_up_by_half(rung: int)
    ensures
        PDF_PIXEL_WIDTHS@[0] == 1024,
        0 <= rung < 3 ==> 2 * PDF_PIXEL_WIDTHS@[rung + 1] == 3 * PDF_PIXEL_WIDTHS@[rung],
        rung_for(None) == 1024,
{
    the_rungs();
    assert(rung == 0 || rung == 1 || rung == 2 || rung < 0 || rung > 2);
}

/// A frame leaves pending what it owes, keeps the job in hand, and counts a request that was waiting for
/// something else as dropped; nothing else is counted.
pub proof fn a_changed_wish_is_counted(pump: Pump, wanted: PageRequest, owed: Option<PageRequest>)
    requires
        pump.cancelled < u64::MAX,
    ensures
        pump.after_plan(wanted, owed).pending == owed,
        pump.after_plan(wanted, owed).job == pump.job,
        pump.pending matches Some(pending) ==> pending != wanted ==> pump.after_plan(
            wanted,
            owed,
        ).cancelled == pump.cancelled + 1,
        pump.pending matches Some(pending) ==> pending == wanted ==> pump.after_plan(
            wanted,
            owed,
        ).cancelled == pump.cancelled,
        pump.pending is None ==> pump.after_plan(wanted, owed).cancelled == pump.cancelled,
{
}

/// What a frame wishes for is the page it shows, at the width and in the colours it shows it.
pub proof fn a_wish_is_for_the_page_shown(page: usize, pixels: u32, grayscale: bool)
    ensures
        Pump::wish(page, pixels, grayscale).page == page,
        Pump::wish(page, pixels, grayscale).pixels == pixels,
        Pump::wish(page, pixels, grayscale).grayscale == grayscale,
{
}

/// A wake carries on with the job that is still wanted, begins the one that is wanted where another or none
/// is in hand, and drops one that nobody wants; while the pen moves it begins and carries on with nothing,
/// and keeps what is in hand as long as something is wanted.
pub proof fn a_wake_serves_the_view(pump: Pump, last_ink_at: u64, now: u64)
    ensures
        pump.pending is None && pump.job is None ==> pump.serving(last_ink_at, now)
            == Serve::Nothing,
        pump.pending is None && pump.job is Some ==> pump.serving(last_ink_at, now)
            == Serve::Abandon && pump.after_serve(last_ink_at, now).job is None,
        pump.pending matches Some(request) ==> now < last_ink_at + 120_000_000 ==> pump.serving(
            last_ink_at,
            now,
        ) == Serve::Nothing && pump.after_serve(last_ink_at, now) == pump,
        pump.pending matches Some(request) ==> now >= last_ink_at + 120_000_000 && pump.job == Some(
            request,
        ) ==> pump.serving(last_ink_at, now) == Serve::Advance && pump.after_serve(
            last_ink_at,
            now,
        ) == pump,
        pump.pending matches Some(request) ==> now >= last_ink_at + 120_000_000 && pump.job != Some(
            request,
        ) ==> pump.serving(last_ink_at, now) == Serve::Begin(request) && pump.after_serve(
            last_ink_at,
            now,
        ).job == Some(request),
        pump.after_serve(last_ink_at, now).pending == pump.pending,
        pump.after_serve(last_ink_at, now).cancelled == pump.cancelled,
{
}

} // verus!
