//! What a note's pages are.
//!
//! A document has its own pages, a note written on blank sheets has pages of its own, and a page can
//! be inserted or deleted, after which the *n*th page the reader sees is no longer the *n*th page of
//! anything. [`Pages`] is one entry per page, in reading order, saying what that page shows. The ink
//! is keyed by the position in this list — see [`crate::notes::Notes`] — so inserting a page renames
//! the pages after it, and that renaming is the whole of what an insert does.

use vstd::prelude::*;

verus! {

/// What one page shows.
#[derive(Clone, Copy, Debug, PartialEq, Eq, Structural)]
pub enum Page {
    /// A blank sheet.
    Blank,
    /// A page of the open document, by its index in that document.
    Document(usize),
}

/// The pages of a note, in reading order.
#[derive(Clone, Debug, PartialEq, Eq)]
pub struct Pages {
    pages: Vec<Page>,
}

impl View for Pages {
    type V = Seq<Page>;

    closed spec fn view(&self) -> Seq<Page> {
        self.pages@
    }
}

/// A document's own pages, in its own order; never none.
pub open spec fn document_pages(count: nat) -> Seq<Page> {
    Seq::new(
        if count == 0 {
            1
        } else {
            count
        },
        |i: int| Page::Document(i as usize),
    )
}

/// A saved list of pages, as a sequence.
pub open spec fn layout_view(layout: Option<Vec<Page>>) -> Option<Seq<Page>> {
    match layout {
        Some(layout) => Some(layout@),
        None => None,
    }
}

/// The pages a saved note holds before its ink is looked at: its own list, or what it must have been
/// written on, and never none.
pub open spec fn listed_pages(layout: Option<Seq<Page>>, document: nat) -> Seq<Page> {
    let listed = match layout {
        Some(layout) => layout,
        None => if document > 0 {
            document_pages(document)
        } else {
            seq![]
        },
    };
    if listed.len() == 0 {
        seq![Page::Blank]
    } else {
        listed
    }
}

/// A list of pages extended with blanks until it is long enough.
pub open spec fn extended(pages: Seq<Page>, len: nat) -> Seq<Page> {
    if pages.len() >= len {
        pages
    } else {
        pages + Seq::new((len - pages.len()) as nat, |i: int| Page::Blank)
    }
}

/// Where a page inserted beside `index` goes.
pub open spec fn insert_place(len: nat, index: nat, before: bool) -> nat {
    let asked = if before {
        index
    } else {
        index + 1
    };
    if asked < len {
        asked
    } else {
        len
    }
}

impl Default for Pages {
    /// A note with nothing open is one blank sheet: there is always a page in front of the reader.
    fn default() -> (pages: Self)
        ensures
            pages.wf(),
            pages@ == seq![Page::Blank],
    {
        let mut pages: Vec<Page> = Vec::new();
        pages.push(Page::Blank);
        assert(pages@ =~= seq![Page::Blank]);
        Pages { pages }
    }
}

impl Pages {
    /// There is always a page in front of the reader.
    pub open spec fn wf(&self) -> bool {
        self@.len() > 0
    }

    /// A document's own pages, in its own order: what opening a PDF gives a note.
    pub fn of_document(count: usize) -> (pages: Self)
        ensures
            pages.wf(),
            pages@ == document_pages(count as nat),
    {
        let wanted: usize = if count == 0 {
            1
        } else {
            count
        };
        let mut pages: Vec<Page> = Vec::new();
        let mut index: usize = 0;
        while index < wanted
            invariant
                index <= wanted,
                wanted == document_pages(count as nat).len(),
                pages@ == document_pages(count as nat).take(index as int),
            decreases wanted - index,
        {
            pages.push(Page::Document(index));
            index = index + 1;
            assert(pages@ =~= document_pages(count as nat).take(index as int));
        }
        assert(pages@ =~= document_pages(count as nat));
        Pages { pages }
    }

    /// The pages a saved note is opened with.
    ///
    /// `layout` is the note's own list, which notes written before the list existed do not have.
    /// Those notes' page indices were document page indices wherever there was a document; a note
    /// written on blank sheets gets blanks. Either way the list is then extended to cover every page
    /// that holds ink: a page with ink on it that the list does not have is ink with nowhere to be
    /// shown.
    pub fn restore(layout: Option<Vec<Page>>, document_pages: usize, ink_pages: usize) -> (pages:
        Self)
        ensures
            pages.wf(),
            pages@ == extended(
                listed_pages(layout_view(layout), document_pages as nat),
                ink_pages as nat,
            ),
    {
        let ghost listed = listed_pages(layout_view(layout), document_pages as nat);
        let mut pages: Vec<Page> = match layout {
            Some(layout) => layout,
            None => if document_pages > 0 {
                Pages::of_document(document_pages).pages
            } else {
                Vec::new()
            },
        };
        if pages.len() == 0 {
            pages.push(Page::Blank);
        }
        assert(pages@ =~= listed);
        while pages.len() < ink_pages
            invariant
                pages@.len() >= listed.len(),
                listed.len() > 0,
                pages@.len() <= listed.len() || pages@.len() <= ink_pages,
                pages@ == extended(listed, pages@.len()),
            decreases ink_pages - pages@.len(),
        {
            pages.push(Page::Blank);
            assert(pages@ =~= extended(listed, pages@.len()));
        }
        assert(pages@ =~= extended(listed, ink_pages as nat));
        Pages { pages }
    }

    /// Every page, in reading order: what a save writes out.
    pub fn layout(&self) -> (layout: &[Page])
        ensures
            layout@ == self@,
    {
        self.pages.as_slice()
    }

    /// How many pages there are.
    pub fn len(&self) -> (count: usize)
        ensures
            count == self@.len(),
    {
        self.pages.len()
    }

    /// The document page shown at `index`, when that page shows one.
    pub fn document_page(&self, index: usize) -> (page: Option<usize>)
        ensures
            match page {
                Some(page) => index < self@.len() && self@[index as int] == Page::Document(page),
                None => index >= self@.len() || self@[index as int] == Page::Blank,
            },
    {
        if index >= self.pages.len() {
            return None;
        }
        match self.pages[index] {
            Page::Document(page) => Some(page),
            Page::Blank => None,
        }
    }

    /// Inserts a blank page before or after `index`, and answers with the page to turn to.
    ///
    /// The new page is the one the reader is looking at afterwards, because a page that has just
    /// been made is the page that is about to be written on.
    pub fn insert(&mut self, index: usize, before: bool) -> (at: usize)
        requires
            before || index < usize::MAX,
        ensures
            at == insert_place(old(self)@.len(), index as nat, before),
            final(self)@ == old(self)@.insert(at as int, Page::Blank),
            final(self).wf(),
    {
        let asked: usize = if before {
            index
        } else {
            index + 1
        };
        let at: usize = if asked < self.pages.len() {
            asked
        } else {
            self.pages.len()
        };
        self.pages.insert(at, Page::Blank);
        at
    }

    /// Removes the page at `index`, unless it is the note's only page, and answers with the page to
    /// turn to.
    ///
    /// The last page is refused rather than replaced by a fresh blank one: a note that can be
    /// emptied of pages is a note with nothing to write on.
    pub fn remove(&mut self, index: usize) -> (turn_to: Option<usize>)
        ensures
            turn_to is None <==> old(self)@.len() <= 1 || index >= old(self)@.len(),
            turn_to is None ==> final(self)@ == old(self)@,
            turn_to matches Some(page) ==> final(self)@ == old(self)@.remove(index as int)
                && final(self).wf() && page == (if index < old(self)@.len() - 1 {
                index as int
            } else {
                old(self)@.len() - 2
            }),
    {
        if self.pages.len() <= 1 || index >= self.pages.len() {
            return None;
        }
        self.pages.remove(index);
        if index < self.pages.len() {
            Some(index)
        } else {
            Some(self.pages.len() - 1)
        }
    }

    /// A page index the note can actually be shown at.
    pub fn clamp(&self, index: usize) -> (page: usize)
        requires
            self.wf(),
        ensures
            page < self@.len(),
            page == (if index < self@.len() {
                index as int
            } else {
                self@.len() - 1
            }),
    {
        if index < self.pages.len() {
            index
        } else {
            self.pages.len() - 1
        }
    }
}

/// Removing the page that was just inserted gives back the list as it was.
pub proof fn removing_undoes_inserting(pages: Seq<Page>, index: nat, before: bool)
    requires
        pages.len() > 0,
    ensures
        pages.insert(insert_place(pages.len(), index, before) as int, Page::Blank).remove(
            insert_place(pages.len(), index, before) as int,
        ) == pages,
{
    let at = insert_place(pages.len(), index, before) as int;
    assert(pages.insert(at, Page::Blank).remove(at) =~= pages);
}

/// Inserting a page leaves every other page showing what it showed, in the order it was in.
pub proof fn inserting_moves_the_rest(pages: Seq<Page>, at: int, page: int)
    requires
        0 <= at <= pages.len(),
        0 <= page < pages.len(),
    ensures
        pages.insert(at, Page::Blank)[if page < at {
            page
        } else {
            page + 1
        }] == pages[page],
        pages.insert(at, Page::Blank)[at] == Page::Blank,
{
}

/// Deleting a page leaves the document's own pages alone: every other page still shows what it
/// showed.
pub proof fn deleting_moves_the_rest(pages: Seq<Page>, at: int, page: int)
    requires
        0 <= at < pages.len(),
        0 <= page < pages.len(),
        page != at,
    ensures
        pages.remove(at)[if page < at {
            page
        } else {
            page - 1
        }] == pages[page],
{
}

/// Every page that holds ink is a page the restored note has.
pub proof fn restoring_covers_the_ink(layout: Option<Seq<Page>>, document: nat, ink: nat)
    ensures
        extended(listed_pages(layout, document), ink).len() >= ink,
        extended(listed_pages(layout, document), ink).len() > 0,
        extended(listed_pages(layout, document), ink).take(
            listed_pages(layout, document).len() as int,
        ) == listed_pages(layout, document),
{
    let listed = listed_pages(layout, document);
    assert(extended(listed, ink).take(listed.len() as int) =~= listed);
}

/// A document's pages are shown in its own order, as many as it has; one that says it has none is shown as
/// one page.
pub proof fn a_document_is_shown_in_its_order(count: nat, page: int)
    requires
        count <= usize::MAX,
    ensures
        count > 0 ==> document_pages(count).len() == count,
        count == 0 ==> document_pages(count).len() == 1,
        0 <= page < document_pages(count).len() ==> document_pages(count)[page] == Page::Document(
            page as usize,
        ),
{
}

/// A saved note is opened with the pages it saved, each as it was; without a list, on the pages of its
/// document, each in its place; and without either, on a blank sheet. Whatever the ink needs beyond that is
/// blank sheets, and there are no more of them than it needs.
pub proof fn a_restored_note_shows_what_it_showed(
    layout: Option<Seq<Page>>,
    document: nat,
    ink: nat,
    page: int,
)
    requires
        document <= usize::MAX,
        0 <= page < extended(listed_pages(layout, document), ink).len(),
    ensures
        ({
            let pages = extended(listed_pages(layout, document), ink);
            let listed = match layout {
                Some(layout) => layout.len(),
                None => document,
            };
            &&& pages.len() == (if listed >= ink && listed > 0 {
                listed
            } else if ink > 0 {
                ink
            } else {
                1
            })
            &&& page >= listed ==> pages[page] == Page::Blank
            &&& layout matches Some(layout) ==> page < layout.len() ==> pages[page] == layout[page]
            &&& layout is None && page < document ==> pages[page] == Page::Document(page as usize)
        }),
{
}

/// A page made beside one the note has stands right before it or right after it, and one made beside a page
/// past the end stands at the end.
pub proof fn a_page_is_made_beside_its_neighbour(len: nat, index: nat)
    ensures
        index < len ==> insert_place(len, index, true) == index,
        index < len ==> insert_place(len, index, false) == index + 1,
        index >= len ==> insert_place(len, index, true) == len && insert_place(len, index, false)
            == len,
{
}

} // verus!
