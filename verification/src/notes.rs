//! Every page's ink, and which page is being written on.
//!
//! A stroke belongs to the sheet it was drawn on. The page being written on is held on its own; the
//! others are moved in and out of a map on a page turn. A page with nothing on it and nothing to put
//! back is not kept at all.

use crate::ink::{InkDocument, PageInk};
use std::collections::BTreeMap;
use vstd::prelude::*;

verus! {

broadcast use {
    vstd::laws_cmp::group_laws_cmp,
    vstd::std_specs::btree::group_btree_axioms,
};

/// A map by page with room made at a page: everything from there on is under the name after its own.
pub open spec fn moved_apart<V>(map: Map<int, V>, at: int) -> Map<int, V> {
    Map::new(
        |p: int| (p < at && map.contains_key(p)) || (p > at && map.contains_key(p - 1)),
        |p: int|
            if p < at {
                map[p]
            } else {
                map[p - 1]
            },
    )
}

/// A map by page without a page: everything after it is under the name before its own.
pub open spec fn moved_together<V>(map: Map<int, V>, at: int) -> Map<int, V> {
    Map::new(
        |p: int| (p < at && map.contains_key(p)) || (p >= at && map.contains_key(p + 1)),
        |p: int|
            if p < at {
                map[p]
            } else {
                map[p + 1]
            },
    )
}

/// What a note's ink is, mathematically: the page in front of the reader, and the ink of that page
/// and of every other page that is kept.
#[verifier::ext_equal]
pub ghost struct Book<T, S> {
    pub page: int,
    pub pages: Map<int, PageInk<T, S>>,
}

impl<T, S> Book<T, S> {
    /// The page in front of the reader has ink (perhaps none), and every other page is one worth
    /// keeping.
    pub open spec fn wf(self) -> bool {
        &&& 0 <= self.page
        &&& self.pages.contains_key(self.page)
        &&& forall|p: int| #[trigger] self.pages.contains_key(p) ==> 0 <= p
        &&& forall|p: int| #[trigger]
            self.pages.contains_key(p) && p != self.page ==> self.pages[p].is_kept()
    }

    /// The ink on a page: a page that is not kept is blank.
    pub open spec fn ink_on(self, page: int) -> PageInk<T, S> {
        if self.pages.contains_key(page) {
            self.pages[page]
        } else {
            PageInk::blank()
        }
    }

    /// A note with one blank page.
    pub open spec fn new() -> Self {
        Book { page: 0, pages: Map::empty().insert(0int, PageInk::blank()) }
    }

    /// The note turned to a page. What was on the page that was left stays there, unless it was
    /// nothing.
    pub open spec fn after_turn(self, page: int) -> Self {
        if page == self.page {
            self
        } else {
            let left = if self.pages[self.page].is_kept() {
                self.pages
            } else {
                self.pages.remove(self.page)
            };
            Book {
                page,
                pages: if left.contains_key(page) {
                    left
                } else {
                    left.insert(page, PageInk::blank())
                },
            }
        }
    }

    /// The note with one page's ink put into it. Another page with nothing on it is not kept.
    pub open spec fn after_put(self, page: int, ink: PageInk<T, S>) -> Self {
        if page == self.page || !ink.is_blank() {
            Book { pages: self.pages.insert(page, ink), ..self }
        } else {
            Book { pages: self.pages.remove(page), ..self }
        }
    }

    /// The note with room made for a page: every page from there on is the page after it, and the
    /// ink moves with the name.
    pub open spec fn after_insert(self, page: int) -> Self {
        Book {
            page: if self.page >= page {
                self.page + 1
            } else {
                self.page
            },
            pages: moved_apart(self.pages, page),
        }
    }

    /// The note without a page and the ink written on it: everything after it moves up one.
    pub open spec fn after_remove(self, page: int) -> Self {
        let moved = moved_together(self.pages, page);
        Book {
            page: if page < self.page {
                self.page - 1
            } else {
                self.page
            },
            pages: if page == self.page && !moved.contains_key(page) {
                moved.insert(page, PageInk::blank())
            } else {
                moved
            },
        }
    }
}

/// Every page's ink, and which page is being written on.
#[derive(Debug)]
pub struct Notes<T, S> {
    page: usize,
    current: InkDocument<T, S>,
    taken: BTreeMap<usize, InkDocument<T, S>>,
}

/// The ink of the pages a map keeps.
pub open spec fn kept_pages<T, S>(taken: Map<usize, InkDocument<T, S>>) -> Map<int, PageInk<T, S>> {
    Map::new(
        |p: int| 0 <= p <= usize::MAX && taken.contains_key(p as usize),
        |p: int| taken[p as usize]@,
    )
}

impl<T, S> View for Notes<T, S> {
    type V = Book<T, S>;

    closed spec fn view(&self) -> Book<T, S> {
        Book {
            page: self.page as int,
            pages: kept_pages(self.taken@).insert(self.page as int, self.current@),
        }
    }
}

impl<T, S> Notes<T, S> {
    /// The pages kept beside the current one are other pages.
    pub closed spec fn wf(&self) -> bool {
        &&& self@.wf()
        &&& !self.taken@.contains_key(self.page)
    }

    /// What is in order on the inside is in order to a reader.
    pub proof fn is_in_order(&self)
        requires
            self.wf(),
        ensures
            self@.wf(),
    {
    }
}

impl<T: Copy, S: Copy> Notes<T, S> {
    /// A note with one blank page.
    pub fn new() -> (notes: Self)
        ensures
            notes.wf(),
            notes@.wf(),
            notes@ == Book::<T, S>::new(),
    {
        let notes: Notes<T, S> = Notes {
            page: 0,
            current: InkDocument::blank(),
            taken: BTreeMap::new(),
        };
        assert(notes@ =~= Book::<T, S>::new());
        notes
    }

    /// Which page is being written on.
    pub fn page(&self) -> (page: usize)
        ensures
            page == self@.page,
    {
        self.page
    }

    /// The ink of the page being written on.
    pub fn current(&self) -> (ink: &InkDocument<T, S>)
        ensures
            ink@ == self@.pages[self@.page],
    {
        &self.current
    }

    /// Moves to a page, taking the ink of the page being left behind with it.
    pub fn go_to(&mut self, page: usize)
        requires
            old(self).wf(),
        ensures
            final(self).wf(),
            final(self)@.wf(),
            final(self)@ == old(self)@.after_turn(page as int),
    {
        if page == self.page {
            return ;
        }
        let mut leaving: InkDocument<T, S> = InkDocument::blank();
        std::mem::swap(&mut leaving, &mut self.current);
        // A page left with nothing on it is normally dropped, but one that can still be redone is
        // not empty in the sense that matters here: a page turn is not an edit.
        if !leaving.is_blank() || leaving.can_redo() {
            self.taken.insert(self.page, leaving);
        }
        self.current = match self.taken.remove(&page) {
            Some(ink) => ink,
            None => InkDocument::blank(),
        };
        self.page = page;
        assert(self@.pages =~= old(self)@.after_turn(page as int).pages);
        proof {
            turning_keeps_order(old(self)@, page as int);
        }
    }

    /// The ink of the page being written on, to write on.
    pub fn current_mut(&mut self) -> (ink: &mut InkDocument<T, S>)
        requires
            old(self).wf(),
        ensures
            ink@ == old(self)@.pages[old(self)@.page],
            final(self).wf(),
            final(self)@.wf(),
            final(self)@ == (Book {
                pages: old(self)@.pages.insert(old(self)@.page, final(ink)@),
                ..old(self)@
            }),
    {
        &mut self.current
    }

    /// Puts one page's ink into the note: what reading a page out of the file gives.
    pub fn put_page(&mut self, page: usize, ink: InkDocument<T, S>)
        requires
            old(self).wf(),
        ensures
            final(self).wf(),
            final(self)@.wf(),
            final(self)@ == old(self)@.after_put(page as int, ink@),
    {
        if page == self.page {
            self.current = ink;
        } else if ink.is_blank() {
            self.taken.remove(&page);
        } else {
            self.taken.insert(page, ink);
        }
        assert(self@.pages =~= old(self)@.after_put(page as int, ink@).pages);
    }

    /// Makes room at `page` for a page being inserted there: every page from it onwards becomes the
    /// page after it, and the ink moves with the name.
    ///
    /// The page the pen is on moves too: leave it behind and the next stroke would land on the page
    /// before the one on screen.
    pub fn insert_at(&mut self, page: usize)
        requires
            old(self).wf(),
            !old(self)@.pages.contains_key(usize::MAX as int),
        ensures
            final(self).wf(),
            final(self)@.wf(),
            final(self)@ == old(self)@.after_insert(page as int),
    {
        let mut taken: BTreeMap<usize, InkDocument<T, S>> = BTreeMap::new();
        std::mem::swap(&mut taken, &mut self.taken);
        let ghost all = taken@;
        proof {
            assert forall|k: usize| #[trigger] all.contains_key(k) implies k < usize::MAX by {
                assert(old(self)@.pages.contains_key(k as int));
            }
        }
        self.taken = spread(taken, page);
        if self.page >= page {
            assert(old(self)@.pages.contains_key(self.page as int));
            self.page = self.page + 1;
        }
        assert(self@.pages =~= old(self)@.after_insert(page as int).pages);
        proof {
            inserting_keeps_order(old(self)@, page as int);
        }
    }

    /// Removes the page at `page` and the ink written on it, moving everything after it up one.
    ///
    /// The page in front of the reader is then the one that followed the deleted page, or a blank
    /// sheet when it was the last.
    pub fn remove_at(&mut self, page: usize)
        requires
            old(self).wf(),
            page == usize::MAX ==> old(self)@.page != page,
        ensures
            final(self).wf(),
            final(self)@.wf(),
            final(self)@ == old(self)@.after_remove(page as int),
    {
        let mut taken: BTreeMap<usize, InkDocument<T, S>> = BTreeMap::new();
        std::mem::swap(&mut taken, &mut self.taken);
        taken.remove(&page);
        if page == self.page {
            self.current = match taken.remove(&(page + 1)) {
                Some(ink) => ink,
                None => InkDocument::blank(),
            };
        } else if page < self.page {
            self.page = self.page - 1;
        }
        self.taken = close_up(taken, page);
        assert(self@.pages =~= old(self)@.after_remove(page as int).pages);
        proof {
            removing_keeps_order(old(self)@, page as int);
        }
    }
}

/// The names a map has, each once.
fn names_of<D>(taken: &BTreeMap<usize, D>) -> (names: Vec<usize>)
    ensures
        names@.no_duplicates(),
        forall|k: usize| names@.contains(k) <==> taken@.contains_key(k),
{
    let mut names: Vec<usize> = Vec::new();
    for name in iter: taken.keys()
        invariant
            iter.seq().no_duplicates(),
            iter.seq().unref().to_set() == taken@.dom(),
            names@ == iter.seq().unref().take(iter.index()),
            iter.index() == iter.seq().len() ==> (forall|k: usize|
                names@.contains(k) <==> taken@.contains_key(k)),
    {
        names.push(*name);
        assert(names@ =~= iter.seq().unref().take(iter.index() + 1));
        assert(iter.index() + 1 == iter.seq().len() ==> names@ =~= iter.seq().unref());
        assert forall|k: usize| iter.index() + 1 == iter.seq().len() implies (names@.contains(k)
            <==> taken@.contains_key(k)) by {
            assert(iter.seq().unref().to_set().contains(k) <==> iter.seq().unref().contains(k));
        }
    }
    names
}

/// Whether a name is among the first `n`.
spec fn among(names: Seq<usize>, n: int, name: usize) -> bool {
    exists|j: int| 0 <= j < n && #[trigger] names[j] == name
}

/// One more name is among one more.
proof fn one_more_is_among(names: Seq<usize>, n: int)
    requires
        0 <= n < names.len(),
    ensures
        forall|k: usize| #[trigger] among(names, n + 1, k) <==> among(names, n, k) || k == names[n],
{
    assert forall|k: usize| #[trigger] among(names, n + 1, k) <==> among(names, n, k) || k
        == names[n] by {
        if among(names, n + 1, k) && k != names[n] {
            let j = choose|j: int| 0 <= j < n + 1 && #[trigger] names[j] == k;
            assert(0 <= j < n && names[j] == k);
        }
        if among(names, n, k) {
            let j = choose|j: int| 0 <= j < n && #[trigger] names[j] == k;
            assert(0 <= j < n + 1 && names[j] == k);
        }
    }
}

/// Every name is among all of them.
proof fn all_are_among(names: Seq<usize>)
    ensures
        forall|k: usize| #[trigger] among(names, names.len() as int, k) <==> names.contains(k),
{
}

/// Moves every page from `from` on to the name after its own.
pub(crate) fn spread<D>(taken: BTreeMap<usize, D>, from: usize) -> (moved: BTreeMap<usize, D>)
    requires
        forall|k: usize| #[trigger] taken@.contains_key(k) ==> k < usize::MAX,
    ensures
        forall|q: usize| #[trigger]
            moved@.contains_key(q) <==> (q < from && taken@.contains_key(q)) || (q > from
                && taken@.contains_key((q - 1) as usize)),
        forall|q: usize| #[trigger]
            moved@.contains_key(q) ==> moved@[q] == taken@[if q < from {
                q
            } else {
                (q - 1) as usize
            }],
{
    let mut taken: BTreeMap<usize, D> = taken;
    let ghost all = taken@;
    let names: Vec<usize> = names_of(&taken);
    let mut moved: BTreeMap<usize, D> = BTreeMap::new();
    let mut index: usize = 0;
    while index < names.len()
        invariant
            index <= names@.len(),
            names@.no_duplicates(),
            forall|k: usize| names@.contains(k) <==> all.contains_key(k),
            forall|k: usize| #[trigger] all.contains_key(k) ==> k < usize::MAX,
            forall|k: usize| #[trigger]
                taken@.contains_key(k) <==> all.contains_key(k) && !among(names@, index as int, k),
            forall|k: usize| #[trigger] taken@.contains_key(k) ==> taken@[k] == all[k],
            forall|q: usize| #[trigger]
                moved@.contains_key(q) <==> (q < from && among(names@, index as int, q)) || (q
                    > from && among(names@, index as int, (q - 1) as usize)),
            forall|q: usize| #[trigger]
                moved@.contains_key(q) ==> moved@[q] == all[if q < from {
                    q
                } else {
                    (q - 1) as usize
                }],
        decreases names@.len() - index,
    {
        let name: usize = names[index];
        proof {
            assert(names@.contains(name));
            assert(!among(names@, index as int, name));
            one_more_is_among(names@, index as int);
        }
        match taken.remove(&name) {
            Some(ink) => {
                let renamed: usize = if name >= from {
                    name + 1
                } else {
                    name
                };
                moved.insert(renamed, ink);
            },
            None => {},
        }
        index = index + 1;
    }
    proof {
        all_are_among(names@);
    }
    moved
}

/// Moves every page after `from` to the name before its own.
pub(crate) fn close_up<D>(taken: BTreeMap<usize, D>, from: usize) -> (moved: BTreeMap<usize, D>)
    requires
        !taken@.contains_key(from),
    ensures
        forall|q: usize| #[trigger]
            moved@.contains_key(q) <==> (q < from && taken@.contains_key(q)) || (from <= q
                < usize::MAX && taken@.contains_key((q + 1) as usize)),
        forall|q: usize| #[trigger]
            moved@.contains_key(q) ==> moved@[q] == taken@[if q < from {
                q
            } else {
                (q + 1) as usize
            }],
{
    let mut taken: BTreeMap<usize, D> = taken;
    let ghost all = taken@;
    let names: Vec<usize> = names_of(&taken);
    let mut moved: BTreeMap<usize, D> = BTreeMap::new();
    let mut index: usize = 0;
    while index < names.len()
        invariant
            index <= names@.len(),
            names@.no_duplicates(),
            forall|k: usize| names@.contains(k) <==> all.contains_key(k),
            !all.contains_key(from),
            forall|k: usize| #[trigger]
                taken@.contains_key(k) <==> all.contains_key(k) && !among(names@, index as int, k),
            forall|k: usize| #[trigger] taken@.contains_key(k) ==> taken@[k] == all[k],
            forall|q: usize| #[trigger]
                moved@.contains_key(q) <==> (q < from && among(names@, index as int, q)) || (from
                    <= q < usize::MAX && among(names@, index as int, (q + 1) as usize)),
            forall|q: usize| #[trigger]
                moved@.contains_key(q) ==> moved@[q] == all[if q < from {
                    q
                } else {
                    (q + 1) as usize
                }],
        decreases names@.len() - index,
    {
        let name: usize = names[index];
        proof {
            assert(names@.contains(name));
            assert(!among(names@, index as int, name));
            one_more_is_among(names@, index as int);
        }
        match taken.remove(&name) {
            Some(ink) => {
                let renamed: usize = if name > from {
                    name - 1
                } else {
                    name
                };
                moved.insert(renamed, ink);
            },
            None => {},
        }
        index = index + 1;
    }
    proof {
        all_are_among(names@);
    }
    moved
}

/// Turning a page leaves a well-formed note.
pub proof fn turning_keeps_order<T, S>(book: Book<T, S>, page: int)
    requires
        book.wf(),
        0 <= page,
    ensures
        book.after_turn(page).wf(),
{
}

/// Inserting a page leaves a well-formed note.
pub proof fn inserting_keeps_order<T, S>(book: Book<T, S>, page: int)
    requires
        book.wf(),
        0 <= page,
    ensures
        book.after_insert(page).wf(),
{
}

/// Removing a page leaves a well-formed note.
pub proof fn removing_keeps_order<T, S>(book: Book<T, S>, page: int)
    requires
        book.wf(),
        0 <= page,
    ensures
        book.after_remove(page).wf(),
{
}

/// Ink stays on the page it was written on: turning the page changes the ink of no page that has
/// any, or any to put back.
pub proof fn ink_stays_on_its_page<T, S>(book: Book<T, S>, to: int, page: int)
    requires
        book.wf(),
        book.ink_on(page).is_kept(),
    ensures
        book.after_turn(to).ink_on(page) == book.ink_on(page),
{
}

/// Turning the page and turning back changes nothing, as long as the page that was left had ink or
/// ink to put back.
pub proof fn turning_back_returns<T, S>(book: Book<T, S>, to: int)
    requires
        book.wf(),
        0 <= to,
        book.pages[book.page].is_kept(),
    ensures
        book.after_turn(to).after_turn(book.page) == book,
{
    assert(book.after_turn(to).after_turn(book.page).pages =~= book.pages);
}

/// A page left with nothing on it and nothing to put back is not kept.
pub proof fn a_blank_page_is_not_kept<T, S>(book: Book<T, S>, to: int)
    requires
        book.wf(),
        to != book.page,
        !book.pages[book.page].is_kept(),
    ensures
        !book.after_turn(to).pages.contains_key(book.page),
{
}

/// Inserting a page moves the ink with the names: the ink before it stays, the new page is blank,
/// and the ink from there on is one page further. The reader stays with the ink in front of them.
pub proof fn inserting_moves_the_ink<T, S>(book: Book<T, S>, at: int, page: int)
    ensures
        page < at ==> book.after_insert(at).ink_on(page) == book.ink_on(page),
        page == at ==> book.after_insert(at).ink_on(page) == PageInk::<T, S>::blank(),
        page > at ==> book.after_insert(at).ink_on(page) == book.ink_on(page - 1),
        book.after_insert(at).ink_on(book.after_insert(at).page) == book.ink_on(book.page),
{
}

/// Turning to a page shows the ink that is on it.
pub proof fn turning_shows_the_ink<T, S>(book: Book<T, S>, page: int)
    ensures
        book.after_turn(page).page == page,
        book.after_turn(page).pages[page] == if page == book.page {
            book.pages[page]
        } else {
            book.ink_on(page)
        },
{
}

/// Removing a page takes its ink with it: the ink before it stays, and the ink after it is one page
/// sooner. In front of the reader is what was there, or what followed it where it was removed.
pub proof fn removing_moves_the_ink<T, S>(book: Book<T, S>, at: int, page: int)
    ensures
        page < at ==> book.after_remove(at).ink_on(page) == book.ink_on(page),
        page >= at ==> book.after_remove(at).ink_on(page) == book.ink_on(page + 1),
        at != book.page ==> book.after_remove(at).ink_on(book.after_remove(at).page)
            == book.ink_on(book.page),
        at == book.page ==> book.after_remove(at).page == at && book.after_remove(at).pages[at]
            == book.ink_on(at + 1),
{
}

/// Removing the page that was just inserted gives back the note as it was.
pub proof fn removing_undoes_inserting<T, S>(book: Book<T, S>, at: int)
    ensures
        book.after_insert(at).after_remove(at) == book,
{
    assert(book.after_insert(at).after_remove(at).pages =~= book.pages);
}

/// What is put into a page is what is on it, unless it is nothing.
pub proof fn putting_a_page_restores_it<T, S>(book: Book<T, S>, page: int, ink: PageInk<T, S>)
    requires
        book.wf(),
        0 <= page,
    ensures
        page == book.page || !ink.is_blank() ==> book.after_put(page, ink).ink_on(page) == ink,
        page != book.page && ink.is_blank() ==> book.after_put(page, ink).ink_on(page) == PageInk::<
            T,
            S,
        >::blank(),
        forall|other: int|
            other != page ==> #[trigger] book.after_put(page, ink).ink_on(other) == book.ink_on(
                other,
            ),
{
}

/// The number of the page in front of the reader moves with the page: it is one further where a page is
/// made before it or in its place, one sooner where a page before it is removed, and else the same.
pub proof fn the_reader_keeps_their_page<T, S>(book: Book<T, S>, at: int)
    ensures
        at <= book.page ==> book.after_insert(at).page == book.page + 1,
        at > book.page ==> book.after_insert(at).page == book.page,
        at < book.page ==> book.after_remove(at).page == book.page - 1,
        at >= book.page ==> book.after_remove(at).page == book.page,
{
}

/// A new note has its first page in front of the reader, and nothing on it or on any other.
pub proof fn a_new_note_is_blank<T, S>(page: int)
    ensures
        Book::<T, S>::new().page == 0,
        Book::<T, S>::new().pages.dom() == set![0int],
        Book::<T, S>::new().ink_on(page).finished.len() == 0,
        Book::<T, S>::new().ink_on(page).undone.len() == 0,
        Book::<T, S>::new().ink_on(page).open is None,
{
    assert(Book::<T, S>::new().pages.dom() =~= set![0int]);
}

/// Turning the page writes nothing and takes nothing: every page holds the strokes it held, and what can be
/// put back on it.
pub proof fn turning_changes_no_ink<T, S>(book: Book<T, S>, to: int, page: int)
    requires
        book.wf(),
    ensures
        book.after_turn(to).ink_on(page).finished == book.ink_on(page).finished,
        book.after_turn(to).ink_on(page).undone == book.ink_on(page).undone,
        book.after_turn(to).ink_on(page).open == book.ink_on(page).open,
{
    assert(book.after_turn(to).ink_on(page).finished =~= book.ink_on(page).finished);
    assert(book.after_turn(to).ink_on(page).undone =~= book.ink_on(page).undone);
}

} // verus!
