//! The page list of a note.

use cheap_note::pages::{Page, Pages};

/// A document's pages are its own, in its own order.
#[test]
fn a_document_opens_as_its_own_pages() {
    let pages = Pages::of_document(3);

    assert_eq!(pages.len(), 3);
    assert_eq!(pages.document_page(0), Some(0));
    assert_eq!(pages.document_page(2), Some(2));
    assert_eq!(pages.document_page(3), None, "there is no fourth page");
}

/// An inserted page goes where it was asked for, and is the page the reader is turned to.
#[test]
fn a_page_is_inserted_before_or_after_the_one_in_hand() {
    let mut pages = Pages::of_document(2);

    let after = pages.insert(0, false);
    assert_eq!(after, 1, "the page after the first is the page just made");
    assert_eq!(pages.len(), 3);
    assert_eq!(pages.layout()[0], Page::Document(0));
    assert_eq!(pages.layout()[1], Page::Blank);
    assert_eq!(pages.layout()[2], Page::Document(1), "the document's order held");

    let before = pages.insert(2, true);
    assert_eq!(before, 2);
    assert_eq!(pages.layout()[1], Page::Blank);
    assert_eq!(pages.layout()[2], Page::Blank);
}

/// Deleting takes the page out of the note: the document's later pages keep their own numbers.
#[test]
fn a_deleted_document_page_leaves_the_documents_own_pages_alone() {
    let mut pages = Pages::of_document(3);

    assert_eq!(pages.remove(1), Some(1), "the page that followed takes its place");
    assert_eq!(pages.len(), 2);
    assert_eq!(pages.layout(), &[Page::Document(0), Page::Document(2)]);
}

/// The last page cannot be deleted: a note with no pages has nowhere to write.
#[test]
fn the_last_page_is_not_deletable() {
    let mut pages = Pages::default();

    assert_eq!(pages.remove(0), None);
    assert_eq!(pages.len(), 1);
}

/// A note saved before the page list existed opens with the pages it must have had.
#[test]
fn a_note_without_a_layout_gets_one_from_what_it_holds() {
    // Written on a document: its page indices were the document's.
    let with_document = Pages::restore(None, 4, 2);
    assert_eq!(
        with_document.layout(),
        &[
            Page::Document(0),
            Page::Document(1),
            Page::Document(2),
            Page::Document(3)
        ]
    );

    // Written on blank sheets: as many blanks as the ink needs, and never none.
    let blanks = Pages::restore(None, 0, 3);
    assert_eq!(blanks.layout(), &[Page::Blank, Page::Blank, Page::Blank]);
    assert_eq!(Pages::restore(None, 0, 0).len(), 1);

    // A saved layout is kept, and extended only as far as the ink needs.
    let saved = Pages::restore(Some(vec![Page::Document(1), Page::Blank]), 3, 3);
    assert_eq!(saved.layout(), &[Page::Document(1), Page::Blank, Page::Blank]);
}

/// Deleting the page that was just inserted puts the list back.
#[test]
fn deleting_an_inserted_page_puts_the_list_back() {
    let mut pages = Pages::of_document(3);
    let at = pages.insert(1, true);
    assert_eq!(at, 1);
    assert_eq!(pages.remove(at), Some(1));
    assert_eq!(pages.layout(), Pages::of_document(3).layout());
}

/// Deleting the last page of several turns to the one before it.
#[test]
fn deleting_at_the_end_turns_to_the_page_before() {
    let mut pages = Pages::of_document(3);
    assert_eq!(pages.remove(2), Some(1));
    assert_eq!(pages.clamp(9), 1);
    assert_eq!(pages.clamp(0), 0);
}
