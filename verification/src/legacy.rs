//! The note format that came before the database: a zip with `notes.json` in it.
//!
//! It is only read, so that a note of that shape can be moved into a store rather than lost. It has
//! the two refusals of [`crate::bundle`]: a zip with no `notes.json` is named as one this app did not
//! write, and a newer format is refused rather than guessed at.

use crate::archive::Archive;
use crate::bundle::{
    answers, document_entry, document_found, document_view, newer, newer_text, notes_entry,
    notes_found, page_lines, Document, NotesFile, PageFile, FORMAT,
};
use crate::error::{refused, AppError};
use crate::pages::Page;
use crate::recent::SheetBits;
use crate::text::maybe_text;
use vstd::prelude::*;

verus! {

/// A note as the old format held it.
#[derive(Debug)]
pub struct Note<T> {
    /// The PDF the note was written on, if there was one, with the name it was saved under.
    pub document: Option<Document>,
    /// The ink, one entry per page written on, in the order the pages are read.
    pub pages: Vec<PageFile<T>>,
    /// The page that was open.
    pub page: usize,
    /// The sheet the ink was written on, when it was recorded.
    pub sheet: Option<SheetBits>,
    /// What each page showed, in reading order. Empty means the note predates the list.
    pub layout: Vec<Page>,
}

/// Reads the bytes of `notes.json` out of an open archive.
pub fn notes_in(path: &str, archive: &mut Archive) -> (result: Result<Vec<u8>, AppError>)
    ensures
        final(archive)@ == old(archive)@,
        answers(
            result,
            notes_found(
                path@,
                old(archive)@,
                " and no note database: it was not written by this app"@,
            ),
        ),
{
    notes_entry(path, archive, " and no note database: it was not written by this app")
}

/// Whether a result is the note these notes and this archive make, or the refusal they meet.
pub open spec fn note_read<T>(
    result: Result<Note<T>, AppError>,
    path: Seq<char>,
    archive: Seq<u8>,
    notes: NotesFile<T>,
) -> bool {
    if notes.format > FORMAT {
        refused(result, newer_text(path, notes.format as nat, "reads"@))
    } else {
        match document_found(path, archive, maybe_text(notes.document)) {
            Err(reason) => refused(result, reason),
            Ok(document) => result matches Ok(note) && document_view(note.document) == document
                && page_lines(note.pages@) == page_lines(notes.pages@) && note.page == notes.page
                && note.sheet == notes.sheet && note.layout@ == notes.layout@,
        }
    }
}

/// Reads an old note from an open archive and what its `notes.json` says.
///
/// A zip with no document was a note written on a blank sheet, which is a note and not a broken file.
pub fn read<T>(path: &str, archive: &mut Archive, notes: NotesFile<T>) -> (result: Result<
    Note<T>,
    AppError,
>)
    ensures
        final(archive)@ == old(archive)@,
        note_read(result, path@, old(archive)@, notes),
{
    if notes.format > FORMAT {
        return Err(AppError::Note(newer(path, notes.format, "reads")));
    }
    match document_entry(path, archive, &notes.document) {
        Ok(document) => Ok(
            Note {
                document,
                pages: notes.pages,
                page: notes.page,
                sheet: notes.sheet,
                layout: notes.layout,
            },
        ),
        Err(error) => Err(error),
    }
}

/// An old note is read as it was written: its pages under their own numbers with their own ink, the page that was
/// open, the sheet, the list of pages, and the document where there is one. One of a newer format is refused.
pub proof fn an_old_note_is_read_as_written<T>(
    result: Result<Note<T>, AppError>,
    path: Seq<char>,
    archive: Seq<u8>,
    notes: NotesFile<T>,
    i: int,
)
    requires
        note_read(result, path, archive, notes),
    ensures
        notes.format > 2 ==> result is Err,
        notes.format <= 2 && crate::zips::zip_named_here(archive, "document.pdf"@) is None
            ==> result is Ok && result->Ok_0.document is None,
        crate::zips::zip_named_here(archive, "document.pdf"@) matches Some(Err(_)) ==> result is Err,
        notes.format <= 2 ==> (crate::zips::zip_named_here(archive, "document.pdf"@) matches Some(
            Ok(bytes),
        ) ==> result is Ok && result->Ok_0.document is Some && result->Ok_0.document->0.bytes@
            == bytes && (notes.document matches Some(name) ==> result->Ok_0.document->0.name@ == name@)),
        result matches Ok(note) ==> {
            &&& note.pages@.len() == notes.pages@.len()
            &&& note.page == notes.page
            &&& note.sheet == notes.sheet
            &&& note.layout@ == notes.layout@
            &&& 0 <= i < notes.pages@.len() ==> note.pages@[i].page == notes.pages@[i].page
                && crate::ink::lines_of(note.pages@[i].strokes@) == crate::ink::lines_of(
                notes.pages@[i].strokes@,
            )
        },
{
    if result is Ok {
        let note = result->Ok_0;
        assert(page_lines(note.pages@).len() == note.pages@.len());
        if 0 <= i < notes.pages@.len() {
            assert(page_lines(note.pages@)[i] == page_lines(notes.pages@)[i]);
        }
    }
}

} // verus!
