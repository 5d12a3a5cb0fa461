//! A note as one file: the PDF it was written on, and the ink laid over it.
//!
//! The file is a plain zip with two entries. `document.pdf` is the PDF exactly as it was opened, and
//! `notes.json` is the ink, one entry per page written on, and which page was open. The JSON is
//! turned into values and back by the caller; what is in it, and what may be missing, is decided
//! here.

use crate::archive::{entries_of, fits, pack, refused_with, Archive, Parcel};
use crate::error::{refused, AppError};
use crate::ink::{copied_from, lines_of, InkDocument, Line, PageInk, Stroke};
use crate::names::{name_stem, stem_of_name};
use crate::pages::Page;
use crate::paths::{file_name, name_in};
use crate::recent::SheetBits;
use crate::text::{decimal, decimal_text, maybe_text};
use crate::zips::{holds_entries, is_fresh, is_last_name, zip_named_here, Method};
use vstd::prelude::*;

verus! {

/// The PDF inside a bundle.
pub const DOCUMENT_ENTRY: &'static str = "document.pdf";

/// The ink inside a bundle.
pub const NOTES_ENTRY: &'static str = "notes.json";

/// The version of `notes.json` this build writes.
///
/// A newer version is refused rather than guessed at.
pub const FORMAT: u32 = 2;

/// A PDF held in memory, with the name it was saved under.
#[derive(Debug)]
pub struct Document {
    /// The file name to show for it.
    pub name: String,
    /// The bytes, exactly as they were read.
    pub bytes: Vec<u8>,
}

/// One page of `notes.json`.
#[derive(Debug)]
pub struct PageFile<T> {
    /// The page index.
    pub page: usize,
    /// Its strokes, in the order they were drawn.
    pub strokes: Vec<Stroke<T>>,
}

/// `notes.json`, as it is written.
#[derive(Debug)]
pub struct NotesFile<T> {
    /// The note format version.
    pub format: u32,
    /// The page that was open.
    pub page: usize,
    /// The sheet the ink was written on.
    pub sheet: Option<SheetBits>,
    /// The file name the document had when the note was saved.
    pub document: Option<String>,
    /// What each page shows, in reading order. Empty in notes written before the list existed.
    pub layout: Vec<Page>,
    /// The pages that hold ink.
    pub pages: Vec<PageFile<T>>,
}

/// One page of a bundle: its index, and its ink.
#[derive(Debug)]
pub struct InkedPage<T, S> {
    /// The page index.
    pub page: usize,
    /// Its ink.
    pub ink: InkDocument<T, S>,
}

/// A note ready to be written, or one that has just been read.
#[derive(Debug)]
pub struct Bundle<T, S> {
    /// The PDF the note was written on, if there is one.
    pub document: Option<Document>,
    /// The ink, one entry per page written on.
    pub pages: Vec<InkedPage<T, S>>,
    /// The page that was open.
    pub page: usize,
    /// The sheet the ink was written on, when it is known.
    pub sheet: Option<SheetBits>,
    /// What each page shows, in reading order. Empty means no list rather than no pages.
    pub layout: Vec<Page>,
}

/// A document as characters and bytes.
pub open spec fn document_view(document: Option<Document>) -> Option<(Seq<char>, Seq<u8>)> {
    match document {
        Some(document) => Some((document.name@, document.bytes@)),
        None => None,
    }
}

/// The pages of `notes.json`: their indices, and their lines.
pub open spec fn page_lines<T>(pages: Seq<PageFile<T>>) -> Seq<(usize, Seq<Line<T>>)> {
    Seq::new(pages.len(), |i: int| (pages[i].page, lines_of(pages[i].strokes@)))
}

/// The pages of a bundle: their indices, and their ink.
pub open spec fn page_ink<T, S>(pages: Seq<InkedPage<T, S>>) -> Seq<(usize, PageInk<T, S>)> {
    Seq::new(pages.len(), |i: int| (pages[i].page, pages[i].ink@))
}

/// Pages that hold these lines and nothing else.
pub open spec fn inked<T, S>(pages: Seq<(usize, Seq<Line<T>>)>) -> Seq<(usize, PageInk<T, S>)> {
    Seq::new(
        pages.len(),
        |i: int| (pages[i].0, PageInk { finished: pages[i].1, ..PageInk::blank() }),
    )
}

/// The finished lines of some pages.
pub open spec fn finished_lines<T, S>(pages: Seq<(usize, PageInk<T, S>)>) -> Seq<
    (usize, Seq<Line<T>>),
> {
    Seq::new(pages.len(), |i: int| (pages[i].0, pages[i].1.finished))
}

// ---------------------------------------------------------------------------------------------
// Writing
// ---------------------------------------------------------------------------------------------

/// What `notes.json` says of a bundle.
pub fn notes_of<T: Copy, S: Copy>(bundle: &Bundle<T, S>) -> (notes: NotesFile<T>)
    ensures
        notes.format == FORMAT,
        notes.page == bundle.page,
        notes.sheet == bundle.sheet,
        maybe_text(notes.document) == (match bundle.document {
            Some(document) => Some(document.name@),
            None => None,
        }),
        notes.layout@ == bundle.layout@,
        page_lines(notes.pages@) == finished_lines(page_ink(bundle.pages@)),
{
    let mut layout: Vec<Page> = Vec::new();
    let mut i: usize = 0;
    while i < bundle.layout.len()
        invariant
            i <= bundle.layout@.len(),
            layout@ == bundle.layout@.take(i as int),
        decreases bundle.layout@.len() - i,
    {
        layout.push(bundle.layout[i]);
        i = i + 1;
    }
    assert(bundle.layout@.take(i as int) =~= bundle.layout@);
    let mut pages: Vec<PageFile<T>> = Vec::new();
    let mut p: usize = 0;
    let ghost wanted = finished_lines(page_ink(bundle.pages@));
    while p < bundle.pages.len()
        invariant
            p <= bundle.pages@.len(),
            wanted == finished_lines(page_ink(bundle.pages@)),
            page_lines(pages@) == wanted.take(p as int),
        decreases bundle.pages@.len() - p,
    {
        let page: &InkedPage<T, S> = &bundle.pages[p];
        let strokes: Vec<Stroke<T>> = copied_from(page.ink.finished(), 0);
        let ghost held = pages@;
        assert(lines_of(strokes@) =~= page.ink@.finished);
        pages.push(PageFile { page: page.page, strokes });
        assert(page_lines(held).len() == held.len());
        assert(page_lines(pages@) =~= page_lines(held).push(wanted[p as int]));
        assert(wanted.take(p + 1) =~= wanted.take(p as int).push(wanted[p as int]));
        p = p + 1;
    }
    assert(wanted.take(p as int) =~= wanted);
    let document: Option<String> = match &bundle.document {
        Some(document) => Some(document.name.clone()),
        None => None,
    };
    NotesFile { format: FORMAT, page: bundle.page, sheet: bundle.sheet, document, layout, pages }
}

/// The entries of a bundle: the ink, and the document where there is one.
pub open spec fn bundle_entries(notes: Seq<u8>, document: Option<Seq<u8>>) -> Seq<
    (Seq<char>, Seq<u8>, bool),
> {
    match document {
        Some(bytes) => seq![(NOTES_ENTRY@, notes, true), (DOCUMENT_ENTRY@, bytes, false)],
        None => seq![(NOTES_ENTRY@, notes, true)],
    }
}

/// The bytes of a document that may be missing.
pub open spec fn document_bytes(document: Option<Document>) -> Option<Seq<u8>> {
    match document {
        Some(document) => Some(document.bytes@),
        None => None,
    }
}

/// The names of a bundle's entries are names a file can have, and no two are the same.
proof fn bundle_names_are_good()
    ensures
        NOTES_ENTRY@ != DOCUMENT_ENTRY@,
        NOTES_ENTRY@.len() == 10,
        DOCUMENT_ENTRY@.len() == 12,
        NOTES_ENTRY@.last() == 'n',
        DOCUMENT_ENTRY@.last() == 'f',
        !NOTES_ENTRY@.contains('\u{7}'),
        !DOCUMENT_ENTRY@.contains('\u{7}'),
        is_last_name(NOTES_ENTRY@),
        is_last_name(DOCUMENT_ENTRY@),
{
    reveal_strlit("notes.json");
    reveal_strlit("document.pdf");
    assert(NOTES_ENTRY@.len() != DOCUMENT_ENTRY@.len());
}

/// A copy of some bytes.
fn copy_bytes(bytes: &[u8]) -> (copy: Vec<u8>)
    ensures
        copy@ == bytes@,
{
    let mut copy: Vec<u8> = Vec::new();
    copy.extend_from_slice(bytes);
    assert(copy@ =~= bytes@);
    copy
}

/// What a bundle is packed from.
///
/// The notes are deflated and the document is stored: a PDF is compressed already.
pub fn parcels(notes: &[u8], document: &Option<Document>) -> (parcels: Vec<Parcel>)
    ensures
        entries_of(parcels@) == bundle_entries(notes@, document_bytes(*document)),
        parcels@[0].what@ == "the note"@,
        document is Some ==> parcels@[1].what@ == "the document"@,
{
    let mut parcels: Vec<Parcel> = Vec::new();
    parcels.push(
        Parcel {
            name: String::from_str(NOTES_ENTRY),
            bytes: copy_bytes(notes),
            method: Method::Deflated,
            what: String::from_str("the note"),
        },
    );
    match document {
        Some(document) => {
            parcels.push(
                Parcel {
                    name: String::from_str(DOCUMENT_ENTRY),
                    bytes: copy_bytes(document.bytes.as_slice()),
                    method: Method::Stored,
                    what: String::from_str("the document"),
                },
            );
        },
        None => {},
    }
    assert(entries_of(parcels@) =~= bundle_entries(notes@, document_bytes(*document)));
    parcels
}

/// The bytes of the file a bundle is written as, from the bytes of its `notes.json`.
///
/// Opening the file gives back the same notes and the same document.
pub fn write(path: &str, notes: &[u8], document: &Option<Document>) -> (result: Result<
    Vec<u8>,
    AppError,
>)
    ensures
        result matches Ok(bytes) ==> holds_entries(
            bytes@,
            bundle_entries(notes@, document_bytes(*document)),
        ),
        fits(bundle_entries(notes@, document_bytes(*document))) ==> result is Ok,
        result is Err ==> refused_with(result, "the note could not be written: "@) || refused_with(
            result,
            "the document could not be written: "@,
        ) || refused_with(result, path@ + " could not be closed: "@),
{
    let parcels: Vec<Parcel> = parcels(notes, document);
    let ghost entries = bundle_entries(notes@, document_bytes(*document));
    proof {
        bundle_names_are_good();
        assert(entries_of(parcels@) == entries);
        assert(entries.len() == parcels@.len());
        reveal_strlit("the note");
        reveal_strlit("the document");
        reveal_strlit(" could not be written: ");
        reveal_strlit("the note could not be written: ");
        reveal_strlit("the document could not be written: ");
        assert("the note"@ + " could not be written: "@ =~= "the note could not be written: "@);
        assert("the document"@ + " could not be written: "@
            =~= "the document could not be written: "@);
    }
    pack(path, &parcels)
}

// ---------------------------------------------------------------------------------------------
// Reading
// ---------------------------------------------------------------------------------------------

/// Why the ink of a note is refused.
pub open spec fn invalid_text(path: Seq<char>, error: Seq<char>) -> Seq<char> {
    "the ink in "@ + path + " is not valid: "@ + error
}

/// The refusal of a note whose ink could not be read out of its `notes.json`.
pub fn invalid_notes(path: &str, error: &str) -> (refusal: AppError)
    ensures
        refusal matches AppError::Note(said) && said@ == invalid_text(path@, error@),
{
    AppError::Note(
        String::from_str("the ink in ").concat(path).concat(" is not valid: ").concat(error),
    )
}

/// What stands in `notes.json` of an archive, or why it cannot be read; `foreign` is what is said of
/// an archive that has none.
pub open spec fn notes_found(path: Seq<char>, archive: Seq<u8>, foreign: Seq<char>) -> Result<
    Seq<u8>,
    Seq<char>,
> {
    match zip_named_here(archive, NOTES_ENTRY@) {
        None => Err(path + " is a zip file, but it holds no notes.json"@ + foreign),
        Some(Err(error)) => Err(invalid_text(path, error)),
        Some(Ok(bytes)) => Ok(bytes),
    }
}

/// Whether a result is this value, or the refusal of a note for this reason.
pub open spec fn answers(result: Result<Vec<u8>, AppError>, answer: Result<Seq<u8>, Seq<char>>) -> bool {
    match answer {
        Ok(bytes) => result matches Ok(found) && found@ == bytes,
        Err(reason) => refused(result, reason),
    }
}

/// Reads `notes.json` out of an archive, with what is said of an archive that has none.
pub(crate) fn notes_entry(path: &str, archive: &mut Archive, foreign: &str) -> (result: Result<
    Vec<u8>,
    AppError,
>)
    ensures
        final(archive)@ == old(archive)@,
        answers(result, notes_found(path@, old(archive)@, foreign@)),
{
    match archive.named(NOTES_ENTRY) {
        None => Err(
            AppError::Note(
                String::from_str(path).concat(
                    " is a zip file, but it holds no notes.json",
                ).concat(foreign),
            ),
        ),
        Some(Ok(bytes)) => Ok(bytes),
        Some(Err(error)) => Err(invalid_notes(path, error.as_str())),
    }
}

/// The name a document comes back under: the one it was saved with, then the file's own stem with
/// `.pdf` on it, then `document.pdf`.
pub open spec fn document_name_of(path: Seq<char>, saved: Option<Seq<char>>) -> Seq<char> {
    match saved {
        Some(name) => name,
        None => match name_in(path) {
            Some(name) => stem_of_name(name) + ".pdf"@,
            None => "document.pdf"@,
        },
    }
}

/// The name a document comes back under.
pub fn document_name(path: &str, saved: &Option<String>) -> (name: String)
    ensures
        name@ == document_name_of(path@, maybe_text(*saved)),
{
    match saved {
        Some(name) => name.clone(),
        None => match file_name(path) {
            Some(name) => name_stem(name.as_str()).concat(".pdf"),
            None => String::from_str("document.pdf"),
        },
    }
}

/// The document of an archive, or why it cannot be read. An archive without one is a note on a blank
/// sheet.
pub open spec fn document_found(
    path: Seq<char>,
    archive: Seq<u8>,
    saved: Option<Seq<char>>,
) -> Result<Option<(Seq<char>, Seq<u8>)>, Seq<char>> {
    match zip_named_here(archive, DOCUMENT_ENTRY@) {
        None => Ok(None),
        Some(Err(error)) => Err("the document in "@ + path + " could not be read: "@ + error),
        Some(Ok(bytes)) => Ok(Some((document_name_of(path, saved), bytes))),
    }
}

/// Reads the document out of an archive.
pub(crate) fn document_entry(path: &str, archive: &mut Archive, saved: &Option<String>) -> (result:
    Result<Option<Document>, AppError>)
    ensures
        final(archive)@ == old(archive)@,
        match document_found(path@, old(archive)@, maybe_text(*saved)) {
            Ok(document) => result matches Ok(found) && document_view(found) == document,
            Err(reason) => refused(result, reason),
        },
{
    match archive.named(DOCUMENT_ENTRY) {
        None => Ok(None),
        Some(Ok(bytes)) => Ok(Some(Document { name: document_name(path, saved), bytes })),
        Some(Err(error)) => Err(
            AppError::Note(
                String::from_str("the document in ").concat(path).concat(
                    " could not be read: ",
                ).concat(error.as_str()),
            ),
        ),
    }
}

/// Why a note of a newer format is refused: what this build does with the newest one it knows.
pub open spec fn newer_text(path: Seq<char>, format: nat, does: Seq<char>) -> Seq<char> {
    path + " was written by a newer version of this app (note format "@ + decimal_text(format)
        + ", this build "@ + does + " "@ + decimal_text(FORMAT as nat) + ")"@
}

/// Why a note of a newer format is refused.
pub(crate) fn newer(path: &str, format: u32, does: &str) -> (text: String)
    ensures
        text@ == newer_text(path@, format as nat, does@),
{
    String::from_str(path).concat(
        " was written by a newer version of this app (note format ",
    ).concat(decimal(format as u64).as_str()).concat(", this build ").concat(does).concat(
        " ",
    ).concat(decimal(FORMAT as u64).as_str()).concat(")")
}

/// Reads the bytes of `notes.json` out of an open bundle.
///
/// A zip that is not a note is refused by name, rather than half-read.
pub fn notes_in(path: &str, archive: &mut Archive) -> (result: Result<Vec<u8>, AppError>)
    ensures
        final(archive)@ == old(archive)@,
        answers(result, notes_found(path@, old(archive)@, ": it was not written by this app"@)),
{
    notes_entry(path, archive, ": it was not written by this app")
}

/// Whether a result is the bundle these notes and this archive make, or the refusal they meet.
pub open spec fn bundle_read<T, S>(
    result: Result<Bundle<T, S>, AppError>,
    path: Seq<char>,
    archive: Seq<u8>,
    notes: NotesFile<T>,
) -> bool {
    if notes.format > FORMAT {
        refused(result, newer_text(path, notes.format as nat, "writes"@))
    } else {
        match document_found(path, archive, maybe_text(notes.document)) {
            Err(reason) => refused(result, reason),
            Ok(document) => result matches Ok(bundle) && document_view(bundle.document) == document
                && page_ink(bundle.pages@) == inked::<T, S>(page_lines(notes.pages@))
                && bundle.page == notes.page && bundle.sheet == notes.sheet && bundle.layout@
                == notes.layout@,
        }
    }
}

/// Reads a note from an open bundle and what its `notes.json` says.
///
/// A newer format is refused rather than guessed at. A bundle with no document is a note on a blank
/// sheet rather than a broken file.
pub fn read<T: Copy, S: Copy>(path: &str, archive: &mut Archive, notes: NotesFile<T>) -> (result:
    Result<Bundle<T, S>, AppError>)
    ensures
        final(archive)@ == old(archive)@,
        bundle_read(result, path@, old(archive)@, notes),
{
    if notes.format > FORMAT {
        return Err(AppError::Note(newer(path, notes.format, "writes")));
    }
    let document: Option<Document> = match document_entry(path, archive, &notes.document) {
        Ok(document) => document,
        Err(error) => return Err(error),
    };
    let ghost wanted = inked::<T, S>(page_lines(notes.pages@));
    let mut pages: Vec<InkedPage<T, S>> = Vec::new();
    for file in iter: notes.pages
        invariant
            iter.seq() == notes.pages@,
            wanted == inked::<T, S>(page_lines(notes.pages@)),
            page_ink(pages@) == wanted.take(iter.index()),
    {
        let ghost held = pages@;
        let number: usize = file.page;
        let ink: InkDocument<T, S> = InkDocument::from_strokes(file.strokes);
        pages.push(InkedPage { page: number, ink });
        assert(page_ink(held).len() == held.len());
        assert(file == notes.pages@[iter.index() as int]);
        assert(page_ink(pages@) =~= page_ink(held).push(wanted[iter.index() as int]));
        assert(wanted.take(iter.index() + 1) =~= wanted.take(iter.index() as int).push(
            wanted[iter.index() as int],
        ));
    }
    assert(wanted.take(wanted.len() as int) =~= wanted);
    Ok(
        Bundle {
            document,
            pages,
            page: notes.page,
            sheet: notes.sheet,
            layout: notes.layout,
        },
    )
}

/// A note comes back from its file as it was written: the notes byte for byte, and from what they say
/// of a bundle the same bundle, with the finished ink on the pages it was written on.
pub proof fn a_bundle_reads_back<T, S>(
    path: Seq<char>,
    packed: Seq<u8>,
    json: Seq<u8>,
    bundle: Bundle<T, S>,
    notes: NotesFile<T>,
    read_back: Result<Bundle<T, S>, AppError>,
)
    requires
        holds_entries(packed, bundle_entries(json, document_bytes(bundle.document))),
        notes.format == FORMAT,
        notes.page == bundle.page,
        notes.sheet == bundle.sheet,
        maybe_text(notes.document) == (match bundle.document {
            Some(document) => Some(document.name@),
            None => None,
        }),
        notes.layout@ == bundle.layout@,
        page_lines(notes.pages@) == finished_lines(page_ink(bundle.pages@)),
        bundle_read(read_back, path, packed, notes),
    ensures
        notes_found(path, packed, ": it was not written by this app"@) == Ok::<
            Seq<u8>,
            Seq<char>,
        >(json),
        read_back matches Ok(again) && document_view(again.document) == document_view(
            bundle.document,
        ) && again.page == bundle.page && again.sheet == bundle.sheet && again.layout@
            == bundle.layout@ && finished_lines(page_ink(again.pages@)) == finished_lines(
            page_ink(bundle.pages@),
        ),
{
    bundle_names_are_good();
    let entries = bundle_entries(json, document_bytes(bundle.document));
    assert(entries[0] == (NOTES_ENTRY@, json, true));
    if bundle.document is Some {
        assert(entries[1] == (DOCUMENT_ENTRY@, bundle.document->0.bytes@, false));
    } else {
        assert(is_fresh(entries, DOCUMENT_ENTRY@));
    }
    let lines = page_lines(notes.pages@);
    assert(finished_lines(inked::<T, S>(lines)) =~= lines);
}

// ---------------------------------------------------------------------------------------------
// What a bundle promises
// ---------------------------------------------------------------------------------------------

/// What is written of a note is its ink, page by page under each page's own number: the finished strokes and
/// nothing that was taken back.
pub proof fn notes_hold_the_ink_of_each_page<T, S>(
    notes: Seq<PageFile<T>>,
    pages: Seq<InkedPage<T, S>>,
    i: int,
)
    requires
        page_lines(notes) == finished_lines(page_ink(pages)),
        0 <= i < pages.len(),
    ensures
        notes.len() == pages.len(),
        notes[i].page == pages[i].page,
        lines_of(notes[i].strokes@) == pages[i].ink@.finished,
{
    assert(page_lines(notes).len() == notes.len());
    assert(page_lines(notes)[i] == finished_lines(page_ink(pages))[i]);
}

/// What is read of a note is the ink that was written, page by page under each page's own number, with nothing
/// taken back and nothing under the nib. The document, the sheet, the list of pages and the open page come with
/// it; a note of a newer format is refused, and so is one whose document cannot be read.
pub proof fn a_read_note_holds_the_ink<T, S>(
    result: Result<Bundle<T, S>, AppError>,
    path: Seq<char>,
    archive: Seq<u8>,
    notes: NotesFile<T>,
    i: int,
)
    requires
        bundle_read(result, path, archive, notes),
    ensures
        notes.format > 2 ==> result is Err,
        notes.format <= 2 && zip_named_here(archive, "document.pdf"@) is None ==> result is Ok
            && result->Ok_0.document is None,
        zip_named_here(archive, "document.pdf"@) matches Some(Err(_)) ==> result is Err,
        notes.format <= 2 ==> (zip_named_here(archive, "document.pdf"@) matches Some(Ok(bytes)) ==> (
        result is Ok && result->Ok_0.document is Some && result->Ok_0.document->0.bytes@ == bytes && (
        notes.document matches Some(name) ==> result->Ok_0.document->0.name@ == name@))),
        result matches Ok(bundle) ==> {
            &&& bundle.pages@.len() == notes.pages@.len()
            &&& bundle.page == notes.page
            &&& bundle.sheet == notes.sheet
            &&& bundle.layout@ == notes.layout@
            &&& 0 <= i < notes.pages@.len() ==> {
                &&& bundle.pages@[i].page == notes.pages@[i].page
                &&& bundle.pages@[i].ink@.finished == lines_of(notes.pages@[i].strokes@)
                &&& bundle.pages@[i].ink@.undone.len() == 0
                &&& bundle.pages@[i].ink@.open is None
            }
        },
{
    if result is Ok {
        let bundle = result->Ok_0;
        assert(page_ink(bundle.pages@).len() == bundle.pages@.len());
        if 0 <= i < notes.pages@.len() {
            assert(page_ink(bundle.pages@)[i] == inked::<T, S>(page_lines(notes.pages@))[i]);
        }
    }
}

/// A bundle holds the notes under one name, deflated, and the document under another, as it is, where there is
/// one; and nothing else.
pub proof fn a_bundle_holds_notes_and_document(notes: Seq<u8>, document: Seq<u8>)
    ensures
        bundle_entries(notes, None) == seq![("notes.json"@, notes, true)],
        bundle_entries(notes, Some(document)) == seq![
            ("notes.json"@, notes, true),
            ("document.pdf"@, document, false),
        ],
{
}

/// A document is called as it was saved; else after the file it is in, as a PDF; and else as a document.
pub proof fn a_document_keeps_its_name(path: Seq<char>, name: Seq<char>)
    ensures
        document_name_of(path, Some(name)) == name,
        name_in(path) == Some(name) ==> document_name_of(path, None) == stem_of_name(name) + ".pdf"@,
        name_in(path) is None ==> document_name_of(path, None) == "document.pdf"@,
{
}

/// A zip without notes is told apart from one whose notes cannot be read, and what can be read is answered as
/// it is.
pub proof fn notes_are_found_or_refused(
    result: Result<Vec<u8>, AppError>,
    path: Seq<char>,
    archive: Seq<u8>,
    foreign: Seq<char>,
)
    requires
        answers(result, notes_found(path, archive, foreign)),
    ensures
        zip_named_here(archive, "notes.json"@) is None ==> refused(
            result,
            path + " is a zip file, but it holds no notes.json"@ + foreign,
        ),
        zip_named_here(archive, "notes.json"@) matches Some(Err(error)) ==> refused(
            result,
            "the ink in "@ + path + " is not valid: "@ + error,
        ),
        zip_named_here(archive, "notes.json"@) matches Some(Ok(bytes)) ==> result is Ok
            && result->Ok_0@ == bytes,
{
}

/// What is said of a note that is newer than this application names both formats, and what is said of a
/// document that cannot be read names its note.
pub proof fn a_refused_bundle_says_why(
    path: Seq<char>,
    format: nat,
    does: Seq<char>,
    archive: Seq<u8>,
    saved: Option<Seq<char>>,
)
    ensures
        newer_text(path, format, does) == path
            + " was written by a newer version of this app (note format "@ + decimal_text(format)
            + ", this build "@ + does + " "@ + decimal_text(2) + ")"@,
        zip_named_here(archive, "document.pdf"@) matches Some(Err(error)) ==> document_found(
            path,
            archive,
            saved,
        ) == Err::<Option<(Seq<char>, Seq<u8>)>, Seq<char>>(
            "the document in "@ + path + " could not be read: "@ + error,
        ),
{
}

/// A document that may be missing is its name and its bytes, where there is one.
pub proof fn a_document_is_its_name_and_bytes(document: Option<Document>)
    ensures
        document is None ==> document_view(document) is None && document_bytes(document) is None,
        document matches Some(found) ==> document_view(document) == Some((found.name@, found.bytes@))
            && document_bytes(document) == Some(found.bytes@),
{
}

/// Ink that cannot be read is refused with the file it stands in and the reason.
pub proof fn unread_ink_is_named(path: Seq<char>, error: Seq<char>)
    ensures
        invalid_text(path, error) == "the ink in "@ + path + " is not valid: "@ + error,
{
}

} // verus!
