//! A note as a folder, and the single file it is carried in.
//!
//! The folder is what is written in: a database with the ink, the document beside it, and whatever
//! else the note carries. The zip is what moves: a complete copy of the database, the document and the
//! attachments. Which of the two a path is, what an archive unpacks to and what is packed into one are
//! decided here; files are read and written by the caller.

use crate::archive::{entries_of, fits, pack as pack_parcels, refused_with, Archive, Parcel};
use crate::bundle::{page_lines, Document};
use crate::error::{refused, AppError};
use crate::ink::{lines_of, Line, Stroke};
use crate::legacy::Note as OldNote;
use crate::names::{ascii_lowered, extension, extension_in, file_label, file_label_of, to_ascii_lower};
use crate::pages::Page;
use crate::paths::{file_name, is_drive_letter, is_separator, name_in, pieces_of};
use crate::recent::SheetBits;
use crate::text::{chars_of, same_text};
use crate::walk::{slashed, with_slashes};
use crate::zips::{
    are_files, entry_view, holds_entries, is_ordinary, is_plain, parts_are_its_own, resolved,
    texts, zip_count_here, zip_entry_here, zip_named_here, Entry, Method,
};
use vstd::prelude::*;

verus! {

/// The database inside a note folder.
pub const NOTE_DB: &'static str = "note.db";

/// The document inside a note folder, whatever it was called when it arrived.
pub const NOTE_PDF: &'static str = "source.pdf";

/// The folder inside a note folder that holds anything else the note carries.
pub const ATTACHMENTS: &'static str = "attachments";

/// The file an export is copied into before it is packed.
pub const EXPORT_TMP: &'static str = "export.tmp.db";

// ---------------------------------------------------------------------------------------------
// Placing a note
// ---------------------------------------------------------------------------------------------

/// How a note is placed out of what was chosen.
#[derive(Clone, Copy, Debug, PartialEq, Eq, Structural)]
pub enum Placing {
    /// A folder is opened where it stands.
    Open,
    /// A zip is unpacked over the working copy.
    Unpack,
    /// A PDF starts a new note written on it.
    Start,
}

/// Decides how a note is placed, by what the source is rather than by a menu of commands.
pub fn placed_from(source: &str, is_folder: bool) -> (result: Result<Placing, AppError>)
    ensures
        ({
            let extension = extension_in(source@);
            let is_zip = extension is Some && ascii_lowered(extension->0) == "zip"@;
            let is_pdf = extension is Some && ascii_lowered(extension->0) == "pdf"@;
            if is_folder {
                result == Ok::<Placing, AppError>(Placing::Open)
            } else if is_zip {
                result == Ok::<Placing, AppError>(Placing::Unpack)
            } else if is_pdf {
                result == Ok::<Placing, AppError>(Placing::Start)
            } else {
                refused(result, source@ + " is neither a note, a note zip, nor a PDF"@)
            }
        }),
{
    if is_folder {
        return Ok(Placing::Open);
    }
    match extension(source) {
        Some(extension) => {
            let lower: String = to_ascii_lower(extension.as_str());
            if same_text(lower.as_str(), "zip") {
                return Ok(Placing::Unpack);
            }
            if same_text(lower.as_str(), "pdf") {
                return Ok(Placing::Start);
            }
        },
        None => {},
    }
    Err(
        AppError::Note(
            String::from_str(source).concat(" is neither a note, a note zip, nor a PDF"),
        ),
    )
}

/// The name a document copied into a note is remembered under: the file's own.
pub fn document_label(from: &str) -> (name: String)
    ensures
        name@ == (match name_in(from@) {
            Some(name) => name,
            None => NOTE_PDF@,
        }),
{
    match file_name(from) {
        Some(name) => name,
        None => String::from_str(NOTE_PDF),
    }
}

// ---------------------------------------------------------------------------------------------
// Unpacking
// ---------------------------------------------------------------------------------------------

/// One thing to put in a note folder.
#[derive(Debug)]
pub enum Step {
    /// A folder, by the parts of its path.
    Folder {
        /// The parts of its path inside the note folder.
        parts: Vec<String>,
    },
    /// A file.
    File {
        /// The parts of its path inside the note folder.
        parts: Vec<String>,
        /// What it holds.
        bytes: Vec<u8>,
    },
}

/// What an archive unpacks to: what to put in the note folder, in order, and what stopped it.
#[derive(Debug)]
pub struct Unpacking {
    /// What to put in the note folder.
    pub steps: Vec<Step>,
    /// Why the rest of the archive is not unpacked.
    pub failure: Option<AppError>,
}

/// What an archive turned out to be.
#[derive(Debug)]
pub enum Unpacked {
    /// It has no database: an old note, to be moved into a store.
    Migrate,
    /// A note.
    Note(Unpacking),
}

/// Whether one part of a path names something in the folder it is looked up in, and nothing else: it
/// leads neither up nor through a folder, and names no drive.
pub open spec fn stays_inside(part: Seq<char>) -> bool {
    &&& part.len() > 0
    &&& part != seq!['.']
    &&& part != seq!['.', '.']
    &&& forall|i: int| 0 <= i < part.len() ==> !is_separator(#[trigger] part[i])
    &&& !(part.len() > 1 && part[1] == ':' && is_drive_letter(part[0]))
}

/// Whether a path stays inside the folder it is looked up in, part by part.
pub open spec fn leads_inside(parts: Seq<Seq<char>>) -> bool {
    forall|i: int| 0 <= i < parts.len() ==> stays_inside(#[trigger] parts[i])
}

/// Whether there is a path, and it stays inside.
pub open spec fn has_place(parts: Option<Vec<String>>) -> bool {
    parts matches Some(parts) && leads_inside(texts(parts@))
}

/// Whether one part of a path names something in the folder it is looked up in.
fn part_stays_inside(part: &str) -> (inside: bool)
    ensures
        inside == stays_inside(part@),
{
    let chars: Vec<char> = chars_of(part);
    if chars.len() == 0 {
        return false;
    }
    if chars.len() == 1 && chars[0] == '.' {
        assert(part@ =~= seq!['.']);
        return false;
    }
    if chars.len() == 2 && chars[0] == '.' && chars[1] == '.' {
        assert(part@ =~= seq!['.', '.']);
        return false;
    }
    if chars.len() > 1 && chars[1] == ':' && (('a' <= chars[0] && chars[0] <= 'z') || ('A'
        <= chars[0] && chars[0] <= 'Z')) {
        return false;
    }
    let mut i: usize = 0;
    while i < chars.len()
        invariant
            i <= chars@.len(),
            chars@ == part@,
            forall|j: int| 0 <= j < i ==> !is_separator(#[trigger] part@[j]),
        decreases chars@.len() - i,
    {
        if chars[i] == '/' || chars[i] == '\\' {
            assert(is_separator(part@[i as int]));
            return false;
        }
        i = i + 1;
    }
    assert(part@ != seq!['.']) by {
        assert(part@.len() == 1 ==> part@[0] != seq!['.'][0]);
    }
    assert(part@ != seq!['.', '.']) by {
        assert(part@.len() == 2 ==> part@[0] != seq!['.', '.'][0] || part@[1] != seq!['.', '.'][1]);
    }
    true
}

/// Whether a path stays inside the folder it is looked up in, part by part.
fn path_leads_inside(parts: &Vec<String>) -> (inside: bool)
    ensures
        inside == leads_inside(texts(parts@)),
{
    let mut i: usize = 0;
    while i < parts.len()
        invariant
            i <= parts@.len(),
            forall|j: int| 0 <= j < i ==> stays_inside(#[trigger] texts(parts@)[j]),
        decreases parts@.len() - i,
    {
        assert(texts(parts@)[i as int] == parts@[i as int]@);
        if !part_stays_inside(parts[i].as_str()) {
            return false;
        }
        i = i + 1;
    }
    true
}

/// Whether there is a path, and it stays inside.
fn path_has_place(parts: &Option<Vec<String>>) -> (inside: bool)
    ensures
        inside == has_place(*parts),
{
    match parts {
        Some(parts) => path_leads_inside(parts),
        None => false,
    }
}

/// The pieces of a name have no separators in them, and no character the name has not.
proof fn pieces_are_clean(name: Seq<char>)
    ensures
        pieces_of(name).len() > 0,
        forall|i: int, j: int|
            0 <= i < pieces_of(name).len() && 0 <= j < pieces_of(name)[i].len()
                ==> !is_separator(#[trigger] pieces_of(name)[i][j]) && name.contains(
                pieces_of(name)[i][j],
            ),
    decreases name.len(),
{
    if name.len() > 0 {
        let shorter = name.drop_last();
        let before = pieces_of(shorter);
        let pieces = pieces_of(name);
        pieces_are_clean(shorter);
        assert forall|i: int, j: int|
            0 <= i < pieces.len() && 0 <= j < pieces[i].len() implies !is_separator(
            #[trigger] pieces[i][j],
        ) && name.contains(pieces[i][j]) by {
            if i < before.len() && j < before[i].len() {
                let c = before[i][j];
                assert(pieces[i][j] == c);
                assert(!is_separator(c) && shorter.contains(c));
                let k = choose|k: int| 0 <= k < shorter.len() && shorter[k] == c;
                assert(name[k] == c);
            } else {
                assert(pieces[i][j] == name[name.len() - 1]);
            }
        }
    }
}

/// Where clean pieces lead, every part stays inside.
proof fn resolving_stays_inside(pieces: Seq<Seq<char>>)
    requires
        forall|i: int, j: int|
            0 <= i < pieces.len() && 0 <= j < pieces[i].len() ==> !is_separator(
                #[trigger] pieces[i][j],
            ) && pieces[i][j] != ':',
    ensures
        resolved(pieces) matches Some(parts) ==> leads_inside(parts),
    decreases pieces.len(),
{
    if pieces.len() > 0 {
        let shorter = pieces.drop_last();
        assert forall|i: int, j: int|
            0 <= i < shorter.len() && 0 <= j < shorter[i].len() implies !is_separator(
            #[trigger] shorter[i][j],
        ) && shorter[i][j] != ':' by {
            assert(shorter[i][j] == pieces[i][j]);
        }
        resolving_stays_inside(shorter);
        let last = pieces.last();
        assert forall|j: int| 0 <= j < last.len() implies !is_separator(#[trigger] last[j])
            && last[j] != ':' by {
            assert(last[j] == pieces[pieces.len() - 1][j]);
        }
    }
}

/// A name that every system reads alike leads inside, or nowhere.
proof fn ordinary_names_lead_inside(name: Seq<char>)
    requires
        is_ordinary(name),
    ensures
        resolved(pieces_of(name)) matches Some(parts) ==> leads_inside(parts),
{
    pieces_are_clean(name);
    let pieces = pieces_of(name);
    assert forall|i: int, j: int|
        0 <= i < pieces.len() && 0 <= j < pieces[i].len() implies !is_separator(
        #[trigger] pieces[i][j],
    ) && pieces[i][j] != ':' by {
        assert(name.contains(pieces[i][j]));
    }
    resolving_stays_inside(pieces);
}

/// Whether a path stays inside, and is where a name leads that every system reads alike.
pub open spec fn parts_fit(parts: Seq<String>, name: Seq<char>) -> bool {
    &&& leads_inside(texts(parts))
    &&& is_ordinary(name) ==> resolved(pieces_of(name)) == Some(texts(parts))
}

/// Whether a step is what an entry becomes.
pub open spec fn step_is(
    step: Step,
    entry: Result<(Seq<char>, bool, Result<Seq<u8>, Seq<char>>), Seq<char>>,
) -> bool {
    match step {
        Step::Folder { parts } => entry matches Ok(entry) && entry.1 && parts_fit(parts@, entry.0),
        Step::File { parts, bytes } => entry matches Ok(entry) && !entry.1 && entry.2 == Ok::<
            Seq<u8>,
            Seq<char>,
        >(bytes@) && parts_fit(parts@, entry.0),
    }
}

/// Why an entry that leads outside the note is refused.
pub open spec fn outside_text(source: Seq<char>, name: Seq<char>) -> Seq<char> {
    source + " holds an entry that points outside the note: "@ + name
}

/// Whether an error is what an entry that cannot be unpacked is refused with: it could not be opened,
/// it leads outside the note, or it could not be read.
pub open spec fn failure_is(
    error: AppError,
    source: Seq<char>,
    entry: Result<(Seq<char>, bool, Result<Seq<u8>, Seq<char>>), Seq<char>>,
) -> bool {
    error matches AppError::Note(said) && match entry {
        Err(complaint) => said@ == source + " holds an entry it could not open: "@ + complaint,
        Ok(entry) => {
            ||| said@ == outside_text(source, entry.0) && (is_ordinary(entry.0) ==> resolved(
                pieces_of(entry.0),
            ) is None)
            ||| !entry.1 && (entry.2 matches Err(complaint) && said@ == source
                + " could not be read: "@ + complaint)
        },
    }
}

/// What one entry of an archive becomes.
///
/// An entry that leads outside the note is refused rather than written: that is the one way a note
/// from someone else could write outside its folder.
pub fn unpack_entry(source: &str, entry: Result<Entry, String>) -> (result: Result<Step, AppError>)
    ensures
        match entry {
            Err(complaint) => refused(
                result,
                source@ + " holds an entry it could not open: "@ + complaint@,
            ),
            Ok(entry) => if !has_place(entry.parts) {
                refused(result, outside_text(source@, entry.name@))
            } else if entry.is_folder {
                result == Ok::<Step, AppError>(Step::Folder { parts: entry.parts->0 })
            } else {
                match entry.content {
                    Ok(bytes) => result == Ok::<Step, AppError>(
                        Step::File { parts: entry.parts->0, bytes },
                    ),
                    Err(complaint) => refused(
                        result,
                        source@ + " could not be read: "@ + complaint@,
                    ),
                }
            },
        },
        parts_are_its_own(entry) ==> match result {
            Ok(step) => step_is(step, entry_view(entry)),
            Err(error) => failure_is(error, source@, entry_view(entry)),
        },
{
    let entry: Entry = match entry {
        Err(complaint) => {
            return Err(
                AppError::Note(
                    String::from_str(source).concat(" holds an entry it could not open: ").concat(
                        complaint.as_str(),
                    ),
                ),
            );
        },
        Ok(entry) => entry,
    };
    proof {
        if is_ordinary(entry.name@) {
            ordinary_names_lead_inside(entry.name@);
        }
    }
    let inside: bool = path_has_place(&entry.parts);
    match entry.parts {
        Some(parts) if inside => if entry.is_folder {
            Ok(Step::Folder { parts })
        } else {
            match entry.content {
                Ok(bytes) => Ok(Step::File { parts, bytes }),
                Err(complaint) => Err(
                    AppError::Note(
                        String::from_str(source).concat(" could not be read: ").concat(
                            complaint.as_str(),
                        ),
                    ),
                ),
            }
        },
        _ => Err(
            AppError::Note(
                String::from_str(source).concat(
                    " holds an entry that points outside the note: ",
                ).concat(entry.name.as_str()),
            ),
        ),
    }
}

/// Whether an unpacking is what an archive unpacks to: one step per entry, up to the first that
/// cannot be unpacked.
pub open spec fn unpacking_is(unpacking: Unpacking, source: Seq<char>, archive: Seq<u8>) -> bool {
    let done = unpacking.steps@.len();
    &&& done <= zip_count_here(archive)
    &&& forall|i: int|
        0 <= i < done ==> step_is(#[trigger] unpacking.steps@[i], zip_entry_here(archive, i as nat))
    &&& match unpacking.failure {
        None => done == zip_count_here(archive),
        Some(error) => done < zip_count_here(archive) && failure_is(
            error,
            source,
            zip_entry_here(archive, done),
        ),
    }
}

/// What an archive unpacks to.
///
/// An archive with no database is an old note; the database is the note, so every other one has it.
pub fn unpack(source: &str, archive: &mut Archive) -> (unpacked: Unpacked)
    ensures
        final(archive)@ == old(archive)@,
        unpacked is Migrate <==> zip_named_here(old(archive)@, NOTE_DB@) is None,
        unpacked matches Unpacked::Note(unpacking) ==> unpacking_is(
            unpacking,
            source@,
            old(archive)@,
        ),
{
    if archive.named(NOTE_DB).is_none() {
        return Unpacked::Migrate;
    }
    let count: usize = archive.len();
    let mut steps: Vec<Step> = Vec::new();
    let mut index: usize = 0;
    let ghost bytes = archive@;
    while index < count
        invariant
            archive@ == bytes,
            bytes == old(archive)@,
            index <= count,
            count == zip_count_here(bytes),
            steps@.len() == index,
            zip_named_here(bytes, NOTE_DB@) is Some,
            forall|i: int|
                0 <= i < index ==> step_is(#[trigger] steps@[i], zip_entry_here(bytes, i as nat)),
        decreases count - index,
    {
        match unpack_entry(source, archive.entry(index)) {
            Ok(step) => {
                steps.push(step);
            },
            Err(error) => {
                return Unpacked::Note(Unpacking { steps, failure: Some(error) });
            },
        }
        index = index + 1;
    }
    Unpacked::Note(Unpacking { steps, failure: None })
}

// ---------------------------------------------------------------------------------------------
// Filling a store
// ---------------------------------------------------------------------------------------------

/// One thing to do to a store that is being filled.
#[derive(Debug)]
pub enum StoreStep<T> {
    /// Write a page as chunks.
    Rewrite {
        /// The page.
        page: usize,
        /// Its ink.
        strokes: Vec<Stroke<T>>,
    },
    /// Put a document beside it, and remember the name it had.
    PutDocument(Document),
    /// Remember the sheet the ink was written on.
    SetSheet(Option<SheetBits>),
    /// Remember what each page shows.
    SetLayout(Vec<Page>),
    /// Remember which page is open.
    SetOpenPage(usize),
    /// Fold the write-ahead log back into the file.
    Checkpoint,
}

/// What a step does, mathematically.
pub ghost enum Fill<T> {
    Rewrite(usize, Seq<Line<T>>),
    PutDocument(Seq<char>, Seq<u8>),
    SetSheet(Option<SheetBits>),
    SetLayout(Seq<Page>),
    SetOpenPage(usize),
    Checkpoint,
}

impl<T> View for StoreStep<T> {
    type V = Fill<T>;

    open spec fn view(&self) -> Fill<T> {
        match *self {
            StoreStep::Rewrite { page, strokes } => Fill::Rewrite(page, lines_of(strokes@)),
            StoreStep::PutDocument(document) => Fill::PutDocument(
                document.name@,
                document.bytes@,
            ),
            StoreStep::SetSheet(sheet) => Fill::SetSheet(sheet),
            StoreStep::SetLayout(layout) => Fill::SetLayout(layout@),
            StoreStep::SetOpenPage(page) => Fill::SetOpenPage(page),
            StoreStep::Checkpoint => Fill::Checkpoint,
        }
    }
}

/// What some steps do, in order.
pub open spec fn fills<T>(steps: Seq<StoreStep<T>>) -> Seq<Fill<T>> {
    Seq::new(steps.len(), |i: int| steps[i]@)
}

/// What the pages of an old note are written as.
pub open spec fn page_fills<T>(pages: Seq<(usize, Seq<Line<T>>)>) -> Seq<Fill<T>> {
    Seq::new(pages.len(), |i: int| Fill::Rewrite(pages[i].0, pages[i].1))
}

/// How an old note becomes a store: every page as chunks, at once, then the document and what the
/// note remembers about itself.
pub open spec fn migration_of<T>(old: OldNote<T>) -> Seq<Fill<T>> {
    page_fills(page_lines(old.pages@)) + (match old.document {
        Some(document) => seq![Fill::<T>::PutDocument(document.name@, document.bytes@)],
        None => seq![],
    }) + seq![
        Fill::SetSheet(old.sheet),
        Fill::SetLayout(old.layout@),
        Fill::SetOpenPage(old.page),
        Fill::Checkpoint,
    ]
}

/// How an old note becomes a store.
///
/// It is the shape of a save with the later taken out: the ink is written as chunks at once rather
/// than left to be folded.
pub fn migrate<T>(old: OldNote<T>) -> (steps: Vec<StoreStep<T>>)
    ensures
        fills(steps@) == migration_of(old),
{
    let ghost wanted = page_fills(page_lines(old.pages@));
    let mut steps: Vec<StoreStep<T>> = Vec::new();
    for file in iter: old.pages
        invariant
            iter.seq() == old.pages@,
            wanted == page_fills(page_lines(old.pages@)),
            fills(steps@) == wanted.take(iter.index()),
    {
        let ghost held = steps@;
        steps.push(StoreStep::Rewrite { page: file.page, strokes: file.strokes });
        assert(file == old.pages@[iter.index() as int]);
        assert(fills(held).len() == held.len());
        assert(fills(steps@) =~= fills(held).push(wanted[iter.index() as int]));
        assert(wanted.take(iter.index() + 1) =~= wanted.take(iter.index() as int).push(
            wanted[iter.index() as int],
        ));
    }
    assert(wanted.take(wanted.len() as int) =~= wanted);
    let ghost filled = steps@;
    match old.document {
        Some(document) => {
            steps.push(StoreStep::PutDocument(document));
        },
        None => {},
    }
    steps.push(StoreStep::SetSheet(old.sheet));
    steps.push(StoreStep::SetLayout(old.layout));
    steps.push(StoreStep::SetOpenPage(old.page));
    steps.push(StoreStep::Checkpoint);
    assert(fills(steps@) =~= migration_of(old));
    steps
}

/// How a note is started on a document: the document is put beside the store, and the ink starts
/// empty.
pub fn start_on_document<T>(from: &str, bytes: Vec<u8>) -> (steps: Vec<StoreStep<T>>)
    ensures
        fills(steps@) == seq![
            Fill::<T>::PutDocument(
                match name_in(from@) {
                    Some(name) => name,
                    None => NOTE_PDF@,
                },
                bytes@,
            ),
            Fill::Checkpoint,
        ],
{
    let mut steps: Vec<StoreStep<T>> = Vec::new();
    steps.push(StoreStep::PutDocument(Document { name: document_label(from), bytes }));
    steps.push(StoreStep::Checkpoint);
    assert(fills(steps@) =~= seq![
        Fill::<T>::PutDocument(
            match name_in(from@) {
                Some(name) => name,
                None => NOTE_PDF@,
            },
            bytes@,
        ),
        Fill::Checkpoint,
    ]);
    steps
}

// ---------------------------------------------------------------------------------------------
// Packing
// ---------------------------------------------------------------------------------------------

/// A file beside the document that a note carries.
#[derive(Debug)]
pub struct Attachment {
    /// Its path inside the attachments folder.
    pub name: String,
    /// What it holds.
    pub bytes: Vec<u8>,
}

/// The name an attachment is listed under in an archive.
pub open spec fn attachment_entry_of(relative: Seq<char>) -> Seq<char> {
    ATTACHMENTS@.push('/') + with_slashes(relative)
}

/// The name an attachment is listed under in an archive, from its path in the attachments folder.
pub fn attachment_entry(relative: &str) -> (name: String)
    ensures
        name@ == attachment_entry_of(relative@),
{
    let mut name: String = String::from_str(ATTACHMENTS);
    name.push('/');
    name.concat(slashed(relative).as_str())
}

/// The entries of the attachments of a note.
pub open spec fn attachment_entries(attachments: Seq<Attachment>) -> Seq<
    (Seq<char>, Seq<u8>, bool),
> {
    Seq::new(
        attachments.len(),
        |i: int| (attachment_entry_of(attachments[i].name@), attachments[i].bytes@, true),
    )
}

/// The entries of a note: the database, the document where there is one, and the attachments.
pub open spec fn note_entries(
    database: Seq<u8>,
    document: Option<Seq<u8>>,
    attachments: Seq<Attachment>,
) -> Seq<(Seq<char>, Seq<u8>, bool)> {
    (match document {
        Some(bytes) => seq![(NOTE_DB@, database, false), (NOTE_PDF@, bytes, false)],
        None => seq![(NOTE_DB@, database, false)],
    }) + attachment_entries(attachments)
}

/// A document's bytes that may be missing.
pub open spec fn maybe_bytes(bytes: Option<Vec<u8>>) -> Option<Seq<u8>> {
    match bytes {
        Some(bytes) => Some(bytes@),
        None => None,
    }
}

/// What the file a note is carried in is packed from.
///
/// The database and the document are stored rather than deflated: both are compressed already.
/// Attachments are deflated, because an attachment is whatever was put there.
pub fn parcels(
    database: Vec<u8>,
    document: Option<Vec<u8>>,
    attachments: Vec<Attachment>,
) -> (parcels: Vec<Parcel>)
    ensures
        entries_of(parcels@) == note_entries(database@, maybe_bytes(document), attachments@),
        forall|i: int| 0 <= i < parcels@.len() ==> (#[trigger] parcels@[i]).what@ == "the note"@,
{
    let ghost entries = note_entries(database@, maybe_bytes(document), attachments@);
    let mut parcels: Vec<Parcel> = Vec::new();
    parcels.push(
        Parcel {
            name: String::from_str(NOTE_DB),
            bytes: database,
            method: Method::Stored,
            what: String::from_str("the note"),
        },
    );
    match document {
        Some(bytes) => {
            parcels.push(
                Parcel {
                    name: String::from_str(NOTE_PDF),
                    bytes,
                    method: Method::Stored,
                    what: String::from_str("the note"),
                },
            );
        },
        None => {},
    }
    let ghost first = entries_of(parcels@);
    assert(first + attachment_entries(attachments@) =~= entries);
    let ghost rest = attachment_entries(attachments@);
    assert(rest.take(0) =~= Seq::<(Seq<char>, Seq<u8>, bool)>::empty());
    assert(first + rest.take(0) =~= first);
    for attachment in iter: attachments
        invariant
            iter.seq() == attachments@,
            rest == attachment_entries(attachments@),
            entries_of(parcels@) == first + rest.take(iter.index()),
            forall|i: int| 0 <= i < parcels@.len() ==> (#[trigger] parcels@[i]).what@ == "the note"@,
    {
        let ghost held = parcels@;
        parcels.push(
            Parcel {
                name: attachment_entry(attachment.name.as_str()),
                bytes: attachment.bytes,
                method: Method::Deflated,
                what: String::from_str("the note"),
            },
        );
        assert(entries_of(held).len() == held.len());
        assert(entries_of(parcels@) =~= entries_of(held).push(rest[iter.index() as int]));
        assert(first + rest.take(iter.index() + 1) =~= (first + rest.take(
            iter.index() as int,
        )).push(rest[iter.index() as int]));
    }
    assert(rest.take(rest.len() as int) =~= rest);
    parcels
}

/// The bytes of the file a note is carried in, from what its folder holds.
pub fn pack(
    target: &str,
    database: Vec<u8>,
    document: Option<Vec<u8>>,
    attachments: Vec<Attachment>,
) -> (result: Result<Vec<u8>, AppError>)
    ensures
        ({
            let entries = note_entries(database@, maybe_bytes(document), attachments@);
            &&& result matches Ok(bytes) ==> are_files(entries) && is_plain(bytes@, entries)
                ==> holds_entries(bytes@, entries)
            &&& fits(entries) ==> result is Ok
        }),
        result is Err ==> refused_with(result, "the note could not be written: "@) || refused_with(
            result,
            target@ + " could not be closed: "@,
        ),
{
    let parcels: Vec<Parcel> = parcels(database, document, attachments);
    proof {
        reveal_strlit("the note");
        reveal_strlit(" could not be written: ");
        reveal_strlit("the note could not be written: ");
        assert("the note"@ + " could not be written: "@ =~= "the note could not be written: "@);
    }
    pack_parcels(target, &parcels)
}

// ---------------------------------------------------------------------------------------------
// What travels
// ---------------------------------------------------------------------------------------------

/// Whether a step writes a file of this path and content.
pub open spec fn writes_file(step: Step, path: Seq<Seq<char>>, content: Seq<u8>) -> bool {
    step matches Step::File { parts, bytes } && texts(parts@) == path && bytes@ == content
}

/// The paths of a note's files inside its folder, in the order they are packed.
pub open spec fn note_paths(document: bool, attachments: Seq<Seq<Seq<char>>>) -> Seq<
    Seq<Seq<char>>,
> {
    (if document {
        seq![seq![NOTE_DB@], seq![NOTE_PDF@]]
    } else {
        seq![seq![NOTE_DB@]]
    }) + Seq::new(attachments.len(), |i: int| seq![ATTACHMENTS@] + attachments[i])
}

/// Whether a part of a path is the name of a file or folder, on any system: not empty, not a way up or
/// nowhere, and with no separator, colon, NUL or bell in it.
pub open spec fn is_name(part: Seq<char>) -> bool {
    &&& part.len() > 0
    &&& part != seq!['.']
    &&& part != seq!['.', '.']
    &&& forall|i: int|
        0 <= i < part.len() ==> !is_separator(#[trigger] part[i]) && part[i] != ':' && part[i]
            != '\0' && part[i] != '\u{7}'
}

/// Whether there are parts, and all of them are names.
pub open spec fn are_names(parts: Seq<Seq<char>>) -> bool {
    parts.len() > 0 && forall|i: int| 0 <= i < parts.len() ==> is_name(#[trigger] parts[i])
}

/// Parts joined with slashes.
pub open spec fn joined(parts: Seq<Seq<char>>) -> Seq<char>
    decreases parts.len(),
{
    if parts.len() == 0 {
        seq![]
    } else if parts.len() == 1 {
        parts[0]
    } else {
        joined(parts.drop_last()).push('/') + parts.last()
    }
}

/// The names of a note's own files are names.
proof fn own_names_are_names()
    ensures
        is_name(NOTE_DB@),
        is_name(NOTE_PDF@),
        is_name(ATTACHMENTS@),
        NOTE_DB@.len() <= 11,
        NOTE_PDF@.len() <= 11,
        ATTACHMENTS@.len() <= 11,
{
    reveal_strlit("note.db");
    reveal_strlit("source.pdf");
    reveal_strlit("attachments");
    assert(NOTE_DB@.len() == 7 && NOTE_PDF@.len() == 10 && ATTACHMENTS@.len() == 11);
}

/// Joining parts after a first one puts that and a slash in front.
proof fn joining_after(first: Seq<char>, parts: Seq<Seq<char>>)
    requires
        parts.len() > 0,
    ensures
        joined(seq![first] + parts) == first.push('/') + joined(parts),
    decreases parts.len(),
{
    let all = seq![first] + parts;
    assert(all.drop_last() =~= seq![first] + parts.drop_last());
    assert(all.last() == parts.last());
    if parts.len() == 1 {
        assert(parts.drop_last() =~= Seq::<Seq<char>>::empty());
        assert(all.drop_last() =~= seq![first]);
        assert(joined(all.drop_last()) == first);
        assert(joined(parts) == parts[0]);
    } else {
        joining_after(first, parts.drop_last());
        assert((first.push('/') + joined(parts.drop_last())).push('/') + parts.last()
            =~= first.push('/') + (joined(parts.drop_last()).push('/') + parts.last()));
    }
}

/// A tail without separators goes to the last piece.
proof fn pieces_take_a_tail(name: Seq<char>, tail: Seq<char>)
    requires
        forall|i: int| 0 <= i < tail.len() ==> !is_separator(#[trigger] tail[i]),
    ensures
        pieces_of(name).len() > 0,
        pieces_of(name + tail) == pieces_of(name).drop_last().push(pieces_of(name).last() + tail),
    decreases tail.len(),
{
    pieces_are_clean(name);
    let pieces = pieces_of(name);
    if tail.len() == 0 {
        assert(name + tail =~= name);
        assert(pieces.last() + tail =~= pieces.last());
        assert(pieces.drop_last().push(pieces.last()) =~= pieces);
    } else {
        let shorter = tail.drop_last();
        pieces_take_a_tail(name, shorter);
        let all = name + tail;
        assert(all.drop_last() =~= name + shorter);
        assert(all.last() == tail.last());
        assert(!is_separator(tail[tail.len() - 1]));
        let before = pieces_of(name + shorter);
        assert(before.drop_last() =~= pieces.drop_last());
        assert((pieces.last() + shorter).push(tail.last()) =~= pieces.last() + tail);
    }
}

/// A path of names leads along those names.
proof fn names_lead_along(parts: Seq<Seq<char>>)
    requires
        are_names(parts),
    ensures
        is_ordinary(joined(parts)),
        !joined(parts).contains('\\'),
        !joined(parts).contains('\u{7}'),
        joined(parts).len() > 0 ==> !is_separator(joined(parts).last()),
        pieces_of(joined(parts)) == parts,
        resolved(parts) == Some(parts),
        joined(parts).len() > 0,
        joined(parts)[0] == parts[0][0],
    decreases parts.len(),
{
    let name = joined(parts);
    let last = parts.last();
    assert(is_name(parts[parts.len() - 1]));
    assert(resolved(Seq::<Seq<char>>::empty()) == Some(Seq::<Seq<char>>::empty()));
    if parts.len() == 1 {
        pieces_take_a_tail(Seq::empty(), last);
        assert(Seq::<char>::empty() + last =~= last);
        assert(pieces_of(Seq::empty()) =~= seq![Seq::<char>::empty()]);
        assert(pieces_of(name) =~= parts);
        assert(parts.drop_last() =~= Seq::<Seq<char>>::empty());
        assert(Seq::<Seq<char>>::empty().push(last) =~= parts);
    } else {
        let shorter = parts.drop_last();
        assert forall|i: int| 0 <= i < shorter.len() implies is_name(#[trigger] shorter[i]) by {
            assert(shorter[i] == parts[i]);
        }
        names_lead_along(shorter);
        let start = joined(shorter).push('/');
        assert(start.drop_last() =~= joined(shorter));
        assert(pieces_of(start) == shorter.push(Seq::empty()));
        pieces_take_a_tail(start, last);
        assert(shorter.push(Seq::<char>::empty()).drop_last() =~= shorter);
        assert(Seq::<char>::empty() + last =~= last);
        assert(shorter.push(last) =~= parts);
        assert forall|i: int| 0 <= i < name.len() implies name[i] != ':' && name[i] != '\0'
            && name[i] != '\\' && name[i] != '\u{7}' by {
            if i < joined(shorter).len() {
                assert(name[i] == joined(shorter)[i]);
                assert(joined(shorter).contains(name[i]));
            } else if i > joined(shorter).len() {
                assert(name[i] == last[i - joined(shorter).len() - 1]);
            }
        }
        assert(name[0] == joined(shorter)[0]);
    }
    assert(is_name(parts[0]));
    assert(!is_separator(parts[0][0]));
    assert(name.last() == last.last());
    assert(!is_separator(last[last.len() - 1]));
}

/// A note travels as one file and comes back whole: what its folder held is put back in its place,
/// byte for byte, and nothing else is.
///
/// The parts of an attachment's path are names on any system, since what becomes of a colon in one
/// depends on the system. An archive has its limits: a million files, but not just 65535, and paths of
/// 8000 characters are within them, and so is every file of less than four gigabytes; in a longer one
/// with more than two in one piece, the last name decides.
pub proof fn a_note_travels_as_one_file(
    source: Seq<char>,
    packed: Seq<u8>,
    database: Seq<u8>,
    document: Option<Seq<u8>>,
    attachments: Seq<Attachment>,
    paths: Seq<Seq<Seq<char>>>,
    unpacked: Unpacked,
)
    requires
        is_plain(packed, note_entries(database, document, attachments)),
        are_files(note_entries(database, document, attachments)) && is_plain(
            packed,
            note_entries(database, document, attachments),
        ) ==> holds_entries(packed, note_entries(database, document, attachments)),
        note_entries(database, document, attachments).len() <= 0xf_ffff,
        note_entries(database, document, attachments).len() != 0xffff,
        paths.len() == attachments.len(),
        forall|i: int|
            0 <= i < paths.len() ==> are_names(#[trigger] paths[i]) && attachments[i].name@
                == joined(paths[i]) && joined(paths[i]).len() <= 8000,
        unpacked is Migrate <==> zip_named_here(packed, NOTE_DB@) is None,
        unpacked matches Unpacked::Note(unpacking) ==> unpacking_is(unpacking, source, packed),
    ensures
        unpacked matches Unpacked::Note(unpacking) && unpacking.failure is None
            && unpacking.steps@.len() == note_entries(database, document, attachments).len()
            && forall|i: int|
            0 <= i < unpacking.steps@.len() ==> writes_file(
                #[trigger] unpacking.steps@[i],
                note_paths(document is Some, paths)[i],
                note_entries(database, document, attachments)[i].1,
            ),
{
    let entries = note_entries(database, document, attachments);
    let places = note_paths(document is Some, paths);
    assert(entries[0] == (NOTE_DB@, database, false));
    own_names_are_names();
    let own = if document is Some {
        2int
    } else {
        1
    };
    assert forall|i: int| 0 <= i < entries.len() implies is_ordinary((#[trigger] entries[i]).0)
        && resolved(pieces_of(entries[i].0)) == Some(places[i]) && 0 < entries[i].0.len() <= 8191
        && !is_separator(entries[i].0.last()) && !entries[i].0.contains('\u{7}') by {
        if i < own {
            assert(places[i] == seq![entries[i].0]);
            assert(are_names(places[i]));
            assert(joined(places[i]) == entries[i].0);
        } else {
            let path = paths[i - own];
            assert(are_names(path));
            assert(places[i] == seq![ATTACHMENTS@] + path);
            assert forall|j: int| 0 <= j < places[i].len() implies is_name(
                #[trigger] places[i][j],
            ) by {
                if j > 0 {
                    assert(places[i][j] == path[j - 1]);
                }
            }
            joining_after(ATTACHMENTS@, path);
            names_lead_along(path);
            let name = attachments[i - own].name@;
            assert forall|j: int| 0 <= j < name.len() implies with_slashes(name)[j] == name[j] by {
                assert(name.contains(name[j]));
            }
            assert(with_slashes(name) =~= name);
            assert(entries[i].0 == attachment_entry_of(name));
        }
        names_lead_along(places[i]);
    }
    match unpacked {
        Unpacked::Note(unpacking) => {
            let done = unpacking.steps@.len();
            if unpacking.failure is Some {
                assert(is_ordinary(entries[done as int].0));
                assert(zip_entry_here(packed, done) == Ok::<
                    (Seq<char>, bool, Result<Seq<u8>, Seq<char>>),
                    Seq<char>,
                >((entries[done as int].0, false, Ok(entries[done as int].1))));
                assert(false);
            }
            assert forall|i: int| 0 <= i < done implies writes_file(
                #[trigger] unpacking.steps@[i],
                places[i],
                entries[i].1,
            ) by {
                assert(step_is(unpacking.steps@[i], zip_entry_here(packed, i as nat)));
                assert(is_ordinary(entries[i].0));
            }
        },
        Unpacked::Migrate => {},
    }
}

/// Nothing an archive holds is put outside the note folder.
pub proof fn nothing_is_unpacked_outside(
    unpacking: Unpacking,
    source: Seq<char>,
    archive: Seq<u8>,
    step: int,
)
    requires
        unpacking_is(unpacking, source, archive),
        0 <= step < unpacking.steps@.len(),
    ensures
        match unpacking.steps@[step] {
            Step::Folder { parts } => leads_inside(texts(parts@)),
            Step::File { parts, .. } => leads_inside(texts(parts@)),
        },
{
    assert(step_is(unpacking.steps@[step], zip_entry_here(archive, step as nat)));
}

/// An archive is not unpacked past an entry whose name leads out of the note.
pub proof fn an_entry_that_leads_outside_is_refused(
    unpacking: Unpacking,
    source: Seq<char>,
    archive: Seq<u8>,
    index: nat,
    name: Seq<char>,
)
    requires
        unpacking_is(unpacking, source, archive),
        index < zip_count_here(archive),
        zip_entry_here(archive, index) matches Ok(entry) && entry.0 == name,
        is_ordinary(name),
        resolved(pieces_of(name)) is None,
    ensures
        unpacking.steps@.len() <= index,
        unpacking.failure is Some,
{
    if unpacking.steps@.len() > index {
        assert(step_is(unpacking.steps@[index as int], zip_entry_here(archive, index)));
    }
}

/// What once led out of a folder leads out of it for good.
proof fn leading_outside_is_final(pieces: Seq<Seq<char>>, n: int)
    requires
        0 <= n <= pieces.len(),
        resolved(pieces.take(n)) is None,
    ensures
        resolved(pieces) is None,
    decreases pieces.len(),
{
    if n == pieces.len() {
        assert(pieces.take(n) =~= pieces);
    } else {
        assert(pieces.drop_last().take(n) =~= pieces.take(n));
        leading_outside_is_final(pieces.drop_last(), n);
    }
}

/// A name that starts by going up leads out of the note.
pub proof fn going_up_first_leads_outside(name: Seq<char>)
    requires
        pieces_of(name)[0] == seq!['.', '.'],
    ensures
        resolved(pieces_of(name)) is None,
{
    pieces_are_clean(name);
    let pieces = pieces_of(name);
    let first = pieces.take(1);
    assert(first.drop_last() =~= Seq::<Seq<char>>::empty());
    assert(first.last() == seq!['.', '.']);
    assert(seq!['.', '.'].len() == 2 && seq!['.'].len() == 1);
    assert(resolved(Seq::<Seq<char>>::empty()) == Some(Seq::<Seq<char>>::empty()));
    assert(resolved(first) is None);
    leading_outside_is_final(pieces, 1);
}

// ---------------------------------------------------------------------------------------------
// Writing, elsewhere
// ---------------------------------------------------------------------------------------------

/// One thing for the writer of a note to do.
#[derive(Debug)]
pub enum Job<T> {
    /// Finished strokes to add to a page.
    Append {
        /// The page the ink belongs to.
        page: usize,
        /// The strokes, in the order they were drawn.
        strokes: Vec<Stroke<T>>,
    },
    /// A page to write again from scratch, because it was undone, erased or cleared.
    Rewrite {
        /// The page.
        page: usize,
        /// The ink it holds now.
        strokes: Vec<Stroke<T>>,
    },
    /// A page to fold into chunks, because it is being closed.
    Compact {
        /// The page.
        page: usize,
    },
    /// The write-ahead log to fold back into the note file.
    Checkpoint,
    /// The note to write out as one file, and to say so when it is done.
    Export {
        /// Where the file goes.
        target: String,
    },
}

/// What the writer of a note has to say when it is done.
#[derive(Debug)]
pub enum Report {
    /// A note was written out as one file.
    Written(String),
    /// Something did not work, in the words the status line will show.
    Failed(String),
}

/// What the status line says of a report.
pub fn report_message(report: &Report) -> (message: String)
    ensures
        message@ == (match *report {
            Report::Written(path) => "wrote "@ + file_label_of(path@),
            Report::Failed(reason) => reason@,
        }),
{
    match report {
        Report::Written(path) => String::from_str("wrote ").concat(
            file_label(path.as_str()).as_str(),
        ),
        Report::Failed(reason) => reason.clone(),
    }
}

// ---------------------------------------------------------------------------------------------
// What a note promises
// ---------------------------------------------------------------------------------------------

/// The ink a store holds once some steps were done to it, page by page.
pub open spec fn ink_after<T>(steps: Seq<StoreStep<T>>) -> Map<usize, Seq<Line<T>>>
    decreases steps.len(),
{
    if steps.len() == 0 {
        Map::empty()
    } else {
        let before = ink_after(steps.drop_last());
        match steps.last() {
            StoreStep::Rewrite { page, strokes } => before.insert(page, lines_of(strokes@)),
            _ => before,
        }
    }
}

/// Moving an old note into a store writes each of its pages, under its own number and with its own ink, in
/// their order; then the document where there is one, the sheet, the list of pages and the page that was open;
/// and then folds the log. Nothing else is written.
pub proof fn a_migrated_note_keeps_its_pages<T>(old: OldNote<T>, steps: Seq<StoreStep<T>>)
    requires
        fills(steps) == migration_of(old),
    ensures
        ({
            let pages = old.pages@;
            let count = pages.len() as int;
            let rest = count + (if old.document is Some {
                1int
            } else {
                0
            });
            &&& steps.len() == rest + 4
            &&& forall|i: int|
                0 <= i < count ==> (#[trigger] steps[i]) is Rewrite && steps[i]->page == pages[i].page
                    && lines_of(steps[i]->strokes@) == lines_of(pages[i].strokes@)
            &&& forall|i: int| count <= i < steps.len() ==> !((#[trigger] steps[i]) is Rewrite)
            &&& old.document matches Some(document) ==> (steps[count] matches StoreStep::PutDocument(
                put,
            ) && put.name@ == document.name@ && put.bytes@ == document.bytes@)
            &&& steps[rest] == StoreStep::<T>::SetSheet(old.sheet)
            &&& steps[rest + 1] matches StoreStep::SetLayout(layout) && layout@ == old.layout@
            &&& steps[rest + 2] == StoreStep::<T>::SetOpenPage(old.page)
            &&& steps[rest + 3] is Checkpoint
        }),
{
    let wanted = migration_of(old);
    let count = old.pages@.len() as int;
    assert(fills(steps).len() == steps.len());
    assert forall|i: int| 0 <= i < steps.len() implies #[trigger] steps[i]@ == wanted[i] by {
        assert(fills(steps)[i] == steps[i]@);
    }
    assert forall|i: int| 0 <= i < count implies (#[trigger] steps[i]) is Rewrite && steps[i]->page
        == old.pages@[i].page && lines_of(steps[i]->strokes@) == lines_of(old.pages@[i].strokes@) by {
        assert(steps[i]@ == wanted[i]);
        assert(wanted[i] == Fill::Rewrite(old.pages@[i].page, lines_of(old.pages@[i].strokes@)));
    }
    assert forall|i: int| count <= i < steps.len() implies !((#[trigger] steps[i]) is Rewrite) by {
        assert(steps[i]@ == wanted[i]);
        assert(!(wanted[i] is Rewrite));
    }
    let rest = count + (if old.document is Some {
        1int
    } else {
        0
    });
    assert(steps[rest]@ == wanted[rest]);
    assert(steps[rest + 1]@ == wanted[rest + 1]);
    assert(steps[rest + 2]@ == wanted[rest + 2]);
    assert(steps[rest + 3]@ == wanted[rest + 3]);
    if old.document is Some {
        assert(steps[count]@ == wanted[count]);
    }
}

/// A store an old note was moved into holds on each page the ink the old note held there, and no page more. Of
/// two pages of one number the later counts.
pub proof fn a_migrated_store_holds_the_ink<T>(old: OldNote<T>, steps: Seq<StoreStep<T>>, page: usize)
    requires
        fills(steps) == migration_of(old),
    ensures
        ink_after(steps).contains_key(page) <==> exists|i: int|
            0 <= i < old.pages@.len() && (#[trigger] old.pages@[i]).page == page,
        forall|i: int|
            0 <= i < old.pages@.len() && (#[trigger] old.pages@[i]).page == page && (forall|j: int|
                i < j < old.pages@.len() ==> (#[trigger] old.pages@[j]).page != page) ==> ink_after(
                steps,
            )[page] == lines_of(old.pages@[i].strokes@),
{
    a_migrated_note_keeps_its_pages(old, steps);
    let count = old.pages@.len() as int;
    pages_are_written(old, steps, page, count);
    only_pages_are_written(steps, count, steps.len() as int);
    assert(steps.take(steps.len() as int) =~= steps);
}

/// The steps that write pages leave each page with what was written on it last.
#[verifier::spinoff_prover]
#[verifier::rlimit(60)]
proof fn pages_are_written<T>(old: OldNote<T>, steps: Seq<StoreStep<T>>, page: usize, n: int)
    requires
        0 <= n <= old.pages@.len() <= steps.len(),
        forall|i: int|
            0 <= i < old.pages@.len() ==> (#[trigger] steps[i]) is Rewrite && steps[i]->page
                == old.pages@[i].page && lines_of(steps[i]->strokes@) == lines_of(
                old.pages@[i].strokes@,
            ),
    ensures
        ink_after(steps.take(n)).contains_key(page) <==> exists|i: int|
            0 <= i < n && (#[trigger] old.pages@[i]).page == page,
        forall|i: int|
            0 <= i < n && (#[trigger] old.pages@[i]).page == page && (forall|j: int|
                i < j < n ==> (#[trigger] old.pages@[j]).page != page) ==> ink_after(
                steps.take(n),
            )[page] == lines_of(old.pages@[i].strokes@),
    decreases n,
{
    if n > 0 {
        pages_are_written(old, steps, page, n - 1);
        assert(steps.take(n).drop_last() =~= steps.take(n - 1));
        assert(steps.take(n).last() == steps[n - 1]);
        let now = ink_after(steps.take(n));
        let earlier = ink_after(steps.take(n - 1));
        assert(steps[n - 1] is Rewrite);
        if old.pages@[n - 1].page == page {
            assert forall|i: int|
                0 <= i < n && (#[trigger] old.pages@[i]).page == page && (forall|j: int|
                    i < j < n ==> (#[trigger] old.pages@[j]).page != page) implies now[page]
                == lines_of(old.pages@[i].strokes@) by {
                if i < n - 1 {
                    assert(old.pages@[n - 1].page != page);
                }
            }
        } else {
            if earlier.contains_key(page) {
                let i = choose|i: int| 0 <= i < n - 1 && (#[trigger] old.pages@[i]).page == page;
                assert(0 <= i < n && old.pages@[i].page == page);
            }
            if exists|i: int| 0 <= i < n && (#[trigger] old.pages@[i]).page == page {
                let i = choose|i: int| 0 <= i < n && (#[trigger] old.pages@[i]).page == page;
                assert(0 <= i < n - 1 && old.pages@[i].page == page);
            }
            assert forall|i: int|
                0 <= i < n && (#[trigger] old.pages@[i]).page == page && (forall|j: int|
                    i < j < n ==> (#[trigger] old.pages@[j]).page != page) implies now[page]
                == lines_of(old.pages@[i].strokes@) by {
                assert(i < n - 1);
                assert forall|j: int| i < j < n - 1 implies (#[trigger] old.pages@[j]).page != page by {}
            }
        }
    } else {
        assert(steps.take(0) =~= seq![]);
    }
}

/// A step that writes no page leaves the ink as it is.
proof fn only_pages_are_written<T>(steps: Seq<StoreStep<T>>, from: int, to: int)
    requires
        0 <= from <= to <= steps.len(),
        forall|i: int| from <= i < to ==> !((#[trigger] steps[i]) is Rewrite),
    ensures
        ink_after(steps.take(to)) == ink_after(steps.take(from)),
    decreases to - from,
{
    if from < to {
        only_pages_are_written(steps, from, to - 1);
        assert(steps.take(to).drop_last() =~= steps.take(to - 1));
        assert(steps.take(to).last() == steps[to - 1]);
        assert(!(steps[to - 1] is Rewrite));
    }
}

/// An archive unpacks to one step for each of its entries, in their order: a folder to a folder and a file to a
/// file of the same bytes, each at a path inside the note. It stops only at an entry that cannot be opened,
/// leads outside or cannot be read, and says why.
pub proof fn an_archive_unpacks_to_its_entries(
    unpacking: Unpacking,
    source: Seq<char>,
    archive: Seq<u8>,
    i: int,
)
    requires
        unpacking_is(unpacking, source, archive),
    ensures
        unpacking.failure is None ==> unpacking.steps@.len() == zip_count_here(archive),
        unpacking.failure is Some ==> unpacking.steps@.len() < zip_count_here(archive),
        0 <= i < unpacking.steps@.len() ==> (zip_entry_here(archive, i as nat) matches Ok(entry) && {
            &&& unpacking.steps@[i] is Folder <==> entry.1
            &&& unpacking.steps@[i] matches Step::File { parts, bytes } ==> entry.2 == Ok::<
                Seq<u8>,
                Seq<char>,
            >(bytes@)
        }),
        unpacking.failure matches Some(error) ==> (error is Note && {
            let done = unpacking.steps@.len();
            match zip_entry_here(archive, done) {
                Err(complaint) => error->Note_0@ == source + " holds an entry it could not open: "@
                    + complaint,
                Ok(entry) => error->Note_0@ == source
                    + " holds an entry that points outside the note: "@ + entry.0 || (!entry.1
                    && entry.2 is Err && error->Note_0@ == source + " could not be read: "@
                    + entry.2->Err_0),
            }
        }),
{
    if 0 <= i < unpacking.steps@.len() {
        assert(step_is(unpacking.steps@[i], zip_entry_here(archive, i as nat)));
    }
}

/// A part of a path stays inside exactly where it is some text without a separator that means neither "here" nor
/// "up" and names no drive; a path does where all of its parts do.
pub proof fn a_part_stays_inside_its_folder(part: Seq<char>, parts: Seq<Seq<char>>, i: int)
    ensures
        is_name(part) ==> stays_inside(part),
        part.len() == 0 || part == seq!['.'] || part == seq!['.', '.'] ==> !stays_inside(part),
        part.contains('/') || part.contains('\\') ==> !stays_inside(part),
        part.len() > 1 && part[1] == ':' && ('a' <= part[0] <= 'z' || 'A' <= part[0] <= 'Z')
            ==> !stays_inside(part),
        leads_inside(parts) && 0 <= i < parts.len() ==> stays_inside(parts[i]),
        0 <= i < parts.len() && !stays_inside(parts[i]) ==> !leads_inside(parts),
{
    if part.contains('/') {
        let k = choose|k: int| 0 <= k < part.len() && part[k] == '/';
        assert(is_separator(part[k]));
    }
    if part.contains('\\') {
        let k = choose|k: int| 0 <= k < part.len() && part[k] == '\\';
        assert(is_separator(part[k]));
    }
    if is_name(part) {
        assert(part.len() > 1 ==> part[1] != ':');
    }
}

/// A note is packed as its database, its document where there is one, both as they are, and its attachments,
/// deflated, each under its own path in the attachments folder and with its own bytes.
pub proof fn a_note_is_packed_whole(
    database: Seq<u8>,
    document: Option<Seq<u8>>,
    attachments: Seq<Attachment>,
    i: int,
)
    ensures
        ({
            let entries = note_entries(database, document, attachments);
            let own = if document is Some {
                2int
            } else {
                1
            };
            &&& entries.len() == own + attachments.len()
            &&& entries[0] == ("note.db"@, database, false)
            &&& document matches Some(bytes) ==> entries[1] == ("source.pdf"@, bytes, false)
            &&& 0 <= i < attachments.len() ==> entries[own + i] == (
                "attachments"@.push('/') + with_slashes(attachments[i].name@),
                attachments[i].bytes@,
                true,
            )
        }),
{
}

/// Bytes that may be missing are missing where there are none, and else what they are.
pub proof fn missing_bytes_are_missing(bytes: Option<Vec<u8>>)
    ensures
        bytes is None ==> maybe_bytes(bytes) is None,
        bytes matches Some(held) ==> maybe_bytes(bytes) == Some(held@),
{
}

/// A note's folder has its store, its document and its attachments under these names, and a store is written out
/// through a file of its own.
pub proof fn a_folder_has_its_names()
    ensures
        NOTE_DB@ == "note.db"@,
        NOTE_PDF@ == "source.pdf"@,
        ATTACHMENTS@ == "attachments"@,
        EXPORT_TMP@ == "export.tmp.db"@,
{
}

} // verus!
