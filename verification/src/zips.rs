//! The zip archive a note is carried in, read from bytes and written to bytes.
//!
//! Reading and writing the zip container is the zip crate's work. What it answers is named rather
//! than restated, and the one that finishes an archive says what reading it gives back. Memory running out
//! is not spoken of, here or anywhere in the library.

use crate::paths::{is_separator, pieces_of};
use std::io::Read;
use std::io::Write;
use vstd::prelude::*;
use vstd::utf8::encode_utf8;

verus! {

/// The zip crate's archive reader.
#[verifier::external_type_specification]
#[verifier::external_body]
#[verifier::reject_recursive_types(R)]
pub struct ExZipArchive<R>(zip::ZipArchive<R>);

/// The standard library's cursor over bytes in memory.
#[verifier::external_type_specification]
#[verifier::external_body]
#[verifier::reject_recursive_types(T)]
pub struct ExCursor<T>(std::io::Cursor<T>);

/// How an entry of an archive is kept.
#[derive(Clone, Copy, Debug, PartialEq, Eq, Structural)]
pub enum Method {
    /// As it is.
    Stored,
    /// Deflated.
    Deflated,
}

/// An entry of an archive, as it was read.
#[derive(Debug)]
pub struct Entry {
    /// The name it is listed under.
    pub name: String,
    /// The parts of the path the name leads to inside a folder, or nothing where it leads outside.
    pub parts: Option<Vec<String>>,
    /// Whether it stands for a folder.
    pub is_folder: bool,
    /// What it holds, or why that cannot be read.
    pub content: Result<Vec<u8>, String>,
}

/// Texts as characters.
pub open spec fn texts(parts: Seq<String>) -> Seq<Seq<char>> {
    parts.map_values(|part: String| part@)
}

/// Bytes that may have failed to be read, over sequences.
pub open spec fn content_view(content: Result<Vec<u8>, String>) -> Result<Seq<u8>, Seq<char>> {
    match content {
        Ok(bytes) => Ok(bytes@),
        Err(error) => Err(error@),
    }
}

/// What was read of an entry but for its path, over sequences.
pub open spec fn entry_view(entry: Result<Entry, String>) -> Result<
    (Seq<char>, bool, Result<Seq<u8>, Seq<char>>),
    Seq<char>,
> {
    match entry {
        Ok(entry) => Ok((entry.name@, entry.is_folder, content_view(entry.content))),
        Err(error) => Err(error@),
    }
}

/// What was read of a named entry, over sequences.
pub open spec fn named_view(content: Option<Result<Vec<u8>, String>>) -> Option<
    Result<Seq<u8>, Seq<char>>,
> {
    match content {
        Some(content) => Some(content_view(content)),
        None => None,
    }
}

/// The parts of a path that may be missing, over sequences.
pub open spec fn parts_view(parts: Option<Vec<String>>) -> Option<Seq<Seq<char>>> {
    match parts {
        Some(parts) => Some(texts(parts@)),
        None => None,
    }
}

/// Where some pieces lead inside a folder, or nothing where they lead out of it: an empty piece and
/// `.` lead nowhere, `..` leads back, and every other one leads on.
pub open spec fn resolved(pieces: Seq<Seq<char>>) -> Option<Seq<Seq<char>>>
    decreases pieces.len(),
{
    if pieces.len() == 0 {
        Some(seq![])
    } else {
        let piece = pieces.last();
        match resolved(pieces.drop_last()) {
            None => None,
            Some(parts) => if piece.len() == 0 || piece == seq!['.'] {
                Some(parts)
            } else if piece != seq!['.', '.'] {
                Some(parts.push(piece))
            } else if parts.len() == 0 {
                None
            } else {
                Some(parts.drop_last())
            },
        }
    }
}

/// Whether a name is one that every system reads alike: it names no drive, device or server.
pub open spec fn is_ordinary(name: Seq<char>) -> bool {
    &&& !name.contains(':')
    &&& !name.contains('\0')
    &&& !(name.len() >= 2 && is_separator(name[0]) && is_separator(name[1]))
}

/// Whether the parts of an entry's path are where its name leads, for a name that every system reads
/// alike, and there are none for a name with a NUL in it.
pub open spec fn parts_are_its_own(entry: Result<Entry, String>) -> bool {
    entry matches Ok(entry) ==> {
        &&& is_ordinary(entry.name@) ==> parts_view(entry.parts) == resolved(
            pieces_of(entry.name@),
        )
        &&& entry.name@.contains('\0') ==> entry.parts is None
    }
}

/// The bytes an open archive reads from.
pub uninterp spec fn archive_bytes(archive: zip::ZipArchive<std::io::Cursor<Vec<u8>>>) -> Seq<u8>;

/// Why `zip::ZipArchive::new` refuses some bytes on a machine of this word size, or nothing where it
/// takes them.
pub uninterp spec fn zip_error(bytes: Seq<u8>, bits: nat) -> Option<Seq<char>>;

/// Why some bytes are no archive on this machine, or nothing where they are one.
pub open spec fn zip_error_here(bytes: Seq<u8>) -> Option<Seq<char>> {
    zip_error(bytes, usize::BITS as nat)
}

/// Calls `zip::ZipArchive::new` on bytes in memory: whether they are an archive, and why not,
/// depends on the bytes and on the machine's word size alone.
#[verifier::external_body]
pub(crate) fn open_zip(bytes: Vec<u8>) -> (result: Result<
    zip::ZipArchive<std::io::Cursor<Vec<u8>>>,
    String,
>)
    ensures
        match result {
            Ok(archive) => zip_error(bytes@, usize::BITS as nat) is None && archive_bytes(archive)
                == bytes@,
            Err(error) => zip_error(bytes@, usize::BITS as nat) == Some(error@),
        },
{
    zip::ZipArchive::new(std::io::Cursor::new(bytes)).map_err(|error| error.to_string())
}

/// How many entries an archive lists, as `zip::ZipArchive::len` counts them on a machine of this word
/// size.
pub uninterp spec fn zip_count(bytes: Seq<u8>, bits: nat) -> nat;

/// How many entries an archive lists on this machine.
pub open spec fn zip_count_here(bytes: Seq<u8>) -> nat {
    zip_count(bytes, usize::BITS as nat)
}

/// Calls `zip::ZipArchive::len`: the count depends on the archive's bytes and on the machine's word size
/// alone.
#[verifier::external_body]
pub(crate) fn count_entries(archive: &zip::ZipArchive<std::io::Cursor<Vec<u8>>>) -> (count: usize)
    ensures
        count == zip_count(archive_bytes(*archive), usize::BITS as nat),
{
    archive.len()
}

/// What `zip::ZipArchive::by_name` opens under a name and reading it to the end gives on a machine of this
/// word size: nothing where it opens no such entry, and otherwise the bytes or the complaint.
pub uninterp spec fn zip_named(bytes: Seq<u8>, name: Seq<char>, bits: nat) -> Option<
    Result<Seq<u8>, Seq<char>>,
>;

/// What an archive holds under a name on this machine.
pub open spec fn zip_named_here(bytes: Seq<u8>, name: Seq<char>) -> Option<
    Result<Seq<u8>, Seq<char>>,
> {
    zip_named(bytes, name, usize::BITS as nat)
}

/// Calls `zip::ZipArchive::by_name` and reads the entry to its end: what comes back depends on the
/// archive's bytes, the name and the machine's word size alone, and the archive still reads from the same
/// bytes.
#[verifier::external_body]
pub(crate) fn read_named(
    archive: &mut zip::ZipArchive<std::io::Cursor<Vec<u8>>>,
    name: &str,
) -> (content: Option<Result<Vec<u8>, String>>)
    ensures
        archive_bytes(*final(archive)) == archive_bytes(*old(archive)),
        named_view(content) == zip_named(
            archive_bytes(*old(archive)),
            name@,
            usize::BITS as nat,
        ),
{
    let mut entry = archive.by_name(name).ok()?;
    let mut bytes: Vec<u8> = Vec::new();
    match entry.read_to_end(&mut bytes) {
        Ok(_) => Some(Ok(bytes)),
        Err(error) => Some(Err(error.to_string())),
    }
}

/// What `zip::ZipArchive::by_index` finds at an index on a machine of this word size: the name, whether it
/// is a folder, and what reading it to the end gives, or why it cannot be opened.
pub uninterp spec fn zip_entry(bytes: Seq<u8>, index: nat, bits: nat) -> Result<
    (Seq<char>, bool, Result<Seq<u8>, Seq<char>>),
    Seq<char>,
>;

/// What an archive holds at an index on this machine.
pub open spec fn zip_entry_here(bytes: Seq<u8>, index: nat) -> Result<
    (Seq<char>, bool, Result<Seq<u8>, Seq<char>>),
    Seq<char>,
> {
    zip_entry(bytes, index, usize::BITS as nat)
}

/// Calls `zip::ZipArchive::by_index`, asks the entry for its name, its enclosed path and whether it is
/// a folder, and reads it to its end.
///
/// But for the path, what comes back depends on the archive's bytes, the index and the machine's word size
/// alone, and the archive still reads from the same bytes. The path is what `enclosed_name` answers: where the name
/// leads, and nothing where it leads out of the folder it starts in. Of a name that could be a drive, a
/// device or a server nothing is said: what becomes of it depends on the system.
#[verifier::external_body]
pub(crate) fn read_entry(
    archive: &mut zip::ZipArchive<std::io::Cursor<Vec<u8>>>,
    index: usize,
) -> (result: Result<Entry, String>)
    ensures
        archive_bytes(*final(archive)) == archive_bytes(*old(archive)),
        entry_view(result) == zip_entry(
            archive_bytes(*old(archive)),
            index as nat,
            usize::BITS as nat,
        ),
        parts_are_its_own(result),
{
    let mut entry = archive.by_index(index).map_err(|error| error.to_string())?;
    let name: String = entry.name().to_string();
    let parts: Option<Vec<String>> = entry.enclosed_name().map(
        |path| path.iter().map(|part| part.to_string_lossy().into_owned()).collect(),
    );
    let is_folder: bool = entry.is_dir();
    let mut bytes: Vec<u8> = Vec::new();
    let read = entry.read_to_end(&mut bytes).map_err(|error| error.to_string());
    Ok(Entry { name, parts, is_folder, content: read.map(|_| bytes) })
}

/// An archive being written in memory, by the zip crate's `ZipWriter`.
#[verifier::external_body]
pub struct Packer {
    writer: zip::ZipWriter<std::io::Cursor<Vec<u8>>>,
}

/// The entries an archive being written holds so far, in order: their names, their bytes, and how
/// they are kept.
pub uninterp spec fn packed_entries(packer: Packer) -> Seq<(Seq<char>, Seq<u8>, bool)>;

/// How many bytes a name is written as.
pub open spec fn name_bytes(name: Seq<char>) -> nat {
    encode_utf8(name).len()
}

/// What an entry takes up in an archive where it is not deflated: its bytes, its name twice, and the
/// records around them.
pub open spec fn room_of(entry: (Seq<char>, Seq<u8>, bool)) -> nat {
    entry.1.len() + 2 * name_bytes(entry.0) + 128
}

/// What some entries take up together.
pub open spec fn room_in(entries: Seq<(Seq<char>, Seq<u8>, bool)>) -> nat
    decreases entries.len(),
{
    if entries.len() == 0 {
        0
    } else {
        room_in(entries.drop_last()) + room_of(entries.last())
    }
}

/// Whether entries are few and small enough to be packed: fewer than 65535, none of two gigabytes, and
/// together no more than half of what memory can hold.
pub open spec fn is_roomy(entries: Seq<(Seq<char>, Seq<u8>, bool)>) -> bool {
    &&& entries.len() < 0xffff
    &&& room_in(entries) <= isize::MAX / 2
    &&& forall|i: int| 0 <= i < entries.len() ==> (#[trigger] entries[i]).1.len() <= 0x7fff_ffff
}

/// Whether a name is not taken by an entry yet.
pub open spec fn is_fresh(entries: Seq<(Seq<char>, Seq<u8>, bool)>, name: Seq<char>) -> bool {
    forall|i: int| 0 <= i < entries.len() ==> (#[trigger] entries[i]).0 != name
}

/// Whether the bytes of an archive hold some entries: it opens, and each of them is read back by its
/// name and in its place, and nothing else is.
pub open spec fn holds_entries(
    bytes: Seq<u8>,
    entries: Seq<(Seq<char>, Seq<u8>, bool)>,
) -> bool {
    &&& zip_error_here(bytes) is None
    &&& zip_count_here(bytes) == entries.len()
    &&& forall|i: int|
        0 <= i < entries.len() ==> zip_named_here(bytes, (#[trigger] entries[i]).0) == Some(
            Ok::<Seq<u8>, Seq<char>>(entries[i].1),
        ) && zip_entry_here(bytes, i as nat) == Ok::<
            (Seq<char>, bool, Result<Seq<u8>, Seq<char>>),
            Seq<char>,
        >((entries[i].0, false, Ok(entries[i].1)))
    &&& forall|name: Seq<char>|
        is_fresh(entries, name) ==> #[trigger] zip_named_here(bytes, name) is None
}

/// Whether some entries can all be listed: they are no more than a million, and not just as many as the
/// mark of a long list says, and their names are ones a file can have in an archive. Such a name is not
/// empty, not of an unreasonable length, does not end as a folder's does, and has no bell character in it,
/// which stands in the mark of one of the records an archive ends with.
pub open spec fn are_files(entries: Seq<(Seq<char>, Seq<u8>, bool)>) -> bool {
    &&& entries.len() <= 0xf_ffff
    &&& entries.len() != 0xffff
    &&& forall|i: int|
        0 <= i < entries.len() ==> 0 < (#[trigger] entries[i]).0.len() <= 8191 && !is_separator(
            entries[i].0.last(),
        ) && !entries[i].0.contains('\u{7}')
}

/// Whether a name, where an archive lists it last, leaves no place in front of the archive's end that
/// could be taken for a mark there: as bytes it is neither four long nor sixteen.
pub open spec fn is_last_name(name: Seq<char>) -> bool {
    ||| name.len() > 16
    ||| name.len() != 4 && name.len() != 16 && forall|i: int|
        0 <= i < name.len() ==> #[trigger] name[i] <= '\u{7f}'
}

/// Whether the end of an archive of some entries is sure to be read for what it is: the archive is shorter
/// than four gigabytes, or no entry is longer than two, or the last one has a name that sees to it.
pub open spec fn is_plain(bytes: Seq<u8>, entries: Seq<(Seq<char>, Seq<u8>, bool)>) -> bool {
    ||| bytes.len() < 0xffff_ffff
    ||| forall|i: int| 0 <= i < entries.len() ==> (#[trigger] entries[i]).1.len() <= 0x7fff_ffff
    ||| entries.len() > 0 && is_last_name(entries.last().0)
}

/// Calls `zip::ZipWriter::new` on an empty buffer: nothing is in the archive yet.
#[verifier::external_body]
pub(crate) fn new_packer() -> (packer: Packer)
    ensures
        packed_entries(packer) == Seq::<(Seq<char>, Seq<u8>, bool)>::empty(),
{
    Packer { writer: zip::ZipWriter::new(std::io::Cursor::new(Vec::new())) }
}

/// Calls `zip::ZipWriter::start_file`: the archive gains an empty entry of that name, kept that way.
///
/// It takes every name of at most 65535 bytes that is not taken yet, as long as the entries are few and
/// small. What the complaint says otherwise is not stated, nor what an archive reader makes of the
/// permissions.
#[verifier::external_body]
pub(crate) fn start_entry(packer: Packer, name: &str, method: Method, permissions: u32) -> (
    result: Result<Packer, String>)
    ensures
        result matches Ok(started) ==> packed_entries(started) == packed_entries(packer).push(
            (name@, Seq::<u8>::empty(), method == Method::Deflated),
        ),
        is_fresh(packed_entries(packer), name@) && name_bytes(name@) <= 0xffff && is_roomy(
            packed_entries(packer),
        ) ==> result is Ok,
{
    let mut packer = packer;
    let options = zip::write::SimpleFileOptions::default().compression_method(
        match method {
            Method::Stored => zip::CompressionMethod::Stored,
            Method::Deflated => zip::CompressionMethod::Deflated,
        },
    ).unix_permissions(permissions);
    packer.writer.start_file(name, options).map_err(|error| error.to_string())?;
    Ok(packer)
}

/// Calls `std::io::Write::write_all` on the zip crate's `ZipWriter`: the bytes go at the end of the
/// entry that was started last.
///
/// It takes everything as long as the entries are few and small. What the complaint says otherwise is
/// not stated.
#[verifier::external_body]
pub(crate) fn write_entry(packer: Packer, bytes: &[u8]) -> (result: Result<Packer, String>)
    requires
        packed_entries(packer).len() > 0,
    ensures
        result matches Ok(written) ==> packed_entries(written) == packed_entries(
            packer,
        ).drop_last().push(
            (
                packed_entries(packer).last().0,
                packed_entries(packer).last().1 + bytes@,
                packed_entries(packer).last().2,
            ),
        ),
        room_in(packed_entries(packer)) + bytes@.len() <= isize::MAX / 2 && packed_entries(
            packer,
        ).last().1.len() + bytes@.len() <= 0x7fff_ffff ==> result is Ok,
{
    let mut packer = packer;
    packer.writer.write_all(bytes).map_err(|error| error.to_string())?;
    Ok(packer)
}

/// Calls `zip::ZipWriter::finish`: the bytes of the finished archive hold its entries, where those can
/// all be listed and told apart. How an entry is kept is not read back.
///
/// It finishes every archive whose entries are few and small. What the complaint says otherwise is not
/// stated.
#[verifier::external_body]
pub(crate) fn finish_packer(packer: Packer) -> (result: Result<Vec<u8>, String>)
    ensures
        result matches Ok(bytes) ==> are_files(packed_entries(packer)) && is_plain(
            bytes@,
            packed_entries(packer),
        ) ==> holds_entries(bytes@, packed_entries(packer)),
        is_roomy(packed_entries(packer)) ==> result is Ok,
{
    packer.writer.finish().map(|cursor| cursor.into_inner()).map_err(|error| error.to_string())
}

} // verus!
