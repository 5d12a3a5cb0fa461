//! An archive a note is carried in: opened, read, and written.

use crate::error::{refused, AppError};
use crate::zips::{
    archive_bytes, are_files, count_entries, entry_view, finish_packer, holds_entries, is_plain,
    is_roomy, name_bytes, named_view, new_packer, open_zip, packed_entries, parts_are_its_own,
    read_entry, read_named, room_in, room_of, start_entry, write_entry, zip_count_here, zip_entry_here,
    zip_error_here, zip_named_here, Entry, Method, Packer,
};
use vstd::prelude::*;

verus! {

/// The permissions an entry is written with: its owner may write it, everyone may read it.
pub const FILE_MODE: u32 = 0o644;

/// An open archive.
#[derive(Debug)]
pub struct Archive {
    zip: zip::ZipArchive<std::io::Cursor<Vec<u8>>>,
}

impl View for Archive {
    type V = Seq<u8>;

    closed spec fn view(&self) -> Seq<u8> {
        archive_bytes(self.zip)
    }
}

/// Why the bytes of a file are not an archive that can be read.
pub open spec fn unreadable_text(path: Seq<char>, error: Seq<char>) -> Seq<char> {
    path + " is not a zip file this app can read: "@ + error
}

impl Archive {
    /// Opens the archive a file's bytes are.
    pub fn open(path: &str, bytes: Vec<u8>) -> (result: Result<Self, AppError>)
        ensures
            match zip_error_here(bytes@) {
                None => result matches Ok(archive) && archive@ == bytes@,
                Some(error) => refused(result, unreadable_text(path@, error)),
            },
    {
        match open_zip(bytes) {
            Ok(zip) => Ok(Archive { zip }),
            Err(error) => Err(
                AppError::Note(
                    String::from_str(path).concat(
                        " is not a zip file this app can read: ",
                    ).concat(error.as_str()),
                ),
            ),
        }
    }

    /// How many entries the archive lists.
    pub fn len(&self) -> (count: usize)
        ensures
            count == zip_count_here(self@),
    {
        count_entries(&self.zip)
    }

    /// What the entry of a name holds, or why that cannot be read, or nothing where there is none.
    pub fn named(&mut self, name: &str) -> (content: Option<Result<Vec<u8>, String>>)
        ensures
            final(self)@ == old(self)@,
            named_view(content) == zip_named_here(old(self)@, name@),
    {
        read_named(&mut self.zip, name)
    }

    /// The entry at an index, or why it cannot be opened.
    pub fn entry(&mut self, index: usize) -> (entry: Result<Entry, String>)
        ensures
            final(self)@ == old(self)@,
            entry_view(entry) == zip_entry_here(old(self)@, index as nat),
            parts_are_its_own(entry),
    {
        read_entry(&mut self.zip, index)
    }
}

/// One file that goes into an archive.
#[derive(Debug)]
pub struct Parcel {
    /// The name it is listed under.
    pub name: String,
    /// What it holds.
    pub bytes: Vec<u8>,
    /// How it is kept.
    pub method: Method,
    /// What could not be written, should it not be.
    pub what: String,
}

/// The entries some parcels become, in order.
pub open spec fn entries_of(parcels: Seq<Parcel>) -> Seq<(Seq<char>, Seq<u8>, bool)> {
    Seq::new(
        parcels.len(),
        |i: int| (parcels[i].name@, parcels[i].bytes@, parcels[i].method == Method::Deflated),
    )
}

/// Whether a result is the refusal of a note whose reason begins with these words.
pub open spec fn refused_with<T>(result: Result<T, AppError>, start: Seq<char>) -> bool {
    result matches Err(AppError::Note(said)) && said@.len() >= start.len() && said@.take(
        start.len() as int,
    ) == start
}

/// The refusal of a note: some words, and the complaint behind them.
fn complaint(start: &str, error: &str) -> (refusal: AppError)
    ensures
        refusal matches AppError::Note(said) && said@ == start@ + error@,
{
    AppError::Note(String::from_str(start).concat(error))
}

/// Whether entries are sure to fit in an archive: few and small enough, no name twice, and none of more
/// than 65535 bytes.
pub open spec fn fits(entries: Seq<(Seq<char>, Seq<u8>, bool)>) -> bool {
    &&& is_roomy(entries)
    &&& forall|i: int| 0 <= i < entries.len() ==> name_bytes((#[trigger] entries[i]).0) <= 0xffff
    &&& forall|i: int, j: int|
        0 <= i < j < entries.len() ==> (#[trigger] entries[i]).0 != (#[trigger] entries[j]).0
}

/// The first entries take up no more than all of them.
proof fn first_entries_take_less(entries: Seq<(Seq<char>, Seq<u8>, bool)>, n: int)
    requires
        0 <= n <= entries.len(),
    ensures
        room_in(entries.take(n)) <= room_in(entries),
        n < entries.len() ==> room_in(entries.take(n)) + room_of(entries[n]) <= room_in(
            entries,
        ),
    decreases entries.len(),
{
    if n == entries.len() {
        assert(entries.take(n) =~= entries);
    } else {
        let shorter = entries.drop_last();
        first_entries_take_less(shorter, n);
        assert(shorter.take(n) =~= entries.take(n));
        if n == entries.len() - 1 {
            assert(entries.take(n) =~= shorter);
        }
    }
}

/// Packs files into the bytes of one archive.
///
/// The archive holds exactly what was packed into it. Files that are few and small and have names of
/// their own are always packed; whatever cannot be is named in the refusal.
pub fn pack(path: &str, parcels: &Vec<Parcel>) -> (result: Result<Vec<u8>, AppError>)
    ensures
        result matches Ok(bytes) ==> are_files(entries_of(parcels@)) && is_plain(
            bytes@,
            entries_of(parcels@),
        ) ==> holds_entries(bytes@, entries_of(parcels@)),
        fits(entries_of(parcels@)) ==> result is Ok,
        result is Err ==> refused_with(result, path@ + " could not be closed: "@) || exists|i: int|
            0 <= i < parcels@.len() && refused_with(
                result,
                (#[trigger] parcels@[i]).what@ + " could not be written: "@,
            ),
{
    let ghost entries = entries_of(parcels@);
    let mut packer: Packer = new_packer();
    let mut i: usize = 0;
    assert(entries.take(0) =~= Seq::<(Seq<char>, Seq<u8>, bool)>::empty());
    while i < parcels.len()
        invariant
            i <= parcels@.len(),
            entries == entries_of(parcels@),
            packed_entries(packer) == entries.take(i as int),
        decreases parcels@.len() - i,
    {
        let parcel: &Parcel = &parcels[i];
        let ghost before = entries.take(i as int);
        let ghost start = parcel.what@ + " could not be written: "@;
        proof {
            first_entries_take_less(entries, i as int);
            if fits(entries) {
                assert forall|j: int| 0 <= j < before.len() implies (#[trigger] before[j]).0
                    != parcel.name@ by {
                    assert(before[j] == entries[j]);
                    assert(entries[i as int].0 == parcel.name@);
                }
            }
        }
        let failing: String = parcel.what.clone().concat(" could not be written: ");
        match start_entry(packer, parcel.name.as_str(), parcel.method, FILE_MODE) {
            Ok(started) => {
                packer = started;
            },
            Err(error) => {
                let refusal: Result<Vec<u8>, AppError> = Err(
                    complaint(failing.as_str(), error.as_str()),
                );
                assert((start + error@).take(start.len() as int) =~= start);
                assert(refused_with(refusal, parcels@[i as int].what@ + " could not be written: "@));
                return refusal;
            },
        }
        let ghost started = packed_entries(packer);
        assert(started.drop_last() =~= before);
        assert(room_in(started) == room_in(before) + room_of(started.last()));
        match write_entry(packer, parcel.bytes.as_slice()) {
            Ok(written) => {
                packer = written;
            },
            Err(error) => {
                let refusal: Result<Vec<u8>, AppError> = Err(
                    complaint(failing.as_str(), error.as_str()),
                );
                assert((start + error@).take(start.len() as int) =~= start);
                assert(refused_with(refusal, parcels@[i as int].what@ + " could not be written: "@));
                return refusal;
            },
        }
        assert(Seq::<u8>::empty() + parcel.bytes@ =~= parcel.bytes@);
        assert(packed_entries(packer) =~= before.push(entries[i as int]));
        assert(entries.take(i + 1) =~= before.push(entries[i as int]));
        i = i + 1;
    }
    assert(entries.take(i as int) =~= entries);
    match finish_packer(packer) {
        Ok(bytes) => Ok(bytes),
        Err(error) => {
            let failing: String = String::from_str(path).concat(" could not be closed: ");
            let ghost start = path@ + " could not be closed: "@;
            assert((start + error@).take(start.len() as int) =~= start);
            Err(complaint(failing.as_str(), error.as_str()))
        },
    }
}

/// Parcels become entries one for one, in their order: each under its name, with its bytes, and kept as it
/// asks to be.
pub proof fn a_parcel_is_an_entry(parcels: Seq<Parcel>, i: int)
    requires
        0 <= i < parcels.len(),
    ensures
        entries_of(parcels).len() == parcels.len(),
        entries_of(parcels)[i].0 == parcels[i].name@,
        entries_of(parcels)[i].1 == parcels[i].bytes@,
        entries_of(parcels)[i].2 <==> parcels[i].method == Method::Deflated,
{
}

/// A refusal that begins with some words is a refusal, and says those words and then something or nothing.
pub proof fn a_refusal_begins_with_its_words<T>(result: Result<T, AppError>, start: Seq<char>)
    ensures
        result is Ok ==> !refused_with(result, start),
        refused_with(result, start) ==> result is Err && result->Err_0 is Note && exists|rest: Seq<
            char,
        >| result->Err_0->Note_0@ == #[trigger] (start + rest),
{
    if refused_with(result, start) {
        let said = result->Err_0->Note_0@;
        assert(said =~= start + said.skip(start.len() as int));
    }
}

/// A file that is no archive is named, and the reason is given. Everyone may read what an archive holds, and its
/// owner may write it.
pub proof fn an_unreadable_file_is_named(path: Seq<char>, error: Seq<char>)
    ensures
        unreadable_text(path, error) == path + " is not a zip file this app can read: "@ + error,
        FILE_MODE == 0o644,
{
}

} // verus!
