//! What has been opened: the index behind the home screen.
//!
//! The index is a cache of the notes folder — which notes are there, when each was last opened, and
//! what is in it. It is kept newest first and never longer than [`RECENT_MAX`].

use crate::names::{
    a_folder_name_is_allowed, a_folder_name_splits_at_its_digest, folder_name_of, folder_stem, is_hex,
};
use crate::paths::{
    a_plain_name_is_its_own, is_same_path, is_separator, name_of, name_or_nothing, route_of,
    same_path, Route,
};
use crate::text::{
    begins_with, chars_of, copy_maybe, decimal, decimal_text, find_last, maybe_text,
    same_maybe, same_text, split_at_last, starts_with, text_between,
};
use vstd::prelude::*;

verus! {

/// How many entries the list keeps.
///
/// A list is a way back to the thing you were writing, not an archive: a note that falls off the end
/// is still a folder on disk, and the next scan adopts it again.
pub const RECENT_MAX: usize = 40;

/// What a note's database looked like when a summary was taken.
#[derive(Clone, Copy, Debug, PartialEq, Eq, Structural)]
pub struct Stamp {
    /// When the note's database was last written, in milliseconds since the epoch.
    pub mtime_ms: u64,
    /// How large it was, in bytes.
    pub len: u64,
}

/// The size of a sheet, as the bit patterns of two single-precision numbers.
#[derive(Clone, Copy, Debug, PartialEq, Eq, Structural)]
pub struct SheetBits {
    /// The width's bits.
    pub width: u32,
    /// The height's bits.
    pub height: u32,
}

/// What is in a note, in numbers.
#[derive(Clone, Copy, Debug, PartialEq, Eq, Structural)]
pub struct Summary {
    /// How many pages have been written on.
    pub pages: usize,
    /// How many strokes they hold.
    pub strokes: usize,
    /// The size of the sheet they were written on, when the note says.
    pub sheet: Option<SheetBits>,
}

/// The counts of a note nothing is known of.
pub open spec fn no_counts() -> Summary {
    Summary { pages: 0, strokes: 0, sheet: None }
}

impl Default for Summary {
    fn default() -> (summary: Self)
        ensures
            summary == no_counts(),
    {
        Summary { pages: 0, strokes: 0, sheet: None }
    }
}

/// The words of an age: coarse on purpose, because a list of notes is not a log.
pub open spec fn age_text(age_ms: nat) -> Seq<char> {
    let minute = 60_000nat;
    let hour = 3_600_000nat;
    let day = 86_400_000nat;
    if age_ms < minute {
        "just now"@
    } else if age_ms < 2 * minute {
        "a minute ago"@
    } else if age_ms < hour {
        decimal_text(age_ms / minute) + " minutes ago"@
    } else if age_ms < 2 * hour {
        "an hour ago"@
    } else if age_ms < day {
        decimal_text(age_ms / hour) + " hours ago"@
    } else if age_ms < 2 * day {
        "yesterday"@
    } else if age_ms < 30 * day {
        decimal_text(age_ms / day) + " days ago"@
    } else if age_ms < 60 * day {
        "a month ago"@
    } else if age_ms < 365 * day {
        decimal_text(age_ms / (30 * day)) + " months ago"@
    } else {
        "a year ago"@
    }
}

/// How long ago something happened, in words.
pub fn age_label(age_ms: u64) -> (label: String)
    ensures
        label@ == age_text(age_ms as nat),
{
    let minute: u64 = 60_000;
    let hour: u64 = 3_600_000;
    let day: u64 = 86_400_000;
    if age_ms < minute {
        String::from_str("just now")
    } else if age_ms < 2 * minute {
        String::from_str("a minute ago")
    } else if age_ms < hour {
        decimal(age_ms / minute).concat(" minutes ago")
    } else if age_ms < 2 * hour {
        String::from_str("an hour ago")
    } else if age_ms < day {
        decimal(age_ms / hour).concat(" hours ago")
    } else if age_ms < 2 * day {
        String::from_str("yesterday")
    } else if age_ms < 30 * day {
        decimal(age_ms / day).concat(" days ago")
    } else if age_ms < 60 * day {
        String::from_str("a month ago")
    } else if age_ms < 365 * day {
        decimal(age_ms / (30 * day)).concat(" months ago")
    } else {
        String::from_str("a year ago")
    }
}

/// What an entry of the list is, mathematically.
#[verifier::ext_equal]
pub ghost struct Entry {
    pub folder: Seq<char>,
    pub source: Option<Seq<char>>,
    pub title: Seq<char>,
    pub document: Option<Seq<char>>,
    pub opened_at: u64,
    pub summary: Summary,
    pub stamp: Option<Stamp>,
    pub gone: bool,
}

impl Entry {
    /// Where the note lives, part by part: how a path is written down does not count.
    pub open spec fn route(self) -> Route {
        route_of(self.folder)
    }
}

/// Whether two paths that may be missing are one, or both missing.
pub open spec fn same_source(a: Option<Seq<char>>, b: Option<Seq<char>>) -> bool {
    match (a, b) {
        (Some(a), Some(b)) => is_same_path(a, b),
        (None, None) => true,
        _ => false,
    }
}

/// Whether two entries say the same, however their paths are written down.
pub open spec fn same_entry(a: Entry, b: Entry) -> bool {
    &&& a.route() == b.route()
    &&& same_source(a.source, b.source)
    &&& (Entry { folder: b.folder, source: b.source, ..a }) == b
}

/// One thing the app remembers opening.
#[derive(Debug)]
pub struct Recent {
    /// Where the note lives. The key: this is what an entry opens.
    pub folder: String,
    /// The file it was made from, when there was one.
    pub source: Option<String>,
    /// What the list calls it.
    pub title: String,
    /// The name the document had, when the note remembers one.
    pub document: Option<String>,
    /// When it was last opened, in milliseconds since the epoch. The sort key.
    pub opened_at: u64,
    /// The note's counts, as of `stamp`.
    pub summary: Summary,
    /// What the note's database looked like when `summary` was taken; `None` until the first scan.
    pub stamp: Option<Stamp>,
    /// Whether the folder is missing. Recomputed on every scan.
    pub gone: bool,
}

impl View for Recent {
    type V = Entry;

    open spec fn view(&self) -> Entry {
        Entry {
            folder: self.folder@,
            source: maybe_text(self.source),
            title: self.title@,
            document: maybe_text(self.document),
            opened_at: self.opened_at,
            summary: self.summary,
            stamp: self.stamp,
            gone: self.gone,
        }
    }
}

/// The entries a run of remembered things holds, in order.
pub open spec fn entries_of(recents: Seq<Recent>) -> Seq<Entry> {
    Seq::new(recents.len(), |i: int| recents[i]@)
}

/// The entry of a note that was opened and not counted yet.
pub open spec fn opened_note(
    folder: Seq<char>,
    source: Option<Seq<char>>,
    title: Seq<char>,
    document: Option<Seq<char>>,
    opened_at: u64,
) -> Entry {
    Entry {
        folder,
        source,
        title,
        document,
        opened_at,
        summary: no_counts(),
        stamp: None,
        gone: false,
    }
}

/// Whether a text is a digest: eight hexadecimal digits.
pub open spec fn is_digest(text: Seq<char>) -> bool {
    text.len() == 8 && forall|i: int| 0 <= i < text.len() ==> is_hex(#[trigger] text[i])
}

/// What to call a note by the name of its folder: the stamp of a blank sheet becomes a phrase, and a
/// digest at the end goes.
pub open spec fn title_of_name(name: Seq<char>) -> Seq<char> {
    if begins_with(name, "blank-"@) {
        "Blank sheet"@
    } else {
        match split_at_last(name, '-') {
            Some((stem, digest)) => if stem.len() > 0 && is_digest(digest) {
                stem
            } else {
                name
            },
            None => name,
        }
    }
}

/// Whether a character is a hexadecimal digit.
fn hex_digit(c: char) -> (is: bool)
    ensures
        is == is_hex(c),
{
    ('0' <= c && c <= '9') || ('a' <= c && c <= 'f') || ('A' <= c && c <= 'F')
}

/// The words of a note's counts.
pub open spec fn counts_text(pages: nat, strokes: nat) -> Seq<char> {
    if pages == 0 {
        "no pages yet"@
    } else if pages == 1 && strokes == 1 {
        "1 page · 1 stroke"@
    } else if pages == 1 {
        "1 page · "@ + decimal_text(strokes) + " strokes"@
    } else if strokes == 1 {
        decimal_text(pages) + " pages · 1 stroke"@
    } else {
        decimal_text(pages) + " pages · "@ + decimal_text(strokes) + " strokes"@
    }
}

impl Default for Recent {
    fn default() -> (entry: Self)
        ensures
            entry@ == opened_note(seq![], None, seq![], None, 0),
    {
        Recent::note(String::new(), None, String::new(), None, 0)
    }
}

impl Recent {
    /// A note that was opened.
    pub fn note(
        folder: String,
        source: Option<String>,
        title: String,
        document: Option<String>,
        opened_at: u64,
    ) -> (entry: Self)
        ensures
            entry@ == opened_note(
                folder@,
                maybe_text(source),
                title@,
                maybe_text(document),
                opened_at,
            ),
    {
        Recent {
            folder,
            source,
            title,
            document,
            opened_at,
            summary: Summary { pages: 0, strokes: 0, sheet: None },
            stamp: None,
            gone: false,
        }
    }

    /// A copy of the entry.
    pub fn copy(&self) -> (entry: Self)
        ensures
            entry@ == self@,
    {
        Recent {
            folder: self.folder.clone(),
            source: copy_maybe(&self.source),
            title: self.title.clone(),
            document: copy_maybe(&self.document),
            opened_at: self.opened_at,
            summary: self.summary,
            stamp: self.stamp,
            gone: self.gone,
        }
    }

    /// Whether two entries say the same.
    pub fn same(&self, other: &Recent) -> (same: bool)
        ensures
            same == same_entry(self@, other@),
    {
        let sources: bool = match (&self.source, &other.source) {
            (Some(a), Some(b)) => same_path(a.as_str(), b.as_str()),
            (None, None) => true,
            _ => false,
        };
        let sheets: bool = match (self.summary.sheet, other.summary.sheet) {
            (Some(a), Some(b)) => a == b,
            (None, None) => true,
            _ => false,
        };
        let stamps: bool = match (self.stamp, other.stamp) {
            (Some(a), Some(b)) => a == b,
            (None, None) => true,
            _ => false,
        };
        same_path(self.folder.as_str(), other.folder.as_str()) && sources && same_text(
            self.title.as_str(),
            other.title.as_str(),
        ) && same_maybe(
            &self.document,
            &other.document,
        ) && self.opened_at == other.opened_at && self.summary.pages == other.summary.pages
            && self.summary.strokes == other.summary.strokes && sheets && stamps && self.gone
            == other.gone
    }

    /// Whether the counts are known yet. The list shows a placeholder until they are.
    pub fn counted(&self) -> (counted: bool)
        ensures
            counted == (self@.stamp is Some),
    {
        self.stamp.is_some()
    }

    /// What to call a note whose entry does not know a name.
    ///
    /// A note made on a blank sheet is named after the moment it was made (`blank-1712345678901`),
    /// and one placed from a file is named `<stem>-<digest>` — so this is where the digest and the
    /// stamp are turned back into words.
    pub fn title_for(folder: &str) -> (title: String)
        ensures
            title@ == title_of_name(name_or_nothing(folder@)),
    {
        let name: String = name_of(folder);
        let chars: Vec<char> = chars_of(name.as_str());
        if starts_with(&chars, "blank-") {
            return String::from_str("Blank sheet");
        }
        match find_last(&chars, '-') {
            Some(at) => {
                let total: usize = chars.len();
                let mut digits: usize = 0;
                let ghost digest = chars@.skip(at + 1);
                while digits < total - (at + 1) && hex_digit(chars[at + 1 + digits])
                    invariant
                        at < chars@.len() == total,
                        digits <= total - (at + 1),
                        digest == chars@.skip(at + 1),
                        forall|i: int| 0 <= i < digits ==> is_hex(#[trigger] digest[i]),
                    decreases total - digits,
                {
                    assert(digest[digits as int] == chars@[at + 1 + digits]);
                    digits = digits + 1;
                }
                assert(digits < digest.len() ==> !is_hex(digest[digits as int]));
                if at > 0 && total - (at + 1) == 8 && digits == 8 {
                    assert(chars@.take(at as int) =~= chars@.subrange(0, at as int));
                    text_between(&chars, 0, at)
                } else {
                    name
                }
            },
            None => name,
        }
    }

    /// How long ago this was opened, in words. A clock that moved backwards reports the smallest age
    /// there is.
    pub fn age(&self, now_ms: u64) -> (age: String)
        ensures
            age@ == age_text(
                if now_ms >= self@.opened_at {
                    (now_ms - self@.opened_at) as nat
                } else {
                    0
                },
            ),
    {
        age_label(now_ms.saturating_sub(self.opened_at))
    }

    /// The second line of an entry: where the note came from.
    pub fn origin(&self) -> (origin: String)
        ensures
            origin@ == (match self@.source {
                Some(source) => source,
                None => "written in cheap-note"@,
            }),
    {
        match &self.source {
            Some(source) => source.clone(),
            None => String::from_str("written in cheap-note"),
        }
    }

    /// What the entry's counts read as, for a row that has them.
    pub fn counts(&self) -> (counts: String)
        ensures
            counts@ == counts_text(self@.summary.pages as nat, self@.summary.strokes as nat),
    {
        let pages: usize = self.summary.pages;
        let strokes: usize = self.summary.strokes;
        if pages == 0 {
            String::from_str("no pages yet")
        } else if pages == 1 && strokes == 1 {
            String::from_str("1 page · 1 stroke")
        } else if pages == 1 {
            String::from_str("1 page · ").concat(decimal(strokes as u64).as_str()).concat(
                " strokes",
            )
        } else if strokes == 1 {
            decimal(pages as u64).concat(" pages · 1 stroke")
        } else {
            decimal(pages as u64).concat(" pages · ").concat(
                decimal(strokes as u64).as_str(),
            ).concat(" strokes")
        }
    }
}

// ---------------------------------------------------------------------------------------------
// The list
// ---------------------------------------------------------------------------------------------

/// An entry put into a list that is newest first: after every entry that is as new.
pub open spec fn put_newest(sorted: Seq<Entry>, entry: Entry) -> Seq<Entry>
    decreases sorted.len(),
{
    if sorted.len() == 0 || sorted.last().opened_at >= entry.opened_at {
        sorted.push(entry)
    } else {
        put_newest(sorted.drop_last(), entry).push(sorted.last())
    }
}

/// A list newest first, with entries that are as new as one another in the order they were in.
pub open spec fn newest_first(entries: Seq<Entry>) -> Seq<Entry>
    decreases entries.len(),
{
    if entries.len() == 0 {
        seq![]
    } else {
        put_newest(newest_first(entries.drop_last()), entries.last())
    }
}

/// A list newest first, and no longer than it may be.
pub open spec fn settled(entries: Seq<Entry>) -> Seq<Entry> {
    let sorted = newest_first(entries);
    if sorted.len() > RECENT_MAX {
        sorted.take(RECENT_MAX as int)
    } else {
        sorted
    }
}

/// Where the first entry of a folder is.
pub open spec fn place_of(entries: Seq<Entry>, folder: Seq<char>) -> Option<int>
    decreases entries.len(),
{
    if entries.len() == 0 {
        None
    } else {
        match place_of(entries.drop_last(), folder) {
            Some(at) => Some(at),
            None => if entries.last().route() == route_of(folder) {
                Some(entries.len() - 1)
            } else {
                None
            },
        }
    }
}

/// Whether a list has an entry for a folder.
pub open spec fn lists(entries: Seq<Entry>, folder: Seq<char>) -> bool {
    exists|i: int| 0 <= i < entries.len() && (#[trigger] entries[i]).route() == route_of(folder)
}

/// Whether a list has at most one entry for each folder.
pub open spec fn one_per_folder(entries: Seq<Entry>) -> bool {
    forall|i: int, j: int|
        0 <= i < entries.len() && 0 <= j < entries.len() && (#[trigger] entries[i]).route() == (
        #[trigger] entries[j]).route() ==> i == j
}

/// The list after something was opened, before it is settled: the counts and the stamp of an entry
/// that is already there are kept, because they describe the note and not the moment it was opened.
pub open spec fn recorded(entries: Seq<Entry>, fresh: Entry) -> Seq<Entry> {
    match place_of(entries, fresh.folder) {
        Some(at) => entries.update(
            at,
            Entry { summary: entries[at].summary, stamp: entries[at].stamp, ..fresh },
        ),
        None => entries.push(fresh),
    }
}

/// The list without the entries of a folder.
pub open spec fn forgotten(entries: Seq<Entry>, folder: Seq<char>) -> Seq<Entry>
    decreases entries.len(),
{
    if entries.len() == 0 {
        seq![]
    } else {
        let before = forgotten(entries.drop_last(), folder);
        if entries.last().route() == route_of(folder) {
            before
        } else {
            before.push(entries.last())
        }
    }
}

/// The list with what a scan saw of one note.
pub open spec fn learned(
    entries: Seq<Entry>,
    folder: Seq<char>,
    stamp: Stamp,
    summary: Summary,
) -> Seq<Entry> {
    match place_of(entries, folder) {
        Some(at) => entries.update(at, Entry { stamp: Some(stamp), summary, ..entries[at] }),
        None => entries,
    }
}

/// A folder a scan of the notes folder found.
#[derive(Debug)]
pub struct Found {
    /// Where it is.
    pub folder: String,
    /// When its database was last written, when it has one.
    pub written_ms: Option<u64>,
}

/// The list with every entry marked by whether its folder is there.
pub open spec fn marked(entries: Seq<Entry>, present: Seq<bool>) -> Seq<Entry> {
    Seq::new(entries.len(), |i: int| Entry { gone: !present[i], ..entries[i] })
}

/// The entry of a folder nobody told the list about: its name is what it can be called, and its
/// database's timestamp is the closest thing to when it was last written in.
pub open spec fn adopted_entry(found: Found, now_ms: u64) -> Entry {
    opened_note(
        found.folder@,
        None,
        title_of_name(name_or_nothing(found.folder@)),
        None,
        match found.written_ms {
            Some(written) => written,
            None => now_ms,
        },
    )
}

/// The list with the found folders it does not have.
pub open spec fn adopted(entries: Seq<Entry>, found: Seq<Found>, now_ms: u64) -> Seq<Entry>
    decreases found.len(),
{
    if found.len() == 0 {
        entries
    } else {
        let before = adopted(entries, found.drop_last(), now_ms);
        if lists(before, found.last().folder@) {
            before
        } else {
            before.push(adopted_entry(found.last(), now_ms))
        }
    }
}

/// What the app remembers opening, newest first.
#[derive(Debug)]
pub struct Recents {
    entries: Vec<Recent>,
}

impl View for Recents {
    type V = Seq<Entry>;

    closed spec fn view(&self) -> Seq<Entry> {
        entries_of(self.entries@)
    }
}

impl Recents {
    /// The list an index file holds. A file that is missing, or that cannot be read, is an empty
    /// list: the index is a cache of what the notes folder already knows, and the next scan rebuilds
    /// it.
    pub fn load(index: Option<Vec<Recent>>) -> (recents: Self)
        ensures
            recents@ == settled(
                match index {
                    Some(entries) => entries_of(entries@),
                    None => seq![],
                },
            ),
    {
        let entries: Vec<Recent> = match index {
            Some(entries) => entries,
            None => Vec::new(),
        };
        assert(index is None ==> entries_of(entries@) =~= seq![]);
        let mut recents: Recents = Recents { entries };
        recents.sort();
        recents
    }

    /// Every entry, newest first.
    pub fn entries(&self) -> (entries: &Vec<Recent>)
        ensures
            entries_of(entries@) == self@,
    {
        &self.entries
    }

    /// Where the first entry of a folder is.
    fn find(&self, folder: &str) -> (place: Option<usize>)
        ensures
            match place {
                Some(at) => at < self@.len() && place_of(self@, folder@) == Some(at as int),
                None => place_of(self@, folder@) is None,
            },
    {
        let mut index: usize = 0;
        assert(self@.take(0) =~= seq![]);
        while index < self.entries.len()
            invariant
                index <= self.entries@.len() == self@.len(),
                place_of(self@.take(index as int), folder@) is None,
            decreases self.entries@.len() - index,
        {
            assert(self@.take(index + 1).drop_last() =~= self@.take(index as int));
            assert(self@.take(index + 1).last() == self@[index as int]);
            if same_path(self.entries[index].folder.as_str(), folder) {
                proof {
                    place_stays(self@, index + 1, folder@);
                }
                return Some(index);
            }
            index = index + 1;
        }
        assert(self@.take(index as int) =~= self@);
        None
    }

    /// Records that something was opened: the most recent thing the list has seen.
    ///
    /// The counts and the stamp of an entry that is already here are kept, and the next scan
    /// corrects them if the note has changed. An entry that is new has no stamp, so its counts are
    /// read on that scan.
    pub fn record(&mut self, fresh: Recent)
        ensures
            final(self)@ == settled(recorded(old(self)@, fresh@)),
    {
        match self.find(fresh.folder.as_str()) {
            Some(at) => {
                let mut fresh: Recent = fresh;
                fresh.summary = self.entries[at].summary;
                fresh.stamp = self.entries[at].stamp;
                let ghost updated = fresh@;
                self.entries.set(at, fresh);
                assert(self@ =~= old(self)@.update(at as int, updated));
            },
            None => {
                self.entries.push(fresh);
                assert(self@ =~= old(self)@.push(fresh@));
            },
        }
        self.sort();
    }

    /// Takes a folder out of the list. The note itself is not touched.
    pub fn forget(&mut self, folder: &str)
        ensures
            final(self)@ == forgotten(old(self)@, folder@),
    {
        let ghost all = self@;
        let mut entries: Vec<Recent> = Vec::new();
        std::mem::swap(&mut entries, &mut self.entries);
        let mut kept: Vec<Recent> = Vec::new();
        assert(entries_of(kept@) =~= seq![]);
        assert(all.take(0) =~= seq![]);
        for entry in iter: entries
            invariant
                iter.seq() == entries@,
                all == entries_of(entries@),
                entries_of(kept@) == forgotten(all.take(iter.index()), folder@),
        {
            let ghost held = kept@;
            assert(all.take(iter.index() + 1).drop_last() =~= all.take(iter.index()));
            assert(all.take(iter.index() + 1).last() == entry@);
            if !same_path(entry.folder.as_str(), folder) {
                kept.push(entry);
                assert(entries_of(kept@) =~= entries_of(held).push(entry@));
            }
        }
        assert(all.take(all.len() as int) =~= all);
        self.entries = kept;
    }

    /// Records what a scan saw of one note: its counts, and the database they came from.
    pub fn learn(&mut self, folder: &str, stamp: Stamp, summary: Summary)
        ensures
            final(self)@ == learned(old(self)@, folder@, stamp, summary),
    {
        match self.find(folder) {
            Some(at) => {
                let mut entry: Recent = self.entries[at].copy();
                entry.stamp = Some(stamp);
                entry.summary = summary;
                let ghost updated = entry@;
                self.entries.set(at, entry);
                assert(updated =~= (Entry {
                    stamp: Some(stamp),
                    summary,
                    ..old(self)@[at as int]
                }));
                assert(self@ =~= old(self)@.update(at as int, updated));
            },
            None => {},
        }
    }

    /// Marks what is no longer there, and adopts what the notes folder has and the list does not.
    ///
    /// `present` says of each entry whether its folder is there, and `found` is what a scan of the
    /// notes folder saw. The two are asked apart: a folder opened where it stands lives outside the
    /// notes folder, and reading its absence from the scan would call every such note gone.
    pub fn reconcile(&mut self, present: &Vec<bool>, found: &Vec<Found>, now_ms: u64)
        requires
            present@.len() == old(self)@.len(),
        ensures
            final(self)@ == settled(adopted(marked(old(self)@, present@), found@, now_ms)),
    {
        let ghost all = self@;
        let mut index: usize = 0;
        while index < self.entries.len()
            invariant
                index <= self.entries@.len() == all.len() == present@.len(),
                forall|i: int| index <= i < all.len() ==> #[trigger] self@[i] == all[i],
                forall|i: int|
                    0 <= i < index ==> #[trigger] self@[i] == (Entry {
                        gone: !present@[i],
                        ..all[i]
                    }),
            decreases self.entries@.len() - index,
        {
            let ghost before = self@;
            assert(before[index as int] == all[index as int]);
            let mut entry: Recent = self.entries[index].copy();
            entry.gone = !present[index];
            let ghost updated = entry@;
            self.entries.set(index, entry);
            assert(updated =~= (Entry { gone: !present@[index as int], ..all[index as int] }));
            assert(self@ =~= before.update(index as int, updated));
            index = index + 1;
        }
        assert(self@ =~= marked(all, present@));
        let ghost base = self@;
        let mut next: usize = 0;
        assert(found@.take(0) =~= seq![]);
        while next < found.len()
            invariant
                next <= found@.len(),
                self@ == adopted(base, found@.take(next as int), now_ms),
            decreases found@.len() - next,
        {
            let ghost before = self@;
            assert(found@.take(next + 1).drop_last() =~= found@.take(next as int));
            assert(found@.take(next + 1).last() == found@[next as int]);
            let folder: &str = found[next].folder.as_str();
            proof {
                place_tells(self@, folder@);
            }
            if self.find(folder).is_none() {
                let opened_at: u64 = match found[next].written_ms {
                    Some(written) => written,
                    None => now_ms,
                };
                let entry: Recent = Recent::note(
                    found[next].folder.clone(),
                    None,
                    Recent::title_for(folder),
                    None,
                    opened_at,
                );
                assert(entry@ =~= adopted_entry(found@[next as int], now_ms));
                self.entries.push(entry);
                assert(self@ =~= before.push(adopted_entry(found@[next as int], now_ms)));
            }
            next = next + 1;
        }
        assert(found@.take(next as int) =~= found@);
        self.sort();
    }

    /// Newest first, and never longer than [`RECENT_MAX`].
    fn sort(&mut self)
        ensures
            final(self)@ == settled(old(self)@),
    {
        let ghost all = self@;
        let mut entries: Vec<Recent> = Vec::new();
        std::mem::swap(&mut entries, &mut self.entries);
        let mut sorted: Vec<Recent> = Vec::new();
        assert(entries_of(sorted@) =~= seq![]);
        assert(all.take(0) =~= seq![]);
        for entry in iter: entries
            invariant
                iter.seq() == entries@,
                all == entries_of(entries@),
                entries_of(sorted@) == newest_first(all.take(iter.index())),
        {
            assert(all.take(iter.index() + 1).drop_last() =~= all.take(iter.index()));
            assert(all.take(iter.index() + 1).last() == entry@);
            let ghost held = entries_of(sorted@);
            let ghost fresh = entry@;
            let mut at: usize = sorted.len();
            assert(held.take(at as int) =~= held);
            assert(held.skip(at as int) =~= seq![]);
            assert(put_newest(held, fresh) + seq![] =~= put_newest(held, fresh));
            while at > 0 && sorted[at - 1].opened_at < entry.opened_at
                invariant
                    at <= sorted@.len(),
                    held == entries_of(sorted@),
                    fresh == entry@,
                    put_newest(held, fresh) == put_newest(held.take(at as int), fresh) + held.skip(
                        at as int,
                    ),
                decreases at,
            {
                let ghost here = held.take(at as int);
                assert(here.drop_last() =~= held.take(at - 1));
                assert(here.last() == held[at - 1]);
                assert(put_newest(held.take(at - 1), fresh).push(held[at - 1]) + held.skip(
                    at as int,
                ) =~= put_newest(held.take(at - 1), fresh) + held.skip(at - 1));
                at = at - 1;
            }
            assert(at > 0 ==> held.take(at as int).last() == held[at - 1]);
            assert(put_newest(held.take(at as int), fresh) == held.take(at as int).push(fresh));
            assert(held.take(at as int).push(fresh) + held.skip(at as int) =~= held.insert(
                at as int,
                fresh,
            ));
            sorted.insert(at, entry);
            assert(entries_of(sorted@) =~= held.insert(at as int, fresh));
        }
        assert(all.take(all.len() as int) =~= all);
        let ghost whole = entries_of(sorted@);
        if sorted.len() > RECENT_MAX {
            sorted.truncate(RECENT_MAX);
            assert(entries_of(sorted@) =~= whole.take(RECENT_MAX as int));
        }
        self.entries = sorted;
    }
}

/// Where the first entry of a folder is does not depend on what comes after it.
proof fn place_stays(entries: Seq<Entry>, n: int, folder: Seq<char>)
    requires
        0 <= n <= entries.len(),
        place_of(entries.take(n), folder) is Some,
    ensures
        place_of(entries, folder) == place_of(entries.take(n), folder),
    decreases entries.len() - n,
{
    if n < entries.len() {
        assert(entries.take(n + 1).drop_last() =~= entries.take(n));
        place_stays(entries, n + 1, folder);
    } else {
        assert(entries.take(n) =~= entries);
    }
}

/// A folder has a place exactly when the list has an entry for it, and its place is the first.
pub proof fn place_tells(entries: Seq<Entry>, folder: Seq<char>)
    ensures
        place_of(entries, folder) is Some <==> lists(entries, folder),
        place_of(entries, folder) matches Some(at) ==> 0 <= at < entries.len()
            && entries[at].route() == route_of(folder) && (forall|i: int|
            0 <= i < at ==> (#[trigger] entries[i]).route() != route_of(folder)),
    decreases entries.len(),
{
    if entries.len() > 0 {
        let before = entries.drop_last();
        place_tells(before, folder);
        if lists(entries, folder) && !lists(before, folder) {
            let i = choose|i: int|
                0 <= i < entries.len() && (#[trigger] entries[i]).route() == route_of(folder);
            assert(i == entries.len() - 1) by {
                if i < entries.len() - 1 {
                    assert(before[i].route() == route_of(folder));
                }
            }
        }
        if place_of(before, folder) is Some {
            let at = place_of(before, folder)->0;
            assert(entries[at] == before[at]);
            assert forall|i: int| 0 <= i < at implies (#[trigger] entries[i]).route() != route_of(folder) by {
                assert(before[i] == entries[i]);
            }
        } else if entries.last().route() == route_of(folder) {
            assert(entries[entries.len() - 1].route() == route_of(folder));
            assert forall|i: int| 0 <= i < entries.len() - 1 implies (#[trigger] entries[i]).route()
                != route_of(folder) by {
                assert(before[i] == entries[i]);
            }
        }
    }
}

/// Whether a list is newest first.
pub open spec fn is_newest_first(entries: Seq<Entry>) -> bool {
    forall|i: int, j: int|
        0 <= i < j < entries.len() ==> (#[trigger] entries[i]).opened_at >= (
        #[trigger] entries[j]).opened_at
}

/// Putting an entry into a list keeps it newest first, and adds exactly that entry.
proof fn putting_keeps_order(sorted: Seq<Entry>, entry: Entry)
    requires
        is_newest_first(sorted),
    ensures
        is_newest_first(put_newest(sorted, entry)),
        put_newest(sorted, entry).len() == sorted.len() + 1,
        put_newest(sorted, entry).to_multiset() == sorted.push(entry).to_multiset(),
        forall|bound: u64|
            #![trigger below(put_newest(sorted, entry), bound)]
            below(sorted, bound) && entry.opened_at >= bound ==> below(
                put_newest(sorted, entry),
                bound,
            ),
    decreases sorted.len(),
{
    broadcast use vstd::seq_lib::group_to_multiset_ensures;

    if sorted.len() == 0 || sorted.last().opened_at >= entry.opened_at {
        let all = put_newest(sorted, entry);
        assert forall|i: int, j: int| 0 <= i < j < all.len() implies (#[trigger] all[i]).opened_at
            >= (#[trigger] all[j]).opened_at by {
            if j == sorted.len() {
                if i < sorted.len() - 1 {
                    assert(sorted[i].opened_at >= sorted[sorted.len() - 1].opened_at);
                }
            }
        }
    } else {
        let before = sorted.drop_last();
        let last = sorted.last();
        assert(is_newest_first(before)) by {
            assert forall|i: int, j: int| 0 <= i < j < before.len() implies (
            #[trigger] before[i]).opened_at >= (#[trigger] before[j]).opened_at by {
                assert(sorted[i].opened_at >= sorted[j].opened_at);
            }
        }
        putting_keeps_order(before, entry);
        let all = put_newest(sorted, entry);
        let put = put_newest(before, entry);
        assert(below(before, last.opened_at)) by {
            assert forall|i: int| 0 <= i < before.len() implies (#[trigger] before[i]).opened_at
                >= last.opened_at by {
                assert(sorted[i].opened_at >= sorted[sorted.len() - 1].opened_at);
            }
        }
        assert(below(put, last.opened_at));
        assert forall|i: int, j: int| 0 <= i < j < all.len() implies (#[trigger] all[i]).opened_at
            >= (#[trigger] all[j]).opened_at by {
            if j == put.len() {
                assert(put[i].opened_at >= last.opened_at);
            } else {
                assert(put[i].opened_at >= put[j].opened_at);
            }
        }
        assert(before.push(last) =~= sorted);
        assert(all.to_multiset() =~= sorted.push(entry).to_multiset());
        assert forall|bound: u64|
            #![trigger below(all, bound)]
            below(sorted, bound) && entry.opened_at >= bound implies below(all, bound) by {
            assert(below(before, bound)) by {
                assert forall|i: int| 0 <= i < before.len() implies (#[trigger] before[i]).opened_at
                    >= bound by {
                    assert(sorted[i].opened_at >= bound);
                }
            }
            assert(below(put, bound));
            assert(sorted[sorted.len() - 1].opened_at >= bound);
        }
    }
}

/// Whether no entry of a list is older than a moment.
pub open spec fn below(entries: Seq<Entry>, bound: u64) -> bool {
    forall|i: int| 0 <= i < entries.len() ==> (#[trigger] entries[i]).opened_at >= bound
}

/// Sorting puts the newest first and loses nothing.
pub proof fn newest_first_is_sorted(entries: Seq<Entry>)
    ensures
        is_newest_first(newest_first(entries)),
        newest_first(entries).len() == entries.len(),
        newest_first(entries).to_multiset() == entries.to_multiset(),
    decreases entries.len(),
{
    broadcast use vstd::seq_lib::group_to_multiset_ensures;

    if entries.len() > 0 {
        newest_first_is_sorted(entries.drop_last());
        putting_keeps_order(newest_first(entries.drop_last()), entries.last());
        assert(entries.drop_last().push(entries.last()) =~= entries);
        assert(newest_first(entries).to_multiset() =~= entries.to_multiset());
    } else {
        assert(entries =~= seq![]);
    }
}

/// The entries opened at one moment, in order.
pub open spec fn opened_then(entries: Seq<Entry>, moment: u64) -> Seq<Entry>
    decreases entries.len(),
{
    if entries.len() == 0 {
        seq![]
    } else {
        let before = opened_then(entries.drop_last(), moment);
        if entries.last().opened_at == moment {
            before.push(entries.last())
        } else {
            before
        }
    }
}

/// Putting an entry into a list leaves it after the ones as new.
proof fn putting_is_stable(sorted: Seq<Entry>, entry: Entry, moment: u64)
    ensures
        opened_then(put_newest(sorted, entry), moment) == opened_then(sorted.push(entry), moment),
    decreases sorted.len(),
{
    if !(sorted.len() == 0 || sorted.last().opened_at >= entry.opened_at) {
        let before = sorted.drop_last();
        let last = sorted.last();
        putting_is_stable(before, entry, moment);
        assert(put_newest(sorted, entry).drop_last() =~= put_newest(before, entry));
        assert(sorted.push(entry).drop_last() =~= sorted);
        assert(before.push(entry).drop_last() =~= before);
        let held = opened_then(before, moment);
        assert(opened_then(sorted, moment) == if last.opened_at == moment {
            held.push(last)
        } else {
            held
        });
        assert(opened_then(before.push(entry), moment) == if entry.opened_at == moment {
            held.push(entry)
        } else {
            held
        });
    }
}

/// Sorting keeps the order of entries as new as one another.
pub proof fn newest_first_is_stable(entries: Seq<Entry>, moment: u64)
    ensures
        opened_then(newest_first(entries), moment) == opened_then(entries, moment),
    decreases entries.len(),
{
    if entries.len() > 0 {
        let before = entries.drop_last();
        let sorted = newest_first(before);
        newest_first_is_stable(before, moment);
        putting_is_stable(sorted, entries.last(), moment);
        assert(sorted.push(entries.last()).drop_last() =~= sorted);
    } else {
        assert(entries =~= seq![]);
    }
}

/// The list is newest first and capped, whatever was recorded, found or loaded.
pub proof fn the_list_is_settled(entries: Seq<Entry>)
    ensures
        is_newest_first(settled(entries)),
        settled(entries).len() <= RECENT_MAX,
        settled(entries).len() == (if entries.len() < RECENT_MAX {
            entries.len()
        } else {
            RECENT_MAX as nat
        }),
        forall|i: int|
            0 <= i < settled(entries).len() ==> entries.contains(#[trigger] settled(entries)[i]),
{
    broadcast use vstd::seq_lib::group_to_multiset_ensures;

    newest_first_is_sorted(entries);
    let sorted = newest_first(entries);
    assert forall|i: int| 0 <= i < settled(entries).len() implies entries.contains(
        #[trigger] settled(entries)[i],
    ) by {
        assert(sorted[i] == settled(entries)[i]);
        assert(sorted.to_multiset().count(sorted[i]) > 0);
        assert(entries.to_multiset().count(sorted[i]) > 0);
    }
}

/// Whether a list is as it is kept: newest first, and no longer than it may be.
pub open spec fn is_settled(entries: Seq<Entry>) -> bool {
    is_newest_first(entries) && entries.len() <= RECENT_MAX
}

/// Sorting a list that is newest first changes nothing.
proof fn sorting_sorted_changes_nothing(entries: Seq<Entry>)
    requires
        is_newest_first(entries),
    ensures
        newest_first(entries) == entries,
    decreases entries.len(),
{
    if entries.len() > 0 {
        let before = entries.drop_last();
        assert forall|i: int, j: int| 0 <= i < j < before.len() implies (
        #[trigger] before[i]).opened_at >= (#[trigger] before[j]).opened_at by {
            assert(entries[i].opened_at >= entries[j].opened_at);
        }
        sorting_sorted_changes_nothing(before);
        if before.len() > 0 {
            assert(entries[before.len() - 1].opened_at >= entries[before.len() as int].opened_at);
        }
        assert(before.push(entries.last()) =~= entries);
    }
}

/// Settling a settled list changes nothing.
pub proof fn settling_twice_is_settling_once(entries: Seq<Entry>)
    ensures
        is_settled(settled(entries)),
        settled(settled(entries)) == settled(entries),
{
    the_list_is_settled(entries);
    sorting_sorted_changes_nothing(settled(entries));
}

/// Whatever is done to the list leaves it settled: loading, recording and reconciling settle it, and
/// forgetting and learning leave it so.
pub proof fn the_list_stays_settled(
    entries: Seq<Entry>,
    fresh: Entry,
    folder: Seq<char>,
    stamp: Stamp,
    summary: Summary,
    present: Seq<bool>,
    found: Seq<Found>,
    now_ms: u64,
)
    requires
        is_settled(entries),
    ensures
        is_settled(settled(entries)),
        is_settled(settled(recorded(entries, fresh))),
        is_settled(forgotten(entries, folder)),
        is_settled(learned(entries, folder, stamp, summary)),
        is_settled(settled(adopted(marked(entries, present), found, now_ms))),
{
    settling_twice_is_settling_once(entries);
    settling_twice_is_settling_once(recorded(entries, fresh));
    settling_twice_is_settling_once(adopted(marked(entries, present), found, now_ms));
    forgetting_keeps_order(entries, folder);
    place_tells(entries, folder);
    let after = learned(entries, folder, stamp, summary);
    assert forall|i: int, j: int| 0 <= i < j < after.len() implies (#[trigger] after[i]).opened_at
        >= (#[trigger] after[j]).opened_at by {
        assert(after[i].opened_at == entries[i].opened_at);
        assert(after[j].opened_at == entries[j].opened_at);
    }
}

/// Forgetting a folder keeps the order of the rest.
proof fn forgetting_keeps_order(entries: Seq<Entry>, folder: Seq<char>)
    requires
        is_newest_first(entries),
    ensures
        is_newest_first(forgotten(entries, folder)),
        forgotten(entries, folder).len() <= entries.len(),
        forall|bound: u64|
            #![trigger below(forgotten(entries, folder), bound)]
            below(entries, bound) ==> below(forgotten(entries, folder), bound),
    decreases entries.len(),
{
    if entries.len() > 0 {
        let before = entries.drop_last();
        let last = entries.last();
        let kept = forgotten(before, folder);
        let all = forgotten(entries, folder);
        assert forall|i: int, j: int| 0 <= i < j < before.len() implies (
        #[trigger] before[i]).opened_at >= (#[trigger] before[j]).opened_at by {
            assert(entries[i].opened_at >= entries[j].opened_at);
        }
        forgetting_keeps_order(before, folder);
        assert(below(before, last.opened_at)) by {
            assert forall|i: int| 0 <= i < before.len() implies (#[trigger] before[i]).opened_at
                >= last.opened_at by {
                assert(entries[i].opened_at >= entries[before.len() as int].opened_at);
            }
        }
        assert(below(kept, last.opened_at));
        assert forall|i: int, j: int| 0 <= i < j < all.len() implies (#[trigger] all[i]).opened_at
            >= (#[trigger] all[j]).opened_at by {
            if j < kept.len() {
                assert(kept[i].opened_at >= kept[j].opened_at);
            } else {
                assert(kept[i].opened_at >= last.opened_at);
            }
        }
        assert forall|bound: u64|
            #![trigger below(all, bound)]
            below(entries, bound) implies below(all, bound) by {
            assert(below(before, bound)) by {
                assert forall|i: int| 0 <= i < before.len() implies (#[trigger] before[i]).opened_at
                    >= bound by {
                    assert(entries[i].opened_at >= bound);
                }
            }
            assert(below(kept, bound));
            assert(entries[before.len() as int].opened_at >= bound);
        }
    }
}

/// The list as it is written down: whether a folder is missing is not.
pub open spec fn written_down(entries: Seq<Entry>) -> Seq<Entry> {
    Seq::new(entries.len(), |i: int| Entry { gone: false, ..entries[i] })
}

/// Some entries as they are written down.
pub fn to_save(entries: &Vec<Recent>) -> (saved: Vec<Recent>)
    ensures
        entries_of(saved@) == written_down(entries_of(entries@)),
{
    let ghost wanted = written_down(entries_of(entries@));
    let mut saved: Vec<Recent> = Vec::new();
    let mut index: usize = 0;
    while index < entries.len()
        invariant
            index <= entries@.len(),
            wanted == written_down(entries_of(entries@)),
            entries_of(saved@) == wanted.take(index as int),
        decreases entries@.len() - index,
    {
        let ghost held = saved@;
        let mut entry: Recent = entries[index].copy();
        entry.gone = false;
        saved.push(entry);
        assert(entry@ =~= wanted[index as int]);
        assert(entries_of(held).len() == held.len());
        assert(entries_of(saved@) =~= entries_of(held).push(entry@));
        assert(wanted.take(index + 1) =~= wanted.take(index as int).push(wanted[index as int]));
        index = index + 1;
    }
    assert(wanted.take(index as int) =~= wanted);
    saved
}

/// A saved list comes back as it was, entry by entry and in the same order, but for what is not written
/// down: loading what [`to_save`] gives changes nothing about it.
pub proof fn a_saved_list_comes_back(entries: Seq<Entry>)
    requires
        is_settled(entries),
    ensures
        settled(written_down(entries)) == written_down(entries),
{
    let down = written_down(entries);
    assert forall|i: int, j: int| 0 <= i < j < down.len() implies (#[trigger] down[i]).opened_at
        >= (#[trigger] down[j]).opened_at by {
        assert(entries[i].opened_at >= entries[j].opened_at);
    }
    sorting_sorted_changes_nothing(down);
}

/// A list with one entry per folder still has one per folder once it is settled.
pub proof fn settling_keeps_one_per_folder(entries: Seq<Entry>)
    requires
        one_per_folder(entries),
    ensures
        one_per_folder(settled(entries)),
    decreases entries.len(),
{
    sorting_keeps_one_per_folder(entries);
    let sorted = newest_first(entries);
    if sorted.len() > RECENT_MAX {
        assert forall|i: int, j: int|
            0 <= i < RECENT_MAX && 0 <= j < RECENT_MAX && (#[trigger] settled(entries)[i]).route()
                == (#[trigger] settled(entries)[j]).route() implies i == j by {
            assert(sorted[i] == settled(entries)[i] && sorted[j] == settled(entries)[j]);
        }
    }
}

/// Sorting keeps one entry per folder.
proof fn sorting_keeps_one_per_folder(entries: Seq<Entry>)
    requires
        one_per_folder(entries),
    ensures
        one_per_folder(newest_first(entries)),
        forall|folder: Seq<char>|
            #![trigger lists(newest_first(entries), folder)]
            lists(newest_first(entries), folder) == lists(entries, folder),
    decreases entries.len(),
{
    if entries.len() > 0 {
        let before = entries.drop_last();
        let last = entries.last();
        assert(one_per_folder(before)) by {
            assert forall|i: int, j: int|
                0 <= i < before.len() && 0 <= j < before.len() && (#[trigger] before[i]).route() == (
                #[trigger] before[j]).route() implies i == j by {
                assert(entries[i].route() == entries[j].route());
            }
        }
        sorting_keeps_one_per_folder(before);
        assert(!lists(before, last.folder)) by {
            if lists(before, last.folder) {
                let i = choose|i: int|
                    0 <= i < before.len() && (#[trigger] before[i]).route() == last.route();
                assert(entries[i].route() == entries[entries.len() - 1].route());
            }
        }
        putting_keeps_one_per_folder(newest_first(before), last);
        assert forall|folder: Seq<char>|
            #![trigger lists(newest_first(entries), folder)]
            lists(newest_first(entries), folder) == lists(entries, folder) by {
            pushing_lists(before, last, folder);
            assert(before.push(last) =~= entries);
            assert(lists(newest_first(before), folder) == lists(before, folder));
        }
    }
}

/// A list one longer lists one folder more.
proof fn pushing_lists(entries: Seq<Entry>, entry: Entry, folder: Seq<char>)
    ensures
        lists(entries.push(entry), folder) == (lists(entries, folder) || entry.route() == route_of(folder)),
{
    let all = entries.push(entry);
    if lists(entries, folder) {
        let i = choose|i: int| 0 <= i < entries.len() && (#[trigger] entries[i]).route() == route_of(folder);
        assert(all[i].route() == route_of(folder));
    }
    if entry.route() == route_of(folder) {
        assert(all[entries.len() as int].route() == route_of(folder));
    }
    if lists(all, folder) && entry.route() != route_of(folder) {
        let i = choose|i: int| 0 <= i < all.len() && (#[trigger] all[i]).route() == route_of(folder);
        assert(entries[i].route() == route_of(folder));
    }
}

/// Putting an entry of a new folder into a list keeps one entry per folder.
proof fn putting_keeps_one_per_folder(sorted: Seq<Entry>, entry: Entry)
    requires
        one_per_folder(sorted),
        !lists(sorted, entry.folder),
    ensures
        one_per_folder(put_newest(sorted, entry)),
        forall|folder: Seq<char>|
            #![trigger lists(put_newest(sorted, entry), folder)]
            lists(put_newest(sorted, entry), folder) == (lists(sorted, folder) || entry.route()
                == route_of(folder)),
    decreases sorted.len(),
{
    if sorted.len() == 0 || sorted.last().opened_at >= entry.opened_at {
        pushing_keeps_one_per_folder(sorted, entry);
        assert forall|folder: Seq<char>|
            #![trigger lists(put_newest(sorted, entry), folder)]
            lists(put_newest(sorted, entry), folder) == (lists(sorted, folder) || entry.route()
                == route_of(folder)) by {
            pushing_lists(sorted, entry, folder);
        }
    } else {
        let before = sorted.drop_last();
        let last = sorted.last();
        assert(before.push(last) =~= sorted);
        assert(one_per_folder(before)) by {
            assert forall|i: int, j: int|
                0 <= i < before.len() && 0 <= j < before.len() && (#[trigger] before[i]).route() == (
                #[trigger] before[j]).route() implies i == j by {
                assert(sorted[i].route() == sorted[j].route());
            }
        }
        pushing_lists(before, last, entry.folder);
        putting_keeps_one_per_folder(before, entry);
        assert(!lists(before, last.folder)) by {
            if lists(before, last.folder) {
                let i = choose|i: int|
                    0 <= i < before.len() && (#[trigger] before[i]).route() == last.route();
                assert(sorted[i].route() == sorted[sorted.len() - 1].route());
            }
        }
        assert(!lists(put_newest(before, entry), last.folder));
        pushing_keeps_one_per_folder(put_newest(before, entry), last);
        assert forall|folder: Seq<char>|
            #![trigger lists(put_newest(sorted, entry), folder)]
            lists(put_newest(sorted, entry), folder) == (lists(sorted, folder) || entry.route()
                == route_of(folder)) by {
            pushing_lists(before, last, folder);
            pushing_lists(put_newest(before, entry), last, folder);
            assert(lists(put_newest(before, entry), folder) == (lists(before, folder)
                || entry.route() == route_of(folder)));
        }
    }
}

/// A list one longer, by a folder it did not have, has one entry per folder.
proof fn pushing_keeps_one_per_folder(entries: Seq<Entry>, entry: Entry)
    requires
        one_per_folder(entries),
        !lists(entries, entry.folder),
    ensures
        one_per_folder(entries.push(entry)),
{
    let all = entries.push(entry);
    assert forall|i: int, j: int|
        0 <= i < all.len() && 0 <= j < all.len() && (#[trigger] all[i]).route() == (
        #[trigger] all[j]).route() implies i == j by {
        if i < entries.len() && j < entries.len() {
            assert(entries[i].route() == entries[j].route());
        } else if i < entries.len() {
            assert(entries[i].route() == entry.route());
        } else if j < entries.len() {
            assert(entries[j].route() == entry.route());
        }
    }
}

/// Opening the same note twice keeps one entry: recording never makes a second one for a folder.
pub proof fn recording_keeps_one_per_folder(entries: Seq<Entry>, fresh: Entry)
    requires
        one_per_folder(entries),
    ensures
        one_per_folder(recorded(entries, fresh)),
        one_per_folder(settled(recorded(entries, fresh))),
        lists(recorded(entries, fresh), fresh.folder),
{
    place_tells(entries, fresh.folder);
    let all = recorded(entries, fresh);
    match place_of(entries, fresh.folder) {
        Some(at) => {
            assert forall|i: int, j: int|
                0 <= i < all.len() && 0 <= j < all.len() && (#[trigger] all[i]).route() == (
                #[trigger] all[j]).route() implies i == j by {
                assert(entries[i].route() == entries[j].route());
            }
            assert(all[at].route() == fresh.route());
        },
        None => {
            pushing_keeps_one_per_folder(entries, fresh);
            pushing_lists(entries, fresh, fresh.folder);
        },
    }
    settling_keeps_one_per_folder(all);
}

/// A note opened after everything else is at the top of the list.
pub proof fn the_newest_is_first(entries: Seq<Entry>, fresh: Entry)
    requires
        forall|i: int|
            0 <= i < entries.len() && (#[trigger] entries[i]).route() != fresh.route()
                ==> entries[i].opened_at < fresh.opened_at,
        one_per_folder(entries),
    ensures
        settled(recorded(entries, fresh)).len() > 0,
        settled(recorded(entries, fresh))[0].folder == fresh.folder,
        settled(recorded(entries, fresh))[0].opened_at == fresh.opened_at,
{
    broadcast use vstd::seq_lib::group_to_multiset_ensures;

    let all = recorded(entries, fresh);
    let sorted = newest_first(all);
    place_tells(entries, fresh.folder);
    newest_first_is_sorted(all);
    recording_keeps_one_per_folder(entries, fresh);
    let own = match place_of(entries, fresh.folder) {
        Some(at) => at,
        None => entries.len() as int,
    };
    assert(all[own].folder == fresh.folder && all[own].opened_at == fresh.opened_at);
    assert forall|i: int| 0 <= i < all.len() && i != own implies (#[trigger] all[i]).opened_at
        < fresh.opened_at by {
        assert(all[i] == entries[i]);
        if entries[i].route() == fresh.route() {
            assert(entries[i].route() == entries[own].route());
        }
    }
    assert(all.to_multiset().count(all[own]) > 0);
    assert(sorted.contains(all[own]));
    let k = choose|k: int| 0 <= k < sorted.len() && sorted[k] == all[own];
    assert(sorted[0].opened_at >= fresh.opened_at) by {
        if k > 0 {
            assert(sorted[0].opened_at >= sorted[k].opened_at);
        }
    }
    assert(all.to_multiset().count(sorted[0]) > 0) by {
        assert(sorted.to_multiset().count(sorted[0]) > 0);
    }
    assert(all.contains(sorted[0]));
    let m = choose|m: int| 0 <= m < all.len() && all[m] == sorted[0];
    assert(m == own);
    assert(settled(all)[0] == sorted[0]);
}

/// A forgotten folder is not in the list, and every other entry still is.
pub proof fn forgetting_takes_one_folder(entries: Seq<Entry>, folder: Seq<char>)
    ensures
        !lists(forgotten(entries, folder), folder),
        forall|i: int|
            0 <= i < entries.len() && (#[trigger] entries[i]).route() != route_of(folder) ==> forgotten(
                entries,
                folder,
            ).contains(entries[i]),
        forall|k: int|
            0 <= k < forgotten(entries, folder).len() ==> entries.contains(
                #[trigger] forgotten(entries, folder)[k],
            ),
    decreases entries.len(),
{
    if entries.len() > 0 {
        let before = entries.drop_last();
        let last = entries.last();
        let kept = forgotten(before, folder);
        let all = forgotten(entries, folder);
        forgetting_takes_one_folder(before, folder);
        if last.route() != route_of(folder) {
            pushing_lists(kept, last, folder);
        }
        assert forall|i: int|
            0 <= i < entries.len() && (#[trigger] entries[i]).route() != route_of(folder) implies all.contains(
            entries[i],
        ) by {
            if i < before.len() {
                assert(before[i] == entries[i]);
                let k = choose|k: int| 0 <= k < kept.len() && kept[k] == entries[i];
                assert(all[k] == entries[i]);
            } else {
                assert(all[kept.len() as int] == entries[i]);
            }
        }
        assert forall|k: int| 0 <= k < all.len() implies entries.contains(#[trigger] all[k]) by {
            if k < kept.len() {
                assert(before.contains(kept[k]));
                let i = choose|i: int| 0 <= i < before.len() && before[i] == kept[k];
                assert(entries[i] == all[k]);
            } else {
                assert(entries[entries.len() - 1] == all[k]);
            }
        }
    }
}

/// The list heals itself around the notes folder: everything found there is in it, nothing that was
/// in it is lost, and it still has one entry per folder.
pub proof fn adopting_heals_the_list(entries: Seq<Entry>, found: Seq<Found>, now_ms: u64)
    requires
        one_per_folder(entries),
    ensures
        one_per_folder(adopted(entries, found, now_ms)),
        forall|i: int|
            0 <= i < found.len() ==> lists(
                adopted(entries, found, now_ms),
                (#[trigger] found[i]).folder@,
            ),
        adopted(entries, found, now_ms).len() >= entries.len(),
        adopted(entries, found, now_ms).take(entries.len() as int) == entries,
    decreases found.len(),
{
    if found.len() > 0 {
        let rest = found.drop_last();
        let last = found.last();
        let before = adopted(entries, rest, now_ms);
        let all = adopted(entries, found, now_ms);
        adopting_heals_the_list(entries, rest, now_ms);
        let entry = adopted_entry(last, now_ms);
        if !lists(before, last.folder@) {
            pushing_keeps_one_per_folder(before, entry);
        }
        assert forall|i: int| 0 <= i < found.len() implies lists(
            all,
            (#[trigger] found[i]).folder@,
        ) by {
            if i < rest.len() {
                assert(rest[i] == found[i]);
            }
            pushing_lists(before, entry, found[i].folder@);
        }
        assert(all.take(entries.len() as int) =~= before.take(entries.len() as int));
    } else {
        assert(entries.take(entries.len() as int) =~= entries);
    }
}

/// A note placed from a file is called by the file's stem again: what is put on its folder's name is
/// taken off, and nothing else is. A stem that is nothing, and one that makes the folder look like that
/// of a blank sheet, are the ones that are not.
pub proof fn a_title_undoes_a_folder_name(source: Seq<char>)
    requires
        folder_stem(source).len() > 0,
        !begins_with(folder_name_of(source), "blank-"@),
    ensures
        title_of_name(name_or_nothing(folder_name_of(source))) == folder_stem(source),
{
    let name = folder_name_of(source);
    a_folder_name_is_allowed(source);
    a_folder_name_splits_at_its_digest(source);
    assert forall|i: int| 0 <= i < name.len() implies !is_separator(#[trigger] name[i]) && name[i]
        != ':' by {}
    a_plain_name_is_its_own(name);
    let digest = name.skip((folder_stem(source).len() + 1) as int);
    assert forall|i: int| 0 <= i < digest.len() implies is_hex(#[trigger] digest[i]) by {
        assert(digest[i] == name[folder_stem(source).len() + 1 + i]);
    }
}

// ---------------------------------------------------------------------------------------------
// What is said of an entry
// ---------------------------------------------------------------------------------------------

/// An age is told in the largest unit that fits it, in whole numbers of it: minutes up to the hour, hours up
/// to the day, days up to thirty of them, and then months up to the year.
#[verifier::spinoff_prover]
pub proof fn an_age_is_told_in_whole_units(n: nat, rest: nat)
    ensures
        rest < 60_000 ==> age_text(rest) == "just now"@,
        rest < 60_000 ==> age_text(60_000 + rest) == "a minute ago"@,
        2 <= n < 60 && rest < 60_000 ==> age_text(n * 60_000 + rest) == decimal_text(n)
            + " minutes ago"@,
        rest < 3_600_000 ==> age_text(3_600_000 + rest) == "an hour ago"@,
        2 <= n < 24 && rest < 3_600_000 ==> age_text(n * 3_600_000 + rest) == decimal_text(n)
            + " hours ago"@,
        rest < 86_400_000 ==> age_text(86_400_000 + rest) == "yesterday"@,
        2 <= n < 30 && rest < 86_400_000 ==> age_text(n * 86_400_000 + rest) == decimal_text(n)
            + " days ago"@,
        30 <= n < 60 && rest < 86_400_000 ==> age_text(n * 86_400_000 + rest) == "a month ago"@,
        2 <= n && rest < 2_592_000_000 && n * 2_592_000_000 + rest < 31_536_000_000 ==> age_text(
            n * 2_592_000_000 + rest,
        ) == decimal_text(n) + " months ago"@,
        n >= 31_536_000_000 ==> age_text(n) == "a year ago"@,
{
    if rest < 60_000 {
        assert((n * 60_000 + rest) / 60_000 == n);
    }
    if rest < 3_600_000 {
        assert((n * 3_600_000 + rest) / 3_600_000 == n);
    }
    if rest < 86_400_000 {
        assert((n * 86_400_000 + rest) / 86_400_000 == n);
    }
    let month = 30 * 86_400_000nat;
    assert(month == 2_592_000_000);
    if rest < 2_592_000_000 {
        assert((n * 2_592_000_000 + rest) / 2_592_000_000 == n);
    }
}

/// The counts of a note are told in words, one of a thing as one; a note nothing was written in says so.
pub proof fn counts_are_told_in_words(pages: nat, strokes: nat)
    ensures
        counts_text(0, strokes) == "no pages yet"@,
        counts_text(1, 1) == "1 page · 1 stroke"@,
        strokes != 1 ==> counts_text(1, strokes) == "1 page · "@ + decimal_text(strokes)
            + " strokes"@,
        pages > 1 ==> counts_text(pages, 1) == decimal_text(pages) + " pages · 1 stroke"@,
        pages > 1 && strokes != 1 ==> counts_text(pages, strokes) == decimal_text(pages)
            + " pages · "@ + decimal_text(strokes) + " strokes"@,
{
}

/// A note that was just opened says what it was opened as, and nothing is known of what is in it.
pub proof fn an_opened_note_is_not_counted(
    folder: Seq<char>,
    source: Option<Seq<char>>,
    title: Seq<char>,
    document: Option<Seq<char>>,
    opened_at: u64,
)
    ensures
        ({
            let entry = opened_note(folder, source, title, document, opened_at);
            &&& entry.folder == folder
            &&& entry.source == source
            &&& entry.title == title
            &&& entry.document == document
            &&& entry.opened_at == opened_at
            &&& entry.summary.pages == 0
            &&& entry.summary.strokes == 0
            &&& entry.summary.sheet is None
            &&& entry.stamp is None
            &&& !entry.gone
        }),
{
}

/// A folder made for a blank sheet is called that; one made for a file is called by what stands in front of
/// the eight digits of its digest; and any other is called as it is.
pub proof fn a_folder_is_called_by_its_words(
    name: Seq<char>,
    rest: Seq<char>,
    stem: Seq<char>,
    digest: Seq<char>,
)
    ensures
        title_of_name("blank-"@ + rest) == "Blank sheet"@,
        stem.len() > 0 && digest.len() == 8 && (forall|i: int|
            0 <= i < 8 ==> ('0' <= #[trigger] digest[i] <= '9' || 'a' <= digest[i] <= 'f' || 'A'
                <= digest[i] <= 'F')) && !begins_with(stem.push('-') + digest, "blank-"@)
            ==> title_of_name(stem.push('-') + digest) == stem,
        !begins_with(name, "blank-"@) && !name.contains('-') ==> title_of_name(name) == name,
        !begins_with(stem.push('-') + digest, "blank-"@) && !digest.contains('-') && digest.len() != 8
            ==> title_of_name(stem.push('-') + digest) == stem.push('-') + digest,
{
    assert(("blank-"@ + rest).subrange(0, "blank-"@.len() as int) =~= "blank-"@);
    if digest.len() == 8 && (forall|i: int|
        0 <= i < 8 ==> ('0' <= #[trigger] digest[i] <= '9' || 'a' <= digest[i] <= 'f' || 'A'
            <= digest[i] <= 'F')) {
        assert forall|i: int| 0 <= i < digest.len() implies #[trigger] digest[i] != '-' && is_hex(
            digest[i],
        ) by {}
        crate::text::a_split_undoes_a_join(stem, '-', digest);
    }
    if !digest.contains('-') {
        crate::text::a_split_undoes_a_join(stem, '-', digest);
    }
    crate::text::a_text_is_split_at_the_last(name, '-');
}

/// Two entries say the same exactly where each thing they say is the same, their folders and files being one
/// path however it is written.
pub proof fn entries_say_the_same(a: Entry, b: Entry)
    ensures
        same_entry(a, b) <==> a.route() == b.route() && (a.source is Some <==> b.source is Some) && (
        a.source is Some ==> route_of(a.source->0) == route_of(b.source->0)) && a.title == b.title
            && a.document == b.document && a.opened_at == b.opened_at && a.summary == b.summary
            && a.stamp == b.stamp && a.gone == b.gone,
{
    assert((Entry { folder: b.folder, source: b.source, ..a }) == b <==> a.title == b.title
        && a.document == b.document && a.opened_at == b.opened_at && a.summary == b.summary
        && a.stamp == b.stamp && a.gone == b.gone) by {
        let put = Entry { folder: b.folder, source: b.source, ..a };
        if a.title == b.title && a.document == b.document && a.opened_at == b.opened_at && a.summary
            == b.summary && a.stamp == b.stamp && a.gone == b.gone {
            assert(put =~= b);
        }
    }
}

/// Opening a note the list does not have adds its entry; opening one it has puts what was opened in its
/// place, and keeps its counts and the database they came from. Every other entry stays.
pub proof fn an_opened_note_is_listed(entries: Seq<Entry>, fresh: Entry, at: int)
    requires
        0 <= at < entries.len(),
        forall|i: int|
            0 <= i < entries.len() && i != at ==> (#[trigger] entries[i]).route() != fresh.route(),
    ensures
        entries[at].route() != fresh.route() ==> recorded(entries, fresh) == entries.push(fresh),
        entries[at].route() == fresh.route() ==> {
            let after = recorded(entries, fresh);
            &&& after.len() == entries.len()
            &&& forall|i: int|
                0 <= i < entries.len() && i != at ==> after[i] == #[trigger] entries[i]
            &&& after[at].folder == fresh.folder
            &&& after[at].source == fresh.source
            &&& after[at].title == fresh.title
            &&& after[at].document == fresh.document
            &&& after[at].opened_at == fresh.opened_at
            &&& after[at].gone == fresh.gone
            &&& after[at].summary == entries[at].summary
            &&& after[at].stamp == entries[at].stamp
        },
{
    place_tells(entries, fresh.folder);
}

/// The first note of all is the list.
pub proof fn the_first_note_is_the_list(fresh: Entry)
    ensures
        settled(recorded(seq![], fresh)) == seq![fresh],
{
    let all = recorded(seq![], fresh);
    assert(all =~= seq![fresh]);
    assert(all.drop_last() =~= seq![]);
    assert(newest_first(Seq::<Entry>::empty()) =~= seq![]);
    assert(newest_first(all) =~= seq![fresh]);
}

/// What a scan learned of a note is said of its entry alone: the counts and the database they came from.
pub proof fn what_is_learned_is_said(
    entries: Seq<Entry>,
    folder: Seq<char>,
    stamp: Stamp,
    summary: Summary,
    at: int,
)
    requires
        0 <= at < entries.len(),
        forall|i: int|
            0 <= i < at ==> (#[trigger] entries[i]).route() != route_of(folder),
    ensures
        ({
            let after = learned(entries, folder, stamp, summary);
            &&& after.len() == entries.len()
            &&& entries[at].route() == route_of(folder) ==> {
                &&& forall|i: int|
                    0 <= i < entries.len() && i != at ==> after[i] == #[trigger] entries[i]
                &&& after[at].summary == summary
                &&& after[at].stamp == Some(stamp)
                &&& after[at].folder == entries[at].folder
                &&& after[at].source == entries[at].source
                &&& after[at].title == entries[at].title
                &&& after[at].document == entries[at].document
                &&& after[at].opened_at == entries[at].opened_at
                &&& after[at].gone == entries[at].gone
            }
            &&& !lists(entries, folder) ==> after == entries
        }),
{
    place_tells(entries, folder);
}

/// A scan marks each entry as gone exactly where its folder is not there, and says nothing else of it.
pub proof fn a_missing_folder_is_marked(entries: Seq<Entry>, present: Seq<bool>, i: int)
    requires
        0 <= i < entries.len() == present.len(),
    ensures
        marked(entries, present).len() == entries.len(),
        marked(entries, present)[i].gone == !present[i],
        (Entry { gone: entries[i].gone, ..marked(entries, present)[i] }) == entries[i],
{
    assert((Entry { gone: entries[i].gone, ..marked(entries, present)[i] }) =~= entries[i]);
}

/// A folder nobody told the list about joins it at the end: under the name it can be called by, as opened when
/// its database was last written, or now, and with nothing known of what is in it. One the list has does not
/// join it again. Folders are taken in one after the other.
pub proof fn a_found_folder_is_adopted(
    entries: Seq<Entry>,
    found: Seq<Found>,
    one: Found,
    now_ms: u64,
)
    ensures
        adopted(entries, seq![], now_ms) == entries,
        ({
            let before = adopted(entries, found, now_ms);
            let after = adopted(entries, found.push(one), now_ms);
            &&& lists(before, one.folder@) ==> after == before
            &&& !lists(before, one.folder@) ==> {
                &&& after.drop_last() == before
                &&& after.last().folder == one.folder@
                &&& after.last().title == title_of_name(name_or_nothing(one.folder@))
                &&& after.last().opened_at == (match one.written_ms {
                    Some(written) => written,
                    None => now_ms,
                })
                &&& after.last().source is None
                &&& after.last().document is None
                &&& after.last().stamp is None
                &&& after.last().summary.strokes == 0
                &&& after.last().summary.pages == 0
                &&& !after.last().gone
            }
        }),
{
    assert(found.push(one).drop_last() =~= found);
    let before = adopted(entries, found, now_ms);
    assert(before.push(adopted_entry(one, now_ms)).drop_last() =~= before);
}

/// A list has a folder exactly where one of its entries is in it, however the path is written.
pub proof fn a_list_has_what_it_names(entries: Seq<Entry>, folder: Seq<char>)
    ensures
        lists(entries, folder) <==> exists|i: int|
            0 <= i < entries.len() && route_of((#[trigger] entries[i]).folder) == route_of(folder),
{
    if lists(entries, folder) {
        let i = choose|i: int|
            0 <= i < entries.len() && (#[trigger] entries[i]).route() == route_of(folder);
        assert(route_of(entries[i].folder) == route_of(folder));
    }
}

/// The list keeps forty notes, the newest: what is dropped is not newer than anything that is kept. A list that
/// is not longer keeps everything.
pub proof fn the_newest_forty_are_kept(entries: Seq<Entry>, i: int)
    requires
        0 <= i < entries.len(),
    ensures
        entries.len() <= 40 ==> settled(entries).to_multiset() == entries.to_multiset(),
        entries.len() > 40 ==> settled(entries).len() == 40,
        settled(entries).contains(entries[i]) || (settled(entries).len() == 40 && forall|k: int|
            0 <= k < 40 ==> (#[trigger] settled(entries)[k]).opened_at >= entries[i].opened_at),
        forall|j: int, k: int|
            0 <= j < k < settled(entries).len() ==> (#[trigger] settled(entries)[j]).opened_at >= (
            #[trigger] settled(entries)[k]).opened_at,
{
    broadcast use vstd::seq_lib::group_to_multiset_ensures;

    newest_first_is_sorted(entries);
    the_list_is_settled(entries);
    let sorted = newest_first(entries);
    assert(entries.to_multiset().count(entries[i]) > 0);
    assert(sorted.contains(entries[i]));
    let at = choose|at: int| 0 <= at < sorted.len() && sorted[at] == entries[i];
    if at < settled(entries).len() {
        assert(settled(entries)[at] == entries[i]);
    } else {
        assert forall|k: int| 0 <= k < 40 implies (#[trigger] settled(entries)[k]).opened_at
            >= entries[i].opened_at by {
            assert(settled(entries)[k] == sorted[k]);
            assert(sorted[k].opened_at >= sorted[at].opened_at);
        }
    }
}

/// Forgetting leaves the other entries as they are and in their order: what is forgotten after one entry more
/// is that entry's alone to add.
pub proof fn forgetting_leaves_the_rest(entries: Seq<Entry>, folder: Seq<char>, entry: Entry)
    ensures
        forgotten(seq![], folder) == Seq::<Entry>::empty(),
        route_of(entry.folder) == route_of(folder) ==> forgotten(entries.push(entry), folder)
            == forgotten(entries, folder),
        route_of(entry.folder) != route_of(folder) ==> forgotten(entries.push(entry), folder)
            == forgotten(entries, folder).push(entry),
{
    assert(entries.push(entry).drop_last() =~= entries);
}

/// The list as it is written down says of each note what the list says, but for whether its folder is missing.
pub proof fn what_is_written_down_is_the_list(entries: Seq<Entry>, i: int)
    requires
        0 <= i < entries.len(),
    ensures
        written_down(entries).len() == entries.len(),
        !written_down(entries)[i].gone,
        (Entry { gone: entries[i].gone, ..written_down(entries)[i] }) == entries[i],
{
    assert((Entry { gone: entries[i].gone, ..written_down(entries)[i] }) =~= entries[i]);
}

/// An entry says what was remembered of its note, each thing under its own name, and a list has one for each
/// note, in order.
pub proof fn an_entry_says_what_was_remembered(recents: Seq<Recent>, i: int)
    requires
        0 <= i < recents.len(),
    ensures
        entries_of(recents).len() == recents.len(),
        ({
            let entry = entries_of(recents)[i];
            &&& entry.folder == recents[i].folder@
            &&& entry.title == recents[i].title@
            &&& recents[i].source is None ==> entry.source is None
            &&& recents[i].source matches Some(source) ==> entry.source == Some(source@)
            &&& recents[i].document is None ==> entry.document is None
            &&& recents[i].document matches Some(document) ==> entry.document == Some(document@)
            &&& entry.opened_at == recents[i].opened_at
            &&& entry.summary == recents[i].summary
            &&& entry.stamp == recents[i].stamp
            &&& entry.gone == recents[i].gone
        }),
{
}

} // verus!
