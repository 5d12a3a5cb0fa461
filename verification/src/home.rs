//! The home screen: what was opened, searched, highlighted and kept up to date.

use crate::paths::{name_of, name_or_nothing, route_of, same_path};
use crate::recent::{
    adopted, age_text, counts_text, entries_of, forgotten, learned, marked, recorded,
    same_entry, settled, title_of_name, Entry, Found, Recent, Recents, Stamp, Summary,
};
use crate::text::{
    contains, contains_text, copy_maybe, decimal, decimal_text, lowercase, lowercase_of, maybe_text,
};
use vstd::prelude::*;

verus! {

// ---------------------------------------------------------------------------------------------
// Searching
// ---------------------------------------------------------------------------------------------

/// Whether one of some texts has a part in it.
pub open spec fn one_contains(texts: Seq<String>, part: Seq<char>) -> bool {
    exists|i: int| 0 <= i < texts.len() && contains_text((#[trigger] texts[i])@, part)
}

/// Whether one of some texts has a part in it.
pub fn any_contains(texts: &Vec<String>, part: &str) -> (found: bool)
    ensures
        found == one_contains(texts@, part@),
{
    let mut index: usize = 0;
    while index < texts.len()
        invariant
            index <= texts@.len(),
            forall|i: int| 0 <= i < index ==> !contains_text((#[trigger] texts@[i])@, part@),
        decreases texts@.len() - index,
    {
        if contains(texts[index].as_str(), part) {
            assert(contains_text(texts@[index as int]@, part@));
            return true;
        }
        index = index + 1;
    }
    false
}

/// Whether a query names an entry: a word finds a note by its name, its document, its folder or its
/// file, in any case, and no word at all finds every note.
///
/// The file is searched only where there is one: the words a row says when there is none must not
/// match every row.
pub open spec fn named_by(entry: Entry, query: Seq<char>) -> bool {
    let needle = lowercase_of(query);
    ||| query.len() == 0
    ||| contains_text(lowercase_of(entry.title), needle)
    ||| contains_text(
        lowercase_of(
            match entry.document {
                Some(document) => document,
                None => seq![],
            },
        ),
        needle,
    )
    ||| contains_text(lowercase_of(name_or_nothing(entry.folder)), needle)
    ||| entry.source matches Some(source) && contains_text(lowercase_of(source), needle)
}

/// Whether a query names an entry.
pub fn matches(entry: &Recent, query: &str) -> (named: bool)
    ensures
        named == named_by(entry@, query@),
{
    if query.is_empty() {
        return true;
    }
    let needle: String = lowercase(query);
    let document: String = match &entry.document {
        Some(document) => document.clone(),
        None => String::new(),
    };
    let folder: String = name_of(entry.folder.as_str());
    let mut texts: Vec<String> = Vec::new();
    texts.push(lowercase(entry.title.as_str()));
    texts.push(lowercase(document.as_str()));
    texts.push(lowercase(folder.as_str()));
    let ghost three = texts@;
    match &entry.source {
        Some(source) => {
            texts.push(lowercase(source.as_str()));
        },
        None => {},
    }
    let found: bool = any_contains(&texts, needle.as_str());
    proof {
        assert(texts@[0] == three[0] && texts@[1] == three[1] && texts@[2] == three[2]);
        if named_by(entry@, query@) {
            if contains_text(lowercase_of(entry@.title), needle@) {
                assert(contains_text(texts@[0]@, needle@));
            } else if contains_text(texts@[1]@, needle@) {
            } else if contains_text(texts@[2]@, needle@) {
            } else {
                assert(contains_text(texts@[3]@, needle@));
            }
        }
        if one_contains(texts@, needle@) {
            let i = choose|i: int|
                0 <= i < texts@.len() && contains_text((#[trigger] texts@[i])@, needle@);
            assert(i == 0 || i == 1 || i == 2 || i == 3);
        }
    }
    found
}

/// The places of the entries a query names, in order.
pub open spec fn visible_of(entries: Seq<Entry>, query: Seq<char>) -> Seq<usize>
    decreases entries.len(),
{
    if entries.len() == 0 {
        seq![]
    } else {
        let before = visible_of(entries.drop_last(), query);
        if named_by(entries.last(), query) {
            before.push((entries.len() - 1) as usize)
        } else {
            before
        }
    }
}

/// The places of the entries a query names, in order.
pub fn visible_indices(entries: &Vec<Recent>, query: &str) -> (visible: Vec<usize>)
    ensures
        visible@ == visible_of(entries_of(entries@), query@),
{
    let ghost all = entries_of(entries@);
    let mut visible: Vec<usize> = Vec::new();
    let mut index: usize = 0;
    assert(all.take(0) =~= seq![]);
    while index < entries.len()
        invariant
            index <= entries@.len(),
            all == entries_of(entries@),
            visible@ == visible_of(all.take(index as int), query@),
        decreases entries@.len() - index,
    {
        assert(all.take(index + 1).drop_last() =~= all.take(index as int));
        assert(all.take(index + 1).last() == all[index as int]);
        if matches(&entries[index], query) {
            visible.push(index);
        }
        index = index + 1;
    }
    assert(all.take(index as int) =~= all);
    visible
}

/// A search keeps exactly the entries it names, in the order they were in.
pub proof fn a_search_is_exact(entries: Seq<Entry>, query: Seq<char>)
    requires
        entries.len() <= usize::MAX,
    ensures
        forall|k: int|
            0 <= k < visible_of(entries, query).len() ==> (#[trigger] visible_of(entries, query)[k])
                < entries.len() && named_by(entries[visible_of(entries, query)[k] as int], query),
        forall|j: int, k: int|
            0 <= j < k < visible_of(entries, query).len() ==> (#[trigger] visible_of(
                entries,
                query,
            )[j]) < (#[trigger] visible_of(entries, query)[k]),
        forall|i: int|
            0 <= i < entries.len() && #[trigger] named_by(entries[i], query) ==> visible_of(
                entries,
                query,
            ).contains(i as usize),
    decreases entries.len(),
{
    if entries.len() > 0 {
        let rest = entries.drop_last();
        let before = visible_of(rest, query);
        let all = visible_of(entries, query);
        a_search_is_exact(rest, query);
        assert forall|k: int| 0 <= k < all.len() implies (#[trigger] all[k]) < entries.len()
            && named_by(entries[all[k] as int], query) by {
            if k < before.len() {
                assert(all[k] == before[k]);
                assert(rest[before[k] as int] == entries[before[k] as int]);
            }
        }
        assert forall|j: int, k: int| 0 <= j < k < all.len() implies (#[trigger] all[j]) < (
        #[trigger] all[k]) by {
            assert(all[j] == before[j]);
            if k < before.len() {
                assert(all[k] == before[k]);
            }
        }
        assert forall|i: int|
            0 <= i < entries.len() && #[trigger] named_by(
                entries[i],
                query,
            ) implies all.contains(i as usize) by {
            if i < rest.len() {
                assert(rest[i] == entries[i]);
                assert(before.contains(i as usize));
                let k = choose|k: int| 0 <= k < before.len() && before[k] == i as usize;
                assert(all[k] == i as usize);
            } else {
                assert(all[before.len() as int] == i as usize);
            }
        }
    }
}

/// An empty search keeps every entry.
pub proof fn an_empty_search_keeps_everything(entries: Seq<Entry>)
    ensures
        visible_of(entries, seq![]) == Seq::new(entries.len(), |i: int| i as usize),
    decreases entries.len(),
{
    if entries.len() > 0 {
        an_empty_search_keeps_everything(entries.drop_last());
        assert(visible_of(entries, seq![]) =~= Seq::new(entries.len(), |i: int| i as usize));
    } else {
        assert(visible_of(entries, seq![]) =~= Seq::new(entries.len(), |i: int| i as usize));
    }
}

// ---------------------------------------------------------------------------------------------
// Scanning
// ---------------------------------------------------------------------------------------------

/// Whether a note's counts have to be read again: its database is there, and is not the one the
/// counts came from.
pub open spec fn is_stale(known: Option<Stamp>, fresh: Option<Stamp>) -> bool {
    fresh is Some && known != fresh
}

/// The places of the first notes whose counts have to be read again, in order.
pub open spec fn stale_of(known: Seq<Option<Stamp>>, fresh: Seq<Option<Stamp>>) -> Seq<usize>
    decreases known.len(),
{
    if known.len() == 0 {
        seq![]
    } else {
        let before = stale_of(known.drop_last(), fresh);
        if is_stale(known.last(), fresh[known.len() - 1]) {
            before.push((known.len() - 1) as usize)
        } else {
            before
        }
    }
}

/// Which notes a scan has to open: the ones whose database is not the one their counts came from. A
/// note that has not been written in is not opened, and one that is gone cannot be.
pub fn scan(known: &Vec<Option<Stamp>>, fresh: &Vec<Option<Stamp>>) -> (stale: Vec<usize>)
    requires
        known@.len() == fresh@.len(),
    ensures
        stale@ == stale_of(known@, fresh@),
{
    let mut stale: Vec<usize> = Vec::new();
    let mut index: usize = 0;
    assert(known@.take(0) =~= seq![]);
    while index < known.len()
        invariant
            index <= known@.len() == fresh@.len(),
            stale@ == stale_of(known@.take(index as int), fresh@),
        decreases known@.len() - index,
    {
        assert(known@.take(index + 1).drop_last() =~= known@.take(index as int));
        assert(known@.take(index + 1).last() == known@[index as int]);
        let read: bool = match (known[index], fresh[index]) {
            (_, None) => false,
            (None, Some(_)) => true,
            (Some(then), Some(now)) => !(then == now),
        };
        assert(read == is_stale(known@[index as int], fresh@[index as int]));
        if read {
            stale.push(index);
        }
        index = index + 1;
    }
    assert(known@.take(index as int) =~= known@);
    stale
}

/// A scan reads only the notes that changed, and all of them.
pub proof fn a_scan_is_exact(known: Seq<Option<Stamp>>, fresh: Seq<Option<Stamp>>, i: int)
    requires
        known.len() <= fresh.len(),
        known.len() <= usize::MAX,
        0 <= i < known.len(),
    ensures
        stale_of(known, fresh).contains(i as usize) <==> is_stale(known[i], fresh[i]),
        forall|k: int|
            0 <= k < stale_of(known, fresh).len() ==> (#[trigger] stale_of(known, fresh)[k])
                < known.len(),
    decreases known.len(),
{
    let rest = known.drop_last();
    let before = stale_of(rest, fresh);
    let all = stale_of(known, fresh);
    stale_stays_inside(rest, fresh);
    if i < rest.len() {
        a_scan_is_exact(rest, fresh, i);
        if before.contains(i as usize) {
            let k = choose|k: int| 0 <= k < before.len() && before[k] == i as usize;
            assert(all[k] == i as usize);
        }
        if all.contains(i as usize) {
            let k = choose|k: int| 0 <= k < all.len() && all[k] == i as usize;
            assert(k < before.len());
            assert(before[k] == i as usize);
        }
    } else {
        if is_stale(known[i], fresh[i]) {
            assert(all[before.len() as int] == i as usize);
        } else if all.contains(i as usize) {
            let k = choose|k: int| 0 <= k < all.len() && all[k] == i as usize;
            assert(before[k] < rest.len());
        }
    }
}

/// Every stale note is one of the notes asked about.
proof fn stale_stays_inside(known: Seq<Option<Stamp>>, fresh: Seq<Option<Stamp>>)
    requires
        known.len() <= usize::MAX,
    ensures
        forall|k: int|
            0 <= k < stale_of(known, fresh).len() ==> (#[trigger] stale_of(known, fresh)[k])
                < known.len(),
    decreases known.len(),
{
    if known.len() > 0 {
        let before = stale_of(known.drop_last(), fresh);
        let all = stale_of(known, fresh);
        stale_stays_inside(known.drop_last(), fresh);
        assert forall|k: int| 0 <= k < all.len() implies (#[trigger] all[k]) < known.len() by {
            if k < before.len() {
                assert(all[k] == before[k]);
            }
        }
    }
}

// ---------------------------------------------------------------------------------------------
// The list on the screen
// ---------------------------------------------------------------------------------------------

/// What a row of the list says.
#[derive(Debug)]
pub struct Row {
    /// The note's name.
    pub name: String,
    /// Where it came from, and whether it is still there.
    pub origin: String,
    /// What is in it.
    pub counts: String,
    /// When it was last opened.
    pub age: String,
    /// Whether it is about a document rather than paper.
    pub about_document: bool,
}

/// Where a note came from, in words.
pub open spec fn origin_text(entry: Entry) -> Seq<char> {
    match entry.source {
        Some(source) => source,
        None => "written in cheap-note"@,
    }
}

/// What a row of the list says, from the entry it shows.
pub fn row_of(entry: &Recent, now_ms: u64) -> (row: Row)
    ensures
        row.name@ == (if entry@.title.len() == 0 {
            title_of_name(name_or_nothing(entry@.folder))
        } else {
            entry@.title
        }),
        row.origin@ == (if entry@.gone {
            "not on disk \u{2014} "@ + origin_text(entry@)
        } else {
            origin_text(entry@)
        }),
        row.counts@ == (if entry@.stamp is Some {
            counts_text(entry@.summary.pages as nat, entry@.summary.strokes as nat)
        } else {
            "\u{2026}"@
        }),
        row.age@ == age_text(
            if now_ms >= entry@.opened_at {
                (now_ms - entry@.opened_at) as nat
            } else {
                0
            },
        ),
        row.about_document == (entry@.document is Some),
{
    let name: String = if entry.title.as_str().is_empty() {
        Recent::title_for(entry.folder.as_str())
    } else {
        entry.title.clone()
    };
    let origin: String = if entry.gone {
        String::from_str("not on disk \u{2014} ").concat(entry.origin().as_str())
    } else {
        entry.origin()
    };
    let counts: String = if entry.counted() {
        entry.counts()
    } else {
        String::from_str("\u{2026}")
    };
    Row {
        name,
        origin,
        counts,
        age: entry.age(now_ms),
        about_document: entry.document.is_some(),
    }
}

/// What choosing a row asks for.
#[derive(Debug)]
pub enum Choice {
    /// Open the note.
    Open(Recent),
    /// Take it out of the list.
    Forget(Recent),
}

/// The list of what was opened, with what is being looked for and which row is highlighted.
#[derive(Debug)]
pub struct RecentsDelegate {
    all: Vec<Recent>,
    visible: Vec<usize>,
    query: String,
    selected: Option<usize>,
}

/// A copy of a list of entries.
pub fn copy_entries(entries: &Vec<Recent>) -> (copy: Vec<Recent>)
    ensures
        entries_of(copy@) == entries_of(entries@),
{
    let mut copy: Vec<Recent> = Vec::new();
    let mut index: usize = 0;
    while index < entries.len()
        invariant
            index <= entries@.len(),
            entries_of(copy@) == entries_of(entries@).take(index as int),
        decreases entries@.len() - index,
    {
        let ghost held = entries_of(copy@);
        let entry: Recent = entries[index].copy();
        let ghost copied = entry@;
        copy.push(entry);
        assert(entries_of(copy@) =~= held.push(copied));
        index = index + 1;
        assert(entries_of(copy@) =~= entries_of(entries@).take(index as int));
    }
    assert(entries_of(copy@) =~= entries_of(entries@));
    copy
}

impl RecentsDelegate {
    /// Every entry, in order.
    pub closed spec fn all(&self) -> Seq<Entry> {
        entries_of(self.all@)
    }

    /// What is being looked for.
    pub closed spec fn query(&self) -> Seq<char> {
        self.query@
    }

    /// The highlighted row.
    pub closed spec fn selected(&self) -> Option<usize> {
        self.selected
    }

    /// The rows that are showing.
    pub open spec fn shown(&self) -> Seq<usize> {
        visible_of(self.all(), self.query())
    }

    /// The rows that are showing are the ones the query names.
    pub closed spec fn wf(&self) -> bool {
        self.visible@ == visible_of(entries_of(self.all@), self.query@)
    }

    /// The entry a row shows, if the row is showing.
    pub open spec fn entry_on(&self, row: int) -> Option<Entry> {
        if 0 <= row < self.shown().len() {
            Some(self.all()[self.shown()[row] as int])
        } else {
            None
        }
    }

    /// A list with nothing looked for and nothing highlighted.
    pub fn new(entries: Vec<Recent>) -> (list: Self)
        ensures
            list.wf(),
            list.all() == entries_of(entries@),
            list.query() == Seq::<char>::empty(),
            list.selected() is None,
    {
        let query: String = String::new();
        let visible: Vec<usize> = visible_indices(&entries, query.as_str());
        RecentsDelegate { all: entries, visible, query, selected: None }
    }

    /// Hands the list what the index holds now. A highlight on a row that is no longer there is not
    /// a highlight.
    pub fn set_entries(&mut self, entries: Vec<Recent>)
        requires
            old(self).wf(),
        ensures
            final(self).wf(),
            final(self).all() == entries_of(entries@),
            final(self).query() == old(self).query(),
            final(self).selected() == (match old(self).selected() {
                Some(row) => if row < final(self).shown().len() {
                    Some(row)
                } else {
                    None
                },
                None => None::<usize>,
            }),
    {
        self.visible = visible_indices(&entries, self.query.as_str());
        self.all = entries;
        match self.selected {
            Some(row) => {
                if row >= self.visible.len() {
                    self.selected = None;
                }
            },
            None => {},
        }
    }

    /// How many rows are showing.
    pub fn items_count(&self) -> (count: usize)
        requires
            self.wf(),
        ensures
            count == self.shown().len(),
    {
        self.visible.len()
    }

    /// Looks for something. A search that leaves rows showing starts at the top of them.
    pub fn perform_search(&mut self, query: &str)
        requires
            old(self).wf(),
        ensures
            final(self).wf(),
            final(self).all() == old(self).all(),
            final(self).query() == query@,
            final(self).selected() == (if final(self).shown().len() > 0 {
                Some(0usize)
            } else {
                None
            }),
    {
        self.query = String::from_str(query);
        self.visible = visible_indices(&self.all, query);
        self.selected = if self.visible.len() > 0 {
            Some(0)
        } else {
            None
        };
    }

    /// Highlights a row, or none.
    pub fn set_selected_index(&mut self, row: Option<usize>)
        requires
            old(self).wf(),
        ensures
            final(self).wf(),
            final(self).all() == old(self).all(),
            final(self).query() == old(self).query(),
            final(self).selected() == row,
    {
        self.selected = row;
    }

    /// The entry a row shows, if the row is showing.
    pub fn entry_at(&self, row: usize) -> (entry: Option<&Recent>)
        requires
            self.wf(),
        ensures
            match entry {
                Some(entry) => self.entry_on(row as int) == Some(entry@),
                None => self.entry_on(row as int) is None,
            },
    {
        if row >= self.visible.len() {
            return None;
        }
        let index: usize = self.visible[row];
        let count: usize = self.all.len();
        proof {
            a_search_is_exact(self.all(), self.query());
        }
        assert(index == self.shown()[row as int]);
        assert(count == self.all().len());
        Some(&self.all[index])
    }

    /// The highlighted entry, if a row that is showing is highlighted.
    pub fn selected_entry(&self) -> (entry: Option<&Recent>)
        requires
            self.wf(),
        ensures
            match entry {
                Some(entry) => self.selected() is Some && self.entry_on(
                    self.selected()->0 as int,
                ) == Some(entry@),
                None => self.selected() is None || self.entry_on(
                    self.selected()->0 as int,
                ) is None,
            },
    {
        match self.selected {
            Some(row) => self.entry_at(row),
            None => None,
        }
    }

    /// What choosing the highlighted row asks for: to open it, or — with the other button — to take
    /// it out of the list.
    pub fn confirm(&self, secondary: bool) -> (choice: Option<Choice>)
        requires
            self.wf(),
        ensures
            match choice {
                Some(Choice::Open(entry)) => !secondary && self.selected() is Some
                    && self.entry_on(self.selected()->0 as int) == Some(entry@),
                Some(Choice::Forget(entry)) => secondary && self.selected() is Some
                    && self.entry_on(self.selected()->0 as int) == Some(entry@),
                None => self.selected() is None || self.entry_on(
                    self.selected()->0 as int,
                ) is None,
            },
    {
        match self.selected_entry() {
            Some(entry) => if secondary {
                Some(Choice::Forget(entry.copy()))
            } else {
                Some(Choice::Open(entry.copy()))
            },
            None => None,
        }
    }

    /// Whether a row is the highlighted one.
    pub fn is_selected(&self, row: usize) -> (yes: bool)
        ensures
            yes == (self.selected() == Some(row)),
    {
        match self.selected {
            Some(selected) => selected == row,
            None => false,
        }
    }

    /// Highlights the first row that shows a folder, and answers with it.
    pub fn reveal_folder(&mut self, folder: &str) -> (row: Option<usize>)
        requires
            old(self).wf(),
        ensures
            final(self).wf(),
            final(self).all() == old(self).all(),
            final(self).query() == old(self).query(),
            match row {
                Some(row) => {
                    &&& final(self).selected() == Some(row)
                    &&& old(self).entry_on(row as int) is Some
                    &&& old(self).entry_on(row as int)->0.route() == route_of(folder@)
                    &&& forall|r: int|
                        0 <= r < row ==> (#[trigger] old(self).entry_on(r))->0.route() != route_of(
                            folder@,
                        )
                },
                None => final(self).selected() == old(self).selected() && (forall|r: int|
                    0 <= r < old(self).shown().len() ==> (#[trigger] old(self).entry_on(
                        r,
                    ))->0.route() != route_of(
                            folder@,
                        )),
            },
    {
        let count: usize = self.all.len();
        proof {
            assert(count == self.all().len());
            a_search_is_exact(self.all(), self.query());
        }
        let mut row: usize = 0;
        while row < self.visible.len()
            invariant
                row <= self.visible@.len(),
                self == old(self),
                self.wf(),
                count == self.all@.len(),
                forall|k: int|
                    0 <= k < self.shown().len() ==> (#[trigger] self.shown()[k]) < self.all().len(),
                forall|r: int|
                    0 <= r < row ==> (#[trigger] self.entry_on(r))->0.route() != route_of(
                            folder@,
                        ),
            decreases self.visible@.len() - row,
        {
            let index: usize = self.visible[row];
            assert(index == self.shown()[row as int]);
            assert(self.entry_on(row as int) == Some(self.all@[index as int]@));
            if same_path(self.all[index].folder.as_str(), folder) {
                self.selected = Some(row);
                return Some(row);
            }
            row = row + 1;
        }
        None
    }

    /// What the list says when no row is showing: a title, and a line under it.
    pub fn empty_text(&self, notes_root: &str) -> (said: (String, String))
        ensures
            self.query().len() == 0 ==> said.0@ == "Nothing here yet"@ && said.1@
                == "Write on a PDF, or on a blank sheet \u{2014} whatever you open comes back here. Notes live in "@
                + notes_root@,
            self.query().len() > 0 ==> said.0@ == "Nothing matches \u{201c}"@ + self.query()
                + "\u{201d}"@ && said.1@
                == "A word finds a note by its name, its document, its file, or its folder."@,
    {
        if self.query.as_str().is_empty() {
            (
                String::from_str("Nothing here yet"),
                String::from_str(
                    "Write on a PDF, or on a blank sheet \u{2014} whatever you open comes back here. Notes live in ",
                ).concat(notes_root),
            )
        } else {
            (
                String::from_str("Nothing matches \u{201c}").concat(self.query.as_str()).concat(
                    "\u{201d}",
                ),
                String::from_str(
                    "A word finds a note by its name, its document, its file, or its folder.",
                ),
            )
        }
    }
}

// ---------------------------------------------------------------------------------------------
// The screen
// ---------------------------------------------------------------------------------------------

/// What a scan read of one note.
#[derive(Debug)]
pub struct Article {
    /// Where the note is.
    pub folder: String,
    /// The database its counts came from.
    pub stamp: Stamp,
    /// Its counts.
    pub summary: Summary,
}

/// Whether a scan is followed by another: one that took in folders nobody had told the list about has
/// their counts one pass away, and that pass takes in nothing.
pub fn scans_again(changed: bool, articles: &Vec<Article>) -> (again: bool)
    ensures
        again == (changed && articles@.len() == 0),
{
    changed && articles.len() == 0
}

/// The list with what a scan read of each of some notes.
pub open spec fn learned_all(entries: Seq<Entry>, articles: Seq<Article>) -> Seq<Entry>
    decreases articles.len(),
{
    if articles.len() == 0 {
        entries
    } else {
        let last = articles.last();
        learned(learned_all(entries, articles.drop_last()), last.folder@, last.stamp, last.summary)
    }
}

/// What the frame that draws the screen has to do for it, once.
#[derive(Debug)]
pub struct Settling {
    /// Whether the list is handed the entries.
    pub entries: bool,
    /// Whether the list is given the keyboard.
    pub focus: bool,
    /// The folder whose row is highlighted and scrolled to.
    pub reveal: Option<String>,
}

/// The home screen: the index, and what the screen is waiting to show of it.
#[derive(Debug)]
pub struct Home {
    recents: Recents,
    open: bool,
    scanning: bool,
    dirty: bool,
    pending: bool,
    reveal: Option<String>,
}

/// What the home screen is, mathematically.
#[verifier::ext_equal]
pub ghost struct Screen {
    pub entries: Seq<Entry>,
    pub open: bool,
    pub scanning: bool,
    pub dirty: bool,
    pub pending: bool,
    pub reveal: Option<Seq<char>>,
}

impl View for Home {
    type V = Screen;

    closed spec fn view(&self) -> Screen {
        Screen {
            entries: self.recents@,
            open: self.open,
            scanning: self.scanning,
            dirty: self.dirty,
            pending: self.pending,
            reveal: maybe_text(self.reveal),
        }
    }
}

/// How many entries of a list are not on disk.
pub open spec fn gone_in(entries: Seq<Entry>) -> nat
    decreases entries.len(),
{
    if entries.len() == 0 {
        0
    } else {
        gone_in(entries.drop_last()) + if entries.last().gone {
            1nat
        } else {
            0
        }
    }
}

/// The line under the list.
pub open spec fn status_text(entries: Seq<Entry>, scanning: bool) -> Seq<char> {
    let total = decimal_text(entries.len()) + if entries.len() == 1 {
        " note"@
    } else {
        " notes"@
    };
    let gone = if gone_in(entries) > 0 {
        "   \u{b7}   "@ + decimal_text(gone_in(entries)) + " not on disk"@
    } else {
        seq![]
    };
    let reading = if scanning {
        "   \u{b7}   reading notes\u{2026}"@
    } else {
        seq![]
    };
    total + gone + reading
        + "   \u{b7}   Enter opens \u{b7} type to find \u{b7} Esc leaves the note"@
}

/// Whether two lists say the same, entry by entry.
pub open spec fn same_list(a: Seq<Entry>, b: Seq<Entry>) -> bool {
    a.len() == b.len() && forall|i: int| 0 <= i < a.len() ==> same_entry(#[trigger] a[i], b[i])
}

/// Whether two lists say the same.
fn same_entries(a: &Vec<Recent>, b: &Vec<Recent>) -> (same: bool)
    ensures
        same == same_list(entries_of(a@), entries_of(b@)),
{
    if a.len() != b.len() {
        assert(entries_of(a@).len() != entries_of(b@).len());
        return false;
    }
    let mut index: usize = 0;
    while index < a.len()
        invariant
            index <= a@.len() == b@.len(),
            forall|i: int|
                0 <= i < index ==> same_entry(#[trigger] entries_of(a@)[i], entries_of(b@)[i]),
        decreases a@.len() - index,
    {
        assert(entries_of(a@)[index as int] == a@[index as int]@);
        assert(entries_of(b@)[index as int] == b@[index as int]@);
        if !a[index].same(&b[index]) {
            return false;
        }
        index = index + 1;
    }
    true
}

impl Home {
    /// The screen as the app starts with it: showing, with the list an index file holds.
    pub fn open(index: Option<Vec<Recent>>) -> (home: Self)
        ensures
            home@ == (Screen {
                entries: settled(
                    match index {
                        Some(entries) => entries_of(entries@),
                        None => seq![],
                    },
                ),
                open: true,
                scanning: false,
                dirty: false,
                pending: false,
                reveal: None,
            }),
    {
        Home {
            recents: Recents::load(index),
            open: true,
            scanning: false,
            dirty: false,
            pending: false,
            reveal: None,
        }
    }

    /// Whether the screen is showing.
    pub fn is_open(&self) -> (open: bool)
        ensures
            open == self@.open,
    {
        self.open
    }

    /// Shows the screen: the next frame hands it the entries and the keyboard.
    pub fn show(&mut self)
        ensures
            final(self)@ == (Screen { open: true, pending: true, dirty: true, ..old(self)@ }),
    {
        self.open = true;
        self.pending = true;
        self.dirty = true;
    }

    /// Leaves the screen.
    pub fn leave(&mut self)
        ensures
            final(self)@ == (Screen { open: false, ..old(self)@ }),
    {
        self.open = false;
    }

    /// Asks for a folder's row to be highlighted on the next frame.
    pub fn reveal_folder(&mut self, folder: &str)
        ensures
            final(self)@ == (Screen { reveal: Some(folder@), ..old(self)@ }),
    {
        self.reveal = Some(String::from_str(folder));
    }

    /// What this frame has to do for the screen. It is asked for once.
    pub fn settle(&mut self) -> (settling: Settling)
        ensures
            settling.entries == old(self)@.dirty,
            settling.focus == old(self)@.pending,
            maybe_text(settling.reveal) == old(self)@.reveal,
            final(self)@ == (Screen { dirty: false, pending: false, reveal: None, ..old(self)@ }),
    {
        let settling: Settling = Settling {
            entries: self.dirty,
            focus: self.pending,
            reveal: copy_maybe(&self.reveal),
        };
        self.dirty = false;
        self.pending = false;
        self.reveal = None;
        settling
    }

    /// Every entry, newest first.
    pub fn entries(&self) -> (entries: &Vec<Recent>)
        ensures
            entries_of(entries@) == self@.entries,
    {
        self.recents.entries()
    }

    /// Records that something was opened.
    pub fn record(&mut self, entry: Recent)
        ensures
            final(self)@ == (Screen {
                entries: settled(recorded(old(self)@.entries, entry@)),
                dirty: true,
                ..old(self)@
            }),
    {
        self.recents.record(entry);
        self.dirty = true;
    }

    /// Takes a folder out of the list.
    pub fn forget(&mut self, folder: &str)
        ensures
            final(self)@ == (Screen {
                entries: forgotten(old(self)@.entries, folder@),
                dirty: true,
                ..old(self)@
            }),
    {
        self.recents.forget(folder);
        self.dirty = true;
    }

    /// Whether a scan is running.
    pub fn is_scanning(&self) -> (scanning: bool)
        ensures
            scanning == self@.scanning,
    {
        self.scanning
    }

    /// Says that a scan is running.
    pub fn begin_scan(&mut self)
        ensures
            final(self)@ == (Screen { scanning: true, ..old(self)@ }),
    {
        self.scanning = true;
    }

    /// Takes in what a scan saw, and says whether the list changed by it.
    pub fn scanned(
        &mut self,
        present: &Vec<bool>,
        found: &Vec<Found>,
        articles: &Vec<Article>,
        now_ms: u64,
    ) -> (changed: bool)
        requires
            present@.len() == old(self)@.entries.len(),
        ensures
            final(self)@.entries == learned_all(
                settled(adopted(marked(old(self)@.entries, present@), found@, now_ms)),
                articles@,
            ),
            changed == !same_list(old(self)@.entries, final(self)@.entries),
            final(self)@ == (Screen {
                entries: final(self)@.entries,
                scanning: false,
                dirty: old(self)@.dirty || changed,
                ..old(self)@
            }),
    {
        let before: Vec<Recent> = copy_entries(self.recents.entries());
        self.scanning = false;
        self.recents.reconcile(present, found, now_ms);
        let ghost base = self.recents@;
        let mut index: usize = 0;
        assert(articles@.take(0) =~= seq![]);
        while index < articles.len()
            invariant
                index <= articles@.len(),
                self.recents@ == learned_all(base, articles@.take(index as int)),
                self.open == old(self).open,
                !self.scanning,
                self.dirty == old(self).dirty,
                self.pending == old(self).pending,
                self.reveal == old(self).reveal,
            decreases articles@.len() - index,
        {
            assert(articles@.take(index + 1).drop_last() =~= articles@.take(index as int));
            assert(articles@.take(index + 1).last() == articles@[index as int]);
            self.recents.learn(
                articles[index].folder.as_str(),
                articles[index].stamp,
                articles[index].summary,
            );
            index = index + 1;
        }
        assert(articles@.take(index as int) =~= articles@);
        let changed: bool = !same_entries(&before, self.recents.entries());
        if changed {
            self.dirty = true;
        }
        changed
    }

    /// The line under the list: how many notes, how many of them are not on disk, whether they are
    /// being read, and what the keyboard does.
    pub fn status(&self) -> (status: String)
        ensures
            status@ == status_text(self@.entries, self@.scanning),
    {
        let entries: &Vec<Recent> = self.recents.entries();
        let ghost all = entries_of(entries@);
        let total: usize = entries.len();
        let mut gone: usize = 0;
        let mut index: usize = 0;
        assert(all.take(0) =~= seq![]);
        while index < entries.len()
            invariant
                index <= entries@.len() == total,
                all == entries_of(entries@),
                gone <= index,
                gone == gone_in(all.take(index as int)),
            decreases entries@.len() - index,
        {
            assert(all.take(index + 1).drop_last() =~= all.take(index as int));
            assert(all.take(index + 1).last() == all[index as int]);
            if entries[index].gone {
                gone = gone + 1;
            }
            index = index + 1;
        }
        assert(all.take(index as int) =~= all);
        let mut status: String = decimal(total as u64);
        if total == 1 {
            status.append(" note");
        } else {
            status.append(" notes");
        }
        let ghost said = status@;
        if gone > 0 {
            status.append("   \u{b7}   ");
            status.append(decimal(gone as u64).as_str());
            status.append(" not on disk");
            assert(status@ =~= said + ("   \u{b7}   "@ + decimal_text(gone as nat)
                + " not on disk"@));
        }
        assert(gone == 0 ==> status@ =~= said + Seq::<char>::empty());
        let ghost said = status@;
        if self.scanning {
            status.append("   \u{b7}   reading notes\u{2026}");
        }
        assert(!self.scanning ==> status@ =~= said + Seq::<char>::empty());
        status.append("   \u{b7}   Enter opens \u{b7} type to find \u{b7} Esc leaves the note");
        status
    }

    /// The words under the screen's title.
    pub fn caption(&self) -> (caption: &'static str)
        ensures
            caption@ == (if self@.entries.len() == 0 {
                "nothing has been opened yet"@
            } else {
                "what you were writing \u{b7} type to find a note, Enter to open it"@
            }),
    {
        let count: usize = self.recents.entries().len();
        assert(count == self@.entries.len());
        if count == 0 {
            "nothing has been opened yet"
        } else {
            "what you were writing \u{b7} type to find a note, Enter to open it"
        }
    }
}

// ---------------------------------------------------------------------------------------------
// What the screen promises
// ---------------------------------------------------------------------------------------------

/// A word finds a note by each of the things it is known by: its title, the name of its document, the name
/// of its folder, and the file it came from, each on its own and in any case.
pub proof fn a_word_finds_a_note(
    entries: Seq<Entry>,
    query: Seq<char>,
    i: int,
    before: Seq<char>,
    after: Seq<char>,
)
    requires
        entries.len() <= usize::MAX,
        0 <= i < entries.len(),
    ensures
        ({
            let held = before + lowercase_of(query) + after;
            let shown = visible_of(entries, query).contains(i as usize);
            &&& lowercase_of(entries[i].title) == held ==> shown
            &&& entries[i].document matches Some(document) ==> lowercase_of(document) == held ==> shown
            &&& lowercase_of(name_or_nothing(entries[i].folder)) == held ==> shown
            &&& entries[i].source matches Some(source) ==> lowercase_of(source) == held ==> shown
        }),
{
    let held = before + lowercase_of(query) + after;
    let at = before.len() as int;
    a_search_is_exact(entries, query);
    assert(held.subrange(at, at + lowercase_of(query).len()) =~= lowercase_of(query));
    assert(crate::text::stands_at(held, lowercase_of(query), at));
    assert(contains_text(held, lowercase_of(query)));
    assert(named_by(entries[i], query) ==> visible_of(entries, query).contains(i as usize));
}

/// A note that has the word in none of the things it is known by is not shown, and the file counts only
/// where there is one. What a row says for want of a file does not count.
pub proof fn a_word_finds_nothing_else(entries: Seq<Entry>, query: Seq<char>, i: int)
    requires
        entries.len() <= usize::MAX,
        0 <= i < entries.len(),
        query.len() > 0,
        !contains_text(lowercase_of(entries[i].title), lowercase_of(query)),
        entries[i].document matches Some(document) ==> !contains_text(
            lowercase_of(document),
            lowercase_of(query),
        ),
        entries[i].document is None ==> !contains_text(
            lowercase_of(Seq::<char>::empty()),
            lowercase_of(query),
        ),
        !contains_text(lowercase_of(name_or_nothing(entries[i].folder)), lowercase_of(query)),
        entries[i].source matches Some(source) ==> !contains_text(
            lowercase_of(source),
            lowercase_of(query),
        ),
    ensures
        !visible_of(entries, query).contains(i as usize),
{
    a_search_is_exact(entries, query);
    if visible_of(entries, query).contains(i as usize) {
        let k = choose|k: int|
            0 <= k < visible_of(entries, query).len() && visible_of(entries, query)[k] == i as usize;
        assert(named_by(entries[visible_of(entries, query)[k] as int], query));
    }
}

/// What a search shows stands in the order of the list, and no row is shown twice.
pub proof fn a_search_keeps_the_order(entries: Seq<Entry>, query: Seq<char>, j: int, k: int)
    requires
        entries.len() <= usize::MAX,
        0 <= j < k < visible_of(entries, query).len(),
    ensures
        visible_of(entries, query)[j] < visible_of(entries, query)[k] < entries.len(),
{
    a_search_is_exact(entries, query);
    assert(visible_of(entries, query)[j] < visible_of(entries, query)[k]);
}

/// A scan opens exactly the notes whose database is there and is not the one their counts came from.
pub proof fn a_scan_opens_what_changed(
    known: Seq<Option<Stamp>>,
    fresh: Seq<Option<Stamp>>,
    i: int,
)
    requires
        known.len() <= fresh.len(),
        known.len() <= usize::MAX,
        0 <= i < known.len(),
    ensures
        stale_of(known, fresh).contains(i as usize) <==> fresh[i] is Some && known[i] != fresh[i],
{
    a_scan_is_exact(known, fresh, i);
}

/// A scan opens the notes in the order they were asked about, and none of them twice.
pub proof fn a_scan_keeps_the_order(known: Seq<Option<Stamp>>, fresh: Seq<Option<Stamp>>)
    requires
        known.len() <= fresh.len(),
        known.len() <= usize::MAX,
    ensures
        forall|j: int, k: int|
            0 <= j < k < stale_of(known, fresh).len() ==> (#[trigger] stale_of(known, fresh)[j]) < (
            #[trigger] stale_of(known, fresh)[k]) < known.len(),
    decreases known.len(),
{
    stale_stays_inside(known, fresh);
    if known.len() > 0 {
        let before = stale_of(known.drop_last(), fresh);
        let all = stale_of(known, fresh);
        a_scan_keeps_the_order(known.drop_last(), fresh);
        stale_stays_inside(known.drop_last(), fresh);
        assert forall|j: int, k: int| 0 <= j < k < all.len() implies (#[trigger] all[j]) < (
        #[trigger] all[k]) < known.len() by {
            assert(all[j] == before[j]);
            if k < before.len() {
                assert(all[k] == before[k]);
            }
        }
    }
}

/// A note from a file says which, and one that was written here says so.
pub proof fn a_row_says_where_from(entry: Entry)
    ensures
        entry.source matches Some(source) ==> origin_text(entry) == source,
        entry.source is None ==> origin_text(entry) == "written in cheap-note"@,
{
}

/// The line under the list counts the notes and those not on disk, says whether they are being read, and
/// what the keyboard does.
pub proof fn the_line_counts_the_notes(entries: Seq<Entry>)
    ensures
        ({
            let keys = "   \u{b7}   Enter opens \u{b7} type to find \u{b7} Esc leaves the note"@;
            let count = decimal_text(entries.len());
            let gone = decimal_text(entries.filter(|entry: Entry| entry.gone).len());
            let all_there = forall|i: int| 0 <= i < entries.len() ==> !(#[trigger] entries[i]).gone;
            let word = if entries.len() == 1 {
                " note"@
            } else {
                " notes"@
            };
            &&& all_there ==> status_text(entries, false) == count + word + keys
            &&& all_there ==> status_text(entries, true) == count + word
                + "   \u{b7}   reading notes\u{2026}"@ + keys
            &&& !all_there ==> status_text(entries, false) == count + word + "   \u{b7}   "@ + gone
                + " not on disk"@ + keys
            &&& !all_there ==> status_text(entries, true) == count + word + "   \u{b7}   "@ + gone
                + " not on disk"@ + "   \u{b7}   reading notes\u{2026}"@ + keys
        }),
{
    let keys = "   \u{b7}   Enter opens \u{b7} type to find \u{b7} Esc leaves the note"@;
    let count = decimal_text(entries.len());
    let gone = decimal_text(entries.filter(|entry: Entry| entry.gone).len());
    let word = if entries.len() == 1 {
        " note"@
    } else {
        " notes"@
    };
    the_gone_are_counted(entries);
    let reading = "   \u{b7}   reading notes\u{2026}"@;
    let missing = "   \u{b7}   "@ + gone + " not on disk"@;
    assert(count + word + missing + keys =~= count + word + "   \u{b7}   "@ + gone
        + " not on disk"@ + keys);
    assert(count + word + missing + reading + keys =~= count + word + "   \u{b7}   "@ + gone
        + " not on disk"@ + reading + keys);
    assert(count + word + Seq::<char>::empty() =~= count + word);
    assert(count + word + missing + Seq::<char>::empty() =~= count + word + missing);
}

/// The entries not on disk are counted one by one.
proof fn the_gone_are_counted(entries: Seq<Entry>)
    ensures
        gone_in(entries) == entries.filter(|entry: Entry| entry.gone).len(),
        gone_in(entries) == 0 <==> forall|i: int|
            0 <= i < entries.len() ==> !(#[trigger] entries[i]).gone,
    decreases entries.len(),
{
    reveal(Seq::filter);
    if entries.len() > 0 {
        let rest = entries.drop_last();
        the_gone_are_counted(rest);
        if gone_in(entries) == 0 {
            assert forall|i: int| 0 <= i < entries.len() implies !(#[trigger] entries[i]).gone by {
                if i < rest.len() {
                    assert(!rest[i].gone);
                }
            }
        }
        if forall|i: int| 0 <= i < entries.len() ==> !(#[trigger] entries[i]).gone {
            assert forall|i: int| 0 <= i < rest.len() implies !(#[trigger] rest[i]).gone by {
                assert(!entries[i].gone);
            }
            assert(!entries[entries.len() - 1].gone);
        }
    }
}

/// A list has changed exactly where an entry of it says something else, or there are more or fewer.
pub proof fn a_changed_list_is_noticed(a: Seq<Entry>, b: Seq<Entry>)
    ensures
        a == b ==> same_list(a, b),
        a.len() != b.len() ==> !same_list(a, b),
        same_list(a, b) ==> forall|i: int|
            0 <= i < a.len() ==> (#[trigger] a[i]).title == b[i].title && a[i].document
                == b[i].document && a[i].opened_at == b[i].opened_at && a[i].summary
                == b[i].summary && a[i].stamp == b[i].stamp && a[i].gone == b[i].gone
                && a[i].route() == b[i].route() && (a[i].source is Some <==> b[i].source is Some),
{
}

/// What a scan read of a note is what the list says of it: the counts and the database they came from. The
/// rest of its entry, and every other entry, stay as they are.
pub proof fn a_scan_teaches_the_list(entries: Seq<Entry>, articles: Seq<Article>, article: Article)
    ensures
        learned_all(entries, seq![]) == entries,
        learned_all(entries, articles.push(article)) == learned(
            learned_all(entries, articles),
            article.folder@,
            article.stamp,
            article.summary,
        ),
{
    assert(articles.push(article).drop_last() =~= articles);
}

/// A row shows the entry the search found for it, and a row past the last shows none.
pub proof fn a_row_shows_what_was_found(list: RecentsDelegate, row: int)
    ensures
        list.shown() == visible_of(list.all(), list.query()),
        0 <= row < visible_of(list.all(), list.query()).len() ==> list.entry_on(row) == Some(
            list.all()[visible_of(list.all(), list.query())[row] as int],
        ),
        row < 0 || row >= visible_of(list.all(), list.query()).len() ==> list.entry_on(row) is None,
{
}

/// A part is in some texts once it is in one of them.
pub proof fn a_part_is_in_one_of_the_texts(texts: Seq<String>, text: String, part: Seq<char>)
    ensures
        !one_contains(Seq::<String>::empty(), part),
        one_contains(texts.push(text), part) <==> one_contains(texts, part) || contains_text(
            text@,
            part,
        ),
{
    let longer = texts.push(text);
    assert(longer[texts.len() as int] == text);
    if one_contains(texts, part) {
        let i = choose|i: int| 0 <= i < texts.len() && contains_text((#[trigger] texts[i])@, part);
        assert(longer[i] == texts[i]);
    }
    if one_contains(longer, part) {
        let i = choose|i: int| 0 <= i < longer.len() && contains_text((#[trigger] longer[i])@, part);
        if i < texts.len() {
            assert(longer[i] == texts[i]);
        }
    }
}

} // verus!
