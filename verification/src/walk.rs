//! Walking a folder: every file under it, by its path inside it.
//!
//! The files are listed by name, so that a folder is packed the same way however the file system
//! happens to list it. A name is listed once: a later file of a name takes the place of an earlier one.

use crate::text::{chars_of, text_of};
use vstd::prelude::*;

verus! {

/// What a file is called that has no path inside the folder.
pub const NAMELESS: &'static str = "attachment";

/// A path with its backslashes turned into slashes.
pub open spec fn with_slashes(path: Seq<char>) -> Seq<char> {
    path.map_values(
        |c: char|
            if c == '\\' {
                '/'
            } else {
                c
            },
    )
}

/// A path with its backslashes turned into slashes.
pub fn slashed(path: &str) -> (slashed: String)
    ensures
        slashed@ == with_slashes(path@),
{
    let mut chars: Vec<char> = chars_of(path);
    let count: usize = chars.len();
    let mut i: usize = 0;
    while i < count
        invariant
            i <= count,
            count == chars@.len(),
            count == path@.len(),
            forall|j: int| 0 <= j < i ==> chars@[j] == with_slashes(path@)[j],
            forall|j: int| i <= j < count ==> chars@[j] == path@[j],
        decreases count - i,
    {
        if chars[i] == '\\' {
            chars.set(i, '/');
        }
        i = i + 1;
    }
    assert(chars@ =~= with_slashes(path@));
    text_of(&chars)
}

// ---------------------------------------------------------------------------------------------
// The order of names
// ---------------------------------------------------------------------------------------------

/// Whether a name is listed before another, reading both from a place on.
pub open spec fn before_from(a: Seq<char>, b: Seq<char>, at: int) -> bool
    decreases b.len() - at,
{
    if at >= b.len() {
        false
    } else if at >= a.len() {
        true
    } else if a[at] != b[at] {
        a[at] < b[at]
    } else {
        before_from(a, b, at + 1)
    }
}

/// Whether a name is listed before another: at the first character they differ in, or by ending there.
pub open spec fn before(a: Seq<char>, b: Seq<char>) -> bool {
    before_from(a, b, 0)
}

/// Whether a name is listed before another, and whether they are the same.
fn compared(a: &str, b: &str) -> (order: (bool, bool))
    ensures
        order.0 == before(a@, b@),
        order.1 == (a@ == b@),
{
    let first: Vec<char> = chars_of(a);
    let second: Vec<char> = chars_of(b);
    let mut at: usize = 0;
    while at < first.len() && at < second.len() && first[at] == second[at]
        invariant
            first@ == a@,
            second@ == b@,
            at <= first@.len(),
            at <= second@.len(),
            forall|i: int| 0 <= i < at ==> first@[i] == second@[i],
            before(a@, b@) == before_from(a@, b@, at as int),
        decreases first@.len() - at,
    {
        at = at + 1;
    }
    let same: bool = at == first.len() && at == second.len();
    proof {
        if same {
            assert(first@ =~= second@);
        }
    }
    let earlier: bool = at < second.len() && (at == first.len() || first[at] < second[at]);
    (earlier, same)
}

/// Of two names, one is listed before the other, or they are the same.
proof fn names_are_ordered(a: Seq<char>, b: Seq<char>, at: int)
    requires
        0 <= at <= a.len(),
        at <= b.len(),
        forall|i: int| 0 <= i < at ==> a[i] == b[i],
    ensures
        before_from(a, b, at) || before_from(b, a, at) || a == b,
        !(before_from(a, b, at) && before_from(b, a, at)),
        before_from(a, b, at) ==> a != b,
    decreases a.len() - at,
{
    if at < a.len() && at < b.len() && a[at] == b[at] {
        names_are_ordered(a, b, at + 1);
    } else if at == a.len() && at == b.len() {
        assert(a =~= b);
    }
}

/// The order of names is transitive.
proof fn order_carries_on(a: Seq<char>, b: Seq<char>, c: Seq<char>, at: int)
    requires
        at >= 0,
        before_from(a, b, at),
        before_from(b, c, at),
    ensures
        before_from(a, c, at),
    decreases c.len() - at,
{
    if at < a.len() && at < b.len() && at < c.len() && a[at] == b[at] && b[at] == c[at] {
        order_carries_on(a, b, c, at + 1);
    }
}

// ---------------------------------------------------------------------------------------------
// The list
// ---------------------------------------------------------------------------------------------

/// A file that was found: its path inside the folder, and where it is.
#[derive(Debug)]
pub struct Listed {
    /// Its path inside the folder, written with slashes.
    pub name: String,
    /// Where it is.
    pub path: String,
}

/// What a list of files says.
pub open spec fn listing(files: Seq<Listed>) -> Seq<(Seq<char>, Seq<char>)> {
    Seq::new(files.len(), |i: int| (files[i].name@, files[i].path@))
}

/// The list with a file put where its name belongs, in place of the one of that name.
pub open spec fn put(
    files: Seq<(Seq<char>, Seq<char>)>,
    name: Seq<char>,
    path: Seq<char>,
) -> Seq<(Seq<char>, Seq<char>)>
    decreases files.len(),
{
    if files.len() == 0 {
        seq![(name, path)]
    } else if files.last().0 == name {
        files.drop_last().push((name, path))
    } else if before(files.last().0, name) {
        files.push((name, path))
    } else {
        put(files.drop_last(), name, path).push(files.last())
    }
}

/// Whether a list is in order, with every name once.
pub open spec fn is_listed(files: Seq<(Seq<char>, Seq<char>)>) -> bool {
    forall|i: int, j: int|
        0 <= i < j < files.len() ==> before((#[trigger] files[i]).0, (#[trigger] files[j]).0)
}

/// A list stays in order, with every name once; it holds the file that was put into it, every file of
/// another name that it held, and nothing else.
pub proof fn putting_keeps_order(
    files: Seq<(Seq<char>, Seq<char>)>,
    name: Seq<char>,
    path: Seq<char>,
)
    requires
        is_listed(files),
    ensures
        is_listed(put(files, name, path)),
        forall|file: (Seq<char>, Seq<char>)|
            #[trigger] put(files, name, path).contains(file) <==> file == (name, path) || (
            files.contains(file) && file.0 != name),
    decreases files.len(),
{
    let after = put(files, name, path);
    if files.len() == 0 {
        assert(after[0] == (name, path));
        assert forall|file: (Seq<char>, Seq<char>)| #[trigger] after.contains(file) <==> file == (
            name,
            path,
        ) by {
            if after.contains(file) {
                let i = choose|i: int| 0 <= i < after.len() && after[i] == file;
                assert(i == 0);
            }
        }
    } else {
        let last = files.last();
        let rest = files.drop_last();
        assert(is_listed(rest));
        names_are_ordered(last.0, name, 0);
        if last.0 == name {
            assert(after =~= rest.push((name, path)));
            assert forall|i: int, j: int| 0 <= i < j < after.len() implies before(
                (#[trigger] after[i]).0,
                (#[trigger] after[j]).0,
            ) by {
                assert(before(files[i].0, files[j].0));
            }
            assert forall|file: (Seq<char>, Seq<char>)| #[trigger] after.contains(file) <==> file
                == (name, path) || (files.contains(file) && file.0 != name) by {
                if after.contains(file) && file != (name, path) {
                    let i = choose|i: int| 0 <= i < after.len() && after[i] == file;
                    assert(files[i] == file);
                    assert(before(files[i].0, files[files.len() - 1].0));
                    names_are_ordered(file.0, name, 0);
                }
                if files.contains(file) && file.0 != name {
                    let i = choose|i: int| 0 <= i < files.len() && files[i] == file;
                    assert(after[i] == file);
                }
                assert(after[after.len() - 1] == (name, path));
            }
        } else if before(last.0, name) {
            assert forall|i: int, j: int| 0 <= i < j < after.len() implies before(
                (#[trigger] after[i]).0,
                (#[trigger] after[j]).0,
            ) by {
                if j == files.len() && i < files.len() - 1 {
                    assert(before(files[i].0, files[files.len() - 1].0));
                    order_carries_on(files[i].0, last.0, name, 0);
                } else if j < files.len() {
                    assert(before(files[i].0, files[j].0));
                }
            }
            assert forall|file: (Seq<char>, Seq<char>)| #[trigger] after.contains(file) <==> file
                == (name, path) || (files.contains(file) && file.0 != name) by {
                if after.contains(file) && file != (name, path) {
                    let i = choose|i: int| 0 <= i < after.len() && after[i] == file;
                    assert(files[i] == file);
                    if i < files.len() - 1 {
                        assert(before(files[i].0, files[files.len() - 1].0));
                        order_carries_on(files[i].0, last.0, name, 0);
                        names_are_ordered(file.0, name, 0);
                    }
                }
                if files.contains(file) && file.0 != name {
                    let i = choose|i: int| 0 <= i < files.len() && files[i] == file;
                    assert(after[i] == file);
                }
                assert(after[after.len() - 1] == (name, path));
            }
        } else {
            putting_keeps_order(rest, name, path);
            let put_rest = put(rest, name, path);
            assert(before(name, last.0));
            assert forall|i: int, j: int| 0 <= i < j < after.len() implies before(
                (#[trigger] after[i]).0,
                (#[trigger] after[j]).0,
            ) by {
                if j < put_rest.len() {
                    assert(before(put_rest[i].0, put_rest[j].0));
                } else {
                    assert(put_rest.contains(put_rest[i]));
                    if put_rest[i] != (name, path) {
                        let k = choose|k: int| 0 <= k < rest.len() && rest[k] == put_rest[i];
                        assert(before(files[k].0, files[files.len() - 1].0));
                    }
                }
            }
            assert forall|file: (Seq<char>, Seq<char>)| #[trigger] after.contains(file) <==> file
                == (name, path) || (files.contains(file) && file.0 != name) by {
                if after.contains(file) {
                    let i = choose|i: int| 0 <= i < after.len() && after[i] == file;
                    if i < put_rest.len() {
                        assert(put_rest[i] == file);
                        assert(put_rest.contains(file));
                        if file != (name, path) {
                            let k = choose|k: int| 0 <= k < rest.len() && rest[k] == file;
                            assert(files[k] == file);
                        }
                    } else {
                        assert(files[files.len() - 1] == file);
                    }
                }
                if file == (name, path) || (files.contains(file) && file.0 != name) {
                    if files.contains(file) && file != (name, path) {
                        let k = choose|k: int| 0 <= k < files.len() && files[k] == file;
                        if k < rest.len() {
                            assert(rest[k] == file);
                            assert(rest.contains(file));
                            assert(put_rest.contains(file));
                        } else {
                            assert(after[after.len() - 1] == file);
                        }
                    } else {
                        assert(put_rest.contains(file));
                    }
                    if put_rest.contains(file) {
                        let i = choose|i: int| 0 <= i < put_rest.len() && put_rest[i] == file;
                        assert(after[i] == file);
                    }
                }
            }
        }
    }
}

/// Puts a file where its name belongs.
fn put_file(files: &mut Vec<Listed>, name: String, path: String)
    ensures
        listing(final(files)@) == put(listing(old(files)@), name@, path@),
{
    let ghost given = listing(files@);
    let mut at: usize = files.len();
    assert(given.take(at as int) =~= given);
    assert(given.skip(at as int) =~= Seq::<(Seq<char>, Seq<char>)>::empty());
    assert(put(given, name@, path@) =~= put(given.take(at as int), name@, path@) + given.skip(
        at as int,
    ));
    while at > 0
        invariant
            at <= files@.len(),
            given == listing(files@),
            put(given, name@, path@) == put(given.take(at as int), name@, path@) + given.skip(
                at as int,
            ),
            files@ == old(files)@,
            given == listing(old(files)@),
        decreases at,
    {
        let (earlier, same) = compared(files[at - 1].name.as_str(), name.as_str());
        let ghost front = given.take(at as int);
        assert(front.last() == given[at - 1]);
        assert(front.drop_last() =~= given.take(at - 1));
        if same {
            files.set(at - 1, Listed { name, path });
            assert(listing(files@) =~= front.drop_last().push((name@, path@)) + given.skip(
                at as int,
            ));
            return;
        }
        if earlier {
            files.insert(at, Listed { name, path });
            assert(listing(files@) =~= front.push((name@, path@)) + given.skip(at as int));
            return;
        }
        assert(put(front, name@, path@) == put(front.drop_last(), name@, path@).push(front.last()));
        assert(put(front.drop_last(), name@, path@).push(front.last()) + given.skip(at as int)
            =~= put(given.take(at - 1), name@, path@) + given.skip(at - 1));
        at = at - 1;
    }
    files.insert(0, Listed { name, path });
    assert(given.take(0).len() == 0);
    assert(listing(files@) =~= seq![(name@, path@)] + given.skip(0));
}

// ---------------------------------------------------------------------------------------------
// The walk
// ---------------------------------------------------------------------------------------------

/// One thing a folder holds.
#[derive(Debug)]
pub struct Found {
    /// Where it is.
    pub path: String,
    /// Its path inside the folder that is walked, when it has one.
    pub relative: Option<String>,
    /// Whether it is a folder.
    pub is_folder: bool,
}

/// A walk, mathematically.
#[verifier::ext_equal]
pub ghost struct Tour {
    /// The folders that are still to be read, the next one last.
    pub pending: Seq<Seq<char>>,
    /// The files found so far.
    pub files: Seq<(Seq<char>, Seq<char>)>,
}

/// The walk once one thing was found.
pub open spec fn found_one(tour: Tour, found: Found) -> Tour {
    if found.is_folder {
        Tour { pending: tour.pending.push(found.path@), files: tour.files }
    } else {
        Tour {
            pending: tour.pending,
            files: put(
                tour.files,
                match found.relative {
                    Some(relative) => with_slashes(relative@),
                    None => NAMELESS@,
                },
                found.path@,
            ),
        }
    }
}

/// The walk once a folder was read.
pub open spec fn found_all(tour: Tour, found: Seq<Found>) -> Tour
    decreases found.len(),
{
    if found.len() == 0 {
        tour
    } else {
        found_one(found_all(tour, found.drop_last()), found.last())
    }
}

/// The texts of some paths.
pub open spec fn paths_of(paths: Seq<String>) -> Seq<Seq<char>> {
    Seq::new(paths.len(), |i: int| paths[i]@)
}

/// A walk through a folder and the folders in it.
#[derive(Debug)]
pub struct Walk {
    pending: Vec<String>,
    files: Vec<Listed>,
}

impl View for Walk {
    type V = Tour;

    closed spec fn view(&self) -> Tour {
        Tour { pending: paths_of(self.pending@), files: listing(self.files@) }
    }
}

impl Walk {
    /// A walk that has the folder itself to read.
    pub fn new(folder: &str) -> (walk: Self)
        ensures
            walk@ == (Tour { pending: seq![folder@], files: seq![] }),
    {
        let mut pending: Vec<String> = Vec::new();
        pending.push(String::from_str(folder));
        let walk = Walk { pending, files: Vec::new() };
        assert(walk@.pending =~= seq![folder@]);
        assert(walk@.files =~= Seq::<(Seq<char>, Seq<char>)>::empty());
        walk
    }

    /// The folder to read next, until none is left.
    pub fn next(&mut self) -> (folder: Option<String>)
        ensures
            final(self)@.files == old(self)@.files,
            match folder {
                Some(folder) => old(self)@.pending.len() > 0 && folder@ == old(self)@.pending.last()
                    && final(self)@.pending == old(self)@.pending.drop_last(),
                None => old(self)@.pending.len() == 0 && final(self)@.pending.len() == 0,
            },
    {
        let ghost pending = self@.pending;
        let folder = self.pending.pop();
        proof {
            if pending.len() > 0 {
                assert(self@.pending =~= pending.drop_last());
            }
        }
        folder
    }

    /// Takes in what a folder holds.
    pub fn entered(&mut self, found: Vec<Found>)
        ensures
            final(self)@ == found_all(old(self)@, found@),
    {
        let ghost start = self@;
        assert(found@.take(0) =~= Seq::<Found>::empty());
        for one in iter: found
            invariant
                iter.seq() == found@,
                self@ == found_all(start, found@.take(iter.index())),
        {
            let ghost held = self@;
            assert(found@.take(iter.index() + 1).drop_last() =~= found@.take(iter.index() as int));
            assert(found@.take(iter.index() + 1).last() == one);
            if one.is_folder {
                self.pending.push(one.path);
                assert(self@.pending =~= held.pending.push(one.path@));
                assert(self@ =~= found_one(held, one));
            } else {
                let name: String = match one.relative {
                    Some(relative) => slashed(relative.as_str()),
                    None => String::from_str(NAMELESS),
                };
                put_file(&mut self.files, name, one.path);
                assert(self@ =~= found_one(held, one));
            }
        }
        assert(found@.take(found@.len() as int) =~= found@);
    }

    /// The files that were found.
    pub fn files(self) -> (files: Vec<Listed>)
        ensures
            listing(files@) == self@.files,
    {
        self.files
    }
}

/// However a folder is walked, its files are listed in order, with every name once.
pub proof fn a_walk_lists_in_order(tour: Tour, found: Seq<Found>)
    requires
        is_listed(tour.files),
    ensures
        is_listed(found_all(tour, found).files),
    decreases found.len(),
{
    if found.len() > 0 {
        a_walk_lists_in_order(tour, found.drop_last());
        let last = found.last();
        let name = match last.relative {
            Some(relative) => with_slashes(relative@),
            None => NAMELESS@,
        };
        putting_keeps_order(found_all(tour, found.drop_last()).files, name, last.path@);
    }
}

/// A walk loses no file: what was found is listed, under its own name, unless a later file has that
/// name.
pub proof fn a_walk_loses_nothing(tour: Tour, found: Seq<Found>, file: (Seq<char>, Seq<char>))
    requires
        is_listed(tour.files),
        tour.files.contains(file),
        forall|i: int|
            0 <= i < found.len() && !(#[trigger] found[i]).is_folder ==> (match found[i].relative {
                Some(relative) => with_slashes(relative@),
                None => NAMELESS@,
            }) != file.0,
    ensures
        found_all(tour, found).files.contains(file),
    decreases found.len(),
{
    if found.len() > 0 {
        let earlier = found.drop_last();
        assert forall|i: int| 0 <= i < earlier.len() && !(#[trigger] earlier[i]).is_folder implies (
        match earlier[i].relative {
            Some(relative) => with_slashes(relative@),
            None => NAMELESS@,
        }) != file.0 by {
            assert(earlier[i] == found[i]);
        }
        a_walk_loses_nothing(tour, earlier, file);
        a_walk_lists_in_order(tour, earlier);
        let last = found.last();
        let name = match last.relative {
            Some(relative) => with_slashes(relative@),
            None => NAMELESS@,
        };
        assert(found[found.len() - 1] == last);
        putting_keeps_order(found_all(tour, earlier).files, name, last.path@);
    }
}

/// Names are listed by the first character they differ in, and a name before one it begins.
pub proof fn names_are_listed_by_their_characters(
    start: Seq<char>,
    one: char,
    other: char,
    rest: Seq<char>,
    more: Seq<char>,
)
    requires
        one < other,
    ensures
        before(start.push(one) + rest, start.push(other) + more),
        !before(start.push(other) + more, start.push(one) + rest),
        before(start, start.push(one) + rest),
        !before(start.push(one) + rest, start),
        !before(start, start),
{
    a_common_start_decides_nothing(start, start.push(one) + rest, start.push(other) + more, 0);
    a_common_start_decides_nothing(start, start.push(other) + more, start.push(one) + rest, 0);
    a_common_start_decides_nothing(start, start, start.push(one) + rest, 0);
    a_common_start_decides_nothing(start, start.push(one) + rest, start, 0);
    a_common_start_decides_nothing(start, start, start, 0);
}

/// What two names begin with alike does not decide which is listed first.
proof fn a_common_start_decides_nothing(start: Seq<char>, a: Seq<char>, b: Seq<char>, at: int)
    requires
        0 <= at <= start.len() <= a.len(),
        start.len() <= b.len(),
        forall|i: int| 0 <= i < start.len() ==> (#[trigger] a[i]) == start[i] && b[i] == start[i],
    ensures
        before_from(a, b, at) == before_from(a, b, start.len() as int),
    decreases start.len() - at,
{
    if at < start.len() {
        assert(a[at] == start[at]);
        a_common_start_decides_nothing(start, a, b, at + 1);
    }
}

/// A path inside a folder is named with slashes, whichever way it was written; nothing else of it changes.
pub proof fn a_path_is_named_with_slashes(path: Seq<char>, i: int)
    requires
        0 <= i < path.len(),
    ensures
        with_slashes(path).len() == path.len(),
        path[i] == '\\' ==> with_slashes(path)[i] == '/',
        path[i] != '\\' ==> with_slashes(path)[i] == path[i],
{
}

/// A folder that is found is walked too, and a file that is found is listed where it is, under its path inside
/// the folder or, for want of one, as an attachment. What a folder holds is taken in one after the other.
pub proof fn what_is_found_is_taken_in(tour: Tour, found: Seq<Found>, one: Found)
    requires
        is_listed(found_all(tour, found).files),
    ensures
        found_all(tour, seq![]) == tour,
        ({
            let before = found_all(tour, found);
            let after = found_all(tour, found.push(one));
            let name = match one.relative {
                Some(relative) => with_slashes(relative@),
                None => "attachment"@,
            };
            &&& one.is_folder ==> after.pending == before.pending.push(one.path@) && after.files
                == before.files
            &&& !one.is_folder ==> after.pending == before.pending && after.files.contains(
                (name, one.path@),
            ) && forall|file: (Seq<char>, Seq<char>)|
                #[trigger] after.files.contains(file) && file != (name, one.path@)
                    ==> before.files.contains(file)
        }),
{
    assert(found.push(one).drop_last() =~= found);
    let before = found_all(tour, found);
    let name = match one.relative {
        Some(relative) => with_slashes(relative@),
        None => "attachment"@,
    };
    putting_keeps_order(before.files, name, one.path@);
}

/// A list is in order exactly where each name is before the ones after it, and it lists files as they are.
pub proof fn a_list_is_in_order(files: Seq<(Seq<char>, Seq<char>)>, listed: Seq<Listed>, i: int, j: int)
    requires
        is_listed(files),
        0 <= i < j < files.len(),
    ensures
        before(files[i].0, files[j].0),
        listing(listed).len() == listed.len(),
        i < listed.len() ==> listing(listed)[i] == (listed[i].name@, listed[i].path@),
{
}

} // verus!
