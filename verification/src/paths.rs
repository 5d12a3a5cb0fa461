//! Paths as text, as Windows reads them.
//!
//! Both slashes stand between parts. A path may start with a drive (`C:`) or with a server and a share
//! (`\\server\share`, and in the same shape `\\.\device` and `\\?\C:`): its prefix, which is no part of
//! it and has no name.

use crate::names::ascii_lower;
use crate::text::{chars_of, same_text, text_between, text_of};
use crate::zips::texts;
use vstd::prelude::*;

verus! {

/// Whether a character stands between two parts of a path.
pub open spec fn is_separator(c: char) -> bool {
    c == '/' || c == '\\'
}

/// Whether a character before a colon names a drive.
pub open spec fn is_drive_letter(c: char) -> bool {
    'a' <= c <= 'z' || 'A' <= c <= 'Z'
}

/// Whether a character stands between two parts of a path.
fn separates(c: char) -> (does: bool)
    ensures
        does == is_separator(c),
{
    c == '/' || c == '\\'
}

// ---------------------------------------------------------------------------------------------
// The prefix of a path
// ---------------------------------------------------------------------------------------------

/// Where the part that starts at a place ends: at the next separator, or with the path.
pub open spec fn part_end(path: Seq<char>, from: int) -> int
    decreases path.len() - from,
{
    if from >= path.len() || is_separator(path[from]) {
        from
    } else {
        part_end(path, from + 1)
    }
}

/// Where the part after a separator ends; nothing follows the end of a path.
pub open spec fn next_part_end(path: Seq<char>, at: int) -> int {
    if at >= path.len() {
        at
    } else {
        part_end(path, at + 1)
    }
}

/// Where the prefix of a path ends.
pub open spec fn prefix_end(path: Seq<char>) -> int {
    if path.len() >= 2 && is_separator(path[0]) && is_separator(path[1]) {
        let server = part_end(path, 2);
        let share = next_part_end(path, server);
        if server == 2 || share <= server + 1 {
            0
        } else if path.subrange(2, server) == seq!['?'] && path.subrange(server + 1, share)
            == seq!['U', 'N', 'C'] {
            next_part_end(path, next_part_end(path, share))
        } else {
            share
        }
    } else if path.len() >= 2 && is_drive_letter(path[0]) && path[1] == ':' {
        2
    } else {
        0
    }
}

/// Where a part ends.
fn find_part_end(path: &Vec<char>, from: usize) -> (end: usize)
    requires
        from <= path@.len(),
    ensures
        end == part_end(path@, from as int),
        from <= end <= path@.len(),
{
    let mut end: usize = from;
    while end < path.len() && !separates(path[end])
        invariant
            from <= end <= path@.len(),
            part_end(path@, end as int) == part_end(path@, from as int),
        decreases path@.len() - end,
    {
        end = end + 1;
    }
    end
}

/// Where the part after a separator ends.
fn find_next_part_end(path: &Vec<char>, at: usize) -> (end: usize)
    requires
        at <= path@.len(),
    ensures
        end == next_part_end(path@, at as int),
        at <= end <= path@.len(),
{
    if at >= path.len() {
        at
    } else {
        find_part_end(path, at + 1)
    }
}

/// Where the prefix of a path ends.
fn find_prefix_end(path: &Vec<char>) -> (end: usize)
    ensures
        end == prefix_end(path@),
        end <= path@.len(),
{
    if path.len() < 2 {
        return 0;
    }
    if separates(path[0]) && separates(path[1]) {
        let server: usize = find_part_end(path, 2);
        let share: usize = find_next_part_end(path, server);
        if server == 2 || share - server <= 1 {
            return 0;
        }
        let first: String = text_between(path, 2, server);
        let second: String = text_between(path, server + 1, share);
        proof {
            reveal_strlit("?");
            reveal_strlit("UNC");
            assert("?"@ =~= seq!['?']);
            assert("UNC"@ =~= seq!['U', 'N', 'C']);
        }
        if same_text(first.as_str(), "?") && same_text(second.as_str(), "UNC") {
            let host: usize = find_next_part_end(path, share);
            return find_next_part_end(path, host);
        }
        return share;
    }
    let drive: bool = ('a' <= path[0] && path[0] <= 'z') || ('A' <= path[0] && path[0] <= 'Z');
    if drive && path[1] == ':' {
        2
    } else {
        0
    }
}

// ---------------------------------------------------------------------------------------------
// The name a path leads to
// ---------------------------------------------------------------------------------------------

/// Where the last part of a path begins: after the last separator.
pub open spec fn part_start(path: Seq<char>) -> int
    decreases path.len(),
{
    if path.len() == 0 || is_separator(path.last()) {
        path.len() as int
    } else {
        part_start(path.drop_last())
    }
}

/// The name of the file or folder a path without a prefix leads to.
///
/// Trailing separators and parts that mean "here" lead nowhere further; a path that ends by going
/// up, or that has no parts at all, leads to nothing with a name.
pub open spec fn last_name_in(path: Seq<char>) -> Option<Seq<char>>
    decreases path.len(),
{
    if path.len() == 0 {
        None
    } else if is_separator(path.last()) {
        last_name_in(path.drop_last())
    } else {
        let start = part_start(path);
        let part = path.skip(start);
        if part == seq!['.'] && 0 <= start < path.len() {
            last_name_in(path.take(start))
        } else if part == seq!['.', '.'] {
            None
        } else {
            Some(part)
        }
    }
}

/// A path begins its last part no later than it ends.
proof fn part_start_is_inside(path: Seq<char>)
    ensures
        0 <= part_start(path) <= path.len(),
        path.len() > 0 && !is_separator(path.last()) ==> part_start(path) < path.len(),
    decreases path.len(),
{
    if path.len() > 0 && !is_separator(path.last()) {
        part_start_is_inside(path.drop_last());
    }
}

/// The name of the file or folder a path without a prefix leads to, if it leads to one.
fn last_name(path: &str) -> (name: Option<String>)
    ensures
        match name {
            Some(name) => last_name_in(path@) == Some(name@),
            None => last_name_in(path@) is None,
        },
{
    let chars: Vec<char> = chars_of(path);
    let mut end: usize = chars.len();
    assert(chars@.take(end as int) =~= chars@);
    while end > 0
        invariant
            end <= chars@.len(),
            chars@ == path@,
            last_name_in(chars@.take(end as int)) == last_name_in(path@),
        decreases end,
    {
        let ghost here = chars@.take(end as int);
        if chars[end - 1] == '/' || chars[end - 1] == '\\' {
            assert(here.drop_last() =~= chars@.take(end - 1));
            end = end - 1;
        } else {
            let mut start: usize = end;
            while start > 0 && !(chars[start - 1] == '/' || chars[start - 1] == '\\')
                invariant
                    start <= end <= chars@.len(),
                    part_start(chars@.take(start as int)) == part_start(here),
                    here == chars@.take(end as int),
                decreases start,
            {
                assert(chars@.take(start as int).drop_last() =~= chars@.take(start - 1));
                start = start - 1;
            }
            proof {
                part_start_is_inside(here);
            }
            assert(part_start(here) == start);
            assert(here.skip(start as int) =~= chars@.subrange(start as int, end as int));
            assert(here.take(start as int) =~= chars@.take(start as int));
            let ghost part = here.skip(start as int);
            if end - start == 1 && chars[start] == '.' {
                assert(part =~= seq!['.']);
                end = start;
            } else if end - start == 2 && chars[start] == '.' && chars[start + 1] == '.' {
                assert(part =~= seq!['.', '.']);
                return None;
            } else {
                assert(part != seq!['.']) by {
                    if part == seq!['.'] {
                        assert(part[0] == '.');
                    }
                }
                assert(part != seq!['.', '.']) by {
                    if part == seq!['.', '.'] {
                        assert(part[0] == '.' && part[1] == '.');
                    }
                }
                return Some(text_between(&chars, start, end));
            }
        }
    }
    None
}

/// The name of the file or folder a path leads to. A prefix has none.
pub open spec fn name_in(path: Seq<char>) -> Option<Seq<char>> {
    last_name_in(path.skip(prefix_end(path)))
}

/// The name of the file or folder a path leads to, if it leads to one.
pub fn file_name(path: &str) -> (name: Option<String>)
    ensures
        match name {
            Some(name) => name_in(path@) == Some(name@),
            None => name_in(path@) is None,
        },
{
    let chars: Vec<char> = chars_of(path);
    let start: usize = find_prefix_end(&chars);
    let total: usize = chars.len();
    let rest: String = text_between(&chars, start, total);
    assert(chars@.subrange(start as int, total as int) =~= path@.skip(prefix_end(path@)));
    last_name(rest.as_str())
}

/// The name of the file or folder a path leads to, and nothing at all for a path that leads to none.
pub open spec fn name_or_nothing(path: Seq<char>) -> Seq<char> {
    match name_in(path) {
        Some(name) => name,
        None => seq![],
    }
}

/// The name of the file or folder a path leads to, and nothing at all for a path that leads to none.
pub fn name_of(path: &str) -> (name: String)
    ensures
        name@ == name_or_nothing(path@),
{
    match file_name(path) {
        Some(name) => name,
        None => String::new(),
    }
}

/// A text of some length without separators and colons is its own name.
pub proof fn a_plain_name_is_its_own(name: Seq<char>)
    requires
        name.len() > 2,
        forall|i: int| 0 <= i < name.len() ==> !is_separator(#[trigger] name[i]) && name[i] != ':',
    ensures
        name_in(name) == Some(name),
{
    assert(!is_separator(name[0]) && name[1] != ':');
    assert(name.skip(0) =~= name);
    part_starts_first(name, name.len() as int);
    assert(name.take(name.len() as int) =~= name);
    assert(!is_separator(name[name.len() - 1]));
}

/// The last part of a text without separators begins with it.
proof fn part_starts_first(name: Seq<char>, n: int)
    requires
        0 < n <= name.len(),
        forall|i: int| 0 <= i < name.len() ==> !is_separator(#[trigger] name[i]),
    ensures
        part_start(name.take(n)) == 0,
    decreases n,
{
    assert(name.take(n).last() == name[n - 1]);
    assert(name.take(n).drop_last() =~= name.take(n - 1));
    if n > 1 {
        part_starts_first(name, n - 1);
    } else {
        assert(part_start(name.take(0)) == 0);
    }
}

// ---------------------------------------------------------------------------------------------
// When two texts are one path
// ---------------------------------------------------------------------------------------------

/// The pieces of a path between its separators.
pub open spec fn pieces_of(name: Seq<char>) -> Seq<Seq<char>>
    decreases name.len(),
{
    if name.len() == 0 {
        seq![Seq::empty()]
    } else {
        let before = pieces_of(name.drop_last());
        if is_separator(name.last()) {
            before.push(Seq::empty())
        } else {
            before.drop_last().push(before.last().push(name.last()))
        }
    }
}

/// The parts of a path: its pieces but for the empty ones, and for those that mean "here" anywhere but
/// at the start.
pub open spec fn parts_in(pieces: Seq<Seq<char>>) -> Seq<Seq<char>>
    decreases pieces.len(),
{
    if pieces.len() == 0 {
        seq![]
    } else {
        let before = parts_in(pieces.drop_last());
        let piece = pieces.last();
        if piece.len() == 0 || (piece == seq!['.'] && pieces.len() > 1) {
            before
        } else {
            before.push(piece)
        }
    }
}

/// A path, taken apart: its drive, the names of its share, whether it starts at a root, and its parts.
pub ghost struct Route {
    pub drive: Option<char>,
    pub share: Seq<Seq<char>>,
    pub rooted: bool,
    pub parts: Seq<Seq<char>>,
}

/// A path, taken apart. A drive is the same in either case, and a share is a root.
pub open spec fn route_of(path: Seq<char>) -> Route {
    let end = prefix_end(path);
    let rest = path.skip(end);
    Route {
        drive: if end == 2 {
            Some(ascii_lower(path[0]))
        } else {
            None
        },
        share: if end > 2 {
            pieces_of(path.subrange(2, end))
        } else {
            seq![]
        },
        rooted: end > 2 || (rest.len() > 0 && is_separator(rest[0])),
        parts: parts_in(pieces_of(rest)),
    }
}

/// Whether two texts are one path.
pub open spec fn is_same_path(a: Seq<char>, b: Seq<char>) -> bool {
    route_of(a) == route_of(b)
}

/// The pieces of a path between its separators.
fn split(path: &Vec<char>, from: usize, to: usize) -> (pieces: Vec<String>)
    requires
        from <= to <= path@.len(),
    ensures
        texts(pieces@) == pieces_of(path@.subrange(from as int, to as int)),
{
    let ghost whole = path@.subrange(from as int, to as int);
    let mut pieces: Vec<String> = Vec::new();
    let mut piece: Vec<char> = Vec::new();
    let mut at: usize = from;
    assert(whole.take(0) =~= Seq::<char>::empty());
    assert(texts(pieces@).push(piece@) =~= pieces_of(whole.take(0)));
    while at < to
        invariant
            from <= at <= to <= path@.len(),
            whole == path@.subrange(from as int, to as int),
            texts(pieces@).push(piece@) == pieces_of(whole.take(at - from)),
        decreases to - at,
    {
        let ghost here = whole.take(at + 1 - from);
        let ghost before = texts(pieces@).push(piece@);
        assert(here.drop_last() =~= whole.take(at - from));
        assert(here.last() == path@[at as int]);
        assert(before.drop_last() =~= texts(pieces@));
        if separates(path[at]) {
            pieces.push(text_of(&piece));
            assert(texts(pieces@) =~= before);
            piece = Vec::new();
        } else {
            piece.push(path[at]);
        }
        assert(texts(pieces@).push(piece@) =~= pieces_of(here));
        at = at + 1;
    }
    assert(whole.take(to - from) =~= whole);
    let ghost all = texts(pieces@).push(piece@);
    pieces.push(text_of(&piece));
    assert(texts(pieces@) =~= all);
    pieces
}

/// The parts of a path, from its pieces.
fn parts(pieces: Vec<String>) -> (parts: Vec<String>)
    ensures
        texts(parts@) == parts_in(texts(pieces@)),
{
    let ghost whole = texts(pieces@);
    let mut parts: Vec<String> = Vec::new();
    assert(texts(parts@) =~= parts_in(whole.take(0)));
    let mut first: bool = true;
    for piece in iter: pieces
        invariant
            iter.seq() == pieces@,
            whole == texts(pieces@),
            first == (iter.index() == 0),
            texts(parts@) == parts_in(whole.take(iter.index())),
    {
        let ghost here = whole.take(iter.index() + 1);
        assert(here.drop_last() =~= whole.take(iter.index() as int));
        assert(here.last() == piece@);
        proof {
            reveal_strlit(".");
            assert("."@ =~= seq!['.']);
        }
        let skipped: bool = piece.as_str().is_empty() || (!first && same_text(piece.as_str(), "."));
        if !skipped {
            let ghost held = texts(parts@);
            parts.push(piece);
            assert(texts(parts@) =~= held.push(here.last()));
        }
        first = false;
    }
    assert(whole.take(whole.len() as int) =~= whole);
    parts
}

/// Whether two lists of texts are the same.
fn same_texts(a: &Vec<String>, b: &Vec<String>) -> (same: bool)
    ensures
        same == (texts(a@) == texts(b@)),
{
    if a.len() != b.len() {
        assert(texts(a@).len() != texts(b@).len());
        return false;
    }
    let mut i: usize = 0;
    while i < a.len()
        invariant
            i <= a@.len() == b@.len(),
            forall|j: int| 0 <= j < i ==> #[trigger] texts(a@)[j] == texts(b@)[j],
        decreases a@.len() - i,
    {
        assert(texts(a@)[i as int] == a@[i as int]@);
        assert(texts(b@)[i as int] == b@[i as int]@);
        if !same_text(a[i].as_str(), b[i].as_str()) {
            return false;
        }
        i = i + 1;
    }
    assert(texts(a@) =~= texts(b@));
    true
}

/// The letter of a drive, in lower case.
fn drive_letter(c: char) -> (lower: char)
    ensures
        lower == ascii_lower(c),
{
    if 'A' <= c && c <= 'Z' {
        (c as u8 + 32) as char
    } else {
        c
    }
}

/// Whether two texts are one path: the parts count, and how they are written down does not.
pub fn same_path(a: &str, b: &str) -> (same: bool)
    ensures
        same == is_same_path(a@, b@),
{
    let first: Vec<char> = chars_of(a);
    let second: Vec<char> = chars_of(b);
    let one: usize = find_prefix_end(&first);
    let two: usize = find_prefix_end(&second);
    assert(first@.subrange(one as int, first@.len() as int) =~= a@.skip(one as int));
    assert(second@.subrange(two as int, second@.len() as int) =~= b@.skip(two as int));
    let driven: bool = one == 2;
    if driven != (two == 2) {
        return false;
    }
    if driven && drive_letter(first[0]) != drive_letter(second[0]) {
        return false;
    }
    let shared: bool = one > 2;
    if shared != (two > 2) {
        proof {
            pieces_are_some(a@.subrange(2, one as int));
            pieces_are_some(b@.subrange(2, two as int));
        }
        return false;
    }
    if shared && !same_texts(&split(&first, 2, one), &split(&second, 2, two)) {
        return false;
    }
    let rooted: bool = shared || (one < first.len() && separates(first[one]));
    if rooted != (shared || (two < second.len() && separates(second[two]))) {
        return false;
    }
    same_texts(&parts(split(&first, one, first.len())), &parts(split(&second, two, second.len())))
}

/// A path has at least one piece.
proof fn pieces_are_some(name: Seq<char>)
    ensures
        pieces_of(name).len() > 0,
    decreases name.len(),
{
    if name.len() > 0 {
        pieces_are_some(name.drop_last());
    }
}

// ---------------------------------------------------------------------------------------------
// What paths promise
// ---------------------------------------------------------------------------------------------

/// Either slash stands between two parts of a path, and nothing else does.
pub proof fn both_slashes_separate(c: char)
    ensures
        is_separator(c) <==> c == '/' || c == '\\',
{
}

/// The last part of a path that ends in a name begins after the separator in front of it.
proof fn a_name_begins_after_its_separator(dir: Seq<char>, c: char, name: Seq<char>)
    requires
        is_separator(c),
        forall|i: int| 0 <= i < name.len() ==> !is_separator(#[trigger] name[i]),
    ensures
        part_start(dir.push(c) + name) == dir.len() + 1,
    decreases name.len(),
{
    let path = dir.push(c) + name;
    if name.len() > 0 {
        assert(path.last() == name[name.len() - 1]);
        assert(path.drop_last() =~= dir.push(c) + name.drop_last());
        assert forall|i: int| 0 <= i < name.drop_last().len() implies !is_separator(
            #[trigger] name.drop_last()[i],
        ) by {
            assert(!is_separator(name[i]));
        }
        a_name_begins_after_its_separator(dir, c, name.drop_last());
    } else {
        assert(path =~= dir.push(c));
        assert(path.last() == c);
    }
}

/// Whether a text can be the name of a file or a folder: it is some text without a separator, and does not
/// mean "here" or "up".
pub open spec fn is_a_name(name: Seq<char>) -> bool {
    &&& name.len() > 0
    &&& forall|i: int| 0 <= i < name.len() ==> (#[trigger] name[i]) != '/' && name[i] != '\\'
    &&& name != seq!['.']
    &&& name != seq!['.', '.']
}

/// A path leads to the name it ends in, whatever folder stands in front of it.
pub proof fn a_path_leads_to_its_last_name(dir: Seq<char>, c: char, name: Seq<char>)
    requires
        c == '/' || c == '\\',
        is_a_name(name),
        dir.len() > 0 ==> dir[0] != '/' && dir[0] != '\\',
    ensures
        name_in(dir.push(c) + name) == Some(name),
        name_or_nothing(dir.push(c) + name) == name,
{
    let path = dir.push(c) + name;
    let end = prefix_end(path);
    assert(path[0] == if dir.len() > 0 {
        dir[0]
    } else {
        c
    });
    assert(dir.len() == 0 ==> path[1] == name[0]);
    assert(dir.len() == 1 ==> path[1] == c);
    assert(end == 0 || end == 2);
    assert(end == 2 ==> dir.len() >= 2);
    let rest = dir.skip(end).push(c) + name;
    assert(path.skip(end) =~= rest);
    a_name_begins_after_its_separator(dir.skip(end), c, name);
    assert(rest.last() == name[name.len() - 1]);
    assert(rest.skip((dir.skip(end).len() + 1) as int) =~= name);
}

/// A separator at the end of a path leads nowhere further, and neither does a part that means "here".
pub proof fn a_trailing_separator_leads_nowhere(path: Seq<char>, c: char)
    requires
        c == '/' || c == '\\',
        path.len() >= 2,
        path[0] != '/' && path[0] != '\\',
    ensures
        name_in(path.push(c)) == name_in(path),
        name_in(path.push(c).push('.')) == name_in(path),
{
    let end = prefix_end(path);
    assert(path.push(c).skip(end) =~= path.skip(end).push(c));
    assert(path.skip(end).push(c).drop_last() =~= path.skip(end));
    let here = path.push(c).push('.');
    assert(prefix_end(here) == end);
    let rest = path.skip(end);
    assert(here.skip(end) =~= rest.push(c) + seq!['.']);
    a_name_begins_after_its_separator(rest, c, seq!['.']);
    assert((rest.push(c) + seq!['.']).skip((rest.len() + 1) as int) =~= seq!['.']);
    assert((rest.push(c) + seq!['.']).take((rest.len() + 1) as int) =~= rest.push(c));
    assert((rest.push(c) + seq!['.']).last() == '.');
    assert(rest.push(c).drop_last() =~= rest);
}

/// A path that ends by going up leads to nothing with a name, and neither does one without a part.
pub proof fn going_up_leads_to_no_name(path: Seq<char>, c: char)
    requires
        c == '/' || c == '\\',
        path.len() > 0 ==> path[0] != '/' && path[0] != '\\',
    ensures
        name_in(path.push(c) + seq!['.', '.']) is None,
        name_in(Seq::<char>::empty()) is None,
        name_in(seq!['.', '.']) is None,
{
    let up = seq!['.', '.'];
    let all = path.push(c) + up;
    let end = prefix_end(all);
    assert(path.len() == 0 ==> all[0] == c && all[1] == '.');
    assert(path.len() == 1 ==> all[1] == c);
    assert(path.len() > 0 ==> all[0] == path[0]);
    assert(end == 0 || end == 2);
    assert(end == 2 ==> path.len() >= 2);
    let rest = path.skip(end).push(c) + up;
    assert(all.skip(end) =~= rest);
    a_name_begins_after_its_separator(path.skip(end), c, up);
    assert(rest.skip((path.skip(end).len() + 1) as int) =~= up);
    assert(rest.last() == '.');
    assert(Seq::<char>::empty().skip(0) =~= Seq::<char>::empty());
    assert(up.skip(0) =~= up);
    assert(up.take(2) =~= up);
    part_starts_first(up, 2);
    assert(up.last() == '.');
}

/// A part ends at the next separator.
proof fn a_part_ends_at_the_separator(path: Seq<char>, from: int, to: int)
    requires
        0 <= from <= to <= path.len(),
        forall|i: int| from <= i < to ==> !is_separator(#[trigger] path[i]),
        to == path.len() || is_separator(path[to]),
    ensures
        part_end(path, from) == to,
    decreases to - from,
{
    if from < to {
        a_part_ends_at_the_separator(path, from + 1, to);
    }
}

/// A drive is the prefix of a path, and so are a server and its share; a path that starts otherwise has none.
pub proof fn a_prefix_is_a_drive_or_a_share(
    path: Seq<char>,
    c: char,
    server: Seq<char>,
    share: Seq<char>,
    rest: Seq<char>,
)
    requires
        c == '/' || c == '\\',
        server.len() > 0,
        share.len() > 0,
        forall|i: int| 0 <= i < server.len() ==> (#[trigger] server[i]) != '/' && server[i] != '\\',
        forall|i: int| 0 <= i < share.len() ==> (#[trigger] share[i]) != '/' && share[i] != '\\',
        server != seq!['?'],
    ensures
        path.len() >= 2 && path[1] == ':' && ('a' <= path[0] <= 'z' || 'A' <= path[0] <= 'Z')
            ==> prefix_end(path) == 2,
        path.len() >= 1 && path[0] != '/' && path[0] != '\\' && !(path.len() >= 2 && path[1] == ':')
            ==> prefix_end(path) == 0,
        prefix_end((seq![c, c] + server).push(c) + share.push(c) + rest) == 3 + server.len()
            + share.len(),
{
    let shared = (seq![c, c] + server).push(c) + share.push(c) + rest;
    let first = 2 + server.len();
    let second = first + 1 + share.len();
    assert(shared[0] == c && shared[1] == c);
    assert(shared[first as int] == c && shared[second as int] == c);
    assert forall|i: int| 2 <= i < first implies !is_separator(#[trigger] shared[i]) by {
        assert(shared[i] == server[i - 2]);
    }
    assert forall|i: int| first + 1 <= i < second implies !is_separator(#[trigger] shared[i]) by {
        assert(shared[i] == share[i - first - 1]);
    }
    a_part_ends_at_the_separator(shared, 2, first as int);
    a_part_ends_at_the_separator(shared, (first + 1) as int, second as int);
    assert(shared.subrange(2, first as int) =~= server);
}

/// A path comes apart at its separators: what has none is one piece, and what follows a separator is a piece
/// of its own, after those in front of it.
pub proof fn a_path_comes_apart_at_its_separators(path: Seq<char>, c: char, piece: Seq<char>)
    requires
        c == '/' || c == '\\',
        forall|i: int| 0 <= i < piece.len() ==> (#[trigger] piece[i]) != '/' && piece[i] != '\\',
    ensures
        pieces_of(piece) == seq![piece],
        pieces_of(path.push(c) + piece) == pieces_of(path).push(piece),
    decreases piece.len(),
{
    if piece.len() == 0 {
        assert(piece =~= Seq::empty());
        assert(path.push(c) + piece =~= path.push(c));
        assert(path.push(c).drop_last() =~= path);
        assert(path.push(c).last() == c);
    } else {
        let less = piece.drop_last();
        assert forall|i: int| 0 <= i < less.len() implies (#[trigger] less[i]) != '/' && less[i]
            != '\\' by {
            assert(less[i] == piece[i]);
        }
        a_path_comes_apart_at_its_separators(path, c, less);
        assert(piece[piece.len() - 1] != '/');
        assert(less.push(piece.last()) =~= piece);
        let whole = path.push(c) + piece;
        assert(whole.last() == piece.last());
        assert(whole.drop_last() =~= path.push(c) + less);
        let before = pieces_of(path).push(less);
        assert(before.drop_last() =~= pieces_of(path));
        assert(seq![less].drop_last() =~= Seq::<Seq<char>>::empty());
        assert(pieces_of(piece) =~= seq![piece]);
    }
}

/// The parts of a path are its pieces, but for the empty ones and those that mean "here"; a path may start
/// with one of those.
pub proof fn a_part_is_a_piece_that_leads_somewhere(pieces: Seq<Seq<char>>, piece: Seq<char>)
    ensures
        parts_in(Seq::<Seq<char>>::empty()).len() == 0,
        piece.len() == 0 ==> parts_in(pieces.push(piece)) == parts_in(pieces),
        piece == seq!['.'] && pieces.len() > 0 ==> parts_in(pieces.push(piece)) == parts_in(pieces),
        piece.len() > 0 && (piece != seq!['.'] || pieces.len() == 0) ==> parts_in(
            pieces.push(piece),
        ) == parts_in(pieces).push(piece),
{
    assert(pieces.push(piece).drop_last() =~= pieces);
}

/// A path on a drive is the same in either case of the drive's letter, and differs from one on another drive
/// or on none. Whether it starts at the root counts, and so do its parts.
pub proof fn a_path_on_a_drive(letter: char, other: char, rest: Seq<char>)
    requires
        'A' <= letter <= 'Z',
        'a' <= other <= 'z',
    ensures
        other as int == letter as int + 32 ==> is_same_path(
            seq![letter, ':'] + rest,
            seq![other, ':'] + rest,
        ),
        other as int != letter as int + 32 ==> !is_same_path(
            seq![letter, ':'] + rest,
            seq![other, ':'] + rest,
        ),
        route_of(seq![letter, ':'] + rest).rooted == (rest.len() > 0 && (rest[0] == '/' || rest[0]
            == '\\')),
        route_of(seq![letter, ':'] + rest).parts == parts_in(pieces_of(rest)),
{
    let one = seq![letter, ':'] + rest;
    let two = seq![other, ':'] + rest;
    assert(one[0] == letter && one[1] == ':');
    assert(two[0] == other && two[1] == ':');
    assert(!is_separator(letter) && !is_separator(other));
    assert(one.skip(2) =~= rest);
    assert(two.skip(2) =~= rest);
    assert(ascii_lower(letter) as int == letter as int + 32);
    assert(ascii_lower(other) == other);
}

/// A path without a drive or a share has its pieces as they are written, and starts at the root where a
/// separator stands in front.
pub proof fn a_path_without_a_prefix(path: Seq<char>)
    requires
        path.len() >= 1,
        path.len() >= 2 ==> path[1] != ':' && path[1] != '/' && path[1] != '\\',
    ensures
        route_of(path).drive is None,
        route_of(path).share.len() == 0,
        route_of(path).rooted == (path[0] == '/' || path[0] == '\\'),
        route_of(path).parts == parts_in(pieces_of(path)),
{
    assert(prefix_end(path) == 0);
    assert(path.skip(0) =~= path);
}

/// Two texts are one path exactly where they have the same drive, the same share, the same root and the same
/// parts.
pub proof fn a_path_is_its_route(a: Seq<char>, b: Seq<char>)
    ensures
        is_same_path(a, b) <==> route_of(a).drive == route_of(b).drive && route_of(a).share
            == route_of(b).share && route_of(a).rooted == route_of(b).rooted && route_of(a).parts
            == route_of(b).parts,
        is_same_path(a, a),
        is_same_path(a, b) ==> is_same_path(b, a),
{
}

/// A prefix is part of its path. A server without a share is none; and behind the mark that a path is taken as it
/// is, a server and its share are a prefix too.
pub proof fn a_prefix_is_part_of_the_path(
    path: Seq<char>,
    c: char,
    server: Seq<char>,
    share: Seq<char>,
    rest: Seq<char>,
)
    requires
        c == '/' || c == '\\',
        server.len() > 0,
        share.len() > 0,
        forall|i: int| 0 <= i < server.len() ==> (#[trigger] server[i]) != '/' && server[i] != '\\',
        forall|i: int| 0 <= i < share.len() ==> (#[trigger] share[i]) != '/' && share[i] != '\\',
    ensures
        0 <= prefix_end(path) <= path.len(),
        prefix_end(seq![c, c] + server) == 0,
        prefix_end(
            seq![c, c, '?', c, 'U', 'N', 'C', c] + server.push(c) + share.push(c) + rest,
        ) == 9 + server.len() + share.len(),
        prefix_end(seq![c, c, '?', c, 'U', 'N', 'C', c] + server.push(c) + share) == 9 + server.len()
            + share.len(),
{
    if path.len() >= 2 {
        let end = part_end(path, 2);
        a_part_ends_in_the_path(path, 2);
        the_next_part_ends_in_the_path(path, end);
        let share = next_part_end(path, end);
        the_next_part_ends_in_the_path(path, share);
        the_next_part_ends_in_the_path(path, next_part_end(path, share));
    }
    let alone = seq![c, c] + server;
    assert forall|i: int| 2 <= i < alone.len() implies !is_separator(#[trigger] alone[i]) by {
        assert(alone[i] == server[i - 2]);
    }
    a_part_ends_at_the_separator(alone, 2, alone.len() as int);
    let front = seq![c, c, '?', c, 'U', 'N', 'C', c];
    a_share_is_reached(front, c, server, share.push(c) + rest, share.len() as int);
    a_share_is_reached(front, c, server, share, share.len() as int);
    assert(front + server.push(c) + share.push(c) + rest =~= front + server.push(c) + (share.push(c)
        + rest));
}

/// Behind the mark that a path is taken as it is, the prefix ends with the share.
proof fn a_share_is_reached(
    front: Seq<char>,
    c: char,
    server: Seq<char>,
    tail: Seq<char>,
    share: int,
)
    requires
        c == '/' || c == '\\',
        front == seq![c, c, '?', c, 'U', 'N', 'C', c],
        server.len() > 0,
        0 < share <= tail.len(),
        forall|i: int| 0 <= i < server.len() ==> (#[trigger] server[i]) != '/' && server[i] != '\\',
        forall|i: int| 0 <= i < share ==> (#[trigger] tail[i]) != '/' && tail[i] != '\\',
        share < tail.len() ==> tail[share] == c,
    ensures
        prefix_end(front + server.push(c) + tail) == 9 + server.len() + share,
{
    let path = front + server.push(c) + tail;
    let first = 8 + server.len() as int;
    let second = first + 1 + share;
    assert(path[0] == c && path[1] == c && path[2] == '?' && path[3] == c && path[4] == 'U' && path[5]
        == 'N' && path[6] == 'C' && path[7] == c);
    assert(path[first] == c);
    assert(second < path.len() ==> path[second] == c);
    assert forall|i: int| 8 <= i < first implies !is_separator(#[trigger] path[i]) by {
        assert(path[i] == server[i - 8]);
    }
    assert forall|i: int| first + 1 <= i < second implies !is_separator(#[trigger] path[i]) by {
        assert(path[i] == tail[i - first - 1]);
    }
    a_part_ends_at_the_separator(path, 2, 3);
    a_part_ends_at_the_separator(path, 4, 7);
    a_part_ends_at_the_separator(path, 8, first);
    a_part_ends_at_the_separator(path, first + 1, second);
    assert(path.subrange(2, 3) =~= seq!['?']);
    assert(path.subrange(4, 7) =~= seq!['U', 'N', 'C']);
}

/// A part ends within its path.
proof fn a_part_ends_in_the_path(path: Seq<char>, from: int)
    requires
        0 <= from <= path.len(),
    ensures
        from <= part_end(path, from) <= path.len(),
    decreases path.len() - from,
{
    if from < path.len() && !is_separator(path[from]) {
        a_part_ends_in_the_path(path, from + 1);
    }
}

/// The part after a separator ends within the path.
proof fn the_next_part_ends_in_the_path(path: Seq<char>, at: int)
    requires
        0 <= at <= path.len(),
    ensures
        at <= next_part_end(path, at) <= path.len(),
{
    if at < path.len() {
        a_part_ends_in_the_path(path, at + 1);
    }
}

} // verus!
