//! The sentences the application says, and the line that says what it is doing.

use crate::ink::InkStats;
use crate::names::{file_label, file_label_of, note_stem, note_stem_of};
use crate::paths::name_or_nothing;
use crate::recent::{title_of_name, Recent};
use crate::text::{chars_of, decimal, decimal_text, find_last, split_at_last, text_between};
use vstd::prelude::*;

verus! {

/// What is said when there is no note to write out.
pub const NOTHING_TO_WRITE: &'static str = "there is nothing to write out yet";

/// What is said when there is no note to name.
pub const NOTHING_TO_RENAME: &'static str =
    "there is nothing to rename yet — the first stroke makes the note";

/// What is said while a name is typed.
pub const NAME_HINT: &'static str = "type a name, Enter keeps it, Esc leaves it as it was";

/// What is said once the first stroke made a note.
pub const NEW_NOTE: &'static str = "a new note on a blank sheet — Save writes it out as one file";

/// What is said once a blank sheet was started.
pub const BLANK_SHEET: &'static str =
    "a blank sheet — the first stroke makes a note, and Save writes it out";

/// What the window is called: the application, and the note in front where it has a name.
pub fn window_title(home_open: bool, title: &str) -> (text: String)
    ensures
        text@ == (if home_open || title@.len() == 0 {
            "cheap-note"@
        } else {
            title@ + " — cheap-note"@
        }),
{
    if home_open || title.is_empty() {
        String::from_str("cheap-note")
    } else {
        String::from_str(title).concat(" — cheap-note")
    }
}

/// The file name a note is offered to be written out under.
pub fn suggested_file(title: &str, document: Option<&str>) -> (name: String)
    ensures
        name@ == note_stem_of(
            title@,
            match document {
                Some(document) => Some(document@),
                None => None,
            },
        ) + ".zip"@,
{
    note_stem(title, document).concat(".zip")
}

/// The folder a note made on a blank sheet is kept in, named after the moment it was made.
pub fn blank_folder(stamp: u64) -> (name: String)
    ensures
        name@ == "blank-"@ + decimal_text(stamp as nat),
{
    String::from_str("blank-").concat(decimal(stamp).as_str())
}

/// A document's name without its extension, unless nothing else would be left of it.
pub open spec fn document_title(name: Seq<char>) -> Seq<char> {
    match split_at_last(name, '.') {
        Some((stem, extension)) => if stem.len() > 0 {
            stem
        } else {
            name
        },
        None => name,
    }
}

/// What a note is called: the name it was given, then its document's, then its folder's turned back
/// into words.
pub open spec fn note_title_of(
    title: Option<Seq<char>>,
    document: Option<Seq<char>>,
    folder: Seq<char>,
) -> Seq<char> {
    match title {
        Some(title) => title,
        None => match document {
            Some(name) => document_title(name),
            None => title_of_name(name_or_nothing(folder)),
        },
    }
}

/// A text's characters, if there is one.
pub open spec fn chars_in(text: Option<&str>) -> Option<Seq<char>> {
    match text {
        Some(text) => Some(text@),
        None => None,
    }
}

/// What a note is called.
pub fn note_title(title: Option<&str>, document: Option<&str>, folder: &str) -> (shown: String)
    ensures
        shown@ == note_title_of(chars_in(title), chars_in(document), folder@),
{
    match title {
        Some(title) => String::from_str(title),
        None => match document {
            Some(name) => {
                let chars: Vec<char> = chars_of(name);
                match find_last(&chars, '.') {
                    Some(at) => if at > 0 {
                        text_between(&chars, 0, at)
                    } else {
                        String::from_str(name)
                    },
                    None => String::from_str(name),
                }
            },
            None => Recent::title_for(folder),
        },
    }
}

/// What is shown once a note was given a name, and what is said about it.
#[derive(Debug)]
pub struct Named {
    /// What the note is called now.
    pub shown: String,
    /// What the status line says.
    pub message: String,
}

/// What is shown once a note was given a name: the name the note itself reports, or its folder's
/// turned back into words where it reports none.
///
/// `unlisted` is why the list could not be told.
pub fn keep_name(folder: &str, reported: &str, unlisted: Option<&str>) -> (named: Named)
    ensures
        named.shown@ == (if reported@.len() == 0 {
            title_of_name(name_or_nothing(folder@))
        } else {
            reported@
        }),
        named.message@ == (match unlisted {
            Some(error) => "the name was kept, but the list could not be written: "@ + error@,
            None => if reported@.len() == 0 {
                named.shown@ + " has no name of its own again"@
            } else {
                "named "@ + reported@
            },
        }),
{
    let shown: String = if reported.is_empty() {
        Recent::title_for(folder)
    } else {
        String::from_str(reported)
    };
    let message: String = match unlisted {
        Some(error) => String::from_str(
            "the name was kept, but the list could not be written: ",
        ).concat(error),
        None => if reported.is_empty() {
            shown.clone().concat(" has no name of its own again")
        } else {
            String::from_str("named ").concat(reported)
        },
    };
    Named { shown, message }
}

/// What is said once an entry was taken out of the list: where the note still is.
pub fn forgot(title: &str, folder: &str) -> (message: String)
    ensures
        message@ == "forgot "@ + title@ + " — the note is still in "@ + folder@,
{
    String::from_str("forgot ").concat(title).concat(" — the note is still in ").concat(folder)
}

/// What is said once a page was added.
pub fn added_page(before: bool, page: usize, total: usize) -> (message: String)
    requires
        page < u64::MAX,
    ensures
        message@ == "added a page "@ + (if before {
            "before"@
        } else {
            "after"@
        }) + " this one ("@ + decimal_text((page + 1) as nat) + " of "@ + decimal_text(total as nat)
            + ")"@,
{
    String::from_str("added a page ").concat(
        if before {
            "before"
        } else {
            "after"
        },
    ).concat(" this one (").concat(decimal(page as u64 + 1).as_str()).concat(" of ").concat(
        decimal(total as u64).as_str(),
    ).concat(")")
}

/// What is said once a page was deleted, or when the only one was kept.
pub fn deleted_page(deleted: bool, total: usize) -> (message: String)
    ensures
        message@ == (if !deleted {
            "a note keeps at least one page"@
        } else {
            "deleted a page ("@ + decimal_text(
                if total > 1 {
                    (total - 1) as nat
                } else {
                    1
                },
            ) + " left)"@
        }),
{
    if !deleted {
        return String::from_str("a note keeps at least one page");
    }
    let left: usize = if total > 1 {
        total - 1
    } else {
        1
    };
    String::from_str("deleted a page (").concat(decimal(left as u64).as_str()).concat(" left)")
}

/// Two sheets a note was written on and is shown on, as they are worded.
#[derive(Debug)]
pub struct SheetWords {
    /// The sheet the note was written on.
    pub written: String,
    /// The sheet it is shown on.
    pub here: String,
}

/// What is said once a note was opened: what is in it, or that it was written on another sheet.
pub fn opened(label: &str, sheets: &Option<SheetWords>, strokes: usize, pages: usize) -> (message:
    String)
    ensures
        message@ == (match *sheets {
            Some(sheets) => "opened "@ + file_label_of(label@) + " — written on a "@
                + sheets.written@ + " sheet, this one is "@ + sheets.here@,
            None => "opened "@ + file_label_of(label@) + " ("@ + decimal_text(strokes as nat)
                + " strokes on "@ + decimal_text(pages as nat) + " pages)"@,
        }),
{
    let start: String = String::from_str("opened ").concat(file_label(label).as_str());
    match sheets {
        Some(sheets) => start.concat(" — written on a ").concat(sheets.written.as_str()).concat(
            " sheet, this one is ",
        ).concat(sheets.here.as_str()),
        None => start.concat(" (").concat(decimal(strokes as u64).as_str()).concat(
            " strokes on ",
        ).concat(decimal(pages as u64).as_str()).concat(" pages)"),
    }
}

/// What is said while a note is being written out.
pub fn writing(path: &str) -> (message: String)
    ensures
        message@ == "writing "@ + file_label_of(path@),
{
    String::from_str("writing ").concat(file_label(path).as_str())
}

/// What is said when the list of recent notes could not be written.
pub fn list_unwritten(error: &str) -> (message: String)
    ensures
        message@ == "the list of recent notes could not be written: "@ + error@,
{
    String::from_str("the list of recent notes could not be written: ").concat(error)
}

// ---------------------------------------------------------------------------------------------
// The status line
// ---------------------------------------------------------------------------------------------

/// What the status line is made from. What is measured in fractions comes in words.
#[derive(Debug)]
pub struct Status {
    /// The document's name.
    pub file: String,
    /// The page in front of the reader.
    pub page: usize,
    /// How many pages there are.
    pub pages: usize,
    /// What the capture says of the pen, in one part or two.
    pub pen: Vec<String>,
    /// Whether the system pointer could be hooked.
    pub pointer_hooked: bool,
    /// Which way the pen leans.
    pub lean: Option<String>,
    /// How many strokes the page holds.
    pub strokes: usize,
    /// What the ink model has done.
    pub ink: InkStats,
    /// How many of the points were resampled, in words.
    pub resampled: String,
    /// What the page cache has done, when there is a document.
    pub cache: Option<String>,
    /// The zoom, in words.
    pub zoom: String,
    /// How long things took.
    pub timings: String,
    /// What was last reported.
    pub message: String,
}

/// What stands between two parts of the status line.
pub const BETWEEN: &'static str = "   ·   ";

/// The texts of some parts.
pub open spec fn words(parts: Seq<String>) -> Seq<Seq<char>> {
    Seq::new(parts.len(), |i: int| parts[i]@)
}

/// One part, if it is worth saying.
pub open spec fn part_if(said: bool, part: Seq<char>) -> Seq<Seq<char>> {
    if said {
        seq![part]
    } else {
        seq![]
    }
}

/// One part, if there is one.
pub open spec fn part_of(start: Seq<char>, part: Option<String>) -> Seq<Seq<char>> {
    match part {
        Some(part) => seq![start + part@],
        None => seq![],
    }
}

/// What the status line says of the ink.
pub open spec fn ink_part(status: Status) -> Seq<char> {
    "ink "@ + decimal_text(status.strokes as nat) + " strokes, "@ + decimal_text(
        status.ink.kept_points as nat,
    ) + " points ("@ + decimal_text(status.ink.resampled as nat) + " resampled, "@
        + status.resampled@ + "%)"@
}

/// What the status line says of the page.
pub open spec fn page_part(status: Status) -> Seq<char> {
    status.file@ + "  page "@ + decimal_text((status.page + 1) as nat) + "/"@ + decimal_text(
        if status.pages > 1 {
            status.pages as nat
        } else {
            1
        },
    )
}

/// The parts of the status line, in order.
pub open spec fn status_parts(status: Status) -> Seq<Seq<char>> {
    seq![page_part(status)] + words(status.pen@) + part_if(
        !status.pointer_hooked,
        "no pointer hook"@,
    ) + part_of("lean "@, status.lean) + seq![ink_part(status)] + part_if(
        status.ink.off_paper > 0,
        decimal_text(status.ink.off_paper as nat) + " off the sheet"@,
    ) + part_of(""@, status.cache) + seq!["view "@ + status.zoom@ + "%"@, status.timings@] + part_if(
        status.message@.len() > 0,
        status.message@,
    )
}

/// Parts joined with what stands between them.
pub open spec fn joined_with(parts: Seq<Seq<char>>, between: Seq<char>) -> Seq<char>
    decreases parts.len(),
{
    if parts.len() == 0 {
        seq![]
    } else if parts.len() == 1 {
        parts[0]
    } else {
        joined_with(parts.drop_last(), between) + between + parts.last()
    }
}

/// Parts joined with what stands between them.
pub(crate) fn join(parts: &Vec<String>, between: &str) -> (line: String)
    ensures
        line@ == joined_with(words(parts@), between@),
{
    if parts.len() == 0 {
        return String::new();
    }
    let mut line: String = parts[0].clone();
    let mut i: usize = 1;
    let ghost all = words(parts@);
    while i < parts.len()
        invariant
            1 <= i <= parts@.len(),
            all == words(parts@),
            line@ == joined_with(all.take(i as int), between@),
        decreases parts@.len() - i,
    {
        line = line.concat(between).concat(parts[i].as_str());
        assert(all.take(i + 1).drop_last() =~= all.take(i as int));
        assert(all.take(i + 1).last() == parts@[i as int]@);
        i = i + 1;
    }
    assert(all.take(i as int) =~= all);
    line
}

/// What the status line says of what the digitizer can report.
pub fn axes_part(axes: &Vec<String>) -> (part: String)
    ensures
        part@ == "pen: "@ + (if axes@.len() == 0 {
            "position only"@
        } else {
            joined_with(words(axes@), "+"@)
        }),
{
    if axes.len() == 0 {
        String::from_str("pen: ").concat("position only")
    } else {
        String::from_str("pen: ").concat(join(axes, "+").as_str())
    }
}

/// Adds a part to a line.
fn say(parts: &mut Vec<String>, part: String)
    ensures
        words(final(parts)@) == words(old(parts)@) + seq![part@],
{
    let ghost held = parts@;
    parts.push(part);
    assert(words(parts@) =~= words(held) + seq![part@]);
}

/// The one line that says what the application is doing, or nothing where it is not shown.
pub fn compose_status(shown: bool, status: &Status) -> (line: String)
    requires
        status.page < u64::MAX,
    ensures
        line@ == (if shown {
            joined_with(status_parts(*status), BETWEEN@)
        } else {
            ""@
        }),
{
    if !shown {
        return String::from_str("");
    }
    let mut parts: Vec<String> = Vec::new();
    let pages: usize = if status.pages > 1 {
        status.pages
    } else {
        1
    };
    let page: String = status.file.clone().concat("  page ").concat(
        decimal(status.page as u64 + 1).as_str(),
    ).concat("/").concat(decimal(pages as u64).as_str());
    assert(words(parts@) =~= Seq::<Seq<char>>::empty());
    say(&mut parts, page);
    let ghost start = words(parts@);
    assert(start =~= seq![page_part(*status)]);
    let mut i: usize = 0;
    assert(words(status.pen@).take(0) =~= Seq::<Seq<char>>::empty());
    assert(start + words(status.pen@).take(0) =~= start);
    while i < status.pen.len()
        invariant
            i <= status.pen@.len(),
            words(parts@) == start + words(status.pen@).take(i as int),
        decreases status.pen@.len() - i,
    {
        let part: String = status.pen[i].clone();
        say(&mut parts, part);
        assert(words(status.pen@).take(i + 1) =~= words(status.pen@).take(i as int) + seq![
            status.pen@[i as int]@,
        ]);
        assert(words(parts@) =~= start + words(status.pen@).take(i + 1));
        i = i + 1;
    }
    assert(words(status.pen@).take(i as int) =~= words(status.pen@));
    let ghost mut said = seq![page_part(*status)] + words(status.pen@);
    assert(words(parts@) =~= said);
    if !status.pointer_hooked {
        say(&mut parts, String::from_str("no pointer hook"));
    }
    proof {
        said = said + part_if(!status.pointer_hooked, "no pointer hook"@);
        assert(words(parts@) =~= said);
    }
    match &status.lean {
        Some(lean) => {
            say(&mut parts, String::from_str("lean ").concat(lean.as_str()));
        },
        None => {},
    }
    proof {
        said = said + part_of("lean "@, status.lean);
        assert(words(parts@) =~= said);
    }
    let ink: String = String::from_str("ink ").concat(
        decimal(status.strokes as u64).as_str(),
    ).concat(" strokes, ").concat(decimal(status.ink.kept_points).as_str()).concat(
        " points (",
    ).concat(decimal(status.ink.resampled).as_str()).concat(" resampled, ").concat(
        status.resampled.as_str(),
    ).concat("%)");
    say(&mut parts, ink);
    proof {
        said = said + seq![ink_part(*status)];
        assert(words(parts@) =~= said);
    }
    if status.ink.off_paper > 0 {
        say(&mut parts, decimal(status.ink.off_paper).concat(" off the sheet"));
    }
    proof {
        said = said + part_if(
            status.ink.off_paper > 0,
            decimal_text(status.ink.off_paper as nat) + " off the sheet"@,
        );
        assert(words(parts@) =~= said);
    }
    match &status.cache {
        Some(cache) => {
            say(&mut parts, cache.clone());
            assert(""@ + cache@ =~= cache@) by {
                reveal_strlit("");
            }
        },
        None => {},
    }
    proof {
        said = said + part_of(""@, status.cache);
        assert(words(parts@) =~= said);
    }
    say(&mut parts, String::from_str("view ").concat(status.zoom.as_str()).concat("%"));
    say(&mut parts, status.timings.clone());
    proof {
        said = said + seq!["view "@ + status.zoom@ + "%"@, status.timings@];
        assert(words(parts@) =~= said);
    }
    if !status.message.as_str().is_empty() {
        say(&mut parts, status.message.clone());
    }
    proof {
        said = said + part_if(status.message@.len() > 0, status.message@);
        assert(words(parts@) =~= said);
    }
    join(&parts, BETWEEN)
}

/// A document's title is its name up to its last dot, and its whole name where it has none or only starts with
/// one.
pub proof fn a_document_is_called_without_its_extension(stem: Seq<char>, extension: Seq<char>)
    requires
        !extension.contains('.'),
    ensures
        stem.len() > 0 ==> document_title(stem.push('.') + extension) == stem,
        document_title(extension) == extension,
        document_title(seq!['.'] + extension) == seq!['.'] + extension,
{
    crate::text::a_split_undoes_a_join(stem, '.', extension);
    crate::text::a_text_is_split_at_the_last(extension, '.');
    crate::text::a_split_undoes_a_join(seq![], '.', extension);
    assert(Seq::<char>::empty().push('.') + extension =~= seq!['.'] + extension);
}

/// A note is called by the name it was given before anything else, then by its document's, and only then by its
/// folder's.
pub proof fn a_given_name_comes_first(
    title: Seq<char>,
    document: Option<Seq<char>>,
    name: Seq<char>,
    folder: Seq<char>,
)
    ensures
        note_title_of(Some(title), document, folder) == title,
        note_title_of(None, Some(name), folder) == document_title(name),
        note_title_of(None, None, folder) == title_of_name(name_or_nothing(folder)),
{
}

/// Parts are joined in order, with the same between each two of them and nothing at either end.
pub proof fn parts_are_joined_in_order(parts: Seq<Seq<char>>, part: Seq<char>, between: Seq<char>)
    ensures
        joined_with(Seq::<Seq<char>>::empty(), between).len() == 0,
        joined_with(seq![part], between) == part,
        parts.len() > 0 ==> joined_with(parts.push(part), between) == joined_with(parts, between)
            + between + part,
{
    assert(parts.push(part).drop_last() =~= parts);
}

/// The status line says which page of how many it is, counting from one; a note says it has one page at least.
pub proof fn the_line_says_the_page(status: Status)
    ensures
        status_parts(status).len() > 0,
        status.pages > 1 ==> status_parts(status)[0] == status.file@ + "  page "@ + decimal_text(
            (status.page + 1) as nat,
        ) + "/"@ + decimal_text(status.pages as nat),
        status.pages <= 1 ==> status_parts(status)[0] == status.file@ + "  page "@ + decimal_text(
            (status.page + 1) as nat,
        ) + "/"@ + decimal_text(1),
{
    assert(status_parts(status)[0] == page_part(status));
}

/// After the page the status line says what the pen says of itself, in its own order, and right after that
/// what is missing of it: the hook of the pointer, and then which way it leans.
pub proof fn the_line_says_the_pen(status: Status, i: int)
    ensures
        ({
            let parts = status_parts(status);
            let pen = status.pen@;
            let hook = if status.pointer_hooked {
                0int
            } else {
                1
            };
            &&& 0 <= i < pen.len() ==> parts[1 + i] == pen[i]@
            &&& !status.pointer_hooked ==> parts[(1 + pen.len()) as int] == "no pointer hook"@
            &&& status.lean matches Some(lean) ==> parts[1 + pen.len() + hook] == "lean "@ + lean@
        }),
{
}

/// Then it says what is on the page: the strokes, the points that were kept, and those that were not.
pub proof fn the_line_says_the_ink(status: Status)
    ensures
        ({
            let parts = status_parts(status);
            let before = 1 + status.pen@.len() + (if status.pointer_hooked {
                0int
            } else {
                1
            }) + (if status.lean is Some {
                1int
            } else {
                0
            });
            &&& parts[before] == "ink "@ + decimal_text(status.strokes as nat) + " strokes, "@
                + decimal_text(status.ink.kept_points as nat) + " points ("@ + decimal_text(
                status.ink.resampled as nat,
            ) + " resampled, "@ + status.resampled@ + "%)"@
            &&& status.ink.off_paper > 0 ==> parts[before + 1] == decimal_text(
                status.ink.off_paper as nat,
            ) + " off the sheet"@
            &&& status.ink.off_paper == 0 ==> (status.cache matches Some(cache) ==> parts[before + 1]
                == ""@ + cache@)
            &&& status.ink.off_paper == 0 && status.cache is None ==> parts[before + 1] == "view "@
                + status.zoom@ + "%"@
        }),
{
}

/// The line ends with how large the sheet is shown and how long things took, and after that the last thing
/// worth telling, where there is one. It says nothing twice, and nothing else.
pub proof fn the_line_ends_with_the_message(status: Status)
    ensures
        ({
            let parts = status_parts(status);
            let count = parts.len();
            &&& status.message@.len() > 0 ==> parts[count - 1] == status.message@ && parts[count - 2]
                == status.timings@ && parts[count - 3] == "view "@ + status.zoom@ + "%"@
            &&& status.message@.len() == 0 ==> parts[count - 1] == status.timings@ && parts[count - 2]
                == "view "@ + status.zoom@ + "%"@
            &&& count == 4 + status.pen@.len() + (if status.pointer_hooked {
                0int
            } else {
                1
            }) + (if status.lean is Some {
                1int
            } else {
                0
            }) + (if status.ink.off_paper > 0 {
                1int
            } else {
                0
            }) + (if status.cache is Some {
                1int
            } else {
                0
            }) + (if status.message@.len() > 0 {
                1int
            } else {
                0
            })
        }),
{
}

/// The texts of some parts are theirs, one by one.
pub proof fn the_words_are_the_parts(parts: Seq<String>, i: int, text: &str)
    requires
        0 <= i < parts.len(),
    ensures
        words(parts).len() == parts.len(),
        words(parts)[i] == parts[i]@,
        chars_in(Some(text)) == Some(text@),
        chars_in(None) is None,
{
}

/// What is said where there is nothing to work on, while a name is typed, and of a new note.
pub proof fn the_line_has_its_words()
    ensures
        NOTHING_TO_WRITE@ == "there is nothing to write out yet"@,
        NOTHING_TO_RENAME@ == "there is nothing to rename yet — the first stroke makes the note"@,
        NAME_HINT@ == "type a name, Enter keeps it, Esc leaves it as it was"@,
        NEW_NOTE@ == "a new note on a blank sheet — Save writes it out as one file"@,
        BLANK_SHEET@ == "a blank sheet — the first stroke makes a note, and Save writes it out"@,
        BETWEEN@ == "   ·   "@,
{
}

} // verus!
