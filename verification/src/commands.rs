//! What a keystroke, a chosen file or a row of the list asks for.

use crate::error::AppError;
use crate::names::{file_label, file_label_of};
use crate::text::same_text;
use vstd::prelude::*;

verus! {

/// What the application is asked to do.
#[derive(Clone, Copy, Debug, PartialEq, Eq, Structural)]
pub enum Command {
    /// Start a blank sheet.
    NewSheet,
    /// Ask for a file to open.
    Open,
    /// Write the note out as one file.
    Save,
    /// Leave the name as it was.
    StopNaming,
    /// Show the list of notes.
    ShowHome,
    /// Turn to the previous page.
    PreviousPage,
    /// Turn to the next page.
    NextPage,
}

/// The chords that belong to the application wherever it is.
pub open spec fn chord(key: Seq<char>) -> Option<Command> {
    if key == "n"@ {
        Some(Command::NewSheet)
    } else if key == "o"@ {
        Some(Command::Open)
    } else if key == "s"@ {
        Some(Command::Save)
    } else {
        None
    }
}

/// The command of a chord.
fn chord_command(key: &str) -> (command: Option<Command>)
    ensures
        command == chord(key@),
{
    if same_text(key, "n") {
        Some(Command::NewSheet)
    } else if same_text(key, "o") {
        Some(Command::Open)
    } else if same_text(key, "s") {
        Some(Command::Save)
    } else {
        None
    }
}

/// What a key asks for while a note is in front.
///
/// Escape leaves the note, and the arrows turn the page. While a name is being typed Escape is spent
/// on that, and the arrows belong to the field.
pub fn note_key(key: &str, control: bool, naming: bool) -> (command: Option<Command>)
    ensures
        command == (if control {
            chord(key@)
        } else if key@ == "escape"@ {
            Some(
                if naming {
                    Command::StopNaming
                } else {
                    Command::ShowHome
                },
            )
        } else if key@ == "left"@ && !naming {
            Some(Command::PreviousPage)
        } else if key@ == "right"@ && !naming {
            Some(Command::NextPage)
        } else {
            None
        }),
{
    if control {
        return chord_command(key);
    }
    if same_text(key, "escape") {
        return Some(
            if naming {
                Command::StopNaming
            } else {
                Command::ShowHome
            },
        );
    }
    if same_text(key, "left") && !naming {
        return Some(Command::PreviousPage);
    }
    if same_text(key, "right") && !naming {
        return Some(Command::NextPage);
    }
    None
}

/// What a key asks for while the list of notes is in front.
///
/// The list has the keyboard; what is left is the application's own chords, and the Escape that
/// abandons a rename.
pub fn home_key(key: &str, control: bool, other_modifier: bool, renaming: bool) -> (command:
    Option<Command>)
    ensures
        command == (if control {
            chord(key@)
        } else if !other_modifier && renaming && key@ == "escape"@ {
            Some(Command::StopNaming)
        } else {
            None
        }),
{
    if control {
        return chord_command(key);
    }
    if !other_modifier && renaming && same_text(key, "escape") {
        return Some(Command::StopNaming);
    }
    None
}

/// Whether the pen draws: not while a name is being typed, and not while the list of notes is in
/// front of the sheet.
pub fn pen_draws(naming: bool, home_open: bool) -> (draws: bool)
    ensures
        draws == (!naming && !home_open),
{
    !naming && !home_open
}

/// What asking for the note's name comes to.
#[derive(Clone, Copy, Debug, PartialEq, Eq, Structural)]
pub enum Naming {
    /// A name is being typed already.
    Busy,
    /// There is no note to name.
    NoNote,
    /// The field is shown.
    Ask,
}

/// What asking for the note's name comes to: a name that is half typed is left alone, and a sheet that
/// is no note yet has none.
pub fn ask_note_name(naming: bool, has_note: bool) -> (asked: Naming)
    ensures
        asked == (if naming {
            Naming::Busy
        } else if !has_note {
            Naming::NoNote
        } else {
            Naming::Ask
        }),
{
    if naming {
        Naming::Busy
    } else if !has_note {
        Naming::NoNote
    } else {
        Naming::Ask
    }
}

/// How what was chosen is opened.
#[derive(Clone, Copy, Debug, PartialEq, Eq, Structural)]
pub enum Opening {
    /// The note that is already there is opened.
    Existing,
    /// A note is placed out of it.
    Place,
}

/// Decides how what was chosen is opened: the note that already exists is preferred over placing a
/// new one over it.
pub fn open_or_place(is_file: bool, has_note: bool) -> (opening: Opening)
    ensures
        opening == (if is_file && has_note {
            Opening::Existing
        } else {
            Opening::Place
        }),
{
    if is_file && has_note {
        Opening::Existing
    } else {
        Opening::Place
    }
}

/// Why a row of the list cannot be opened: its note is gone, and so is the file it was made from.
pub open spec fn gone_text(folder: Seq<char>, source: Option<Seq<char>>) -> Seq<char> {
    match source {
        Some(source) => file_label_of(source)
            + " is gone, and so is the note it was written on"@,
        None => "the note in "@ + folder + " is gone"@,
    }
}

/// Decides how a row of the list is opened.
///
/// The folder is opened when it is there, never the source file. A note whose folder has gone but
/// whose file is still there is placed afresh.
pub fn open_entry(
    folder: &str,
    folder_exists: bool,
    source: Option<&str>,
    source_exists: bool,
) -> (result: Result<Opening, AppError>)
    ensures
        if folder_exists {
            result == Ok::<Opening, AppError>(Opening::Existing)
        } else if source is Some && source_exists {
            result == Ok::<Opening, AppError>(Opening::Place)
        } else {
            result matches Err(AppError::Other(said)) && said@ == gone_text(
                folder@,
                match source {
                    Some(source) => Some(source@),
                    None => None,
                },
            )
        },
{
    if folder_exists {
        return Ok(Opening::Existing);
    }
    match source {
        Some(source) => if source_exists {
            Ok(Opening::Place)
        } else {
            Err(
                AppError::Other(
                    file_label(source).concat(" is gone, and so is the note it was written on"),
                ),
            )
        },
        None => Err(
            AppError::Other(String::from_str("the note in ").concat(folder).concat(" is gone")),
        ),
    }
}

/// Of the chords, N starts a sheet, O opens and S saves; no other is the application's.
pub proof fn a_chord_has_one_meaning(key: Seq<char>)
    ensures
        chord(key) == Some(Command::NewSheet) <==> key == "n"@,
        chord(key) == Some(Command::Open) <==> key == "o"@,
        chord(key) == Some(Command::Save) <==> key == "s"@,
        chord(key) is None <==> key != "n"@ && key != "o"@ && key != "s"@,
{
    reveal_strlit("n");
    reveal_strlit("o");
    reveal_strlit("s");
    assert("n"@[0] == 'n' && "o"@[0] == 'o' && "s"@[0] == 's');
}

/// A note that is gone is told of by the file it was made from, where there was one, and else by its folder.
pub proof fn a_note_that_is_gone_is_named(folder: Seq<char>, source: Seq<char>)
    ensures
        gone_text(folder, None) == "the note in "@ + folder + " is gone"@,
        gone_text(folder, Some(source)) == file_label_of(source)
            + " is gone, and so is the note it was written on"@,
{
}

} // verus!
