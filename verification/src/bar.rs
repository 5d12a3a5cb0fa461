//! What stands around the sheet: the bar over it, the pills under it, and the controls they hold.
//!
//! A control has an element id of its own, words that name it, whether it can act, and whether it is
//! the one in use. What cannot act says so: a command that is offered and then does nothing cannot be
//! told from a broken one.

use crate::canvas::{ink_colors, paper_colors, Swatch};
use crate::ink::Tool;
use crate::text::decimal;
use vstd::prelude::*;

verus! {

/// One control.
#[derive(Clone, Copy, Debug)]
pub struct Control {
    /// Its element id.
    pub id: &'static str,
    /// The words that name it.
    pub label: &'static str,
    /// Whether it can act.
    pub enabled: bool,
    /// Whether it is the tool in hand, or a switch that is on.
    pub active: bool,
}

impl Control {
    /// Whether this is the control of that id and those words.
    pub open spec fn is(self, id: Seq<char>, label: Seq<char>) -> bool {
        self.id@ == id && self.label@ == label
    }

    /// Whether this is a command of that id and those words, which can act or cannot.
    pub open spec fn commands(self, id: Seq<char>, label: Seq<char>, enabled: bool) -> bool {
        self.is(id, label) && self.enabled == enabled && !self.active
    }

    /// Whether this is a choice of that id and those words, which is in use or is not.
    pub open spec fn chooses(self, id: Seq<char>, label: Seq<char>, active: bool) -> bool {
        self.is(id, label) && self.enabled && self.active == active
    }
}

/// A command.
fn command(id: &'static str, label: &'static str, enabled: bool) -> (control: Control)
    ensures
        control.commands(id@, label@, enabled),
{
    Control { id, label, enabled, active: false }
}

/// A choice.
fn choice(id: &'static str, label: &'static str, active: bool) -> (control: Control)
    ensures
        control.chooses(id@, label@, active),
{
    Control { id, label, enabled: true, active }
}

// ---------------------------------------------------------------------------------------------
// The bar
// ---------------------------------------------------------------------------------------------

/// What a person has chosen to see.
#[derive(Clone, Copy, Debug, PartialEq, Eq, Structural)]
pub struct Shown {
    /// The bar.
    pub toolbar: bool,
    /// The live counters.
    pub status: bool,
    /// The pen's ghost cursor.
    pub tilt_cursor: bool,
}

/// The bar's first row.
#[derive(Debug)]
pub struct CommandRow {
    /// What the nib does.
    pub tools: Vec<Control>,
    /// What acts on the note, in the order it is reached for.
    pub actions: Vec<Control>,
    /// What is seen.
    pub switches: Vec<Control>,
}

/// The bar's first row: the tool in hand is marked, and taking back and putting back are offered only
/// when the page's history says they would do something.
pub fn command_row(mode: Tool, can_undo: bool, can_redo: bool, shown: Shown) -> (row: CommandRow)
    ensures
        row.tools@.len() == 2,
        row.tools@[0].chooses("tool-pen"@, "Pen"@, mode == Tool::Pen),
        row.tools@[1].chooses("tool-eraser"@, "Eraser"@, mode == Tool::Eraser),
        row.actions@.len() == 6,
        row.actions@[0].commands("home"@, "What you have been writing (Esc)"@, true),
        row.actions@[1].commands("undo"@, "Undo (Ctrl+Z)"@, can_undo),
        row.actions@[2].commands("redo"@, "Redo (Ctrl+Y)"@, can_redo),
        row.actions@[3].commands("clear"@, "Clear the ink"@, true),
        row.actions@[4].commands("open-note"@, "Open a note or a PDF"@, true),
        row.actions@[5].commands("save-note"@, "Save the note"@, true),
        row.switches@.len() == 3,
        row.switches@[0].chooses("show-bar"@, "Bar"@, shown.toolbar),
        row.switches@[1].chooses("show-status"@, "Status"@, shown.status),
        row.switches@[2].chooses("show-tilt"@, "Tilt"@, shown.tilt_cursor),
{
    let mut tools: Vec<Control> = Vec::new();
    tools.push(choice("tool-pen", "Pen", mode == Tool::Pen));
    tools.push(choice("tool-eraser", "Eraser", mode == Tool::Eraser));

    let mut actions: Vec<Control> = Vec::new();
    actions.push(command("home", "What you have been writing (Esc)", true));
    actions.push(command("undo", "Undo (Ctrl+Z)", can_undo));
    actions.push(command("redo", "Redo (Ctrl+Y)", can_redo));
    actions.push(command("clear", "Clear the ink", true));
    actions.push(command("open-note", "Open a note or a PDF", true));
    actions.push(command("save-note", "Save the note", true));

    let mut switches: Vec<Control> = Vec::new();
    switches.push(choice("show-bar", "Bar", shown.toolbar));
    switches.push(choice("show-status", "Status", shown.status));
    switches.push(choice("show-tilt", "Tilt", shown.tilt_cursor));

    CommandRow { tools, actions, switches }
}

/// Which of some swatches are in use.
pub open spec fn marks_of(swatches: Seq<Swatch>, color: u32) -> Seq<bool> {
    Seq::new(swatches.len(), |i: int| swatches[i].color == color)
}

/// Marks the swatches of the colour in use.
fn marks(swatches: &Vec<Swatch>, color: u32) -> (marks: Vec<bool>)
    ensures
        marks@ == marks_of(swatches@, color),
{
    let mut marks: Vec<bool> = Vec::new();
    for i in 0..swatches.len()
        invariant
            marks@ == marks_of(swatches@, color).take(i as int),
    {
        marks.push(swatches[i].color == color);
        assert(marks@ =~= marks_of(swatches@, color).take(i + 1));
    }
    assert(marks_of(swatches@, color).take(swatches@.len() as int) =~= marks_of(swatches@, color));
    marks
}

/// The bar's second row: the page, and the sheet that is written on.
pub struct SheetRow {
    /// What changes how many pages there are.
    pub pages: Vec<Control>,
    /// The papers that are offered.
    pub papers: Vec<Swatch>,
    /// Which of them is in use.
    pub paper_in_use: Vec<bool>,
    /// The inks that are offered.
    pub inks: Vec<Swatch>,
    /// Which of them is in hand.
    pub ink_in_use: Vec<bool>,
    /// Whether pages are shown in grey.
    pub grayscale: Control,
}

/// The bar's second row: the colours in use are marked.
pub fn sheet_row(page_color: u32, ink_color: u32, grayscale: bool) -> (row: SheetRow)
    ensures
        row.pages@.len() == 3,
        row.pages@[0].commands("page-before"@, "Add a page before this one"@, true),
        row.pages@[1].commands("page-after"@, "Add a page after this one"@, true),
        row.pages@[2].commands("page-delete"@, "Delete this page"@, true),
        crate::canvas::are_papers(row.papers@),
        row.paper_in_use@ == marks_of(row.papers@, page_color),
        crate::canvas::are_inks(row.inks@),
        row.ink_in_use@ == marks_of(row.inks@, ink_color),
        row.grayscale.chooses("gray-pages"@, "Gray"@, grayscale),
{
    let mut pages: Vec<Control> = Vec::new();
    pages.push(command("page-before", "Add a page before this one", true));
    pages.push(command("page-after", "Add a page after this one", true));
    pages.push(command("page-delete", "Delete this page", true));

    let papers: Vec<Swatch> = paper_colors();
    let inks: Vec<Swatch> = ink_colors();
    let paper_in_use: Vec<bool> = marks(&papers, page_color);
    let ink_in_use: Vec<bool> = marks(&inks, ink_color);
    SheetRow {
        pages,
        papers,
        paper_in_use,
        inks,
        ink_in_use,
        grayscale: choice("gray-pages", "Gray", grayscale),
    }
}

/// What stands where the note's name does.
#[derive(Clone, Copy, Debug, PartialEq, Eq, Structural)]
pub enum TitleChip {
    /// The field the name is typed into.
    Field,
    /// The name.
    Name,
    /// Words for a note that has none.
    Untitled,
}

/// The words for a note that has no name.
pub const UNTITLED_NOTE: &'static str = "Untitled note";

/// How many clicks on the name turn it into a field.
pub const NAMING_CLICKS: usize = 2;

/// What stands where the note's name does: a name is edited where it is read.
pub fn title_chip(naming: bool, title: &str) -> (chip: TitleChip)
    ensures
        chip == (if naming {
            TitleChip::Field
        } else if title@.len() > 0 {
            TitleChip::Name
        } else {
            TitleChip::Untitled
        }),
{
    if naming {
        TitleChip::Field
    } else if title.unicode_len() > 0 {
        TitleChip::Name
    } else {
        TitleChip::Untitled
    }
}

/// Whether clicks on the name ask for it to be edited: a label that acted on one click would act on
/// every stray one.
pub fn click_names(clicks: usize) -> (asks: bool)
    ensures
        asks == (clicks >= NAMING_CLICKS),
{
    clicks >= NAMING_CLICKS
}

// ---------------------------------------------------------------------------------------------
// The pills
// ---------------------------------------------------------------------------------------------

/// The page pill: the ways to the pages on either side, and which page this is.
#[derive(Debug)]
pub struct PagePill {
    /// The way back.
    pub previous: Control,
    /// Which page of how many.
    pub text: String,
    /// The way forward.
    pub next: Control,
}

/// The page pill: a note with no pages reads as one of one rather than as a count of nothing.
pub fn page_pill(page: usize, total: usize) -> (pill: PagePill)
    requires
        page < usize::MAX,
    ensures
        pill.previous.commands("page-prev"@, "Previous page (Left arrow)"@, true),
        pill.next.commands("page-next"@, "Next page (Right arrow)"@, true),
        pill.text@ == crate::text::decimal_text((page + 1) as nat) + " / "@
            + crate::text::decimal_text(
            if total == 0 {
                1
            } else {
                total as nat
            },
        ),
{
    let last: usize = if total == 0 {
        1
    } else {
        total
    };
    PagePill {
        previous: command("page-prev", "Previous page (Left arrow)", true),
        text: decimal((page + 1) as u64).concat(" / ").concat(decimal(last as u64).as_str()),
        next: command("page-next", "Next page (Right arrow)", true),
    }
}

/// The steps of the zoom.
pub fn zoom_steps() -> (steps: Vec<Control>)
    ensures
        steps@.len() == 2,
        steps@[0].commands("zoom-out"@, "Zoom out"@, true),
        steps@[1].commands("zoom-in"@, "Zoom in"@, true),
{
    let mut steps: Vec<Control> = Vec::new();
    steps.push(command("zoom-out", "Zoom out", true));
    steps.push(command("zoom-in", "Zoom in", true));
    steps
}

/// The way back to a bar that is hidden.
pub fn bar_handle() -> (handle: Control)
    ensures
        handle.commands("show-bar-again"@, "Show the bar"@, true),
{
    command("show-bar-again", "Show the bar", true)
}

// ---------------------------------------------------------------------------------------------
// The window
// ---------------------------------------------------------------------------------------------

/// What stands around a sheet.
#[derive(Clone, Copy, Debug, PartialEq, Eq, Structural)]
pub struct Surroundings {
    /// The bar, which holds the switch that hides it.
    pub bar: bool,
    /// The handle that brings a hidden bar back.
    pub handle: bool,
    /// The counters.
    pub status: bool,
    /// The page pill.
    pub page: bool,
    /// The zoom pill.
    pub zoom: bool,
}

/// What the window shows.
#[derive(Clone, Copy, Debug, PartialEq, Eq, Structural)]
pub enum Front {
    /// The list of notes, and nothing of the sheet.
    Home,
    /// The sheet, and what stands around it.
    Sheet(Surroundings),
}

/// What the window shows: a list of what was written is not something to draw ink behind, and the
/// page and the zoom stay when the bar goes.
pub fn front(home_open: bool, shown: Shown) -> (front: Front)
    ensures
        front == front_of(home_open, shown),
{
    if home_open {
        Front::Home
    } else {
        Front::Sheet(
            Surroundings {
                bar: shown.toolbar,
                handle: !shown.toolbar,
                status: shown.status,
                page: true,
                zoom: true,
            },
        )
    }
}

/// What the window shows.
pub open spec fn front_of(home_open: bool, shown: Shown) -> Front {
    if home_open {
        Front::Home
    } else {
        Front::Sheet(
            Surroundings {
                bar: shown.toolbar,
                handle: !shown.toolbar,
                status: shown.status,
                page: true,
                zoom: true,
            },
        )
    }
}

/// A bar that can be hidden is never hidden for good: wherever the sheet is in front, either the bar is
/// there, with its switch, or the handle that brings it back; and the page and the zoom are always
/// within reach.
pub proof fn the_bar_can_always_be_brought_back(home_open: bool, shown: Shown)
    ensures
        front_of(home_open, shown) matches Front::Sheet(around) ==> (around.bar || around.handle)
            && !(around.bar && around.handle) && around.page && around.zoom,
{
}

/// Whether a frame has to be drawn for a batch of readings: ink was laid, or the cursor moved.
pub fn frame_is_due(laid_ink: bool, cursor_moved: bool) -> (due: bool)
    ensures
        due == (laid_ink || cursor_moved),
{
    laid_ink || cursor_moved
}

/// A command has its id and its words and can act or cannot, and is never marked; a choice can always act, and
/// is marked where it is in use.
pub proof fn a_control_is_what_it_says(control: Control, id: Seq<char>, label: Seq<char>, on: bool)
    ensures
        control.commands(id, label, on) <==> control.id@ == id && control.label@ == label
            && control.enabled == on && !control.active,
        control.chooses(id, label, on) <==> control.id@ == id && control.label@ == label
            && control.enabled && control.active == on,
{
}

/// A swatch is marked exactly where it is the colour in use, each in its own place.
pub proof fn the_colour_in_use_is_marked(swatches: Seq<Swatch>, color: u32, i: int)
    requires
        0 <= i < swatches.len(),
    ensures
        marks_of(swatches, color).len() == swatches.len(),
        marks_of(swatches, color)[i] <==> swatches[i].color == color,
{
}

/// The list is in front exactly where it is open; else the sheet is, with the bar and the counters where they
/// are chosen, and the handle where the bar is not.
pub proof fn what_is_chosen_is_shown(shown: Shown)
    ensures
        front_of(true, shown) == Front::Home,
        front_of(false, shown) matches Front::Sheet(around) && around.bar == shown.toolbar
            && around.handle == !shown.toolbar && around.status == shown.status && around.page
            && around.zoom,
{
}

/// A name is edited by a double click, and a note without one is called untitled.
pub proof fn a_double_click_names()
    ensures
        NAMING_CLICKS == 2,
        UNTITLED_NOTE@ == "Untitled note"@,
{
}

} // verus!
