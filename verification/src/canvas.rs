//! The sheet: its size, its colours, and what is printed on it.
//!
//! A canvas size is a paper size, and paper is specified in millimetres: storing the physical
//! dimensions once keeps the sizes comparable. The ruling applies to the blank sheet only; a PDF page
//! is its own paper.

use crate::text::same_text;
use vstd::prelude::*;

verus! {

/// The paper sizes the sheet can be.
#[derive(Clone, Copy, Debug, PartialEq, Eq, Structural)]
pub enum CanvasSize {
    /// ISO A4.
    A4,
    /// ISO A5: half of A4.
    A5,
    /// US Letter.
    Letter,
    /// US Legal.
    Legal,
    /// A square sheet.
    Square,
    /// A4 turned on its side.
    Wide,
}

impl CanvasSize {
    /// Every size the toolbar offers, in the order it offers them.
    pub const ALL: [CanvasSize; 6] = [
        CanvasSize::A4,
        CanvasSize::A5,
        CanvasSize::Letter,
        CanvasSize::Legal,
        CanvasSize::Square,
        CanvasSize::Wide,
    ];

    /// The label on this size's button.
    pub open spec fn label_text(self) -> Seq<char> {
        match self {
            CanvasSize::A4 => "A4"@,
            CanvasSize::A5 => "A5"@,
            CanvasSize::Letter => "Letter"@,
            CanvasSize::Legal => "Legal"@,
            CanvasSize::Square => "Square"@,
            CanvasSize::Wide => "Wide"@,
        }
    }

    /// The label on this size's button.
    pub fn label(self) -> (label: &'static str)
        ensures
            label@ == self.label_text(),
    {
        match self {
            CanvasSize::A4 => "A4",
            CanvasSize::A5 => "A5",
            CanvasSize::Letter => "Letter",
            CanvasSize::Legal => "Legal",
            CanvasSize::Square => "Square",
            CanvasSize::Wide => "Wide",
        }
    }

    /// The size a label names.
    pub fn from_label(label: &str) -> (size: Option<CanvasSize>)
        ensures
            match size {
                Some(size) => size.label_text() == label@,
                None => forall|size: CanvasSize| #[trigger] size.label_text() != label@,
            },
    {
        if same_text(label, "A4") {
            Some(CanvasSize::A4)
        } else if same_text(label, "A5") {
            Some(CanvasSize::A5)
        } else if same_text(label, "Letter") {
            Some(CanvasSize::Letter)
        } else if same_text(label, "Legal") {
            Some(CanvasSize::Legal)
        } else if same_text(label, "Square") {
            Some(CanvasSize::Square)
        } else if same_text(label, "Wide") {
            Some(CanvasSize::Wide)
        } else {
            None
        }
    }

    /// The element id of this size's button.
    pub open spec fn button_id_text(self) -> Seq<char> {
        match self {
            CanvasSize::A4 => "size-a4"@,
            CanvasSize::A5 => "size-a5"@,
            CanvasSize::Letter => "size-letter"@,
            CanvasSize::Legal => "size-legal"@,
            CanvasSize::Square => "size-square"@,
            CanvasSize::Wide => "size-wide"@,
        }
    }

    /// The element id of this size's button.
    pub fn button_id(self) -> (id: &'static str)
        ensures
            id@ == self.button_id_text(),
    {
        match self {
            CanvasSize::A4 => "size-a4",
            CanvasSize::A5 => "size-a5",
            CanvasSize::Letter => "size-letter",
            CanvasSize::Legal => "size-legal",
            CanvasSize::Square => "size-square",
            CanvasSize::Wide => "size-wide",
        }
    }

    /// The physical width and height, in tenths of a millimetre.
    pub open spec fn tenths(self) -> (u32, u32) {
        match self {
            CanvasSize::A4 => (2100, 2970),
            CanvasSize::A5 => (1480, 2100),
            CanvasSize::Letter => (2159, 2794),
            CanvasSize::Legal => (2159, 3556),
            CanvasSize::Square => (2000, 2000),
            CanvasSize::Wide => (2970, 2100),
        }
    }

    /// The physical width and height, in tenths of a millimetre.
    pub fn millimetre_tenths(self) -> (size: (u32, u32))
        ensures
            size == self.tenths(),
    {
        match self {
            CanvasSize::A4 => (2100, 2970),
            CanvasSize::A5 => (1480, 2100),
            CanvasSize::Letter => (2159, 2794),
            CanvasSize::Legal => (2159, 3556),
            CanvasSize::Square => (2000, 2000),
            CanvasSize::Wide => (2970, 2100),
        }
    }
}

/// What is printed on a blank sheet.
#[derive(Clone, Copy, Debug, PartialEq, Eq, Structural)]
pub enum CanvasStyle {
    /// Nothing.
    Plain,
    /// Horizontal rules.
    Ruled,
    /// Horizontal and vertical rules.
    Grid,
    /// Dots where the rules of a grid would cross.
    Dots,
}

impl CanvasStyle {
    /// Every style the toolbar offers, in the order it offers them.
    pub const ALL: [CanvasStyle; 4] = [
        CanvasStyle::Plain,
        CanvasStyle::Ruled,
        CanvasStyle::Grid,
        CanvasStyle::Dots,
    ];

    /// The label on this style's button.
    pub open spec fn label_text(self) -> Seq<char> {
        match self {
            CanvasStyle::Plain => "Plain"@,
            CanvasStyle::Ruled => "Ruled"@,
            CanvasStyle::Grid => "Grid"@,
            CanvasStyle::Dots => "Dots"@,
        }
    }

    /// The label on this style's button.
    pub fn label(self) -> (label: &'static str)
        ensures
            label@ == self.label_text(),
    {
        match self {
            CanvasStyle::Plain => "Plain",
            CanvasStyle::Ruled => "Ruled",
            CanvasStyle::Grid => "Grid",
            CanvasStyle::Dots => "Dots",
        }
    }

    /// The style a label names.
    pub fn from_label(label: &str) -> (style: Option<CanvasStyle>)
        ensures
            match style {
                Some(style) => style.label_text() == label@,
                None => forall|style: CanvasStyle| #[trigger] style.label_text() != label@,
            },
    {
        if same_text(label, "Plain") {
            Some(CanvasStyle::Plain)
        } else if same_text(label, "Ruled") {
            Some(CanvasStyle::Ruled)
        } else if same_text(label, "Grid") {
            Some(CanvasStyle::Grid)
        } else if same_text(label, "Dots") {
            Some(CanvasStyle::Dots)
        } else {
            None
        }
    }

    /// The element id of this style's button.
    pub open spec fn button_id_text(self) -> Seq<char> {
        match self {
            CanvasStyle::Plain => "style-plain"@,
            CanvasStyle::Ruled => "style-ruled"@,
            CanvasStyle::Grid => "style-grid"@,
            CanvasStyle::Dots => "style-dots"@,
        }
    }

    /// The element id of this style's button.
    pub fn button_id(self) -> (id: &'static str)
        ensures
            id@ == self.button_id_text(),
    {
        match self {
            CanvasStyle::Plain => "style-plain",
            CanvasStyle::Ruled => "style-ruled",
            CanvasStyle::Grid => "style-grid",
            CanvasStyle::Dots => "style-dots",
        }
    }

    /// The distance between two rules, in whole logical pixels.
    pub fn spacing(self) -> (spacing: Option<u32>)
        ensures
            spacing == (match self {
                CanvasStyle::Plain => None,
                CanvasStyle::Ruled => Some(34u32),
                CanvasStyle::Grid => Some(28u32),
                CanvasStyle::Dots => Some(28u32),
            }),
    {
        match self {
            CanvasStyle::Plain => None,
            CanvasStyle::Ruled => Some(34),
            CanvasStyle::Grid => Some(28),
            CanvasStyle::Dots => Some(28),
        }
    }
}

/// One mark of a ruling, by which rule it is: the first rule is one spacing in.
#[derive(Clone, Copy, Debug, PartialEq, Eq, Structural)]
pub enum Mark {
    /// The horizontal rule of a row.
    Row(usize),
    /// The vertical rule of a column.
    Column(usize),
    /// The dot where a row and a column cross.
    Dot(usize, usize),
}

/// The horizontal rules of a sheet that fits `rows` of them.
pub open spec fn row_marks(rows: nat) -> Seq<Mark> {
    Seq::new(rows, |i: int| Mark::Row((i + 1) as usize))
}

/// The vertical rules of a sheet that fits `columns` of them.
pub open spec fn column_marks(columns: nat) -> Seq<Mark> {
    Seq::new(columns, |i: int| Mark::Column((i + 1) as usize))
}

/// The dots of one row.
pub open spec fn dots_in_row(row: nat, columns: nat) -> Seq<Mark> {
    Seq::new(columns, |i: int| Mark::Dot(row as usize, (i + 1) as usize))
}

/// The dots of the first `rows` rows, row by row.
pub open spec fn dot_marks(rows: nat, columns: nat) -> Seq<Mark>
    decreases rows,
{
    if rows == 0 {
        seq![]
    } else {
        dot_marks((rows - 1) as nat, columns) + dots_in_row(rows, columns)
    }
}

/// What a style prints on a sheet that fits so many rows and columns, in the order it is drawn.
pub open spec fn ruling_of(style: CanvasStyle, rows: nat, columns: nat) -> Seq<Mark> {
    match style {
        CanvasStyle::Plain => seq![],
        CanvasStyle::Ruled => row_marks(rows),
        CanvasStyle::Grid => row_marks(rows) + column_marks(columns),
        CanvasStyle::Dots => dot_marks(rows, columns),
    }
}

/// Appends the horizontal rules.
fn put_rows(marks: &mut Vec<Mark>, rows: usize)
    requires
        rows < usize::MAX,
    ensures
        final(marks)@ == old(marks)@ + row_marks(rows as nat),
{
    let mut row: usize = 0;
    while row < rows
        invariant
            row <= rows < usize::MAX,
            marks@ == old(marks)@ + row_marks(row as nat),
        decreases rows - row,
    {
        row = row + 1;
        marks.push(Mark::Row(row));
        assert(marks@ =~= old(marks)@ + row_marks(row as nat));
    }
}

/// Appends the vertical rules.
fn put_columns(marks: &mut Vec<Mark>, columns: usize)
    requires
        columns < usize::MAX,
    ensures
        final(marks)@ == old(marks)@ + column_marks(columns as nat),
{
    let mut column: usize = 0;
    while column < columns
        invariant
            column <= columns < usize::MAX,
            marks@ == old(marks)@ + column_marks(column as nat),
        decreases columns - column,
    {
        column = column + 1;
        marks.push(Mark::Column(column));
        assert(marks@ =~= old(marks)@ + column_marks(column as nat));
    }
}

/// Appends the dots of one row.
fn put_dots(marks: &mut Vec<Mark>, row: usize, columns: usize)
    requires
        columns < usize::MAX,
    ensures
        final(marks)@ == old(marks)@ + dots_in_row(row as nat, columns as nat),
{
    let mut column: usize = 0;
    while column < columns
        invariant
            column <= columns < usize::MAX,
            marks@ == old(marks)@ + dots_in_row(row as nat, column as nat),
        decreases columns - column,
    {
        column = column + 1;
        marks.push(Mark::Dot(row, column));
        assert(marks@ =~= old(marks)@ + dots_in_row(row as nat, column as nat));
    }
}

/// What is printed on a blank sheet, given how many rules fit down it and across it.
pub fn build_ruling(style: CanvasStyle, rows: usize, columns: usize) -> (marks: Vec<Mark>)
    requires
        rows < usize::MAX,
        columns < usize::MAX,
    ensures
        marks@ == ruling_of(style, rows as nat, columns as nat),
{
    let mut marks: Vec<Mark> = Vec::new();
    match style {
        CanvasStyle::Plain => {},
        CanvasStyle::Ruled => {
            put_rows(&mut marks, rows);
            assert(marks@ =~= row_marks(rows as nat));
        },
        CanvasStyle::Grid => {
            put_rows(&mut marks, rows);
            put_columns(&mut marks, columns);
            assert(marks@ =~= row_marks(rows as nat) + column_marks(columns as nat));
        },
        CanvasStyle::Dots => {
            let mut row: usize = 0;
            while row < rows
                invariant
                    row <= rows < usize::MAX,
                    columns < usize::MAX,
                    marks@ == dot_marks(row as nat, columns as nat),
                decreases rows - row,
            {
                row = row + 1;
                put_dots(&mut marks, row, columns);
            }
        },
    }
    marks
}

/// Only the blank style is left blank: every other prints something on a sheet a rule fits on.
pub proof fn only_the_blank_style_is_left_blank(style: CanvasStyle, rows: nat, columns: nat)
    requires
        rows > 0,
        columns > 0,
    ensures
        ruling_of(style, rows, columns).len() == 0 <==> style == CanvasStyle::Plain,
{
    if style == CanvasStyle::Dots {
        assert(dots_in_row(rows, columns).len() == columns);
    }
}

/// Every mark is one of the rules that fit.
pub proof fn the_ruling_stays_inside_the_sheet(style: CanvasStyle, rows: nat, columns: nat, i: int)
    requires
        rows < usize::MAX,
        columns < usize::MAX,
        0 <= i < ruling_of(style, rows, columns).len(),
    ensures
        match ruling_of(style, rows, columns)[i] {
            Mark::Row(row) => 1 <= row <= rows,
            Mark::Column(column) => 1 <= column <= columns,
            Mark::Dot(row, column) => 1 <= row <= rows && 1 <= column <= columns,
        },
{
    if style == CanvasStyle::Dots {
        dots_stay_inside(rows, columns, i);
    }
}

/// Every dot is in one of the rows and columns that fit.
proof fn dots_stay_inside(rows: nat, columns: nat, i: int)
    requires
        rows < usize::MAX,
        columns < usize::MAX,
        0 <= i < dot_marks(rows, columns).len(),
    ensures
        dot_marks(rows, columns)[i] matches Mark::Dot(row, column) && 1 <= row <= rows && 1
            <= column <= columns,
    decreases rows,
{
    let before = dot_marks((rows - 1) as nat, columns);
    if i < before.len() {
        dots_stay_inside((rows - 1) as nat, columns, i);
    } else {
        assert(dot_marks(rows, columns)[i] == dots_in_row(rows, columns)[i - before.len()]);
    }
}

/// What a ruling is built for: where the sheet is, as the bit patterns of four single-precision
/// numbers, how it is ruled, and its colour.
#[derive(Clone, Copy, Debug, PartialEq, Eq, Structural)]
pub struct RulingKey {
    /// The left edge's bits.
    pub x: u32,
    /// The top edge's bits.
    pub y: u32,
    /// The width's bits.
    pub width: u32,
    /// The height's bits.
    pub height: u32,
    /// The style.
    pub style: CanvasStyle,
    /// The paper's colour.
    pub paper: u32,
}

/// The marks for the current sheet, reused until the sheet changes.
#[derive(Debug)]
pub struct Ruling {
    /// What they were built for.
    pub built_for: Option<RulingKey>,
    /// The marks.
    pub marks: Vec<Mark>,
}

impl Default for Ruling {
    fn default() -> (ruling: Self)
        ensures
            ruling.built_for is None,
            ruling.marks@ == Seq::<Mark>::empty(),
    {
        Ruling { built_for: None, marks: Vec::new() }
    }
}

impl Ruling {
    /// Sees to it that the marks are those of a sheet, and says whether they had to be built: a sheet
    /// that has not changed is not ruled again.
    pub fn quads(&mut self, key: RulingKey, rows: usize, columns: usize) -> (rebuilt: bool)
        requires
            rows < usize::MAX,
            columns < usize::MAX,
        ensures
            rebuilt == (old(self).built_for != Some(key)),
            final(self).built_for == Some(key),
            final(self).marks@ == (if rebuilt {
                ruling_of(key.style, rows as nat, columns as nat)
            } else {
                old(self).marks@
            }),
    {
        let same: bool = match self.built_for {
            Some(built) => built == key,
            None => false,
        };
        if !same {
            self.marks = build_ruling(key.style, rows, columns);
            self.built_for = Some(key);
        }
        !same
    }
}

/// One colour the toolbar offers.
pub struct Swatch {
    /// The colour's name.
    pub name: &'static str,
    /// The element id of its button.
    pub id: &'static str,
    /// The colour, as `0xRRGGBB`.
    pub color: u32,
}

impl Swatch {
    /// Whether this is the swatch of that name, id and colour.
    pub open spec fn shows(self, name: Seq<char>, id: Seq<char>, color: u32) -> bool {
        self.name@ == name && self.id@ == id && self.color == color
    }
}

/// The papers the toolbar offers, in the order it offers them.
pub open spec fn are_papers(swatches: Seq<Swatch>) -> bool {
    &&& swatches.len() == 6
    &&& swatches[0].shows("white"@, "paper-white"@, 0xFF_FF_FF)
    &&& swatches[1].shows("ivory"@, "paper-ivory"@, 0xFA_F3_E3)
    &&& swatches[2].shows("kraft"@, "paper-kraft"@, 0xE7_D8_B4)
    &&& swatches[3].shows("grey"@, "paper-grey"@, 0xE2_E2_E6)
    &&& swatches[4].shows("slate"@, "paper-slate"@, 0x2E_32_3A)
    &&& swatches[5].shows("black"@, "paper-black"@, 0x14_16_1A)
}

/// The papers the toolbar offers, in the order it offers them.
pub fn paper_colors() -> (swatches: Vec<Swatch>)
    ensures
        are_papers(swatches@),
{
    let mut swatches: Vec<Swatch> = Vec::new();
    swatches.push(Swatch { name: "white", id: "paper-white", color: 0xFF_FF_FF });
    swatches.push(Swatch { name: "ivory", id: "paper-ivory", color: 0xFA_F3_E3 });
    swatches.push(Swatch { name: "kraft", id: "paper-kraft", color: 0xE7_D8_B4 });
    swatches.push(Swatch { name: "grey", id: "paper-grey", color: 0xE2_E2_E6 });
    swatches.push(Swatch { name: "slate", id: "paper-slate", color: 0x2E_32_3A });
    swatches.push(Swatch { name: "black", id: "paper-black", color: 0x14_16_1A });
    swatches
}

/// The inks the toolbar offers, in the order it offers them.
pub open spec fn are_inks(swatches: Seq<Swatch>) -> bool {
    &&& swatches.len() == 6
    &&& swatches[0].shows("black"@, "ink-black"@, 0x1B_1B_1F)
    &&& swatches[1].shows("blue"@, "ink-blue"@, 0x1D_4E_D8)
    &&& swatches[2].shows("red"@, "ink-red"@, 0xDC_26_26)
    &&& swatches[3].shows("green"@, "ink-green"@, 0x15_80_3D)
    &&& swatches[4].shows("grey"@, "ink-grey"@, 0x6B_72_80)
    &&& swatches[5].shows("white"@, "ink-white"@, 0xF5_F5_F5)
}

/// The inks the toolbar offers, in the order it offers them.
pub fn ink_colors() -> (swatches: Vec<Swatch>)
    ensures
        are_inks(swatches@),
{
    let mut swatches: Vec<Swatch> = Vec::new();
    swatches.push(Swatch { name: "black", id: "ink-black", color: 0x1B_1B_1F });
    swatches.push(Swatch { name: "blue", id: "ink-blue", color: 0x1D_4E_D8 });
    swatches.push(Swatch { name: "red", id: "ink-red", color: 0xDC_26_26 });
    swatches.push(Swatch { name: "green", id: "ink-green", color: 0x15_80_3D });
    swatches.push(Swatch { name: "grey", id: "ink-grey", color: 0x6B_72_80 });
    swatches.push(Swatch { name: "white", id: "ink-white", color: 0xF5_F5_F5 });
    swatches
}

/// A label leads back to its size: no two sizes share one.
pub proof fn a_label_leads_back_to_its_size(size: CanvasSize, other: CanvasSize)
    requires
        size.label_text() == other.label_text(),
    ensures
        size == other,
{
    reveal_strlit("A4");
    reveal_strlit("A5");
    reveal_strlit("Letter");
    reveal_strlit("Legal");
    reveal_strlit("Square");
    reveal_strlit("Wide");
    assert("A4"@.len() == 2 && "Letter"@.len() == 6 && "Legal"@.len() == 5 && "Wide"@.len() == 4);
    assert("A4"@[1] != "A5"@[1]);
    assert("Letter"@[0] != "Square"@[0]);
}

/// A label leads back to its style: no two styles share one.
pub proof fn a_label_leads_back_to_its_style(style: CanvasStyle, other: CanvasStyle)
    requires
        style.label_text() == other.label_text(),
    ensures
        style == other,
{
    reveal_strlit("Plain");
    reveal_strlit("Ruled");
    reveal_strlit("Grid");
    reveal_strlit("Dots");
    assert("Plain"@[0] != "Ruled"@[0]);
    assert("Grid"@[0] != "Dots"@[0]);
}

/// Every size has a button of its own.
pub proof fn every_size_has_its_own_button(size: CanvasSize, other: CanvasSize)
    requires
        size.button_id_text() == other.button_id_text(),
    ensures
        size == other,
{
    reveal_strlit("size-a4");
    reveal_strlit("size-a5");
    reveal_strlit("size-letter");
    reveal_strlit("size-legal");
    reveal_strlit("size-square");
    reveal_strlit("size-wide");
    assert("size-a4"@.len() == 7 && "size-letter"@.len() == 11 && "size-legal"@.len() == 10
        && "size-wide"@.len() == 9);
    assert("size-a4"@[6] != "size-a5"@[6]);
    assert("size-letter"@[5] != "size-square"@[5]);
}

/// Every style has a button of its own.
pub proof fn every_style_has_its_own_button(style: CanvasStyle, other: CanvasStyle)
    requires
        style.button_id_text() == other.button_id_text(),
    ensures
        style == other,
{
    reveal_strlit("style-plain");
    reveal_strlit("style-ruled");
    reveal_strlit("style-grid");
    reveal_strlit("style-dots");
    assert("style-plain"@[6] != "style-ruled"@[6]);
    assert("style-grid"@[6] != "style-dots"@[6]);
}

/// The sheets are the sizes paper comes in: A4 and the half of it, the American sizes in inches, a square, and
/// A4 on its side.
pub proof fn a_sheet_is_as_large_as_its_paper()
    ensures
        CanvasSize::A4.tenths() == (2100u32, 2970u32),
        CanvasSize::A5.tenths() == (1480u32, 2100u32),
        CanvasSize::A5.tenths().1 == CanvasSize::A4.tenths().0,
        2 * CanvasSize::Letter.tenths().0 == 17 * 254,
        CanvasSize::Letter.tenths().1 == 11 * 254,
        CanvasSize::Legal.tenths().0 == CanvasSize::Letter.tenths().0,
        CanvasSize::Legal.tenths().1 == 14 * 254,
        CanvasSize::Square.tenths().0 == CanvasSize::Square.tenths().1 == 2000,
        CanvasSize::Wide.tenths().0 == CanvasSize::A4.tenths().1,
        CanvasSize::Wide.tenths().1 == CanvasSize::A4.tenths().0,
{
}

/// A size is called by its name, and its button after it.
pub proof fn a_size_is_called_by_its_name()
    ensures
        CanvasSize::A4.label_text() == "A4"@,
        CanvasSize::A5.label_text() == "A5"@,
        CanvasSize::Letter.label_text() == "Letter"@,
        CanvasSize::Legal.label_text() == "Legal"@,
        CanvasSize::Square.label_text() == "Square"@,
        CanvasSize::Wide.label_text() == "Wide"@,
        CanvasSize::A4.button_id_text() == "size-a4"@,
        CanvasSize::A5.button_id_text() == "size-a5"@,
        CanvasSize::Letter.button_id_text() == "size-letter"@,
        CanvasSize::Legal.button_id_text() == "size-legal"@,
        CanvasSize::Square.button_id_text() == "size-square"@,
        CanvasSize::Wide.button_id_text() == "size-wide"@,
{
}

/// A style is called by its name, and its button after it.
pub proof fn a_style_is_called_by_its_name()
    ensures
        CanvasStyle::Plain.label_text() == "Plain"@,
        CanvasStyle::Ruled.label_text() == "Ruled"@,
        CanvasStyle::Grid.label_text() == "Grid"@,
        CanvasStyle::Dots.label_text() == "Dots"@,
        CanvasStyle::Plain.button_id_text() == "style-plain"@,
        CanvasStyle::Ruled.button_id_text() == "style-ruled"@,
        CanvasStyle::Grid.button_id_text() == "style-grid"@,
        CanvasStyle::Dots.button_id_text() == "style-dots"@,
{
}

/// A ruled sheet has each of its rules, from the top; a grid has those and then its columns, from the left;
/// a plain one has nothing.
pub proof fn a_sheet_is_ruled_from_the_top(rows: nat, columns: nat, i: int)
    requires
        rows < usize::MAX,
        columns < usize::MAX,
        1 <= i,
    ensures
        ruling_of(CanvasStyle::Plain, rows, columns).len() == 0,
        ruling_of(CanvasStyle::Ruled, rows, columns).len() == rows,
        ruling_of(CanvasStyle::Grid, rows, columns).len() == rows + columns,
        i <= rows ==> ruling_of(CanvasStyle::Ruled, rows, columns)[i - 1] == Mark::Row(i as usize),
        i <= rows ==> ruling_of(CanvasStyle::Grid, rows, columns)[i - 1] == Mark::Row(i as usize),
        i <= columns ==> ruling_of(CanvasStyle::Grid, rows, columns)[rows + i - 1] == Mark::Column(
            i as usize,
        ),
{
}

/// A dotted sheet has a dot where each of its rows and columns cross, row by row.
pub proof fn a_dot_stands_where_rules_cross(rows: nat, columns: nat, row: int, column: int)
    requires
        rows < usize::MAX,
        columns < usize::MAX,
        1 <= row <= rows,
        1 <= column <= columns,
    ensures
        ruling_of(CanvasStyle::Dots, rows, columns).len() == rows * columns,
        0 <= (row - 1) * columns + column - 1 < rows * columns,
        ruling_of(CanvasStyle::Dots, rows, columns)[(row - 1) * columns + column - 1] == Mark::Dot(
            row as usize,
            column as usize,
        ),
    decreases rows,
{
    let less = (rows - 1) as nat;
    dots_are_counted(rows, columns);
    dots_are_counted(less, columns);
    assert(rows * columns == less * columns + columns) by (nonlinear_arith)
        requires
            rows == less + 1,
    ;
    assert(0 <= (row - 1) * columns) by (nonlinear_arith)
        requires
            1 <= row,
    ;
    if row < rows {
        a_dot_stands_where_rules_cross(less, columns, row, column);
    } else {
        assert(dots_in_row(rows, columns)[column - 1] == Mark::Dot(row as usize, column as usize));
    }
}

/// There are as many dots as rows and columns cross.
proof fn dots_are_counted(rows: nat, columns: nat)
    ensures
        dot_marks(rows, columns).len() == rows * columns,
    decreases rows,
{
    if rows > 0 {
        let less = (rows - 1) as nat;
        dots_are_counted(less, columns);
        assert(rows * columns == less * columns + columns) by (nonlinear_arith)
            requires
                rows == less + 1,
        ;
    } else {
        assert(rows * columns == 0) by (nonlinear_arith)
            requires
                rows == 0,
        ;
    }
}

/// A swatch shows its own name, its own button and its own colour.
pub proof fn a_swatch_shows_its_colour(swatch: Swatch, name: Seq<char>, id: Seq<char>, color: u32)
    ensures
        swatch.shows(name, id, color) <==> swatch.name@ == name && swatch.id@ == id && swatch.color
            == color,
{
}

/// The papers go from white to black, and no two are alike; the inks begin with the one a stroke has that
/// nobody chose one for, and no two are alike.
pub proof fn the_colours_differ(papers: Seq<Swatch>, inks: Seq<Swatch>, i: int, j: int)
    requires
        are_papers(papers),
        are_inks(inks),
        0 <= i < j < 6,
    ensures
        papers.len() == 6,
        inks.len() == 6,
        papers[0].color == 0xFF_FF_FF && papers[0].name@ == "white"@,
        papers[1].color == 0xFA_F3_E3 && papers[1].name@ == "ivory"@,
        papers[2].color == 0xE7_D8_B4 && papers[2].name@ == "kraft"@,
        papers[3].color == 0xE2_E2_E6 && papers[3].name@ == "grey"@,
        papers[4].color == 0x2E_32_3A && papers[4].name@ == "slate"@,
        papers[5].color == 0x14_16_1A && papers[5].name@ == "black"@,
        inks[0].color == 0x1B_1B_1F && inks[0].name@ == "black"@,
        inks[1].color == 0x1D_4E_D8 && inks[1].name@ == "blue"@,
        inks[2].color == 0xDC_26_26 && inks[2].name@ == "red"@,
        inks[3].color == 0x15_80_3D && inks[3].name@ == "green"@,
        inks[4].color == 0x6B_72_80 && inks[4].name@ == "grey"@,
        inks[5].color == 0xF5_F5_F5 && inks[5].name@ == "white"@,
        papers[i].color != papers[j].color,
        inks[i].color != inks[j].color,
{
    assert(i == 0 || i == 1 || i == 2 || i == 3 || i == 4);
    assert(j == 1 || j == 2 || j == 3 || j == 4 || j == 5);
}

} // verus!
